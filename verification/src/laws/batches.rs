//! What is done with the files of a tree.
use vstd::prelude::*;

use crate::batch::{
    self, Batch, BatchArgs, BatchError, BatchErrorView, BatchEvent, BatchEventView, BatchPhase,
    BatchView, DirKind, Remark, RemarkView, Shown,
};
use crate::command::EncodeError;
use crate::ffmpeg::{Av1Encoder, DetectError, ProbeError, Tool};
use crate::naming;
use crate::path;
use crate::text;
use crate::utf8;

verus! {

/// What a batch does with the file at `at`, step by step, with what is said after each.
pub open spec fn course(
    batch: BatchView,
    args: BatchArgs,
    shown: Shown,
    at: int,
    steps: nat,
) -> Seq<(BatchPhase, RemarkView)>
    decreases steps,
{
    if steps == 0 || batch.file != at || batch.phase == BatchPhase::Refused {
        Seq::empty()
    } else {
        let (next, remark) = batch.next(args, shown.answer(batch.phase));
        seq![(batch.phase, remark)] + course(next, args, shown, at, (steps - 1) as nat)
    }
}

/// The batch after these steps.
pub open spec fn outcome(
    batch: BatchView,
    args: BatchArgs,
    shown: Shown,
    at: int,
    steps: nat,
) -> BatchView
    decreases steps,
{
    if steps == 0 || batch.file != at || batch.phase == BatchPhase::Refused {
        batch
    } else {
        outcome(
            batch.next(args, shown.answer(batch.phase)).0,
            args,
            shown,
            at,
            (steps - 1) as nat,
        )
    }
}

/// A step, if it is taken, and then the rest.
pub open spec fn chain(
    taken: bool,
    phase: BatchPhase,
    remark: RemarkView,
    rest: Seq<(BatchPhase, RemarkView)>,
) -> Seq<(BatchPhase, RemarkView)> {
    if taken {
        seq![(phase, remark)] + rest
    } else {
        rest
    }
}

/// With the next file, or at the end after the last one.
pub open spec fn is_past(before: BatchView, after: BatchView) -> bool {
    &&& after.file == before.file + 1
    &&& after.phase == if before.file + 1 < before.videos.len() {
        BatchPhase::Probe
    } else {
        BatchPhase::Over
    }
    &&& after.videos == before.videos
    &&& after.encoder == before.encoder
    &&& after.error is None
}

proof fn lemma_step(batch: BatchView, args: BatchArgs, shown: Shown, at: int, steps: nat)
    requires
        steps > 0,
        batch.file == at,
        batch.phase != BatchPhase::Refused,
    ensures
        ({
            let (next, remark) = batch.next(args, shown.answer(batch.phase));
            &&& course(batch, args, shown, at, steps) == seq![(batch.phase, remark)] + course(
                next,
                args,
                shown,
                at,
                (steps - 1) as nat,
            )
            &&& outcome(batch, args, shown, at, steps) == outcome(
                next,
                args,
                shown,
                at,
                (steps - 1) as nat,
            )
        }),
{
}

proof fn lemma_stop(batch: BatchView, args: BatchArgs, shown: Shown, at: int, steps: nat)
    requires
        batch.file != at || batch.phase == BatchPhase::Refused,
    ensures
        course(batch, args, shown, at, steps) == Seq::<(BatchPhase, RemarkView)>::empty(),
        outcome(batch, args, shown, at, steps) == batch,
{
}

/// From where the target can be written to on, if it comes to that.
spec fn clear_course(clear: bool, args: BatchArgs, target: Seq<u8>, shown: Shown) -> Seq<
    (BatchPhase, RemarkView),
> {
    let tried = clear && !args.dry_run && (path::parent(target) is None || shown.made_dirs);
    chain(
        clear && !args.dry_run && path::parent(target) is Some,
        BatchPhase::MakeDirs,
        RemarkView::Nothing,
        chain(
            tried,
            BatchPhase::Encode,
            match shown.encoded {
                Some(e) => RemarkView::EncodeFailed(e),
                None => RemarkView::Converted,
            },
            chain(
                tried && shown.encoded is Some,
                BatchPhase::RemoveOutput,
                RemarkView::Nothing,
                chain(
                    tried && shown.encoded is None && args.replace,
                    BatchPhase::RemoveSource,
                    RemarkView::Nothing,
                    Seq::empty(),
                ),
            ),
        ),
    )
}

/// What is left to count from there on.
spec fn is_clear_end(
    batch: BatchView,
    args: BatchArgs,
    target: Seq<u8>,
    shown: Shown,
    end: BatchView,
) -> bool {
    let fatal = !args.dry_run && path::parent(target) is Some && !shown.made_dirs;
    let tried = !args.dry_run && !fatal;
    &&& end.converted == batch.converted + if tried && shown.encoded is None {
        1int
    } else {
        0
    }
    &&& end.failed == batch.failed + if tried && shown.encoded is Some {
        1int
    } else {
        0
    }
    &&& end.skipped == batch.skipped
    &&& fatal ==> end.phase == BatchPhase::Refused && end.error == Some(
        BatchErrorView::CreateDir(path::parent(target)->0),
    )
    &&& !fatal ==> is_past(batch, end)
}

#[verifier::spinoff_prover]
proof fn lemma_encode(batch: BatchView, args: BatchArgs, shown: Shown, steps: nat)
    requires
        batch.phase == BatchPhase::Encode,
        batch.error is None,
        batch.file < batch.videos.len(),
        steps >= 2,
    ensures
        course(batch, args, shown, batch.file, steps) == chain(
            true,
            BatchPhase::Encode,
            match shown.encoded {
                Some(e) => RemarkView::EncodeFailed(e),
                None => RemarkView::Converted,
            },
            chain(
                shown.encoded is Some,
                BatchPhase::RemoveOutput,
                RemarkView::Nothing,
                chain(
                    shown.encoded is None && args.replace,
                    BatchPhase::RemoveSource,
                    RemarkView::Nothing,
                    Seq::empty(),
                ),
            ),
        ),
        ({
            let end = outcome(batch, args, shown, batch.file, steps);
            &&& is_past(batch, end)
            &&& end.skipped == batch.skipped
            &&& end.converted == batch.converted + if shown.encoded is None {
                1int
            } else {
                0
            }
            &&& end.failed == batch.failed + if shown.encoded is Some {
                1int
            } else {
                0
            }
        }),
{
    let at = batch.file;
    let a = batch.next(args, shown.answer(batch.phase)).0;
    lemma_step(batch, args, shown, at, steps);
    if a.file != at {
        lemma_stop(a, args, shown, at, (steps - 1) as nat);
    } else {
        let b = a.next(args, shown.answer(a.phase)).0;
        lemma_step(a, args, shown, at, (steps - 1) as nat);
        lemma_stop(b, args, shown, at, (steps - 2) as nat);
    }
}

#[verifier::spinoff_prover]
proof fn lemma_clear(batch: BatchView, args: BatchArgs, shown: Shown, steps: nat)
    requires
        batch.error is None,
        batch.target is Some,
        batch.file < batch.videos.len(),
        steps >= 3,
    ensures
        ({
            let clear = batch.clear_to_write(args).0;
            let end = outcome(clear, args, shown, batch.file, steps);
            &&& course(clear, args, shown, batch.file, steps) == clear_course(
                true,
                args,
                batch.target->0,
                shown,
            )
            &&& is_clear_end(batch, args, batch.target->0, shown, end)
        }),
{
    let at = batch.file;
    let clear = batch.clear_to_write(args).0;
    if args.dry_run {
        lemma_stop(clear, args, shown, at, steps);
    } else if path::parent(batch.target->0) is Some {
        let made = clear.next(args, shown.answer(clear.phase)).0;
        lemma_step(clear, args, shown, at, steps);
        if shown.made_dirs {
            lemma_encode(made, args, shown, (steps - 1) as nat);
        } else {
            lemma_stop(made, args, shown, at, (steps - 1) as nat);
        }
    } else {
        lemma_encode(clear, args, shown, steps);
    }
}

/// What is done with a file, in this order and with no other step between:
///
/// it is probed; if it has a video stream, and is not AV1 with AV1 files left alone, the
/// place of the result is found; unless files are overwritten it is seen whether anything is
/// there; unless this is a dry run the directory is created and the encoder run; what a
/// failed encoder wrote is removed; and after a successful one the source is removed if that
/// is wanted. It is counted once: as converted where the encoder succeeded, as failed where
/// it or the probe failed, as skipped where it was not tried, and not at all in a dry run.
#[verifier::spinoff_prover]
pub proof fn law_course_of_a_file(batch: BatchView, args: BatchArgs, shown: Shown)
    requires
        batch.wf(),
        batch.phase == BatchPhase::Probe,
    ensures
        ({
            let input = batch.videos[batch.file];
            let dir = batch::batch_dir(args, input);
            let first = naming::choice(input, dir, args.suffix@);
            let target = naming::settled(input, dir, args.suffix@, shown.choice, shown.input);
            let wanted = match shown.probe {
                Ok(Some(codec)) => !(args.skip_av1 && codec == "av1"@),
                _ => false,
            };
            let placed = wanted && target is Some;
            let clear = placed && (args.overwrite || !shown.exists);
            let fatal = clear && !args.dry_run && path::parent(target->0) is Some
                && !shown.made_dirs;
            let tried = clear && !args.dry_run && !fatal;
            let would = if args.dry_run {
                RemarkView::WouldWrite(target->0)
            } else {
                RemarkView::Nothing
            };
            let end = outcome(batch, args, shown, batch.file, 6);
            &&& course(batch, args, shown, batch.file, 6) == chain(
                true,
                BatchPhase::Probe,
                match shown.probe {
                    Err(e) => RemarkView::ProbeFailed(e),
                    Ok(None) => RemarkView::NoVideo,
                    Ok(Some(_)) => if !wanted {
                        RemarkView::AlreadyAv1
                    } else if first is None {
                        RemarkView::NoOutputPath
                    } else {
                        RemarkView::Nothing
                    },
                },
                chain(
                    wanted && first is Some,
                    BatchPhase::Resolve,
                    if target is None {
                        RemarkView::NoOutputPath
                    } else if args.overwrite {
                        would
                    } else {
                        RemarkView::Nothing
                    },
                    chain(
                        placed && !args.overwrite,
                        BatchPhase::Exists,
                        if shown.exists {
                            RemarkView::OutputExists(target->0)
                        } else {
                            would
                        },
                        chain(
                            clear && !args.dry_run && path::parent(target->0) is Some,
                            BatchPhase::MakeDirs,
                            RemarkView::Nothing,
                            chain(
                                tried,
                                BatchPhase::Encode,
                                match shown.encoded {
                                    Some(e) => RemarkView::EncodeFailed(e),
                                    None => RemarkView::Converted,
                                },
                                chain(
                                    tried && shown.encoded is Some,
                                    BatchPhase::RemoveOutput,
                                    RemarkView::Nothing,
                                    chain(
                                        tried && shown.encoded is None && args.replace,
                                        BatchPhase::RemoveSource,
                                        RemarkView::Nothing,
                                        Seq::empty(),
                                    ),
                                ),
                            ),
                        ),
                    ),
                ),
            )
            &&& end.converted == batch.converted + if tried && shown.encoded is None {
                1int
            } else {
                0
            }
            &&& end.failed == batch.failed + if shown.probe is Err || (tried
                && shown.encoded is Some) {
                1int
            } else {
                0
            }
            &&& end.skipped == batch.skipped + if shown.probe is Ok && !clear {
                1int
            } else {
                0
            }
            &&& fatal ==> end.phase == BatchPhase::Refused && end.error == Some(
                BatchErrorView::CreateDir(path::parent(target->0)->0),
            )
            &&& !fatal ==> is_past(batch, end)
        }),
{
    let at = batch.file;
    let input = batch.videos[at];
    let dir = batch::batch_dir(args, input);
    let target = naming::settled(input, dir, args.suffix@, shown.choice, shown.input);
    if naming::choice(input, dir, args.suffix@) is None {
        naming::lemma_no_choice(input, dir, args.suffix@, shown.choice, shown.input);
    }
    let a = batch.next(args, shown.answer(batch.phase)).0;
    lemma_step(batch, args, shown, at, 6);
    if a.file != at {
        lemma_stop(a, args, shown, at, 5);
    } else {
        let b = a.next(args, shown.answer(a.phase)).0;
        lemma_step(a, args, shown, at, 5);
        if target is None {
            lemma_stop(b, args, shown, at, 4);
        } else if args.overwrite {
            lemma_clear(BatchView { target, ..a }, args, shown, 4);
        } else {
            lemma_step(b, args, shown, at, 4);
            if shown.exists {
                lemma_stop(b.skip(), args, shown, at, 3);
            } else {
                lemma_clear(b, args, shown, 3);
            }
        }
    }
}

/// The target of a file is found where it and its first choice are resolved.
pub proof fn law_target_is_found(
    batch: BatchView,
    args: BatchArgs,
    choice: Option<Seq<u8>>,
    input: Option<Seq<u8>>,
)
    requires
        batch.phase == BatchPhase::Resolve,
        batch.next(args, BatchEventView::Resolved { choice, input }).0.file == batch.file,
    ensures
        ({
            let source = batch.videos[batch.file];
            let dir = batch::batch_dir(args, source);
            let next = batch.next(args, BatchEventView::Resolved { choice, input }).0;
            &&& next.target is Some
            &&& next.target == naming::settled(source, dir, args.suffix@, choice, input)
            &&& next.videos == batch.videos
        }),
{
}

/// The first choice for a file is what is resolved beside it.
pub proof fn law_first_choice_is_resolved(batch: BatchView, args: BatchArgs, codec: Seq<char>)
    requires
        batch.phase == BatchPhase::Probe,
        batch.next(args, BatchEventView::Probed(Ok(Some(codec)))).0.file == batch.file,
    ensures
        ({
            let source = batch.videos[batch.file];
            let next = batch.next(args, BatchEventView::Probed(Ok(Some(codec)))).0;
            &&& next.target is Some
            &&& next.target == naming::choice(
                source,
                batch::batch_dir(args, source),
                args.suffix@,
            )
            &&& next.videos == batch.videos
        }),
{
}

/// While a file is at hand its target, once known, is the one that was found, and the
/// source of it is not exchanged.
pub proof fn law_target_is_kept(batch: BatchView, args: BatchArgs, event: BatchEventView)
    requires
        match batch.phase {
            BatchPhase::Exists | BatchPhase::MakeDirs | BatchPhase::Encode => true,
            _ => false,
        },
        batch.next(args, event).0.file == batch.file,
    ensures
        batch.next(args, event).0.target == batch.target,
        batch.next(args, event).0.videos == batch.videos,
{
}

/// Before any file the options are looked at, then the directory, the tools and the
/// encoders, and the first that is wrong ends the batch; where none is, it goes on with the
/// first of the videos.
pub proof fn law_what_comes_before_the_files(
    args: BatchArgs,
    kind: DirKind,
    ffmpeg: bool,
    ffprobe: bool,
    encoder: Result<Av1Encoder, DetectError>,
    videos: Seq<Seq<u8>>,
)
    ensures
        ({
            let a = BatchView::start();
            let b = a.next(args, BatchEventView::DirSeen(kind)).0;
            let c = b.next(args, BatchEventView::ToolsRun { ffmpeg, ffprobe }).0;
            let d = c.next(args, BatchEventView::Encoders(encoder)).0;
            let e = d.next(args, BatchEventView::Walked(videos)).0;
            let wrong = if args.bit_depth != 8 && args.bit_depth != 10 {
                Some(BatchErrorView::BitDepth)
            } else if kind == DirKind::NoAccess {
                Some(BatchErrorView::NoAccess)
            } else if kind == DirKind::NotDirectory {
                Some(BatchErrorView::NotDirectory)
            } else if !ffmpeg {
                Some(BatchErrorView::ToolMissing(Tool::Ffmpeg))
            } else if !ffprobe {
                Some(BatchErrorView::ToolMissing(Tool::Ffprobe))
            } else if encoder is Err {
                Some(BatchErrorView::Encoder(encoder->Err_0))
            } else {
                None
            };
            &&& a.phase == BatchPhase::Dir
            &&& e.error == wrong
            &&& e.converted == 0 && e.skipped == 0 && e.failed == 0
            &&& wrong is Some ==> e.phase == BatchPhase::Refused
            &&& wrong is None ==> {
                &&& b.phase == BatchPhase::Tools
                &&& c.phase == BatchPhase::Encoders
                &&& d.phase == BatchPhase::Walk
                &&& e.phase == if videos.len() == 0 {
                    BatchPhase::Over
                } else {
                    BatchPhase::Probe
                }
                &&& e.videos == videos
                &&& e.file == 0
                &&& e.encoder == Some(encoder->Ok_0)
            }
        }),
{
}

/// Only the answer to what a batch asked for moves it.
pub proof fn law_other_answers_are_ignored(
    batch: BatchView,
    args: BatchArgs,
    event: BatchEventView,
)
    requires
        match batch.phase {
            BatchPhase::Dir => !(event is DirSeen),
            BatchPhase::Tools => !(event is ToolsRun),
            BatchPhase::Encoders => !(event is Encoders),
            BatchPhase::Walk => !(event is Walked),
            BatchPhase::Probe => !(event is Probed),
            BatchPhase::Resolve => !(event is Resolved),
            BatchPhase::Exists => !(event is Exists),
            BatchPhase::MakeDirs => !(event is MadeDirs),
            BatchPhase::Encode => !(event is Encoded),
            BatchPhase::RemoveOutput => !(event is OutputRemoved),
            BatchPhase::RemoveSource => !(event is SourceRemoved),
            BatchPhase::Over | BatchPhase::Refused => true,
        },
    ensures
        batch.next(args, event) == (batch, RemarkView::Nothing),
{
}

/// Events are taken for what they hold.
pub proof fn law_events_are_taken_as_they_are(event: BatchEvent)
    ensures
        match event {
            BatchEvent::DirSeen(k) => event@ == BatchEventView::DirSeen(k),
            BatchEvent::ToolsRun { ffmpeg, ffprobe } => event@ == (BatchEventView::ToolsRun {
                ffmpeg,
                ffprobe,
            }),
            BatchEvent::Encoders(r) => event@ == BatchEventView::Encoders(r),
            BatchEvent::Walked(v) => match event@ {
                BatchEventView::Walked(paths) => paths.len() == v@.len() && forall|i: int|
                    0 <= i < v@.len() ==> #[trigger] paths[i] == v@[i].bytes@,
                _ => false,
            },
            BatchEvent::Probed(Ok(Some(c))) => event@ == BatchEventView::Probed(Ok(Some(c@))),
            BatchEvent::Probed(Ok(None)) => event@ == BatchEventView::Probed(Ok(None)),
            BatchEvent::Probed(Err(ProbeError::NotRun)) => event@ == BatchEventView::Probed(
                Err("failed to run ffprobe"@),
            ),
            BatchEvent::Probed(Err(ProbeError::Refused(e))) => event@ == BatchEventView::Probed(
                Err(e@),
            ),
            BatchEvent::Resolved(r) => match event@ {
                BatchEventView::Resolved { choice, input } => {
                    &&& choice is Some <==> r.choice is Some
                    &&& r.choice is Some ==> choice->0 == r.choice->0.bytes@
                    &&& input is Some <==> r.input is Some
                    &&& r.input is Some ==> input->0 == r.input->0.bytes@
                },
                _ => false,
            },
            BatchEvent::Exists(b) => event@ == BatchEventView::Exists(b),
            BatchEvent::MadeDirs(b) => event@ == BatchEventView::MadeDirs(b),
            BatchEvent::Encoded(Ok(_)) => event@ == BatchEventView::Encoded(None),
            BatchEvent::Encoded(Err(e)) => event@ == BatchEventView::Encoded(
                Some(
                    match e {
                        EncodeError::Spawn => "failed to spawn ffmpeg"@,
                        EncodeError::Wait => "waiting on ffmpeg"@,
                        EncodeError::Exit(status) => "ffmpeg exited with "@ + status@,
                    },
                ),
            ),
            BatchEvent::OutputRemoved => event@ == BatchEventView::OutputRemoved,
            BatchEvent::SourceRemoved => event@ == BatchEventView::SourceRemoved,
        },
{
}

/// What is said of a file names what it is about.
pub proof fn law_lines_name_what_they_are_about(remark: RemarkView)
    ensures
        match remark {
            RemarkView::Nothing | RemarkView::Converted => remark.text() == ""@,
            RemarkView::NoVideo => remark.text() == "  skip: no video stream"@,
            RemarkView::AlreadyAv1 => remark.text() == "  skip: already AV1"@,
            RemarkView::NoOutputPath => remark.text() == "  skip: cannot form an output path"@,
            RemarkView::ProbeFailed(e) => remark.text() == "  FAILED: probe: "@ + e,
            RemarkView::EncodeFailed(e) => remark.text() == "  FAILED: "@ + e,
            RemarkView::OutputExists(p) => remark.text() == "  skip: output exists ("@
                + utf8::shown(p) + ")"@,
            RemarkView::WouldWrite(p) => remark.text() == "  would write "@ + utf8::shown(p),
        },
{
}

/// What is said of a batch that was given up names what is wrong.
pub proof fn law_errors_name_what_is_wrong(error: BatchErrorView, dir: Seq<u8>)
    ensures
        match error {
            BatchErrorView::BitDepth => error.text(dir) == "--bit-depth must be 8 or 10"@,
            BatchErrorView::NoAccess => error.text(dir) == "cannot access "@ + utf8::shown(dir),
            BatchErrorView::NotDirectory => error.text(dir) == utf8::shown(dir)
                + " is not a directory"@,
            BatchErrorView::ToolMissing(Tool::Ffmpeg) => error.text(dir) == "`"@ + "ffmpeg"@
                + "` was not found on PATH"@,
            BatchErrorView::ToolMissing(Tool::Ffprobe) => error.text(dir) == "`"@ + "ffprobe"@
                + "` was not found on PATH"@,
            BatchErrorView::Encoder(DetectError::NotRun) => error.text(dir)
                == "failed to run `ffmpeg -encoders`"@,
            BatchErrorView::Encoder(DetectError::NoEncoder) => error.text(dir)
                == "this ffmpeg has no AV1 encoder (need libsvtav1, libaom-av1 or librav1e)"@,
            BatchErrorView::CreateDir(p) => error.text(dir) == "cannot create "@ + utf8::shown(p),
        },
{
}

/// What is said and what went wrong is what it holds.
pub proof fn law_remarks_are_what_they_hold(remark: Remark, error: BatchError)
    ensures
        remark@ == match remark {
            Remark::Nothing => RemarkView::Nothing,
            Remark::NoVideo => RemarkView::NoVideo,
            Remark::AlreadyAv1 => RemarkView::AlreadyAv1,
            Remark::ProbeFailed(e) => RemarkView::ProbeFailed(e@),
            Remark::NoOutputPath => RemarkView::NoOutputPath,
            Remark::OutputExists(p) => RemarkView::OutputExists(p.bytes@),
            Remark::WouldWrite(p) => RemarkView::WouldWrite(p.bytes@),
            Remark::Converted => RemarkView::Converted,
            Remark::EncodeFailed(e) => RemarkView::EncodeFailed(e@),
        },
        error@ == match error {
            BatchError::BitDepth => BatchErrorView::BitDepth,
            BatchError::NoAccess => BatchErrorView::NoAccess,
            BatchError::NotDirectory => BatchErrorView::NotDirectory,
            BatchError::ToolMissing(t) => BatchErrorView::ToolMissing(t),
            BatchError::Encoder(e) => BatchErrorView::Encoder(e),
            BatchError::CreateDir(p) => BatchErrorView::CreateDir(p.bytes@),
        },
{
}

/// A batch is seen as what it holds.
pub proof fn law_a_batch_is_what_it_holds(b: Batch)
    ensures
        b@.phase == b.phase,
        b@.encoder == b.encoder,
        b@.file == b.file,
        b@.converted == b.converted,
        b@.skipped == b.skipped,
        b@.failed == b.failed,
        b@.target is Some <==> b.target is Some,
        b.target is Some ==> b@.target->0 == b.target->0.bytes@,
        b@.error is Some <==> b.error is Some,
        b.error is Some ==> b@.error->0 == b.error->0@,
        b@.videos.len() == b.videos@.len(),
        forall|i: int|
            0 <= i < b.videos@.len() ==> #[trigger] b@.videos[i] == b.videos@[i].bytes@,
{
}

/// What is said first names the encoder and the options.
pub proof fn law_the_opening_names_the_options(args: BatchArgs, encoder: Av1Encoder)
    ensures
        batch::opening(args, encoder) == "AV1 encoder: "@ + encoder.name() + "  (crf "@
            + text::decimal(args.crf as nat) + ", preset "@ + text::signed_decimal(
            args.preset as int,
        ) + ", "@ + text::decimal(args.bit_depth as nat) + "-bit, opus "@ + text::decimal(
            args.audio_bitrate as nat,
        ) + "k)"@,
{
}

} // verus!
