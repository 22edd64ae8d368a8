//! What is done with one file of a scan.
use vstd::prelude::*;

use crate::command::{EncodeError, EncodeResult};
use crate::config::Config;
use crate::ffmpeg::ProbeError;
use crate::naming;
use crate::path;
use crate::scan;
use crate::state::{FileId, OutcomeView, StateView};
use crate::worker::{
    self, EventView, FileEvent, FileJob, FileJobView, FilePhase, FileResult, Note, NoteView,
    Observed, Seen, Sizes,
};

verus! {

/// What a job does, step by step, with what is remembered after each step.
pub open spec fn course(job: FileJobView, cfg: Config, seen: Observed, steps: nat) -> Seq<
    (FilePhase, NoteView),
>
    decreases steps,
{
    if steps == 0 || job.phase is Over {
        Seq::empty()
    } else {
        let (next, note) = job.next(cfg, seen.due, seen.answer(job.phase));
        seq![(job.phase, note)] + course(next, cfg, seen, (steps - 1) as nat)
    }
}

/// The job after so many steps.
pub open spec fn outcome(job: FileJobView, cfg: Config, seen: Observed, steps: nat) -> FileJobView
    decreases steps,
{
    if steps == 0 || job.phase is Over {
        job
    } else {
        outcome(
            job.next(cfg, seen.due, seen.answer(job.phase)).0,
            cfg,
            seen,
            (steps - 1) as nat,
        )
    }
}

/// A step, if it is taken, and then the rest.
pub open spec fn chain(
    taken: bool,
    phase: FilePhase,
    note: NoteView,
    rest: Seq<(FilePhase, NoteView)>,
) -> Seq<(FilePhase, NoteView)> {
    if taken {
        seq![(phase, note)] + rest
    } else {
        rest
    }
}

/// Old enough to be touched: known to have been modified at least the configured time ago.
pub open spec fn ripe(cfg: Config, seen: Seen) -> bool {
    let least = cfg.min_file_age.secs * 1_000_000_000 + cfg.min_file_age.nanos;
    match seen.age {
        Some(age) => age.secs * 1_000_000_000 + age.nanos >= least,
        None => least == 0,
    }
}

/// Has a video stream that is to be converted.
pub open spec fn to_convert(cfg: Config, probe: Result<Option<Seq<char>>, Seq<char>>) -> bool {
    match probe {
        Ok(Some(codec)) => !(cfg.output.skip_av1 && codec == "av1"@),
        _ => false,
    }
}

/// The result is not bigger than the source times the configured ratio, as far as known.
pub open spec fn small_enough(cfg: Config, sizes: Option<Sizes>) -> bool {
    match sizes {
        Some(z) => !(cfg.output.max_output_ratio.is_positive()
            && cfg.output.max_output_ratio.is_exceeded(z.source, z.result)),
        None => true,
    }
}

/// What a job does from the encoder on, if it is run.
spec fn encode_course(
    tried: bool,
    cfg: Config,
    input: Seq<u8>,
    target: Seq<u8>,
    seen: Observed,
) -> Seq<(FilePhase, NoteView)> {
    let finished = tried && seen.encoded == Ok::<_, Seq<char>>(EncodeResult::Finished);
    let small = finished && small_enough(cfg, seen.sizes);
    let times = cfg.output.preserve_timestamps;
    chain(
        tried,
        FilePhase::Encode,
        match seen.encoded {
            Err(e) => NoteView::Failure(e),
            Ok(_) => if small && !times {
                NoteView::Done(target)
            } else {
                NoteView::Nothing
            },
        },
        chain(
            finished && !small,
            FilePhase::Discard,
            NoteView::Done(input),
            chain(
                small && times,
                FilePhase::CopyTimes,
                NoteView::Done(target),
                chain(
                    small && cfg.output.replace,
                    FilePhase::RemoveSource,
                    NoteView::Nothing,
                    Seq::empty(),
                ),
            ),
        ),
    )
}

spec fn encode_result(cfg: Config, seen: Observed) -> FileResult {
    match seen.encoded {
        Err(_) => FileResult::Failed,
        Ok(EncodeResult::Interrupted) => FileResult::Interrupted,
        Ok(EncodeResult::Finished) => if small_enough(cfg, seen.sizes) {
            FileResult::Converted
        } else {
            FileResult::Skipped
        },
    }
}

proof fn lemma_step(job: FileJobView, cfg: Config, seen: Observed, steps: nat)
    requires
        steps > 0,
        !(job.phase is Over),
    ensures
        ({
            let (next, note) = job.next(cfg, seen.due, seen.answer(job.phase));
            &&& course(job, cfg, seen, steps) == seq![(job.phase, note)] + course(
                next,
                cfg,
                seen,
                (steps - 1) as nat,
            )
            &&& outcome(job, cfg, seen, steps) == outcome(next, cfg, seen, (steps - 1) as nat)
        }),
{
}

proof fn lemma_stop(job: FileJobView, cfg: Config, seen: Observed, steps: nat)
    requires
        job.phase is Over,
    ensures
        course(job, cfg, seen, steps) == Seq::<(FilePhase, NoteView)>::empty(),
        outcome(job, cfg, seen, steps) == job,
{
}

#[verifier::spinoff_prover]
proof fn lemma_encode(job: FileJobView, cfg: Config, seen: Observed, steps: nat)
    requires
        job.phase == FilePhase::Encode,
        job.target is Some,
        steps >= 4,
    ensures
        course(job, cfg, seen, steps) == encode_course(
            true,
            cfg,
            job.input,
            job.target->0,
            seen,
        ),
        outcome(job, cfg, seen, steps) == job.over(encode_result(cfg, seen)),
{
    let a = job.next(cfg, seen.due, seen.answer(job.phase)).0;
    lemma_step(job, cfg, seen, steps);
    if a.phase is Over {
        lemma_stop(a, cfg, seen, (steps - 1) as nat);
    } else {
        let b = a.next(cfg, seen.due, seen.answer(a.phase)).0;
        lemma_step(a, cfg, seen, (steps - 1) as nat);
        if b.phase is Over {
            lemma_stop(b, cfg, seen, (steps - 2) as nat);
        } else {
            let c = b.next(cfg, seen.due, seen.answer(b.phase)).0;
            lemma_step(b, cfg, seen, (steps - 2) as nat);
            lemma_stop(c, cfg, seen, (steps - 3) as nat);
        }
    }
}

/// What a job does from the look at the target on, if there is one.
spec fn exists_course(
    placed: bool,
    cfg: Config,
    input: Seq<u8>,
    target: Seq<u8>,
    seen: Observed,
) -> Seq<(FilePhase, NoteView)> {
    chain(
        placed,
        FilePhase::Exists,
        if seen.exists {
            NoteView::Done(target)
        } else {
            NoteView::Nothing
        },
        chain(
            placed && !seen.exists && path::parent(target) is Some,
            FilePhase::MakeDirs,
            match seen.made_dirs {
                Some(e) => NoteView::Failure("mkdir: "@ + e),
                None => NoteView::Nothing,
            },
            encode_course(
                placed && !seen.exists && (path::parent(target) is None || seen.made_dirs is None),
                cfg,
                input,
                target,
                seen,
            ),
        ),
    )
}

spec fn exists_result(cfg: Config, target: Seq<u8>, seen: Observed) -> FileResult {
    if seen.exists {
        FileResult::Skipped
    } else if path::parent(target) is Some && seen.made_dirs is Some {
        FileResult::Failed
    } else {
        encode_result(cfg, seen)
    }
}

#[verifier::spinoff_prover]
proof fn lemma_exists(job: FileJobView, cfg: Config, seen: Observed, steps: nat)
    requires
        job.phase == FilePhase::Exists,
        job.target is Some,
        steps >= 6,
    ensures
        course(job, cfg, seen, steps) == exists_course(
            true,
            cfg,
            job.input,
            job.target->0,
            seen,
        ),
        outcome(job, cfg, seen, steps) == job.over(exists_result(cfg, job.target->0, seen)),
{
    let a = job.next(cfg, seen.due, seen.answer(job.phase)).0;
    lemma_step(job, cfg, seen, steps);
    if a.phase is Over {
        lemma_stop(a, cfg, seen, (steps - 1) as nat);
    } else if a.phase == FilePhase::MakeDirs {
        let b = a.next(cfg, seen.due, seen.answer(a.phase)).0;
        lemma_step(a, cfg, seen, (steps - 1) as nat);
        if b.phase is Over {
            lemma_stop(b, cfg, seen, (steps - 2) as nat);
        } else {
            lemma_encode(b, cfg, seen, (steps - 2) as nat);
        }
    } else {
        lemma_encode(a, cfg, seen, (steps - 1) as nat);
    }
}

/// What is done with a file, in this order and with no other step between:
///
/// it is looked at; if it is there, old enough and due it is probed; if it has a video
/// stream that is to be converted, the place of the result is found; if nothing is there,
/// its directory is created and the encoder run; a result that is too big is discarded; of
/// any other the times are copied if that is wanted; and last the source is removed if that
/// is wanted. What comes of it is remembered at the step that decides it, before the source
/// is removed.
#[verifier::spinoff_prover]
pub proof fn law_course_of_a_file(job: FileJobView, cfg: Config, seen: Observed)
    requires
        job.phase == FilePhase::Stat,
    ensures
        ({
            let dir = scan::result_dir(
                job.input,
                job.watch_root,
                cfg.output.mode,
                naming::view_of(cfg.output.directory),
            );
            let suffix = cfg.output.suffix@;
            let first = naming::choice(job.input, dir, suffix);
            let target = naming::settled(job.input, dir, suffix, seen.choice, seen.input);
            let taken = seen.stat is Some && ripe(cfg, seen.stat->0) && seen.due;
            let wanted = taken && to_convert(cfg, seen.probe);
            let placed = wanted && target is Some;
            let tried = placed && !seen.exists && (path::parent(target->0) is None
                || seen.made_dirs is None);
            let finished = tried && seen.encoded == Ok::<_, Seq<char>>(EncodeResult::Finished);
            let small = finished && small_enough(cfg, seen.sizes);
            let times = cfg.output.preserve_timestamps;
            let end = outcome(job, cfg, seen, 9);
            &&& course(job, cfg, seen, 9) == chain(
                true,
                FilePhase::Stat,
                NoteView::Nothing,
                chain(
                    taken,
                    FilePhase::Probe,
                    match seen.probe {
                        Err(e) => NoteView::Failure("probe: "@ + e),
                        Ok(_) => if wanted {
                            NoteView::Nothing
                        } else {
                            NoteView::Done(job.input)
                        },
                    },
                    chain(
                        wanted && first is Some,
                        FilePhase::Resolve,
                        NoteView::Nothing,
                        chain(
                            placed,
                            FilePhase::Exists,
                            if seen.exists {
                                NoteView::Done(target->0)
                            } else {
                                NoteView::Nothing
                            },
                            chain(
                                placed && !seen.exists && path::parent(target->0) is Some,
                                FilePhase::MakeDirs,
                                match seen.made_dirs {
                                    Some(e) => NoteView::Failure("mkdir: "@ + e),
                                    None => NoteView::Nothing,
                                },
                                chain(
                                    tried,
                                    FilePhase::Encode,
                                    match seen.encoded {
                                        Err(e) => NoteView::Failure(e),
                                        Ok(_) => if small && !times {
                                            NoteView::Done(target->0)
                                        } else {
                                            NoteView::Nothing
                                        },
                                    },
                                    chain(
                                        finished && !small,
                                        FilePhase::Discard,
                                        NoteView::Done(job.input),
                                        chain(
                                            small && times,
                                            FilePhase::CopyTimes,
                                            NoteView::Done(target->0),
                                            chain(
                                                small && cfg.output.replace,
                                                FilePhase::RemoveSource,
                                                NoteView::Nothing,
                                                Seq::empty(),
                                            ),
                                        ),
                                    ),
                                ),
                            ),
                        ),
                    ),
                ),
            )
            &&& taken ==> end.id == seen.stat->0.id
            &&& end.input == job.input
            &&& end.watch_root == job.watch_root
            &&& placed ==> end.target == target
            &&& end.phase == FilePhase::Over(
                if taken && seen.probe is Err {
                    FileResult::Failed
                } else if placed && !seen.exists && path::parent(target->0) is Some
                    && seen.made_dirs is Some {
                    FileResult::Failed
                } else if tried && seen.encoded is Err {
                    FileResult::Failed
                } else if tried && !finished {
                    FileResult::Interrupted
                } else if small {
                    FileResult::Converted
                } else {
                    FileResult::Skipped
                },
            )
        }),
{
    let dir = scan::result_dir(
        job.input,
        job.watch_root,
        cfg.output.mode,
        naming::view_of(cfg.output.directory),
    );
    let suffix = cfg.output.suffix@;
    let target = naming::settled(job.input, dir, suffix, seen.choice, seen.input);
    if naming::choice(job.input, dir, suffix) is None {
        naming::lemma_no_choice(job.input, dir, suffix, seen.choice, seen.input);
    }
    let a = job.next(cfg, seen.due, seen.answer(job.phase)).0;
    lemma_step(job, cfg, seen, 9);
    if a.phase is Over {
        lemma_stop(a, cfg, seen, 8);
    } else {
        let b = a.next(cfg, seen.due, seen.answer(a.phase)).0;
        lemma_step(a, cfg, seen, 8);
        if b.phase is Over {
            lemma_stop(b, cfg, seen, 7);
        } else {
            let c = b.next(cfg, seen.due, seen.answer(b.phase)).0;
            lemma_step(b, cfg, seen, 7);
            if c.phase is Over {
                lemma_stop(c, cfg, seen, 6);
            } else {
                lemma_exists(c, cfg, seen, 6);
            }
        }
    }
}

/// What a job asks about is its own: the first choice for its source is resolved, and from
/// then on the target that was found is looked at, written to and kept.
pub proof fn law_target_is_found_and_kept(
    job: FileJobView,
    cfg: Config,
    due: bool,
    event: EventView,
)
    ensures
        ({
            let next = job.next(cfg, due, event).0;
            let dir = scan::result_dir(
                job.input,
                job.watch_root,
                cfg.output.mode,
                naming::view_of(cfg.output.directory),
            );
            &&& next.input == job.input
            &&& next.watch_root == job.watch_root
            &&& job.phase == FilePhase::Stat || next.id == job.id
            &&& job.phase == FilePhase::Probe && next.phase == FilePhase::Resolve ==> next.target
                is Some && next.target == naming::choice(job.input, dir, cfg.output.suffix@)
            &&& job.phase == FilePhase::Resolve && next.phase == FilePhase::Exists ==> (
            match event {
                EventView::Resolved { choice, input } => next.target is Some && next.target
                    == naming::settled(job.input, dir, cfg.output.suffix@, choice, input),
                _ => false,
            })
            &&& job.phase != FilePhase::Probe && job.phase != FilePhase::Resolve ==> next.target
                == job.target
        }),
{
}

/// What is remembered of a file: that it is done with, with its result, or that it failed
/// once more as it is now. Nothing else that is remembered changes.
pub proof fn law_what_is_remembered(
    s: StateView,
    key: Seq<char>,
    id: FileId,
    note: NoteView,
    at: u64,
)
    requires
        s.entries.dom().contains(key) && s.entries[key].id == id ==> (
        s.entries[key].outcome matches OutcomeView::Failed { attempts, .. } ==> attempts
            < u32::MAX),
    ensures
        ({
            let after = worker::remembered(s, key, id, note, at);
            &&& after.path == s.path
            &&& note is Nothing ==> after == s
            &&& !(note is Nothing) ==> after.dirty && after.entries.dom()
                == s.entries.dom().insert(key) && after.entries[key].id == id
            &&& note matches NoteView::Done(output) ==> after.entries[key].outcome
                == OutcomeView::Done { output, at }
            &&& note matches NoteView::Failure(error) ==> after.entries[key].outcome
                == OutcomeView::Failed {
                attempts: if s.entries.dom().contains(key) && s.entries[key].id == id {
                    match s.entries[key].outcome {
                        OutcomeView::Failed { attempts, .. } => (attempts + 1) as u32,
                        OutcomeView::Done { .. } => 1,
                    }
                } else {
                    1
                },
                error,
                at,
            }
            &&& forall|other: Seq<char>|
                other != key ==> (#[trigger] after.entries.dom().contains(other)
                    <==> s.entries.dom().contains(other)) && (s.entries.dom().contains(other)
                    ==> after.entries[other] == s.entries[other])
        }),
{
}

/// A file is due that is not known, that changed, or that failed fewer than `max_attempts`
/// times as it is.
pub proof fn law_which_files_are_due(s: StateView, cfg: Config, key: Seq<char>, seen: Seen)
    ensures
        worker::is_due_at(s, cfg, key, EventView::Stat(Some(seen))) <==> {
            ||| !s.entries.dom().contains(key)
            ||| s.entries[key].id.size != seen.id.size
            ||| s.entries[key].id.mtime != seen.id.mtime
            ||| match s.entries[key].outcome {
                OutcomeView::Done { .. } => false,
                OutcomeView::Failed { attempts, .. } => attempts < cfg.max_attempts,
            }
        },
{
}

/// Events are taken for what they hold.
pub proof fn law_events_are_taken_as_they_are(event: FileEvent)
    ensures
        match event {
            FileEvent::Stat(s) => event@ == EventView::Stat(s),
            FileEvent::Probed(Ok(Some(c))) => event@ == EventView::Probed(Ok(Some(c@))),
            FileEvent::Probed(Ok(None)) => event@ == EventView::Probed(Ok(None)),
            FileEvent::Probed(Err(ProbeError::NotRun)) => event@ == EventView::Probed(
                Err("failed to run ffprobe"@),
            ),
            FileEvent::Probed(Err(ProbeError::Refused(e))) => event@ == EventView::Probed(Err(e@)),
            FileEvent::Resolved(r) => match event@ {
                EventView::Resolved { choice, input } => {
                    &&& choice is Some <==> r.choice is Some
                    &&& r.choice is Some ==> choice->0 == r.choice->0.bytes@
                    &&& input is Some <==> r.input is Some
                    &&& r.input is Some ==> input->0 == r.input->0.bytes@
                },
                _ => false,
            },
            FileEvent::Exists(b) => event@ == EventView::Exists(b),
            FileEvent::MadeDirs(Some(e)) => event@ == EventView::MadeDirs(Some(e@)),
            FileEvent::MadeDirs(None) => event@ == EventView::MadeDirs(None),
            FileEvent::Encoded(Ok(r), z) => event@ == EventView::Encoded(Ok(r), z),
            FileEvent::Encoded(Err(e), z) => event@ == EventView::Encoded(
                Err(
                    match e {
                        EncodeError::Spawn => "failed to spawn ffmpeg"@,
                        EncodeError::Wait => "waiting on ffmpeg"@,
                        EncodeError::Exit(status) => "ffmpeg exited with "@ + status@,
                    },
                ),
                z,
            ),
            FileEvent::Discarded => event@ == EventView::Discarded,
            FileEvent::TimesCopied => event@ == EventView::TimesCopied,
            FileEvent::SourceRemoved => event@ == EventView::SourceRemoved,
        },
{
}

/// A job starts with a look at its file, and only the answer to what it asked for moves it.
pub proof fn law_other_answers_are_ignored(
    job: FileJobView,
    cfg: Config,
    due: bool,
    event: EventView,
)
    requires
        match job.phase {
            FilePhase::Stat => !(event is Stat),
            FilePhase::Probe => !(event is Probed),
            FilePhase::Resolve => !(event is Resolved),
            FilePhase::Exists => !(event is Exists),
            FilePhase::MakeDirs => !(event is MadeDirs),
            FilePhase::Encode => !(event is Encoded),
            FilePhase::Discard => !(event is Discarded),
            FilePhase::CopyTimes => !(event is TimesCopied),
            FilePhase::RemoveSource => !(event is SourceRemoved),
            FilePhase::Over(_) => true,
        },
    ensures
        job.next(cfg, due, event) == (job, NoteView::Nothing),
{
}

/// A job and its notes are seen as what they hold.
pub proof fn law_a_job_is_what_it_holds(job: FileJob, note: Note)
    ensures
        job@.input == job.input.bytes@,
        job@.watch_root == job.watch_root.bytes@,
        job@.phase == job.phase,
        job@.id == job.id,
        job@.target is Some <==> job.target is Some,
        job.target is Some ==> job@.target->0 == job.target->0.bytes@,
        note@ == match note {
            Note::Nothing => NoteView::Nothing,
            Note::Done(p) => NoteView::Done(p.bytes@),
            Note::Failure(e) => NoteView::Failure(e@),
        },
{
}

} // verus!
