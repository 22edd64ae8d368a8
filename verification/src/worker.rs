//! What happens to one file of a scan: from a look at it to the record of what came of it.
//!
//! A [`FileJob`] says what has to be done next ([`FileJob::action`]); what that gave is
//! handed back as a [`FileEvent`].
use vstd::prelude::*;
use vstd::string::*;

use crate::command::{EncodeError, EncodeResult};
use crate::config::{Config, Span};
use crate::ffmpeg::{self, ProbeError};
use crate::naming::{self, Resolved};
use crate::path::{self, FilePath};
use crate::scan::{self, output_choice, output_path};
use crate::state::{self, FileId, State, StateView};
use crate::text::same_str;

verus! {

/// What came of a file.
#[derive(Clone, Copy, Debug, PartialEq, Eq, Structural)]
pub enum FileResult {
    Converted,
    Skipped,
    Failed,
    Interrupted,
}

/// What a job waits for.
#[derive(Clone, Copy, Debug, PartialEq, Eq, Structural)]
pub enum FilePhase {
    Stat,
    Probe,
    Resolve,
    Exists,
    MakeDirs,
    Encode,
    Discard,
    CopyTimes,
    RemoveSource,
    Over(FileResult),
}

/// The handling of one file.
#[derive(Debug)]
pub struct FileJob {
    pub input: FilePath,
    pub watch_root: FilePath,
    pub phase: FilePhase,
    /// The identity of the file, once it has been looked at.
    pub id: FileId,
    /// Where the result goes, once that is known.
    pub target: Option<FilePath>,
}

#[verifier::ext_equal]
pub struct FileJobView {
    pub input: Seq<u8>,
    pub watch_root: Seq<u8>,
    pub phase: FilePhase,
    pub id: FileId,
    pub target: Option<Seq<u8>>,
}

impl View for FileJob {
    type V = FileJobView;

    open spec fn view(&self) -> FileJobView {
        FileJobView {
            input: self.input@,
            watch_root: self.watch_root@,
            phase: self.phase,
            id: self.id,
            target: naming::view_of(self.target),
        }
    }
}

/// What a job asks for.
#[derive(Debug)]
pub enum FileAction {
    /// Look at the source's metadata.
    Stat,
    /// Find the codec of the source.
    Probe,
    /// Resolve this path and the source.
    Resolve(FilePath),
    /// See whether there is anything at this path.
    Exists(FilePath),
    /// Create this directory and those above it.
    MakeDirs(FilePath),
    /// Encode the source to this path.
    Encode(FilePath),
    /// Remove this result.
    Discard(FilePath),
    /// Copy the times of the source to this result.
    CopyTimes(FilePath),
    /// Remove the source.
    RemoveSource,
    Finish(FileResult),
}

/// What a look at a file's metadata shows.
#[derive(Clone, Copy, Debug, PartialEq, Eq, Structural)]
pub struct Seen {
    pub id: FileId,
    /// How long ago it was modified, or `None` where that time lies ahead.
    pub age: Option<Span>,
}

/// The sizes of a source and of the result of converting it.
#[derive(Clone, Copy, Debug, PartialEq, Eq, Structural)]
pub struct Sizes {
    pub source: u64,
    pub result: u64,
}

/// What an action gave.
#[derive(Debug)]
pub enum FileEvent {
    /// `None` where the metadata could not be had.
    Stat(Option<Seen>),
    Probed(Result<Option<String>, ProbeError>),
    Resolved(Resolved),
    Exists(bool),
    /// The error where there was one.
    MadeDirs(Option<String>),
    /// The sizes are `None` where they could not be had.
    Encoded(Result<EncodeResult, EncodeError>, Option<Sizes>),
    Discarded,
    TimesCopied,
    SourceRemoved,
}

/// What is to be remembered of a file.
#[derive(Debug)]
pub enum Note {
    Nothing,
    /// It is done with, and this is the result.
    Done(FilePath),
    /// It failed, with this error.
    Failure(String),
}

#[verifier::ext_equal]
pub enum NoteView {
    Nothing,
    Done(Seq<u8>),
    Failure(Seq<char>),
}

impl View for Note {
    type V = NoteView;

    open spec fn view(&self) -> NoteView {
        match self {
            Note::Nothing => NoteView::Nothing,
            Note::Done(p) => NoteView::Done(p@),
            Note::Failure(e) => NoteView::Failure(e@),
        }
    }
}

/// The events as mathematical values.
#[verifier::ext_equal]
pub enum EventView {
    Stat(Option<Seen>),
    /// The codec, or the error.
    Probed(Result<Option<Seq<char>>, Seq<char>>),
    Resolved { choice: Option<Seq<u8>>, input: Option<Seq<u8>> },
    Exists(bool),
    MadeDirs(Option<Seq<char>>),
    Encoded(Result<EncodeResult, Seq<char>>, Option<Sizes>),
    Discarded,
    TimesCopied,
    SourceRemoved,
}

impl View for FileEvent {
    type V = EventView;

    open spec fn view(&self) -> EventView {
        match self {
            FileEvent::Stat(s) => EventView::Stat(*s),
            FileEvent::Probed(Ok(c)) => EventView::Probed(Ok(ffmpeg::string_view(*c))),
            FileEvent::Probed(Err(e)) => EventView::Probed(Err(e.text())),
            FileEvent::Resolved(r) => EventView::Resolved {
                choice: naming::view_of(r.choice),
                input: naming::view_of(r.input),
            },
            FileEvent::Exists(b) => EventView::Exists(*b),
            FileEvent::MadeDirs(e) => EventView::MadeDirs(ffmpeg::string_view(*e)),
            FileEvent::Encoded(Ok(r), s) => EventView::Encoded(Ok(*r), *s),
            FileEvent::Encoded(Err(e), s) => EventView::Encoded(Err(e.text()), *s),
            FileEvent::Discarded => EventView::Discarded,
            FileEvent::TimesCopied => EventView::TimesCopied,
            FileEvent::SourceRemoved => EventView::SourceRemoved,
        }
    }
}

/// Whether a file was modified too recently to be touched. A time that lies ahead is more
/// recent than any age.
pub open spec fn is_fresh(cfg: Config, seen: Seen) -> bool {
    match seen.age {
        Some(age) => age.total() < cfg.min_file_age.total(),
        None => cfg.min_file_age.total() > 0,
    }
}

/// Whether a codec is one that is to be left as it is.
pub open spec fn is_left_alone(cfg: Config, codec: Option<Seq<char>>) -> bool {
    match codec {
        None => true,
        Some(c) => cfg.output.skip_av1 && c == "av1"@,
    }
}

/// Whether a result is too big to be kept.
pub open spec fn is_oversize(cfg: Config, sizes: Option<Sizes>) -> bool {
    match sizes {
        Some(s) => cfg.output.max_output_ratio.is_positive()
            && cfg.output.max_output_ratio.is_exceeded(s.source, s.result),
        None => false,
    }
}

/// The first choice for where the result of a job goes.
pub open spec fn job_choice(cfg: Config, input: Seq<u8>, watch_root: Seq<u8>) -> Option<Seq<u8>> {
    naming::choice(
        input,
        scan::result_dir(
            input,
            watch_root,
            cfg.output.mode,
            naming::view_of(cfg.output.directory),
        ),
        cfg.output.suffix@,
    )
}

/// Where the result of a job goes.
pub open spec fn job_target(
    cfg: Config,
    input: Seq<u8>,
    watch_root: Seq<u8>,
    choice: Option<Seq<u8>>,
    resolved: Option<Seq<u8>>,
) -> Option<Seq<u8>> {
    naming::settled(
        input,
        scan::result_dir(
            input,
            watch_root,
            cfg.output.mode,
            naming::view_of(cfg.output.directory),
        ),
        cfg.output.suffix@,
        choice,
        resolved,
    )
}

impl FileJobView {
    pub open spec fn at(self, phase: FilePhase) -> FileJobView {
        FileJobView { phase, ..self }
    }

    pub open spec fn over(self, result: FileResult) -> FileJobView {
        self.at(FilePhase::Over(result))
    }

    /// After the result has been recorded.
    pub open spec fn recorded(self, cfg: Config) -> FileJobView {
        if cfg.output.replace {
            self.at(FilePhase::RemoveSource)
        } else {
            self.over(FileResult::Converted)
        }
    }

    /// A target is known where one is needed.
    pub open spec fn wf(self) -> bool {
        match self.phase {
            FilePhase::Stat => true,
            FilePhase::Probe => true,
            FilePhase::Over(_) => true,
            FilePhase::MakeDirs => self.target is Some && path::parent(self.target->0) is Some,
            _ => self.target is Some,
        }
    }

    /// The job after an event, and what is to be remembered. `due` says whether the file
    /// is to be processed. An event that the job does not wait for changes nothing.
    pub open spec fn next(self, cfg: Config, due: bool, event: EventView) -> (FileJobView, NoteView) {
        match (self.phase, event) {
            (FilePhase::Stat, EventView::Stat(None)) => (
                self.over(FileResult::Skipped),
                NoteView::Nothing,
            ),
            (FilePhase::Stat, EventView::Stat(Some(seen))) => if is_fresh(cfg, seen) || !due {
                (self.over(FileResult::Skipped), NoteView::Nothing)
            } else {
                (FileJobView { phase: FilePhase::Probe, id: seen.id, ..self }, NoteView::Nothing)
            },
            (FilePhase::Probe, EventView::Probed(Err(e))) => (
                self.over(FileResult::Failed),
                NoteView::Failure("probe: "@ + e),
            ),
            (FilePhase::Probe, EventView::Probed(Ok(codec))) => if is_left_alone(cfg, codec) {
                (self.over(FileResult::Skipped), NoteView::Done(self.input))
            } else {
                match job_choice(cfg, self.input, self.watch_root) {
                    None => (self.over(FileResult::Skipped), NoteView::Nothing),
                    Some(t) => (
                        FileJobView { phase: FilePhase::Resolve, target: Some(t), ..self },
                        NoteView::Nothing,
                    ),
                }
            },
            (FilePhase::Resolve, EventView::Resolved { choice, input }) => match job_target(
                cfg,
                self.input,
                self.watch_root,
                choice,
                input,
            ) {
                None => (self.over(FileResult::Skipped), NoteView::Nothing),
                Some(t) => (
                    FileJobView { phase: FilePhase::Exists, target: Some(t), ..self },
                    NoteView::Nothing,
                ),
            },
            (FilePhase::Exists, EventView::Exists(true)) => (
                self.over(FileResult::Skipped),
                NoteView::Done(self.target->0),
            ),
            (FilePhase::Exists, EventView::Exists(false)) => if path::parent(
                self.target->0,
            ) is Some {
                (self.at(FilePhase::MakeDirs), NoteView::Nothing)
            } else {
                (self.at(FilePhase::Encode), NoteView::Nothing)
            },
            (FilePhase::MakeDirs, EventView::MadeDirs(Some(e))) => (
                self.over(FileResult::Failed),
                NoteView::Failure("mkdir: "@ + e),
            ),
            (FilePhase::MakeDirs, EventView::MadeDirs(None)) => (
                self.at(FilePhase::Encode),
                NoteView::Nothing,
            ),
            (FilePhase::Encode, EventView::Encoded(Err(e), _)) => (
                self.over(FileResult::Failed),
                NoteView::Failure(e),
            ),
            (FilePhase::Encode, EventView::Encoded(Ok(EncodeResult::Interrupted), _)) => (
                self.over(FileResult::Interrupted),
                NoteView::Nothing,
            ),
            (FilePhase::Encode, EventView::Encoded(Ok(EncodeResult::Finished), sizes)) =>
                if is_oversize(cfg, sizes) {
                    (self.at(FilePhase::Discard), NoteView::Nothing)
                } else if cfg.output.preserve_timestamps {
                    (self.at(FilePhase::CopyTimes), NoteView::Nothing)
                } else {
                    (self.recorded(cfg), NoteView::Done(self.target->0))
                },
            (FilePhase::Discard, EventView::Discarded) => (
                self.over(FileResult::Skipped),
                NoteView::Done(self.input),
            ),
            (FilePhase::CopyTimes, EventView::TimesCopied) => (
                self.recorded(cfg),
                NoteView::Done(self.target->0),
            ),
            (FilePhase::RemoveSource, EventView::SourceRemoved) => (
                self.over(FileResult::Converted),
                NoteView::Nothing,
            ),
            _ => (self, NoteView::Nothing),
        }
    }
}

/// The text of an error under a heading.
fn headed(heading: &str, error: &str) -> (r: String)
    ensures
        r@ == heading@ + error@,
{
    let mut s: String = heading.to_owned();
    s.append(error);
    s
}

fn fresh(cfg: &Config, seen: &Seen) -> (r: bool)
    ensures
        r == is_fresh(*cfg, *seen),
{
    match seen.age {
        Some(age) => age.shorter_than(cfg.min_file_age),
        None => !cfg.min_file_age.is_zero(),
    }
}

/// Whether a codec is one that is to be left as it is.
pub fn left_alone(cfg: &Config, codec: &Option<String>) -> (r: bool)
    ensures
        r == is_left_alone(*cfg, ffmpeg::string_view(*codec)),
{
    match codec {
        None => true,
        Some(c) => cfg.output.skip_av1 && same_str(c.as_str(), "av1"),
    }
}

fn oversize(cfg: &Config, sizes: &Option<Sizes>) -> (r: bool)
    ensures
        r == is_oversize(*cfg, *sizes),
{
    match sizes {
        Some(s) => {
            let ratio = cfg.output.max_output_ratio;
            ratio.positive() && ratio.exceeded(s.source, s.result)
        },
        None => false,
    }
}

impl FileJob {
    /// A job for the file `input`, found below `watch_root`.
    pub fn start(input: FilePath, watch_root: FilePath) -> (r: FileJob)
        ensures
            r@.wf(),
            r@ == (FileJobView {
                input: input@,
                watch_root: watch_root@,
                phase: FilePhase::Stat,
                id: FileId { size: 0, mtime: 0 },
                target: None,
            }),
    {
        FileJob {
            input,
            watch_root,
            phase: FilePhase::Stat,
            id: FileId { size: 0, mtime: 0 },
            target: None,
        }
    }

    /// What has to be done next.
    pub fn action(&self) -> (r: FileAction)
        requires
            self@.wf(),
        ensures
            match self@.phase {
                FilePhase::Stat => r is Stat,
                FilePhase::Probe => r is Probe,
                FilePhase::Resolve => r matches FileAction::Resolve(p) && p@ == self@.target->0,
                FilePhase::Exists => r matches FileAction::Exists(p) && p@ == self@.target->0,
                FilePhase::MakeDirs => r matches FileAction::MakeDirs(p) && Some(p@)
                    == path::parent(self@.target->0),
                FilePhase::Encode => r matches FileAction::Encode(p) && p@ == self@.target->0,
                FilePhase::Discard => r matches FileAction::Discard(p) && p@ == self@.target->0,
                FilePhase::CopyTimes => r matches FileAction::CopyTimes(p) && p@ == self@.target->0,
                FilePhase::RemoveSource => r is RemoveSource,
                FilePhase::Over(f) => r == FileAction::Finish(f),
            },
    {
        match (self.phase, &self.target) {
            (FilePhase::Stat, _) => FileAction::Stat,
            (FilePhase::Probe, _) => FileAction::Probe,
            (FilePhase::RemoveSource, _) => FileAction::RemoveSource,
            (FilePhase::Over(f), _) => FileAction::Finish(f),
            (FilePhase::Resolve, Some(p)) => FileAction::Resolve(p.copy()),
            (FilePhase::Exists, Some(p)) => FileAction::Exists(p.copy()),
            (FilePhase::MakeDirs, Some(p)) => match p.parent() {
                Some(d) => FileAction::MakeDirs(d),
                None => FileAction::Stat,
            },
            (FilePhase::Encode, Some(p)) => FileAction::Encode(p.copy()),
            (FilePhase::Discard, Some(p)) => FileAction::Discard(p.copy()),
            (FilePhase::CopyTimes, Some(p)) => FileAction::CopyTimes(p.copy()),
            (_, None) => FileAction::Stat,
        }
    }

    fn target_copy(&self) -> (r: FilePath)
        requires
            self.target is Some,
        ensures
            r@ == self@.target->0,
    {
        match &self.target {
            Some(p) => p.copy(),
            None => self.input.copy(),
        }
    }

    fn finish(&mut self, result: FileResult)
        ensures
            final(self)@ == old(self)@.over(result),
    {
        self.phase = FilePhase::Over(result);
    }

    fn record_result(&mut self, cfg: &Config) -> (r: Note)
        requires
            old(self).target is Some,
        ensures
            final(self)@ == old(self)@.recorded(*cfg),
            r@ == NoteView::Done(old(self)@.target->0),
    {
        let note = Note::Done(self.target_copy());
        if cfg.output.replace {
            self.phase = FilePhase::RemoveSource;
        } else {
            self.phase = FilePhase::Over(FileResult::Converted);
        }
        note
    }

    /// Takes up what an action gave, and says what is to be remembered.
    pub fn advance(&mut self, cfg: &Config, due: bool, event: FileEvent) -> (note: Note)
        requires
            old(self)@.wf(),
        ensures
            final(self)@.wf(),
            (final(self)@, note@) == old(self)@.next(*cfg, due, event@),
    {
        match (self.phase, event) {
            (FilePhase::Stat, FileEvent::Stat(None)) => {
                self.finish(FileResult::Skipped);
                Note::Nothing
            },
            (FilePhase::Stat, FileEvent::Stat(Some(seen))) => {
                if fresh(cfg, &seen) || !due {
                    self.finish(FileResult::Skipped);
                } else {
                    self.id = seen.id;
                    self.phase = FilePhase::Probe;
                }
                Note::Nothing
            },
            (FilePhase::Probe, FileEvent::Probed(Err(e))) => {
                self.finish(FileResult::Failed);
                Note::Failure(headed("probe: ", e.message().as_str()))
            },
            (FilePhase::Probe, FileEvent::Probed(Ok(codec))) => {
                if left_alone(cfg, &codec) {
                    self.finish(FileResult::Skipped);
                    return Note::Done(self.input.copy());
                }
                match output_choice(&self.input, &self.watch_root, &cfg.output) {
                    None => {
                        self.finish(FileResult::Skipped);
                    },
                    Some(t) => {
                        self.target = Some(t);
                        self.phase = FilePhase::Resolve;
                    },
                }
                Note::Nothing
            },
            (FilePhase::Resolve, FileEvent::Resolved(resolved)) => {
                match output_path(&self.input, &self.watch_root, &cfg.output, &resolved) {
                    None => {
                        self.finish(FileResult::Skipped);
                    },
                    Some(t) => {
                        self.target = Some(t);
                        self.phase = FilePhase::Exists;
                    },
                }
                Note::Nothing
            },
            (FilePhase::Exists, FileEvent::Exists(true)) => {
                self.finish(FileResult::Skipped);
                Note::Done(self.target_copy())
            },
            (FilePhase::Exists, FileEvent::Exists(false)) => {
                if self.target_copy().parent().is_some() {
                    self.phase = FilePhase::MakeDirs;
                } else {
                    self.phase = FilePhase::Encode;
                }
                Note::Nothing
            },
            (FilePhase::MakeDirs, FileEvent::MadeDirs(Some(e))) => {
                self.finish(FileResult::Failed);
                Note::Failure(headed("mkdir: ", e.as_str()))
            },
            (FilePhase::MakeDirs, FileEvent::MadeDirs(None)) => {
                self.phase = FilePhase::Encode;
                Note::Nothing
            },
            (FilePhase::Encode, FileEvent::Encoded(Err(e), _)) => {
                self.finish(FileResult::Failed);
                Note::Failure(e.message())
            },
            (FilePhase::Encode, FileEvent::Encoded(Ok(EncodeResult::Interrupted), _)) => {
                self.finish(FileResult::Interrupted);
                Note::Nothing
            },
            (FilePhase::Encode, FileEvent::Encoded(Ok(EncodeResult::Finished), sizes)) => {
                if oversize(cfg, &sizes) {
                    self.phase = FilePhase::Discard;
                    Note::Nothing
                } else if cfg.output.preserve_timestamps {
                    self.phase = FilePhase::CopyTimes;
                    Note::Nothing
                } else {
                    self.record_result(cfg)
                }
            },
            (FilePhase::Discard, FileEvent::Discarded) => {
                self.finish(FileResult::Skipped);
                Note::Done(self.input.copy())
            },
            (FilePhase::CopyTimes, FileEvent::TimesCopied) => self.record_result(cfg),
            (FilePhase::RemoveSource, FileEvent::SourceRemoved) => {
                self.finish(FileResult::Converted);
                Note::Nothing
            },
            _ => Note::Nothing,
        }
    }
}

/// When and under which key something is recorded.
#[derive(Debug)]
pub struct Moment {
    /// The key of the file.
    pub key: String,
    /// The clock, in seconds since the epoch.
    pub now: u64,
}

/// The state after a note.
pub open spec fn remembered(
    s: StateView,
    key: Seq<char>,
    id: FileId,
    note: NoteView,
    at: u64,
) -> StateView {
    match note {
        NoteView::Nothing => s,
        NoteView::Done(output) => StateView {
            entries: state::with_done(s.entries, key, id, output, at),
            dirty: true,
            ..s
        },
        NoteView::Failure(error) => StateView {
            entries: state::with_failure(s.entries, key, id, error, at),
            dirty: true,
            ..s
        },
    }
}

/// Whether the file that an event shows is to be processed.
pub open spec fn is_due_at(s: StateView, cfg: Config, key: Seq<char>, event: EventView) -> bool {
    match event {
        EventView::Stat(Some(seen)) => state::is_due(s.entries, key, seen.id, cfg.max_attempts),
        _ => true,
    }
}

/// Takes up what an action gave, and remembers what came of the file.
pub fn handle_file(
    job: &mut FileJob,
    cfg: &Config,
    state: &mut State,
    event: FileEvent,
    moment: &Moment,
)
    requires
        old(job)@.wf(),
        old(state).wf(),
        old(job)@.next(
            *cfg,
            is_due_at(old(state)@, *cfg, moment.key@, event@),
            event@,
        ).1 is Failure ==> state::failures(old(state)@.entries, moment.key@, old(job)@.id)
            < u32::MAX,
    ensures
        final(job)@.wf(),
        final(state).wf(),
        ({
            let due = is_due_at(old(state)@, *cfg, moment.key@, event@);
            let (next, note) = old(job)@.next(*cfg, due, event@);
            &&& final(job)@ == next
            &&& final(state)@ == remembered(
                old(state)@,
                moment.key@,
                old(job)@.id,
                note,
                moment.now,
            )
        }),
{
    let due = match &event {
        FileEvent::Stat(Some(seen)) => state.needs_work(
            moment.key.as_str(),
            seen.id,
            cfg.max_attempts,
        ),
        _ => true,
    };
    let id = job.id;
    match job.advance(cfg, due, event) {
        Note::Nothing => {},
        Note::Done(output) => {
            state.record_done(moment.key.clone(), id, &output, moment.now);
        },
        Note::Failure(error) => {
            state.record_failure(moment.key.clone(), id, error.as_str(), moment.now);
        },
    }
}

/// Everything that a look at a file and at what is tried with it can show.
pub struct Observed {
    pub stat: Option<Seen>,
    pub due: bool,
    pub probe: Result<Option<Seq<char>>, Seq<char>>,
    pub choice: Option<Seq<u8>>,
    pub input: Option<Seq<u8>>,
    pub exists: bool,
    pub made_dirs: Option<Seq<char>>,
    pub encoded: Result<EncodeResult, Seq<char>>,
    pub sizes: Option<Sizes>,
}

impl Observed {
    /// The event that a job gets in a phase.
    pub open spec fn answer(self, phase: FilePhase) -> EventView {
        match phase {
            FilePhase::Stat => EventView::Stat(self.stat),
            FilePhase::Probe => EventView::Probed(self.probe),
            FilePhase::Resolve => EventView::Resolved { choice: self.choice, input: self.input },
            FilePhase::Exists => EventView::Exists(self.exists),
            FilePhase::MakeDirs => EventView::MadeDirs(self.made_dirs),
            FilePhase::Encode => EventView::Encoded(self.encoded, self.sizes),
            FilePhase::Discard => EventView::Discarded,
            FilePhase::CopyTimes => EventView::TimesCopied,
            _ => EventView::SourceRemoved,
        }
    }
}

/// What comes of a file that the encoder was started for, and what is remembered of it.
pub open spec fn encode_verdict(
    cfg: Config,
    input: Seq<u8>,
    target: Seq<u8>,
    seen: Observed,
) -> (FileResult, NoteView) {
    if seen.encoded is Err {
        (FileResult::Failed, NoteView::Failure(seen.encoded->Err_0))
    } else if seen.encoded->Ok_0 == EncodeResult::Interrupted {
        (FileResult::Interrupted, NoteView::Nothing)
    } else if is_oversize(cfg, seen.sizes) {
        (FileResult::Skipped, NoteView::Done(input))
    } else {
        (FileResult::Converted, NoteView::Done(target))
    }
}

/// What comes of a file whose result would go to `target`.
pub open spec fn target_verdict(
    cfg: Config,
    input: Seq<u8>,
    target: Seq<u8>,
    seen: Observed,
) -> (FileResult, NoteView) {
    if seen.exists {
        (FileResult::Skipped, NoteView::Done(target))
    } else if path::parent(target) is Some && seen.made_dirs is Some {
        (FileResult::Failed, NoteView::Failure("mkdir: "@ + seen.made_dirs->0))
    } else {
        encode_verdict(cfg, input, target, seen)
    }
}

/// What comes of a file that is probed.
pub open spec fn probe_verdict(
    cfg: Config,
    input: Seq<u8>,
    watch_root: Seq<u8>,
    seen: Observed,
) -> (FileResult, NoteView) {
    let target = job_target(cfg, input, watch_root, seen.choice, seen.input);
    if seen.probe is Err {
        (FileResult::Failed, NoteView::Failure("probe: "@ + seen.probe->Err_0))
    } else if is_left_alone(cfg, seen.probe->Ok_0) {
        (FileResult::Skipped, NoteView::Done(input))
    } else if target is None {
        (FileResult::Skipped, NoteView::Nothing)
    } else {
        target_verdict(cfg, input, target->0, seen)
    }
}

/// What comes of a file, and what is remembered of it.
pub open spec fn verdict(
    cfg: Config,
    input: Seq<u8>,
    watch_root: Seq<u8>,
    seen: Observed,
) -> (FileResult, NoteView) {
    if seen.stat is None || is_fresh(cfg, seen.stat->0) || !seen.due {
        (FileResult::Skipped, NoteView::Nothing)
    } else {
        probe_verdict(cfg, input, watch_root, seen)
    }
}

/// A job after at most `steps` events, and what it asked to remember on the way.
pub open spec fn run(job: FileJobView, cfg: Config, seen: Observed, steps: nat) -> (
    FileJobView,
    Seq<NoteView>,
)
    decreases steps,
{
    if steps == 0 || job.phase is Over {
        (job, Seq::empty())
    } else {
        let (next, note) = job.next(cfg, seen.due, seen.answer(job.phase));
        let (end, notes) = run(next, cfg, seen, (steps - 1) as nat);
        (
            end,
            if note is Nothing {
                notes
            } else {
                seq![note] + notes
            },
        )
    }
}

/// Whether a job comes to this end within so many events.
spec fn ends(
    job: FileJobView,
    cfg: Config,
    seen: Observed,
    steps: nat,
    end: (FileResult, NoteView),
) -> bool {
    let (last, notes) = run(job, cfg, seen, steps);
    &&& last.phase == FilePhase::Over(end.0)
    &&& notes == if end.1 is Nothing {
        Seq::empty()
    } else {
        seq![end.1]
    }
}

proof fn lemma_over(job: FileJobView, cfg: Config, seen: Observed, steps: nat, result: FileResult)
    requires
        job.phase == FilePhase::Over(result),
    ensures
        ends(job, cfg, seen, steps, (result, NoteView::Nothing)),
{
}

/// An event of which nothing is remembered.
proof fn lemma_silent_step(
    job: FileJobView,
    cfg: Config,
    seen: Observed,
    steps: nat,
    end: (FileResult, NoteView),
)
    requires
        steps > 0,
        !(job.phase is Over),
        job.next(cfg, seen.due, seen.answer(job.phase)).1 is Nothing,
        ends(
            job.next(cfg, seen.due, seen.answer(job.phase)).0,
            cfg,
            seen,
            (steps - 1) as nat,
            end,
        ),
    ensures
        ends(job, cfg, seen, steps, end),
{
}

/// An event of which something is remembered, with nothing more to come.
proof fn lemma_noted_step(
    job: FileJobView,
    cfg: Config,
    seen: Observed,
    steps: nat,
    end: (FileResult, NoteView),
)
    requires
        steps > 0,
        !(job.phase is Over),
        !(end.1 is Nothing),
        job.next(cfg, seen.due, seen.answer(job.phase)).1 == end.1,
        ends(
            job.next(cfg, seen.due, seen.answer(job.phase)).0,
            cfg,
            seen,
            (steps - 1) as nat,
            (end.0, NoteView::Nothing),
        ),
    ensures
        ends(job, cfg, seen, steps, end),
{
    assert(seq![end.1] + Seq::<NoteView>::empty() =~= seq![end.1]);
}

/// A job whose last event leads to this end.
proof fn lemma_last_step(
    job: FileJobView,
    cfg: Config,
    seen: Observed,
    steps: nat,
    end: (FileResult, NoteView),
)
    requires
        steps > 0,
        !(job.phase is Over),
        job.next(cfg, seen.due, seen.answer(job.phase)) == (job.over(end.0), end.1),
    ensures
        ends(job, cfg, seen, steps, end),
{
    lemma_over(job.over(end.0), cfg, seen, (steps - 1) as nat, end.0);
    if end.1 is Nothing {
        lemma_silent_step(job, cfg, seen, steps, end);
    } else {
        lemma_noted_step(job, cfg, seen, steps, end);
    }
}

/// From the last look at the encoder on.
#[verifier::spinoff_prover]
proof fn lemma_encode_end(job: FileJobView, cfg: Config, seen: Observed, steps: nat)
    requires
        job.phase == FilePhase::Encode,
        steps >= 3,
    ensures
        ends(job, cfg, seen, steps, encode_verdict(cfg, job.input, job.target->0, seen)),
{
    let end = encode_verdict(cfg, job.input, job.target->0, seen);
    let next = job.next(cfg, seen.due, seen.answer(job.phase)).0;
    if next.phase is Over && !(end.0 is Converted) {
        lemma_last_step(job, cfg, seen, steps, end);
    } else if next.phase == FilePhase::Discard {
        lemma_last_step(next, cfg, seen, (steps - 1) as nat, end);
        lemma_silent_step(job, cfg, seen, steps, end);
    } else if next.phase == FilePhase::CopyTimes {
        let after = next.recorded(cfg);
        if after.phase == FilePhase::RemoveSource {
            lemma_last_step(
                after,
                cfg,
                seen,
                (steps - 2) as nat,
                (FileResult::Converted, NoteView::Nothing),
            );
            lemma_noted_step(next, cfg, seen, (steps - 1) as nat, end);
        } else {
            lemma_last_step(next, cfg, seen, (steps - 1) as nat, end);
        }
        lemma_silent_step(job, cfg, seen, steps, end);
    } else if next.phase == FilePhase::RemoveSource {
        lemma_last_step(
            next,
            cfg,
            seen,
            (steps - 1) as nat,
            (FileResult::Converted, NoteView::Nothing),
        );
        lemma_noted_step(job, cfg, seen, steps, end);
    } else {
        lemma_last_step(job, cfg, seen, steps, end);
    }
}

/// From the look at the target on.
#[verifier::spinoff_prover]
proof fn lemma_exists_end(job: FileJobView, cfg: Config, seen: Observed, steps: nat)
    requires
        job.phase == FilePhase::Exists,
        job.target is Some,
        steps >= 5,
    ensures
        ends(job, cfg, seen, steps, target_verdict(cfg, job.input, job.target->0, seen)),
{
    let end = target_verdict(cfg, job.input, job.target->0, seen);
    let next = job.next(cfg, seen.due, seen.answer(job.phase)).0;
    if seen.exists {
        lemma_last_step(job, cfg, seen, steps, end);
    } else if next.phase == FilePhase::MakeDirs {
        if seen.made_dirs is Some {
            lemma_last_step(next, cfg, seen, (steps - 1) as nat, end);
        } else {
            lemma_encode_end(next.at(FilePhase::Encode), cfg, seen, (steps - 2) as nat);
            lemma_silent_step(next, cfg, seen, (steps - 1) as nat, end);
        }
        lemma_silent_step(job, cfg, seen, steps, end);
    } else {
        lemma_encode_end(next, cfg, seen, (steps - 1) as nat);
        lemma_silent_step(job, cfg, seen, steps, end);
    }
}

/// From the probe on.
#[verifier::spinoff_prover]
proof fn lemma_probe_end(job: FileJobView, cfg: Config, seen: Observed, steps: nat)
    requires
        job.phase == FilePhase::Probe,
        steps >= 7,
    ensures
        ends(job, cfg, seen, steps, probe_verdict(cfg, job.input, job.watch_root, seen)),
{
    let end = probe_verdict(cfg, job.input, job.watch_root, seen);
    if job_choice(cfg, job.input, job.watch_root) is None {
        naming::lemma_no_choice(
            job.input,
            scan::result_dir(
                job.input,
                job.watch_root,
                cfg.output.mode,
                naming::view_of(cfg.output.directory),
            ),
            cfg.output.suffix@,
            seen.choice,
            seen.input,
        );
    }
    let next = job.next(cfg, seen.due, seen.answer(job.phase)).0;
    if next.phase == FilePhase::Resolve {
        let target = job_target(cfg, job.input, job.watch_root, seen.choice, seen.input);
        let settled = next.next(cfg, seen.due, seen.answer(next.phase)).0;
        if target is None {
            lemma_last_step(next, cfg, seen, (steps - 1) as nat, end);
        } else {
            lemma_exists_end(settled, cfg, seen, (steps - 2) as nat);
            lemma_silent_step(next, cfg, seen, (steps - 1) as nat, end);
        }
        lemma_silent_step(job, cfg, seen, steps, end);
    } else {
        lemma_last_step(job, cfg, seen, steps, end);
    }
}

/// A job ends after at most eight events, with the result and the one note, if any, that
/// its file calls for.
pub proof fn law_job_reaches_verdict(job: FileJobView, cfg: Config, seen: Observed)
    requires
        job.phase == FilePhase::Stat,
    ensures
        ({
            let (end, notes) = run(job, cfg, seen, 8);
            let (result, note) = verdict(cfg, job.input, job.watch_root, seen);
            &&& end.phase == FilePhase::Over(result)
            &&& notes == if note is Nothing {
                Seq::empty()
            } else {
                seq![note]
            }
        }),
{
    let verdict = verdict(cfg, job.input, job.watch_root, seen);
    let next = job.next(cfg, seen.due, seen.answer(job.phase)).0;
    if next.phase == FilePhase::Probe {
        lemma_probe_end(next, cfg, seen, 7);
        lemma_silent_step(job, cfg, seen, 8, verdict);
    } else {
        lemma_last_step(job, cfg, seen, 8, verdict);
    }
    assert(ends(job, cfg, seen, 8, verdict));
}

/// A file is converted only where it is due and old enough, has a video stream that is
/// not to be left alone, nothing stands at the place of the result, and the encoder
/// finished with a result that is small enough. What is remembered is that place.
pub proof fn law_converted_only_if_wanted(
    cfg: Config,
    input: Seq<u8>,
    watch_root: Seq<u8>,
    seen: Observed,
)
    ensures
        verdict(cfg, input, watch_root, seen).0 == FileResult::Converted <==> {
            &&& seen.stat is Some
            &&& !is_fresh(cfg, seen.stat->0)
            &&& seen.due
            &&& seen.probe is Ok
            &&& !is_left_alone(cfg, seen.probe->Ok_0)
            &&& job_target(cfg, input, watch_root, seen.choice, seen.input) is Some
            &&& !seen.exists
            &&& path::parent(
                job_target(cfg, input, watch_root, seen.choice, seen.input)->0,
            ) is Some ==> seen.made_dirs is None
            &&& seen.encoded == Ok::<_, Seq<char>>(EncodeResult::Finished)
            &&& !is_oversize(cfg, seen.sizes)
        },
        verdict(cfg, input, watch_root, seen).0 == FileResult::Converted ==> verdict(
            cfg,
            input,
            watch_root,
            seen,
        ).1 == NoteView::Done(job_target(cfg, input, watch_root, seen.choice, seen.input)->0),
{
}

/// A file modified more recently than the configured age, or at a time that lies ahead, is
/// skipped without being looked into, and nothing is remembered of it.
pub proof fn law_recent_is_ignored(job: FileJobView, cfg: Config, due: bool, seen: Seen)
    requires
        job.phase == FilePhase::Stat,
        cfg.min_file_age.total() > 0,
        seen.age is Some ==> seen.age->0.total() < cfg.min_file_age.total(),
    ensures
        job.next(cfg, due, EventView::Stat(Some(seen))) == (
            job.over(FileResult::Skipped),
            NoteView::Nothing,
        ),
{
}

/// The source is removed only where that is asked for, and only once the result of an
/// encoder that finished has been remembered.
pub proof fn law_source_removed_last(job: FileJobView, cfg: Config, due: bool, event: EventView)
    requires
        job.phase != FilePhase::RemoveSource,
        job.next(cfg, due, event).0.phase == FilePhase::RemoveSource,
    ensures
        cfg.output.replace,
        job.next(cfg, due, event).1 == NoteView::Done(job.target->0),
        job.phase == FilePhase::CopyTimes || (job.phase == FilePhase::Encode && (
        match event {
            EventView::Encoded(Ok(EncodeResult::Finished), sizes) => !is_oversize(cfg, sizes),
            _ => false,
        })),
{
}

/// An interrupted file is not remembered, and a job that is over stays over.
pub proof fn law_over_is_final(job: FileJobView, cfg: Config, due: bool, event: EventView)
    ensures
        job.phase is Over ==> job.next(cfg, due, event) == (job, NoteView::Nothing),
        job.next(cfg, due, event).0.phase == FilePhase::Over(FileResult::Interrupted) ==> job.next(
            cfg,
            due,
            event,
        ).1 is Nothing,
{
}

/// Where a file is due there is room for one more failure of it.
pub proof fn law_due_has_room_for_failure(
    s: StateView,
    key: Seq<char>,
    id: FileId,
    max_attempts: u32,
)
    requires
        state::is_due(s.entries, key, id, max_attempts),
    ensures
        state::failures(s.entries, key, id) < u32::MAX,
{
}

/// A file that was converted or left alone is not handled again by later scans until it
/// changes: once what came of it is remembered, it is skipped without being looked into.
pub proof fn law_handled_once(
    cfg: Config,
    input: Seq<u8>,
    watch_root: Seq<u8>,
    seen: Observed,
    later: Observed,
    s: StateView,
    key: Seq<char>,
    at: u64,
)
    requires
        seen.stat is Some,
        later.stat is Some,
        later.stat->0.id == seen.stat->0.id,
    ensures
        ({
            let id = seen.stat->0.id;
            let (result, note) = verdict(cfg, input, watch_root, seen);
            let after = remembered(s, key, id, note, at);
            let due = state::is_due(after.entries, key, id, cfg.max_attempts);
            &&& result == FileResult::Converted ==> note is Done
            &&& note is Done ==> verdict(cfg, input, watch_root, Observed { due, ..later }) == (
                FileResult::Skipped,
                NoteView::Nothing,
            )
        }),
{
}

} // verus!
