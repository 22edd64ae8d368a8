//! The conversion of every video below one directory, once.
//!
//! A [`Batch`] says what has to be done next ([`Batch::action`]); what that gave is
//! handed back as a [`BatchEvent`].
use vstd::prelude::*;
use vstd::string::*;

use crate::command::EncodeError;
use crate::config::OutputMode;
use crate::ffmpeg::{self, Av1Encoder, DetectError, EncodeOptions, ProbeError, Tool};
use crate::naming::{self, Resolved};
use crate::path::{self, FilePath};
use crate::path_laws;
use crate::scan;
use crate::text::{self, push_decimal, same_str, signed_decimal_string};
use crate::utf8::{self, shown_text};

verus! {

/// What is to be converted, and how.
#[derive(Debug)]
pub struct BatchArgs {
    /// Directory to scan recursively for video files.
    pub dir: FilePath,
    pub crf: u8,
    pub preset: i32,
    /// Opus bitrate per audio stream, in kbit/s.
    pub audio_bitrate: u32,
    pub bit_depth: u8,
    /// Write results below this directory instead of next to each source.
    pub output_dir: Option<FilePath>,
    /// Text inserted into the output file name before `.webm`.
    pub suffix: String,
    /// Delete each source after it converts.
    pub replace: bool,
    /// Convert even if there is an output file.
    pub overwrite: bool,
    /// Skip files whose video stream is already AV1.
    pub skip_av1: bool,
    /// Show what would happen without converting.
    pub dry_run: bool,
}

impl BatchArgs {
    /// Whether the options can be used.
    pub open spec fn usable(self) -> bool {
        self.bit_depth == 8 || self.bit_depth == 10
    }
}

/// Why the whole conversion did not come to its end.
#[derive(Debug)]
pub enum BatchError {
    BitDepth,
    /// The directory cannot be accessed.
    NoAccess,
    NotDirectory,
    ToolMissing(Tool),
    Encoder(DetectError),
    /// This directory cannot be created.
    CreateDir(FilePath),
}

#[verifier::ext_equal]
pub enum BatchErrorView {
    BitDepth,
    NoAccess,
    NotDirectory,
    ToolMissing(Tool),
    Encoder(DetectError),
    CreateDir(Seq<u8>),
}

impl View for BatchError {
    type V = BatchErrorView;

    open spec fn view(&self) -> BatchErrorView {
        match self {
            BatchError::BitDepth => BatchErrorView::BitDepth,
            BatchError::NoAccess => BatchErrorView::NoAccess,
            BatchError::NotDirectory => BatchErrorView::NotDirectory,
            BatchError::ToolMissing(t) => BatchErrorView::ToolMissing(*t),
            BatchError::Encoder(e) => BatchErrorView::Encoder(*e),
            BatchError::CreateDir(p) => BatchErrorView::CreateDir(p@),
        }
    }
}

/// What a batch waits for.
#[derive(Clone, Copy, Debug, PartialEq, Eq, Structural)]
pub enum BatchPhase {
    Dir,
    Tools,
    Encoders,
    Walk,
    Probe,
    Resolve,
    Exists,
    MakeDirs,
    Encode,
    RemoveOutput,
    RemoveSource,
    /// It came to its end.
    Over,
    /// It was given up.
    Refused,
}

/// The conversion of a tree.
#[derive(Debug)]
pub struct Batch {
    pub phase: BatchPhase,
    pub encoder: Option<Av1Encoder>,
    pub videos: Vec<FilePath>,
    /// Which video it is at.
    pub file: usize,
    /// Where the result of that video goes, once that is known.
    pub target: Option<FilePath>,
    pub converted: u64,
    pub skipped: u64,
    pub failed: u64,
    /// Why it was given up, if it was.
    pub error: Option<BatchError>,
}

#[verifier::ext_equal]
pub struct BatchView {
    pub phase: BatchPhase,
    pub encoder: Option<Av1Encoder>,
    pub videos: Seq<Seq<u8>>,
    pub file: int,
    pub target: Option<Seq<u8>>,
    pub converted: int,
    pub skipped: int,
    pub failed: int,
    pub error: Option<BatchErrorView>,
}

pub open spec fn error_view(e: Option<BatchError>) -> Option<BatchErrorView> {
    match e {
        Some(e) => Some(e@),
        None => None,
    }
}

impl View for Batch {
    type V = BatchView;

    open spec fn view(&self) -> BatchView {
        BatchView {
            phase: self.phase,
            encoder: self.encoder,
            videos: scan::path_views(self.videos@),
            file: self.file as int,
            target: naming::view_of(self.target),
            converted: self.converted as int,
            skipped: self.skipped as int,
            failed: self.failed as int,
            error: error_view(self.error),
        }
    }
}

/// What a batch asks for.
#[derive(Debug)]
pub enum BatchAction {
    /// Look at the directory.
    LookAtDir,
    /// Try to run both tools.
    RunTools,
    /// Have `ffmpeg` list its encoders.
    ListEncoders,
    /// List the video files below the directory.
    Walk,
    /// Find the codec of this file.
    Probe(FilePath),
    /// Resolve the first path, and the second.
    Resolve(FilePath, FilePath),
    /// See whether there is anything at this path.
    Exists(FilePath),
    /// Create this directory and those above it.
    MakeDirs(FilePath),
    /// Encode the first path to the second.
    Encode(FilePath, FilePath),
    RemoveOutput(FilePath),
    RemoveSource(FilePath),
    /// It came to its end, and so many files failed.
    Finish(u64),
    GiveUp,
}

/// What a look at the directory shows.
#[derive(Clone, Copy, Debug, PartialEq, Eq, Structural)]
pub enum DirKind {
    NoAccess,
    NotDirectory,
    Directory,
}

/// What an action gave.
#[derive(Debug)]
pub enum BatchEvent {
    DirSeen(DirKind),
    ToolsRun { ffmpeg: bool, ffprobe: bool },
    Encoders(Result<Av1Encoder, DetectError>),
    Walked(Vec<FilePath>),
    Probed(Result<Option<String>, ProbeError>),
    Resolved(Resolved),
    Exists(bool),
    MadeDirs(bool),
    Encoded(Result<(), EncodeError>),
    OutputRemoved,
    SourceRemoved,
}

#[verifier::ext_equal]
pub enum BatchEventView {
    DirSeen(DirKind),
    ToolsRun { ffmpeg: bool, ffprobe: bool },
    Encoders(Result<Av1Encoder, DetectError>),
    Walked(Seq<Seq<u8>>),
    /// The codec, or the error.
    Probed(Result<Option<Seq<char>>, Seq<char>>),
    Resolved { choice: Option<Seq<u8>>, input: Option<Seq<u8>> },
    Exists(bool),
    MadeDirs(bool),
    /// The error, if it failed.
    Encoded(Option<Seq<char>>),
    OutputRemoved,
    SourceRemoved,
}

impl View for BatchEvent {
    type V = BatchEventView;

    open spec fn view(&self) -> BatchEventView {
        match self {
            BatchEvent::DirSeen(k) => BatchEventView::DirSeen(*k),
            BatchEvent::ToolsRun { ffmpeg, ffprobe } => BatchEventView::ToolsRun {
                ffmpeg: *ffmpeg,
                ffprobe: *ffprobe,
            },
            BatchEvent::Encoders(r) => BatchEventView::Encoders(*r),
            BatchEvent::Walked(v) => BatchEventView::Walked(scan::path_views(v@)),
            BatchEvent::Probed(Ok(c)) => BatchEventView::Probed(Ok(ffmpeg::string_view(*c))),
            BatchEvent::Probed(Err(e)) => BatchEventView::Probed(Err(e.text())),
            BatchEvent::Resolved(r) => BatchEventView::Resolved {
                choice: naming::view_of(r.choice),
                input: naming::view_of(r.input),
            },
            BatchEvent::Exists(b) => BatchEventView::Exists(*b),
            BatchEvent::MadeDirs(b) => BatchEventView::MadeDirs(*b),
            BatchEvent::Encoded(Ok(_)) => BatchEventView::Encoded(None),
            BatchEvent::Encoded(Err(e)) => BatchEventView::Encoded(Some(e.text())),
            BatchEvent::OutputRemoved => BatchEventView::OutputRemoved,
            BatchEvent::SourceRemoved => BatchEventView::SourceRemoved,
        }
    }
}

/// What there is to say of a file.
#[derive(Debug)]
pub enum Remark {
    Nothing,
    NoVideo,
    AlreadyAv1,
    ProbeFailed(String),
    NoOutputPath,
    OutputExists(FilePath),
    WouldWrite(FilePath),
    Converted,
    EncodeFailed(String),
}

#[verifier::ext_equal]
pub enum RemarkView {
    Nothing,
    NoVideo,
    AlreadyAv1,
    ProbeFailed(Seq<char>),
    NoOutputPath,
    OutputExists(Seq<u8>),
    WouldWrite(Seq<u8>),
    Converted,
    EncodeFailed(Seq<char>),
}

impl View for Remark {
    type V = RemarkView;

    open spec fn view(&self) -> RemarkView {
        match self {
            Remark::Nothing => RemarkView::Nothing,
            Remark::NoVideo => RemarkView::NoVideo,
            Remark::AlreadyAv1 => RemarkView::AlreadyAv1,
            Remark::ProbeFailed(e) => RemarkView::ProbeFailed(e@),
            Remark::NoOutputPath => RemarkView::NoOutputPath,
            Remark::OutputExists(p) => RemarkView::OutputExists(p@),
            Remark::WouldWrite(p) => RemarkView::WouldWrite(p@),
            Remark::Converted => RemarkView::Converted,
            Remark::EncodeFailed(e) => RemarkView::EncodeFailed(e@),
        }
    }
}

impl RemarkView {
    /// The line that says it; empty where there is none.
    pub open spec fn text(self) -> Seq<char> {
        match self {
            RemarkView::Nothing | RemarkView::Converted => ""@,
            RemarkView::NoVideo => "  skip: no video stream"@,
            RemarkView::AlreadyAv1 => "  skip: already AV1"@,
            RemarkView::ProbeFailed(e) => "  FAILED: probe: "@ + e,
            RemarkView::NoOutputPath => "  skip: cannot form an output path"@,
            RemarkView::OutputExists(p) => "  skip: output exists ("@ + utf8::shown(p) + ")"@,
            RemarkView::WouldWrite(p) => "  would write "@ + utf8::shown(p),
            RemarkView::EncodeFailed(e) => "  FAILED: "@ + e,
        }
    }
}

impl Remark {
    /// The line that says it; empty where there is none.
    pub fn line(&self) -> (r: String)
        ensures
            r@ == self@.text(),
    {
        match self {
            Remark::Nothing | Remark::Converted => "".to_owned(),
            Remark::NoVideo => "  skip: no video stream".to_owned(),
            Remark::AlreadyAv1 => "  skip: already AV1".to_owned(),
            Remark::ProbeFailed(e) => {
                let mut s: String = "  FAILED: probe: ".to_owned();
                s.append(e.as_str());
                s
            },
            Remark::NoOutputPath => "  skip: cannot form an output path".to_owned(),
            Remark::OutputExists(p) => {
                let mut s: String = "  skip: output exists (".to_owned();
                s.append(shown_text(p.bytes.as_slice()).as_str());
                s.append(")");
                s
            },
            Remark::WouldWrite(p) => {
                let mut s: String = "  would write ".to_owned();
                s.append(shown_text(p.bytes.as_slice()).as_str());
                s
            },
            Remark::EncodeFailed(e) => {
                let mut s: String = "  FAILED: ".to_owned();
                s.append(e.as_str());
                s
            },
        }
    }
}

impl BatchErrorView {
    /// What is said of it, where `dir` is the directory that was to be scanned.
    pub open spec fn text(self, dir: Seq<u8>) -> Seq<char> {
        match self {
            BatchErrorView::BitDepth => "--bit-depth must be 8 or 10"@,
            BatchErrorView::NoAccess => "cannot access "@ + utf8::shown(dir),
            BatchErrorView::NotDirectory => utf8::shown(dir) + " is not a directory"@,
            BatchErrorView::ToolMissing(tool) => tool.text(),
            BatchErrorView::Encoder(e) => e.text(),
            BatchErrorView::CreateDir(p) => "cannot create "@ + utf8::shown(p),
        }
    }
}

impl BatchError {
    /// What is said of it, where `dir` is the directory that was to be scanned.
    pub fn message(&self, dir: &FilePath) -> (r: String)
        ensures
            r@ == self@.text(dir@),
    {
        match self {
            BatchError::BitDepth => "--bit-depth must be 8 or 10".to_owned(),
            BatchError::NoAccess => {
                let mut s: String = "cannot access ".to_owned();
                s.append(shown_text(dir.bytes.as_slice()).as_str());
                s
            },
            BatchError::NotDirectory => {
                let mut s: String = shown_text(dir.bytes.as_slice());
                s.append(" is not a directory");
                s
            },
            BatchError::ToolMissing(tool) => tool.missing_message(),
            BatchError::Encoder(e) => e.message().to_owned(),
            BatchError::CreateDir(p) => {
                let mut s: String = "cannot create ".to_owned();
                s.append(shown_text(p.bytes.as_slice()).as_str());
                s
            },
        }
    }
}

/// The directory that the result of converting `input` goes to. With an output
/// directory, only what is below the scanned one has a place.
pub open spec fn batch_dir(args: BatchArgs, input: Seq<u8>) -> Option<Seq<u8>> {
    match naming::view_of(args.output_dir) {
        None => path::parent(input),
        Some(out) => match path::strip_prefix(input, args.dir@) {
            None => None,
            Some(rest) => match path::parent(rest) {
                Some(rel) => Some(path::join(out, rel)),
                None => Some(out),
            },
        },
    }
}

impl BatchView {
    /// Indices are in range, a target is known where one is needed, and no file has
    /// been counted twice.
    pub open spec fn wf(self) -> bool {
        &&& 0 <= self.file <= self.videos.len()
        &&& 0 <= self.converted
        &&& 0 <= self.skipped
        &&& 0 <= self.failed
        &&& match self.phase {
            BatchPhase::Dir | BatchPhase::Tools | BatchPhase::Encoders => self.counted() == 0
                && self.file == 0 && self.error is None,
            BatchPhase::Walk => self.counted() == 0 && self.file == 0 && self.error is None
                && self.encoder is Some,
            BatchPhase::Probe => self.file < self.videos.len() && self.counted() <= self.file
                && self.error is None && self.encoder is Some,
            BatchPhase::Resolve | BatchPhase::Exists | BatchPhase::Encode
                | BatchPhase::RemoveOutput => self.file < self.videos.len() && self.counted()
                <= self.file && self.target is Some && self.error is None && self.encoder is Some,
            BatchPhase::MakeDirs => self.file < self.videos.len() && self.counted() <= self.file
                && self.target is Some && path::parent(self.target->0) is Some && self.error is None
                && self.encoder is Some,
            BatchPhase::RemoveSource => self.file < self.videos.len() && self.counted()
                <= self.file + 1 && self.error is None && self.encoder is Some,
            BatchPhase::Over => self.file == self.videos.len() && self.counted() <= self.file
                && self.error is None,
            BatchPhase::Refused => self.counted() <= self.file && self.error is Some,
        }
    }

    pub open spec fn counted(self) -> int {
        self.converted + self.skipped + self.failed
    }

    pub open spec fn start() -> BatchView {
        BatchView {
            phase: BatchPhase::Dir,
            encoder: None,
            videos: Seq::empty(),
            file: 0,
            target: None,
            converted: 0,
            skipped: 0,
            failed: 0,
            error: None,
        }
    }

    pub open spec fn at(self, phase: BatchPhase) -> BatchView {
        BatchView { phase, ..self }
    }

    pub open spec fn refused(self, error: BatchErrorView) -> BatchView {
        BatchView { phase: BatchPhase::Refused, error: Some(error), ..self }
    }

    /// At the next file, if there is one.
    pub open spec fn next_file(self) -> BatchView {
        BatchView {
            file: self.file + 1,
            target: None,
            phase: if self.file + 1 == self.videos.len() {
                BatchPhase::Over
            } else {
                BatchPhase::Probe
            },
            ..self
        }
    }

    pub open spec fn skip(self) -> BatchView {
        BatchView { skipped: self.skipped + 1, ..self }.next_file()
    }

    pub open spec fn fail(self) -> BatchView {
        BatchView { failed: self.failed + 1, ..self }.next_file()
    }

    /// Once nothing stands in the way of writing to the target.
    pub open spec fn clear_to_write(self, args: BatchArgs) -> (BatchView, RemarkView) {
        if args.dry_run {
            (self.next_file(), RemarkView::WouldWrite(self.target->0))
        } else if path::parent(self.target->0) is Some {
            (self.at(BatchPhase::MakeDirs), RemarkView::Nothing)
        } else {
            (self.at(BatchPhase::Encode), RemarkView::Nothing)
        }
    }

    /// The batch after an event, and what there is to say. An event that it does not wait
    /// for changes nothing.
    pub open spec fn next(self, args: BatchArgs, event: BatchEventView) -> (BatchView, RemarkView) {
        let input = self.videos[self.file];
        match (self.phase, event) {
            (BatchPhase::Dir, BatchEventView::DirSeen(kind)) => (
                if !args.usable() {
                    self.refused(BatchErrorView::BitDepth)
                } else {
                    match kind {
                        DirKind::NoAccess => self.refused(BatchErrorView::NoAccess),
                        DirKind::NotDirectory => self.refused(BatchErrorView::NotDirectory),
                        DirKind::Directory => self.at(BatchPhase::Tools),
                    }
                },
                RemarkView::Nothing,
            ),
            (BatchPhase::Tools, BatchEventView::ToolsRun { ffmpeg, ffprobe }) => (
                if !ffmpeg {
                    self.refused(BatchErrorView::ToolMissing(Tool::Ffmpeg))
                } else if !ffprobe {
                    self.refused(BatchErrorView::ToolMissing(Tool::Ffprobe))
                } else {
                    self.at(BatchPhase::Encoders)
                },
                RemarkView::Nothing,
            ),
            (BatchPhase::Encoders, BatchEventView::Encoders(Ok(e))) => (
                BatchView { encoder: Some(e), phase: BatchPhase::Walk, ..self },
                RemarkView::Nothing,
            ),
            (BatchPhase::Encoders, BatchEventView::Encoders(Err(e))) => (
                self.refused(BatchErrorView::Encoder(e)),
                RemarkView::Nothing,
            ),
            (BatchPhase::Walk, BatchEventView::Walked(videos)) => (
                BatchView {
                    videos,
                    file: 0,
                    phase: if videos.len() == 0 {
                        BatchPhase::Over
                    } else {
                        BatchPhase::Probe
                    },
                    ..self
                },
                RemarkView::Nothing,
            ),
            (BatchPhase::Probe, BatchEventView::Probed(Err(e))) => (
                self.fail(),
                RemarkView::ProbeFailed(e),
            ),
            (BatchPhase::Probe, BatchEventView::Probed(Ok(None))) => (
                self.skip(),
                RemarkView::NoVideo,
            ),
            (BatchPhase::Probe, BatchEventView::Probed(Ok(Some(codec)))) => if args.skip_av1
                && codec == "av1"@ {
                (self.skip(), RemarkView::AlreadyAv1)
            } else {
                match naming::choice(input, batch_dir(args, input), args.suffix@) {
                    None => (self.skip(), RemarkView::NoOutputPath),
                    Some(t) => (
                        BatchView { target: Some(t), phase: BatchPhase::Resolve, ..self },
                        RemarkView::Nothing,
                    ),
                }
            },
            (BatchPhase::Resolve, BatchEventView::Resolved { choice, input: resolved }) => match
                naming::settled(input, batch_dir(args, input), args.suffix@, choice, resolved) {
                None => (self.skip(), RemarkView::NoOutputPath),
                Some(t) => {
                    let settled = BatchView { target: Some(t), ..self };
                    if args.overwrite {
                        settled.clear_to_write(args)
                    } else {
                        (settled.at(BatchPhase::Exists), RemarkView::Nothing)
                    }
                },
            },
            (BatchPhase::Exists, BatchEventView::Exists(true)) => (
                self.skip(),
                RemarkView::OutputExists(self.target->0),
            ),
            (BatchPhase::Exists, BatchEventView::Exists(false)) => self.clear_to_write(args),
            (BatchPhase::MakeDirs, BatchEventView::MadeDirs(true)) => (
                self.at(BatchPhase::Encode),
                RemarkView::Nothing,
            ),
            (BatchPhase::MakeDirs, BatchEventView::MadeDirs(false)) => (
                self.refused(BatchErrorView::CreateDir(path::parent(self.target->0)->0)),
                RemarkView::Nothing,
            ),
            (BatchPhase::Encode, BatchEventView::Encoded(None)) => {
                let done = BatchView { converted: self.converted + 1, ..self };
                (
                    if args.replace {
                        done.at(BatchPhase::RemoveSource)
                    } else {
                        done.next_file()
                    },
                    RemarkView::Converted,
                )
            },
            (BatchPhase::Encode, BatchEventView::Encoded(Some(e))) => (
                self.at(BatchPhase::RemoveOutput),
                RemarkView::EncodeFailed(e),
            ),
            (BatchPhase::RemoveOutput, BatchEventView::OutputRemoved) => (
                self.fail(),
                RemarkView::Nothing,
            ),
            (BatchPhase::RemoveSource, BatchEventView::SourceRemoved) => (
                self.next_file(),
                RemarkView::Nothing,
            ),
            _ => (self, RemarkView::Nothing),
        }
    }
}

/// Whether the options can be used.
pub fn check_args(args: &BatchArgs) -> (r: Result<(), BatchError>)
    ensures
        r == (if args.usable() {
            Ok(())
        } else {
            Err(BatchError::BitDepth)
        }),
{
    if args.bit_depth != 8 && args.bit_depth != 10 {
        return Err(BatchError::BitDepth);
    }
    Ok(())
}

/// How the encoder is driven.
pub fn encode_options(args: &BatchArgs, encoder: Av1Encoder) -> (r: EncodeOptions)
    ensures
        r == (EncodeOptions {
            encoder,
            crf: args.crf,
            preset: args.preset,
            audio_bitrate_kbps: args.audio_bitrate,
            bit_depth: args.bit_depth,
        }),
{
    EncodeOptions {
        encoder,
        crf: args.crf,
        preset: args.preset,
        audio_bitrate_kbps: args.audio_bitrate,
        bit_depth: args.bit_depth,
    }
}

/// The directory that the result of converting `input` goes to.
pub fn output_dir(args: &BatchArgs, input: &FilePath) -> (r: Option<FilePath>)
    ensures
        naming::view_of(r) == batch_dir(*args, input@),
{
    match &args.output_dir {
        None => input.parent(),
        Some(out) => match input.strip_prefix(&args.dir) {
            None => None,
            Some(rest) => match rest.parent() {
                Some(rel) => Some(out.join(rel.bytes.as_slice())),
                None => Some(out.copy()),
            },
        },
    }
}

/// The `.webm` path for the result of converting `input`, where `resolved` says what the
/// first choice and the source resolve to.
pub fn output_path(args: &BatchArgs, input: &FilePath, resolved: &Resolved) -> (r: Option<FilePath>)
    ensures
        naming::view_of(r) == naming::settled(
            input@,
            batch_dir(*args, input@),
            args.suffix@,
            naming::view_of(resolved.choice),
            naming::view_of(resolved.input),
        ),
{
    let dir = output_dir(args, input);
    naming::settle(input, &dir, args.suffix.as_str(), resolved)
}

impl Batch {
    /// A batch at its start.
    pub fn start() -> (r: Batch)
        ensures
            r@ == BatchView::start(),
            r@.wf(),
    {
        let r = Batch {
            phase: BatchPhase::Dir,
            encoder: None,
            videos: Vec::new(),
            file: 0,
            target: None,
            converted: 0,
            skipped: 0,
            failed: 0,
            error: None,
        };
        assert(r@.videos =~= Seq::empty());
        r
    }

    fn target_copy(&self) -> (r: FilePath)
        requires
            self.target is Some,
        ensures
            r@ == self@.target->0,
    {
        match &self.target {
            Some(p) => p.copy(),
            None => FilePath { bytes: Vec::new() },
        }
    }

    fn input_copy(&self) -> (r: FilePath)
        requires
            self.file < self.videos@.len(),
        ensures
            r@ == self@.videos[self@.file],
    {
        self.videos[self.file].copy()
    }

    /// What has to be done next.
    pub fn action(&self) -> (r: BatchAction)
        requires
            self@.wf(),
        ensures
            ({
                let input = self@.videos[self@.file];
                let target = self@.target->0;
                match self@.phase {
                    BatchPhase::Dir => r is LookAtDir,
                    BatchPhase::Tools => r is RunTools,
                    BatchPhase::Encoders => r is ListEncoders,
                    BatchPhase::Walk => r is Walk,
                    BatchPhase::Probe => r matches BatchAction::Probe(p) && p@ == input,
                    BatchPhase::Resolve => r matches BatchAction::Resolve(p, q) && p@ == target
                        && q@ == input,
                    BatchPhase::Exists => r matches BatchAction::Exists(p) && p@ == target,
                    BatchPhase::MakeDirs => r matches BatchAction::MakeDirs(p) && Some(p@)
                        == path::parent(target),
                    BatchPhase::Encode => r matches BatchAction::Encode(p, q) && p@ == input && q@
                        == target,
                    BatchPhase::RemoveOutput => r matches BatchAction::RemoveOutput(p) && p@
                        == target,
                    BatchPhase::RemoveSource => r matches BatchAction::RemoveSource(p) && p@
                        == input,
                    BatchPhase::Over => r == BatchAction::Finish(self.failed),
                    BatchPhase::Refused => r is GiveUp,
                }
            }),
    {
        assert(self@.videos.len() == self.videos.len());
        match self.phase {
            BatchPhase::Dir => BatchAction::LookAtDir,
            BatchPhase::Tools => BatchAction::RunTools,
            BatchPhase::Encoders => BatchAction::ListEncoders,
            BatchPhase::Walk => BatchAction::Walk,
            BatchPhase::Probe => BatchAction::Probe(self.input_copy()),
            BatchPhase::Resolve => BatchAction::Resolve(self.target_copy(), self.input_copy()),
            BatchPhase::Exists => BatchAction::Exists(self.target_copy()),
            BatchPhase::MakeDirs => match self.target_copy().parent() {
                Some(d) => BatchAction::MakeDirs(d),
                None => BatchAction::GiveUp,
            },
            BatchPhase::Encode => BatchAction::Encode(self.input_copy(), self.target_copy()),
            BatchPhase::RemoveOutput => BatchAction::RemoveOutput(self.target_copy()),
            BatchPhase::RemoveSource => BatchAction::RemoveSource(self.input_copy()),
            BatchPhase::Over => BatchAction::Finish(self.failed),
            BatchPhase::Refused => BatchAction::GiveUp,
        }
    }

    fn refuse(&mut self, error: BatchError)
        ensures
            final(self)@ == old(self)@.refused(error@),
    {
        self.error = Some(error);
        self.phase = BatchPhase::Refused;
    }

    fn go_on(&mut self)
        requires
            old(self).file < old(self).videos@.len(),
        ensures
            final(self)@ == old(self)@.next_file(),
    {
        let total: usize = self.videos.len();
        self.file = self.file + 1;
        self.target = None;
        self.phase = if self.file == total {
            BatchPhase::Over
        } else {
            BatchPhase::Probe
        };
    }

    fn skip_file(&mut self)
        requires
            old(self).file < old(self).videos@.len(),
            old(self).skipped < u64::MAX,
        ensures
            final(self)@ == old(self)@.skip(),
    {
        self.skipped = self.skipped + 1;
        self.go_on();
    }

    fn fail_file(&mut self)
        requires
            old(self).file < old(self).videos@.len(),
            old(self).failed < u64::MAX,
        ensures
            final(self)@ == old(self)@.fail(),
    {
        self.failed = self.failed + 1;
        self.go_on();
    }

    fn write_target(&mut self, args: &BatchArgs) -> (r: Remark)
        requires
            old(self).file < old(self).videos@.len(),
            old(self).target is Some,
        ensures
            (final(self)@, r@) == old(self)@.clear_to_write(*args),
    {
        if args.dry_run {
            let t = self.target_copy();
            self.go_on();
            return Remark::WouldWrite(t);
        }
        if self.target_copy().parent().is_some() {
            self.phase = BatchPhase::MakeDirs;
        } else {
            self.phase = BatchPhase::Encode;
        }
        Remark::Nothing
    }

    /// What a probe that found a codec leads to.
    fn codec_found(&mut self, args: &BatchArgs, codec: &str) -> (r: Remark)
        requires
            old(self)@.wf(),
            old(self).phase == BatchPhase::Probe,
        ensures
            (final(self)@, r@) == old(self)@.next(
                *args,
                BatchEventView::Probed(Ok(Some(codec@))),
            ),
    {
        assert(self@.videos.len() == self.videos.len());
        if args.skip_av1 && same_str(codec, "av1") {
            self.skip_file();
            return Remark::AlreadyAv1;
        }
        let input = self.input_copy();
        let dir = output_dir(args, &input);
        match naming::first_choice(&input, &dir, args.suffix.as_str()) {
            None => {
                self.skip_file();
                Remark::NoOutputPath
            },
            Some(t) => {
                self.target = Some(t);
                self.phase = BatchPhase::Resolve;
                Remark::Nothing
            },
        }
    }

    /// Takes up what an action gave, and says what there is to say of the file.
    #[verifier::spinoff_prover]
    pub fn run(&mut self, args: &BatchArgs, event: BatchEvent) -> (remark: Remark)
        requires
            old(self)@.wf(),
        ensures
            final(self)@.wf(),
            (final(self)@, remark@) == old(self)@.next(*args, event@),
    {
        assert(self@.videos.len() == self.videos.len());
        match (self.phase, event) {
            (BatchPhase::Dir, BatchEvent::DirSeen(kind)) => {
                match (check_args(args), kind) {
                    (Err(e), _) => {
                        self.refuse(e);
                    },
                    (Ok(()), DirKind::NoAccess) => {
                        self.refuse(BatchError::NoAccess);
                    },
                    (Ok(()), DirKind::NotDirectory) => {
                        self.refuse(BatchError::NotDirectory);
                    },
                    (Ok(()), DirKind::Directory) => {
                        self.phase = BatchPhase::Tools;
                    },
                }
                Remark::Nothing
            },
            (BatchPhase::Tools, BatchEvent::ToolsRun { ffmpeg, ffprobe }) => {
                match ffmpeg::check_tools(ffmpeg, ffprobe) {
                    Err(tool) => {
                        self.refuse(BatchError::ToolMissing(tool));
                    },
                    Ok(()) => {
                        self.phase = BatchPhase::Encoders;
                    },
                }
                Remark::Nothing
            },
            (BatchPhase::Encoders, BatchEvent::Encoders(Ok(e))) => {
                self.encoder = Some(e);
                self.phase = BatchPhase::Walk;
                Remark::Nothing
            },
            (BatchPhase::Encoders, BatchEvent::Encoders(Err(e))) => {
                self.refuse(BatchError::Encoder(e));
                Remark::Nothing
            },
            (BatchPhase::Walk, BatchEvent::Walked(videos)) => {
                self.phase = if videos.len() == 0 {
                    BatchPhase::Over
                } else {
                    BatchPhase::Probe
                };
                self.videos = videos;
                self.file = 0;
                Remark::Nothing
            },
            (BatchPhase::Probe, BatchEvent::Probed(Err(e))) => {
                self.fail_file();
                Remark::ProbeFailed(e.message())
            },
            (BatchPhase::Probe, BatchEvent::Probed(Ok(None))) => {
                self.skip_file();
                Remark::NoVideo
            },
            (BatchPhase::Probe, BatchEvent::Probed(Ok(Some(codec)))) => self.codec_found(
                args,
                codec.as_str(),
            ),
            (BatchPhase::Resolve, BatchEvent::Resolved(resolved)) => {
                let input = self.input_copy();
                match output_path(args, &input, &resolved) {
                    None => {
                        self.skip_file();
                        Remark::NoOutputPath
                    },
                    Some(t) => {
                        self.target = Some(t);
                        if args.overwrite {
                            self.write_target(args)
                        } else {
                            self.phase = BatchPhase::Exists;
                            Remark::Nothing
                        }
                    },
                }
            },
            (BatchPhase::Exists, BatchEvent::Exists(there)) => {
                if there {
                    let t = self.target_copy();
                    self.skip_file();
                    Remark::OutputExists(t)
                } else {
                    self.write_target(args)
                }
            },
            (BatchPhase::MakeDirs, BatchEvent::MadeDirs(made)) => {
                if made {
                    self.phase = BatchPhase::Encode;
                } else {
                    match self.target_copy().parent() {
                        Some(d) => {
                            self.refuse(BatchError::CreateDir(d));
                        },
                        None => {},
                    }
                }
                Remark::Nothing
            },
            (BatchPhase::Encode, BatchEvent::Encoded(Ok(()))) => {
                self.converted = self.converted + 1;
                if args.replace {
                    self.phase = BatchPhase::RemoveSource;
                } else {
                    self.go_on();
                }
                Remark::Converted
            },
            (BatchPhase::Encode, BatchEvent::Encoded(Err(e))) => {
                self.phase = BatchPhase::RemoveOutput;
                Remark::EncodeFailed(e.message())
            },
            (BatchPhase::RemoveOutput, BatchEvent::OutputRemoved) => {
                self.fail_file();
                Remark::Nothing
            },
            (BatchPhase::RemoveSource, BatchEvent::SourceRemoved) => {
                self.go_on();
                Remark::Nothing
            },
            _ => Remark::Nothing,
        }
    }
}

/// What is said before the first file.
pub open spec fn opening(args: BatchArgs, encoder: Av1Encoder) -> Seq<char> {
    "AV1 encoder: "@ + encoder.name() + "  (crf "@ + text::decimal(args.crf as nat) + ", preset "@
        + text::signed_decimal(args.preset as int) + ", "@ + text::decimal(args.bit_depth as nat)
        + "-bit, opus "@ + text::decimal(args.audio_bitrate as nat) + "k)"@
}

/// Says which encoder is used, and how.
pub fn opening_line(args: &BatchArgs, encoder: Av1Encoder) -> (r: String)
    ensures
        r@ == opening(*args, encoder),
{
    let mut s: String = "AV1 encoder: ".to_owned();
    s.append(encoder.ffmpeg_name());
    s.append("  (crf ");
    push_decimal(&mut s, args.crf as u64);
    s.append(", preset ");
    s.append(signed_decimal_string(args.preset).as_str());
    s.append(", ");
    push_decimal(&mut s, args.bit_depth as u64);
    s.append("-bit, opus ");
    push_decimal(&mut s, args.audio_bitrate as u64);
    s.append("k)");
    s
}

/// Says how many files were found below the directory.
pub fn found_line(dir: &FilePath, count: u64) -> (r: String)
    ensures
        r@ == if count == 0 {
            "No video files found under "@ + utf8::shown(dir@)
        } else {
            "Found "@ + text::decimal(count as nat) + " candidate file(s)"@
        },
{
    if count == 0 {
        let mut s: String = "No video files found under ".to_owned();
        s.append(shown_text(dir.bytes.as_slice()).as_str());
        s
    } else {
        let mut s: String = "Found ".to_owned();
        push_decimal(&mut s, count);
        s.append(" candidate file(s)");
        s
    }
}

impl Batch {
    /// Says which file it is at.
    pub fn progress_line(&self) -> (r: String)
        requires
            self@.wf(),
            self@.file < self@.videos.len(),
        ensures
            r@ == "["@ + text::decimal((self@.file + 1) as nat) + "/"@ + text::decimal(
                self@.videos.len(),
            ) + "] "@ + utf8::shown(self@.videos[self@.file]),
    {
        let total: usize = self.videos.len();
        let mut s: String = "[".to_owned();
        push_decimal(&mut s, self.file as u64 + 1);
        s.append("/");
        push_decimal(&mut s, total as u64);
        s.append("] ");
        s.append(shown_text(self.videos[self.file].bytes.as_slice()).as_str());
        s
    }

    /// Says what came of the files.
    pub fn summary_line(&self) -> (r: String)
        ensures
            r@ == "Done: "@ + text::decimal(self@.converted as nat) + " converted, "@
                + text::decimal(self@.skipped as nat) + " skipped, "@ + text::decimal(
                self@.failed as nat,
            ) + " failed"@,
    {
        let mut s: String = "Done: ".to_owned();
        push_decimal(&mut s, self.converted);
        s.append(" converted, ");
        push_decimal(&mut s, self.skipped);
        s.append(" skipped, ");
        push_decimal(&mut s, self.failed);
        s.append(" failed");
        s
    }

    /// Whether it came to its end without a failed file.
    pub fn succeeded(&self) -> (r: bool)
        ensures
            r <==> self@.phase == BatchPhase::Over && self@.failed == 0,
    {
        self.phase == BatchPhase::Over && self.failed == 0
    }
}

/// What the outside shows of one file, whether it is asked or not.
pub struct Shown {
    /// The codec, or the error.
    pub probe: Result<Option<Seq<char>>, Seq<char>>,
    /// What the first choice resolves to.
    pub choice: Option<Seq<u8>>,
    /// What the source resolves to.
    pub input: Option<Seq<u8>>,
    pub exists: bool,
    pub made_dirs: bool,
    /// The error, if the encoder failed.
    pub encoded: Option<Seq<char>>,
}

impl Shown {
    /// The event that a batch gets in a phase.
    pub open spec fn answer(self, phase: BatchPhase) -> BatchEventView {
        match phase {
            BatchPhase::Probe => BatchEventView::Probed(self.probe),
            BatchPhase::Resolve => BatchEventView::Resolved {
                choice: self.choice,
                input: self.input,
            },
            BatchPhase::Exists => BatchEventView::Exists(self.exists),
            BatchPhase::MakeDirs => BatchEventView::MadeDirs(self.made_dirs),
            BatchPhase::Encode => BatchEventView::Encoded(self.encoded),
            BatchPhase::RemoveOutput => BatchEventView::OutputRemoved,
            _ => BatchEventView::SourceRemoved,
        }
    }
}

/// What comes of a file.
pub enum Fate {
    Converted,
    Skipped,
    Failed,
    /// It would be converted, but this is a dry run.
    Planned,
    /// The directory of its result cannot be created, and the batch is given up.
    Fatal,
}

/// Where the result of converting `input` goes.
pub open spec fn target_of(args: BatchArgs, input: Seq<u8>, shown: Shown) -> Option<Seq<u8>> {
    naming::settled(input, batch_dir(args, input), args.suffix@, shown.choice, shown.input)
}

/// What has to come of a file whose result can be written to `target`.
pub open spec fn clear_fate(args: BatchArgs, target: Seq<u8>, shown: Shown) -> Fate {
    if args.dry_run {
        Fate::Planned
    } else if path::parent(target) is Some && !shown.made_dirs {
        Fate::Fatal
    } else if shown.encoded is Some {
        Fate::Failed
    } else {
        Fate::Converted
    }
}

/// What has to come of the file `input`.
#[verifier::opaque]
pub open spec fn fate(args: BatchArgs, input: Seq<u8>, shown: Shown) -> Fate {
    let target = target_of(args, input, shown);
    if shown.probe is Err {
        Fate::Failed
    } else if shown.probe->Ok_0 is None || (args.skip_av1 && shown.probe->Ok_0->0 == "av1"@) {
        Fate::Skipped
    } else if target is None {
        Fate::Skipped
    } else if !args.overwrite && shown.exists {
        Fate::Skipped
    } else {
        clear_fate(args, target->0, shown)
    }
}

/// Whether `end` is the batch after the current file met this fate. Nothing else that the
/// batch holds changes, unless it is given up.
pub open spec fn is_after(batch: BatchView, fate: Fate, end: BatchView) -> bool {
    match fate {
        Fate::Converted => end == (BatchView {
            converted: batch.converted + 1,
            ..batch
        }).next_file(),
        Fate::Skipped => end == batch.skip(),
        Fate::Failed => end == batch.fail(),
        Fate::Planned => end == batch.next_file(),
        Fate::Fatal => end.phase == BatchPhase::Refused && end.error is Some
            && end.error->0 is CreateDir,
    }
}

/// The batch after the events of the file at `at`, or as many as `steps` of them.
#[verifier::opaque]
pub open spec fn after_file(
    batch: BatchView,
    args: BatchArgs,
    shown: Shown,
    at: int,
    steps: nat,
) -> BatchView
    decreases steps,
{
    if steps == 0 || batch.file != at || batch.phase == BatchPhase::Refused {
        batch
    } else {
        after_file(
            batch.next(args, shown.answer(batch.phase)).0,
            args,
            shown,
            at,
            (steps - 1) as nat,
        )
    }
}

/// One event of a file.
proof fn lemma_one_event(batch: BatchView, args: BatchArgs, shown: Shown, steps: nat)
    requires
        steps > 0,
        batch.phase != BatchPhase::Refused,
    ensures
        after_file(batch, args, shown, batch.file, steps) == after_file(
            batch.next(args, shown.answer(batch.phase)).0,
            args,
            shown,
            batch.file,
            (steps - 1) as nat,
        ),
{
    reveal(after_file);
}

/// From the encoder on.
#[verifier::spinoff_prover]
proof fn lemma_encoded(batch: BatchView, args: BatchArgs, shown: Shown, steps: nat)
    requires
        batch.phase == BatchPhase::Encode,
        steps >= 2,
    ensures
        is_after(
            batch,
            if shown.encoded is Some {
                Fate::Failed
            } else {
                Fate::Converted
            },
            after_file(batch, args, shown, batch.file, steps),
        ),
{
    reveal(after_file);
    let next = batch.next(args, shown.answer(batch.phase)).0;
    lemma_one_event(batch, args, shown, steps);
    if next.file == batch.file {
        lemma_one_event(next, args, shown, (steps - 1) as nat);
    }
}

/// From where the target can be written to on.
#[verifier::spinoff_prover]
proof fn lemma_cleared(batch: BatchView, args: BatchArgs, shown: Shown, steps: nat)
    requires
        steps >= 3,
    ensures
        is_after(
            batch,
            clear_fate(args, batch.target->0, shown),
            after_file(batch.clear_to_write(args).0, args, shown, batch.file, steps),
        ),
{
    reveal(after_file);
    let clear = batch.clear_to_write(args).0;
    if clear.phase == BatchPhase::MakeDirs && !args.dry_run {
        let made = clear.next(args, shown.answer(clear.phase)).0;
        lemma_one_event(clear, args, shown, steps);
        if shown.made_dirs {
            lemma_encoded(made, args, shown, (steps - 1) as nat);
        }
    } else if !args.dry_run {
        lemma_encoded(clear, args, shown, steps);
    }
}

/// A file is done with after at most six events, counted as its fate is.
#[verifier::spinoff_prover]
pub proof fn law_file_meets_its_fate(batch: BatchView, args: BatchArgs, shown: Shown)
    requires
        batch.wf(),
        batch.phase == BatchPhase::Probe,
    ensures
        is_after(
            batch,
            fate(args, batch.videos[batch.file], shown),
            after_file(batch, args, shown, batch.file, 6),
        ),
{
    reveal(after_file);
    reveal(fate);
    let input = batch.videos[batch.file];
    let dir = batch_dir(args, input);
    let probed = batch.next(args, shown.answer(batch.phase)).0;
    lemma_one_event(batch, args, shown, 6);
    if naming::choice(input, dir, args.suffix@) is None {
        naming::lemma_no_choice(input, dir, args.suffix@, shown.choice, shown.input);
    }
    if probed.phase == BatchPhase::Resolve {
        let target = target_of(args, input, shown);
        lemma_one_event(probed, args, shown, 5);
        if target is Some {
            let settled = BatchView { target, ..probed };
            if args.overwrite {
                lemma_cleared(settled, args, shown, 4);
            } else {
                let looking = settled.at(BatchPhase::Exists);
                lemma_one_event(looking, args, shown, 4);
                if !shown.exists {
                    lemma_cleared(looking, args, shown, 3);
                }
            }
        }
    }
}

/// A file that is skipped is skipped without anything being written or removed.
#[verifier::spinoff_prover]
pub proof fn law_skipped_file_is_untouched(
    batch: BatchView,
    args: BatchArgs,
    shown: Shown,
    steps: nat,
)
    requires
        batch.wf(),
        batch.phase == BatchPhase::Probe,
        fate(args, batch.videos[batch.file], shown) == Fate::Skipped,
    ensures
        !is_writing(after_file(batch, args, shown, batch.file, steps).phase),
{
    reveal(after_file);
    reveal(fate);
    let probed = batch.next(args, shown.answer(batch.phase)).0;
    if steps > 0 {
        lemma_one_event(batch, args, shown, steps);
        if steps > 1 && probed.phase == BatchPhase::Resolve {
            lemma_one_event(probed, args, shown, (steps - 1) as nat);
            let settled = probed.next(args, shown.answer(probed.phase)).0;
            if steps > 2 && settled.phase == BatchPhase::Exists {
                lemma_one_event(settled, args, shown, (steps - 2) as nat);
            }
        }
    }
}

/// The batch after the files of which `shown` tells, from the current one on.
pub open spec fn after_files(batch: BatchView, args: BatchArgs, shown: Seq<Shown>) -> BatchView
    decreases shown.len(),
{
    if shown.len() == 0 {
        batch
    } else {
        let before = after_files(batch, args, shown.drop_last());
        after_file(before, args, shown.last(), before.file, 6)
    }
}

/// What has to come of the files of which `shown` tells.
pub open spec fn fates(args: BatchArgs, videos: Seq<Seq<u8>>, shown: Seq<Shown>) -> Seq<Fate> {
    Seq::new(shown.len(), |i: int| fate(args, videos[i], shown[i]))
}

/// How many files meet this fate.
pub open spec fn tally(fates: Seq<Fate>, which: Fate) -> nat
    decreases fates.len(),
{
    if fates.len() == 0 {
        0
    } else {
        tally(fates.drop_last(), which) + if fates.last() == which {
            1nat
        } else {
            0
        }
    }
}

/// A batch that found its tools and these videos.
pub open spec fn with_videos(
    args: BatchArgs,
    encoder: Av1Encoder,
    videos: Seq<Seq<u8>>,
) -> BatchView {
    let looked = BatchView::start().next(args, BatchEventView::DirSeen(DirKind::Directory)).0;
    let tried = looked.next(args, BatchEventView::ToolsRun { ffmpeg: true, ffprobe: true }).0;
    let chosen = tried.next(args, BatchEventView::Encoders(Ok(encoder))).0;
    chosen.next(args, BatchEventView::Walked(videos)).0
}

/// The counts after some of the files.
#[verifier::spinoff_prover]
proof fn lemma_after_files(
    args: BatchArgs,
    encoder: Av1Encoder,
    videos: Seq<Seq<u8>>,
    shown: Seq<Shown>,
)
    requires
        args.usable(),
        shown.len() <= videos.len(),
    ensures
        ({
            let end = after_files(with_videos(args, encoder, videos), args, shown);
            let all = fates(args, videos, shown);
            if all.contains(Fate::Fatal) {
                end.phase == BatchPhase::Refused
            } else {
                &&& end.wf()
                &&& end.videos == videos
                &&& end.file == shown.len()
                &&& end.phase == if shown.len() == videos.len() {
                    BatchPhase::Over
                } else {
                    BatchPhase::Probe
                }
                &&& end.converted == tally(all, Fate::Converted)
                &&& end.skipped == tally(all, Fate::Skipped)
                &&& end.failed == tally(all, Fate::Failed)
            }
        }),
    decreases shown.len(),
{
    let all = fates(args, videos, shown);
    if shown.len() > 0 {
        let d = shown.drop_last();
        let some = fates(args, videos, d);
        let before = after_files(with_videos(args, encoder, videos), args, d);
        lemma_after_files(args, encoder, videos, d);
        assert(all.drop_last() =~= some);
        assert(all =~= some.push(all.last()));
        lemma_push_contains(some, all.last(), Fate::Fatal);
        if some.contains(Fate::Fatal) {
            lemma_refused_stays(before, args, shown.last());
        } else {
            law_file_meets_its_fate(before, args, shown.last());
        }
    }
}

proof fn lemma_refused_stays(batch: BatchView, args: BatchArgs, shown: Shown)
    requires
        batch.phase == BatchPhase::Refused,
    ensures
        after_file(batch, args, shown, batch.file, 6) == batch,
{
    reveal(after_file);
}

proof fn lemma_push_contains(some: Seq<Fate>, last: Fate, which: Fate)
    ensures
        some.push(last).contains(which) <==> some.contains(which) || which == last,
{
    let all = some.push(last);
    assert(all[some.len() as int] == last);
    if some.contains(which) {
        let i = choose|i: int| 0 <= i < some.len() && some[i] == which;
        assert(all[i] == which);
    }
    if all.contains(which) && which != last {
        let i = choose|i: int| 0 <= i < all.len() && all[i] == which;
        assert(some[i] == which);
    }
}

proof fn lemma_tally_zero(all: Seq<Fate>, which: Fate)
    ensures
        tally(all, which) == 0 <==> !all.contains(which),
    decreases all.len(),
{
    if all.len() > 0 {
        lemma_tally_zero(all.drop_last(), which);
        lemma_push_contains(all.drop_last(), all.last(), which);
        assert(all =~= all.drop_last().push(all.last()));
    }
}

proof fn lemma_tally_all(all: Seq<Fate>, which: Fate)
    requires
        forall|i: int| 0 <= i < all.len() ==> all[i] == which,
    ensures
        tally(all, which) == all.len(),
    decreases all.len(),
{
    if all.len() > 0 {
        lemma_tally_all(all.drop_last(), which);
    }
}

/// A batch that finds its tools comes to its end unless the directory of some result
/// cannot be created, and counts every file once, by its fate. It succeeds exactly where
/// no file failed.
pub proof fn law_batch_counts_all(
    args: BatchArgs,
    encoder: Av1Encoder,
    videos: Seq<Seq<u8>>,
    shown: Seq<Shown>,
)
    requires
        args.usable(),
        shown.len() == videos.len(),
    ensures
        ({
            let end = after_files(with_videos(args, encoder, videos), args, shown);
            let all = fates(args, videos, shown);
            &&& all.contains(Fate::Fatal) ==> end.phase == BatchPhase::Refused
            &&& !all.contains(Fate::Fatal) ==> {
                &&& end.phase == BatchPhase::Over
                &&& end.converted == tally(all, Fate::Converted)
                &&& end.skipped == tally(all, Fate::Skipped)
                &&& end.failed == tally(all, Fate::Failed)
                &&& end.failed == 0 <==> !all.contains(Fate::Failed)
            }
        }),
{
    lemma_after_files(args, encoder, videos, shown);
    lemma_tally_zero(fates(args, videos, shown), Fate::Failed);
}

/// How a file that a batch came upon looks to the next one, if nothing but the batch
/// changed the tree: it holds the same video and leads where it led, nothing that was there
/// is gone, and what the batch wrote is there and is not the file itself.
pub open spec fn is_kept(args: BatchArgs, input: Seq<u8>, before: Shown, after: Shown) -> bool {
    &&& after.probe == before.probe
    &&& after.input == before.input
    &&& before.choice is Some ==> after.choice == before.choice
    &&& before.choice is None && after.choice is Some && after.input is Some ==> path::components(
        after.choice->0,
    ) != path::components(after.input->0)
    &&& before.exists ==> after.exists
    &&& fate(args, input, before) == Fate::Converted ==> after.exists
}

/// A file that was converted or skipped is skipped the next time.
proof fn lemma_kept_is_skipped(args: BatchArgs, input: Seq<u8>, before: Shown, after: Shown)
    requires
        !args.overwrite,
        is_kept(args, input, before, after),
        fate(args, input, before) == Fate::Converted || fate(args, input, before)
            == Fate::Skipped,
    ensures
        fate(args, input, after) == Fate::Skipped,
{
    reveal(fate);
    reveal(naming::choice);
    reveal(naming::settled);
    let first = naming::choice(input, batch_dir(args, input), args.suffix@);
    if first is Some {
        assert(naming::is_taken(first->0, input, before.choice, before.input)
            == naming::is_taken(first->0, input, after.choice, after.input));
    }
    assert(target_of(args, input, before) == target_of(args, input, after));
}

/// A batch after one that came to its end without a failure converts nothing, writes and
/// removes nothing, and does not fail, where nothing is overwritten: every file that it
/// comes upon was there before, or is a result of the first, which is AV1, with AV1 files
/// left alone.
pub proof fn law_second_batch_does_nothing(
    args: BatchArgs,
    encoder: Av1Encoder,
    first: Seq<Seq<u8>>,
    shown: Seq<Shown>,
    second: Seq<Seq<u8>>,
    again: Seq<Shown>,
)
    requires
        args.usable(),
        !args.overwrite,
        !args.dry_run,
        shown.len() == first.len(),
        again.len() == second.len(),
        ({
            let end = after_files(with_videos(args, encoder, first), args, shown);
            end.phase == BatchPhase::Over && end.failed == 0
        }),
        forall|j: int|
            0 <= j < second.len() ==> (args.skip_av1 && (#[trigger] again[j]).probe == Ok::<
                _,
                Seq<char>,
            >(Some("av1"@))) || exists|i: int|
                0 <= i < first.len() && #[trigger] first[i] == second[j] && is_kept(
                    args,
                    second[j],
                    shown[i],
                    again[j],
                ),
    ensures
        ({
            let end = after_files(with_videos(args, encoder, second), args, again);
            &&& end.phase == BatchPhase::Over
            &&& end.converted == 0
            &&& end.failed == 0
            &&& end.skipped == second.len()
        }),
        forall|j: int, steps: nat|
            0 <= j < second.len() ==> !is_writing(
                #[trigger] after_file(
                    after_files(with_videos(args, encoder, second), args, again.take(j)),
                    args,
                    again[j],
                    j,
                    steps,
                ).phase,
            ),
{
    let before = fates(args, first, shown);
    let after = fates(args, second, again);
    law_batch_counts_all(args, encoder, first, shown);
    assert forall|j: int| 0 <= j < second.len() implies #[trigger] after[j] == Fate::Skipped by {
        if args.skip_av1 && again[j].probe == Ok::<_, Seq<char>>(Some("av1"@)) {
            reveal(fate);
        } else {
            let i = choose|i: int|
                0 <= i < first.len() && #[trigger] first[i] == second[j] && is_kept(
                    args,
                    second[j],
                    shown[i],
                    again[j],
                );
            assert(before.contains(before[i]));
            lemma_fate_is_not_planned(args, first[i], shown[i]);
            lemma_kept_is_skipped(args, second[j], shown[i], again[j]);
        }
    }
    law_batch_counts_all(args, encoder, second, again);
    lemma_tally_all(after, Fate::Skipped);
    lemma_tally_zero(after, Fate::Converted);
    assert forall|j: int, steps: nat| 0 <= j < second.len() implies !is_writing(
        #[trigger] after_file(
            after_files(with_videos(args, encoder, second), args, again.take(j)),
            args,
            again[j],
            j,
            steps,
        ).phase,
    ) by {
        let upto = again.take(j);
        assert(fates(args, second, upto) =~= after.take(j));
        lemma_after_files(args, encoder, second, upto);
        let at = after_files(with_videos(args, encoder, second), args, upto);
        assert(after[j] == Fate::Skipped);
        law_skipped_file_is_untouched(at, args, again[j], steps);
    }
}

proof fn lemma_fate_is_not_planned(args: BatchArgs, input: Seq<u8>, shown: Shown)
    requires
        !args.dry_run,
    ensures
        fate(args, input, shown) != Fate::Planned,
{
    reveal(fate);
}

/// Results go where those of a scan with the same settings go: beside the source, or to
/// the same place below the output directory as the source has below the scanned one.
pub proof fn law_places_are_those_of_a_scan(args: BatchArgs, input: Seq<u8>)
    ensures
        args.output_dir is None ==> batch_dir(args, input) == scan::result_dir(
            input,
            args.dir@,
            OutputMode::Beside,
            None,
        ),
        args.output_dir is Some && path::strip_prefix(input, args.dir@) is Some ==> batch_dir(
            args,
            input,
        ) == scan::result_dir(
            input,
            args.dir@,
            OutputMode::Directory,
            naming::view_of(args.output_dir),
        ),
{
}

/// Results in an output directory apart from the scanned one are not below that, so no
/// later batch comes upon them.
pub proof fn law_results_are_apart(args: BatchArgs, input: Seq<u8>, shown: Shown)
    requires
        args.output_dir is Some,
        ({
            let (out, dir) = (path::components(args.output_dir->0@), path::components(args.dir@));
            !dir.is_prefix_of(out) && !out.is_prefix_of(dir)
        }),
        path::components(args.dir@).is_prefix_of(path::components(input)),
        path::components(args.dir@).len() < path::components(input).len(),
        path_laws::slash_free(vstd::utf8::encode_utf8(args.suffix@)),
        target_of(args, input, shown) is Some,
    ensures
        path::strip_prefix(target_of(args, input, shown)->0, args.dir@) is None,
{
    reveal(naming::settled);
    let out = path::components(args.output_dir->0@);
    let dir = path::components(args.dir@);
    let stem = naming::usable_stem(input)->0;
    let target = path::components(target_of(args, input, shown)->0);
    assert(dir.len() == 0 ==> dir =~= out.take(0));
    scan::law_mirrors_tree(
        input,
        args.dir@,
        args.output_dir->0@,
        naming::webm_name(stem, args.suffix@),
        args.suffix@,
    );
    scan::law_mirrors_tree(
        input,
        args.dir@,
        args.output_dir->0@,
        naming::av1_webm_name(stem, args.suffix@),
        args.suffix@,
    );
    assert(target.take(out.len() as int) =~= out);
    if dir.is_prefix_of(target) {
        if dir.len() <= out.len() {
            assert(dir =~= out.take(dir.len() as int));
        } else {
            assert(out =~= dir.take(out.len() as int));
        }
    }
}

/// The phases in which something is written or removed.
pub open spec fn is_writing(phase: BatchPhase) -> bool {
    match phase {
        BatchPhase::MakeDirs | BatchPhase::Encode | BatchPhase::RemoveOutput
            | BatchPhase::RemoveSource => true,
        _ => false,
    }
}

/// In a dry run nothing is ever written or removed.
pub proof fn law_dry_run_writes_nothing(batch: BatchView, args: BatchArgs, event: BatchEventView)
    requires
        args.dry_run,
        !is_writing(batch.phase),
    ensures
        !is_writing(batch.next(args, event).0.phase),
{
}

/// A source is removed only right after it was converted, and only where that was asked
/// for.
pub proof fn law_source_removed_last(batch: BatchView, args: BatchArgs, event: BatchEventView)
    requires
        batch.phase != BatchPhase::RemoveSource,
        batch.next(args, event).0.phase == BatchPhase::RemoveSource,
    ensures
        args.replace,
        batch.phase == BatchPhase::Encode,
        event == BatchEventView::Encoded(None),
        batch.next(args, event).0.file == batch.file,
{
}

/// Unless overwriting was asked for, nothing is written to a place where something
/// stands.
pub proof fn law_existing_output_is_kept(batch: BatchView, args: BatchArgs, event: BatchEventView)
    requires
        !args.overwrite,
        !is_writing(batch.phase),
        is_writing(batch.next(args, event).0.phase),
    ensures
        batch.phase == BatchPhase::Exists,
        event == BatchEventView::Exists(false),
        batch.next(args, event).0.target == batch.target,
{
}

impl BatchView {
    /// Every file up to the current one is counted once, but for those that a dry run
    /// only plans.
    pub open spec fn accounted(self, args: BatchArgs) -> bool {
        args.dry_run || self.counted() == self.file + if self.phase == BatchPhase::RemoveSource {
            1int
        } else {
            0
        }
    }
}

/// The counts add up at every moment, and at the end to the number of files.
#[verifier::spinoff_prover]
pub proof fn law_counts_add_up(batch: BatchView, args: BatchArgs, event: BatchEventView)
    requires
        batch.wf(),
        batch.accounted(args),
    ensures
        BatchView::start().accounted(args),
        batch.next(args, event).0.wf(),
        batch.next(args, event).0.accounted(args),
        batch.phase == BatchPhase::Over && !args.dry_run ==> batch.converted + batch.skipped
            + batch.failed == batch.videos.len(),
{
}

/// What a batch still has to do, by which it comes to its end: what comes before the
/// files, then the events of the files that are left.
pub open spec fn to_do(batch: BatchView) -> (int, int) {
    let left = 8 * (batch.videos.len() - batch.file);
    match batch.phase {
        BatchPhase::Dir => (4, 0),
        BatchPhase::Tools => (3, 0),
        BatchPhase::Encoders => (2, 0),
        BatchPhase::Walk => (1, 0),
        BatchPhase::Probe => (0, left),
        BatchPhase::Resolve => (0, left - 1),
        BatchPhase::Exists => (0, left - 2),
        BatchPhase::MakeDirs => (0, left - 3),
        BatchPhase::Encode => (0, left - 4),
        BatchPhase::RemoveOutput | BatchPhase::RemoveSource => (0, left - 5),
        BatchPhase::Over | BatchPhase::Refused => (0, 0),
    }
}

/// Every event that a batch waits for brings it nearer to its end.
#[verifier::spinoff_prover]
pub proof fn law_batch_ends(batch: BatchView, args: BatchArgs, event: BatchEventView)
    requires
        batch.wf(),
        batch.next(args, event).0 != batch,
    ensures
        ({
            let (a, b) = to_do(batch);
            let (x, y) = to_do(batch.next(args, event).0);
            &&& 0 <= x && 0 <= y
            &&& x < a || (x == a && y < b)
        }),
{
}

} // verus!
