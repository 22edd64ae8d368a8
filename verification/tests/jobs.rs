use vidwatcher::command::{EncodeError, EncodeResult};
use vidwatcher::config::{Config, Span};
use vidwatcher::ffmpeg::ProbeError;
use vidwatcher::naming::Resolved;
use vidwatcher::path::FilePath;
use vidwatcher::ratio::Ratio;
use vidwatcher::state::{FileId, Outcome, State, Stored};
use vidwatcher::worker::{
    handle_file, FileAction, FileEvent, FileJob, FileResult, Moment, Note, Seen, Sizes,
};

/// What the outside shows of a file.
struct World {
    stat: Option<Seen>,
    probe: Option<&'static str>,
    resolved: Option<&'static str>,
    exists: bool,
    made_dirs: Option<&'static str>,
    encoded: Result<EncodeResult, &'static str>,
    sizes: Option<Sizes>,
}

fn old_file() -> World {
    World {
        stat: Some(Seen { id: FileId { size: 10, mtime: 20 }, age: Some(Span { secs: 3600, nanos: 0 }) }),
        probe: Some("h264"),
        resolved: None,
        exists: false,
        made_dirs: None,
        encoded: Ok(EncodeResult::Finished),
        sizes: Some(Sizes { source: 10, result: 5 }),
    }
}

fn empty_state() -> State {
    State::load(&FilePath::from_text("/s"), Stored::Missing).unwrap()
}

fn text(p: &FilePath) -> String {
    String::from_utf8(p.bytes.clone()).unwrap()
}

/// Handles `/v/a.mkv`, and tells what was done.
fn handle(cfg: &Config, state: &mut State, world: &World) -> (FileResult, Vec<String>) {
    let mut job = FileJob::start(FilePath::from_text("/v/a.mkv"), FilePath::from_text("/v"));
    let moment = Moment { key: "/v/a.mkv".to_string(), now: 77 };
    let mut log = Vec::new();
    loop {
        let resolved = |t: Option<&str>| t.map(FilePath::from_text);
        let (done, event) = match job.action() {
            FileAction::Stat => ("stat".to_string(), FileEvent::Stat(world.stat)),
            FileAction::Probe => (
                "probe".to_string(),
                FileEvent::Probed(match world.probe {
                    Some("!") => Err(ProbeError::Refused("bad".to_string())),
                    other => Ok(other.map(|c| c.to_string())),
                }),
            ),
            FileAction::Resolve(p) => (
                format!("resolve {}", text(&p)),
                FileEvent::Resolved(Resolved {
                    choice: resolved(world.resolved),
                    input: resolved(world.resolved),
                }),
            ),
            FileAction::Exists(p) => (format!("exists {}", text(&p)), FileEvent::Exists(world.exists)),
            FileAction::MakeDirs(p) => (
                format!("mkdir {}", text(&p)),
                FileEvent::MadeDirs(world.made_dirs.map(|e| e.to_string())),
            ),
            FileAction::Encode(p) => (
                format!("encode {}", text(&p)),
                FileEvent::Encoded(
                    world.encoded.map_err(|e| EncodeError::Exit(e.to_string())),
                    world.sizes,
                ),
            ),
            FileAction::Discard(p) => (format!("discard {}", text(&p)), FileEvent::Discarded),
            FileAction::CopyTimes(p) => (format!("times {}", text(&p)), FileEvent::TimesCopied),
            FileAction::RemoveSource => ("remove source".to_string(), FileEvent::SourceRemoved),
            FileAction::Finish(r) => return (r, log),
        };
        log.push(done);
        handle_file(&mut job, cfg, state, event, &moment);
    }
}

fn recorded(state: &State) -> Option<String> {
    assert!(state.records().len() < 2);
    state.records().first().map(|r| {
        assert_eq!(r.key, "/v/a.mkv");
        assert_eq!(r.entry.id, FileId { size: 10, mtime: 20 });
        match &r.entry.outcome {
            Outcome::Done { output, at } => format!("done {} at {at}", text(output)),
            Outcome::Failed { attempts, error, at } => format!("failed {attempts} {error} at {at}"),
        }
    })
}

#[test]
fn conversion_of_a_file() {
    let mut s = empty_state();
    let (r, log) = handle(&Config::default(), &mut s, &old_file());
    assert_eq!(r, FileResult::Converted);
    assert_eq!(
        log,
        [
            "stat", "probe", "resolve /v/a.webm", "exists /v/a.webm", "mkdir /v",
            "encode /v/a.webm", "times /v/a.webm",
        ]
    );
    assert_eq!(recorded(&s).unwrap(), "done /v/a.webm at 77");
    let (r, log) = handle(&Config::default(), &mut s, &old_file());
    assert_eq!((r, log.len()), (FileResult::Skipped, 1));
}

#[test]
fn source_is_removed_last() {
    let mut cfg = Config::default();
    cfg.output.replace = true;
    cfg.output.preserve_timestamps = false;
    let mut s = empty_state();
    let (r, log) = handle(&cfg, &mut s, &old_file());
    assert_eq!(r, FileResult::Converted);
    assert_eq!(log.last().unwrap(), "remove source");
    assert!(!log.iter().any(|l| l.starts_with("times")));
    assert_eq!(recorded(&s).unwrap(), "done /v/a.webm at 77");
}

#[test]
fn files_that_are_skipped_unrecorded() {
    let mut s = empty_state();
    let gone = World { stat: None, ..old_file() };
    assert_eq!(handle(&Config::default(), &mut s, &gone).0, FileResult::Skipped);
    let id = FileId { size: 10, mtime: 20 };
    let young = Some(Seen { id, age: Some(Span { secs: 59, nanos: 999_999_999 }) });
    let young = World { stat: young, ..old_file() };
    assert_eq!(handle(&Config::default(), &mut s, &young).0, FileResult::Skipped);
    assert!(recorded(&s).is_none());
    let ahead = World { stat: Some(Seen { id, age: None }), ..old_file() };
    let (r, log) = handle(&Config::default(), &mut s, &ahead);
    assert_eq!((r, log.len()), (FileResult::Skipped, 1));
    assert!(recorded(&s).is_none());
    let mut any_age = Config::default();
    any_age.min_file_age = Span { secs: 0, nanos: 0 };
    assert_eq!(handle(&any_age, &mut s, &ahead).0, FileResult::Converted);
}

#[test]
fn files_of_exactly_the_age_are_taken() {
    let id = FileId { size: 10, mtime: 20 };
    let seen = Some(Seen { id, age: Some(Span { secs: 60, nanos: 0 }) });
    let mut s = empty_state();
    let r = handle(&Config::default(), &mut s, &World { stat: seen, ..old_file() }).0;
    assert_eq!(r, FileResult::Converted);
}

#[test]
fn files_without_video_are_remembered() {
    for codec in [None, Some("av1")] {
        let mut s = empty_state();
        let (r, log) = handle(&Config::default(), &mut s, &World { probe: codec, ..old_file() });
        assert_eq!(r, FileResult::Skipped);
        assert_eq!(log, ["stat", "probe"]);
        assert_eq!(recorded(&s).unwrap(), "done /v/a.mkv at 77");
    }
    let mut cfg = Config::default();
    cfg.output.skip_av1 = false;
    let av1 = World { probe: Some("av1"), ..old_file() };
    assert_eq!(handle(&cfg, &mut empty_state(), &av1).0, FileResult::Converted);
}

#[test]
fn failures_of_a_file() {
    let mut s = empty_state();
    let (r, _) = handle(&Config::default(), &mut s, &World { probe: Some("!"), ..old_file() });
    assert_eq!(r, FileResult::Failed);
    assert_eq!(recorded(&s).unwrap(), "failed 1 probe: bad at 77");
    let (r, log) =
        handle(&Config::default(), &mut s, &World { made_dirs: Some("denied"), ..old_file() });
    assert_eq!(r, FileResult::Failed);
    assert_eq!(log.last().unwrap(), "mkdir /v");
    assert_eq!(recorded(&s).unwrap(), "failed 2 mkdir: denied at 77");
    let (r, _) = handle(&Config::default(), &mut s, &World { encoded: Err("code 1"), ..old_file() });
    assert_eq!(r, FileResult::Failed);
    assert_eq!(recorded(&s).unwrap(), "failed 3 ffmpeg exited with code 1 at 77");
    let (r, log) = handle(&Config::default(), &mut s, &old_file());
    assert_eq!((r, log.len()), (FileResult::Skipped, 1));
}

#[test]
fn existing_results_are_recorded() {
    let mut s = empty_state();
    let (r, log) = handle(&Config::default(), &mut s, &World { exists: true, ..old_file() });
    assert_eq!(r, FileResult::Skipped);
    assert_eq!(log.last().unwrap(), "exists /v/a.webm");
    assert_eq!(recorded(&s).unwrap(), "done /v/a.webm at 77");
}

#[test]
fn interruptions_are_not_recorded() {
    let mut s = empty_state();
    let world = World { encoded: Ok(EncodeResult::Interrupted), ..old_file() };
    assert_eq!(handle(&Config::default(), &mut s, &world).0, FileResult::Interrupted);
    assert!(recorded(&s).is_none());
}

#[test]
fn enlargements_are_thrown_away() {
    let mut s = empty_state();
    let bigger = World { sizes: Some(Sizes { source: 10, result: 11 }), ..old_file() };
    let mut cfg = Config::default();
    cfg.output.replace = true;
    let (r, log) = handle(&cfg, &mut s, &bigger);
    assert_eq!(r, FileResult::Skipped);
    assert_eq!(log.last().unwrap(), "discard /v/a.webm");
    assert_eq!(recorded(&s).unwrap(), "done /v/a.mkv at 77");
    let same = World { sizes: Some(Sizes { source: 10, result: 10 }), ..old_file() };
    assert_eq!(handle(&cfg, &mut empty_state(), &same).0, FileResult::Converted);
    cfg.output.max_output_ratio = Ratio { bits: 0.9f64.to_bits() };
    assert_eq!(handle(&cfg, &mut empty_state(), &same).0, FileResult::Skipped);
    let unknown = World { sizes: None, ..old_file() };
    assert_eq!(handle(&cfg, &mut empty_state(), &unknown).0, FileResult::Converted);
}

#[test]
fn links_to_the_source_are_avoided() {
    let mut s = empty_state();
    let linked = World { resolved: Some("/v/a.mkv"), ..old_file() };
    let (_, log) = handle(&Config::default(), &mut s, &linked);
    assert!(log.contains(&"encode /v/a.av1.webm".to_string()));
    assert_eq!(recorded(&s).unwrap(), "done /v/a.av1.webm at 77");
}

#[test]
fn unexpected_events_change_nothing() {
    let mut job = FileJob::start(FilePath::from_text("/v/a.mkv"), FilePath::from_text("/v"));
    let note = job.advance(&Config::default(), true, FileEvent::SourceRemoved);
    assert!(matches!(note, Note::Nothing));
    assert!(matches!(job.action(), FileAction::Stat));
}

#[test]
fn files_without_a_name_have_no_result() {
    let mut job = FileJob::start(FilePath::from_text("/v/.."), FilePath::from_text("/v"));
    let age = Some(Span { secs: 100, nanos: 0 });
    let seen = Seen { id: FileId { size: 1, mtime: 1 }, age };
    job.advance(&Config::default(), true, FileEvent::Stat(Some(seen)));
    let note = job.advance(&Config::default(), true, FileEvent::Probed(Ok(Some("h264".to_string()))));
    assert!(matches!(note, Note::Nothing));
    assert!(matches!(job.action(), FileAction::Finish(FileResult::Skipped)));
}
