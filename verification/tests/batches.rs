use vidwatcher::batch::{
    check_args, encode_options, found_line, opening_line, output_dir, output_path, Batch,
    BatchAction, BatchArgs, BatchError, BatchEvent, DirKind, Remark,
};
use vidwatcher::command::EncodeError;
use vidwatcher::ffmpeg::{Av1Encoder, DetectError, ProbeError, Tool};
use vidwatcher::naming::Resolved;
use vidwatcher::path::FilePath;

fn fp(text: &str) -> FilePath {
    FilePath::from_text(text)
}

fn s(p: &FilePath) -> String {
    String::from_utf8(p.bytes.clone()).unwrap()
}

fn args() -> BatchArgs {
    BatchArgs {
        dir: fp("/v"),
        crf: 32,
        preset: 6,
        audio_bitrate: 128,
        bit_depth: 10,
        output_dir: None,
        suffix: String::new(),
        replace: false,
        overwrite: false,
        skip_av1: false,
        dry_run: false,
    }
}

/// What the outside shows: the codecs of the files by name, what exists, what fails.
struct Disk {
    dir: DirKind,
    tools: (bool, bool),
    encoder: Result<Av1Encoder, DetectError>,
    files: Vec<(&'static str, Option<&'static str>)>,
    existing: Vec<&'static str>,
    mkdir_fails: bool,
    encode_fails: Vec<&'static str>,
}

fn disk(files: &[(&'static str, Option<&'static str>)]) -> Disk {
    Disk {
        dir: DirKind::Directory,
        tools: (true, true),
        encoder: Ok(Av1Encoder::SvtAv1),
        files: files.to_vec(),
        existing: vec![],
        mkdir_fails: false,
        encode_fails: vec![],
    }
}

/// Runs a batch, and tells what was done and said.
fn run(args: &BatchArgs, disk: &Disk) -> (Batch, Vec<String>) {
    let mut b = Batch::start();
    let mut log = Vec::new();
    loop {
        let event = match b.action() {
            BatchAction::LookAtDir => BatchEvent::DirSeen(disk.dir),
            BatchAction::RunTools => {
                BatchEvent::ToolsRun { ffmpeg: disk.tools.0, ffprobe: disk.tools.1 }
            }
            BatchAction::ListEncoders => BatchEvent::Encoders(disk.encoder),
            BatchAction::Walk => {
                BatchEvent::Walked(disk.files.iter().map(|(f, _)| fp(f)).collect())
            }
            BatchAction::Probe(p) => {
                log.push(b.progress_line());
                let codec = disk.files.iter().find(|(f, _)| *f == s(&p)).unwrap().1;
                BatchEvent::Probed(match codec {
                    Some("!") => Err(ProbeError::Refused("bad".to_string())),
                    other => Ok(other.map(|c| c.to_string())),
                })
            }
            BatchAction::Resolve(..) => {
                BatchEvent::Resolved(Resolved { choice: None, input: None })
            }
            BatchAction::Exists(p) => BatchEvent::Exists(disk.existing.contains(&s(&p).as_str())),
            BatchAction::MakeDirs(p) => {
                log.push(format!("mkdir {}", s(&p)));
                BatchEvent::MadeDirs(!disk.mkdir_fails)
            }
            BatchAction::Encode(p, q) => {
                log.push(format!("encode {} {}", s(&p), s(&q)));
                BatchEvent::Encoded(if disk.encode_fails.contains(&s(&p).as_str()) {
                    Err(EncodeError::Exit("code 1".to_string()))
                } else {
                    Ok(())
                })
            }
            BatchAction::RemoveOutput(p) => {
                log.push(format!("rm {}", s(&p)));
                BatchEvent::OutputRemoved
            }
            BatchAction::RemoveSource(p) => {
                log.push(format!("rm {}", s(&p)));
                BatchEvent::SourceRemoved
            }
            BatchAction::Finish(failed) => {
                assert_eq!(failed, b.failed);
                return (b, log);
            }
            BatchAction::GiveUp => return (b, log),
        };
        let line = b.run(args, event).line();
        if !line.is_empty() {
            log.push(line);
        }
    }
}

fn counts(b: &Batch) -> (u64, u64, u64) {
    (b.converted, b.skipped, b.failed)
}

#[test]
fn batch_of_files() {
    let files = [
        ("/v/a.mkv", Some("h264")),
        ("/v/b.mkv", None),
        ("/v/c.mkv", Some("!")),
        ("/v/d.webm", Some("av1")),
        ("/v/e.mkv", Some("hevc")),
        ("/v/f.mkv", Some("vp9")),
    ];
    let mut d = disk(&files);
    d.existing = vec!["/v/e.webm"];
    d.encode_fails = vec!["/v/f.mkv"];
    let mut a = args();
    let (b, log) = run(&a, &d);
    assert_eq!(counts(&b), (2, 2, 2));
    assert!(!b.succeeded());
    assert_eq!(b.summary_line(), "Done: 2 converted, 2 skipped, 2 failed");
    assert_eq!(
        log,
        [
            "[1/6] /v/a.mkv", "mkdir /v", "encode /v/a.mkv /v/a.webm",
            "[2/6] /v/b.mkv", "  skip: no video stream",
            "[3/6] /v/c.mkv", "  FAILED: probe: bad",
            "[4/6] /v/d.webm", "mkdir /v", "encode /v/d.webm /v/d.av1.webm",
            "[5/6] /v/e.mkv", "  skip: output exists (/v/e.webm)",
            "[6/6] /v/f.mkv", "mkdir /v", "encode /v/f.mkv /v/f.webm",
            "  FAILED: ffmpeg exited with code 1", "rm /v/f.webm",
        ]
    );
    a.skip_av1 = true;
    a.overwrite = true;
    let (b, log) = run(&a, &d);
    assert_eq!(counts(&b), (2, 2, 2));
    assert!(log.contains(&"  skip: already AV1".to_string()));
    assert!(log.contains(&"encode /v/e.mkv /v/e.webm".to_string()));
}

#[test]
fn dry_runs_write_nothing() {
    let mut a = args();
    a.dry_run = true;
    a.replace = true;
    a.overwrite = true;
    let d = disk(&[("/v/a.mkv", Some("h264")), ("/v/b.mkv", Some("h264"))]);
    let (b, log) = run(&a, &d);
    assert_eq!(counts(&b), (0, 0, 0));
    assert!(b.succeeded());
    assert_eq!(
        log,
        ["[1/2] /v/a.mkv", "  would write /v/a.webm", "[2/2] /v/b.mkv", "  would write /v/b.webm"]
    );
}

#[test]
fn replaced_sources_are_removed() {
    let mut a = args();
    a.replace = true;
    let mut d = disk(&[("/v/a.mkv", Some("h264")), ("/v/b.mkv", Some("h264"))]);
    d.encode_fails = vec!["/v/b.mkv"];
    let (b, log) = run(&a, &d);
    assert_eq!(counts(&b), (1, 0, 1));
    assert!(log.contains(&"rm /v/a.mkv".to_string()));
    assert!(!log.contains(&"rm /v/b.mkv".to_string()));
}

#[test]
fn empty_trees() {
    let (b, log) = run(&args(), &disk(&[]));
    assert_eq!(counts(&b), (0, 0, 0));
    assert!(b.succeeded());
    assert!(log.is_empty());
    assert_eq!(found_line(&fp("/v"), 0), "No video files found under /v");
    assert_eq!(found_line(&fp("/v"), 3), "Found 3 candidate file(s)");
}

#[test]
fn reasons_to_give_up() {
    let one = [("/v/a.mkv", Some("h264"))];
    let why = |d: Disk| {
        let (b, _) = run(&args(), &d);
        assert!(!b.succeeded());
        b.error.unwrap().message(&fp("/v"))
    };
    assert_eq!(why(Disk { dir: DirKind::NoAccess, ..disk(&one) }), "cannot access /v");
    assert_eq!(why(Disk { dir: DirKind::NotDirectory, ..disk(&one) }), "/v is not a directory");
    assert_eq!(
        why(Disk { tools: (false, false), ..disk(&one) }),
        "`ffmpeg` was not found on PATH"
    );
    assert_eq!(why(Disk { tools: (true, false), ..disk(&one) }), "`ffprobe` was not found on PATH");
    assert_eq!(
        why(Disk { encoder: Err(DetectError::NotRun), ..disk(&one) }),
        "failed to run `ffmpeg -encoders`"
    );
    assert_eq!(why(Disk { mkdir_fails: true, ..disk(&one) }), "cannot create /v");
    assert_eq!(BatchError::ToolMissing(Tool::Ffmpeg).message(&fp("")), "`ffmpeg` was not found on PATH");
}

#[test]
fn options_of_a_batch() {
    let mut a = args();
    for depth in [8, 10] {
        a.bit_depth = depth;
        assert!(check_args(&a).is_ok());
    }
    a.bit_depth = 9;
    let e = check_args(&a).unwrap_err();
    assert!(matches!(e, BatchError::BitDepth));
    assert_eq!(e.message(&a.dir), "--bit-depth must be 8 or 10");
    for kind in [DirKind::Directory, DirKind::NoAccess] {
        let (b, log) = run(&a, &Disk { dir: kind, ..disk(&[("/v/a.mkv", Some("h264"))]) });
        assert!(matches!(b.error, Some(BatchError::BitDepth)));
        assert!(log.is_empty());
    }
    let o = encode_options(&a, Av1Encoder::Aom);
    assert_eq!(o.encoder, Av1Encoder::Aom);
    assert_eq!((o.crf, o.preset, o.audio_bitrate_kbps, o.bit_depth), (32, 6, 128, 9));
    assert_eq!(
        opening_line(&args(), Av1Encoder::SvtAv1),
        "AV1 encoder: libsvtav1  (crf 32, preset 6, 10-bit, opus 128k)"
    );
}

#[test]
fn places_of_results() {
    let none = Resolved { choice: None, input: None };
    let mut a = args();
    assert_eq!(s(&output_path(&a, &fp("/v/x/a.mkv"), &none).unwrap()), "/v/x/a.webm");
    assert_eq!(s(&output_path(&a, &fp("/v/x/a.webm"), &none).unwrap()), "/v/x/a.av1.webm");
    a.suffix = ".hd".to_string();
    assert_eq!(s(&output_path(&a, &fp("/v/x/a.webm"), &none).unwrap()), "/v/x/a.hd.webm");
    a.output_dir = Some(fp("/out"));
    assert_eq!(s(&output_path(&a, &fp("/v/x/a.mkv"), &none).unwrap()), "/out/x/a.hd.webm");
    assert_eq!(s(&output_path(&a, &fp("/v/a.mkv"), &none).unwrap()), "/out/a.hd.webm");
    assert!(output_path(&a, &fp("/w/a.mkv"), &none).is_none());
    assert_eq!(s(&output_dir(&a, &fp("/v/x/y/a.mkv")).unwrap()), "/out/x/y");
    // The directory itself has no parent below itself.
    assert_eq!(s(&output_dir(&a, &fp("/v")).unwrap()), "/out");
}

#[test]
fn files_without_a_place_are_skipped() {
    let mut a = args();
    a.output_dir = Some(fp("/out"));
    let (b, log) = run(&a, &disk(&[("/w/a.mkv", Some("h264"))]));
    assert_eq!(counts(&b), (0, 1, 0));
    assert_eq!(log, ["[1/1] /w/a.mkv", "  skip: cannot form an output path"]);
}

#[test]
fn counts_add_up_to_the_files() {
    let codecs = [Some("h264"), None, Some("!"), Some("av1")];
    let names = ["/v/0.mkv", "/v/1.mkv", "/v/2.mkv", "/v/3.mkv", "/v/4.mkv"];
    for seed in 0..64usize {
        let files: Vec<(&'static str, Option<&'static str>)> =
            names.iter().enumerate().map(|(i, n)| (*n, codecs[(seed >> i) % 4])).collect();
        let mut a = args();
        a.skip_av1 = seed % 2 == 0;
        a.replace = seed % 3 == 0;
        let mut d = disk(&files);
        d.encode_fails = vec![names[seed % 5]];
        d.existing = vec!["/v/3.webm"];
        let (b, _) = run(&a, &d);
        let (c, k, f) = counts(&b);
        assert_eq!(c + k + f, 5);
        assert_eq!(b.succeeded(), f == 0);
    }
}

#[test]
fn events_that_are_not_awaited() {
    let mut b = Batch::start();
    assert!(matches!(b.run(&args(), BatchEvent::Encoded(Ok(()))), Remark::Nothing));
    assert!(matches!(b.action(), BatchAction::LookAtDir));
}

#[test]
fn second_batches_do_nothing() {
    let mut a = args();
    a.skip_av1 = true;
    let first = [("/v/a.mkv", Some("h264")), ("/v/b.mp4", None), ("/v/c.webm", Some("vp9"))];
    let (b, log) = run(&a, &disk(&first));
    assert_eq!(counts(&b), (2, 1, 0));
    assert!(log.contains(&"encode /v/c.webm /v/c.av1.webm".to_string()));
    let second = [
        ("/v/a.mkv", Some("h264")),
        ("/v/a.webm", Some("av1")),
        ("/v/b.mp4", None),
        ("/v/c.av1.webm", Some("av1")),
        ("/v/c.webm", Some("vp9")),
    ];
    let mut d = disk(&second);
    d.existing = second.iter().map(|(f, _)| *f).collect();
    let (b, log) = run(&a, &d);
    assert_eq!(counts(&b), (0, 5, 0));
    assert!(b.succeeded());
    assert!(log.iter().all(|l| l.starts_with('[') || l.starts_with("  skip: ")));
}

#[test]
fn second_batches_with_an_output_directory_do_nothing() {
    let mut a = args();
    a.output_dir = Some(fp("/out"));
    let files = [("/v/a.mkv", Some("h264")), ("/v/x/b.webm", Some("av1"))];
    let (b, log) = run(&a, &disk(&files));
    assert_eq!(counts(&b), (2, 0, 0));
    assert!(log.contains(&"encode /v/x/b.webm /out/x/b.webm".to_string()));
    // The results are not below the directory.
    let mut d = disk(&files);
    d.existing = vec!["/v/a.mkv", "/v/x/b.webm", "/out/a.webm", "/out/x/b.webm"];
    let (b, log) = run(&a, &d);
    assert_eq!(counts(&b), (0, 2, 0));
    assert!(log.iter().all(|l| l.starts_with('[') || l.starts_with("  skip: output exists")));
}
