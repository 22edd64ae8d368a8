use vidwatcher::pass::{run_once, Pass, PassAction, PassEvent, ScanStats};
use vidwatcher::path::FilePath;
use vidwatcher::worker::FileResult;

/// Runs a scan over directories with these results, and tells what was done. The stop
/// is asked for after `stop_after` answers.
fn scan(roots: &[Option<Vec<FileResult>>], stop_after: usize) -> (ScanStats, Vec<String>) {
    let mut pass = Pass::start(roots.len());
    let mut log = Vec::new();
    let mut asked = 0;
    let mut stop = || {
        asked += 1;
        asked > stop_after
    };
    loop {
        let event = match pass.action() {
            PassAction::LookAtRoot(r) => {
                log.push(format!("look {r}"));
                PassEvent::RootSeen { shutdown: stop(), is_dir: roots[r].is_some() }
            }
            PassAction::ListRoot(r) => {
                log.push(format!("list {r}"));
                let n = roots[r].as_ref().unwrap().len();
                PassEvent::Listed((0..n).map(|i| FilePath::from_text(&format!("f{i}"))).collect())
            }
            PassAction::AskShutdown => PassEvent::Shutdown(stop()),
            PassAction::Handle(r, f) => {
                let name = String::from_utf8(f.bytes).unwrap();
                log.push(format!("handle {r} {name}"));
                let i: usize = name[1..].parse().unwrap();
                PassEvent::Handled(roots[r].as_ref().unwrap()[i])
            }
            PassAction::Save => {
                log.push("save".to_string());
                PassEvent::Saved
            }
            PassAction::Prune => {
                log.push("prune".to_string());
                PassEvent::Pruned
            }
            PassAction::Finish(stats) => return (stats, log),
        };
        run_once(&mut pass, event);
    }
}

fn stats(converted: u64, skipped: u64, failed: u64) -> ScanStats {
    ScanStats { converted, skipped, failed }
}

#[test]
fn every_file_is_counted() {
    let roots = [
        Some(vec![FileResult::Converted, FileResult::Failed]),
        None,
        Some(vec![]),
        Some(vec![FileResult::Skipped, FileResult::Converted, FileResult::Skipped]),
    ];
    let (s, log) = scan(&roots, usize::MAX);
    assert_eq!(s, stats(2, 2, 1));
    assert_eq!(
        log,
        [
            "look 0", "list 0", "handle 0 f0", "save", "handle 0 f1", "save", "look 1", "look 2",
            "list 2", "look 3", "list 3", "handle 3 f0", "save", "handle 3 f1", "save",
            "handle 3 f2", "save", "prune", "save",
        ]
    );
}

#[test]
fn nothing_to_watch() {
    let (s, log) = scan(&[], usize::MAX);
    assert_eq!(s, ScanStats::zero());
    assert_eq!(log, ["prune", "save"]);
}

#[test]
fn interruption_ends_at_once() {
    let roots = [
        Some(vec![FileResult::Converted, FileResult::Interrupted, FileResult::Converted]),
        Some(vec![FileResult::Converted]),
    ];
    let (s, log) = scan(&roots, usize::MAX);
    assert_eq!(s, stats(1, 0, 0));
    assert_eq!(log, ["look 0", "list 0", "handle 0 f0", "save", "handle 0 f1"]);
}

#[test]
fn stop_between_files() {
    let roots = [
        Some(vec![FileResult::Converted, FileResult::Converted]),
        Some(vec![FileResult::Converted]),
    ];
    // The second question is asked before the first file, the third before the second.
    let (s, log) = scan(&roots, 2);
    assert_eq!(s, stats(1, 0, 0));
    assert_eq!(log, ["look 0", "list 0", "handle 0 f0", "save", "look 1", "prune", "save"]);
    let (s, log) = scan(&roots, 0);
    assert_eq!(s, ScanStats::zero());
    assert_eq!(log, ["look 0", "prune", "save"]);
}

#[test]
fn counting_results() {
    let mut s = ScanStats::zero();
    for r in [FileResult::Converted, FileResult::Skipped, FileResult::Failed, FileResult::Interrupted] {
        s.count(r);
    }
    assert_eq!(s, stats(1, 1, 1));
}
