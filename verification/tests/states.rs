use vidwatcher::path::FilePath;
use vidwatcher::state::{now, Entry, FileId, Outcome, Record, SaveError, State, StateError, Stored};

fn at(text: &str) -> FilePath {
    FilePath::from_text(text)
}

fn fresh_state() -> State {
    State::load(&at("/s/state.json"), Stored::Missing).unwrap()
}

fn id(size: u64, mtime: u64) -> FileId {
    FileId::of(size, Some(mtime))
}

#[test]
fn identities() {
    assert_eq!(FileId::of(7, Some(9)), FileId { size: 7, mtime: 9 });
    assert_eq!(FileId::of(7, None), FileId { size: 7, mtime: 0 });
    assert_eq!(now(Some(5)), 5);
    assert_eq!(now(None), 0);
}

#[test]
fn done_files_are_left_alone() {
    let mut s = fresh_state();
    assert!(s.needs_work("/v/a.mkv", id(1, 2), 3));
    s.record_done("/v/a.mkv".to_string(), id(1, 2), &at("/v/a.webm"), 100);
    assert!(!s.needs_work("/v/a.mkv", id(1, 2), 3));
    assert!(s.needs_work("/v/b.mkv", id(1, 2), 3));
}

#[test]
fn changed_files_are_due_again() {
    let mut s = fresh_state();
    s.record_done("a".to_string(), id(1, 2), &at("o"), 100);
    assert!(s.needs_work("a", id(2, 2), 3));
    assert!(s.needs_work("a", id(1, 3), 3));
    s.record_failure("b".to_string(), id(1, 2), "no", 100);
    assert!(!s.needs_work("b", id(1, 2), 1));
    assert!(s.needs_work("b", id(9, 2), 1));
    assert_eq!(s.attempts("b", id(9, 2)), 0);
}

#[test]
fn failures_add_up() {
    let mut s = fresh_state();
    for n in 1..=3 {
        assert!(s.needs_work("a", id(1, 2), 3));
        s.record_failure("a".to_string(), id(1, 2), "no", 100 + n);
        assert_eq!(s.attempts("a", id(1, 2)), n as u32);
    }
    assert!(!s.needs_work("a", id(1, 2), 3));
    assert!(s.needs_work("a", id(1, 2), 4));
    s.record_failure("a".to_string(), id(5, 5), "other", 200);
    assert_eq!(s.attempts("a", id(5, 5)), 1);
    s.record_done("a".to_string(), id(5, 5), &at("o"), 300);
    assert_eq!(s.attempts("a", id(5, 5)), 0);
    s.record_failure("a".to_string(), id(5, 5), "again", 400);
    match &s.records()[0].entry.outcome {
        Outcome::Failed { attempts, error, at } => {
            assert_eq!((*attempts, error.as_str(), *at), (1, "again", 400));
        }
        other => panic!("{other:?}"),
    }
}

#[test]
fn records_are_sorted_by_key() {
    let mut s = fresh_state();
    for k in ["b", "a", "\u{e4}", "Z", "a/b", "a-b"] {
        s.record_done(k.to_string(), id(1, 1), &at(k), 1);
    }
    let keys: Vec<&str> = s.records().iter().map(|r| r.key.as_str()).collect();
    let mut expected = vec!["b", "a", "\u{e4}", "Z", "a/b", "a-b"];
    expected.sort();
    assert_eq!(keys, expected);
}

#[test]
fn what_is_kept_comes_back() {
    let mut s = fresh_state();
    s.record_done("x".to_string(), id(1, 2), &at("/o/x.webm"), 7);
    s.record_failure("y".to_string(), id(3, 4), "boom", 8);
    let kept: Vec<Record> = s
        .records()
        .iter()
        .map(|r| Record {
            key: r.key.clone(),
            entry: r.entry.clone(),
        })
        .collect();
    let back = State::load(&at("/s/state.json"), Stored::Records(kept)).unwrap();
    assert!(!back.needs_work("x", id(1, 2), 1));
    assert_eq!(back.attempts("y", id(3, 4)), 1);
    assert_eq!(back.records().len(), 2);
    assert!(back.save_if_dirty().is_none());
}

#[test]
fn later_records_win() {
    let rec = |mtime| Record {
        key: "k".to_string(),
        entry: Entry { id: id(1, mtime), outcome: Outcome::Done { output: at("o"), at: 1 } },
    };
    let s = State::load(&at("p"), Stored::Records(vec![rec(1), rec(2)])).unwrap();
    assert_eq!(s.records().len(), 1);
    assert!(!s.needs_work("k", id(1, 2), 1));
    assert!(s.needs_work("k", id(1, 1), 1));
}

#[test]
fn loading_errors() {
    let p = at("/s/state.json");
    let e = State::load(&p, Stored::Unreadable).unwrap_err();
    assert_eq!(e, StateError::Reading);
    assert_eq!(e.message(&p), "reading /s/state.json");
    let e = State::load(&p, Stored::Unparsable).unwrap_err();
    assert_eq!(e, StateError::Parsing);
    assert_eq!(e.message(&p), "parsing state file /s/state.json");
}

#[test]
fn pruning_forgets_the_missing() {
    let mut s = fresh_state();
    for k in ["a", "b", "c"] {
        s.record_done(k.to_string(), id(1, 1), &at("o"), 1);
    }
    s.saved();
    assert_eq!(s.prune_missing(&vec![]), 0);
    assert!(s.save_if_dirty().is_none());
    let missing = vec!["b".to_string(), "zzz".to_string(), "b".to_string()];
    assert_eq!(s.prune_missing(&missing), 1);
    assert!(s.save_if_dirty().is_some());
    assert!(s.needs_work("b", id(1, 1), 1));
    assert!(!s.needs_work("a", id(1, 1), 1));
    assert!(!s.needs_work("c", id(1, 1), 1));
}

#[test]
fn saving_only_what_changed() {
    let mut s = fresh_state();
    assert!(s.save_if_dirty().is_none());
    s.record_failure("a".to_string(), id(1, 1), "no", 1);
    let plan = s.save_if_dirty().unwrap();
    assert_eq!(plan.parent.unwrap().bytes, b"/s".to_vec());
    assert_eq!(plan.temporary.bytes, b"/s/state.json.tmp".to_vec());
    assert_eq!(plan.target.bytes, b"/s/state.json".to_vec());
    assert_eq!(plan.mode, 0o644);
    assert!(s.save_if_dirty().is_some());
    s.saved();
    assert!(s.save_if_dirty().is_none());
}

#[test]
fn temporary_names_are_those_of_std() {
    for path in ["state.json", "/x/state", "/x/.state", "s.a.b", "d.x/state", "/", "..", "a/b.c/", ""] {
        let mut s = State::load(&at(path), Stored::Missing).unwrap();
        s.record_done("k".to_string(), id(1, 1), &at("o"), 1);
        let expected = std::path::Path::new(path).with_extension("json.tmp");
        let plan = s.save_if_dirty().unwrap();
        assert_eq!(plan.temporary.bytes, expected.to_str().unwrap().as_bytes(), "{path}");
    }
}

#[test]
fn keys_are_texts_of_resolved_paths() {
    let p = at("a.mkv");
    assert_eq!(State::key(&p, &None), "a.mkv");
    assert_eq!(State::key(&p, &Some(at("/v/a.mkv"))), "/v/a.mkv");
    let odd = FilePath { bytes: b"/v/\xff.mkv".to_vec() };
    assert_eq!(State::key(&odd, &None), "/v/\u{fffd}.mkv");
}

#[test]
fn messages_of_a_failed_save() {
    let mut s = fresh_state();
    s.record_done("k".to_string(), id(1, 1), &at("o"), 1);
    let plan = s.save_if_dirty().unwrap();
    assert_eq!(SaveError::Creating.message(&plan), "creating /s");
    assert_eq!(SaveError::Writing.message(&plan), "writing /s/state.json.tmp");
    assert_eq!(SaveError::Permissions.message(&plan), "chmod /s/state.json.tmp");
    assert_eq!(SaveError::Replacing.message(&plan), "replacing /s/state.json");
}

#[test]
fn default_state_is_empty() {
    let s = State::default();
    assert!(s.records().is_empty());
    assert!(s.save_if_dirty().is_none());
    let mut s = s;
    s.record_done("k".to_string(), id(1, 1), &at("o"), 1);
    assert_eq!(s.save_if_dirty().unwrap().target.bytes, b"".to_vec());
}

#[test]
fn clones_hold_the_same() {
    let failed = Outcome::Failed { attempts: 2, error: "no".to_string(), at: 3 };
    match failed.clone() {
        Outcome::Failed { attempts, error, at } => {
            assert_eq!((attempts, error.as_str(), at), (2, "no", 3));
        }
        other => panic!("{other:?}"),
    }
    let entry = Entry { id: id(1, 2), outcome: Outcome::Done { output: at("/o"), at: 4 } };
    let copy = entry.clone();
    assert_eq!(copy.id, entry.id);
    assert!(matches!(copy.outcome, Outcome::Done { output, at: 4 } if output.bytes == b"/o"));
}
