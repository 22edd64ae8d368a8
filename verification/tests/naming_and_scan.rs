use vidwatcher::config::{OutputConfig, OutputMode};
use vidwatcher::naming::{first_choice, same_path, settle, Resolved};
use vidwatcher::path::FilePath;
use vidwatcher::scan::{
    candidates, has_video_extension, max_depth, output_choice, output_dir, output_path,
    video_extensions, WalkEntry,
};

fn p(text: &str) -> FilePath {
    FilePath::from_text(text)
}

fn t(path: Option<FilePath>) -> Option<String> {
    path.map(|p| String::from_utf8(p.bytes).unwrap())
}

fn unresolved() -> Resolved {
    Resolved { choice: None, input: None }
}

fn beside(suffix: &str) -> OutputConfig {
    OutputConfig { suffix: suffix.to_string(), ..OutputConfig::default() }
}

fn mirrored(dir: &str) -> OutputConfig {
    OutputConfig {
        mode: OutputMode::Directory,
        directory: Some(p(dir)),
        ..OutputConfig::default()
    }
}

#[test]
fn video_extensions_are_known() {
    let known = [
        "mp4", "m4v", "mov", "mkv", "webm", "avi", "wmv", "flv", "f4v", "mpg", "mpeg", "m2v", "ts",
        "m2ts", "mts", "vob", "ogv", "ogm", "3gp", "3g2", "divx", "mxf", "asf", "rm", "rmvb", "y4m",
    ];
    assert_eq!(video_extensions(), known.to_vec());
    for e in known {
        assert!(has_video_extension(&p(&format!("/v/film.{e}"))));
        assert!(has_video_extension(&p(&format!("/v/film.{}", e.to_ascii_uppercase()))));
    }
    for name in ["film", "film.", ".mkv", "film.txt", "film.mkv.part", "film.mk", "mkv", ""] {
        assert!(!has_video_extension(&p(name)), "{name}");
    }
    assert!(has_video_extension(&p("a.b.MkV")));
    assert!(has_video_extension(&p("film.mkv/")));
    assert!(!has_video_extension(&FilePath { bytes: b"a.mk\xff".to_vec() }));
}

#[test]
fn depth_of_a_walk() {
    assert_eq!(max_depth(true), usize::MAX);
    assert_eq!(max_depth(false), 1);
}

#[test]
fn candidates_are_sorted_videos() {
    let entry = |path: &str, is_file| Some(WalkEntry { path: p(path), is_file });
    let found = candidates(&p("/v"), true, vec![
        entry("/v/b.mkv", true),
        None,
        entry("/v/a/z.mp4", true),
        entry("/v/c.mkv", false),
        entry("/v/a.txt", true),
        entry("/v/a-b/x.mkv", true),
        entry("/v/a.mkv", true),
    ]);
    let names: Vec<String> = found.into_iter().map(|f| t(Some(f)).unwrap()).collect();
    assert_eq!(names, ["/v/a/z.mp4", "/v/a-b/x.mkv", "/v/a.mkv", "/v/b.mkv"]);
    let mut expected: Vec<std::path::PathBuf> =
        ["/v/b.mkv", "/v/a/z.mp4", "/v/a-b/x.mkv", "/v/a.mkv"].iter().map(|s| s.into()).collect();
    expected.sort();
    let expected: Vec<&str> = expected.iter().map(|p| p.to_str().unwrap()).collect();
    assert_eq!(names, expected);
    assert!(candidates(&p("/v"), true, vec![None, entry("/v", false)]).is_empty());
}

#[test]
fn equal_paths_keep_their_order() {
    let entry = |path: &str| Some(WalkEntry { path: p(path), is_file: true });
    let entries = vec![entry("v//b.mkv"), entry("v/a.mkv"), entry("v/b.mkv"), entry("v/./b.mkv")];
    let found = candidates(&p("v"), true, entries);
    let names: Vec<String> = found.into_iter().map(|f| t(Some(f)).unwrap()).collect();
    assert_eq!(names, ["v/a.mkv", "v//b.mkv", "v/b.mkv", "v/./b.mkv"]);
}

#[test]
fn results_beside_their_sources() {
    let out = |input, suffix| {
        t(output_path(&p(input), &p("/v"), &beside(suffix), &unresolved()))
    };
    assert_eq!(out("/v/a/film.mkv", "").unwrap(), "/v/a/film.webm");
    assert_eq!(out("/v/a/film.mkv", "-av1").unwrap(), "/v/a/film-av1.webm");
    assert_eq!(out("/v/a/film.webm", "").unwrap(), "/v/a/film.av1.webm");
    assert_eq!(out("/v/a/film.webm", "-x").unwrap(), "/v/a/film-x.webm");
    assert_eq!(out("film.webm", "").unwrap(), "film.av1.webm");
    assert_eq!(out("/", ""), None);
    assert_eq!(out("/v/..", ""), None);
    assert_eq!(t(output_dir(&p("/v/a/film.mkv"), &p("/v"), &beside(""))).unwrap(), "/v/a");
    assert_eq!(t(output_choice(&p("/v/film.webm"), &p("/v"), &beside(""))).unwrap(), "/v/film.webm");
}

#[test]
fn results_mirror_the_tree() {
    let out = |input, root| t(output_path(&p(input), &p(root), &mirrored("/out"), &unresolved()));
    assert_eq!(out("/v/a/film.mkv", "/v").unwrap(), "/out/a/film.webm");
    assert_eq!(out("/v/film.mkv", "/v").unwrap(), "/out/film.webm");
    assert_eq!(out("/v/a/film.webm", "/v").unwrap(), "/out/a/film.webm");
    assert_eq!(out("/w/a/film.mkv", "/v").unwrap(), "/out/film.webm");
    assert_eq!(out("/out/film.webm", "/out").unwrap(), "/out/film.av1.webm");
    let nowhere = OutputConfig { directory: None, ..mirrored("/out") };
    assert!(output_path(&p("/v/film.mkv"), &p("/v"), &nowhere, &unresolved()).is_none());
}

#[test]
fn names_that_are_no_text_have_no_result() {
    let odd = FilePath { bytes: b"/v/\xff.mkv".to_vec() };
    assert!(output_path(&odd, &p("/v"), &beside(""), &unresolved()).is_none());
    assert!(output_choice(&odd, &p("/v"), &beside("")).is_none());
    assert!(first_choice(&odd, &Some(p("/v")), "").is_none());
    let umlaut = p("/v/\u{e4}.mkv");
    assert_eq!(t(first_choice(&umlaut, &Some(p("/o")), "")).unwrap(), "/o/\u{e4}.webm");
}

#[test]
fn results_are_never_their_source() {
    // A link in the directory leads back to the source.
    let linked = Resolved { choice: Some(p("/real/film.webm")), input: Some(p("/real/film.webm")) };
    let out = output_path(&p("/v/film.mkv"), &p("/v"), &beside(""), &linked);
    assert_eq!(t(out).unwrap(), "/v/film.av1.webm");
    // The same path is the source wherever it is said to lead.
    let apart = Resolved { choice: Some(p("/x/film.webm")), input: Some(p("/y/film.webm")) };
    let out = settle(&p("/v/film.webm"), &Some(p("/v")), "", &apart);
    assert_eq!(t(out).unwrap(), "/v/film.av1.webm");
    // Both names are the source's: one by a link, the other by a slash in the suffix.
    let source = p("/v/t.av1/t.av1.webm");
    let linked = Resolved { choice: Some(source.copy()), input: Some(source.copy()) };
    let out = OutputConfig { suffix: "/t".to_string(), ..mirrored("/v") };
    let first = output_choice(&source, &p("/v/t.av1"), &out);
    assert_eq!(t(first).unwrap(), "/v/t.av1/t.webm");
    assert!(output_path(&source, &p("/v/t.av1"), &out, &linked).is_none());
    assert!(output_path(&source, &p("/v/t.av1"), &out, &unresolved()).is_some());
    for input in ["a.webm", "a.av1.webm", "a.av1.av1.webm", "x/a.webm", "./a.webm"] {
        let out = output_path(&p(input), &p(""), &beside(""), &unresolved()).unwrap();
        assert!(!out.same(&p(input)), "{input}");
    }
}

#[test]
fn same_paths() {
    assert!(same_path(&p("a//b"), &p("a/b"), &None, &None));
    assert!(!same_path(&p("a/b"), &p("a/c"), &None, &None));
    assert!(same_path(&p("a"), &p("b"), &Some(p("/c")), &Some(p("/c"))));
    assert!(!same_path(&p("a"), &p("a"), &Some(p("/c")), &Some(p("/d"))));
    assert!(same_path(&p("a"), &p("a"), &Some(p("/c")), &None));
}

#[test]
fn flat_scans_find_direct_children() {
    for root in ["/v", "/v/", ".", "..", "v/.", "/"] {
        let below = |name: &str| {
            let path = p(root).join(name.as_bytes());
            Some(WalkEntry { path, is_file: !name.is_empty() && !name.ends_with("dir") })
        };
        let names = ["", "b.mkv", "dir", "dir/c.mkv", "a.mkv", "dir/dir", "dir/dir/d.mkv", "e.txt"];
        let walk = || names.iter().map(|n| below(n)).collect::<Vec<_>>();
        let texts = |found: Vec<FilePath>| -> Vec<String> {
            found.into_iter().map(|f| t(Some(f)).unwrap()).collect()
        };
        let all = texts(candidates(&p(root), true, walk()));
        let flat = texts(candidates(&p(root), false, walk()));
        assert_eq!((all.len(), flat.len()), (4, 2), "{root}");
        let direct: Vec<String> =
            all.into_iter().filter(|f| p(f).parent().unwrap().same(&p(root))).collect();
        assert_eq!(flat, direct, "{root}");
        let shallow = ["", "b.mkv", "dir", "a.mkv", "e.txt"].iter().map(|n| below(n)).collect();
        assert_eq!(texts(candidates(&p(root), false, shallow)), flat, "{root}");
    }
}

#[test]
fn a_file_as_root_is_its_own_candidate() {
    let entry = || vec![Some(WalkEntry { path: p("/v/a.mkv"), is_file: true })];
    for recursive in [true, false] {
        assert_eq!(candidates(&p("/v/a.mkv"), recursive, entry()).len(), 1);
    }
    assert!(candidates(&p("/"), false, entry()).is_empty());
}
