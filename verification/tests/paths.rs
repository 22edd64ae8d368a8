use std::path::{Component, Path};

use vidwatcher::path::{FilePath, Part};

/// Every text of up to `len` of the characters `/`, `.` and `a`.
fn all_texts(len: usize) -> Vec<String> {
    let mut out = vec![String::new()];
    let mut from = 0;
    for _ in 0..len {
        let to = out.len();
        for i in from..to {
            for c in ['/', '.', 'a'] {
                out.push(format!("{}{}", out[i], c));
            }
        }
        from = to;
    }
    out
}

fn bytes_of(text: Option<&str>) -> Option<Vec<u8>> {
    text.map(|t| t.as_bytes().to_vec())
}

#[test]
fn components_are_those_of_std() {
    for text in all_texts(7) {
        let expected: Vec<String> = Path::new(&text)
            .components()
            .map(|c| match c {
                Component::RootDir => "/".to_string(),
                Component::CurDir => ".".to_string(),
                Component::ParentDir => "..".to_string(),
                Component::Normal(n) => format!("n:{}", n.to_str().unwrap()),
                Component::Prefix(_) => unreachable!(),
            })
            .collect();
        let got: Vec<String> = FilePath::from_text(&text)
            .parts()
            .into_iter()
            .map(|p| match p {
                Part::Root => "/".to_string(),
                Part::Current => ".".to_string(),
                Part::Parent => "..".to_string(),
                Part::Normal(n) => format!("n:{}", String::from_utf8(n).unwrap()),
            })
            .collect();
        assert_eq!(got, expected, "{text:?}");
    }
}

#[test]
fn names_are_those_of_std() {
    for text in all_texts(7) {
        let p = FilePath::from_text(&text);
        let q = Path::new(&text);
        assert_eq!(p.file_name(), bytes_of(q.file_name().and_then(|n| n.to_str())), "{text:?}");
        assert_eq!(p.file_stem(), bytes_of(q.file_stem().and_then(|n| n.to_str())), "{text:?}");
        assert_eq!(p.extension(), bytes_of(q.extension().and_then(|n| n.to_str())), "{text:?}");
    }
}

#[test]
fn parents_are_those_of_std() {
    for text in all_texts(7) {
        let got = FilePath::from_text(&text).parent().map(|p| p.bytes);
        let expected = bytes_of(Path::new(&text).parent().and_then(|p| p.to_str()));
        assert_eq!(got, expected, "{text:?}");
    }
}

#[test]
fn joins_are_those_of_std() {
    let texts = all_texts(4);
    for a in &texts {
        for b in &texts {
            let got = FilePath::from_text(a).join(b.as_bytes()).bytes;
            let expected = Path::new(a).join(b);
            assert_eq!(got, expected.to_str().unwrap().as_bytes(), "{a:?} {b:?}");
        }
    }
}

#[test]
fn prefixes_are_those_of_std() {
    let texts = all_texts(4);
    for a in all_texts(5) {
        for b in &texts {
            let got = FilePath::from_text(&a).strip_prefix(&FilePath::from_text(b));
            let expected = Path::new(&a).strip_prefix(b).ok();
            assert_eq!(
                got.map(|p| p.bytes),
                bytes_of(expected.and_then(|p| p.to_str())),
                "{a:?} {b:?}"
            );
        }
    }
}

#[test]
fn order_is_that_of_std() {
    let texts = all_texts(4);
    for a in &texts {
        for b in &texts {
            let (p, q) = (FilePath::from_text(a), FilePath::from_text(b));
            assert_eq!(p.same(&q), Path::new(a) == Path::new(b), "{a:?} {b:?}");
            assert_eq!(p.before(&q), Path::new(a) < Path::new(b), "{a:?} {b:?}");
        }
    }
}

#[test]
fn bytes_need_not_be_text() {
    let p = FilePath { bytes: vec![b'd', b'/', 0xff, b'.', 0xfe] };
    assert_eq!(p.file_name(), Some(vec![0xff, b'.', 0xfe]));
    assert_eq!(p.file_stem(), Some(vec![0xff]));
    assert_eq!(p.extension(), Some(vec![0xfe]));
    assert_eq!(p.parent().unwrap().bytes, b"d".to_vec());
    assert_eq!(p.copy().bytes, p.bytes);
}

#[test]
fn stripping_undoes_joining() {
    let base = FilePath::from_text("/media/in");
    let joined = base.join(b"show/one.mkv");
    assert_eq!(joined.bytes, b"/media/in/show/one.mkv".to_vec());
    assert_eq!(joined.strip_prefix(&base).unwrap().bytes, b"show/one.mkv".to_vec());
    assert!(joined.strip_prefix(&FilePath::from_text("/media/i")).is_none());
}
