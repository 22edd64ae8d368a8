use vidwatcher::text::{
    chars_of, decimal_string, is_whitespace, lowered, push_decimal, push_wide_decimal, same_str,
    same_text, signed_decimal_string, split_lines, split_words, string_of, trimmed,
};

#[test]
fn whitespace_is_that_of_std() {
    for n in 0..=0x10ffffu32 {
        if let Some(c) = char::from_u32(n) {
            assert_eq!(is_whitespace(c), c.is_whitespace(), "{n:x}");
        }
    }
}

fn strings(v: Vec<Vec<char>>) -> Vec<String> {
    v.iter().map(|s| string_of(s)).collect()
}

/// Every text of up to `len` characters out of a few that matter.
fn short_texts(len: usize) -> Vec<String> {
    let mut out = vec![String::new()];
    let mut from = 0;
    for _ in 0..len {
        let to = out.len();
        for i in from..to {
            for c in ['\n', '\r', ' ', '\u{a0}', 'x'] {
                out.push(format!("{}{}", out[i], c));
            }
        }
        from = to;
    }
    out
}

#[test]
fn lines_are_those_of_std() {
    for t in short_texts(6) {
        let expected: Vec<String> = t.lines().map(|l| l.to_string()).collect();
        assert_eq!(strings(split_lines(&chars_of(&t))), expected, "{t:?}");
    }
}

#[test]
fn words_are_those_of_std() {
    for t in short_texts(6) {
        let expected: Vec<String> = t.split_whitespace().map(|l| l.to_string()).collect();
        assert_eq!(strings(split_words(&chars_of(&t))), expected, "{t:?}");
    }
}

#[test]
fn trimming_is_that_of_std() {
    for t in short_texts(6) {
        assert_eq!(string_of(&trimmed(&chars_of(&t))), t.trim(), "{t:?}");
    }
}

#[test]
fn numbers_are_written_as_std_writes_them() {
    for n in [0, 1, 9, 10, 99, 100, 255, 4_294_967_295, u64::MAX] {
        assert_eq!(decimal_string(n), n.to_string());
    }
    for n in [0, 1, -1, 6, -10, i32::MAX, i32::MIN] {
        assert_eq!(signed_decimal_string(n), n.to_string());
    }
    let mut s = "n = ".to_string();
    push_decimal(&mut s, 1024);
    assert_eq!(s, "n = 1024");
    push_wide_decimal(&mut s, u128::MAX);
    assert_eq!(s, format!("n = 1024{}", u128::MAX));
}

#[test]
fn comparisons_of_texts() {
    assert!(same_str("av1", "av1"));
    assert!(!same_str("av1", "AV1"));
    assert!(!same_str("av1", "av"));
    assert!(same_text(&['a', 'v', '1'], "av1"));
    assert!(!same_text(&['a', 'v'], "av1"));
    assert_eq!(string_of(&lowered("MkV-\u{c4}")), "mkv-\u{c4}");
}
