//! Numbers, lines and words in texts.
use vstd::prelude::*;

use crate::path_laws;
use crate::text;
use crate::utf8;

verus! {

/// The number that decimal digits stand for.
pub open spec fn value(digits: Seq<char>) -> int
    decreases digits.len(),
{
    if digits.len() == 0 {
        0
    } else {
        10 * value(digits.drop_last()) + (digits.last() as int - '0' as int)
    }
}

/// Digits without a leading zero, but for zero itself.
pub open spec fn is_numeral(digits: Seq<char>) -> bool {
    &&& digits.len() > 0
    &&& digits.len() > 1 ==> digits[0] != '0'
    &&& forall|i: int| 0 <= i < digits.len() ==> '0' <= #[trigger] digits[i] <= '9'
}

/// A number in decimal is a numeral, and reads as that number.
pub proof fn law_decimals_read_back(n: nat)
    ensures
        is_numeral(text::decimal(n)),
        value(text::decimal(n)) == n,
    decreases n,
{
    let d = text::decimal(n);
    if n < 10 {
        assert(d.drop_last() =~= Seq::empty());
        assert(value(d.drop_last()) == 0);
    } else {
        law_decimals_read_back(n / 10);
        assert(d.drop_last() =~= text::decimal(n / 10));
        if text::decimal(n / 10).len() == 1 {
            assert(d[0] == text::decimal(n / 10)[0]);
            assert(text::decimal(n / 10).drop_last() =~= Seq::empty());
            assert(value(text::decimal(n / 10).drop_last()) == 0);
        } else {
            assert(d[0] == text::decimal(n / 10)[0]);
        }
    }
}

/// A number with its sign in decimal reads as that number.
pub proof fn law_signed_decimals_read_back(n: int)
    ensures
        ({
            let d = text::signed_decimal(n);
            if n < 0 {
                &&& d.len() > 1
                &&& d[0] == '-'
                &&& is_numeral(d.skip(1))
                &&& value(d.skip(1)) == -n
            } else {
                &&& is_numeral(d)
                &&& value(d) == n
            }
        }),
{
    if n < 0 {
        law_decimals_read_back((-n) as nat);
        assert(text::signed_decimal(n).skip(1) =~= text::decimal((-n) as nat));
    } else {
        law_decimals_read_back(n as nat);
    }
}

/// In lower case the letters `A` to `Z` are those 32 further on, and nothing else changes.
pub proof fn law_lower_case(s: Seq<char>)
    ensures
        text::ascii_lower(s).len() == s.len(),
        forall|i: int|
            0 <= i < s.len() ==> #[trigger] text::ascii_lower(s)[i] as int == s[i] as int + if 65
                <= s[i] as int <= 90 {
                32int
            } else {
                0
            },
{
    assert forall|i: int| 0 <= i < s.len() implies #[trigger] text::ascii_lower(s)[i] as int
        == s[i] as int + if 65 <= s[i] as int <= 90 {
        32int
    } else {
        0
    } by {
        let c = s[i];
        if 65 <= c as int <= 90 {
            let n: u32 = (c as u32 + 32) as u32;
            assert(n as char as u32 == n);
        }
    }
}

/// Trimming takes whitespace off both ends, all of it, and nothing else.
pub proof fn law_trimming(s: Seq<char>)
    ensures
        ({
            let t = text::trim(s);
            &&& t.len() > 0 ==> !text::is_white(t.first()) && !text::is_white(t.last())
            &&& exists|a: int, b: int|
                0 <= a <= b <= s.len() && t == #[trigger] s.subrange(a, b) && (forall|i: int|
                    0 <= i < s.len() && !(a <= i < b) ==> text::is_white(#[trigger] s[i]))
        }),
{
    let u = text::trim_start(s);
    let t = text::trim(s);
    lemma_trim_start(s);
    lemma_trim_end(u);
    let a = s.len() - u.len();
    let b = a + t.len();
    assert(t =~= s.subrange(a, b));
    assert forall|i: int| 0 <= i < s.len() && !(a <= i < b) implies text::is_white(
        #[trigger] s[i],
    ) by {
        if i >= b {
            assert(u[i - a] == s[i]);
        }
    }
    if t.len() > 0 {
        assert(t.first() == u.first());
    }
}

proof fn lemma_trim_start(s: Seq<char>)
    ensures
        ({
            let u = text::trim_start(s);
            &&& u.len() <= s.len()
            &&& u == s.skip(s.len() - u.len())
            &&& u.len() > 0 ==> !text::is_white(u.first())
            &&& forall|i: int| 0 <= i < s.len() - u.len() ==> text::is_white(#[trigger] s[i])
        }),
    decreases s.len(),
{
    if s.len() > 0 && text::is_white(s.first()) {
        let d = s.drop_first();
        let u = text::trim_start(s);
        lemma_trim_start(d);
        assert(u =~= s.skip(s.len() - u.len()));
        assert forall|i: int| 0 <= i < s.len() - u.len() implies text::is_white(
            #[trigger] s[i],
        ) by {
            if i > 0 {
                assert(d[i - 1] == s[i]);
            }
        }
    } else {
        assert(s =~= s.skip(0));
    }
}

proof fn lemma_trim_end(s: Seq<char>)
    ensures
        ({
            let t = text::trim_end(s);
            &&& t.len() <= s.len()
            &&& t == s.take(t.len() as int)
            &&& t.len() > 0 ==> !text::is_white(t.last())
            &&& forall|i: int| t.len() <= i < s.len() ==> text::is_white(#[trigger] s[i])
        }),
    decreases s.len(),
{
    if s.len() > 0 && text::is_white(s.last()) {
        let d = s.drop_last();
        let t = text::trim_end(s);
        lemma_trim_end(d);
        assert(t =~= s.take(t.len() as int));
        assert forall|i: int| t.len() <= i < s.len() implies text::is_white(#[trigger] s[i]) by {
            if i < d.len() {
                assert(d[i] == s[i]);
            }
        }
    } else {
        assert(s =~= s.take(s.len() as int));
    }
}

proof fn lemma_no_separator<T>(s: Seq<T>, sep: spec_fn(T) -> bool)
    requires
        forall|i: int| 0 <= i < s.len() ==> !sep(#[trigger] s[i]),
    ensures
        text::pieces(s, sep) == seq![s],
    decreases s.len(),
{
    if s.len() > 0 {
        let d = s.drop_last();
        lemma_no_separator(d, sep);
        assert(sep(s.last()) == sep(s[s.len() - 1]));
        assert(d.push(s.last()) =~= s);
        assert(text::pieces(s, sep) =~= seq![s]);
    } else {
        assert(s =~= Seq::empty());
        assert(text::pieces(s, sep) =~= seq![s]);
    }
}

/// The words of a text are those before any whitespace in it and those after, and what has
/// no whitespace is one word.
pub proof fn law_words(a: Seq<char>, w: char, b: Seq<char>)
    ensures
        text::is_white(w) ==> text::words(a.push(w) + b) == text::words(a) + text::words(b),
        (forall|i: int| 0 <= i < a.len() ==> !text::is_white(#[trigger] a[i])) ==> text::words(a)
            == if a.len() == 0 {
            Seq::empty()
        } else {
            seq![a]
        },
{
    let sep = |c: char| text::is_white(c);
    let full = |x: Seq<char>| x.len() > 0;
    if text::is_white(w) {
        path_laws::lemma_pieces_concat(a, w, b, sep);
        Seq::filter_distributes_over_add(text::pieces(a, sep), text::pieces(b, sep), full);
    }
    if forall|i: int| 0 <= i < a.len() ==> !text::is_white(#[trigger] a[i]) {
        lemma_no_separator(a, sep);
        reveal(Seq::filter);
        assert(seq![a].drop_last() =~= Seq::empty());
        assert(seq![a].drop_last().filter(full) =~= Seq::empty());
        assert(text::words(a) =~= if a.len() == 0 {
            Seq::empty()
        } else {
            seq![a]
        });
    }
}

/// A line feed ends a line, and the lines after it are those of the rest. A line is what
/// stands before the line feed but for one carriage return directly before it; without a
/// line feed the whole text is one line, if there is any.
pub proof fn law_lines(a: Seq<char>, b: Seq<char>)
    requires
        forall|i: int| 0 <= i < a.len() ==> #[trigger] a[i] != '\n',
    ensures
        text::lines(a.push('\n') + b) == seq![
            if a.len() > 0 && a.last() == '\r' {
                a.drop_last()
            } else {
                a
            },
        ] + text::lines(b),
        text::lines(a) == if a.len() == 0 {
            Seq::empty()
        } else {
            seq![a]
        },
{
    let sep = |c: char| c == '\n';
    let strip = |l: Seq<char>| text::without_cr(l);
    lemma_no_separator(a, sep);
    path_laws::lemma_pieces_concat(a, '\n', b, sep);
    text::lemma_pieces_nonempty(b, sep);
    let runs = text::pieces(b, sep);
    let all = text::pieces(a.push('\n') + b, sep);
    assert(all =~= seq![a] + runs);
    assert(all.drop_last() =~= seq![a] + runs.drop_last());
    assert(all.drop_last().map_values(strip) =~= seq![text::without_cr(a)]
        + runs.drop_last().map_values(strip));
    assert(text::lines(a.push('\n') + b) =~= seq![text::without_cr(a)] + text::lines(b));
    assert(seq![a].drop_last().map_values(strip) =~= Seq::empty());
    assert(text::lines(a) =~= if a.len() == 0 {
        Seq::empty()
    } else {
        seq![a]
    });
}

/// What encodes no text is shown as `String::from_utf8_lossy` makes it.
pub proof fn law_other_bytes_are_made_text(bytes: Seq<u8>)
    requires
        !vstd::utf8::valid_utf8(bytes),
    ensures
        utf8::shown(bytes) == utf8::lossy(bytes),
{
}

/// Bytes that encode a text are shown as that text.
pub proof fn law_texts_are_shown_as_they_are(t: Seq<char>)
    ensures
        utf8::shown(vstd::utf8::encode_utf8(t)) == t,
{
    vstd::utf8::encode_utf8_decode_utf8(t);
    vstd::utf8::encode_utf8_valid_utf8(t);
}

} // verus!
