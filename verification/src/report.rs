//! How sizes and times are told.
use vstd::prelude::*;
use vstd::string::*;

use crate::config::Span;
use crate::rounding::{self, double_of, quotient, rounded};
use crate::text::{self, push_decimal, push_wide_decimal};
use crate::worker::Sizes;

verus! {

/// The unit that a number of bytes is told in, and how many bytes it has.
pub open spec fn unit(bytes: nat) -> (nat, Seq<char>) {
    if bytes < 0x400 {
        (1, "B"@)
    } else if bytes < 0x10_0000 {
        (0x400, "KiB"@)
    } else if bytes < 0x4000_0000 {
        (0x10_0000, "MiB"@)
    } else if bytes < 0x100_0000_0000 {
        (0x4000_0000, "GiB"@)
    } else {
        (0x100_0000_0000, "TiB"@)
    }
}

/// A number of bytes in its unit, to the nearest tenth.
pub open spec fn size_text(bytes: u64) -> Seq<char> {
    let double = rounding::as_double(bytes as nat);
    let (scale, name) = unit(double);
    let tenths = rounding::round_even(10 * double, scale);
    text::decimal(tenths / 10) + "."@ + text::decimal(tenths % 10) + " "@ + name
}

/// The size of the result in percent of that of the source, to the nearest integer.
pub open spec fn percent(sizes: Sizes) -> nat {
    rounding::rounded_quotient(
        rounding::as_double(100 * rounding::as_double(sizes.result as nat)),
        rounding::as_double(sizes.source as nat),
    )
}

/// A length of time in minutes and seconds; what is less than a second is dropped.
pub open spec fn duration_text(secs: u64) -> Seq<char> {
    if secs >= 60 {
        text::decimal((secs / 60) as nat) + "m"@ + (if secs % 60 < 10 {
            "0"@
        } else {
            Seq::empty()
        }) + text::decimal((secs % 60) as nat) + "s"@
    } else {
        text::decimal(secs as nat) + "s"@
    }
}

/// A number of bytes, as people read it.
pub fn human(bytes: u64) -> (r: String)
    ensures
        r@ == size_text(bytes),
{
    let double: u128 = double_of(bytes as u128);
    let (scale, name): (u128, &'static str) = if double < 0x400 {
        (1, "B")
    } else if double < 0x10_0000 {
        (0x400, "KiB")
    } else if double < 0x4000_0000 {
        (0x10_0000, "MiB")
    } else if double < 0x100_0000_0000 {
        (0x4000_0000, "GiB")
    } else {
        (0x100_0000_0000, "TiB")
    };
    let tenths: u128 = rounded(10 * double, scale);
    let mut s: String = String::new();
    push_wide_decimal(&mut s, tenths / 10);
    s.append(".");
    push_wide_decimal(&mut s, tenths % 10);
    s.append(" ");
    s.append(name);
    assert(s@ =~= size_text(bytes));
    s
}

/// The size of the result in percent of that of the source.
pub fn size_percent(sizes: Sizes) -> (r: u128)
    requires
        sizes.source > 0,
    ensures
        r == percent(sizes),
{
    let source: u128 = double_of(sizes.source as u128);
    let result: u128 = double_of(sizes.result as u128);
    let hundredfold: u128 = double_of(100 * result);
    quotient(hundredfold, source)
}

/// A length of time, as people read it.
pub fn fmt_duration(d: Span) -> (r: String)
    ensures
        r@ == duration_text(d.secs),
{
    let mut s: String = String::new();
    if d.secs >= 60 {
        push_decimal(&mut s, d.secs / 60);
        s.append("m");
        if d.secs % 60 < 10 {
            s.append("0");
        }
        push_decimal(&mut s, d.secs % 60);
    } else {
        push_decimal(&mut s, d.secs);
    }
    s.append("s");
    assert(s@ =~= duration_text(d.secs));
    s
}

/// What converting a file did to its size; nothing where the sizes are not known or the
/// source is empty.
pub fn size_delta(sizes: Option<Sizes>) -> (r: String)
    ensures
        r@ == match sizes {
            Some(z) if z.source > 0 => " ("@ + size_text(z.source) + " -> "@ + size_text(z.result)
                + ", "@ + text::decimal(percent(z)) + "% of original)"@,
            _ => Seq::empty(),
        },
{
    match sizes {
        Some(z) if z.source > 0 => {
            let mut s: String = " (".to_owned();
            s.append(human(z.source).as_str());
            s.append(" -> ");
            s.append(human(z.result).as_str());
            s.append(", ");
            push_wide_decimal(&mut s, size_percent(z));
            s.append("% of original)");
            s
        },
        _ => {
            let s: String = String::new();
            assert(s@ =~= Seq::empty());
            s
        },
    }
}

/// The line on what converting a file did to its size; none where the sizes are not
/// known. Of an empty source every result is 0%.
pub fn report_sizes(sizes: Option<Sizes>) -> (r: Option<String>)
    ensures
        match sizes {
            Some(z) => r is Some && r->0@ == "  "@ + size_text(z.source) + " -> "@ + size_text(
                z.result,
            ) + " ("@ + text::decimal(
                if z.source > 0 {
                    percent(z)
                } else {
                    0
                },
            ) + "% of original)"@,
            None => r is None,
        },
{
    match sizes {
        None => None,
        Some(z) => {
            let share: u128 = if z.source > 0 {
                size_percent(z)
            } else {
                0
            };
            let mut s: String = "  ".to_owned();
            s.append(human(z.source).as_str());
            s.append(" -> ");
            s.append(human(z.result).as_str());
            s.append(" (");
            push_wide_decimal(&mut s, share);
            s.append("% of original)");
            Some(s)
        },
    }
}

} // verus!
