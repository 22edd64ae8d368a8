//! How sizes and times are told.
use vstd::prelude::*;

use crate::laws::texts;
use crate::report;
use crate::rounding;
use crate::text;
use crate::worker::Sizes;

verus! {

/// Rounding goes to the nearest integer, and from halfway to the even one.
pub proof fn law_rounding(n: nat, d: nat)
    requires
        d > 0,
    ensures
        ({
            let r = rounding::round_even(n, d);
            &&& -(d as int) <= 2 * (r * d - n) <= d
            &&& 2 * (r * d - n) == d || 2 * (r * d - n) == -(d as int) ==> r % 2 == 0
        }),
{
    let q = n / d;
    let r = n % d;
    assert(n == q * d + r && 0 <= r < d) by (nonlinear_arith)
        requires
            q == n / d,
            r == n % d,
            d > 0,
    ;
    assert((q + 1) * d == q * d + d) by (nonlinear_arith);
}

proof fn lemma_coarse(n: nat, d: nat)
    requires
        d > 0,
    ensures
        ({
            let p = rounding::coarse(n, d);
            &&& p >= 1
            &&& n < 0x20_0000_0000_0000 * (d * p)
            &&& p > 1 ==> 0x20_0000_0000_0000 * (d * p) <= 2 * n
        }),
    decreases
            (if n >= d {
                n - d
            } else {
                0
            }),
{
    if n >= 0x20_0000_0000_0000 * d {
        lemma_coarse(n, 2 * d);
        let h = rounding::coarse(n, 2 * d);
        assert(d * (2 * h) == (2 * d) * h) by (nonlinear_arith);
        if h == 1 {
            assert(d * (2 * h) == 2 * d);
        }
    } else {
        assert(d * 1 == d);
    }
}

proof fn lemma_fine(n: nat, d: nat)
    requires
        d > 0,
        n > 0,
    ensures
        ({
            let p = rounding::fine(n, d);
            &&& p >= 1
            &&& n * p >= 0x10_0000_0000_0000 * d
        }),
    decreases
            (if 0x10_0000_0000_0000 * d >= n {
                0x10_0000_0000_0000 * d - n
            } else {
                0
            }),
{
    if n < 0x10_0000_0000_0000 * d {
        lemma_fine(2 * n, d);
        let h = rounding::fine(2 * n, d);
        assert(n * (2 * h) == (2 * n) * h) by (nonlinear_arith);
    } else {
        assert(n * 1 == n);
    }
}

/// A number is kept as it is up to 2 to the power of 53, and otherwise to within half a unit
/// in the last of 53 bits.
pub proof fn law_precision_of_doubles(n: nat)
    ensures
        n <= 0x20_0000_0000_0000 ==> rounding::as_double(n) == n,
        -(n as int) <= 0x20_0000_0000_0000 * (rounding::as_double(n) - n) <= n,
{
    let p = rounding::coarse(n, 1);
    let m = rounding::round_even(n, p);
    lemma_coarse(n, 1);
    law_rounding(n, p);
    assert(1 * p == p);
    if p == 1 {
        assert(m * 1 == m);
        assert(m == n);
    }
    if n == 0x20_0000_0000_0000 {
        assert(p == 2) by {
            assert(rounding::coarse(n, 2) == 1);
        }
        assert(m == 0x10_0000_0000_0000);
    }
}

/// A size is told in a unit of which there is at least one and fewer than 1024, as far as
/// there are units, to the nearest tenth.
pub proof fn law_sizes(bytes: u64)
    ensures
        ({
            let size = rounding::as_double(bytes as nat);
            exists|scale: nat, name: Seq<char>, tenths: nat|
                {
                    &&& (scale == 1 && name == "B"@) || (scale == 1024 && name == "KiB"@) || (scale
                        == 1024 * 1024 && name == "MiB"@) || (scale == 1024 * 1024 * 1024 && name
                        == "GiB"@) || (scale == 1024 * 1024 * 1024 * 1024 && name == "TiB"@)
                    &&& size >= scale || scale == 1
                    &&& size < 1024 * scale || name == "TiB"@
                    &&& -(scale as int) <= 2 * (tenths * scale - 10 * size) <= scale
                    &&& 2 * (tenths * scale - 10 * size) == scale || 2 * (tenths * scale - 10
                        * size) == -(scale as int) ==> tenths % 2 == 0
                    &&& report::size_text(bytes) == #[trigger] told(tenths, scale, name)
                }
        }),
{
    let size = rounding::as_double(bytes as nat);
    let (scale, name) = report::unit(size);
    let tenths = rounding::round_even(10 * size, scale);
    law_rounding(10 * size, scale);
    assert(report::size_text(bytes) == told(tenths, scale, name));
}

/// So many tenths of a unit.
pub open spec fn told(tenths: nat, scale: nat, name: Seq<char>) -> Seq<char> {
    text::decimal(tenths / 10) + "."@ + text::decimal(tenths % 10) + " "@ + name
}

/// The percentage is the nearest integer to a hundred times the result by the source, but for
/// what 53 bits of precision leave open: below 2 to the power of 20 less than one part in 2
/// to the power of 32, and in general one, or one part in 2 to the power of 53.
pub proof fn law_percentages(sizes: Sizes)
    requires
        sizes.source > 0,
    ensures
        ({
            let source = rounding::as_double(sizes.source as nat) as int;
            let hundredfold = rounding::as_double(
                100 * rounding::as_double(sizes.result as nat),
            ) as int;
            let off = report::percent(sizes) * source - hundredfold;
            &&& source > 0
            &&& hundredfold < 0x10_0000 * source ==> -(source * 0x1_0000_0001) <= 2 * off
                * 0x1_0000_0000 <= source * 0x1_0000_0001
            &&& hundredfold < 0x20_0000_0000_0000 * source ==> -source <= off <= source
            &&& hundredfold >= 0x20_0000_0000_0000 * source ==> -hundredfold
                <= 0x20_0000_0000_0000 * off <= hundredfold
        }),
{
    let d = rounding::as_double(sizes.source as nat);
    let n = rounding::as_double(100 * rounding::as_double(sizes.result as nat));
    law_precision_of_doubles(sizes.source as nat);
    assert(d > 0) by {
        assert(0x20_0000_0000_0000 * (d - sizes.source) >= -(sizes.source as int));
    }
    if n >= 0x20_0000_0000_0000 * d {
        let p = rounding::coarse(n, d);
        let w = d * p;
        lemma_coarse(n, d);
        assert(w > 0) by (nonlinear_arith)
            requires
                w == d * p,
                d > 0,
                p >= 1,
        ;
        law_rounding(n, w);
        let m = rounding::round_even(n, w);
        assert((m * p) * d == m * w) by (nonlinear_arith)
            requires
                w == d * p,
        ;
        assert(p > 1) by {
            if p == 1 {
                assert(d * p == d);
            }
        }
    } else {
        let p = rounding::fine(n, d);
        let m = rounding::round_even(n * p, d);
        let t = rounding::round_even(m, p);
        if n > 0 {
            lemma_fine(n, d);
            law_rounding(n * p, d);
            law_rounding(m, p);
            lemma_twice_rounded(n as int, d as int, p as int, m as int, t as int, 1);
            if n < 0x10_0000 * d {
                assert(p >= 0x1_0000_0000) by (nonlinear_arith)
                    requires
                        n * p >= 0x10_0000_0000_0000 * d,
                        n < 0x10_0000 * d,
                        d > 0,
                        n > 0,
                ;
                lemma_twice_rounded(
                    n as int,
                    d as int,
                    p as int,
                    m as int,
                    t as int,
                    0x1_0000_0000,
                );
            }
        } else {
            lemma_nothing(d, p);
            assert(t * d == 0) by (nonlinear_arith)
                requires
                    t == 0,
            ;
        }
    }
}

proof fn lemma_nothing(d: nat, p: nat)
    requires
        d > 0,
        p == 1,
    ensures
        rounding::round_even(rounding::round_even(0 * p, d), p) == 0,
{
    assert(0nat / d == 0) by (nonlinear_arith)
        requires
            d > 0,
    ;
    assert(0nat % d == 0) by (nonlinear_arith)
        requires
            d > 0,
    ;
    assert(0 * p == 0);
}

proof fn lemma_twice_rounded(n: int, d: int, p: int, m: int, t: int, c: int)
    requires
        d > 0,
        n > 0,
        p >= c >= 1,
        -d <= 2 * (m * d - n * p) <= d,
        -p <= 2 * (t * p - m) <= p,
    ensures
        -(d * c + d) <= 2 * (t * d - n) * c <= d * c + d,
{
    let off = t * d - n;
    assert(off * p == d * (t * p - m) + (m * d - n * p)) by (nonlinear_arith)
        requires
            off == t * d - n,
    ;
    assert(-(d * p) - d <= 2 * off * p <= d * p + d) by (nonlinear_arith)
        requires
            off * p == d * (t * p - m) + (m * d - n * p),
            -d <= 2 * (m * d - n * p) <= d,
            -p <= 2 * (t * p - m) <= p,
            d > 0,
    ;
    assert(2 * off * c <= d * c + d) by (nonlinear_arith)
        requires
            2 * off * p <= d * p + d,
            p >= c,
            c > 0,
            d > 0,
    ;
    assert(2 * off * c >= -(d * c) - d) by (nonlinear_arith)
        requires
            2 * off * p >= -(d * p) - d,
            p >= c,
            c > 0,
            d > 0,
    ;
}

/// A time is told in seconds below a minute, else in minutes and two digits of seconds that
/// together are all of it.
pub proof fn law_times(secs: u64)
    ensures
        secs < 60 ==> report::duration_text(secs) == text::decimal(secs as nat) + "s"@,
        secs >= 60 ==> exists|minutes: nat, rest: Seq<char>|
            {
                &&& report::duration_text(secs) == #[trigger] in_minutes(minutes, rest)
                &&& rest.len() == 2
                &&& '0' <= rest[0] <= '5'
                &&& '0' <= rest[1] <= '9'
                &&& 60 * minutes + texts::value(rest) == secs
            },
{
    if secs >= 60 {
        let minutes = (secs / 60) as nat;
        let s = (secs % 60) as nat;
        let zero = if s < 10 {
            "0"@
        } else {
            Seq::empty()
        };
        let rest = zero + text::decimal(s);
        reveal_strlit("0");
        reveal_with_fuel(text::decimal, 2);
        reveal_with_fuel(texts::value, 3);
        if s < 10 {
            assert(rest =~= seq!['0', text::digit(s as int)]);
        } else {
            assert(text::decimal(s / 10) =~= seq![text::digit((s / 10) as int)]);
            assert(rest =~= seq![text::digit((s / 10) as int), text::digit((s % 10) as int)]);
        }
        assert(rest.drop_last().drop_last() =~= Seq::empty());
        assert(texts::value(rest) == s);
        assert(report::duration_text(secs) =~= in_minutes(minutes, rest));
    }
}

pub open spec fn in_minutes(minutes: nat, rest: Seq<char>) -> Seq<char> {
    text::decimal(minutes) + "m"@ + rest + "s"@
}

} // verus!
