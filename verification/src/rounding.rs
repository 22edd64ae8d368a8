//! Arithmetic as double-precision numbers do it, on whole numbers.
use vstd::prelude::*;

verus! {

/// 2 to the power of 53: a double holds every integer up to here.
pub const EXACT: u128 = 0x20_0000_0000_0000;

/// 2 to the power of 52: the least integer that takes all 53 bits of a double.
pub const FULL: u128 = 0x10_0000_0000_0000;

/// 2 to the power of 73: what is divided is below this.
pub const WIDE: u128 = 0x200_0000_0000_0000_0000;

/// 2 to the power of 66: what it is divided by is below this.
pub const NARROW: u128 = 0x4_0000_0000_0000_0000;

/// The integer nearest to `n / d`. Halfway between two it is the even one.
pub open spec fn round_even(n: nat, d: nat) -> nat {
    let q = n / d;
    let r = n % d;
    if 2 * r > d || (2 * r == d && q % 2 == 1) {
        q + 1
    } else {
        q
    }
}

/// The least power of two `p` for which `n / (d * p)` is below 2 to the power of 53: how
/// far apart the doubles around `n / d` are, where they are 1 apart or more.
pub open spec fn coarse(n: nat, d: nat) -> nat
    decreases
            (if n >= d {
                n - d
            } else {
                0
            }),
{
    if d == 0 || n < EXACT as nat * d {
        1
    } else {
        2 * coarse(n, 2 * d)
    }
}

/// The least power of two `p` for which `n * p / d` takes all 53 bits: how many doubles
/// there are from one integer to the next around `n / d`, where it is 1 or more.
pub open spec fn fine(n: nat, d: nat) -> nat
    decreases
            (if FULL as nat * d >= n {
                FULL as nat * d - n
            } else {
                0
            }),
{
    if n == 0 || n >= FULL as nat * d {
        1
    } else {
        2 * fine(2 * n, d)
    }
}

/// The double nearest to `n`.
pub open spec fn as_double(n: nat) -> nat {
    let p = coarse(n, 1);
    round_even(n, p) * p
}

/// The integer nearest to the double nearest to `n / d`.
pub open spec fn rounded_quotient(n: nat, d: nat) -> nat {
    if n >= EXACT as nat * d {
        let p = coarse(n, d);
        round_even(n, d * p) * p
    } else {
        let p = fine(n, d);
        round_even(round_even(n * p, d), p)
    }
}

/// The integer nearest to `n / d`. Halfway between two it is the even one.
pub fn rounded(n: u128, d: u128) -> (r: u128)
    requires
        d > 0,
    ensures
        r == round_even(n as nat, d as nat),
        r <= n / d + 1,
{
    let q: u128 = n / d;
    let rest: u128 = n % d;
    assert(q * d + rest == n) by (nonlinear_arith)
        requires
            q == n / d,
            rest == n % d,
            d > 0,
    ;
    if rest > d - rest || (rest == d - rest && q % 2 == 1) {
        assert(q < n) by (nonlinear_arith)
            requires
                q * d + rest == n,
                rest >= 1,
                d >= 1,
                q >= 0,
        ;
        q + 1
    } else {
        q
    }
}

/// How far apart the doubles around `n / d` are.
fn coarse_step(n: u128, d: u128) -> (p: u128)
    requires
        0 < d,
        n < WIDE,
        d < NARROW,
    ensures
        p == coarse(n as nat, d as nat),
        p >= 1,
        n < EXACT * (d * p),
        p > 1 ==> EXACT * (d * p) <= 2 * n,
{
    let mut p: u128 = 1;
    let mut width: u128 = d;
    while n >= EXACT * width
        invariant
            0 < d,
            p >= 1,
            p <= width,
            n < WIDE,
            width < NARROW,
            width == d * p,
            p as nat * coarse(n as nat, width as nat) == coarse(n as nat, d as nat),
            p > 1 ==> EXACT * width <= 2 * n,
        decreases n + 1 - width,
    {
        let ghost more = coarse(n as nat, (2 * width) as nat);
        assert(p * (2 * more) == (2 * p) * more) by (nonlinear_arith);
        assert(d * (2 * p) == 2 * (d * p)) by (nonlinear_arith);
        p = 2 * p;
        width = 2 * width;
    }
    assert(coarse(n as nat, width as nat) == 1);
    assert(p as nat * 1 == p);
    p
}

/// How many doubles there are from one integer to the next around `n / d`.
fn fine_step(n: u128, d: u128) -> (p: u128)
    requires
        0 < d,
        n < EXACT * d,
        d < NARROW,
    ensures
        p == fine(n as nat, d as nat),
        p >= 1,
        n * p < EXACT * d,
{
    let mut p: u128 = 1;
    let mut high: u128 = n;
    while high != 0 && high < FULL * d
        invariant
            0 < d,
            d < NARROW,
            p >= 1,
            n > 0 ==> p <= high,
            n == 0 ==> p == 1,
            n == 0 <==> high == 0,
            high < EXACT * d,
            high == n * p,
            p as nat * fine(high as nat, d as nat) == fine(n as nat, d as nat),
        decreases EXACT * d - high,
    {
        let ghost more = fine((2 * high) as nat, d as nat);
        assert(p * (2 * more) == (2 * p) * more) by (nonlinear_arith);
        assert(n * (2 * p) == 2 * (n * p)) by (nonlinear_arith);
        p = 2 * p;
        high = 2 * high;
    }
    assert(fine(high as nat, d as nat) == 1);
    assert(p as nat * 1 == p);
    p
}

/// The double nearest to `n`.
pub fn double_of(n: u128) -> (r: u128)
    requires
        2 * n < WIDE,
    ensures
        r == as_double(n as nat),
        r <= 2 * n,
        n > 0 ==> r > 0,
{
    let p: u128 = coarse_step(n, 1);
    assert(1 * p == p);
    let m: u128 = rounded(n, p);
    proof {
        lemma_double_bounds(n as int, p as int, m as int);
    }
    m * p
}

proof fn lemma_double_bounds(n: int, p: int, m: int)
    requires
        0 <= n,
        p >= 1,
        n < EXACT * p,
        p > 1 ==> EXACT * p <= 2 * n,
        m == round_even(n as nat, p as nat),
    ensures
        0 <= m * p,
        m * p <= 2 * n,
        n > 0 ==> m * p > 0,
{
    let q = n / p;
    let r = n % p;
    assert(n == q * p + r && 0 <= r < p && 0 <= q) by (nonlinear_arith)
        requires
            q == n / p,
            r == n % p,
            p >= 1,
            n >= 0,
    ;
    if p == 1 {
        assert(m == n);
    } else {
        assert(q < EXACT) by (nonlinear_arith)
            requires
                n == q * p + r,
                0 <= r,
                n < EXACT * p,
                p >= 1,
        ;
        assert(m * p <= EXACT * p) by (nonlinear_arith)
            requires
                m <= EXACT,
                p >= 1,
        ;
        assert(q >= 1) by (nonlinear_arith)
            requires
                n == q * p + r,
                r < p,
                EXACT * p <= 2 * n,
                p >= 1,
                EXACT >= 4,
        ;
        assert(m * p >= 1) by (nonlinear_arith)
            requires
                m >= 1,
                p >= 1,
        ;
    }
}

/// The integer nearest to the double nearest to `n / d`.
pub fn quotient(n: u128, d: u128) -> (r: u128)
    requires
        0 < d,
        n < WIDE,
        d < NARROW,
    ensures
        r == rounded_quotient(n as nat, d as nat),
{
    if n >= EXACT * d {
        let p: u128 = coarse_step(n, d);
        proof {
            assert(d * p >= 1 && d * p >= p) by (nonlinear_arith)
                requires
                    d >= 1,
                    p >= 1,
            ;
        }
        let m: u128 = rounded(n, d * p);
        proof {
            let w = d * p;
            assert(n / (w as u128) <= EXACT) by (nonlinear_arith)
                requires
                    n < EXACT * w,
                    0 < w <= u128::MAX,
            ;
            assert(m * p <= (EXACT + 1) * w) by (nonlinear_arith)
                requires
                    m <= EXACT + 1,
                    p <= w,
                    p >= 1,
            ;
            assert(m * p >= 0) by (nonlinear_arith);
        }
        m * p
    } else {
        let p: u128 = fine_step(n, d);
        assert(n * p >= 0) by (nonlinear_arith);
        let m: u128 = rounded(n * p, d);
        rounded(m, p)
    }
}

} // verus!
