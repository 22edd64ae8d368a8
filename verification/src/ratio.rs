//! A size ratio, kept as the bits of a double-precision number.
use vstd::arithmetic::power2::{lemma_pow2_adds, lemma_pow2_pos, lemma_pow2_strictly_increases};
use vstd::prelude::*;

verus! {

/// 2 to the power of 52, of which the fraction field is a multiple.
pub const FRACTION_RANGE: u64 = 0x10_0000_0000_0000;

/// The sign bit alone.
pub const SIGN: u64 = 0x8000_0000_0000_0000;

/// A double-precision number, by its IEEE 754 bit pattern.
#[derive(Debug, Clone, Copy, PartialEq, Eq, Structural)]
pub struct Ratio {
    pub bits: u64,
}

impl Ratio {
    pub open spec fn negative(self) -> bool {
        self.bits >= SIGN
    }

    pub open spec fn exponent_field(self) -> int {
        (self.bits as int / FRACTION_RANGE as int) % 2048
    }

    pub open spec fn fraction_field(self) -> int {
        self.bits as int % FRACTION_RANGE as int
    }

    pub open spec fn is_nan(self) -> bool {
        self.exponent_field() == 2047 && self.fraction_field() != 0
    }

    pub open spec fn is_infinite(self) -> bool {
        self.exponent_field() == 2047 && self.fraction_field() == 0
    }

    /// The integer of which a finite number is a power-of-two multiple.
    pub open spec fn mantissa(self) -> int {
        if self.exponent_field() == 0 {
            self.fraction_field()
        } else {
            FRACTION_RANGE + self.fraction_field()
        }
    }

    /// The power of two that scales the mantissa.
    pub open spec fn scale(self) -> int {
        if self.exponent_field() == 0 {
            -1074
        } else {
            self.exponent_field() - 1075
        }
    }

    /// Whether the number is greater than zero.
    pub open spec fn is_positive(self) -> bool {
        !self.is_nan() && !self.negative() && self.bits != 0
    }

    /// Whether `size` is greater than `original` times this number. Nothing exceeds
    /// an infinite multiple.
    pub open spec fn is_exceeded(self, original: u64, size: u64) -> bool {
        if self.is_infinite() {
            false
        } else if self.scale() >= 0 {
            size > original * self.mantissa() * vstd::arithmetic::power2::pow2(self.scale() as nat)
        } else {
            size * vstd::arithmetic::power2::pow2((-self.scale()) as nat) > original
                * self.mantissa()
        }
    }

    /// Whether the number is greater than zero.
    pub fn positive(self) -> (r: bool)
        ensures
            r == self.is_positive(),
    {
        let exponent: u64 = (self.bits / FRACTION_RANGE) % 2048;
        let fraction: u64 = self.bits % FRACTION_RANGE;
        let nan = exponent == 2047 && fraction != 0;
        !nan && self.bits < SIGN && self.bits != 0
    }

    /// Whether `size` is greater than `original` times this number.
    pub fn exceeded(self, original: u64, size: u64) -> (r: bool)
        requires
            self.is_positive(),
        ensures
            r == self.is_exceeded(original, size),
    {
        let exponent: u64 = (self.bits / FRACTION_RANGE) % 2048;
        let fraction: u64 = self.bits % FRACTION_RANGE;
        if exponent == 2047 {
            return false;
        }
        let mantissa: u64 = if exponent == 0 {
            fraction
        } else {
            FRACTION_RANGE + fraction
        };
        let field: u64 = if exponent == 0 {
            1
        } else {
            exponent
        };
        assert(self.scale() == field - 1075);
        assert(mantissa == self.mantissa());
        assert(0 <= original * mantissa <= 0xffff_ffff_ffff_ffff * 0x1f_ffff_ffff_ffff)
            by (nonlinear_arith)
            requires
                0 <= original <= 0xffff_ffff_ffff_ffffu64,
                0 <= mantissa <= 0x1f_ffff_ffff_ffffu64,
        ;
        let product: u128 = (original as u128) * (mantissa as u128);
        if field >= 1075 {
            let k: u64 = field - 1075;
            proof {
                lemma_pow2_pos(k as nat);
            }
            let ghost p = vstd::arithmetic::power2::pow2(k as nat);
            if product == 0 {
                assert(product * p == 0) by (nonlinear_arith)
                    requires
                        product == 0,
                ;
                return size > 0;
            }
            if k >= 64 || product > 0xffff_ffff_ffff_ffff {
                proof {
                    if k >= 64 {
                        lemma_pow2_at_least_64(k as nat);
                    }
                    assert(product * p > 0xffff_ffff_ffff_ffff) by (nonlinear_arith)
                        requires
                            product >= 1,
                            p >= 1,
                            p > 0xffff_ffff_ffff_ffff || product > 0xffff_ffff_ffff_ffff,
                    ;
                }
                return false;
            }
            let factor: u128 = power_of_two(k as u32);
            proof {
                vstd::arithmetic::power2::lemma2_to64();
                if k < 64 {
                    lemma_pow2_strictly_increases(k as nat, 64);
                }
                assert(product * factor < 0x1_0000_0000_0000_0000 * 0x1_0000_0000_0000_0000)
                    by (nonlinear_arith)
                    requires
                        0 <= product < 0x1_0000_0000_0000_0000,
                        0 <= factor < 0x1_0000_0000_0000_0000,
                ;
            }
            size as u128 > product * factor
        } else {
            let s: u64 = 1075 - field;
            let ghost d = vstd::arithmetic::power2::pow2(s as nat);
            if s >= 127 {
                proof {
                    lemma_pow2_at_least_127(s as nat);
                    assert(size >= 1 ==> size * d >= d) by (nonlinear_arith)
                        requires
                            d >= 0,
                            size >= 0,
                    ;
                    assert(size == 0 ==> size * d == 0) by (nonlinear_arith);
                    assert(0xffff_ffff_ffff_ffff * 0x1f_ffff_ffff_ffff
                        < 0x8000_0000_0000_0000_0000_0000_0000_0000) by (nonlinear_arith);
                }
                return size > 0;
            }
            let divisor: u128 = power_of_two(s as u32);
            proof {
                lemma_above_quotient(size as int, product as int, divisor as int);
            }
            size as u128 > product / divisor
        }
    }
}

/// A number exceeds a quotient rounded down exactly where it exceeds the quotient.
proof fn lemma_above_quotient(x: int, n: int, d: int)
    requires
        d > 0,
        n >= 0,
    ensures
        x > n / d <==> x * d > n,
{
    assert((x > n / d) == (x * d > n)) by (nonlinear_arith)
        requires
            d > 0,
            n >= 0,
    ;
}

proof fn lemma_pow2_at_least_64(k: nat)
    requires
        k >= 64,
    ensures
        vstd::arithmetic::power2::pow2(k) >= 0x1_0000_0000_0000_0000,
{
    vstd::arithmetic::power2::lemma2_to64();
    if k > 64 {
        lemma_pow2_strictly_increases(64, k);
    }
}

proof fn lemma_pow2_at_least_127(k: nat)
    requires
        k >= 127,
    ensures
        vstd::arithmetic::power2::pow2(k) >= 0x8000_0000_0000_0000_0000_0000_0000_0000,
{
    vstd::arithmetic::power2::lemma2_to64();
    vstd::arithmetic::power2::lemma2_to64_rest();
    lemma_pow2_adds(64, 63);
    assert(0x1_0000_0000_0000_0000 * 0x8000_0000_0000_0000
        == 0x8000_0000_0000_0000_0000_0000_0000_0000) by (nonlinear_arith);
    if k > 127 {
        lemma_pow2_strictly_increases(127, k);
    }
}

/// 2 to the power of `k`.
pub fn power_of_two(k: u32) -> (r: u128)
    requires
        k < 128,
    ensures
        r == vstd::arithmetic::power2::pow2(k as nat),
        r > 0,
{
    let mut r: u128 = 1;
    let mut i: u32 = 0;
    proof {
        vstd::arithmetic::power2::lemma2_to64();
    }
    while i < k
        invariant
            i <= k < 128,
            r == vstd::arithmetic::power2::pow2(i as nat),
            r > 0,
        decreases k - i,
    {
        proof {
            vstd::arithmetic::power2::lemma_pow2_unfold((i + 1) as nat);
            lemma_pow2_at_least_127(127);
            lemma_pow2_below(i as nat);
        }
        r = r * 2;
        i += 1;
    }
    r
}

proof fn lemma_pow2_below(i: nat)
    requires
        i < 127,
    ensures
        vstd::arithmetic::power2::pow2(i) * 2 <= 0x8000_0000_0000_0000_0000_0000_0000_0000,
{
    vstd::arithmetic::power2::lemma_pow2_unfold(i + 1);
    vstd::arithmetic::power2::lemma2_to64();
    vstd::arithmetic::power2::lemma2_to64_rest();
    lemma_pow2_adds(64, 63);
    assert(0x1_0000_0000_0000_0000 * 0x8000_0000_0000_0000
        == 0x8000_0000_0000_0000_0000_0000_0000_0000) by (nonlinear_arith);
    if i + 1 < 127 {
        lemma_pow2_strictly_increases(i + 1, 127);
    }
}

} // verus!
