//! Double-precision numbers, held as their bits.
//!
//! A progress fraction or a score is an IEEE 754 binary64 number. This library orders and compares such
//! numbers, and turns integers into them; it does no arithmetic on them. All of that can be said of the
//! bits: a finite number is a whole number of the smallest positive one, two to the minus 1074.

use vstd::arithmetic::power2;
use vstd::prelude::*;

verus! {

/// A double-precision number, by its bits.
#[derive(Clone, Copy, Debug, PartialEq, Eq, Structural)]
pub struct Double {
    pub bits: u64,
}

/// The sign bit.
pub const SIGN: u64 = 0x8000_0000_0000_0000;

/// The magnitude of infinity. Larger magnitudes are not numbers.
pub const INFINITY: u64 = 0x7ff0_0000_0000_0000;

/// The first magnitude with an implicit leading bit.
pub const LEADING: u64 = 0x10_0000_0000_0000;

/// The bits of one.
pub const ONE: u64 = 0x3ff0_0000_0000_0000;

/// The bits of minus one.
pub const MINUS_ONE: u64 = 0xbff0_0000_0000_0000;

/// The bits of the double nearest to 0.95: the fraction at or above which a title counts as watched. One
/// definition, so that no client can hold a different opinion about what "watched" means.
pub const WATCHED: u64 = 0x3fee_6666_6666_6666;

impl Double {
    /// Whether the sign bit is set.
    pub open spec fn negative(self) -> bool {
        self.bits >= SIGN
    }

    /// The bits without the sign.
    pub open spec fn magnitude(self) -> nat {
        (self.bits % SIGN) as nat
    }

    /// Whether this is a number, infinities included.
    pub open spec fn ordered(self) -> bool {
        self.magnitude() <= INFINITY
    }

    /// Whether this is a number, and not an infinity.
    pub open spec fn finite(self) -> bool {
        self.magnitude() < INFINITY
    }

    /// The place of a number among the others: numbers compare as their ranks do. Both zeros have one.
    pub open spec fn rank(self) -> int {
        if self.negative() {
            -self.magnitude()
        } else {
            self.magnitude() as int
        }
    }

    /// The value of a finite number, in units of two to the minus 1074.
    pub open spec fn value(self) -> int {
        if self.negative() {
            -units(self.magnitude())
        } else {
            units(self.magnitude()) as int
        }
    }

    /// The same number, but zero without a sign.
    pub open spec fn unsigned_zero(self) -> Double {
        if self.magnitude() == 0 {
            Double { bits: 0 }
        } else {
            self
        }
    }
}

/// The value of a positive magnitude, in units of two to the minus 1074: a leading one and 52 bits of
/// fraction, times a power of two.
pub open spec fn units(magnitude: nat) -> nat {
    if magnitude < LEADING {
        magnitude
    } else {
        (LEADING as nat + magnitude % (LEADING as nat)) * power2::pow2(
            (magnitude / (LEADING as nat) - 1) as nat,
        )
    }
}

/// How far `n` must be halved to have no more than 53 bits.
pub open spec fn excess(n: nat) -> nat
    decreases n,
{
    if n < 2 * LEADING {
        0
    } else {
        1 + excess(n / 2)
    }
}

/// `n` to the nearest multiple of `unit`, and to the even one of two that are equally near.
pub open spec fn nearest_multiple(n: nat, unit: nat) -> nat {
    let q = n / unit;
    let r = n % unit;
    if 2 * r > unit || (2 * r == unit && q % 2 == 1) {
        (q + 1) * unit
    } else {
        q * unit
    }
}

/// The whole number that a double holds in place of `n`: `n` itself if it has no more than 53 bits.
pub open spec fn rounded(n: nat) -> nat {
    nearest_multiple(n, power2::pow2(excess(n)))
}

/// Whether `d` is the double nearest to a whole number.
pub open spec fn holds(d: Double, n: int) -> bool {
    &&& d.finite()
    &&& d.negative() <==> n < 0
    &&& d.value() == (if n >= 0 {
        (rounded(n as nat) * power2::pow2(1074)) as int
    } else {
        -(rounded((-n) as nat) * power2::pow2(1074))
    })
}

/// The double nearest to a whole number.
pub open spec fn double_of(n: int) -> Double {
    choose|d: Double| holds(d, n)
}

/// Greater magnitudes have greater values: one step.
proof fn units_step(m: nat)
    ensures
        units(m) < units(m + 1),
{
    power2::lemma2_to64();
    let l = LEADING as nat;
    if m + 1 == l {
        assert((m + 1) / l == 1 && (m + 1) % l == 0) by (nonlinear_arith)
            requires
                m + 1 == l,
                l > 0,
        ;
        assert(units(m + 1) == l * power2::pow2(0));
        assert(power2::pow2(0) == 1);
    } else if m >= l {
        let q = m / l;
        let f = m % l;
        let p = power2::pow2((q - 1) as nat);
        assert(q >= 1) by (nonlinear_arith)
            requires
                m >= l,
                l > 0,
                q == m / l,
        ;
        power2::lemma_pow2_pos((q - 1) as nat);
        if f + 1 < l {
            assert((m + 1) / l == q && (m + 1) % l == f + 1) by (nonlinear_arith)
                requires
                    q == m / l,
                    f == m % l,
                    f + 1 < l,
                    l > 0,
            ;
            assert((l + f) * p < (l + (f + 1)) * p) by (nonlinear_arith)
                requires
                    p > 0,
            ;
        } else {
            assert((m + 1) / l == q + 1 && (m + 1) % l == 0) by (nonlinear_arith)
                requires
                    q == m / l,
                    f == m % l,
                    f + 1 >= l,
                    l > 0,
            ;
            power2::lemma_pow2_unfold(q);
            assert((l + f) * p < l * (2 * p)) by (nonlinear_arith)
                requires
                    p > 0,
                    f < l,
            ;
            assert((l + 0) * power2::pow2(q) == l * (2 * p));
        }
    }
}

/// Greater magnitudes have greater values.
proof fn units_increase(m: nat, n: nat)
    requires
        m < n,
    ensures
        units(m) < units(n),
    decreases n - m,
{
    units_step((n - 1) as nat);
    if m < n - 1 {
        units_increase(m, (n - 1) as nat);
    }
}

/// Numbers compare as their values do: the order of the ranks is the order of the values.
pub proof fn ranks_order_values(a: Double, b: Double)
    requires
        a.finite(),
        b.finite(),
    ensures
        a.rank() < b.rank() <==> a.value() < b.value(),
        a.rank() == b.rank() <==> a.value() == b.value(),
{
    let m = a.magnitude();
    let n = b.magnitude();
    if m < n {
        units_increase(m, n);
    } else if n < m {
        units_increase(n, m);
    }
    if m > 0 {
        units_increase(0, m);
    }
    if n > 0 {
        units_increase(0, n);
    }
}

/// A whole number has one nearest double.
proof fn nearest_is_one(d: Double, n: int)
    requires
        holds(d, n),
    ensures
        d == double_of(n),
{
    let e = double_of(n);
    assert(holds(e, n));
    if d.magnitude() < e.magnitude() {
        units_increase(d.magnitude(), e.magnitude());
    } else if e.magnitude() < d.magnitude() {
        units_increase(e.magnitude(), d.magnitude());
    }
}

/// Halving drops the low bit of a quotient.
proof fn quotient_halves(n: nat, u: nat)
    requires
        u > 0,
    ensures
        (n / u) / 2 == n / (2 * u),
{
    vstd::arithmetic::div_mod::lemma_div_denominator(n as int, u as int, 2);
    assert(u * 2 == 2 * u);
}

impl Double {
    /// Whether this is a number, and not an infinity.
    pub fn is_finite(self) -> (r: bool)
        ensures
            r == self.finite(),
    {
        self.bits % SIGN < INFINITY
    }

    /// Whether this is less than `other`. Nothing is less than, or more than, what is not a number.
    pub fn less_than(self, other: Double) -> (r: bool)
        ensures
            r == (self.ordered() && other.ordered() && self.rank() < other.rank()),
    {
        let a: u64 = self.bits % SIGN;
        let b: u64 = other.bits % SIGN;
        if a > INFINITY || b > INFINITY {
            return false;
        }
        if self.bits >= SIGN {
            if other.bits >= SIGN {
                b < a
            } else {
                a > 0 || b > 0
            }
        } else if other.bits >= SIGN {
            false
        } else {
            a < b
        }
    }

    /// Whether this is one of the zeros.
    pub fn is_zero(self) -> (r: bool)
        ensures
            r == (self.magnitude() == 0),
    {
        self.bits % SIGN == 0
    }

    /// The double nearest to a whole number.
    pub fn from_u64(n: u64) -> (d: Double)
        ensures
            d == double_of(n as int),
            holds(d, n as int),
    {
        // The number to 53 bits: `mantissa` units of two to the `shift`.
        let mut q: u64 = n;
        let mut unit: u64 = 1;
        let mut shift: u64 = 0;
        proof {
            power2::lemma2_to64();
        }
        while q >= 2 * LEADING
            invariant
                q == n as nat / unit as nat,
                unit == power2::pow2(shift as nat),
                1 <= unit,
                shift <= 11,
                q * unit <= n,
                excess(n as nat) == shift + excess(q as nat),
            decreases q,
        {
            proof {
                assert(unit < 0x800) by (nonlinear_arith)
                    requires
                        q * unit <= n,
                        q >= 0x20_0000_0000_0000,
                        n <= 0xffff_ffff_ffff_ffff,
                ;
                quotient_halves(n as nat, unit as nat);
                power2::lemma_pow2_unfold((shift + 1) as nat);
                power2::lemma2_to64();
                if shift >= 11 {
                    if shift > 11 {
                        power2::lemma_pow2_strictly_increases(11, shift as nat);
                    }
                }
                assert((q / 2) * (2 * unit) <= q * unit) by (nonlinear_arith)
                    requires
                        q >= 0,
                        unit >= 0,
                ;
            }
            q = q / 2;
            unit = 2 * unit;
            shift = shift + 1;
        }
        let r: u64 = n % unit;
        let mut mantissa: u64 = q;
        if 2 * r > unit || (2 * r == unit && q % 2 == 1) {
            mantissa = q + 1;
        }
        let ghost whole = rounded(n as nat);
        assert(whole == mantissa * unit);
        if mantissa == 0 {
            assert(units(0) == 0);
            assert(0 * unit == 0);
            assert(0 * power2::pow2(1074) == 0);
            let zero: Double = Double { bits: 0 };
            proof {
                nearest_is_one(zero, n as int);
            }
            return zero;
        }
        let mut exponent: u64 = 1075 + shift;
        proof {
            power2::lemma_pow2_adds(shift as nat, 1074);
            assert((mantissa * unit) * power2::pow2(1074) == mantissa * (unit * power2::pow2(1074)))
                by (nonlinear_arith);
        }
        while mantissa < LEADING
            invariant
                0 < mantissa <= 2 * LEADING,
                1075 - 64 <= exponent <= 1075 + 11,
                mantissa >= power2::pow2((1075 - exponent) as nat) || exponent >= 1075,
                whole * power2::pow2(1074) == mantissa * power2::pow2((exponent - 1) as nat),
            decreases 2 * LEADING - mantissa,
        {
            proof {
                power2::lemma2_to64();
                power2::lemma_pow2_unfold((exponent - 1) as nat);
                if exponent < 1075 {
                    power2::lemma_pow2_unfold((1076 - exponent) as nat);
                    if 1075 - exponent >= 52 {
                        if 1075 - exponent > 52 {
                            power2::lemma_pow2_strictly_increases(52, (1075 - exponent) as nat);
                        }
                    }
                }
                assert(mantissa * (2 * power2::pow2((exponent - 2) as nat)) == (2 * mantissa)
                    * power2::pow2((exponent - 2) as nat)) by (nonlinear_arith);
            }
            mantissa = 2 * mantissa;
            exponent = exponent - 1;
        }
        let bits: u64 = exponent * LEADING + (mantissa - LEADING);
        let d: Double = Double { bits };
        proof {
            let l = LEADING as nat;
            if mantissa < 2 * LEADING {
                vstd::arithmetic::div_mod::lemma_fundamental_div_mod_converse(
                    bits as int,
                    l as int,
                    exponent as int,
                    mantissa - l,
                );
            } else {
                vstd::arithmetic::div_mod::lemma_fundamental_div_mod_converse(
                    bits as int,
                    l as int,
                    exponent + 1,
                    0,
                );
                power2::lemma_pow2_unfold(exponent as nat);
                assert((2 * l) * power2::pow2((exponent - 1) as nat) == l * (2 * power2::pow2(
                    (exponent - 1) as nat,
                ))) by (nonlinear_arith);
            }
            nearest_is_one(d, n as int);
        }
        d
    }

    /// The double nearest to a whole number.
    pub fn from_i64(n: i64) -> (d: Double)
        ensures
            d == double_of(n as int),
            holds(d, n as int),
    {
        if n >= 0 {
            Double::from_u64(n as u64)
        } else {
            let m: u64 = (-(n + 1)) as u64 + 1;
            let d: Double = Double::from_u64(m);
            let negated: Double = Double { bits: d.bits + SIGN };
            proof {
                nearest_is_one(negated, n as int);
            }
            negated
        }
    }
}

// ---------------------------------------------------------------------------------------------------
// What doubles are, in the plainest words.

/// A number that halves to 53 bits in `k` steps needs no more.
proof fn excess_is_small(n: nat, k: nat)
    requires
        n < 2 * LEADING * power2::pow2(k),
    ensures
        excess(n) <= k,
    decreases k,
{
    if k == 0 {
        power2::lemma2_to64();
    } else if n >= 2 * LEADING {
        power2::lemma_pow2_unfold(k);
        let p = power2::pow2((k - 1) as nat);
        let l = 2 * LEADING as nat;
        assert(n / 2 < l * p) by (nonlinear_arith)
            requires
                n < l * (2 * p),
        ;
        excess_is_small(n / 2, (k - 1) as nat);
    }
}

/// What is left of a number after its excess has no more than 53 bits.
proof fn excess_leaves_53_bits(n: nat)
    ensures
        n / power2::pow2(excess(n)) < 2 * LEADING,
    decreases n,
{
    power2::lemma2_to64();
    if n >= 2 * LEADING {
        excess_leaves_53_bits(n / 2);
        let e = excess(n / 2);
        power2::lemma_pow2_unfold(1 + e);
        power2::lemma_pow2_pos(e);
        vstd::arithmetic::div_mod::lemma_div_denominator(n as int, 2, power2::pow2(e) as int);
    } else {
        assert(n / 1 == n);
    }
}

/// A mantissa of up to 53 bits and an exponent are the value of a magnitude.
proof fn spelled(m: nat, e: nat, k: nat) -> (mag: nat)
    requires
        0 < m <= 2 * LEADING,
        m * power2::pow2(k) >= LEADING,
        k < e <= 1100,
    ensures
        mag < INFINITY,
        units(mag) == m * power2::pow2((e - 1) as nat),
    decreases k,
{
    let l = LEADING as nat;
    power2::lemma2_to64();
    if m < l {
        if k == 0 {
            assert(m * 1 == m);
            assert(false);
        }
        power2::lemma_pow2_unfold(k);
        power2::lemma_pow2_unfold((e - 1) as nat);
        let p = power2::pow2((k - 1) as nat);
        let q = power2::pow2((e - 2) as nat);
        assert((2 * m) * p == m * (2 * p)) by (nonlinear_arith);
        assert((2 * m) * q == m * (2 * q)) by (nonlinear_arith);
        spelled(2 * m, (e - 1) as nat, (k - 1) as nat)
    } else if m < 2 * l {
        let mag = e * l + (m - l) as nat;
        vstd::arithmetic::div_mod::lemma_fundamental_div_mod_converse(
            mag as int,
            l as int,
            e as int,
            m - l,
        );
        mag
    } else {
        let mag = (e + 1) * l;
        vstd::arithmetic::div_mod::lemma_fundamental_div_mod_converse(
            mag as int,
            l as int,
            (e + 1) as int,
            0,
        );
        power2::lemma_pow2_unfold(e);
        let q = power2::pow2((e - 1) as nat);
        assert((2 * l) * q == l * (2 * q)) by (nonlinear_arith);
        mag
    }
}

/// A whole number that fits 64 bits has a magnitude that holds it, as nearly as one can.
proof fn magnitude_for(n: nat) -> (mag: nat)
    requires
        n <= u64::MAX,
    ensures
        mag < INFINITY,
        units(mag) == rounded(n) * power2::pow2(1074),
{
    power2::lemma2_to64();
    let s = excess(n);
    let u = power2::pow2(s);
    excess_is_small(n, 11);
    excess_leaves_53_bits(n);
    power2::lemma_pow2_pos(s);
    let q = n / u;
    let r = n % u;
    let m: nat = if 2 * r > u || (2 * r == u && q % 2 == 1) {
        q + 1
    } else {
        q
    };
    assert(rounded(n) == m * u);
    if m == 0 {
        assert(0 * u == 0);
        assert(0 * power2::pow2(1074) == 0);
        0
    } else {
        let f = power2::pow2(1074);
        power2::lemma_pow2_adds(s, 1074);
        assert((m * u) * f == m * (u * f)) by (nonlinear_arith);
        power2::lemma2_to64_rest();
        let top = power2::pow2(52);
        assert(m * top >= top) by (nonlinear_arith)
            requires
                m >= 1,
        ;
        spelled(m, 1075 + s, 52)
    }
}

/// Every whole number that fits 64 bits, with a sign or without, is held by a finite double.
pub proof fn integers_have_doubles(n: int)
    requires
        i64::MIN <= n <= u64::MAX,
    ensures
        holds(double_of(n), n),
        double_of(n).finite(),
{
    let a = (if n >= 0 {
        n
    } else {
        -n
    }) as nat;
    let mag = magnitude_for(a);
    let d = Double {
        bits: (if n >= 0 {
            mag as int
        } else {
            mag + SIGN
        }) as u64,
    };
    assert(d.magnitude() == mag);
    assert(holds(d, n));
}

/// A whole number of no more than 53 bits is held exactly: as many units as it has, no more and no fewer.
pub proof fn small_integers_are_exact(n: int)
    requires
        -9_007_199_254_740_992 < n < 9_007_199_254_740_992,
    ensures
        double_of(n).value() == n * power2::pow2(1074),
        n == 0 ==> double_of(n) == (Double { bits: 0 }),
{
    integers_have_doubles(n);
    power2::lemma2_to64();
    let a = (if n >= 0 {
        n
    } else {
        -n
    }) as nat;
    assert(excess(a) == 0);
    assert(a / 1 == a && a % 1 == 0);
    assert(rounded(a) == a * 1);
    let f = power2::pow2(1074) as int;
    assert(n < 0 ==> -(a * f) == n * f) by (nonlinear_arith)
        requires
            n < 0 ==> a == -n,
    ;
    if n == 0 {
        assert(0 * f == 0);
        let d = double_of(n);
        if d.magnitude() > 0 {
            units_increase(0, d.magnitude());
        }
    }
}

/// A whole number of more than 53 bits is held as the nearest that there is: no further off than half of the
/// step from one such number to the next.
pub proof fn large_integers_are_nearly_held(n: nat)
    requires
        n <= u64::MAX,
    ensures
        double_of(n as int).value() == rounded(n) * power2::pow2(1074),
        -(power2::pow2(excess(n))) <= 2 * (rounded(n) - n) <= power2::pow2(excess(n)),
        n < 9_007_199_254_740_992 * power2::pow2(excess(n)),
        excess(n) > 0 ==> n >= 4_503_599_627_370_496 * power2::pow2(excess(n)),
{
    integers_have_doubles(n as int);
    let u = power2::pow2(excess(n));
    power2::lemma_pow2_pos(excess(n));
    excess_leaves_53_bits(n);
    excess_is_needed(n);
    let q = n / u;
    let r = n % u;
    vstd::arithmetic::div_mod::lemma_fundamental_div_mod(n as int, u as int);
    assert(u * q == q * u) by (nonlinear_arith);
    assert((q + 1) * u == q * u + u) by (nonlinear_arith);
    assert(q * u + r < 9_007_199_254_740_992 * u) by (nonlinear_arith)
        requires
            q < 9_007_199_254_740_992,
            r < u,
    ;
}

/// A number is halved only while it has more than 53 bits.
proof fn excess_is_needed(n: nat)
    ensures
        excess(n) > 0 ==> n >= 4_503_599_627_370_496 * power2::pow2(excess(n)),
    decreases n,
{
    power2::lemma2_to64();
    if n >= 2 * LEADING {
        excess_is_needed(n / 2);
        let e = excess(n / 2);
        power2::lemma_pow2_unfold(1 + e);
        let p = power2::pow2(e);
        if e > 0 {
            assert(n >= 4_503_599_627_370_496 * (2 * p)) by (nonlinear_arith)
                requires
                    n / 2 >= 4_503_599_627_370_496 * p,
            ;
        }
    }
}

/// What the bits of a double are: a sign, eleven bits of exponent and 52 of fraction. Numbers go up to the
/// infinities; without the sign they compare as their bits do, and a sign turns them round. A finite number
/// is its fraction, or a leading one and its fraction times a power of two.
pub proof fn doubles_are_their_bits(d: Double)
    ensures
        d.negative() <==> d.bits >= 0x8000_0000_0000_0000,
        d.bits < 0x8000_0000_0000_0000 ==> d.magnitude() == d.bits && d.rank() == d.bits,
        d.bits >= 0x8000_0000_0000_0000 ==> d.magnitude() == d.bits - 0x8000_0000_0000_0000
            && d.rank() == 0x8000_0000_0000_0000 - d.bits,
        d.ordered() <==> d.magnitude() <= 0x7ff0_0000_0000_0000,
        d.finite() <==> d.magnitude() < 0x7ff0_0000_0000_0000,
        d.magnitude() < 0x10_0000_0000_0000 ==> units(d.magnitude()) == d.magnitude(),
        d.magnitude() >= 0x10_0000_0000_0000 ==> units(d.magnitude()) == (0x10_0000_0000_0000
            + d.magnitude() % 0x10_0000_0000_0000) * power2::pow2(
            (d.magnitude() / 0x10_0000_0000_0000 - 1) as nat,
        ),
        d.value() == units(d.magnitude()) || d.value() == -units(d.magnitude()),
        d.value() < 0 ==> d.negative(),
        d.negative() ==> d.value() <= 0,
        d.unsigned_zero() == d || d.magnitude() == 0,
        d.magnitude() == 0 ==> d.unsigned_zero() == (Double { bits: 0 }),
{
}

/// The threshold from which on a title counts as watched is 95 in 100, as nearly as a double can hold it.
pub proof fn the_threshold_is_95_in_100()
    ensures
        (Double { bits: WATCHED }).finite(),
        WATCHED == 0x3fee_6666_6666_6666,
        0x10_0000_0000_0000 + WATCHED % 0x10_0000_0000_0000 == 8_556_839_292_003_942,
        WATCHED / 0x10_0000_0000_0000 == 1022,
        -10 <= 20 * 8_556_839_292_003_942 - 19 * 9_007_199_254_740_992 <= 10,
{
}

/// Of the whole numbers zero and one alone are not below nothing and not above one whole; the others are
/// beyond.
pub proof fn whole_numbers_among_fractions(n: int)
    requires
        i64::MIN <= n <= u64::MAX,
    ensures
        n == 0 ==> double_of(n).bits == 0,
        n == 1 ==> double_of(n).bits == 0x3ff0_0000_0000_0000,
        n > 1 ==> 0x3ff0_0000_0000_0000 < double_of(n).bits < 0x7ff0_0000_0000_0000,
        n < 0 ==> 0x8000_0000_0000_0000 < double_of(n).bits < 0xfff0_0000_0000_0000,
{
    integers_have_doubles(n);
    power2::lemma2_to64();
    power2::lemma2_to64_rest();
    let d = double_of(n);
    let one = Double { bits: 0x3ff0_0000_0000_0000 };
    let a = (if n >= 0 {
        n
    } else {
        -n
    }) as nat;
    let f = power2::pow2(1074);
    power2::lemma_pow2_pos(1074);
    assert(one.value() == f) by {
        assert(0x3ff0_0000_0000_0000u64 % SIGN == 0x3ff0_0000_0000_0000u64);
        assert(one.magnitude() == 0x3ff0_0000_0000_0000);
        assert(0x3ff0_0000_0000_0000nat / (LEADING as nat) == 1023);
        assert(0x3ff0_0000_0000_0000nat % (LEADING as nat) == 0);
        assert(units(one.magnitude()) == (LEADING as nat) * power2::pow2(1022));
        power2::lemma_pow2_adds(52, 1022);
        assert(power2::pow2(52) == LEADING);
    }
    if n == 0 {
        small_integers_are_exact(n);
    } else {
        if a < 9_007_199_254_740_992 {
            assert(excess(a) == 0);
            assert(a / 1 == a && a % 1 == 0);
            assert(rounded(a) == a * 1);
        } else {
            large_integers_are_nearly_held(a);
            let u = power2::pow2(excess(a));
            assert(rounded(a) >= 2) by (nonlinear_arith)
                requires
                    -u <= 2 * (rounded(a) - a),
                    a < 9_007_199_254_740_992 * u,
                    a >= 4_503_599_627_370_496 * u || u == 1,
                    a >= 9_007_199_254_740_992,
                    u >= 1,
            ;
        }
        let r = rounded(a);
        assert(r >= a || r >= 2);
        assert(r * f >= f) by (nonlinear_arith)
            requires
                r >= 1,
        ;
        assert(r >= 2 ==> r * f > f) by (nonlinear_arith)
            requires
                f >= 1,
        ;
        ranks_order_values(d, one);
        ranks_order_values(one, d);
        if n == 1 {
            assert(r * f == f) by (nonlinear_arith)
                requires
                    r == 1,
            ;
        }
        if n < 0 {
            let zero = Double { bits: 0 };
            ranks_order_values(d, zero);
        }
    }
}

/// A whole number half way between two that doubles hold is held as the one that is an even number of steps.
pub proof fn halves_go_to_the_even_one(n: nat)
    requires
        2 * (n % power2::pow2(excess(n))) == power2::pow2(excess(n)),
    ensures
        exists|k: nat| rounded(n) == #[trigger] (2 * k * power2::pow2(excess(n))),
{
    let u = power2::pow2(excess(n));
    let q = n / u;
    power2::lemma_pow2_pos(excess(n));
    if q % 2 == 1 {
        let k = (q + 1) / 2;
        assert(2 * k == q + 1);
        assert(rounded(n) == 2 * k * u);
    } else {
        let k = q / 2;
        assert(2 * k == q);
        assert(rounded(n) == 2 * k * u);
    }
}

/// A whole number and its negative are held as far from zero as each other, on either side.
pub proof fn negatives_mirror(n: int)
    requires
        0 < n <= 0x8000_0000_0000_0000,
    ensures
        double_of(-n).value() == -double_of(n).value(),
        double_of(-n).negative(),
        !double_of(n).negative(),
{
    integers_have_doubles(n);
    integers_have_doubles(-n);
}

} // verus!
