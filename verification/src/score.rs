//! Similarity scores: single-precision numbers, held as their IEEE 754 bit patterns so that they
//! can be ordered and compared exactly.
use vstd::prelude::*;
use vstd::arithmetic::power2::pow2;

verus! {

/// A single-precision number, by its bit pattern: the sign in the highest bit, then eight bits of
/// exponent and twenty-three of fraction.
#[derive(Debug, Clone, Copy, PartialEq, Eq, Structural)]
pub struct Score {
    pub bits: u32,
}

/// The bit pattern of `0.20`, the score below which nothing that was found counts as an answer.
pub const FLOOR_BITS: u32 = 0x3e4c_cccd;

/// The bit pattern of the least finite score.
pub const LEAST_BITS: u32 = 0xff7f_ffff;

impl Score {
    /// The bit pattern without the sign.
    pub open spec fn magnitude(self) -> int {
        if self.bits < 0x8000_0000 {
            self.bits as int
        } else {
            self.bits - 0x8000_0000
        }
    }

    /// Whether the bit pattern is that of a number: its magnitude is at most that of infinity.
    pub open spec fn number(self) -> bool {
        self.magnitude() <= 0x7f80_0000
    }

    /// Where the number stands among all numbers. Of two numbers the lesser one has the lesser
    /// rank; `0.0` and `-0.0` have the same.
    pub open spec fn rank(self) -> int {
        if self.bits < 0x8000_0000 {
            self.magnitude()
        } else {
            -self.magnitude()
        }
    }

    /// Whether `self < other`. Nothing is less than what is no number, and that is less than
    /// nothing.
    pub open spec fn less(self, other: Score) -> bool {
        self.number() && other.number() && self.rank() < other.rank()
    }

    /// Whether this is a number.
    pub fn is_number(&self) -> (r: bool)
        ensures
            r == self.number(),
    {
        if self.bits < 0x8000_0000 {
            self.bits <= 0x7f80_0000
        } else {
            self.bits - 0x8000_0000 <= 0x7f80_0000
        }
    }

    /// The rank of the number.
    pub fn rank_value(&self) -> (r: i64)
        ensures
            r == self.rank(),
            -0x8000_0000 < r < 0x8000_0000,
    {
        if self.bits < 0x8000_0000 {
            self.bits as i64
        } else {
            -((self.bits - 0x8000_0000) as i64)
        }
    }

    /// Whether `self < other`.
    pub fn is_less(&self, other: &Score) -> (r: bool)
        ensures
            r == self.less(*other),
    {
        self.is_number() && other.is_number() && self.rank_value() < other.rank_value()
    }
}

/// `q`, or the next integer where the remainder `r` out of `unit` is more than half, or half with
/// `q` odd.
pub open spec fn half_even(q: int, r: int, unit: int) -> int {
    if 2 * r > unit || (2 * r == unit && q % 2 == 1) {
        q + 1
    } else {
        q
    }
}

/// The power of two that an integer of more than twenty-four bits is rounded to a multiple of.
pub open spec fn rounding_unit(n: nat) -> nat
    decreases n,
{
    if n < 0x100_0000 {
        1
    } else {
        2 * rounding_unit(n / 2)
    }
}

/// The single-precision number nearest to `n`, which is an integer too.
pub open spec fn nearest_integer(n: nat) -> nat {
    let unit = rounding_unit(n) as int;
    (half_even(n as int / unit, n as int % unit, unit) * unit) as nat
}

/// The bit pattern of the single-precision number nearest to `num / den / 2^lift`, for
/// `0 < num <= den`.
pub open spec fn quotient_bits(num: nat, den: nat, lift: nat) -> int
    decreases
            if num >= den * 0x80_0000 {
                0
            } else {
                den * 0x80_0000 - num
            },
{
    if num == 0 || num >= den * 0x80_0000 {
        (150 - lift) * 0x80_0000 + half_even(
            num as int / den as int,
            num as int % den as int,
            den as int,
        ) - 0x80_0000
    } else {
        quotient_bits(2 * num, den, lift + 1)
    }
}

/// The share of `part` in `whole` as a score: each of the two is rounded to single precision, and
/// so is their quotient.
pub open spec fn share(part: nat, whole: nat) -> Score {
    if part == 0 || whole == 0 {
        Score { bits: 0 }
    } else {
        Score { bits: quotient_bits(nearest_integer(part), nearest_integer(whole), 0) as u32 }
    }
}

proof fn lemma_unit(n: nat)
    ensures
        rounding_unit(n) >= 1,
        n < 0x100_0000 * rounding_unit(n),
        rounding_unit(n) == 1 || n >= 0x80_0000 * rounding_unit(n),
    decreases n,
{
    if n >= 0x100_0000 {
        lemma_unit(n / 2);
    }
}

proof fn lemma_units_grow(n: nat, m: nat)
    requires
        n <= m,
    ensures
        rounding_unit(n) == rounding_unit(m) || 2 * rounding_unit(n) <= rounding_unit(m),
    decreases m,
{
    lemma_unit(m);
    if m >= 0x100_0000 {
        if n >= 0x100_0000 {
            lemma_units_grow(n / 2, m / 2);
        } else {
            lemma_unit(m / 2);
        }
    }
}

proof fn lemma_quotient_of(n: int, unit: int, low: int, high: int)
    by (nonlinear_arith)
    requires
        unit > 0,
        low * unit <= n < high * unit,
    ensures
        low <= n / unit < high,
{
}

/// Rounding to single precision keeps the order of integers.
proof fn lemma_nearest_monotone(n: nat, m: nat)
    requires
        n <= m,
    ensures
        nearest_integer(n) <= nearest_integer(m),
{
    let u = rounding_unit(n) as int;
    let v = rounding_unit(m) as int;
    lemma_unit(n);
    lemma_unit(m);
    lemma_units_grow(n, m);
    lemma_quotient_of(n as int, u, 0, 0x100_0000);
    let p = half_even(n as int / u, n as int % u, u);
    let q = half_even(m as int / v, m as int % v, v);
    if u == v {
        vstd::arithmetic::div_mod::lemma_div_is_ordered(n as int, m as int, u);
        if n as int / u == m as int / u {
            vstd::arithmetic::div_mod::lemma_fundamental_div_mod(n as int, u);
            vstd::arithmetic::div_mod::lemma_fundamental_div_mod(m as int, u);
        }
        assert(p <= q);
        assert(p * u <= q * u) by (nonlinear_arith)
            requires
                p <= q,
                u >= 1,
        ;
    } else {
        lemma_quotient_of(m as int, v, 0x80_0000, 0x100_0000);
        assert(p * u <= q * v) by (nonlinear_arith)
            requires
                p <= 0x100_0000,
                q >= 0x80_0000,
                u >= 1,
                2 * u <= v,
        ;
    }
    assert(p * u >= 0 && q * v >= 0) by (nonlinear_arith)
        requires
            p >= 0,
            q >= 0,
            u >= 1,
            v >= 1,
    ;
}

proof fn lemma_nearest_bounds(n: nat)
    ensures
        n <= 0x2_0000_0000_0000_0000 ==> nearest_integer(n) <= 0x2_0000_0000_0000_0000,
        n > 0 ==> nearest_integer(n) > 0,
{
    if n > 0 {
        lemma_nearest_monotone(1, n);
        assert(rounding_unit(1) == 1);
    }
    if n <= 0x2_0000_0000_0000_0000 {
        let m: nat = 0x2_0000_0000_0000_0000;
        let unit = rounding_unit(m) as int;
        lemma_nearest_monotone(n, m);
        assert(unit == 0x400_0000_0000) by {
            reveal_with_fuel(rounding_unit, 43);
        }
        assert(m as int / unit == 0x80_0000 && m as int % unit == 0);
        assert(nearest_integer(m) == m);
    }
}

/// The share of something in a whole that is not too large is a number above `0.0` and at most
/// `1.0`.
pub proof fn share_is_positive(part: nat, whole: nat)
    requires
        0 < part <= whole <= 0x2_0000_0000_0000_0000,
    ensures
        share(part, whole).number(),
        0 < share(part, whole).rank() <= 0x3f80_0000,
{
    lemma_nearest_monotone(part, whole);
    lemma_nearest_bounds(part);
    lemma_nearest_bounds(whole);
    assert(pow2(0) == 1) by {
        vstd::arithmetic::power2::lemma2_to64();
    }
    lemma_quotient_bits(nearest_integer(part), nearest_integer(whole), 0);
}

/// Rounding to single precision gives a multiple of the unit that is off by at most half a unit,
/// and an even multiple where it is off by just half.
pub proof fn integers_are_rounded_to_the_nearest(n: nat)
    ensures
        ({
            let unit = rounding_unit(n) as int;
            let q = nearest_integer(n) as int / unit;
            let off = 2 * (n - nearest_integer(n));
            &&& nearest_integer(n) as int == q * unit
            &&& -unit <= off <= unit
            &&& off == unit || off == -unit ==> q % 2 == 0
        }),
{
    let unit = rounding_unit(n) as int;
    lemma_unit(n);
    lemma_quotient_of(n as int, unit, 0, 0x100_0000);
    lemma_half_even(n as int, unit);
    let q = half_even(n as int / unit, n as int % unit, unit);
    assert(q * unit >= 0) by (nonlinear_arith)
        requires
            q >= 0,
            unit >= 1,
    ;
    vstd::arithmetic::div_mod::lemma_div_multiples_vanish(q, unit);
    assert(unit * q == q * unit) by (nonlinear_arith);
}

/// Half-even rounding of a quotient is off by at most half, and even where it is off by just half.
proof fn lemma_half_even(n: int, unit: int)
    requires
        n >= 0,
        unit >= 1,
    ensures
        ({
            let q = half_even(n / unit, n % unit, unit);
            let off = 2 * (n - q * unit);
            &&& -unit <= off <= unit
            &&& off == unit || off == -unit ==> q % 2 == 0
        }),
{
    let q = n / unit;
    let r = n % unit;
    vstd::arithmetic::div_mod::lemma_fundamental_div_mod(n, unit);
    assert(unit * q == q * unit) by (nonlinear_arith);
    assert((q + 1) * unit == q * unit + unit) by (nonlinear_arith);
}

/// The twenty-four leading binary digits of a normal number.
pub open spec fn significand(s: Score) -> int {
    s.bits as int % 0x80_0000 + 0x80_0000
}

/// How many of the binary digits of a normal number below `2.0` stand behind the point.
pub open spec fn places(s: Score) -> int {
    150 - s.bits as int / 0x80_0000
}

/// A share is the number of twenty-four binary digits nearest to the quotient: `significand`
/// divided by two to the power of `places`. It is off by at most half a unit of its last place, and
/// its last digit is zero where it is off by just half.
pub proof fn shares_are_rounded_to_the_nearest(part: nat, whole: nat)
    requires
        0 < part <= whole <= 0x2_0000_0000_0000_0000,
    ensures
        ({
            let num = nearest_integer(part);
            let den = nearest_integer(whole);
            let s = share(part, whole);
            let off = 2 * (num * pow2(places(s) as nat) - significand(s) * den);
            &&& places(s) >= 23
            &&& -den <= off <= den
            &&& off == den || off == -den ==> significand(s) % 2 == 0
        }),
{
    let num = nearest_integer(part);
    let den = nearest_integer(whole);
    lemma_nearest_monotone(part, whole);
    lemma_nearest_bounds(part);
    lemma_nearest_bounds(whole);
    vstd::arithmetic::power2::lemma2_to64();
    lemma_quotient_bits(num, den, 0);
    lemma_quotient_is_nearest(num, den, 0);
}

proof fn lemma_quotient_is_nearest(num: nat, den: nat, lift: nat)
    requires
        0 < num < den * 0x100_0000,
        den <= 0x2_0000_0000_0000_0000,
        lift <= 88,
        pow2(lift) <= num,
        lift <= 23 ==> num <= den * pow2(lift),
    ensures
        ({
            let bits = quotient_bits(num, den, lift);
            let m = bits % 0x80_0000 + 0x80_0000;
            let k = 150 - bits / 0x80_0000;
            let off = 2 * (num * pow2(k as nat) - m * (den * pow2(lift)));
            &&& k >= 23
            &&& -(den * pow2(lift)) <= off <= den * pow2(lift)
            &&& off == den * pow2(lift) || off == -(den * pow2(lift)) ==> m % 2 == 0
        }),
    decreases 89 - lift,
{
    let bits = quotient_bits(num, den, lift);
    let m = bits % 0x80_0000 + 0x80_0000;
    let k = 150 - bits / 0x80_0000;
    vstd::arithmetic::power2::lemma2_to64();
    vstd::arithmetic::power2::lemma_pow2_adds(64, 24);
    lemma_quotient_bits(num, den, lift);
    let p = pow2(lift) as int;
    let d = den as int;
    let n = num as int;
    if num >= den * 0x80_0000 {
        lemma_quotient_of(n, d, 0x80_0000, 0x100_0000);
        lemma_half_even(n, d);
        let v = half_even(n / d, n % d, d);
        vstd::arithmetic::power2::lemma_pow2_pos(lift);
        let off = 2 * (n - v * d);
        assert(2 * (n * p - v * (d * p)) == off * p) by (nonlinear_arith)
            requires
                off == 2 * (n - v * d),
        ;
        assert(-(d * p) <= off * p <= d * p) by (nonlinear_arith)
            requires
                -d <= off <= d,
                p >= 1,
        ;
        if v < 0x100_0000 {
            assert(m == v && k == lift);
            if off * p == d * p || off * p == -(d * p) {
                assert(off == d || off == -d) by (nonlinear_arith)
                    requires
                        off * p == d * p || off * p == -(d * p),
                        p >= 1,
                ;
            }
        } else {
            assert(v == 0x100_0000);
            assert(m == 0x80_0000 && k == lift - 1);
            vstd::arithmetic::power2::lemma_pow2_unfold(lift);
            let h = pow2(k as nat) as int;
            assert(p == 2 * h);
            assert(2 * (2 * (n * h - 0x80_0000 * (d * p))) == 2 * (n * p - 0x100_0000 * (d * p)))
                by (nonlinear_arith)
                requires
                    p == 2 * h,
            ;
            assert(d * p >= 0) by (nonlinear_arith)
                requires
                    d >= 0,
                    p >= 0,
            ;
        }
    } else {
        if lift == 88 {
            assert(den * 0x80_0000 <= pow2(88));
        }
        vstd::arithmetic::power2::lemma_pow2_unfold(lift + 1);
        assert(2 * (den * pow2(lift)) == den * (2 * pow2(lift))) by (nonlinear_arith);
        lemma_quotient_is_nearest(2 * num, den, lift + 1);
        let h = pow2(k as nat) as int;
        assert(2 * ((2 * n) * h - m * (2 * (d * p))) == 2 * (2 * (n * h - m * (d * p))))
            by (nonlinear_arith);
    }
}

/// The share of a whole in itself is `1.0`.
pub proof fn share_of_the_whole_is_one(whole: nat)
    requires
        whole > 0,
    ensures
        share(whole, whole) == (Score { bits: 0x3f80_0000 }),
{
    lemma_nearest_bounds(whole);
    vstd::arithmetic::power2::lemma2_to64();
    lemma_even_quotient(nearest_integer(whole), 0);
}

proof fn lemma_even_quotient(den: nat, lift: nat)
    requires
        den > 0,
        lift <= 23,
    ensures
        quotient_bits(den * pow2(lift), den, lift) == 0x3f80_0000,
    decreases 23 - lift,
{
    vstd::arithmetic::power2::lemma2_to64();
    if lift == 23 {
        lemma_quotient_of(den as int * 0x80_0000, den as int, 0x80_0000, 0x80_0001);
        vstd::arithmetic::div_mod::lemma_mod_multiples_basic(0x80_0000, den as int);
    } else {
        vstd::arithmetic::power2::lemma_pow2_strictly_increases(lift, 23);
        vstd::arithmetic::power2::lemma_pow2_pos(lift);
        vstd::arithmetic::power2::lemma_pow2_unfold(lift + 1);
        assert(0 < den * pow2(lift) < den * 0x80_0000) by (nonlinear_arith)
            requires
                den > 0,
                0 < pow2(lift) < 0x80_0000,
        ;
        assert(2 * (den * pow2(lift)) == den * (2 * pow2(lift))) by (nonlinear_arith);
        lemma_even_quotient(den, lift + 1);
    }
}

proof fn lemma_quotient_bits(num: nat, den: nat, lift: nat)
    requires
        0 < num < den * 0x100_0000,
        den <= 0x2_0000_0000_0000_0000,
        lift <= 88,
        pow2(lift) <= num,
        lift <= 23 ==> num <= den * pow2(lift),
    ensures
        0 < quotient_bits(num, den, lift) <= 0x3f80_0000,
    decreases 89 - lift,
{
    vstd::arithmetic::power2::lemma2_to64();
    vstd::arithmetic::power2::lemma_pow2_adds(64, 24);
    if num >= den * 0x80_0000 {
        lemma_quotient_of(num as int, den as int, 0x80_0000, 0x100_0000);
        if lift < 23 {
            vstd::arithmetic::power2::lemma_pow2_strictly_increases(lift, 23);
            assert(den * pow2(lift) < den * 0x80_0000) by (nonlinear_arith)
                requires
                    den > 0,
                    pow2(lift) < 0x80_0000,
            ;
        }
        if lift == 23 {
            lemma_quotient_of(num as int, den as int, 0x80_0000, 0x80_0001);
            vstd::arithmetic::div_mod::lemma_mod_multiples_basic(0x80_0000, den as int);
        }
    } else {
        if lift == 88 {
            assert(den * 0x80_0000 <= pow2(88));
        }
        vstd::arithmetic::power2::lemma_pow2_unfold(lift + 1);
        assert(2 * (den * pow2(lift)) == den * (2 * pow2(lift))) by (nonlinear_arith);
        lemma_quotient_bits(2 * num, den, lift + 1);
    }
}

fn unit_for(n: u128) -> (r: u128)
    ensures
        r == rounding_unit(n as nat),
        r == 1 || r <= n,
    decreases n,
{
    proof {
        lemma_unit(n as nat);
    }
    if n < 0x100_0000 {
        1
    } else {
        let half = unit_for(n / 2);
        2 * half
    }
}

fn round_half_even(q: u128, r: u128, unit: u128) -> (v: u128)
    requires
        r < unit <= 0x2_0000_0000_0000_0000,
        q < u128::MAX,
    ensures
        v == half_even(q as int, r as int, unit as int),
{
    if 2 * r > unit || (2 * r == unit && q % 2 == 1) {
        q + 1
    } else {
        q
    }
}

fn nearest_to(n: u128) -> (r: u128)
    requires
        n <= 0x2_0000_0000_0000_0000,
    ensures
        r == nearest_integer(n as nat),
        r <= 0x2_0000_0000_0000_0000,
        n > 0 ==> r > 0,
{
    let unit = unit_for(n);
    proof {
        lemma_unit(n as nat);
        lemma_nearest_bounds(n as nat);
        lemma_quotient_of(n as int, unit as int, 0, 0x100_0000);
        let q = half_even(n as int / unit as int, n as int % unit as int, unit as int);
        assert(q * (unit as int) >= 0) by (nonlinear_arith)
            requires
                q >= 0,
                unit >= 1,
        ;
    }
    let q = round_half_even(n / unit, n % unit, unit);
    q * unit
}

/// The share of `part` in `whole`, as a score.
pub fn share_of(part: u128, whole: u128) -> (r: Score)
    requires
        part <= whole <= 0x2_0000_0000_0000_0000,
    ensures
        r == share(part as nat, whole as nat),
        r.number(),
        part > 0 ==> r.rank() > 0,
        0 <= r.rank() <= 0x3f80_0000,
{
    if part == 0 {
        return Score { bits: 0 };
    }
    let mut num: u128 = nearest_to(part);
    let den: u128 = nearest_to(whole);
    proof {
        lemma_nearest_monotone(part as nat, whole as nat);
        vstd::arithmetic::power2::lemma2_to64();
        vstd::arithmetic::power2::lemma_pow2_adds(64, 24);
        vstd::arithmetic::power2::lemma_pow2_adds(1, 23);
        assert(pow2(0) == 1);
    }
    let mut lift: u32 = 0;
    while num < den * 0x80_0000
        invariant
            0 < num < den * 0x100_0000,
            den <= 0x2_0000_0000_0000_0000,
            lift <= 88,
            pow2(lift as nat) <= num,
            lift <= 23 ==> num <= den * pow2(lift as nat),
            pow2(23) == 0x80_0000,
            pow2(88) == 0x2_0000_0000_0000_0000 * 0x80_0000,
            quotient_bits(num as nat, den as nat, lift as nat) == quotient_bits(
                nearest_integer(part as nat),
                nearest_integer(whole as nat),
                0,
            ),
        decreases 89 - lift,
    {
        proof {
            if lift == 88 {
                assert(den * 0x80_0000 <= pow2(88));
            }
            vstd::arithmetic::power2::lemma_pow2_unfold((lift + 1) as nat);
            assert(2 * (den * pow2(lift as nat)) == den * (2 * pow2(lift as nat)))
                by (nonlinear_arith);
        }
        num = num * 2;
        lift += 1;
    }
    proof {
        lemma_quotient_of(num as int, den as int, 0x80_0000, 0x100_0000);
        if lift < 23 {
            vstd::arithmetic::power2::lemma_pow2_strictly_increases(lift as nat, 23);
            assert(den * pow2(lift as nat) < den * 0x80_0000) by (nonlinear_arith)
                requires
                    den > 0,
                    pow2(lift as nat) < 0x80_0000,
            ;
        }
        if lift == 23 {
            lemma_quotient_of(num as int, den as int, 0x80_0000, 0x80_0001);
            vstd::arithmetic::div_mod::lemma_mod_multiples_basic(0x80_0000, den as int);
        }
    }
    let q = round_half_even(num / den, num % den, den);
    let bits: u32 = (150 - lift) * 0x80_0000 + (q as u32 - 0x80_0000);
    Score { bits }
}

/// What a bit pattern stands for: above `0x7f80_0000`, without the sign, for no number; of two
/// numbers with the sign bit clear, the one with the lesser pattern is the lesser; with the sign
/// bit set, it is the greater; and one with the bit set is less than one without, unless both are
/// zero.
pub proof fn patterns_order_the_numbers(a: Score, b: Score)
    ensures
        a.bits < 0x8000_0000 ==> (a.number() <==> a.bits <= 0x7f80_0000),
        a.bits >= 0x8000_0000 ==> (a.number() <==> a.bits <= 0xff80_0000),
        !a.number() || !b.number() ==> !a.less(b),
        a.number() && b.number() && a.bits < 0x8000_0000 && b.bits < 0x8000_0000 ==> (a.less(b)
            <==> a.bits < b.bits),
        a.number() && b.number() && a.bits >= 0x8000_0000 && b.bits >= 0x8000_0000 ==> (a.less(b)
            <==> a.bits > b.bits),
        a.number() && b.number() && a.bits >= 0x8000_0000 && b.bits < 0x8000_0000 ==> (a.less(b)
            <==> !(a.bits == 0x8000_0000 && b.bits == 0)),
        a.bits < 0x8000_0000 && b.bits >= 0x8000_0000 ==> !a.less(b),
        a.rank() == b.rank() <==> a.bits == b.bits || (a.rank() == 0 && b.rank() == 0),
        a.rank() == 0 <==> a.bits == 0 || a.bits == 0x8000_0000,
        a.number() && b.number() ==> (a.less(b) <==> a.rank() < b.rank()),
{
}

/// An integer is rounded to a multiple of the power of two that leaves it twenty-four binary
/// digits, and not at all where it has no more.
pub proof fn integers_keep_twenty_four_digits(n: nat)
    ensures
        exists|k: nat| rounding_unit(n) == #[trigger] pow2(k),
        n < 0x100_0000 * rounding_unit(n),
        n >= 0x100_0000 ==> n >= 0x80_0000 * rounding_unit(n),
        n < 0x100_0000 ==> nearest_integer(n) == n,
    decreases n,
{
    lemma_unit(n);
    if n < 0x100_0000 {
        vstd::arithmetic::power2::lemma2_to64();
        assert(rounding_unit(n) == pow2(0));
    } else {
        integers_keep_twenty_four_digits(n / 2);
        let k = choose|k: nat| rounding_unit(n / 2) == #[trigger] pow2(k);
        vstd::arithmetic::power2::lemma_pow2_unfold(k + 1);
        assert(rounding_unit(n) == pow2(k + 1));
        if rounding_unit(n) == 1 {
            lemma_unit(n / 2);
        }
    }
}

/// Nothing has no share in anything.
pub proof fn nothing_has_no_share(whole: nat)
    ensures
        share(0, whole) == (Score { bits: 0 }),
{
}

} // verus!
