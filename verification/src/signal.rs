//! Measured numbers.
//!
//! A measurement arrives as an IEEE 754 number. The decisions of this library only compare
//! measurements and test their range, so they work on the number's bit pattern; arithmetic on
//! measurements is left to whoever reads the sensors.
use vstd::prelude::*;

verus! {

/// The size of the number with biased exponent `exponent` and fraction `fraction`, in units of the
/// smallest positive number of its format. `scale` is the number of fractions per exponent.
pub open spec fn magnitude(exponent: nat, fraction: nat, scale: nat) -> nat {
    if exponent == 0 {
        fraction
    } else {
        (scale + fraction) * vstd::arithmetic::power2::pow2((exponent - 1) as nat)
    }
}

/// A larger exponent, or the same exponent with a larger fraction, is a larger number.
proof fn magnitude_is_monotone(e1: nat, f1: nat, e2: nat, f2: nat, scale: nat)
    requires
        f1 < scale,
        f2 < scale,
        e1 < e2 || (e1 == e2 && f1 < f2),
    ensures
        magnitude(e1, f1, scale) < magnitude(e2, f2, scale),
{
    if e2 > 0 {
        let p2 = vstd::arithmetic::power2::pow2((e2 - 1) as nat);
        vstd::arithmetic::power2::lemma_pow2_pos((e2 - 1) as nat);
        assert((scale + f2) * p2 >= scale * p2 && scale * p2 >= scale) by (nonlinear_arith)
            requires
                p2 > 0,
        ;
        if e1 == e2 {
            assert((scale + f1) * p2 < (scale + f2) * p2) by (nonlinear_arith)
                requires
                    p2 > 0,
                    f1 < f2,
            ;
        } else if e1 > 0 {
            let p1 = vstd::arithmetic::power2::pow2((e1 - 1) as nat);
            vstd::arithmetic::power2::lemma_pow2_pos((e1 - 1) as nat);
            vstd::arithmetic::power2::lemma_pow2_unfold(e1);
            if e1 < e2 - 1 {
                vstd::arithmetic::power2::lemma_pow2_strictly_increases(e1, (e2 - 1) as nat);
            }
            assert((scale + f1) * p1 < scale * p2) by (nonlinear_arith)
                requires
                    p1 > 0,
                    f1 < scale,
                    2 * p1 <= p2,
            ;
        }
    }
}

/// A 32-bit measurement, by its bit pattern.
#[derive(Clone, Copy, Debug, PartialEq, Eq, Structural)]
pub struct Signal {
    pub bits: u32,
}

impl Signal {
    /// Whether the sign bit is set.
    pub open spec fn negative(self) -> bool {
        self.bits >= 0x8000_0000
    }

    /// The bit pattern without its sign.
    pub open spec fn unsigned_bits(self) -> nat {
        (self.bits % 0x8000_0000) as nat
    }

    /// Whether the measurement is a number: neither infinite nor "not a number".
    pub open spec fn finite(self) -> bool {
        self.unsigned_bits() / 0x80_0000 < 255
    }

    /// The number, in units of the smallest positive number of the format.
    pub open spec fn number(self) -> int {
        let m = magnitude(
            self.unsigned_bits() / 0x80_0000,
            self.unsigned_bits() % 0x80_0000,
            0x80_0000,
        );
        if self.negative() {
            -m
        } else {
            m as int
        }
    }

    /// The place of the measurement in the total order of all bit patterns: by number, and a zero
    /// with a minus sign before one without.
    pub open spec fn order(self) -> int {
        if self.negative() {
            -1 - self.unsigned_bits()
        } else {
            self.unsigned_bits() as int
        }
    }

    /// The measurement one.
    pub open spec fn one() -> Signal {
        Signal { bits: 0x3f80_0000 }
    }

    /// The place in the total order.
    pub fn order_key(&self) -> (r: i64)
        ensures
            r == self.order(),
    {
        if self.bits >= 0x8000_0000 {
            -1 - ((self.bits % 0x8000_0000) as i64)
        } else {
            self.bits as i64
        }
    }

    /// Whether the measurement is a number.
    pub fn is_finite(&self) -> (r: bool)
        ensures
            r == self.finite(),
    {
        self.bits % 0x8000_0000 < 0x7f80_0000
    }

    /// Whether the measurement is a number of at least zero.
    pub fn is_non_negative(&self) -> (r: bool)
        ensures
            r == (self.finite() && self.number() >= 0),
    {
        let r = self.bits < 0x7f80_0000 || self.bits == 0x8000_0000;
        proof {
            if self.bits > 0x8000_0000 && self.finite() {
                let m = self.unsigned_bits();
                magnitude_is_monotone(0, 0, m / 0x80_0000, m % 0x80_0000, 0x80_0000);
            }
        }
        r
    }

    /// Whether the measurement is a number between zero and one.
    pub fn is_fraction(&self) -> (r: bool)
        ensures
            r == (self.finite() && 0 <= self.number() <= Signal::one().number()),
    {
        let r = self.bits <= 0x3f80_0000 || self.bits == 0x8000_0000;
        proof {
            let m = self.unsigned_bits();
            let e = m / 0x80_0000;
            let f = m % 0x80_0000;
            assert(Signal::one().unsigned_bits() == 0x3f80_0000);
            assert(0x3f80_0000nat / 0x80_0000 == 127 && 0x3f80_0000nat % 0x80_0000 == 0);
            if self.bits > 0x8000_0000 && self.finite() {
                magnitude_is_monotone(0, 0, e, f, 0x80_0000);
            }
            if self.bits < 0x3f80_0000 {
                magnitude_is_monotone(e, f, 127, 0, 0x80_0000);
            }
            if 0x3f80_0000 < self.bits < 0x8000_0000 {
                magnitude_is_monotone(127, 0, e, f, 0x80_0000);
            }
            if self.bits == 0x8000_0000 {
                magnitude_is_monotone(0, 0, 127, 0, 0x80_0000);
            }
        }
        r
    }
}

/// The total order on measurements agrees with the order of the numbers they stand for.
pub proof fn order_follows_number(a: Signal, b: Signal)
    requires
        a.finite(),
        b.finite(),
    ensures
        a.number() < b.number() ==> a.order() < b.order(),
        a.order() <= b.order() ==> a.number() <= b.number(),
{
    let ma = a.unsigned_bits();
    let mb = b.unsigned_bits();
    if ma < mb {
        magnitude_is_monotone(
            ma / 0x80_0000,
            ma % 0x80_0000,
            mb / 0x80_0000,
            mb % 0x80_0000,
            0x80_0000,
        );
    } else if mb < ma {
        magnitude_is_monotone(
            mb / 0x80_0000,
            mb % 0x80_0000,
            ma / 0x80_0000,
            ma % 0x80_0000,
            0x80_0000,
        );
    }
}

/// A 64-bit reading of a counter or gauge, by its bit pattern.
#[derive(Clone, Copy, Debug, PartialEq, Eq, Structural)]
pub struct Reading {
    pub bits: u64,
}

impl Reading {
    /// Whether the sign bit is set.
    pub open spec fn negative(self) -> bool {
        self.bits >= 0x8000_0000_0000_0000
    }

    /// The bit pattern without its sign.
    pub open spec fn unsigned_bits(self) -> nat {
        (self.bits % 0x8000_0000_0000_0000) as nat
    }

    /// Whether the reading is "not a number".
    pub open spec fn not_a_number(self) -> bool {
        self.unsigned_bits() > 0x7ff0_0000_0000_0000
    }

    /// Whether the reading is infinite, in either direction.
    pub open spec fn infinite(self) -> bool {
        self.unsigned_bits() == 0x7ff0_0000_0000_0000
    }

    /// The number, in units of the smallest positive number of the format. An infinite reading is
    /// given a number beyond all finite ones.
    pub open spec fn number(self) -> int {
        let m = magnitude(
            self.unsigned_bits() / 0x10_0000_0000_0000,
            self.unsigned_bits() % 0x10_0000_0000_0000,
            0x10_0000_0000_0000,
        );
        if self.negative() {
            -m
        } else {
            m as int
        }
    }

    /// Whether the difference from `self` to `later` is a number of at least zero.
    pub open spec fn grows_to(self, later: Reading) -> bool {
        &&& !self.not_a_number()
        &&& !later.not_a_number()
        &&& !(self.infinite() && self.bits == later.bits)
        &&& self.number() <= later.number()
    }

    /// Whether the counter went up, or stood still, from `self` to `later`. A counter that was
    /// reset in between, or was not a number at either end, did not.
    pub fn grew_to(&self, later: &Reading) -> (r: bool)
        ensures
            r == self.grows_to(*later),
    {
        let half: u64 = 0x8000_0000_0000_0000;
        let limit: u64 = 0x7ff0_0000_0000_0000;
        let a: u64 = self.bits % half;
        let b: u64 = later.bits % half;
        proof {
            let (ma, mb) = (a as nat, b as nat);
            let s: nat = 0x10_0000_0000_0000;
            if ma < mb {
                magnitude_is_monotone(ma / s, ma % s, mb / s, mb % s, s);
            } else if mb < ma {
                magnitude_is_monotone(mb / s, mb % s, ma / s, ma % s, s);
            }
            if 0 < ma {
                magnitude_is_monotone(0, 0, ma / s, ma % s, s);
            }
            if 0 < mb {
                magnitude_is_monotone(0, 0, mb / s, mb % s, s);
            }
        }
        if a > limit || b > limit || (a == limit && self.bits == later.bits) {
            return false;
        }
        if self.bits < half {
            if later.bits < half { a <= b } else { a == 0 && b == 0 }
        } else {
            if later.bits < half { true } else { b <= a }
        }
    }
}

/// What a measurement stands for, by its bit pattern: the small patterns count the smallest positive
/// number, one exponent more doubles the number, the sign bit turns it round, and the patterns from
/// a full exponent on are no numbers.
pub proof fn measurements_follow_the_format(s: Signal)
    ensures
        s.bits < 0x100_0000 ==> s.number() == s.bits,
        0x80_0000 <= s.bits < 0x7f00_0000 ==> (Signal { bits: (s.bits + 0x80_0000) as u32 }).number()
            == 2 * s.number(),
        s.bits < 0x8000_0000 ==> (Signal { bits: (s.bits + 0x8000_0000) as u32 }).number()
            == -s.number(),
        s.finite() <==> s.bits < 0x7f80_0000 || 0x8000_0000 <= s.bits < 0xff80_0000,
{
    if s.bits < 0x100_0000 {
        vstd::arithmetic::power2::lemma2_to64();
        let m = s.unsigned_bits();
        assert(m == s.bits);
        if m >= 0x80_0000 {
            assert(m / 0x80_0000 == 1 && m % 0x80_0000 == m - 0x80_0000);
            assert((0x80_0000 + (m - 0x80_0000)) * 1 == m) by (nonlinear_arith);
        } else {
            assert(m / 0x80_0000 == 0 && m % 0x80_0000 == m);
        }
    }
    if 0x80_0000 <= s.bits < 0x7f00_0000 {
        let t = Signal { bits: (s.bits + 0x80_0000) as u32 };
        let e = s.unsigned_bits() / 0x80_0000;
        let f = s.unsigned_bits() % 0x80_0000;
        assert(t.unsigned_bits() == s.unsigned_bits() + 0x80_0000);
        assert(t.unsigned_bits() / 0x80_0000 == e + 1 && t.unsigned_bits() % 0x80_0000 == f);
        vstd::arithmetic::power2::lemma_pow2_unfold(e);
        let p = vstd::arithmetic::power2::pow2((e - 1) as nat);
        assert((0x80_0000 + f) * (2 * p) == 2 * ((0x80_0000 + f) * p)) by (nonlinear_arith);
    }
}

/// The order of all measurements, by their bit patterns: without a sign bit a larger pattern comes
/// later, with one earlier, and all with one come before all without.
pub proof fn measurements_are_ordered_by_bits(a: Signal, b: Signal)
    ensures
        a.bits < 0x8000_0000 && b.bits < 0x8000_0000 ==> (a.order() < b.order() <==> a.bits
            < b.bits),
        a.bits >= 0x8000_0000 && b.bits >= 0x8000_0000 ==> (a.order() < b.order() <==> a.bits
            > b.bits),
        a.bits >= 0x8000_0000 && b.bits < 0x8000_0000 ==> a.order() < b.order(),
        a.order() == b.order() <==> a == b,
{
}

/// Which measurements are fractions: the patterns up to that of one, and a zero with a minus sign.
pub proof fn fractions_by_bits(s: Signal)
    ensures
        s.finite() && 0 <= s.number() && s.number() <= Signal::one().number() <==> s.bits
            <= 0x3f80_0000 || s.bits == 0x8000_0000,
        s.finite() && 0 <= s.number() <==> s.bits < 0x7f80_0000 || s.bits == 0x8000_0000,
{
    let m = s.unsigned_bits();
    let e = m / 0x80_0000;
    let f = m % 0x80_0000;
    assert(Signal::one().unsigned_bits() == 0x3f80_0000);
    assert(0x3f80_0000nat / 0x80_0000 == 127 && 0x3f80_0000nat % 0x80_0000 == 0);
    if s.bits > 0x8000_0000 && s.finite() {
        magnitude_is_monotone(0, 0, e, f, 0x80_0000);
    }
    if s.bits < 0x3f80_0000 {
        magnitude_is_monotone(e, f, 127, 0, 0x80_0000);
    }
    if 0x3f80_0000 < s.bits < 0x8000_0000 {
        magnitude_is_monotone(127, 0, e, f, 0x80_0000);
    }
    if s.bits == 0x8000_0000 {
        magnitude_is_monotone(0, 0, 127, 0, 0x80_0000);
    }
}

/// When a counter went up or stood still, by the bit patterns of its readings: neither reading is
/// beyond infinity, they are not the same infinity, and the second is no lower. Without sign bits
/// that is the larger pattern, with both the smaller one; a zero is the same with and without.
pub proof fn counters_grow_by_bits(a: Reading, b: Reading)
    ensures
        a.bits <= 0x7ff0_0000_0000_0000 && b.bits <= 0x7ff0_0000_0000_0000 ==> (a.grows_to(b)
            <==> a.bits <= b.bits && a.bits < 0x7ff0_0000_0000_0000),
        0x8000_0000_0000_0000 < a.bits <= 0xfff0_0000_0000_0000 && b.bits <= 0x7ff0_0000_0000_0000
            ==> a.grows_to(b),
        a.bits <= 0x7ff0_0000_0000_0000 && 0x8000_0000_0000_0000 < b.bits ==> !a.grows_to(b),
        0x8000_0000_0000_0000 <= a.bits <= 0xfff0_0000_0000_0000 && 0x8000_0000_0000_0000 <= b.bits
            <= 0xfff0_0000_0000_0000 ==> (a.grows_to(b) <==> b.bits <= a.bits && !(a.bits == b.bits
            && a.bits == 0xfff0_0000_0000_0000)),
        a.bits == 0x8000_0000_0000_0000 && b.bits <= 0x7ff0_0000_0000_0000 ==> a.grows_to(b),
        b.bits == 0x8000_0000_0000_0000 && a.bits <= 0x7ff0_0000_0000_0000 ==> (a.grows_to(b)
            <==> a.bits == 0),
        0x7ff0_0000_0000_0000 < a.bits < 0x8000_0000_0000_0000 || a.bits > 0xfff0_0000_0000_0000
            ==> !a.grows_to(b),
        0x7ff0_0000_0000_0000 < b.bits < 0x8000_0000_0000_0000 || b.bits > 0xfff0_0000_0000_0000
            ==> !a.grows_to(b),
{
    let ma = a.unsigned_bits();
    let mb = b.unsigned_bits();
    let s: nat = 0x10_0000_0000_0000;
    if ma < mb {
        magnitude_is_monotone(ma / s, ma % s, mb / s, mb % s, s);
    } else if mb < ma {
        magnitude_is_monotone(mb / s, mb % s, ma / s, ma % s, s);
    }
    if 0 < ma {
        magnitude_is_monotone(0, 0, ma / s, ma % s, s);
    }
    if 0 < mb {
        magnitude_is_monotone(0, 0, mb / s, mb % s, s);
    }
}

/// What a reading stands for, by its bit pattern.
pub proof fn readings_follow_the_format(r: Reading)
    ensures
        r.bits < 0x20_0000_0000_0000 ==> r.number() == r.bits,
        0x10_0000_0000_0000 <= r.bits < 0x7fe0_0000_0000_0000 ==> (Reading {
            bits: (r.bits + 0x10_0000_0000_0000) as u64,
        }).number() == 2 * r.number(),
        r.bits < 0x8000_0000_0000_0000 ==> (Reading {
            bits: (r.bits + 0x8000_0000_0000_0000) as u64,
        }).number() == -r.number(),
        r.not_a_number() <==> 0x7ff0_0000_0000_0000 < r.bits < 0x8000_0000_0000_0000 || r.bits
            > 0xfff0_0000_0000_0000,
        r.infinite() <==> r.bits == 0x7ff0_0000_0000_0000 || r.bits == 0xfff0_0000_0000_0000,
{
    let s: nat = 0x10_0000_0000_0000;
    if r.bits < 0x20_0000_0000_0000 {
        vstd::arithmetic::power2::lemma2_to64();
        let m = r.unsigned_bits();
        assert(m == r.bits);
        if m >= s {
            assert(m / s == 1 && m % s == m - s);
            assert((s + (m - s)) * 1 == m) by (nonlinear_arith);
        } else {
            assert(m / s == 0 && m % s == m);
        }
    }
    if 0x10_0000_0000_0000 <= r.bits < 0x7fe0_0000_0000_0000 {
        let t = Reading { bits: (r.bits + 0x10_0000_0000_0000) as u64 };
        let e = r.unsigned_bits() / s;
        let f = r.unsigned_bits() % s;
        assert(t.unsigned_bits() == r.unsigned_bits() + s);
        assert(t.unsigned_bits() / s == e + 1 && t.unsigned_bits() % s == f);
        vstd::arithmetic::power2::lemma_pow2_unfold(e);
        let p = vstd::arithmetic::power2::pow2((e - 1) as nat);
        assert((s + f) * (2 * p) == 2 * ((s + f) * p)) by (nonlinear_arith);
    }
}

} // verus!
