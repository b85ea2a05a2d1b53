//! History weights: binary floating-point numbers, held by their bits.
use crate::order::Comparison;
use vstd::prelude::*;

verus! {

/// The lowest bit pattern with the sign bit set.
pub const SIGN_BIT: u64 = 0x8000_0000_0000_0000;

/// The bit pattern of positive infinity.
pub const INFINITY_BITS: u64 = 0x7ff0_0000_0000_0000;

/// A 64-bit IEEE 754 number, held by its bits.
#[derive(Clone, Copy, Debug, PartialEq, Eq, Structural)]
pub struct Weight {
    pub bits: u64,
}

impl Weight {
    /// The bits below the sign. They grow with the distance from zero.
    pub open spec fn magnitude(self) -> int {
        self.bits as int % SIGN_BIT as int
    }

    /// Whether the bits stand for no number.
    pub open spec fn is_nan(self) -> bool {
        self.magnitude() > INFINITY_BITS
    }

    /// An integer that orders the numbers as their values do. Both zeros have the same one.
    pub open spec fn position(self) -> int {
        if self.bits < SIGN_BIT {
            self.magnitude()
        } else {
            -self.magnitude()
        }
    }

    /// How two weights compare by value. A pattern that is no number ties with every other.
    pub open spec fn versus(self, other: Weight) -> Comparison {
        if self.is_nan() || other.is_nan() {
            Comparison::Equal
        } else {
            Comparison::of(self.position(), other.position())
        }
    }

    /// An integer that puts all bit patterns in order: numbers as their values go, the negative
    /// zero before the positive one, and what is no number at the outer ends.
    pub open spec fn rank(self) -> int {
        if self.bits < SIGN_BIT {
            self.magnitude()
        } else {
            -self.magnitude() - 1
        }
    }

    /// The weight of an entry that has none.
    pub fn zero() -> (r: Weight)
        ensures
            r.bits == 0,
    {
        Weight { bits: 0 }
    }

    fn distance(self) -> (r: u64)
        ensures
            r == self.magnitude(),
    {
        if self.bits < SIGN_BIT {
            self.bits
        } else {
            self.bits - SIGN_BIT
        }
    }

    /// Whether a weight stands before another one in the order of all bit patterns.
    pub fn precedes(self, other: Weight) -> (r: bool)
        ensures
            r == (self.rank() < other.rank()),
    {
        if self.bits < SIGN_BIT {
            other.bits < SIGN_BIT && self.bits < other.bits
        } else {
            other.bits < SIGN_BIT || other.bits < self.bits
        }
    }

    /// Compares two weights by value.
    pub fn compare(self, other: Weight) -> (r: Comparison)
        ensures
            r == self.versus(other),
    {
        let left: u64 = self.distance();
        let right: u64 = other.distance();
        if left > INFINITY_BITS || right > INFINITY_BITS {
            return Comparison::Equal;
        }
        if self.bits < SIGN_BIT {
            if other.bits < SIGN_BIT || right == 0 {
                Comparison::of_numbers(left, right)
            } else {
                Comparison::Greater
            }
        } else if other.bits >= SIGN_BIT || left == 0 {
            if other.bits >= SIGN_BIT {
                Comparison::of_numbers(right, left)
            } else {
                Comparison::of_numbers(left, right)
            }
        } else {
            Comparison::Less
        }
    }
}

/// The order of all bit patterns keeps to the values of weights, and no two patterns share a
/// place in it.
pub proof fn ranks_keep_to_values(a: Weight, b: Weight)
    ensures
        a.rank() <= b.rank() ==> a.versus(b) != Comparison::Greater,
        a.versus(b) == Comparison::Less ==> a.rank() < b.rank(),
        a.rank() == b.rank() ==> a == b,
{
}

impl Weight {
    /// The exponent bits.
    pub open spec fn exponent(self) -> int {
        self.magnitude() / 0x10_0000_0000_0000
    }

    /// The fraction bits.
    pub open spec fn fraction(self) -> int {
        self.magnitude() % 0x10_0000_0000_0000
    }

    /// The value of a number in units of the smallest positive one. The infinities take the value
    /// that comes next beyond the finite numbers.
    pub open spec fn value(self) -> int {
        let distance = if self.exponent() == 0 {
            self.fraction()
        } else {
            (0x10_0000_0000_0000 + self.fraction()) * vstd::arithmetic::power2::pow2(
                (self.exponent() - 1) as nat,
            )
        };
        if self.bits < SIGN_BIT {
            distance
        } else {
            -distance
        }
    }
}

spec fn distance_value(m: int) -> int {
    let e = m / 0x10_0000_0000_0000;
    let f = m % 0x10_0000_0000_0000;
    if e == 0 {
        f
    } else {
        (0x10_0000_0000_0000 + f) * vstd::arithmetic::power2::pow2((e - 1) as nat)
    }
}

proof fn lemma_distance_grows(a: int, b: int)
    requires
        0 <= a < b,
    ensures
        0 <= distance_value(a) < distance_value(b),
        a == 0 ==> distance_value(a) == 0,
{
    let unit = 0x10_0000_0000_0000int;
    let ea = a / unit;
    let eb = b / unit;
    let fa = a % unit;
    let fb = b % unit;
    assert(ea <= eb);
    if eb == 0 {
    } else {
        let pb = vstd::arithmetic::power2::pow2((eb - 1) as nat) as int;
        vstd::arithmetic::power2::lemma_pow2_pos((eb - 1) as nat);
        assert(distance_value(b) == (unit + fb) * pb);
        assert((unit + fb) * pb >= unit * pb && unit * pb >= unit) by (nonlinear_arith)
            requires
                fb >= 0,
                pb >= 1,
                unit > 0,
        ;
        if ea > 0 {
            let pa = vstd::arithmetic::power2::pow2((ea - 1) as nat) as int;
            vstd::arithmetic::power2::lemma_pow2_pos((ea - 1) as nat);
            assert(distance_value(a) == (unit + fa) * pa);
            assert(0 <= (unit + fa) * pa < 2 * unit * pa) by (nonlinear_arith)
                requires
                    0 <= fa < unit,
                    pa >= 1,
            ;
            if ea == eb {
                assert(fa < fb);
                assert((unit + fa) * pa < (unit + fb) * pa) by (nonlinear_arith)
                    requires
                        fa < fb,
                        pa >= 1,
                ;
            } else {
                vstd::arithmetic::power2::lemma_pow2_unfold(ea as nat);
                if ea < eb - 1 {
                    vstd::arithmetic::power2::lemma_pow2_strictly_increases(
                        ea as nat,
                        (eb - 1) as nat,
                    );
                }
                assert(2 * pa <= pb);
                assert(2 * unit * pa <= unit * pb) by (nonlinear_arith)
                    requires
                        2 * pa <= pb,
                        unit > 0,
                ;
            }
        }
    }
}

/// Numbers compare as their values do. A pattern whose exponent bits are all set and whose
/// fraction is not zero is no number, and ties with every other.
pub proof fn weights_compare_by_value(a: Weight, b: Weight)
    ensures
        a.is_nan() <==> a.exponent() == 0x7ff && a.fraction() != 0,
        !a.is_nan() && !b.is_nan() ==> a.versus(b) == Comparison::of(a.value(), b.value()),
        a.is_nan() || b.is_nan() ==> a.versus(b) == Comparison::Equal,
{
    let ma = a.magnitude();
    let mb = b.magnitude();
    lemma_distance_grows(0, 1);
    if ma < mb {
        lemma_distance_grows(ma, mb);
    }
    if mb < ma {
        lemma_distance_grows(mb, ma);
    }
    if ma > 0 {
        lemma_distance_grows(0, ma);
    }
    if mb > 0 {
        lemma_distance_grows(0, mb);
    }
    assert(a.value() == if a.bits < SIGN_BIT {
        distance_value(ma)
    } else {
        -distance_value(ma)
    });
    assert(b.value() == if b.bits < SIGN_BIT {
        distance_value(mb)
    } else {
        -distance_value(mb)
    });
}

} // verus!
