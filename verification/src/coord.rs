//! Coordinates on the desktop.
//!
//! The compositor reports real numbers. A coordinate is held here as the bit pattern of an IEEE 754
//! double, which keeps the number exactly: the library stores coordinates and compares them, and
//! its callers add and scale them.
use vstd::prelude::*;

verus! {

/// A real number, as the bit pattern of an IEEE 754 double.
#[derive(Debug, Clone, Copy, PartialEq, Eq, Structural)]
pub struct Coord {
    pub bits: u64,
}

/// A point of the desktop.
#[derive(Debug, Clone, Copy, PartialEq, Eq, Structural)]
pub struct Point {
    pub x: Coord,
    pub y: Coord,
}

/// A rectangle of the desktop, by its upper left corner and its size.
#[derive(Debug, Clone, Copy, PartialEq, Eq, Structural)]
pub struct Rect {
    pub x: Coord,
    pub y: Coord,
    pub width: Coord,
    pub height: Coord,
}

/// The bit pattern of zero.
pub const ZERO: u64 = 0;

/// The bit pattern of one.
pub const ONE: u64 = 0x3ff0_0000_0000_0000;

/// The weight of the sign bit.
pub const SIGN_BIT: u64 = 0x8000_0000_0000_0000;

/// The bit pattern of positive infinity: every larger magnitude is not a number.
pub const INFINITY: u64 = 0x7ff0_0000_0000_0000;

impl Coord {
    /// The pattern without its sign.
    pub open spec fn magnitude(self) -> int {
        if self.bits >= SIGN_BIT {
            self.bits - SIGN_BIT
        } else {
            self.bits as int
        }
    }

    /// Whether the pattern stands for no number.
    pub open spec fn is_nan(self) -> bool {
        self.magnitude() > INFINITY
    }

    /// The place of a number in the order of all numbers. Both zeros have the same place.
    pub open spec fn rank(self) -> int {
        if self.bits >= SIGN_BIT {
            -self.magnitude()
        } else {
            self.magnitude()
        }
    }

    /// `self` is a smaller number than `other`.
    pub open spec fn below(self, other: Coord) -> bool {
        !self.is_nan() && !other.is_nan() && self.rank() < other.rank()
    }

    /// `self` is no larger number than `other`.
    pub open spec fn up_to(self, other: Coord) -> bool {
        !self.is_nan() && !other.is_nan() && self.rank() <= other.rank()
    }

    /// The number without its sign.
    pub open spec fn unsigned(self) -> Coord {
        Coord { bits: self.magnitude() as u64 }
    }

    /// The smaller of two numbers, or the only number among the two.
    pub open spec fn smaller(self, other: Coord) -> Coord {
        if self.is_nan() || other.below(self) {
            other
        } else {
            self
        }
    }

    /// The larger of two numbers, or the only number among the two.
    pub open spec fn larger(self, other: Coord) -> Coord {
        if self.is_nan() || self.below(other) {
            other
        } else {
            self
        }
    }

    fn sign_and_magnitude(self) -> (r: (bool, u64))
        ensures
            r.0 == (self.bits >= SIGN_BIT),
            r.1 == self.magnitude(),
            r.1 < SIGN_BIT,
    {
        if self.bits >= SIGN_BIT {
            (true, self.bits - SIGN_BIT)
        } else {
            (false, self.bits)
        }
    }

    fn order(self) -> (r: Option<i64>)
        ensures
            r is None == self.is_nan(),
            r matches Some(k) ==> k == self.rank(),
    {
        let (negative, magnitude) = self.sign_and_magnitude();
        if magnitude > INFINITY {
            None
        } else if negative {
            Some(-(magnitude as i64))
        } else {
            Some(magnitude as i64)
        }
    }

    /// Tests whether this is a smaller number than `other`.
    pub fn less_than(self, other: Coord) -> (r: bool)
        ensures
            r == self.below(other),
    {
        match (self.order(), other.order()) {
            (Some(a), Some(b)) => a < b,
            _ => false,
        }
    }

    /// Tests whether this is no larger number than `other`.
    pub fn at_most(self, other: Coord) -> (r: bool)
        ensures
            r == self.up_to(other),
    {
        match (self.order(), other.order()) {
            (Some(a), Some(b)) => a <= b,
            _ => false,
        }
    }

    /// Takes the sign away.
    pub fn abs(self) -> (r: Coord)
        ensures
            r == self.unsigned(),
    {
        let (_, magnitude) = self.sign_and_magnitude();
        Coord { bits: magnitude }
    }

    /// Picks the smaller of two numbers.
    pub fn min(self, other: Coord) -> (r: Coord)
        ensures
            r == self.smaller(other),
    {
        if self.order().is_none() || other.less_than(self) {
            other
        } else {
            self
        }
    }

    /// Picks the larger of two numbers.
    pub fn max(self, other: Coord) -> (r: Coord)
        ensures
            r == self.larger(other),
    {
        if self.order().is_none() || self.less_than(other) {
            other
        } else {
            self
        }
    }
}

/// `below` and `up_to` order the numbers: of two numbers exactly one of `a.below(b)` and
/// `b.up_to(a)` holds, and `below` is transitive.
pub proof fn coords_are_ordered(a: Coord, b: Coord, c: Coord)
    requires
        !a.is_nan(),
        !b.is_nan(),
    ensures
        a.below(b) != b.up_to(a),
        a.below(b) && b.below(c) ==> a.below(c),
        a.up_to(b) && b.up_to(a) ==> a.rank() == b.rank(),
{
}

/// The smaller of two numbers is one of them and no larger than either; the larger is one of them
/// and no smaller than either.
pub proof fn smaller_and_larger(a: Coord, b: Coord)
    requires
        !a.is_nan(),
        !b.is_nan(),
    ensures
        a.smaller(b) == a || a.smaller(b) == b,
        a.smaller(b).up_to(a),
        a.smaller(b).up_to(b),
        a.larger(b) == a || a.larger(b) == b,
        a.up_to(a.larger(b)),
        b.up_to(a.larger(b)),
{
}

/// How two numbers compare follows from their bit patterns. Without the sign bit a larger pattern is
/// a larger number; with it, a smaller one; and a number with the sign bit is below one without,
/// unless both are zero. A pattern beyond that of infinity compares with nothing.
pub proof fn coords_compare_by_bits(a: Coord, b: Coord)
    ensures
        a.bits <= 0x7ff0_0000_0000_0000 && b.bits <= 0x7ff0_0000_0000_0000 ==> {
            &&& a.below(b) <==> a.bits < b.bits
            &&& a.up_to(b) <==> a.bits <= b.bits
        },
        0x8000_0000_0000_0000 <= a.bits <= 0xfff0_0000_0000_0000 && 0x8000_0000_0000_0000 <= b.bits
            <= 0xfff0_0000_0000_0000 ==> {
            &&& a.below(b) <==> a.bits > b.bits
            &&& a.up_to(b) <==> a.bits >= b.bits
        },
        0x8000_0000_0000_0000 <= a.bits <= 0xfff0_0000_0000_0000 && b.bits <= 0x7ff0_0000_0000_0000
            ==> {
            &&& a.up_to(b)
            &&& !b.below(a)
            &&& a.below(b) <==> !(a.bits == 0x8000_0000_0000_0000 && b.bits == 0)
            &&& b.up_to(a) <==> (a.bits == 0x8000_0000_0000_0000 && b.bits == 0)
        },
        0x7ff0_0000_0000_0000 < a.bits < 0x8000_0000_0000_0000 || a.bits > 0xfff0_0000_0000_0000
            ==> !a.below(b) && !b.below(a) && !a.up_to(b) && !b.up_to(a),
{
}

/// A number without its sign has the same bits but for the sign bit, so a number and its negative
/// are alike without it.
pub proof fn unsigned_clears_the_sign(a: Coord)
    ensures
        a.bits < 0x8000_0000_0000_0000 ==> a.unsigned() == a,
        a.bits >= 0x8000_0000_0000_0000 ==> a.unsigned().bits == a.bits - 0x8000_0000_0000_0000,
        forall|b: Coord|
            b.bits == a.bits + 0x8000_0000_0000_0000 ==> #[trigger] b.unsigned() == a.unsigned(),
{
}

/// Of a number and a pattern that stands for none, the number is both the smaller and the larger.
pub proof fn numbers_win(a: Coord, b: Coord)
    requires
        a.bits <= 0x7ff0_0000_0000_0000 || 0x8000_0000_0000_0000 <= a.bits
            <= 0xfff0_0000_0000_0000,
        0x7ff0_0000_0000_0000 < b.bits < 0x8000_0000_0000_0000 || b.bits > 0xfff0_0000_0000_0000,
    ensures
        a.smaller(b) == a,
        b.smaller(a) == a,
        a.larger(b) == a,
        b.larger(a) == a,
{
}

} // verus!
