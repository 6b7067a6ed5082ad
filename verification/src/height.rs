//! 256-bit unsigned block heights.
//!
//! A blockchain block number is held as four 64-bit limbs, least
//! significant first, so that a height can never overflow for any
//! realistic chain. The mathematical value of a height is given by
//! [`Height::as_int`]; every operation is specified against it.

use vstd::prelude::*;

verus! {

/// The exclusive upper bound of the representable heights: 2^256.
pub open spec fn height_limit() -> int {
    0x10000000000000000000000000000000000000000000000000000000000000000int
}

/// An unsigned 256-bit block height, limbs least significant first.
#[derive(Clone, Copy, Debug, PartialEq, Eq, Structural)]
pub struct Height {
    pub w0: u64,
    pub w1: u64,
    pub w2: u64,
    pub w3: u64,
}

impl Height {
    /// The mathematical value of this height.
    pub open spec fn as_int(self) -> int {
        self.w0 as int + self.w1 as int * 0x10000000000000000
            + self.w2 as int * 0x100000000000000000000000000000000
            + self.w3 as int * 0x1000000000000000000000000000000000000000000000000
    }

    /// Every representable height lies below 2^256.
    pub proof fn lemma_range(self)
        ensures
            0 <= self.as_int() < height_limit(),
    {
    }

    /// Two heights with the same value have the same limbs.
    pub proof fn lemma_value_injective(self, other: Height)
        ensures
            self.as_int() == other.as_int() <==> self == other,
    {
        if self.as_int() == other.as_int() {
            let d0 = self.w0 as int - other.w0 as int;
            let d1 = self.w1 as int - other.w1 as int;
            let d2 = self.w2 as int - other.w2 as int;
            let d3 = self.w3 as int - other.w3 as int;
            let k1 = d1 + d2 * 0x10000000000000000 + d3
                * 0x100000000000000000000000000000000;
            let k2 = d2 + d3 * 0x10000000000000000;
            assert(d0 + k1 * 0x10000000000000000 == 0);
            lemma_limb_split(d0, k1);
            assert(d1 + k2 * 0x10000000000000000 == 0);
            lemma_limb_split(d1, k2);
            assert(d2 + d3 * 0x10000000000000000 == 0);
            lemma_limb_split(d2, d3);
        }
    }

    pub fn zero() -> (h: Height)
        ensures
            h.as_int() == 0,
    {
        Height { w0: 0, w1: 0, w2: 0, w3: 0 }
    }

    pub fn from_u64(v: u64) -> (h: Height)
        ensures
            h.as_int() == v as int,
    {
        Height { w0: v, w1: 0, w2: 0, w3: 0 }
    }

    pub fn is_zero(&self) -> (r: bool)
        ensures
            r == (self.as_int() == 0),
    {
        self.w0 == 0 && self.w1 == 0 && self.w2 == 0 && self.w3 == 0
    }

    /// Strict comparison of the underlying values.
    pub fn lt(&self, other: &Height) -> (r: bool)
        ensures
            r == (self.as_int() < other.as_int()),
    {
        if self.w3 != other.w3 {
            self.w3 < other.w3
        } else if self.w2 != other.w2 {
            self.w2 < other.w2
        } else if self.w1 != other.w1 {
            self.w1 < other.w1
        } else {
            self.w0 < other.w0
        }
    }

    /// The lag between two heights: the difference floored at zero, so a
    /// race between the two reads can never underflow or wrap.
    pub fn saturating_sub(&self, other: &Height) -> (r: Height)
        ensures
            r.as_int() == if self.as_int() >= other.as_int() {
                self.as_int() - other.as_int()
            } else {
                0
            },
    {
        if self.lt(other) {
            Height::zero()
        } else {
            let (d0, b0) = sub_borrow(self.w0, other.w0, false);
            let (d1, b1) = sub_borrow(self.w1, other.w1, b0);
            let (d2, b2) = sub_borrow(self.w2, other.w2, b1);
            let (d3, b3) = sub_borrow(self.w3, other.w3, b2);
            let r = Height { w0: d0, w1: d1, w2: d2, w3: d3 };
            proof {
                assert(r.as_int() == self.as_int() - other.as_int() + if b3 {
                    0x10000000000000000000000000000000000000000000000000000000000000000int
                } else {
                    0int
                });
            }
            r
        }
    }
}

/// A number smaller than one limb's carrying capacity in absolute value
/// can only be a multiple of it when both factors are zero.
proof fn lemma_limb_split(d: int, k: int)
    requires
        -0x10000000000000000 < d < 0x10000000000000000,
        d + k * 0x10000000000000000 == 0,
    ensures
        d == 0,
        k == 0,
{
    if k >= 1 {
        assert(k * 0x10000000000000000 >= 0x10000000000000000);
    }
    if k <= -1 {
        assert(k * 0x10000000000000000 <= -0x10000000000000000);
    }
}

/// One limb of a borrowing subtraction: computes `x - y - borrow_in`,
/// wrapping into `[0, 2^64)` and reporting the borrow out.
fn sub_borrow(x: u64, y: u64, borrow_in: bool) -> (r: (u64, bool))
    ensures
        r.0 as int == x as int - y as int - (if borrow_in {
            1int
        } else {
            0int
        }) + (if r.1 {
            0x10000000000000000int
        } else {
            0int
        }),
{
    let yy: u128 = y as u128 + if borrow_in {
        1u128
    } else {
        0u128
    };
    if x as u128 >= yy {
        ((x as u128 - yy) as u64, false)
    } else {
        ((x as u128 + 0x10000000000000000u128 - yy) as u64, true)
    }
}

} // verus!
