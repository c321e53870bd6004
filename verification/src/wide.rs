//! Products of two 128-bit numbers, held exactly in 256 bits.

use vstd::prelude::*;

verus! {

/// 2^64, the base in which a product is assembled.
pub open spec fn half_base() -> int {
    0x1_0000_0000_0000_0000int
}

/// 2^128, the weight of the high word of a [`Wide`].
pub open spec fn word_base() -> int {
    0x1_0000_0000_0000_0000_0000_0000_0000_0000int
}

/// A natural number below 2^256, as two 128-bit words.
#[derive(Clone, Copy, Debug)]
pub struct Wide {
    pub hi: u128,
    pub lo: u128,
}

impl Wide {
    /// The number that the two words stand for.
    pub open spec fn value(self) -> int {
        self.hi * word_base() + self.lo
    }

    /// Whether `self` is at most `other`, as numbers.
    pub fn at_most(&self, other: &Wide) -> (r: bool)
        ensures
            r == (self.value() <= other.value()),
    {
        self.hi < other.hi || (self.hi == other.hi && self.lo <= other.lo)
    }
}

proof fn lemma_half_product(x: u128, y: u128)
    requires
        x < half_base(),
        y < half_base(),
    ensures
        x * y <= 0xffff_ffff_ffff_fffe_0000_0000_0000_0001int,
{
    assert(x * y <= (half_base() - 1) * (half_base() - 1)) by (nonlinear_arith)
        requires
            0 <= x <= half_base() - 1,
            0 <= y <= half_base() - 1,
    ;
}

proof fn lemma_split_product(a0: int, a1: int, b0: int, b1: int, h: int)
    ensures
        (a1 * h + a0) * (b1 * h + b0) == (a1 * b1) * (h * h) + (a0 * b1 + a1 * b0) * h + a0 * b0,
{
    let x = a1 * h;
    let y = b1 * h;
    assert((x + a0) * (y + b0) == x * y + x * b0 + a0 * y + a0 * b0) by (nonlinear_arith);
    assert(x * y == (a1 * b1) * (h * h)) by (nonlinear_arith)
        requires
            x == a1 * h,
            y == b1 * h,
    ;
    assert(x * b0 == (a1 * b0) * h) by (nonlinear_arith)
        requires
            x == a1 * h,
    ;
    assert(a0 * y == (a0 * b1) * h) by (nonlinear_arith)
        requires
            y == b1 * h,
    ;
    assert((a0 * b1 + a1 * b0) * h == (a0 * b1) * h + (a1 * b0) * h) by (nonlinear_arith);
}

/// The exact product of two 128-bit numbers.
pub fn wide_product(a: u128, b: u128) -> (w: Wide)
    ensures
        w.value() == a * b,
{
    let half: u128 = 0x1_0000_0000_0000_0000u128;
    let a0: u128 = a % half;
    let a1: u128 = a / half;
    let b0: u128 = b % half;
    let b1: u128 = b / half;
    proof {
        lemma_half_product(a0, b0);
        lemma_half_product(a0, b1);
        lemma_half_product(a1, b0);
        lemma_half_product(a1, b1);
    }
    let p00: u128 = a0 * b0;
    let p01: u128 = a0 * b1;
    let p10: u128 = a1 * b0;
    let p11: u128 = a1 * b1;
    let mid: u128 = p00 / half + p01 % half + p10 % half;
    let lo: u128 = (mid % half) * half + p00 % half;
    let upper: u128 = p11 + p01 / half + p10 / half;
    let carry: u128 = mid / half;
    proof {
        lemma_split_product(a0 as int, a1 as int, b0 as int, b1 as int, half_base());
        assert(half_base() * half_base() == word_base());
        assert(a * b == p11 * word_base() + (p01 + p10) * half_base() + p00);
        assert(a * b == (upper + carry) * word_base() + lo);
        assert(a * b < word_base() * word_base()) by (nonlinear_arith)
            requires
                0 <= a < word_base(),
                0 <= b < word_base(),
        ;
        assert(upper + carry < word_base()) by (nonlinear_arith)
            requires
                (upper + carry) * word_base() + lo < word_base() * word_base(),
                lo >= 0,
                word_base() > 0,
        ;
    }
    Wide { hi: upper + carry, lo }
}

} // verus!
