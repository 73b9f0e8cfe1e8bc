use vstd::prelude::*;
use vstd::arithmetic::div_mod::{lemma_fundamental_div_mod, lemma_fundamental_div_mod_converse};

verus! {

/// The numbers a tensor holds.
///
/// The engine never looks inside an element: it moves elements around, adds
/// gradient contributions and multiplies them by derivatives. What those
/// operations compute is fixed by the specification functions of the
/// implementing type.
pub trait Dtype: Copy {
    spec fn spec_zero() -> Self;

    spec fn spec_one() -> Self;

    spec fn spec_plus(self, rhs: Self) -> Self;

    spec fn spec_times(self, rhs: Self) -> Self;

    spec fn spec_below_zero(self) -> bool;

    /// The element divided by a count of elements.
    spec fn spec_div_count(self, n: usize) -> Self;

    /// The additive identity.
    fn zero() -> (r: Self)
        ensures
            r == Self::spec_zero(),
    ;

    /// The multiplicative identity.
    fn one() -> (r: Self)
        ensures
            r == Self::spec_one(),
    ;

    fn plus(self, rhs: Self) -> (r: Self)
        ensures
            r == self.spec_plus(rhs),
    ;

    fn times(self, rhs: Self) -> (r: Self)
        ensures
            r == self.spec_times(rhs),
    ;

    /// Whether the element is less than zero.
    fn below_zero(self) -> (b: bool)
        ensures
            b == self.spec_below_zero(),
    ;

    /// Divides by a count of elements.
    fn div_count(self, n: usize) -> (r: Self)
        ensures
            r == self.spec_div_count(n),
    ;
}

/// `num_traits::Zero::zero` for `i64`, which is the constant 0.
#[verifier::external_body]
fn i64_zero() -> (r: i64)
    ensures
        r == 0,
{
    num_traits::Zero::zero()
}

/// `num_traits::One::one` for `i64`, which is the constant 1.
#[verifier::external_body]
fn i64_one() -> (r: i64)
    ensures
        r == 1,
{
    num_traits::One::one()
}

/// Truncating division of an `i64` by a count; by a count of zero it gives 0.
pub open spec fn i64_div_count(x: i64, n: usize) -> i64 {
    if n == 0 {
        0i64
    } else if n > i64::MAX {
        if n == i64::MAX + 1 && x == i64::MIN {
            -1i64
        } else {
            0i64
        }
    } else if x >= 0 {
        ((x as int) / (n as int)) as i64
    } else {
        (-((-(x as int)) / (n as int))) as i64
    }
}

/// Whole numbers with wrapping arithmetic.
impl Dtype for i64 {
    open spec fn spec_zero() -> i64 {
        0
    }

    open spec fn spec_one() -> i64 {
        1
    }

    open spec fn spec_plus(self, rhs: i64) -> i64 {
        vstd::wrapping::i64_specs::wrapping_add(self, rhs)
    }

    open spec fn spec_times(self, rhs: i64) -> i64 {
        vstd::wrapping::i64_specs::wrapping_mul(self, rhs)
    }

    open spec fn spec_below_zero(self) -> bool {
        self < 0
    }

    open spec fn spec_div_count(self, n: usize) -> i64 {
        i64_div_count(self, n)
    }

    fn zero() -> i64 {
        i64_zero()
    }

    fn one() -> i64 {
        i64_one()
    }

    fn plus(self, rhs: i64) -> i64 {
        self.wrapping_add(rhs)
    }

    fn times(self, rhs: i64) -> i64 {
        self.wrapping_mul(rhs)
    }

    fn below_zero(self) -> bool {
        self < 0
    }

    fn div_count(self, n: usize) -> i64 {
        let m: u64 = n as u64;
        if m == 0 {
            0
        } else if m > 0x7fff_ffff_ffff_ffff {
            if m == 0x8000_0000_0000_0000 && self == i64::MIN {
                -1
            } else {
                0
            }
        } else {
            let d: i64 = m as i64;
            if self >= 0 {
                self / d
            } else {
                // -self may not fit, -(self + 1) always does
                let y: i64 = -(self + 1);
                let q: i64 = y / d;
                let r: i64 = y % d;
                proof {
                    lemma_fundamental_div_mod(y as int, d as int);
                    if r + 1 == d {
                        assert(-(self as int) == (q + 1) * d + 0) by (nonlinear_arith)
                            requires
                                y == d * q + r,
                                r + 1 == d,
                                y == -(self + 1),
                        ;
                        lemma_fundamental_div_mod_converse(-(self as int), d as int, q + 1, 0);
                    } else {
                        assert(-(self as int) == q * d + (r + 1)) by (nonlinear_arith)
                            requires
                                y == d * q + r,
                                y == -(self + 1),
                        ;
                        lemma_fundamental_div_mod_converse(-(self as int), d as int, q as int, r + 1);
                    }
                }
                if r + 1 == d {
                    -q - 1
                } else {
                    -q
                }
            }
        }
    }
}

} // verus!
