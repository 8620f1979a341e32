//! Fields that the elements of a matrix may belong to.

use core::fmt::Debug;
use core::ops::{Add, Div, Mul, Neg, Sub};
use vstd::prelude::*;

verus! {

/// A field whose elements have a real and an imaginary part. The parts belong to a real field.
pub trait ComplexField: Copy + Add<Output = Self> + Sub<Output = Self> + Mul<Output = Self> + Div<
    Output = Self,
> + Neg<Output = Self> + Send + Sync + Debug + 'static {
    /// What the real and the imaginary part belong to.
    type Real;

    /// Returns the element whose real part is `x`, and whose imaginary part is zero.
    fn from_real(x: Self::Real) -> Self;

    /// Returns the real and the imaginary part.
    fn into_real_imag(self) -> (Self::Real, Self::Real);

    /// Returns the real part.
    fn real_part(self) -> (r: Self::Real)
        requires
            call_requires(Self::into_real_imag, (self,)),
        default_ensures
            exists|p: (Self::Real, Self::Real)| #[trigger]
                call_ensures(Self::into_real_imag, (self,), p) && r == p.0,
    {
        self.into_real_imag().0
    }

    /// Returns the imaginary part.
    fn imag(self) -> (r: Self::Real)
        requires
            call_requires(Self::into_real_imag, (self,)),
        default_ensures
            exists|p: (Self::Real, Self::Real)| #[trigger]
                call_ensures(Self::into_real_imag, (self,), p) && r == p.1,
    {
        self.into_real_imag().1
    }

    /// Returns the zero of the field.
    fn zero() -> Self;

    /// Returns the one of the field.
    fn one() -> Self;

    /// Returns the multiplicative inverse.
    fn inv(self) -> Self;

    /// Returns the complex conjugate.
    fn conj(self) -> Self;

    /// Returns a square root.
    fn sqrt(self) -> Self;

    /// Returns the element multiplied by the real `factor`.
    fn scale(self, factor: Self::Real) -> (r: Self)
        requires
            call_requires(Self::from_real, (factor,)),
            forall|x: Self| #[trigger]
                call_ensures(Self::from_real, (factor,), x) ==> call_requires(
                    <Self as Mul>::mul,
                    (self, x),
                ),
        default_ensures
            exists|x: Self| #[trigger]
                call_ensures(Self::from_real, (factor,), x) && call_ensures(
                    <Self as Mul>::mul,
                    (self, x),
                    r,
                ),
    {
        self * Self::from_real(factor)
    }
}

/// A field in which each element is its own real part, and the elements are ordered.
pub trait RealField: ComplexField<Real = Self> + core::cmp::PartialOrd {

}

}
