//! The arithmetic of the plane.
//!
//! Everything the renderer computes with coordinates goes through the methods
//! of [`Arithmetic`]: mapping pixels to the plane, the recurrences of the
//! fractals, the escape test and the colour estimate. The coordinates are of a
//! type of the implementation's choosing, and the methods promise nothing; what
//! this crate proves of its own functions holds of every implementation, and
//! says what they return in terms of what the methods returned.

use vstd::prelude::*;
use crate::point::Point;

verus! {

/// The operations on coordinates that rendering is built on.
///
/// Each method is described by the formula it stands for over the real
/// numbers. An implementation computes it in its own number type, with that
/// type's rounding.
pub trait Arithmetic {
    /// A coordinate of the plane, and any number computed from coordinates.
    type Scalar: Copy;

    /// Whether an extent of the rendered region is usable: `x > 0`.
    fn is_positive(&self, x: Self::Scalar) -> bool;

    /// The number of rows of an image of `width` columns whose height is
    /// `ratio` times its width: `width * ratio`, cut to a whole number.
    fn scale(&self, width: u32, ratio: Self::Scalar) -> u32;

    /// The bottom-left and the top-right corner of the region centred on
    /// `image_centre` that is `xlen_real` wide and `xlen_real * ratio` high.
    fn calc_boundaries(
        &self,
        image_centre: Point<Self::Scalar, Self::Scalar>,
        xlen_real: Self::Scalar,
        ratio: Self::Scalar,
    ) -> (Point<Self::Scalar, Self::Scalar>, Point<Self::Scalar, Self::Scalar>);

    /// Maps `i`, one of `0..n`, onto the range from `a` to `b`:
    /// `a + i / (n / (b - a))`.
    fn distribute(&self, i: u32, n: u32, a: Self::Scalar, b: Self::Scalar) -> Self::Scalar;

    /// Maps `x` in the range from `a` to `b` onto the range from `b` to `a`:
    /// `b - (x - a)`.
    fn reverse(&self, x: Self::Scalar, a: Self::Scalar, b: Self::Scalar) -> Self::Scalar;

    /// Whether `start` lies in the main cardioid or the period-2 bulb of the
    /// Mandelbrot set: with `q = x*x + y*y`, whether
    /// `256*q*q - 96*q + 32*x - 3 < 0` or `16*(q + 2*x + 1) - 1 < 0`.
    fn in_main_bulb(&self, start: Point<Self::Scalar, Self::Scalar>) -> bool;

    /// One step of the quadratic recurrence from `z` with the constant `c`:
    /// `(x*x - y*y + c.x, 2*x*y + c.y)`.
    fn quadratic(
        &self,
        z: Point<Self::Scalar, Self::Scalar>,
        c: Point<Self::Scalar, Self::Scalar>,
    ) -> Point<Self::Scalar, Self::Scalar>;

    /// One step of the recurrence with its cross term folded, from `z` with
    /// the constant `c`: `(x*x - y*y + c.x, |2*x*y| + c.y)`.
    fn folded(
        &self,
        z: Point<Self::Scalar, Self::Scalar>,
        c: Point<Self::Scalar, Self::Scalar>,
    ) -> Point<Self::Scalar, Self::Scalar>;

    /// Whether `z` lies within the escape radius: `x*x + y*y < 4`.
    fn bounded(&self, z: Point<Self::Scalar, Self::Scalar>) -> bool;

    /// The continuous estimate of the iteration count of an orbit that has
    /// reached `z` after `iterations` steps:
    /// `max(0, iterations + 1 - ln(ln(sqrt(x*x + y*y))) / ln(2))`.
    fn estimate(&self, z: Point<Self::Scalar, Self::Scalar>, iterations: usize) -> Self::Scalar;

    /// The whole part of the estimate `mu`.
    fn whole(&self, mu: Self::Scalar) -> usize;

    /// The fractional part of the estimate `mu`, from 0 up to but not
    /// including 1.
    fn fract(&self, mu: Self::Scalar) -> Self::Scalar;

    /// The channel that lies the fraction `f` of the way from `c1` to `c2`:
    /// `c1 * (1 - f) + c2 * f`, cut to a whole number.
    fn lerp(&self, c1: u8, c2: u8, f: Self::Scalar) -> u8;
}

/// The arithmetic `a` is repeatable: each method that rendering calls
/// returns one result for the arguments it is given.
pub open spec fn is_repeatable<A: Arithmetic>(a: &A) -> bool {
    &&& forall|i: u32, n: u32, lo: A::Scalar, hi: A::Scalar, r: A::Scalar, s: A::Scalar|
        #[trigger] call_ensures(A::distribute, (a, i, n, lo, hi), r) && #[trigger] call_ensures(
            A::distribute,
            (a, i, n, lo, hi),
            s,
        ) ==> r == s
    &&& forall|x: A::Scalar, lo: A::Scalar, hi: A::Scalar, r: A::Scalar, s: A::Scalar|
        #[trigger] call_ensures(A::reverse, (a, x, lo, hi), r) && #[trigger] call_ensures(
            A::reverse,
            (a, x, lo, hi),
            s,
        ) ==> r == s
    &&& forall|z: Point<A::Scalar, A::Scalar>|
        !(#[trigger] call_ensures(A::in_main_bulb, (a, z), true) && call_ensures(
            A::in_main_bulb,
            (a, z),
            false,
        ))
    &&& forall|
        z: Point<A::Scalar, A::Scalar>,
        c: Point<A::Scalar, A::Scalar>,
        r: Point<A::Scalar, A::Scalar>,
        s: Point<A::Scalar, A::Scalar>,
    |
        #[trigger] call_ensures(A::quadratic, (a, z, c), r) && #[trigger] call_ensures(
            A::quadratic,
            (a, z, c),
            s,
        ) ==> r == s
    &&& forall|
        z: Point<A::Scalar, A::Scalar>,
        c: Point<A::Scalar, A::Scalar>,
        r: Point<A::Scalar, A::Scalar>,
        s: Point<A::Scalar, A::Scalar>,
    |
        #[trigger] call_ensures(A::folded, (a, z, c), r) && #[trigger] call_ensures(
            A::folded,
            (a, z, c),
            s,
        ) ==> r == s
    &&& forall|z: Point<A::Scalar, A::Scalar>|
        !(#[trigger] call_ensures(A::bounded, (a, z), true) && call_ensures(
            A::bounded,
            (a, z),
            false,
        ))
    &&& forall|z: Point<A::Scalar, A::Scalar>, n: usize, r: A::Scalar, s: A::Scalar|
        #[trigger] call_ensures(A::estimate, (a, z, n), r) && #[trigger] call_ensures(
            A::estimate,
            (a, z, n),
            s,
        ) ==> r == s
    &&& forall|mu: A::Scalar, r: usize, s: usize|
        #[trigger] call_ensures(A::whole, (a, mu), r) && #[trigger] call_ensures(
            A::whole,
            (a, mu),
            s,
        ) ==> r == s
    &&& forall|mu: A::Scalar, r: A::Scalar, s: A::Scalar|
        #[trigger] call_ensures(A::fract, (a, mu), r) && #[trigger] call_ensures(
            A::fract,
            (a, mu),
            s,
        ) ==> r == s
    &&& forall|c1: u8, c2: u8, f: A::Scalar, r: u8, s: u8|
        #[trigger] call_ensures(A::lerp, (a, c1, c2, f), r) && #[trigger] call_ensures(
            A::lerp,
            (a, c1, c2, f),
            s,
        ) ==> r == s
}

} // verus!
