//! Colour resolution: from an iteration count, or from a continuous estimate
//! of it, to a colour of the palette.
//!
//! The palette repeats without end: a count indexes it modulo its length.
//! The continuous mode blends the entry that the whole part of the estimate
//! falls on with the entry after it, channel by channel, at the fractional
//! part of the estimate.

use vstd::prelude::*;
use vstd::arithmetic::div_mod::{
    lemma_add_mod_noop, lemma_mod_multiples_vanish, lemma_mod_self_0, lemma_small_mod,
};
use crate::arithmetic::Arithmetic;
use crate::cmap::{Palette, Pixel};

verus! {

/// The entry of the endlessly repeated palette `colours` at `index`.
pub open spec fn cyclic(colours: Seq<Pixel>, index: nat) -> Pixel {
    colours[(index % colours.len()) as int]
}

/// The entry that is reached from the first one by moving on `n` times,
/// where moving on from the last entry leads back to the first.
pub open spec fn cycle_nth(colours: Seq<Pixel>, n: nat) -> Pixel
    decreases n,
{
    if colours.len() == 0 || n < colours.len() {
        colours[n as int]
    } else {
        cycle_nth(colours, (n - colours.len()) as nat)
    }
}

/// `p` is the blend of `from` and `to` at the fraction `f`: each channel of
/// `p` is what `lerp` returned for that channel of `from` and of `to`.
pub open spec fn blends<A: Arithmetic>(a: &A, f: A::Scalar, from: Pixel, to: Pixel, p: Pixel) -> bool {
    &&& call_ensures(A::lerp, (a, from.r, to.r, f), p.r)
    &&& call_ensures(A::lerp, (a, from.g, to.g, f), p.g)
    &&& call_ensures(A::lerp, (a, from.b, to.b, f), p.b)
}

/// `p` is the continuous colour of the estimate `mu`: the blend, at the
/// fractional part of `mu`, of the entry at its whole part with the entry
/// after it.
pub open spec fn smooths<A: Arithmetic>(a: &A, mu: A::Scalar, colours: Seq<Pixel>, p: Pixel) -> bool {
    exists|whole: usize, f: A::Scalar|
        {
            &&& #[trigger] call_ensures(A::whole, (a, mu), whole)
            &&& #[trigger] call_ensures(A::fract, (a, mu), f)
            &&& blends(a, f, cyclic(colours, whole as nat), cyclic(colours, whole as nat + 1), p)
        }
}

/// `c` is the arithmetic mean of `a` and `b` to within one.
pub open spec fn near_mean(a: u8, b: u8, c: u8) -> bool {
    -2 <= 2 * c - (a + b) <= 2
}

/// The colour of the iteration count `iterations`.
pub fn discrete(iterations: usize, palette: &Palette) -> (p: Pixel)
    ensures
        p == cyclic(palette@, iterations as nat),
{
    let colours = palette.colours();
    colours[iterations % colours.len()]
}

/// LERP between two colours based on an estimate of how far between two
/// entries of the palette a value is.
pub fn smooth<A: Arithmetic>(mu: A::Scalar, palette: &Palette, arithmetic: &A) -> (p: Pixel)
    ensures
        smooths(arithmetic, mu, palette@, p),
{
    let colours = palette.colours();
    let len = colours.len();
    let estimate = arithmetic.whole(mu);
    let at = estimate % len;
    let after = if at + 1 == len {
        0
    } else {
        at + 1
    };
    proof {
        lemma_add_mod_noop(estimate as int, 1, len as int);
        if len > 1 {
            lemma_small_mod(1, len as nat);
        }
        if at + 1 == len {
            lemma_mod_self_0(len as int);
        } else {
            lemma_small_mod((at + 1) as nat, len as nat);
        }
    }
    let c1 = colours[at];
    let c2 = colours[after];

    let f = arithmetic.fract(mu);
    Pixel {
        r: arithmetic.lerp(c1.r, c2.r, f),
        g: arithmetic.lerp(c1.g, c2.g, f),
        b: arithmetic.lerp(c1.b, c2.b, f),
    }
}

/// The palette wraps around: a count and the same count plus the length of
/// the palette have the same colour.
pub proof fn lemma_palette_wraps(colours: Seq<Pixel>, k: nat)
    requires
        colours.len() > 0,
    ensures
        cyclic(colours, k + colours.len()) == cyclic(colours, k),
{
    lemma_mod_multiples_vanish(1, k as int, colours.len() as int);
}

/// Walking round the palette and indexing it modulo its length pick the same
/// entry.
pub proof fn lemma_cycle_nth_is_cyclic(colours: Seq<Pixel>, n: nat)
    requires
        colours.len() > 0,
    ensures
        cycle_nth(colours, n) == cyclic(colours, n),
    decreases n,
{
    if n >= colours.len() {
        let rest = (n - colours.len()) as nat;
        lemma_cycle_nth_is_cyclic(colours, rest);
        lemma_palette_wraps(colours, rest);
    } else {
        lemma_small_mod(n, colours.len());
    }
}

/// An estimate that is a whole number is coloured like its count: where the
/// whole part of `mu` is `i` and blending at the fractional part of `mu`
/// keeps the first of the two channels, the continuous colour of `mu` is the
/// discrete colour of `i`.
pub proof fn lemma_whole_estimate_is_discrete<A: Arithmetic>(
    a: &A,
    mu: A::Scalar,
    i: nat,
    colours: Seq<Pixel>,
    p: Pixel,
)
    requires
        smooths(a, mu, colours, p),
        forall|whole: usize| #[trigger] call_ensures(A::whole, (a, mu), whole) ==> whole == i,
        forall|f: A::Scalar, c1: u8, c2: u8, c: u8|
            #[trigger] call_ensures(A::fract, (a, mu), f) && #[trigger] call_ensures(
                A::lerp,
                (a, c1, c2, f),
                c,
            ) ==> c == c1,
    ensures
        p == cyclic(colours, i),
{
}

/// An estimate half way between two whole numbers is coloured with the mean
/// of the two entries: where the whole part of `mu` is `i` and blending at
/// the fractional part of `mu` gives the mean of the two channels to within
/// one, each channel of the continuous colour of `mu` is the mean of that
/// channel in the entries at `i` and after it, to within one.
pub proof fn lemma_half_way_estimate_is_mean<A: Arithmetic>(
    a: &A,
    mu: A::Scalar,
    i: nat,
    colours: Seq<Pixel>,
    p: Pixel,
)
    requires
        smooths(a, mu, colours, p),
        forall|whole: usize| #[trigger] call_ensures(A::whole, (a, mu), whole) ==> whole == i,
        forall|f: A::Scalar, c1: u8, c2: u8, c: u8|
            #[trigger] call_ensures(A::fract, (a, mu), f) && #[trigger] call_ensures(
                A::lerp,
                (a, c1, c2, f),
                c,
            ) ==> near_mean(c1, c2, c),
    ensures
        near_mean(cyclic(colours, i).r, cyclic(colours, i + 1).r, p.r),
        near_mean(cyclic(colours, i).g, cyclic(colours, i + 1).g, p.g),
        near_mean(cyclic(colours, i).b, cyclic(colours, i + 1).b, p.b),
{
}

} // verus!
