//! The escape-time trace and the three fractals built on it.
//!
//! A point is traced by applying a recurrence to it, always with the same
//! constant, until the state leaves the escape radius or the iteration cap is
//! reached. The trace counts the steps, applies the cap and the interior
//! threshold, and runs the fixed correction that smoothing asks for; the
//! colour follows from the trace. The Mandelbrot, Julia and Burning Ship
//! variants differ in the recurrence, in the constant they iterate with, and
//! in whether a point can be known to be interior before the first step.

use vstd::prelude::*;
use vstd::arithmetic::div_mod::lemma_small_mod;
use crate::arithmetic::{is_repeatable, Arithmetic};
use crate::cmap::{black, Palette, Pixel};
use crate::point::Point;
use crate::util::{cyclic, discrete, smooth, smooths};

verus! {

/// The number of extra steps taken past the escape point before the
/// continuous estimate is read off the state.
pub const CORRECTION_STEPS: usize = 3;

/// The fractals that can be rendered.
#[derive(Debug, Clone, Copy, PartialEq, Eq, Structural)]
pub enum FractalType {
    Mandelbrot,
    Julia,
    BurningShip,
}

/// What the trace of one starting point came to.
#[derive(Debug)]
pub enum Trace<S> {
    /// The point is treated as part of the set and painted black.
    Interior,
    /// The point escaped after `iterations` steps; it is coloured by that
    /// count alone.
    Escaped { iterations: usize },
    /// The point escaped and the correction steps were run: `iterations`
    /// counts them too, and `state` is the state after the last of them.
    Refined { iterations: usize, state: Point<S, S> },
}

/// `next` is what one step made of `z` with the constant `c`: a step of the
/// folded recurrence with `fold`, of the quadratic one without.
pub open spec fn steps<A: Arithmetic>(
    a: &A,
    fold: bool,
    z: Point<A::Scalar, A::Scalar>,
    c: Point<A::Scalar, A::Scalar>,
    next: Point<A::Scalar, A::Scalar>,
) -> bool {
    if fold {
        call_ensures(A::folded, (a, z, c), next)
    } else {
        call_ensures(A::quadratic, (a, z, c), next)
    }
}

/// `orbit` starts at `start`, and each later state is what one step made of
/// the state before it.
pub open spec fn is_orbit<A: Arithmetic>(
    a: &A,
    fold: bool,
    constant: Point<A::Scalar, A::Scalar>,
    start: Point<A::Scalar, A::Scalar>,
    orbit: Seq<Point<A::Scalar, A::Scalar>>,
) -> bool {
    &&& orbit.len() > 0
    &&& orbit[0] == start
    &&& forall|i: int|
        0 <= i < orbit.len() - 1 ==> steps(a, fold, orbit[i], constant, #[trigger] orbit[i + 1])
}

/// The escape loop stops on `orbit` after exactly `count` steps under the
/// cap `cap`: every state before `orbit[count]` tested as bounded, and either
/// the cap is reached or `orbit[count]` tested as not bounded.
pub open spec fn stops_after<A: Arithmetic>(
    a: &A,
    orbit: Seq<Point<A::Scalar, A::Scalar>>,
    cap: nat,
    count: nat,
) -> bool {
    &&& count <= cap
    &&& count < orbit.len()
    &&& forall|i: int| 0 <= i < count ==> call_ensures(A::bounded, (a, #[trigger] orbit[i]), true)
    &&& count < cap ==> call_ensures(A::bounded, (a, orbit[count as int]), false)
}

/// A point whose escape loop stopped after `count` steps is painted as
/// interior: with a cap of zero always, otherwise from `cap - 1` steps on, so
/// that a point escaping on the very last permitted step is not told apart
/// from one that never escaped.
pub open spec fn is_interior(count: nat, cap: nat) -> bool {
    cap == 0 || count >= cap - 1
}

/// The trace that belongs to an orbit whose escape loop stopped after `count`
/// steps.
pub open spec fn trace_of<S>(orbit: Seq<Point<S, S>>, cap: nat, smooth: bool, count: nat) -> Trace<S> {
    if is_interior(count, cap) {
        Trace::Interior
    } else if smooth {
        Trace::Refined {
            iterations: (count + CORRECTION_STEPS) as usize,
            state: orbit[count + CORRECTION_STEPS],
        }
    } else {
        Trace::Escaped { iterations: count as usize }
    }
}

/// The number of states of an orbit whose escape loop stopped after `count`
/// steps: the start, the steps of the loop, and the correction steps where
/// they are run.
pub open spec fn orbit_len(cap: nat, smooth: bool, count: nat) -> nat {
    if !is_interior(count, cap) && smooth {
        (count + CORRECTION_STEPS + 1) as nat
    } else {
        count + 1
    }
}

/// `orbit` and `count` account for the trace `t` of `start`.
pub open spec fn explains<A: Arithmetic>(
    a: &A,
    fold: bool,
    start: Point<A::Scalar, A::Scalar>,
    constant: Point<A::Scalar, A::Scalar>,
    cap: nat,
    smooth: bool,
    orbit: Seq<Point<A::Scalar, A::Scalar>>,
    count: nat,
    t: Trace<A::Scalar>,
) -> bool {
    &&& is_orbit(a, fold, constant, start, orbit)
    &&& stops_after(a, orbit, cap, count)
    &&& orbit.len() == orbit_len(cap, smooth, count)
    &&& t == trace_of(orbit, cap, smooth, count)
}

/// `p` is the colour of the trace `t` under the palette `colours`: black for
/// an interior point, the entry at its count for an escaped one, and for a
/// refined one the continuous colour of the estimate made of its state and
/// count.
pub open spec fn paints<A: Arithmetic>(
    a: &A,
    colours: Seq<Pixel>,
    t: Trace<A::Scalar>,
    p: Pixel,
) -> bool {
    match t {
        Trace::Interior => p == black(),
        Trace::Escaped { iterations } => p == cyclic(colours, iterations as nat),
        Trace::Refined { iterations, state } => exists|mu: A::Scalar|
            {
                &&& #[trigger] call_ensures(A::estimate, (a, state, iterations), mu)
                &&& smooths(a, mu, colours, p)
            },
    }
}

/// `p` is the colour of `start`: black where the point is known beforehand
/// to be interior, else the colour of a trace that some orbit accounts for.
pub open spec fn shades<A: Arithmetic>(
    a: &A,
    fold: bool,
    start: Point<A::Scalar, A::Scalar>,
    constant: Point<A::Scalar, A::Scalar>,
    interior: bool,
    cap: nat,
    smooth: bool,
    colours: Seq<Pixel>,
    p: Pixel,
) -> bool {
    if interior {
        p == black()
    } else {
        exists|orbit: Seq<Point<A::Scalar, A::Scalar>>, count: nat, t: Trace<A::Scalar>|
            {
                &&& #[trigger] explains(a, fold, start, constant, cap, smooth, orbit, count, t)
                &&& paints(a, colours, t, p)
            }
    }
}

/// Whether the variant folds the cross term of its recurrence: the Burning
/// Ship does.
pub open spec fn folds(fractal_type: FractalType) -> bool {
    fractal_type == FractalType::BurningShip
}

/// The constant that the variant iterates with: Julia has a configured one,
/// the others take the starting point itself.
pub open spec fn constant_of<S>(
    fractal_type: FractalType,
    start: Point<S, S>,
    julia_centre: Point<S, S>,
) -> Point<S, S> {
    if fractal_type == FractalType::Julia {
        julia_centre
    } else {
        start
    }
}

/// Whether `start` counts as known to be interior before the loop:
/// Mandelbrot asks the main-bulb test, the others know of no such point.
pub open spec fn known_interior<A: Arithmetic>(
    a: &A,
    fractal_type: FractalType,
    start: Point<A::Scalar, A::Scalar>,
    interior: bool,
) -> bool {
    if fractal_type == FractalType::Mandelbrot {
        call_ensures(A::in_main_bulb, (a, start), interior)
    } else {
        !interior
    }
}

/// `p` is the colour of `start` under the variant `fractal_type`.
pub open spec fn renders<A: Arithmetic>(
    a: &A,
    fractal_type: FractalType,
    start: Point<A::Scalar, A::Scalar>,
    julia_centre: Point<A::Scalar, A::Scalar>,
    cap: nat,
    smooth: bool,
    colours: Seq<Pixel>,
    p: Pixel,
) -> bool {
    exists|interior: bool|
        {
            &&& #[trigger] known_interior(a, fractal_type, start, interior)
            &&& shades(
                a,
                folds(fractal_type),
                start,
                constant_of(fractal_type, start, julia_centre),
                interior,
                cap,
                smooth,
                colours,
                p,
            )
        }
}

/// Takes one step from `z`.
fn step<A: Arithmetic>(
    arithmetic: &A,
    fold: bool,
    z: Point<A::Scalar, A::Scalar>,
    c: Point<A::Scalar, A::Scalar>,
) -> (next: Point<A::Scalar, A::Scalar>)
    ensures
        steps(arithmetic, fold, z, c, next),
{
    if fold {
        arithmetic.folded(z, c)
    } else {
        arithmetic.quadratic(z, c)
    }
}

/// Traces one starting point.
///
/// With `interior` set the point is known to lie in the set beforehand and no
/// step is taken. Otherwise steps are taken, always with `constant`, while
/// fewer than `escape_limit` were taken and the current state is bounded; the
/// count reached decides between interior and escaped, and with
/// `smooth_colours` an escaped point gets `CORRECTION_STEPS` further steps.
pub fn trace<A: Arithmetic>(
    start: Point<A::Scalar, A::Scalar>,
    constant: Point<A::Scalar, A::Scalar>,
    fold: bool,
    interior: bool,
    escape_limit: usize,
    smooth_colours: bool,
    arithmetic: &A,
) -> (t: Trace<A::Scalar>)
    requires
        smooth_colours && !interior ==> escape_limit < usize::MAX,
    ensures
        interior ==> t == Trace::<A::Scalar>::Interior,
        !interior ==> exists|orbit: Seq<Point<A::Scalar, A::Scalar>>, count: nat|
            explains(
                arithmetic,
                fold,
                start,
                constant,
                escape_limit as nat,
                smooth_colours,
                orbit,
                count,
                t,
            ),
{
    if interior {
        return Trace::Interior;
    }
    let mut state = start;
    let mut iterations: usize = 0;
    let ghost mut orbit: Seq<Point<A::Scalar, A::Scalar>> = seq![start];
    let mut escaped = false;
    while iterations < escape_limit && !escaped
        invariant
            iterations <= escape_limit,
            is_orbit(arithmetic, fold, constant, start, orbit),
            orbit.len() == iterations + 1,
            orbit[iterations as int] == state,
            forall|i: int|
                0 <= i < iterations ==> call_ensures(A::bounded, (arithmetic, #[trigger] orbit[i]), true),
            escaped ==> iterations < escape_limit && call_ensures(
                A::bounded,
                (arithmetic, state),
                false,
            ),
        decreases escape_limit - iterations, if escaped { 0int } else { 1int },
    {
        if arithmetic.bounded(state) {
            state = step(arithmetic, fold, state, constant);
            iterations = iterations + 1;
            proof {
                orbit = orbit.push(state);
            }
        } else {
            escaped = true;
        }
    }
    let ghost count = iterations as nat;
    let ghost cap = escape_limit as nat;
    if escape_limit == 0 || iterations >= escape_limit - 1 {
        let t = Trace::Interior;
        assert(explains(arithmetic, fold, start, constant, cap, smooth_colours, orbit, count, t));
        t
    } else if smooth_colours {
        let mut extra: usize = 0;
        while extra < CORRECTION_STEPS
            invariant
                extra <= CORRECTION_STEPS,
                count + 1 < escape_limit < usize::MAX,
                iterations == count + extra,
                is_orbit(arithmetic, fold, constant, start, orbit),
                stops_after(arithmetic, orbit, escape_limit as nat, count),
                orbit.len() == iterations + 1,
                orbit[iterations as int] == state,
            decreases CORRECTION_STEPS - extra,
        {
            state = step(arithmetic, fold, state, constant);
            iterations = iterations + 1;
            extra = extra + 1;
            proof {
                orbit = orbit.push(state);
            }
        }
        let t = Trace::Refined { iterations, state };
        assert(explains(arithmetic, fold, start, constant, cap, smooth_colours, orbit, count, t));
        t
    } else {
        let t = Trace::Escaped { iterations };
        assert(explains(arithmetic, fold, start, constant, cap, smooth_colours, orbit, count, t));
        t
    }
}

/// The colour of one starting point: its trace, resolved against the palette.
///
/// An interior point is black. An escaped point is coloured by its count, or,
/// with `smooth_colours`, by the continuous estimate made of the state and the
/// count after the correction steps.
pub fn shade<A: Arithmetic>(
    start: Point<A::Scalar, A::Scalar>,
    constant: Point<A::Scalar, A::Scalar>,
    fold: bool,
    interior: bool,
    escape_limit: usize,
    smooth_colours: bool,
    palette: &Palette,
    arithmetic: &A,
) -> (p: Pixel)
    requires
        smooth_colours && !interior ==> escape_limit < usize::MAX,
    ensures
        shades(
            arithmetic,
            fold,
            start,
            constant,
            interior,
            escape_limit as nat,
            smooth_colours,
            palette@,
            p,
        ),
{
    let t = trace(start, constant, fold, interior, escape_limit, smooth_colours, arithmetic);
    let p = match t {
        Trace::Interior => Pixel::black(),
        Trace::Escaped { iterations } => discrete(iterations, palette),
        Trace::Refined { iterations, state } => {
            // get an estimate for true iteration count
            let mu = arithmetic.estimate(state, iterations);
            smooth(mu, palette, arithmetic)
        },
    };
    p
}

/// The colour of the point `start` under the Mandelbrot variant.
///
/// The orbit starts at `start` and is iterated with `start` as its constant.
/// This is the one variant with a test made ahead of the loop: a point in the
/// main cardioid or the period-2 bulb is interior without a step being taken.
pub fn mandelbrot<A: Arithmetic>(
    start: Point<A::Scalar, A::Scalar>,
    escape_limit: usize,
    smooth_colours: bool,
    palette: &Palette,
    arithmetic: &A,
) -> (p: Pixel)
    requires
        smooth_colours ==> escape_limit < usize::MAX,
    ensures
        renders(
            arithmetic,
            FractalType::Mandelbrot,
            start,
            start,
            escape_limit as nat,
            smooth_colours,
            palette@,
            p,
        ),
{
    // central bulb optimisation
    let interior = arithmetic.in_main_bulb(start);
    assert(known_interior(arithmetic, FractalType::Mandelbrot, start, interior));
    shade(start, start, false, interior, escape_limit, smooth_colours, palette, arithmetic)
}

/// The colour of the point `start` under the Julia variant.
///
/// The orbit starts at `start` and is iterated with the configured constant
/// `julia_centre`. Every point is traced.
pub fn julia<A: Arithmetic>(
    start: Point<A::Scalar, A::Scalar>,
    julia_centre: Point<A::Scalar, A::Scalar>,
    escape_limit: usize,
    smooth_colours: bool,
    palette: &Palette,
    arithmetic: &A,
) -> (p: Pixel)
    requires
        smooth_colours ==> escape_limit < usize::MAX,
    ensures
        renders(
            arithmetic,
            FractalType::Julia,
            start,
            julia_centre,
            escape_limit as nat,
            smooth_colours,
            palette@,
            p,
        ),
{
    assert(known_interior(arithmetic, FractalType::Julia, start, false));
    shade(start, julia_centre, false, false, escape_limit, smooth_colours, palette, arithmetic)
}

/// The colour of the point `start` under the Burning Ship variant.
///
/// The orbit starts at `start` and is iterated with `start` as its constant,
/// by the recurrence whose cross term is folded. Every point is traced.
pub fn burning_ship<A: Arithmetic>(
    start: Point<A::Scalar, A::Scalar>,
    escape_limit: usize,
    smooth_colours: bool,
    palette: &Palette,
    arithmetic: &A,
) -> (p: Pixel)
    requires
        smooth_colours ==> escape_limit < usize::MAX,
    ensures
        renders(
            arithmetic,
            FractalType::BurningShip,
            start,
            start,
            escape_limit as nat,
            smooth_colours,
            palette@,
            p,
        ),
{
    assert(known_interior(arithmetic, FractalType::BurningShip, start, false));
    shade(start, start, true, false, escape_limit, smooth_colours, palette, arithmetic)
}

proof fn lemma_orbits_agree<A: Arithmetic>(
    a: &A,
    fold: bool,
    constant: Point<A::Scalar, A::Scalar>,
    start: Point<A::Scalar, A::Scalar>,
    first: Seq<Point<A::Scalar, A::Scalar>>,
    second: Seq<Point<A::Scalar, A::Scalar>>,
    i: int,
)
    requires
        is_repeatable(a),
        is_orbit(a, fold, constant, start, first),
        is_orbit(a, fold, constant, start, second),
        0 <= i < first.len(),
        i < second.len(),
    ensures
        first[i] == second[i],
    decreases i,
{
    if i > 0 {
        lemma_orbits_agree(a, fold, constant, start, first, second, i - 1);
        assert(steps(a, fold, second[i - 1], constant, second[i - 1 + 1]));
    }
}

/// Tracing is repeatable: where the arithmetic is, a starting point has one
/// count and one trace, whatever orbit accounts for them.
pub proof fn lemma_trace_is_unique<A: Arithmetic>(
    a: &A,
    fold: bool,
    start: Point<A::Scalar, A::Scalar>,
    constant: Point<A::Scalar, A::Scalar>,
    cap: nat,
    smooth: bool,
    orbit: Seq<Point<A::Scalar, A::Scalar>>,
    count: nat,
    t: Trace<A::Scalar>,
    other_orbit: Seq<Point<A::Scalar, A::Scalar>>,
    other_count: nat,
    other_t: Trace<A::Scalar>,
)
    requires
        is_repeatable(a),
        explains(a, fold, start, constant, cap, smooth, orbit, count, t),
        explains(a, fold, start, constant, cap, smooth, other_orbit, other_count, other_t),
    ensures
        count == other_count,
        t == other_t,
{
    let low = if count <= other_count {
        count
    } else {
        other_count
    };
    lemma_orbits_agree(a, fold, constant, start, orbit, other_orbit, low as int);
    if count < other_count {
        assert(call_ensures(A::bounded, (a, other_orbit[count as int]), true));
        assert(call_ensures(A::bounded, (a, orbit[count as int]), false));
    } else if other_count < count {
        assert(call_ensures(A::bounded, (a, orbit[other_count as int]), true));
        assert(call_ensures(A::bounded, (a, other_orbit[other_count as int]), false));
    } else if !is_interior(count, cap) && smooth {
        lemma_orbits_agree(a, fold, constant, start, orbit, other_orbit, count + CORRECTION_STEPS);
    }
}

/// The continuous colour is repeatable: where the arithmetic is, an estimate
/// has one colour.
pub proof fn lemma_smooth_is_unique<A: Arithmetic>(
    a: &A,
    mu: A::Scalar,
    colours: Seq<Pixel>,
    p: Pixel,
    q: Pixel,
)
    requires
        is_repeatable(a),
        smooths(a, mu, colours, p),
        smooths(a, mu, colours, q),
    ensures
        p == q,
{
}

/// Shading is repeatable: where the arithmetic is, a starting point has one
/// colour for each recurrence and constant.
pub proof fn lemma_shade_is_unique<A: Arithmetic>(
    a: &A,
    fold: bool,
    start: Point<A::Scalar, A::Scalar>,
    constant: Point<A::Scalar, A::Scalar>,
    interior: bool,
    cap: nat,
    smooth: bool,
    colours: Seq<Pixel>,
    p: Pixel,
    q: Pixel,
)
    requires
        is_repeatable(a),
        shades(a, fold, start, constant, interior, cap, smooth, colours, p),
        shades(a, fold, start, constant, interior, cap, smooth, colours, q),
    ensures
        p == q,
{
    if !interior {
        let (orbit, count, t) = choose|
            orbit: Seq<Point<A::Scalar, A::Scalar>>,
            count: nat,
            t: Trace<A::Scalar>,
        |
            {
                &&& #[trigger] explains(a, fold, start, constant, cap, smooth, orbit, count, t)
                &&& paints(a, colours, t, p)
            };
        let (other_orbit, other_count, other_t) = choose|
            orbit: Seq<Point<A::Scalar, A::Scalar>>,
            count: nat,
            t: Trace<A::Scalar>,
        |
            {
                &&& #[trigger] explains(a, fold, start, constant, cap, smooth, orbit, count, t)
                &&& paints(a, colours, t, q)
            };
        lemma_trace_is_unique(
            a,
            fold,
            start,
            constant,
            cap,
            smooth,
            orbit,
            count,
            t,
            other_orbit,
            other_count,
            other_t,
        );
        match t {
            Trace::Refined { iterations, state } => {
                let mu = choose|mu: A::Scalar|
                    {
                        &&& #[trigger] call_ensures(A::estimate, (a, state, iterations), mu)
                        &&& smooths(a, mu, colours, p)
                    };
                let other_mu = choose|mu: A::Scalar|
                    {
                        &&& #[trigger] call_ensures(A::estimate, (a, state, iterations), mu)
                        &&& smooths(a, mu, colours, q)
                    };
                assert(mu == other_mu);
                lemma_smooth_is_unique(a, mu, colours, p, q);
            },
            _ => {},
        }
    }
}

/// Rendering a point is repeatable: where the arithmetic is, a point has one
/// colour under each variant. Rendering the same pixel twice gives the same
/// colour.
pub proof fn lemma_render_is_unique<A: Arithmetic>(
    a: &A,
    fractal_type: FractalType,
    start: Point<A::Scalar, A::Scalar>,
    julia_centre: Point<A::Scalar, A::Scalar>,
    cap: nat,
    smooth: bool,
    colours: Seq<Pixel>,
    p: Pixel,
    q: Pixel,
)
    requires
        is_repeatable(a),
        renders(a, fractal_type, start, julia_centre, cap, smooth, colours, p),
        renders(a, fractal_type, start, julia_centre, cap, smooth, colours, q),
    ensures
        p == q,
{
    let fold = folds(fractal_type);
    let constant = constant_of(fractal_type, start, julia_centre);
    let interior = choose|interior: bool|
        {
            &&& #[trigger] known_interior(a, fractal_type, start, interior)
            &&& shades(a, fold, start, constant, interior, cap, smooth, colours, p)
        };
    let other = choose|interior: bool|
        {
            &&& #[trigger] known_interior(a, fractal_type, start, interior)
            &&& shades(a, fold, start, constant, interior, cap, smooth, colours, q)
        };
    assert(interior == other);
    lemma_shade_is_unique(a, fold, start, constant, interior, cap, smooth, colours, p, q);
}

/// A point whose orbits never test as unbounded is black under every variant
/// and every cap, with or without smoothing, whether or not it was known to
/// be interior beforehand.
pub proof fn lemma_bounded_point_is_black<A: Arithmetic>(
    a: &A,
    fractal_type: FractalType,
    start: Point<A::Scalar, A::Scalar>,
    julia_centre: Point<A::Scalar, A::Scalar>,
    cap: nat,
    smooth: bool,
    colours: Seq<Pixel>,
    p: Pixel,
)
    requires
        renders(a, fractal_type, start, julia_centre, cap, smooth, colours, p),
        forall|orbit: Seq<Point<A::Scalar, A::Scalar>>, i: int|
            #[trigger] is_orbit(
                a,
                folds(fractal_type),
                constant_of(fractal_type, start, julia_centre),
                start,
                orbit,
            ) && 0 <= i < orbit.len() ==> !call_ensures(A::bounded, (a, #[trigger] orbit[i]), false),
    ensures
        p == black(),
{
    let fold = folds(fractal_type);
    let constant = constant_of(fractal_type, start, julia_centre);
    let interior = choose|interior: bool|
        {
            &&& #[trigger] known_interior(a, fractal_type, start, interior)
            &&& shades(a, fold, start, constant, interior, cap, smooth, colours, p)
        };
    if !interior {
        let (orbit, count, t) = choose|
            orbit: Seq<Point<A::Scalar, A::Scalar>>,
            count: nat,
            t: Trace<A::Scalar>,
        |
            {
                &&& #[trigger] explains(a, fold, start, constant, cap, smooth, orbit, count, t)
                &&& paints(a, colours, t, p)
            };
        if count < cap {
            assert(call_ensures(A::bounded, (a, orbit[count as int]), false));
        }
    }
}

/// A starting point that tests as unbounded, and is not known to be interior,
/// escapes before any step: under a cap of at least 2 and without smoothing
/// it gets the first colour of the palette.
pub proof fn lemma_unbounded_start_takes_first_colour<A: Arithmetic>(
    a: &A,
    fractal_type: FractalType,
    start: Point<A::Scalar, A::Scalar>,
    julia_centre: Point<A::Scalar, A::Scalar>,
    cap: nat,
    colours: Seq<Pixel>,
    p: Pixel,
)
    requires
        renders(a, fractal_type, start, julia_centre, cap, false, colours, p),
        !known_interior(a, fractal_type, start, true),
        !call_ensures(A::bounded, (a, start), true),
        cap >= 2,
        colours.len() > 0,
    ensures
        p == colours[0],
{
    let fold = folds(fractal_type);
    let constant = constant_of(fractal_type, start, julia_centre);
    let interior = choose|interior: bool|
        {
            &&& #[trigger] known_interior(a, fractal_type, start, interior)
            &&& shades(a, fold, start, constant, interior, cap, false, colours, p)
        };
    let (orbit, count, t) = choose|
        orbit: Seq<Point<A::Scalar, A::Scalar>>,
        count: nat,
        t: Trace<A::Scalar>,
    |
        {
            &&& #[trigger] explains(a, fold, start, constant, cap, false, orbit, count, t)
            &&& paints(a, colours, t, p)
        };
    if count > 0 {
        assert(call_ensures(A::bounded, (a, orbit[0]), true));
    }
    assert(0nat % colours.len() == 0) by {
        lemma_small_mod(0, colours.len());
    }
}

} // verus!
