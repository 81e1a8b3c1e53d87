//! Points of the plane, and the text form of a point.
//!
//! A point is a pair of coordinates of any two types. Its text form is the
//! two coordinates with a comma between them, in brackets or not: `(-0.8,0.156)`
//! or `0,0`. This module finds the two coordinates in such a text; reading
//! each as a number is left to the caller, who knows the coordinate types.

use vstd::prelude::*;
use vstd::std_specs::convert::FromSpecImpl;
use vstd::string::StringSliceAdditionalSpecFns;

verus! {

/// A pair of coordinates.
#[derive(Debug, Copy, Clone)]
pub struct Point<X, Y> {
    pub x: X,
    pub y: Y,
}

impl<X, Y> From<(X, Y)> for Point<X, Y> {
    fn from(tup: (X, Y)) -> (p: Self) {
        let (x, y) = tup;
        Self { x, y }
    }
}

impl<X, Y> FromSpecImpl<(X, Y)> for Point<X, Y> {
    open spec fn obeys_from_spec() -> bool {
        true
    }

    open spec fn from_spec(tup: (X, Y)) -> Self {
        Point { x: tup.0, y: tup.1 }
    }
}

impl<X, Y> Point<X, Y> {
    /// The point with the coordinates `x` and `y`.
    pub fn new(x: X, y: Y) -> (p: Self)
        ensures
            p == (Point { x, y }),
    {
        Self { x, y }
    }

    /// The point with `f` applied to its first coordinate.
    pub fn map_x(self, f: impl FnOnce(X) -> X) -> (p: Self)
        requires
            call_requires(f, (self.x,)),
        ensures
            call_ensures(f, (self.x,), p.x),
            p.y == self.y,
    {
        let Point { x, y } = self;
        Self { x: f(x), y }
    }

    /// The point with `f` applied to its second coordinate.
    pub fn map_y(self, f: impl FnOnce(Y) -> Y) -> (p: Self)
        requires
            call_requires(f, (self.y,)),
        ensures
            p.x == self.x,
            call_ensures(f, (self.y,), p.y),
    {
        let Point { x, y } = self;
        Self { x, y: f(y) }
    }

    /// The point that `f` makes of both coordinates.
    pub fn transform(self, f: impl FnOnce(X, Y) -> (X, Y)) -> (p: Self)
        requires
            call_requires(f, (self.x, self.y)),
        ensures
            call_ensures(f, (self.x, self.y), (p.x, p.y)),
    {
        let Point { x, y } = self;
        let (x, y) = f(x, y);
        Self { x, y }
    }
}

/// The bytes of a text from `start` up to, not including, `end`.
#[derive(Debug, Clone, Copy, PartialEq, Eq, Structural)]
pub struct Span {
    pub start: usize,
    pub end: usize,
}

/// `b` is `(` or `)`.
pub open spec fn is_bracket(b: u8) -> bool {
    b == 0x28 || b == 0x29
}

/// The number of brackets that `text` starts with.
pub open spec fn leading_brackets(text: Seq<u8>) -> nat
    decreases text.len(),
{
    if text.len() > 0 && is_bracket(text[0]) {
        1 + leading_brackets(text.skip(1))
    } else {
        0
    }
}

/// The number of brackets that `text` ends with.
pub open spec fn trailing_brackets(text: Seq<u8>) -> nat
    decreases text.len(),
{
    if text.len() > 0 && is_bracket(text.last()) {
        1 + trailing_brackets(text.drop_last())
    } else {
        0
    }
}

/// The number of bytes of `text` before its first comma, or its length where
/// it holds none.
pub open spec fn field_len(text: Seq<u8>) -> nat
    decreases text.len(),
{
    if text.len() == 0 || text[0] == 0x2c {
        0
    } else {
        1 + field_len(text.skip(1))
    }
}

/// Where the two coordinates stand in `text`.
///
/// The brackets at both ends of the text are set aside. What is left is cut
/// at its commas: the first piece is the first coordinate, the second piece
/// the second, and further pieces are ignored. A text that is left without a
/// comma is all first coordinate and has no second one.
pub open spec fn coordinate_fields(text: Seq<u8>) -> Point<Span, Option<Span>> {
    let lo = leading_brackets(text);
    let hi = if lo == text.len() {
        lo
    } else {
        (text.len() - trailing_brackets(text)) as nat
    };
    let x_end = lo + field_len(text.subrange(lo as int, hi as int));
    let x = Span { start: lo as usize, end: x_end as usize };
    if x_end == hi {
        Point { x, y: None }
    } else {
        let y_end = x_end + 1 + field_len(text.subrange((x_end + 1) as int, hi as int));
        Point { x, y: Some(Span { start: (x_end + 1) as usize, end: y_end as usize }) }
    }
}

proof fn lemma_leading_brackets(text: Seq<u8>, n: int)
    requires
        0 <= n <= text.len(),
        forall|i: int| 0 <= i < n ==> is_bracket(text[i]),
        n < text.len() ==> !is_bracket(text[n]),
    ensures
        leading_brackets(text) == n,
    decreases n,
{
    if n > 0 {
        lemma_leading_brackets(text.skip(1), n - 1);
    }
}

proof fn lemma_trailing_brackets(text: Seq<u8>, n: int)
    requires
        0 <= n <= text.len(),
        forall|i: int| text.len() - n <= i < text.len() ==> is_bracket(text[i]),
        n < text.len() ==> !is_bracket(text[text.len() - n - 1]),
    ensures
        trailing_brackets(text) == n,
    decreases n,
{
    if n > 0 {
        lemma_trailing_brackets(text.drop_last(), n - 1);
    }
}

proof fn lemma_field_len(text: Seq<u8>, n: int)
    requires
        0 <= n <= text.len(),
        forall|i: int| 0 <= i < n ==> text[i] != 0x2c,
        n < text.len() ==> text[n] == 0x2c,
    ensures
        field_len(text) == n,
    decreases n,
{
    if n > 0 {
        lemma_field_len(text.skip(1), n - 1);
    }
}

/// The index of the first comma of `bytes[from..to]`, or `to`.
fn find_comma(bytes: &[u8], from: usize, to: usize) -> (at: usize)
    requires
        from <= to <= bytes@.len(),
    ensures
        at == from + field_len(bytes@.subrange(from as int, to as int)),
        from <= at <= to,
{
    let mut k = from;
    while k < to && bytes[k] != 0x2c
        invariant
            from <= k <= to <= bytes@.len(),
            forall|i: int| from <= i < k ==> bytes@[i] != 0x2c,
        decreases to - k,
    {
        k = k + 1;
    }
    proof {
        lemma_field_len(bytes@.subrange(from as int, to as int), k - from);
    }
    k
}

/// Finds the two coordinates in the text of a point.
pub fn coordinate_spans(text: &str) -> (r: Point<Span, Option<Span>>)
    ensures
        r == coordinate_fields(text.spec_bytes()),
{
    let bytes = text.as_bytes();
    let len = bytes.len();
    let mut lo: usize = 0;
    while lo < len && (bytes[lo] == 0x28 || bytes[lo] == 0x29)
        invariant
            lo <= len == bytes@.len(),
            forall|i: int| 0 <= i < lo ==> is_bracket(bytes@[i]),
        decreases len - lo,
    {
        lo = lo + 1;
    }
    let mut hi: usize = len;
    while hi > lo && (bytes[hi - 1] == 0x28 || bytes[hi - 1] == 0x29)
        invariant
            lo <= hi <= len == bytes@.len(),
            forall|i: int| hi <= i < len ==> is_bracket(bytes@[i]),
        decreases hi,
    {
        hi = hi - 1;
    }
    proof {
        lemma_leading_brackets(bytes@, lo as int);
        if lo < len {
            lemma_trailing_brackets(bytes@, len - hi);
        }
    }
    let x_end = find_comma(bytes, lo, hi);
    let x = Span { start: lo, end: x_end };
    if x_end == hi {
        Point { x, y: None }
    } else {
        let y_end = find_comma(bytes, x_end + 1, hi);
        Point { x, y: Some(Span { start: x_end + 1, end: y_end }) }
    }
}

} // verus!
