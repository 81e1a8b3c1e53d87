//! The render configuration and the scan lines.
//!
//! A configuration is resolved once, before rendering begins, and only read
//! from then on. A scan line is rendered from left to right at one vertical
//! coordinate, which is computed once for the row. Nothing is shared between
//! scan lines but the configuration, so they may be rendered in any order and
//! by anyone.

use vstd::prelude::*;
use crate::arithmetic::{is_repeatable, Arithmetic};
use crate::cmap::{Palette, Pixel};
use crate::fractals::{
    burning_ship, julia, lemma_render_is_unique, mandelbrot, renders, FractalType,
};
use crate::point::Point;

verus! {

/// Why a configuration cannot be rendered.
#[derive(Debug, Clone, Copy, PartialEq, Eq, Structural)]
pub enum ConfigError {
    /// The width of the region is not positive.
    NonPositiveExtent,
    /// The ratio of height to width is not positive.
    NonPositiveRatio,
    /// The image would have no columns.
    ZeroWidth,
    /// The image would have no rows.
    ZeroHeight,
    /// Smoothing counts its correction steps on top of the escape limit, and
    /// the limit leaves no room for them.
    EscapeLimitTooLarge,
}

/// All that a render pass reads: the size of the image, how points are traced
/// and coloured, and the region of the plane that the image shows.
pub struct RenderInfo<'a, S> {
    pub width: u32,
    pub height: u32,
    pub escape_limit: usize,
    pub smooth_colours: bool,
    pub palette: &'a Palette,
    pub fractal_type: FractalType,
    pub julia_centre: Point<S, S>,
    pub top_right: Point<S, S>,
    pub bottom_left: Point<S, S>,
}

impl<'a, S> RenderInfo<'a, S> {
    /// The image has columns and rows, and the escape limit leaves room for
    /// the correction steps where they are run.
    pub open spec fn is_valid(&self) -> bool {
        &&& self.width > 0
        &&& self.height > 0
        &&& self.smooth_colours ==> self.escape_limit < usize::MAX
    }
}

/// What `RenderInfo::new` returns, given what the arithmetic found: whether
/// the extent and the ratio are positive, the height, and the corners of the
/// region.
pub open spec fn resolved<'a, S>(
    wide: bool,
    tall: bool,
    height: u32,
    corners: (Point<S, S>, Point<S, S>),
    width: u32,
    julia_centre: Point<S, S>,
    escape_limit: usize,
    smooth_colours: bool,
    fractal_type: FractalType,
    palette: &'a Palette,
) -> Result<RenderInfo<'a, S>, ConfigError> {
    if !wide {
        Err(ConfigError::NonPositiveExtent)
    } else if !tall {
        Err(ConfigError::NonPositiveRatio)
    } else if width == 0 {
        Err(ConfigError::ZeroWidth)
    } else if height == 0 {
        Err(ConfigError::ZeroHeight)
    } else if smooth_colours && escape_limit == usize::MAX {
        Err(ConfigError::EscapeLimitTooLarge)
    } else {
        Ok(
            RenderInfo {
                width,
                height,
                escape_limit,
                smooth_colours,
                palette,
                fractal_type,
                julia_centre,
                top_right: corners.1,
                bottom_left: corners.0,
            },
        )
    }
}

impl<'a, S: Copy> RenderInfo<'a, S> {
    /// Resolves a configuration: derives the height of the image from its
    /// width and `ratio`, and the corners of the region from `image_centre`,
    /// `xlen_real` and `ratio`.
    ///
    /// A region without positive extents, an image without columns or rows,
    /// and an escape limit that leaves no room for smoothing are turned down,
    /// in that order.
    pub fn new<A: Arithmetic<Scalar = S>>(
        width: u32,
        ratio: S,
        xlen_real: S,
        image_centre: Point<S, S>,
        julia_centre: Point<S, S>,
        escape_limit: usize,
        smooth_colours: bool,
        fractal_type: FractalType,
        palette: &'a Palette,
        arithmetic: &A,
    ) -> (r: Result<RenderInfo<'a, S>, ConfigError>)
        ensures
            r matches Ok(info) ==> info.is_valid(),
            exists|wide: bool, tall: bool, height: u32, corners: (Point<S, S>, Point<S, S>)|
                {
                    &&& #[trigger] call_ensures(A::is_positive, (arithmetic, xlen_real), wide)
                    &&& #[trigger] call_ensures(A::is_positive, (arithmetic, ratio), tall)
                    &&& #[trigger] call_ensures(A::scale, (arithmetic, width, ratio), height)
                    &&& #[trigger] call_ensures(
                        A::calc_boundaries,
                        (arithmetic, image_centre, xlen_real, ratio),
                        corners,
                    )
                    &&& r == resolved(
                        wide,
                        tall,
                        height,
                        corners,
                        width,
                        julia_centre,
                        escape_limit,
                        smooth_colours,
                        fractal_type,
                        palette,
                    )
                },
    {
        let wide = arithmetic.is_positive(xlen_real);
        let tall = arithmetic.is_positive(ratio);
        let height = arithmetic.scale(width, ratio);
        let corners = arithmetic.calc_boundaries(image_centre, xlen_real, ratio);
        if !wide {
            Err(ConfigError::NonPositiveExtent)
        } else if !tall {
            Err(ConfigError::NonPositiveRatio)
        } else if width == 0 {
            Err(ConfigError::ZeroWidth)
        } else if height == 0 {
            Err(ConfigError::ZeroHeight)
        } else if smooth_colours && escape_limit == usize::MAX {
            Err(ConfigError::EscapeLimitTooLarge)
        } else {
            let (bottom_left, top_right) = corners;
            Ok(
                RenderInfo {
                    width,
                    height,
                    escape_limit,
                    smooth_colours,
                    palette,
                    fractal_type,
                    julia_centre,
                    top_right,
                    bottom_left,
                },
            )
        }
    }
}

/// `p` is the colour of column `col` of the scan line at the vertical
/// coordinate `y_val`.
///
/// The horizontal coordinate of the column runs from the left edge of the
/// region to the right. The point is rendered where it stands, but for the
/// Burning Ship variant, which is rendered upside down: its vertical
/// coordinate is reflected between the top and the bottom edge first.
pub open spec fn is_pixel<A: Arithmetic>(
    a: &A,
    info: &RenderInfo<A::Scalar>,
    y_val: A::Scalar,
    col: u32,
    p: Pixel,
) -> bool {
    exists|x: A::Scalar, y: A::Scalar|
        {
            &&& #[trigger] call_ensures(
                A::distribute,
                (a, col, info.width, info.bottom_left.x, info.top_right.x),
                x,
            )
            &&& if info.fractal_type == FractalType::BurningShip {
                call_ensures(A::reverse, (a, y_val, info.top_right.y, info.bottom_left.y), y)
            } else {
                y == y_val
            }
            &&& #[trigger] renders(
                a,
                info.fractal_type,
                Point { x, y },
                info.julia_centre,
                info.escape_limit as nat,
                info.smooth_colours,
                info.palette@,
                p,
            )
        }
}

/// `y_val` is the vertical coordinate of the scan line `row`: the rows run
/// from the top edge of the region to the bottom.
pub open spec fn is_row_coordinate<A: Arithmetic>(
    a: &A,
    info: &RenderInfo<A::Scalar>,
    row: u32,
    y_val: A::Scalar,
) -> bool {
    call_ensures(A::distribute, (a, row, info.height, info.top_right.y, info.bottom_left.y), y_val)
}

/// `pixels` is the scan line `row`: one pixel for each column, all at the one
/// vertical coordinate of the row.
pub open spec fn is_row<A: Arithmetic>(
    a: &A,
    info: &RenderInfo<A::Scalar>,
    row: u32,
    pixels: Seq<Pixel>,
) -> bool {
    &&& pixels.len() == info.width
    &&& exists|y_val: A::Scalar|
        {
            &&& #[trigger] is_row_coordinate(a, info, row, y_val)
            &&& forall|col: int|
                0 <= col < info.width ==> is_pixel(a, info, y_val, col as u32, #[trigger] pixels[col])
        }
}

/// A scan line in the making: the columns from `col` on are still to come.
pub struct RowIter<'a, A: Arithmetic> {
    pub render_info: &'a RenderInfo<'a, A::Scalar>,
    pub arithmetic: &'a A,
    pub y_val: A::Scalar,
    pub col: u32,
}

/// Starts the scan line `row`: its vertical coordinate is computed once, for
/// the whole row.
pub fn iter_row<'a, A: Arithmetic>(
    render_info: &'a RenderInfo<'a, A::Scalar>,
    row: u32,
    arithmetic: &'a A,
) -> (it: RowIter<'a, A>)
    requires
        render_info.is_valid(),
        row < render_info.height,
    ensures
        it.render_info == render_info,
        it.arithmetic == arithmetic,
        it.col == 0,
        is_row_coordinate(arithmetic, render_info, row, it.y_val),
{
    // precalculate y_val for whole row
    let y_val = arithmetic.distribute(
        row,
        render_info.height,
        render_info.top_right.y,
        render_info.bottom_left.y,
    );

    RowIter { render_info, arithmetic, y_val, col: 0 }
}

/// Renders the scan line `row` from its first column to its last.
pub fn render_row<'a, A: Arithmetic>(
    render_info: &'a RenderInfo<'a, A::Scalar>,
    row: u32,
    arithmetic: &'a A,
) -> (pixels: Vec<Pixel>)
    requires
        render_info.is_valid(),
        row < render_info.height,
    ensures
        is_row(arithmetic, render_info, row, pixels@),
{
    iter_row(render_info, row, arithmetic).collect()
}

impl<'a, A: Arithmetic> RowIter<'a, A> {
    /// The pixel of the next column, or nothing once the row is through.
    pub fn next(&mut self) -> (item: Option<Pixel>)
        requires
            old(self).render_info.is_valid(),
        ensures
            final(self).render_info == old(self).render_info,
            final(self).arithmetic == old(self).arithmetic,
            final(self).y_val == old(self).y_val,
            match item {
                Some(p) => {
                    &&& old(self).col < old(self).render_info.width
                    &&& final(self).col == old(self).col + 1
                    &&& is_pixel(
                        old(self).arithmetic,
                        old(self).render_info,
                        old(self).y_val,
                        old(self).col,
                        p,
                    )
                },
                None => {
                    &&& old(self).col >= old(self).render_info.width
                    &&& final(self).col == old(self).col
                },
            },
    {
        if self.col < self.render_info.width {
            let x = self.arithmetic.distribute(
                self.col,
                self.render_info.width,
                self.render_info.bottom_left.x,
                self.render_info.top_right.x,
            );

            self.col += 1;

            // the Burning Ship is rendered upside down
            let y = match self.render_info.fractal_type {
                FractalType::BurningShip => self.arithmetic.reverse(
                    self.y_val,
                    self.render_info.top_right.y,
                    self.render_info.bottom_left.y,
                ),
                _ => self.y_val,
            };
            let start = Point::new(x, y);

            let p = match self.render_info.fractal_type {
                FractalType::Mandelbrot => mandelbrot(
                    start,
                    self.render_info.escape_limit,
                    self.render_info.smooth_colours,
                    self.render_info.palette,
                    self.arithmetic,
                ),
                FractalType::Julia => julia(
                    start,
                    self.render_info.julia_centre,
                    self.render_info.escape_limit,
                    self.render_info.smooth_colours,
                    self.render_info.palette,
                    self.arithmetic,
                ),
                FractalType::BurningShip => burning_ship(
                    start,
                    self.render_info.escape_limit,
                    self.render_info.smooth_colours,
                    self.render_info.palette,
                    self.arithmetic,
                ),
            };
            assert(renders(
                self.arithmetic,
                self.render_info.fractal_type,
                Point { x, y },
                self.render_info.julia_centre,
                self.render_info.escape_limit as nat,
                self.render_info.smooth_colours,
                self.render_info.palette@,
                p,
            ));
            Some(p)
        } else {
            None
        }
    }

    /// The pixels of the columns that are still to come, from left to right.
    pub fn collect(self) -> (pixels: Vec<Pixel>)
        requires
            self.render_info.is_valid(),
            self.col <= self.render_info.width,
        ensures
            pixels@.len() == self.render_info.width - self.col,
            forall|i: int|
                0 <= i < pixels@.len() ==> is_pixel(
                    self.arithmetic,
                    self.render_info,
                    self.y_val,
                    (self.col + i) as u32,
                    #[trigger] pixels@[i],
                ),
    {
        let ghost first = self.col;
        let mut it = self;
        let mut pixels: Vec<Pixel> = Vec::new();
        loop
            invariant
                it.render_info == self.render_info,
                it.arithmetic == self.arithmetic,
                it.y_val == self.y_val,
                it.render_info.is_valid(),
                first == self.col,
                first <= it.col <= it.render_info.width,
                pixels@.len() == it.col - first,
                forall|i: int|
                    0 <= i < pixels@.len() ==> is_pixel(
                        self.arithmetic,
                        self.render_info,
                        self.y_val,
                        (first + i) as u32,
                        #[trigger] pixels@[i],
                    ),
            ensures
                it.col == it.render_info.width,
            decreases it.render_info.width - it.col,
        {
            match it.next() {
                Some(p) => {
                    pixels.push(p);
                },
                None => {
                    break ;
                },
            }
        }
        pixels
    }
}

/// Rendering a scan line is repeatable: where the arithmetic is, a row of a
/// configuration has one scan line. Rendering the same configuration twice
/// gives the same rows, whoever renders them.
pub proof fn lemma_row_is_unique<A: Arithmetic>(
    a: &A,
    info: &RenderInfo<A::Scalar>,
    row: u32,
    pixels: Seq<Pixel>,
    again: Seq<Pixel>,
)
    requires
        is_repeatable(a),
        is_row(a, info, row, pixels),
        is_row(a, info, row, again),
    ensures
        pixels == again,
{
    let y_val = choose|y_val: A::Scalar|
        {
            &&& #[trigger] is_row_coordinate(a, info, row, y_val)
            &&& forall|col: int|
                0 <= col < info.width ==> is_pixel(a, info, y_val, col as u32, #[trigger] pixels[col])
        };
    let other = choose|y_val: A::Scalar|
        {
            &&& #[trigger] is_row_coordinate(a, info, row, y_val)
            &&& forall|col: int|
                0 <= col < info.width ==> is_pixel(a, info, y_val, col as u32, #[trigger] again[col])
        };
    assert(y_val == other);
    assert forall|col: int| 0 <= col < info.width implies pixels[col] == again[col] by {
        lemma_pixel_is_unique(a, info, y_val, col as u32, pixels[col], again[col]);
    }
    assert(pixels =~= again);
}

proof fn lemma_pixel_is_unique<A: Arithmetic>(
    a: &A,
    info: &RenderInfo<A::Scalar>,
    y_val: A::Scalar,
    col: u32,
    p: Pixel,
    q: Pixel,
)
    requires
        is_repeatable(a),
        is_pixel(a, info, y_val, col, p),
        is_pixel(a, info, y_val, col, q),
    ensures
        p == q,
{
    let (x, y) = choose|x: A::Scalar, y: A::Scalar|
        {
            &&& #[trigger] call_ensures(
                A::distribute,
                (a, col, info.width, info.bottom_left.x, info.top_right.x),
                x,
            )
            &&& if info.fractal_type == FractalType::BurningShip {
                call_ensures(A::reverse, (a, y_val, info.top_right.y, info.bottom_left.y), y)
            } else {
                y == y_val
            }
            &&& #[trigger] renders(
                a,
                info.fractal_type,
                Point { x, y },
                info.julia_centre,
                info.escape_limit as nat,
                info.smooth_colours,
                info.palette@,
                p,
            )
        };
    let (x2, y2) = choose|x: A::Scalar, y: A::Scalar|
        {
            &&& #[trigger] call_ensures(
                A::distribute,
                (a, col, info.width, info.bottom_left.x, info.top_right.x),
                x,
            )
            &&& if info.fractal_type == FractalType::BurningShip {
                call_ensures(A::reverse, (a, y_val, info.top_right.y, info.bottom_left.y), y)
            } else {
                y == y_val
            }
            &&& #[trigger] renders(
                a,
                info.fractal_type,
                Point { x, y },
                info.julia_centre,
                info.escape_limit as nat,
                info.smooth_colours,
                info.palette@,
                q,
            )
        };
    assert(x == x2 && y == y2);
    lemma_render_is_unique(
        a,
        info.fractal_type,
        Point { x, y },
        info.julia_centre,
        info.escape_limit as nat,
        info.smooth_colours,
        info.palette@,
        p,
        q,
    );
}

} // verus!
