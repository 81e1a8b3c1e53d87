//! The pixel buffer that scan lines are collected in.
//!
//! Scan lines arrive in any order; the buffer files each under its row number
//! and gives the image out as bytes only when every row is there: three bytes
//! a pixel, red first, the pixels of a row from left to right, the rows from
//! top to bottom.

use vstd::prelude::*;
use crate::cmap::Pixel;

verus! {

/// Why a buffer was not made, a row not taken, or the image not given out.
#[derive(Debug, Clone, Copy, PartialEq, Eq, Structural)]
pub enum BufferError {
    /// The image would have no columns.
    ZeroWidth,
    /// The image would have no rows.
    ZeroHeight,
    /// The image has no row of that number.
    RowOutOfRange,
    /// The row does not hold one pixel for each column.
    WrongWidth,
    /// A row of that number is in the buffer already.
    RowTaken,
    /// A row is missing.
    Incomplete,
}

/// Channel `k` of `p`: red for 0, green for 1, blue for anything else.
pub open spec fn channel(p: Pixel, k: int) -> u8 {
    if k == 0 {
        p.r
    } else if k == 1 {
        p.g
    } else {
        p.b
    }
}

/// The bytes of a row: red, green and blue of each pixel, in the order of the
/// pixels.
pub open spec fn channel_bytes(row: Seq<Pixel>) -> Seq<u8> {
    Seq::new(3 * row.len(), |i: int| channel(row[i / 3], i % 3))
}

/// The bytes of an image: the bytes of its rows, in the order of the rows.
pub open spec fn image_bytes(rows: Seq<Seq<Pixel>>) -> Seq<u8>
    decreases rows.len(),
{
    if rows.len() == 0 {
        Seq::empty()
    } else {
        image_bytes(rows.drop_last()) + channel_bytes(rows.last())
    }
}

/// Every row of `slots` is there.
pub open spec fn all_placed(slots: Seq<Option<Seq<Pixel>>>) -> bool {
    forall|i: int| 0 <= i < slots.len() ==> (#[trigger] slots[i]) is Some
}

/// The rows that `slots` holds.
pub open spec fn placed_rows(slots: Seq<Option<Seq<Pixel>>>) -> Seq<Seq<Pixel>> {
    Seq::new(
        slots.len(),
        |i: int|
            match slots[i] {
                Some(row) => row,
                None => Seq::empty(),
            },
    )
}

/// The slots after the rows `deliveries` were placed one after the other,
/// each under its number.
pub open spec fn deliver(
    slots: Seq<Option<Seq<Pixel>>>,
    deliveries: Seq<(int, Seq<Pixel>)>,
) -> Seq<Option<Seq<Pixel>>>
    decreases deliveries.len(),
{
    if deliveries.len() == 0 {
        slots
    } else {
        deliver(slots, deliveries.drop_last()).update(
            deliveries.last().0,
            Some(deliveries.last().1),
        )
    }
}

/// The bytes of `row` as the `rgb` crate lays them out.
///
/// Calls `rgb::ComponentBytes::as_bytes` on the row as a slice of `rgb::RGB<u8>`.
/// Trusted: the result holds three bytes for each pixel, its red, green and
/// blue component in that order, the pixels in the order of the row.
#[verifier::external_body]
fn row_bytes(row: &Vec<Pixel>) -> (bytes: Vec<u8>)
    ensures
        bytes@ == channel_bytes(row@),
{
    let pixels: Vec<rgb::RGB<u8>> = row.iter().map(|p| rgb::RGB { r: p.r, g: p.g, b: p.b }).collect();
    rgb::ComponentBytes::as_bytes(pixels.as_slice()).to_vec()
}

/// The rows of an image in the making, each filed under its number.
pub struct PixelBuffer {
    width: u32,
    rows: Vec<Option<Vec<Pixel>>>,
}

impl View for PixelBuffer {
    type V = Seq<Option<Seq<Pixel>>>;

    closed spec fn view(&self) -> Seq<Option<Seq<Pixel>>> {
        Seq::new(
            self.rows@.len(),
            |i: int|
                match self.rows@[i] {
                    Some(row) => Some(row@),
                    None => None,
                },
        )
    }
}

impl PixelBuffer {
    /// The number of columns.
    pub closed spec fn spec_width(&self) -> nat {
        self.width as nat
    }

    /// The buffer is as its methods leave it: it has a column and a row, no
    /// more rows than a `u32` counts, and each row in it is as wide as the
    /// image.
    pub closed spec fn wf(&self) -> bool {
        &&& self.width > 0
        &&& 0 < self.rows@.len() <= u32::MAX
        &&& forall|i: int|
            0 <= i < self.rows@.len() ==> (#[trigger] self.rows@[i] matches Some(row)
                ==> row@.len() == self.width)
    }

    /// What `wf` says of the view.
    pub proof fn lemma_wf(&self)
        requires
            self.wf(),
        ensures
            self.spec_width() > 0,
            0 < self@.len() <= u32::MAX,
            forall|i: int|
                0 <= i < self@.len() ==> (#[trigger] self@[i] matches Some(row) ==> row.len()
                    == self.spec_width()),
    {
    }

    /// An empty buffer for an image of `width` columns and `height` rows.
    pub fn new(width: u32, height: u32) -> (r: Result<PixelBuffer, BufferError>)
        ensures
            match r {
                Ok(buffer) => {
                    &&& width > 0 && height > 0
                    &&& buffer.wf()
                    &&& buffer.spec_width() == width
                    &&& buffer@ == Seq::new(height as nat, |i: int| None::<Seq<Pixel>>)
                },
                Err(e) => if width == 0 {
                    e == BufferError::ZeroWidth
                } else {
                    height == 0 && e == BufferError::ZeroHeight
                },
            },
    {
        if width == 0 {
            return Err(BufferError::ZeroWidth);
        }
        if height == 0 {
            return Err(BufferError::ZeroHeight);
        }
        let mut rows: Vec<Option<Vec<Pixel>>> = Vec::new();
        let mut k: u32 = 0;
        while k < height
            invariant
                k <= height,
                rows@.len() == k,
                forall|i: int| 0 <= i < k ==> (#[trigger] rows@[i]) is None,
            decreases height - k,
        {
            rows.push(None);
            k = k + 1;
        }
        let buffer = PixelBuffer { width, rows };
        Ok(buffer)
    }

    /// The number of columns.
    pub fn width(&self) -> (w: u32)
        ensures
            w == self.spec_width(),
            self.wf() ==> w > 0,
    {
        self.width
    }

    /// The number of rows.
    pub fn height(&self) -> (h: u32)
        requires
            self.wf(),
        ensures
            h == self@.len(),
            h > 0,
    {
        self.rows.len() as u32
    }

    /// Files `row` under the number `index`.
    ///
    /// The row is taken where the image has a row of that number, none is in
    /// the buffer yet, and `row` is as wide as the image. A row that is not
    /// taken leaves the buffer as it was.
    pub fn put_row(&mut self, index: u32, row: Vec<Pixel>) -> (r: Result<(), BufferError>)
        requires
            old(self).wf(),
        ensures
            final(self).wf(),
            final(self).spec_width() == old(self).spec_width(),
            match r {
                Ok(_) => {
                    &&& index < old(self)@.len()
                    &&& old(self)@[index as int] is None
                    &&& row@.len() == old(self).spec_width()
                    &&& final(self)@ == old(self)@.update(index as int, Some(row@))
                },
                Err(e) => {
                    &&& final(self)@ == old(self)@
                    &&& if index >= old(self)@.len() {
                        e == BufferError::RowOutOfRange
                    } else if row@.len() != old(self).spec_width() {
                        e == BufferError::WrongWidth
                    } else {
                        old(self)@[index as int] is Some && e == BufferError::RowTaken
                    }
                },
            },
    {
        if index as usize >= self.rows.len() {
            return Err(BufferError::RowOutOfRange);
        }
        if row.len() != self.width as usize {
            return Err(BufferError::WrongWidth);
        }
        if self.rows[index as usize].is_some() {
            return Err(BufferError::RowTaken);
        }
        let ghost before = self@;
        self.rows.set(index as usize, Some(row));
        assert(self@ =~= before.update(index as int, Some(row@)));
        Ok(())
    }

    /// Whether every row is there.
    pub fn is_complete(&self) -> (b: bool)
        ensures
            b == all_placed(self@),
    {
        let mut k: usize = 0;
        while k < self.rows.len()
            invariant
                k <= self.rows@.len(),
                forall|i: int| 0 <= i < k ==> (#[trigger] self@[i]) is Some,
            decreases self.rows@.len() - k,
        {
            if self.rows[k].is_none() {
                assert(self@[k as int] is None);
                return false;
            }
            k = k + 1;
        }
        true
    }

    /// Hands the finished image out as bytes, rows from top to bottom: three
    /// bytes for each pixel of each row.
    ///
    /// Nothing of an unfinished image is given out.
    pub fn into_bytes(self) -> (r: Result<Vec<u8>, BufferError>)
        ensures
            match r {
                Ok(bytes) => {
                    &&& all_placed(self@)
                    &&& bytes@ == image_bytes(placed_rows(self@))
                    &&& self.wf() ==> bytes@.len() == 3 * self.spec_width() * self@.len()
                },
                Err(e) => !all_placed(self@) && e == BufferError::Incomplete,
            },
    {
        let mut bytes: Vec<u8> = Vec::new();
        let mut k: usize = 0;
        let ghost rows = placed_rows(self@);
        while k < self.rows.len()
            invariant
                k <= self.rows@.len(),
                rows == placed_rows(self@),
                forall|i: int| 0 <= i < k ==> (#[trigger] self@[i]) is Some,
                bytes@ == image_bytes(rows.take(k as int)),
            decreases self.rows@.len() - k,
        {
            match &self.rows[k] {
                None => {
                    return Err(BufferError::Incomplete);
                },
                Some(row) => {
                    let mut more = row_bytes(row);
                    bytes.append(&mut more);
                    assert(rows.take(k + 1).drop_last() == rows.take(k as int));
                },
            }
            k = k + 1;
        }
        assert(rows.take(k as int) == rows);
        proof {
            if self.wf() {
                assert forall|i: int| 0 <= i < rows.len() implies (#[trigger] rows[i]).len()
                    == self.width by {
                    assert(self@[i] is Some);
                }
                lemma_image_bytes_len(rows, self.width as nat);
            }
        }
        Ok(bytes)
    }
}

/// The bytes of an image of `width` columns are in row-major order: the byte
/// of channel `k` of the pixel in column `x` of row `y` stands at
/// `3 * (y * width + x) + k`, and there are `3 * width * height` bytes.
pub proof fn lemma_image_bytes_row_major(rows: Seq<Seq<Pixel>>, width: nat, y: int, x: int, k: int)
    requires
        forall|i: int| 0 <= i < rows.len() ==> (#[trigger] rows[i]).len() == width,
        0 <= y < rows.len(),
        0 <= x < width,
        0 <= k < 3,
    ensures
        image_bytes(rows).len() == 3 * width * rows.len(),
        0 <= 3 * (y * width + x) + k < image_bytes(rows).len(),
        image_bytes(rows)[3 * (y * width + x) + k] == channel(rows[y][x], k),
    decreases rows.len(),
{
    let above = rows.drop_last();
    let last = rows.len() - 1;
    lemma_image_bytes_len(above, width);
    assert(3 * width * rows.len() == 3 * width * above.len() + 3 * width) by (nonlinear_arith)
        requires
            rows.len() == above.len() + 1,
    ;
    assert(3 * (y * width + x) + k < 3 * width * (y + 1)) by (nonlinear_arith)
        requires
            0 <= x < width,
            0 <= k < 3,
    ;
    if y < last {
        lemma_image_bytes_row_major(above, width, y, x, k);
    } else {
        assert(3 * (y * width + x) + k - 3 * width * above.len() == 3 * x + k) by (nonlinear_arith)
            requires
                y == above.len(),
        ;
        assert((3 * x + k) / 3 == x && (3 * x + k) % 3 == k);
    }
    assert(3 * width * (y + 1) <= 3 * width * rows.len()) by (nonlinear_arith)
        requires
            y + 1 <= rows.len(),
    ;
}

proof fn lemma_image_bytes_len(rows: Seq<Seq<Pixel>>, width: nat)
    requires
        forall|i: int| 0 <= i < rows.len() ==> (#[trigger] rows[i]).len() == width,
    ensures
        image_bytes(rows).len() == 3 * width * rows.len(),
    decreases rows.len(),
{
    if rows.len() > 0 {
        let above = rows.drop_last();
        lemma_image_bytes_len(above, width);
        assert(3 * width * rows.len() == 3 * width * above.len() + 3 * width) by (nonlinear_arith)
            requires
                rows.len() == above.len() + 1,
        ;
    } else {
        assert(3 * width * rows.len() == 0) by (nonlinear_arith)
            requires
                rows.len() == 0,
        ;
    }
}

/// Each row of `deliveries` has a number that `slots` has, and no two rows
/// have the same number.
pub open spec fn deliverable(
    slots: Seq<Option<Seq<Pixel>>>,
    deliveries: Seq<(int, Seq<Pixel>)>,
) -> bool {
    &&& forall|k: int| 0 <= k < deliveries.len() ==> 0 <= (#[trigger] deliveries[k]).0 < slots.len()
    &&& forall|j: int, k: int|
        0 <= j < k < deliveries.len() ==> (#[trigger] deliveries[j]).0 != (#[trigger] deliveries[k]).0
}

/// Each delivered row ends up under its number, and every other slot stays
/// as it was.
pub proof fn lemma_delivered_rows_are_placed(
    slots: Seq<Option<Seq<Pixel>>>,
    deliveries: Seq<(int, Seq<Pixel>)>,
)
    requires
        deliverable(slots, deliveries),
    ensures
        deliver(slots, deliveries).len() == slots.len(),
        forall|k: int|
            0 <= k < deliveries.len() ==> deliver(slots, deliveries)[(#[trigger] deliveries[k]).0]
                == Some(deliveries[k].1),
        forall|i: int|
            0 <= i < slots.len() && (forall|k: int|
                0 <= k < deliveries.len() ==> (#[trigger] deliveries[k]).0 != i) ==> (
            #[trigger] deliver(slots, deliveries)[i]) == slots[i],
    decreases deliveries.len(),
{
    if deliveries.len() > 0 {
        let earlier = deliveries.drop_last();
        lemma_delivered_rows_are_placed(slots, earlier);
        let after = deliver(slots, deliveries);
        assert forall|k: int| 0 <= k < deliveries.len() implies after[(#[trigger] deliveries[k]).0]
            == Some(deliveries[k].1) by {
            if k < earlier.len() {
                assert(earlier[k] == deliveries[k]);
            }
        }
        assert forall|i: int|
            0 <= i < slots.len() && (forall|k: int|
                0 <= k < deliveries.len() ==> (#[trigger] deliveries[k]).0 != i) implies (
        #[trigger] after[i]) == slots[i] by {
            assert forall|k: int| 0 <= k < earlier.len() implies (#[trigger] earlier[k]).0 != i by {
                assert(earlier[k] == deliveries[k]);
            }
        }
    }
}

/// The order in which rows arrive does not show in the buffer: the same rows,
/// delivered in two different orders, leave the same buffer.
pub proof fn lemma_delivery_order_is_irrelevant(
    slots: Seq<Option<Seq<Pixel>>>,
    deliveries: Seq<(int, Seq<Pixel>)>,
    reordered: Seq<(int, Seq<Pixel>)>,
)
    requires
        deliverable(slots, deliveries),
        deliverable(slots, reordered),
        forall|d: (int, Seq<Pixel>)| deliveries.contains(d) <==> reordered.contains(d),
    ensures
        deliver(slots, deliveries) == deliver(slots, reordered),
{
    lemma_delivered_rows_are_placed(slots, deliveries);
    lemma_delivered_rows_are_placed(slots, reordered);
    let one = deliver(slots, deliveries);
    let other = deliver(slots, reordered);
    assert forall|i: int| 0 <= i < slots.len() implies one[i] == other[i] by {
        if exists|k: int| 0 <= k < deliveries.len() && (#[trigger] deliveries[k]).0 == i {
            let k = choose|k: int| 0 <= k < deliveries.len() && (#[trigger] deliveries[k]).0 == i;
            assert(deliveries.contains(deliveries[k]));
            let j = choose|j: int| 0 <= j < reordered.len() && reordered[j] == deliveries[k];
            assert(other[reordered[j].0] == Some(reordered[j].1));
        } else {
            assert forall|j: int| 0 <= j < reordered.len() implies (#[trigger] reordered[j]).0
                != i by {
                assert(reordered.contains(reordered[j]));
                let k = choose|k: int| 0 <= k < deliveries.len() && deliveries[k] == reordered[j];
                assert(deliveries[k].0 == reordered[j].0);
            }
        }
    }
    assert(one =~= other);
}

} // verus!
