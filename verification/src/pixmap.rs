//! The pixels of the window.

use vstd::arithmetic::div_mod::lemma_fundamental_div_mod_converse;
use vstd::prelude::*;

verus! {

/// A rectangle of 32-bit pixels, stored row by row.
///
/// `width` and `height` count logical pixels. The buffer has `scale` times as
/// many columns and rows.
#[derive(Debug, Clone)]
pub struct Pixmap {
    pub width: u32,
    pub height: u32,
    /// The pixels of the buffer, once there is one.
    pub data: Option<Vec<u32>>,
    pub scale: u32,
}

/// The place of the pixel in column `x` of row `y`, where a row has `columns`
/// pixels.
pub open spec fn offset(columns: int, x: int, y: int) -> int {
    y * columns + x
}

/// The size in bytes of `columns` by `rows` pixels.
pub open spec fn bytes_of(columns: int, rows: int) -> int {
    columns * 4 * rows
}

/// Whether a buffer of `columns` by `rows` pixels can be described by 32-bit
/// numbers: its sides, its stride and its size in bytes.
pub open spec fn fits(columns: int, rows: int) -> bool {
    &&& columns * 4 <= u32::MAX
    &&& rows <= u32::MAX
    &&& bytes_of(columns, rows) <= u32::MAX
}

/// Whether a buffer of `columns` by `rows` pixels can be had: it can be described, and
/// it has pixels. There is no memory of no size.
pub open spec fn mappable(columns: int, rows: int) -> bool {
    &&& columns > 0
    &&& rows > 0
    &&& fits(columns, rows)
}

/// Whether a buffer of this size and scale can be had.
pub fn buffer_fits(width: u32, height: u32, scale: u32) -> (fitting: bool)
    ensures
        fitting == mappable(width * scale, height * scale),
{
    proof {
        lemma_product(width as int, scale as int);
        lemma_product(height as int, scale as int);
    }
    let columns: u64 = width as u64 * scale as u64;
    let rows: u64 = height as u64 * scale as u64;
    if columns == 0 || rows == 0 || columns > (u32::MAX / 4) as u64 || rows > u32::MAX as u64 {
        return false;
    }
    let stride: u64 = columns * 4;
    proof {
        lemma_product(stride as int, rows as int);
    }
    stride * rows <= u32::MAX as u64
}

impl Default for Pixmap {
    /// A pixmap without pixels, unscaled.
    fn default() -> (pixmap: Self)
        ensures
            pixmap.width == 0,
            pixmap.height == 0,
            pixmap.data is None,
            pixmap.scale == 1,
            pixmap.wf(),
    {
        Pixmap { width: 0, height: 0, data: None, scale: 1 }
    }
}

impl Pixmap {
    /// The number of columns of the buffer.
    pub open spec fn columns(&self) -> int {
        self.width * self.scale
    }

    /// The number of rows of the buffer.
    pub open spec fn rows(&self) -> int {
        self.height * self.scale
    }

    /// Whether the buffer of this size and scale can be described.
    pub open spec fn describable(&self) -> bool {
        fits(self.columns(), self.rows())
    }

    /// The pixels that are there are those of a describable buffer.
    pub open spec fn wf(&self) -> bool {
        self.data matches Some(data) ==> {
            &&& self.describable()
            &&& data@.len() == self.columns() * self.rows()
        }
    }

    /// The pixels.
    pub open spec fn pixels(&self) -> Seq<u32> {
        self.data.unwrap()@
    }

    /// What a describable buffer measures.
    pub proof fn lemma_sides(&self)
        requires
            self.describable(),
        ensures
            0 <= self.columns() <= u32::MAX,
            0 <= self.rows() <= u32::MAX,
            0 <= self.columns() * self.rows() <= u32::MAX,
    {
        lemma_area(self.width as int, self.scale as int);
        lemma_area(self.height as int, self.scale as int);
        lemma_area(self.columns(), self.rows());
        lemma_bytes(self.columns(), self.rows());
    }

    /// The number of columns of the buffer.
    pub fn buffer_width(&self) -> (columns: u32)
        requires
            self.columns() <= u32::MAX,
        ensures
            columns == self.columns(),
    {
        self.width * self.scale
    }

    /// The number of rows of the buffer.
    pub fn buffer_height(&self) -> (rows: u32)
        requires
            self.rows() <= u32::MAX,
        ensures
            rows == self.rows(),
    {
        self.height * self.scale
    }

    /// The number of bytes from one row to the next.
    pub fn buffer_stride(&self) -> (stride: u32)
        requires
            self.columns() * 4 <= u32::MAX,
        ensures
            stride == self.columns() * 4,
    {
        proof {
            lemma_area(self.width as int, self.scale as int);
        }
        self.buffer_width() * 4
    }

    /// The size of the buffer in bytes.
    pub fn byte_size(&self) -> (size: u32)
        requires
            self.describable(),
        ensures
            size == bytes_of(self.columns(), self.rows()),
    {
        self.buffer_stride() * self.buffer_height()
    }

    /// The size in bytes of the memory to unmap, where there is any. The pixels stay
    /// until there are others.
    pub fn unmap(&self) -> (released: Option<u32>)
        requires
            self.wf(),
        ensures
            released is Some <==> self.data is Some,
            released matches Some(size) ==> size == bytes_of(self.columns(), self.rows()),
    {
        if self.data.is_some() {
            Some(self.byte_size())
        } else {
            None
        }
    }

    /// All the pixels, row by row.
    pub fn pixels_mut(&mut self) -> (pixels: &mut [u32])
        requires
            old(self).wf(),
            old(self).data is Some,
        ensures
            pixels@ == old(self).pixels(),
            final(self).width == old(self).width,
            final(self).height == old(self).height,
            final(self).scale == old(self).scale,
            final(self).data is Some,
            final(self).pixels() == final(pixels)@,
            final(pixels)@.len() == pixels@.len() ==> final(self).wf(),
    {
        self.data.as_mut().unwrap().as_mut_slice()
    }

    /// The place of the pixel in column `x` of row `y`.
    fn position(&self, x: u32, y: u32) -> (place: usize)
        requires
            self.wf(),
            self.data is Some,
            offset(self.columns(), x as int, y as int) < self.pixels().len(),
        ensures
            place == offset(self.columns(), x as int, y as int),
    {
        proof {
            self.lemma_sides();
            lemma_area(y as int, self.columns());
        }
        (y * self.buffer_width() + x) as usize
    }

    /// The pixel in column `x` of row `y`.
    pub fn pixel(&self, x: u32, y: u32) -> (pixel: u32)
        requires
            self.wf(),
            self.data is Some,
            offset(self.columns(), x as int, y as int) < self.pixels().len(),
        ensures
            pixel == self.pixels()[offset(self.columns(), x as int, y as int)],
    {
        let place: usize = self.position(x, y);
        self.data.as_ref().unwrap()[place]
    }

    /// The pixel in column `x` of row `y`, to be changed.
    pub fn pixel_mut(&mut self, x: u32, y: u32) -> (pixel: &mut u32)
        requires
            old(self).wf(),
            old(self).data is Some,
            offset(old(self).columns(), x as int, y as int) < old(self).pixels().len(),
        ensures
            *pixel == old(self).pixels()[offset(old(self).columns(), x as int, y as int)],
            final(self).width == old(self).width,
            final(self).height == old(self).height,
            final(self).scale == old(self).scale,
            final(self).data is Some,
            final(self).pixels() == old(self).pixels().update(
                offset(old(self).columns(), x as int, y as int),
                *final(pixel),
            ),
            final(self).wf(),
    {
        let place: usize = self.position(x, y);
        proof {
            lemma_area(y as int, self.columns());
        }
        &mut self.pixels_mut()[place]
    }
}

/// A product of numbers that are not negative is not negative.
proof fn lemma_area(a: int, b: int)
    requires
        a >= 0,
        b >= 0,
    ensures
        a * b >= 0,
{
    assert(a * b >= 0) by (nonlinear_arith)
        requires
            a >= 0,
            b >= 0,
    ;
}

/// The product of two 32-bit numbers is a 64-bit number.
pub proof fn lemma_product(a: int, b: int)
    requires
        0 <= a <= u32::MAX,
        0 <= b <= u32::MAX,
    ensures
        0 <= a * b <= u64::MAX,
{
    assert(0 <= a * b <= 0xffff_ffff * 0xffff_ffff) by (nonlinear_arith)
        requires
            0 <= a <= 0xffff_ffff,
            0 <= b <= 0xffff_ffff,
    ;
}

/// A pixel inside the buffer has its place among the pixels.
pub proof fn lemma_offset(columns: int, rows: int, x: int, y: int)
    requires
        0 <= x < columns,
        0 <= y < rows,
    ensures
        0 <= y * columns <= offset(columns, x, y) < columns * rows,
{
    assert(0 <= y * columns && y * columns + x < columns * rows) by (nonlinear_arith)
        requires
            0 <= x < columns,
            0 <= y < rows,
    ;
}

/// The size in bytes is four times the number of pixels.
pub proof fn lemma_bytes(columns: int, rows: int)
    ensures
        bytes_of(columns, rows) == 4 * (columns * rows),
{
    assert(columns * 4 * rows == 4 * (columns * rows)) by (nonlinear_arith);
}

/// A row, and a column of bytes, is no larger than a buffer that has pixels.
pub proof fn lemma_sides_below_bytes(columns: int, rows: int)
    requires
        columns > 0,
        rows > 0,
    ensures
        columns * 4 <= bytes_of(columns, rows),
        4 * rows <= bytes_of(columns, rows),
{
    assert(columns * 4 <= columns * 4 * rows) by (nonlinear_arith)
        requires
            columns > 0,
            rows > 0,
    ;
    assert(4 * rows <= columns * 4 * rows) by (nonlinear_arith)
        requires
            columns > 0,
            rows > 0,
    ;
}

/// Two different places of the buffer do not share a pixel.
pub proof fn lemma_offsets_differ(columns: int, x: int, y: int, other_x: int, other_y: int)
    requires
        0 <= x < columns,
        0 <= other_x < columns,
        offset(columns, x, y) == offset(columns, other_x, other_y),
    ensures
        x == other_x,
        y == other_y,
{
    lemma_fundamental_div_mod_converse(offset(columns, x, y), columns, y, x);
    lemma_fundamental_div_mod_converse(
        offset(columns, other_x, other_y),
        columns,
        other_y,
        other_x,
    );
}

/// A pixel that was written is read back, and no other pixel has changed.
pub proof fn lemma_write_then_read(
    before: Pixmap,
    after: Pixmap,
    x: int,
    y: int,
    value: u32,
    other_x: int,
    other_y: int,
)
    requires
        before.wf(),
        before.data is Some,
        0 <= x < before.columns(),
        0 <= y < before.rows(),
        0 <= other_x < before.columns(),
        0 <= other_y < before.rows(),
        after.pixels() == before.pixels().update(offset(before.columns(), x, y), value),
    ensures
        after.pixels()[offset(before.columns(), x, y)] == value,
        (x, y) != (other_x, other_y) ==> after.pixels()[offset(
            before.columns(),
            other_x,
            other_y,
        )] == before.pixels()[offset(before.columns(), other_x, other_y)],
{
    lemma_offset(before.columns(), before.rows(), x, y);
    lemma_offset(before.columns(), before.rows(), other_x, other_y);
    if offset(before.columns(), x, y) == offset(before.columns(), other_x, other_y) {
        lemma_offsets_differ(before.columns(), x, y, other_x, other_y);
    }
}

/// All four bytes of a pixel lie in the memory of the buffer, in the row that its
/// stride gives.
pub proof fn lemma_pixel_is_in_memory(columns: int, rows: int, x: int, y: int)
    requires
        0 <= x < columns,
        0 <= y < rows,
    ensures
        4 * offset(columns, x, y) == y * (columns * 4) + 4 * x,
        0 <= 4 * offset(columns, x, y),
        4 * offset(columns, x, y) + 4 <= bytes_of(columns, rows),
{
    lemma_offset(columns, rows, x, y);
    lemma_bytes(columns, rows);
    assert(y * (columns * 4) == 4 * (y * columns)) by (nonlinear_arith);
}

} // verus!
