//! Drawing: the pixels of a buffer that shows a picture.

use vstd::arithmetic::div_mod::{
    lemma_div_denominator, lemma_div_is_ordered, lemma_div_multiples_vanish,
    lemma_fundamental_div_mod_converse,
};
use vstd::prelude::*;

use crate::picture::Picture;
use crate::pixmap::{lemma_offset, lemma_product, offset, Pixmap};

verus! {

/// The colour of the window where there is no picture.
pub const BACKGROUND: u32 = 0x93a7c9;

/// Red, green and blue in one number, eight bits each. Alpha is left out.
pub open spec fn packed(pixel: [u8; 4]) -> int {
    pixel[0] * 0x1_0000 + pixel[1] * 0x100 + pixel[2]
}

/// The place on a line of `length` pixels that stands for place `place` on a line
/// of `count` pixels.
pub open spec fn sampled(place: int, count: int, length: int) -> int {
    place * length / count
}

/// What a buffer of `columns` by `rows` pixels shows in column `x` of row `y`.
pub open spec fn shown(source: Option<Picture>, columns: int, rows: int, x: int, y: int) -> u32 {
    match source {
        Some(picture) => packed(
            picture.at(
                sampled(x, columns, picture.width as int),
                sampled(y, rows, picture.height as int),
            ),
        ) as u32,
        None => BACKGROUND,
    }
}

/// The pixels of a buffer of `columns` by `rows` pixels that shows `source`.
pub open spec fn frame(source: Option<Picture>, columns: int, rows: int) -> Seq<u32> {
    Seq::new(
        (columns * rows) as nat,
        |place: int| shown(source, columns, rows, place % columns, place / columns),
    )
}

/// Whether `source` can be drawn on a buffer of `columns` by `rows` pixels: it is
/// not empty, and the products that the drawing takes stay within 32 bits. Where
/// the buffer is empty, nothing is drawn.
pub open spec fn drawable(source: Option<Picture>, columns: int, rows: int) -> bool {
    source matches Some(picture) ==> columns > 0 && rows > 0 ==> {
        &&& picture.width > 0
        &&& picture.height > 0
        &&& (columns - 1) * picture.width <= u32::MAX
        &&& (rows - 1) * picture.height <= u32::MAX
    }
}

/// Whether what `source` holds is a picture.
pub open spec fn source_wf(source: Option<Picture>) -> bool {
    source matches Some(picture) ==> picture.wf()
}

/// Whether `source` can be drawn on a buffer of `columns` by `rows` pixels.
pub fn can_draw(source: &Option<Picture>, columns: u32, rows: u32) -> (can: bool)
    ensures
        can == drawable(*source, columns as int, rows as int),
{
    match source {
        Some(picture) => {
            if columns == 0 || rows == 0 {
                return true;
            }
            proof {
                lemma_product(columns - 1, picture.width as int);
                lemma_product(rows - 1, picture.height as int);
            }
            let across: u64 = (columns - 1) as u64 * picture.width as u64;
            let down: u64 = (rows - 1) as u64 * picture.height as u64;
            picture.width > 0 && picture.height > 0 && across <= u32::MAX as u64 && down
                <= u32::MAX as u64
        },
        None => true,
    }
}

/// Red, green and blue in one number.
fn pack(pixel: [u8; 4]) -> (number: u32)
    ensures
        number == packed(pixel),
{
    let r: u32 = pixel[0] as u32;
    let g: u32 = pixel[1] as u32;
    let b: u32 = pixel[2] as u32;
    assert((r << 16) | (g << 8) | b == r * 0x1_0000 + g * 0x100 + b) by (bit_vector)
        requires
            r <= 0xff,
            g <= 0xff,
            b <= 0xff,
    ;
    (r << 16) | (g << 8) | b
}

/// A sample lies on the line that it is taken from.
pub proof fn lemma_sampled(place: int, count: int, length: int)
    requires
        0 <= place < count,
        0 < length,
    ensures
        0 <= place * length <= (count - 1) * length,
        0 <= sampled(place, count, length) < length,
{
    assert(0 <= place * length <= (count - 1) * length) by (nonlinear_arith)
        requires
            0 <= place < count,
            0 < length,
    ;
    assert((count - 1) * length < count * length) by (nonlinear_arith)
        requires
            0 < length,
    ;
    assert(0 <= place * length / count < length) by (nonlinear_arith)
        requires
            0 <= place * length < count * length,
            0 < count,
    ;
}

/// The column and the row of a pixel, found again from its place.
pub proof fn lemma_place(columns: int, x: int, y: int)
    requires
        0 <= x < columns,
    ensures
        offset(columns, x, y) % columns == x,
        offset(columns, x, y) / columns == y,
{
    lemma_fundamental_div_mod_converse(offset(columns, x, y), columns, y, x);
}

impl Pixmap {
    /// Draws `source` over the whole buffer: the picture stretched to the buffer,
    /// each pixel taken from the proportional place, rounded down, or the background
    /// colour where there is no picture. An empty buffer stays as it is.
    pub fn draw(&mut self, source: &Option<Picture>)
        requires
            old(self).wf(),
            old(self).data is Some,
            source_wf(*source),
            drawable(*source, old(self).columns(), old(self).rows()),
        ensures
            final(self).width == old(self).width,
            final(self).height == old(self).height,
            final(self).scale == old(self).scale,
            final(self).data is Some,
            final(self).pixels() == frame(*source, old(self).columns(), old(self).rows()),
            old(self).columns() == 0 || old(self).rows() == 0 ==> final(self).pixels() == old(
                self,
            ).pixels(),
            final(self).wf(),
    {
        proof {
            self.lemma_sides();
        }
        let columns: u32 = self.buffer_width();
        let rows: u32 = self.buffer_height();
        match source {
            Some(picture) => {
                self.draw_picture(picture, columns, rows);
            },
            None => {
                self.fill(BACKGROUND);
            },
        }
        proof {
            assert(self.pixels() =~= frame(*source, columns as int, rows as int));
            if columns == 0 || rows == 0 {
                assert(columns * rows == 0) by (nonlinear_arith)
                    requires
                        columns == 0 || rows == 0,
                ;
                assert(self.pixels() =~= old(self).pixels());
            }
        }
    }

    /// Draws `picture` over the whole buffer, which has `columns` by `rows` pixels.
    fn draw_picture(&mut self, picture: &Picture, columns: u32, rows: u32)
        requires
            old(self).wf(),
            old(self).data is Some,
            columns == old(self).columns(),
            rows == old(self).rows(),
            picture.wf(),
            drawable(Some(*picture), columns as int, rows as int),
        ensures
            final(self).width == old(self).width,
            final(self).height == old(self).height,
            final(self).scale == old(self).scale,
            final(self).data is Some,
            final(self).pixels() == frame(Some(*picture), columns as int, rows as int),
            final(self).wf(),
    {
        let ghost width = self.width;
        let ghost height = self.height;
        let ghost scale = self.scale;
        let ghost all = frame(Some(*picture), columns as int, rows as int);
        let mut y: u32 = 0;
        while y < rows
            invariant
                y <= rows,
                self.wf(),
                self.data is Some,
                self.width == width,
                self.height == height,
                self.scale == scale,
                columns == self.columns(),
                rows == self.rows(),
                picture.wf(),
                drawable(Some(*picture), columns as int, rows as int),
                all == frame(Some(*picture), columns as int, rows as int),
                forall|place: int| 0 <= place < y * columns ==> self.pixels()[place] == all[place],
            decreases rows - y,
        {
            let mut x: u32 = 0;
            while x < columns
                invariant
                    x <= columns,
                    y < rows,
                    self.wf(),
                    self.data is Some,
                    self.width == width,
                    self.height == height,
                    self.scale == scale,
                    columns == self.columns(),
                    rows == self.rows(),
                    picture.wf(),
                    drawable(Some(*picture), columns as int, rows as int),
                    all == frame(Some(*picture), columns as int, rows as int),
                    forall|place: int|
                        0 <= place < y * columns + x ==> self.pixels()[place] == all[place],
                decreases columns - x,
            {
                proof {
                    lemma_offset(columns as int, rows as int, x as int, y as int);
                    lemma_place(columns as int, x as int, y as int);
                    lemma_sampled(x as int, columns as int, picture.width as int);
                    lemma_sampled(y as int, rows as int, picture.height as int);
                }
                let source_x: u32 = x * picture.width / columns;
                let source_y: u32 = y * picture.height / rows;
                let value: u32 = pack(picture.get_pixel(source_x, source_y));
                *self.pixel_mut(x, y) = value;
                x = x + 1;
            }
            proof {
                assert((y + 1) * columns == y * columns + columns) by (nonlinear_arith);
            }
            y = y + 1;
        }
        proof {
            assert(rows * columns == columns * rows) by (nonlinear_arith);
            assert(self.pixels() =~= all);
        }
    }

    /// Gives every pixel the same value.
    fn fill(&mut self, value: u32)
        requires
            old(self).wf(),
            old(self).data is Some,
        ensures
            final(self).width == old(self).width,
            final(self).height == old(self).height,
            final(self).scale == old(self).scale,
            final(self).data is Some,
            final(self).pixels().len() == old(self).pixels().len(),
            forall|place: int|
                0 <= place < final(self).pixels().len() ==> final(self).pixels()[place] == value,
            final(self).wf(),
    {
        let pixels = self.pixels_mut();
        let ghost count = pixels@.len();
        let mut place: usize = 0;
        while place < pixels.len()
            invariant
                place <= pixels@.len() == count,
                forall|done: int| 0 <= done < place ==> pixels@[done] == value,
            decreases pixels@.len() - place,
        {
            pixels[place] = value;
            place = place + 1;
        }
    }
}

/// The frame holds in each place what is to be shown there.
pub proof fn lemma_frame_pixel(source: Option<Picture>, columns: int, rows: int, x: int, y: int)
    requires
        0 <= x < columns,
        0 <= y < rows,
    ensures
        frame(source, columns, rows).len() == columns * rows,
        frame(source, columns, rows)[offset(columns, x, y)] == shown(source, columns, rows, x, y),
{
    lemma_offset(columns, rows, x, y);
    lemma_place(columns, x, y);
}

/// A picture of the size of the buffer is shown pixel by pixel.
pub proof fn lemma_same_size_is_exact(picture: Picture, x: int, y: int)
    requires
        0 <= x < picture.width,
        0 <= y < picture.height,
    ensures
        frame(Some(picture), picture.width as int, picture.height as int)[offset(
            picture.width as int,
            x,
            y,
        )] == packed(picture.at(x, y)),
{
    let columns = picture.width as int;
    let rows = picture.height as int;
    lemma_frame_pixel(Some(picture), columns, rows, x, y);
    lemma_div_multiples_vanish(x, columns);
    lemma_div_multiples_vanish(y, rows);
    assert(x * columns == columns * x) by (nonlinear_arith);
    assert(y * rows == rows * y) by (nonlinear_arith);
    lemma_packed(picture.at(x, y));
}

/// On a line that is a whole number of times as long, each pixel is repeated so many
/// times.
pub proof fn lemma_whole_factor_repeats(place: int, length: int, factor: int)
    requires
        0 < length,
        0 < factor,
        0 <= place,
    ensures
        sampled(place, factor * length, length) == place / factor,
{
    lemma_div_denominator(place * length, length, factor);
    lemma_div_multiples_vanish(place, length);
    assert(place * length == length * place) by (nonlinear_arith);
    assert(factor * length == length * factor) by (nonlinear_arith);
}

/// Samples keep the order of the places that they are taken for, and begin at the
/// beginning.
pub proof fn lemma_samples_in_order(place: int, later: int, count: int, length: int)
    requires
        0 <= place <= later < count,
        0 < length,
    ensures
        sampled(0, count, length) == 0,
        sampled(place, count, length) <= sampled(later, count, length),
{
    assert(place * length <= later * length) by (nonlinear_arith)
        requires
            place <= later,
            0 < length,
    ;
    lemma_div_is_ordered(place * length, later * length, count);
    assert(0int / count == 0) by (nonlinear_arith)
        requires
            0 < count,
    ;
}

/// No pixel that is shown uses the eight bits above its colours.
pub proof fn lemma_shown_is_a_colour(
    source: Option<Picture>,
    columns: int,
    rows: int,
    x: int,
    y: int,
)
    ensures
        shown(source, columns, rows, x, y) <= 0xff_ffff,
{
    if source is Some {
        let picture = source.unwrap();
        lemma_packed(
            picture.at(
                sampled(x, columns, picture.width as int),
                sampled(y, rows, picture.height as int),
            ),
        );
    }
}

/// Three colours of eight bits each make a number of 24 bits.
proof fn lemma_packed(pixel: [u8; 4])
    ensures
        0 <= packed(pixel) <= 0xff_ffff,
{
}

} // verus!
