//! How a buffer is made, drawn on and shown.

use vstd::prelude::*;

use crate::frame::{frame, lemma_frame_pixel, lemma_sampled, sampled, shown};
use crate::picture::Picture;
use crate::pixmap::{
    bytes_of, lemma_bytes, lemma_offset, lemma_sides_below_bytes, mappable, offset, Pixmap,
};
use crate::request::{Format, Request};
use crate::window::{allocation, presentation, Window};

verus! {

/// Whether place `sample` on a line of `length` pixels is the one that covers place `place`
/// on a line of `count` pixels, when both lines are stretched to the same length: `place`
/// begins in it.
pub open spec fn covers_place(sample: int, length: int, place: int, count: int) -> bool {
    sample * count <= place * length < (sample + 1) * count
}

/// Whether the pixel in column `sx` of row `sy` of `picture` covers the one in column `x`
/// of row `y` of a buffer of `columns` by `rows` pixels.
pub open spec fn covers_pixel(
    picture: Picture,
    sx: int,
    sy: int,
    columns: int,
    rows: int,
    x: int,
    y: int,
) -> bool {
    &&& 0 <= x < columns
    &&& 0 <= y < rows
    &&& 0 <= sx < picture.width
    &&& 0 <= sy < picture.height
    &&& covers_place(sx, picture.width as int, x, columns)
    &&& covers_place(sy, picture.height as int, y, rows)
}

/// Whether `pixels` depict `source` on `columns` by `rows` pixels: each has the red, green
/// and blue of the pixel of the picture that covers it, or the plain colour where there is
/// no picture.
pub open spec fn depicts(
    pixels: Seq<u32>,
    columns: int,
    rows: int,
    source: Option<Picture>,
) -> bool {
    &&& pixels.len() == columns * rows
    &&& match source {
        Some(picture) => forall|sx: int, sy: int, x: int, y: int| #[trigger]
            covers_pixel(picture, sx, sy, columns, rows, x, y) ==> {
                let pixel = picture.pixels@[sy * picture.width + sx];
                pixels[y * columns + x] == 0x1_0000 * pixel[0] + 0x100 * pixel[1] + pixel[2]
            },
        None => forall|place: int| 0 <= place < pixels.len() ==> #[trigger] pixels[place] == 0x93a7c9,
    }
}

/// Each place is covered by one sample, and by no other.
pub proof fn lemma_one_sample_covers(sample: int, length: int, place: int, count: int)
    requires
        0 <= place < count,
        0 < length,
    ensures
        0 <= sampled(place, count, length) < length,
        covers_place(sample, length, place, count) <==> sample == sampled(place, count, length),
{
    lemma_sampled(place, count, length);
    let product = place * length;
    let quotient = sampled(place, count, length);
    assert(quotient * count <= product < (quotient + 1) * count) by (nonlinear_arith)
        requires
            quotient == product / count,
            0 < count,
    ;
    if covers_place(sample, length, place, count) && sample != quotient {
        assert(sample < quotient + 1) by (nonlinear_arith)
            requires
                sample * count < (quotient + 1) * count,
                0 < count,
        ;
        assert(quotient < sample + 1) by (nonlinear_arith)
            requires
                quotient * count < (sample + 1) * count,
                0 < count,
        ;
    }
}

/// Every pixel of a buffer is covered by a pixel of the picture.
pub proof fn lemma_every_pixel_is_covered(picture: Picture, columns: int, rows: int, x: int, y: int)
    requires
        picture.width > 0,
        picture.height > 0,
        0 <= x < columns,
        0 <= y < rows,
    ensures
        exists|sx: int, sy: int| #[trigger] covers_pixel(picture, sx, sy, columns, rows, x, y),
{
    let sx = sampled(x, columns, picture.width as int);
    let sy = sampled(y, rows, picture.height as int);
    lemma_one_sample_covers(sx, picture.width as int, x, columns);
    lemma_one_sample_covers(sy, picture.height as int, y, rows);
    assert(covers_pixel(picture, sx, sy, columns, rows, x, y));
}

/// A frame depicts its source.
pub proof fn lemma_frame_depicts(source: Option<Picture>, columns: int, rows: int)
    requires
        columns >= 0,
        rows >= 0,
    ensures
        depicts(frame(source, columns, rows), columns, rows, source),
{
    let pixels = frame(source, columns, rows);
    assert(columns * rows >= 0) by (nonlinear_arith)
        requires
            columns >= 0,
            rows >= 0,
    ;
    if source is Some {
        let picture = source.unwrap();
        assert forall|sx: int, sy: int, x: int, y: int| #[trigger]
            covers_pixel(picture, sx, sy, columns, rows, x, y) implies {
            let pixel = picture.pixels@[sy * picture.width + sx];
            pixels[y * columns + x] == 0x1_0000 * pixel[0] + 0x100 * pixel[1] + pixel[2]
        } by {
            lemma_one_sample_covers(sx, picture.width as int, x, columns);
            lemma_one_sample_covers(sy, picture.height as int, y, rows);
            lemma_frame_pixel(source, columns, rows, x, y);
            assert(pixels[offset(columns, x, y)] == shown(source, columns, rows, x, y));
            assert(picture.at(sx, sy) == picture.pixels@[sy * picture.width + sx]);
        }
    }
}

/// The sides of a buffer are not negative.
pub proof fn lemma_sides(width: u32, height: u32, scale: u32)
    ensures
        width * scale >= 0,
        height * scale >= 0,
{
    assert(width * scale >= 0 && height * scale >= 0) by (nonlinear_arith)
        requires
            width >= 0,
            height >= 0,
            scale >= 0,
    ;
}

/// Drawing makes the buffer depict the source, and changes nothing else.
pub proof fn law_draw(pixmap: &mut Pixmap, source: &Option<Picture>)
    requires
        old(pixmap).wf(),
        call_ensures(Pixmap::draw, (pixmap, source), ()),
    ensures
        final(pixmap).width == old(pixmap).width,
        final(pixmap).height == old(pixmap).height,
        final(pixmap).scale == old(pixmap).scale,
        final(pixmap).data matches Some(pixels) && depicts(
            pixels@,
            old(pixmap).width * old(pixmap).scale,
            old(pixmap).height * old(pixmap).scale,
            *source,
        ),
{
    let columns = old(pixmap).columns();
    let rows = old(pixmap).rows();
    lemma_sides(old(pixmap).width, old(pixmap).height, old(pixmap).scale);
    lemma_frame_depicts(*source, columns, rows);
}

/// Whether the pixel in column `x` of row `y` lies in a part of the buffer.
pub open spec fn lies_inside(
    x: int,
    y: int,
    left: int,
    top: int,
    width: int,
    height: int,
) -> bool {
    left <= x < left + width && top <= y < top + height
}

/// Whether `request` reports every pixel of a buffer of `columns` by `rows` pixels as
/// changed.
pub open spec fn reports_all(request: Request, columns: int, rows: int) -> bool {
    request matches Request::DamageBuffer { x: left, y: top, width, height } && forall|
        x: int,
        y: int,
    |
        0 <= x < columns && 0 <= y < rows ==> #[trigger] lies_inside(
            x,
            y,
            left as int,
            top as int,
            width as int,
            height as int,
        )
}

/// Whether the requests show the buffer by those at four places: the pixels are painted,
/// the buffer is attached at the corner of the surface, all of it is reported as changed,
/// and the surface is committed.
pub open spec fn shows_at(
    requests: Seq<Request>,
    columns: int,
    rows: int,
    painted: int,
    attached: int,
    reported: int,
    committed: int,
) -> bool {
    &&& 0 <= painted < attached < reported < committed < requests.len()
    &&& requests[painted] == Request::Paint
    &&& requests[attached] == (Request::Attach { x: 0, y: 0 })
    &&& reports_all(requests[reported], columns, rows)
    &&& requests[committed] == Request::Commit
    &&& forall|i: int| painted < i < requests.len() ==> #[trigger] requests[i] != Request::Paint
}

/// Whether the requests show all that was painted.
pub open spec fn shows_all(requests: Seq<Request>, columns: int, rows: int) -> bool {
    exists|painted: int, attached: int, reported: int, committed: int| #[trigger]
        shows_at(requests, columns, rows, painted, attached, reported, committed)
}

/// Some requests and then a presentation show all of the buffer.
pub proof fn lemma_presentation_shows_all(before: Seq<Request>, columns: int, rows: int)
    requires
        mappable(columns, rows),
    ensures
        shows_all(before + presentation(columns, rows), columns, rows),
{
    let all = before + presentation(columns, rows);
    let n = before.len() as int;
    lemma_sides_below_bytes(columns, rows);
    assert(all[n] == Request::Paint);
    assert(all[n + 1] == (Request::Attach { x: 0, y: 0 }));
    assert(reports_all(all[n + 2], columns, rows));
    assert(all[n + 3] == Request::Commit);
    assert(shows_at(all, columns, rows, n, n + 1, n + 2, n + 3));
}

/// Whether two numbers have the same 32 bits.
pub open spec fn same_bits(a: int, b: int) -> bool {
    a == b || a + 0x1_0000_0000 == b || a == b + 0x1_0000_0000
}

/// Whether a buffer holds the pixels of a window with `columns` by `rows` pixels, in a pool
/// of `length` bytes: it has that size, each pixel is where the window has it, four bytes
/// for each, and all of it lies in the pool.
pub open spec fn holds_pixels(
    request: Request,
    columns: int,
    rows: int,
    length: int,
) -> bool {
    request matches Request::CreateBuffer { offset: start, width, height, stride, format } && {
        &&& width == columns
        &&& height == rows
        &&& format == Format::Xrgb8888
        &&& forall|x: int, y: int|
            0 <= x < columns && 0 <= y < rows ==> start + y * stride + 4 * x == 4
                * #[trigger] offset(columns, x, y)
        &&& start + stride * height <= length
    }
}

/// Whether the requests make a buffer by those at seven places: a file is opened, gets its
/// length, is mapped and removed, and a pool of that length is made on it, which holds the
/// buffer and is destroyed then.
pub open spec fn makes_at(
    requests: Seq<Request>,
    columns: int,
    rows: int,
    first: int,
) -> bool {
    let size = 4 * (columns * rows);
    &&& 0 <= first
    &&& first + 7 <= requests.len()
    &&& requests[first] matches Request::OpenMemory { path, mode } && path@ == "/dev/shm/bar"@
        && mode == 0o600
    &&& requests[first + 1] matches Request::ResizeMemory { size: length } && length == size
    &&& requests[first + 2] matches Request::MapMemory { size: length } && length == size
    &&& requests[first + 3] matches Request::UnlinkMemory { path } && path@ == "/dev/shm/bar"@
    &&& requests[first + 4] matches Request::CreatePool { length } && same_bits(
        length as int,
        size,
    ) && (size <= i32::MAX ==> holds_pixels(requests[first + 5], columns, rows, length as int))
    &&& requests[first + 5] matches Request::CreateBuffer { offset, width, height, stride, format }
        && offset == 0 && same_bits(width as int, columns) && same_bits(height as int, rows)
        && same_bits(stride as int, 4 * columns) && format == Format::Xrgb8888
    &&& requests[first + 6] == Request::DestroyPool
}

/// Whether the requests make a buffer.
pub open spec fn makes_buffer(requests: Seq<Request>, columns: int, rows: int) -> bool {
    exists|first: int| #[trigger] makes_at(requests, columns, rows, first)
}

/// Some requests, an allocation and other requests make a buffer.
pub proof fn lemma_allocation_makes_buffer(
    before: Seq<Request>,
    columns: int,
    rows: int,
    replaces: bool,
    after: Seq<Request>,
)
    requires
        mappable(columns, rows),
    ensures
        makes_buffer(before + allocation(columns, rows, replaces) + after, columns, rows),
{
    let made = allocation(columns, rows, replaces);
    let all = before + made + after;
    let n = before.len() as int;
    lemma_bytes(columns, rows);
    lemma_sides_below_bytes(columns, rows);
    assert(forall|i: int| 0 <= i < 7 ==> all[n + i] == made[i]);
    assert(all[n + 4] == made[4]);
    assert(all[n + 5] == made[5]);
    if bytes_of(columns, rows) <= i32::MAX {
        assert forall|x: int, y: int| 0 <= x < columns && 0 <= y < rows implies 0 + y * (columns
            * 4) + 4 * x == 4 * #[trigger] offset(columns, x, y) by {
            assert(y * (columns * 4) == 4 * (y * columns)) by (nonlinear_arith);
        }
        assert(holds_pixels(all[n + 5], columns, rows, bytes_of(columns, rows)));
    }
    assert(makes_at(all, columns, rows, n));
}

/// A window that gets a buffer has as many pixels as the buffer holds, all of them zero, and
/// the requests make that buffer.
pub proof fn law_allocate_buffer(window: &mut Window, requests: Vec<Request>)
    requires
        0 < 4 * (old(window).pixmap.columns() * old(window).pixmap.rows()) <= u32::MAX,
        call_ensures(Window::allocate_buffer, (window,), requests),
    ensures
        call_requires(Window::allocate_buffer, (window,)),
        final(window).pixmap.width == old(window).pixmap.width,
        final(window).pixmap.height == old(window).pixmap.height,
        final(window).pixmap.scale == old(window).pixmap.scale,
        final(window).has_buffer,
        final(window).pixmap.data matches Some(pixels) && {
            &&& pixels@.len() == old(window).pixmap.columns() * old(window).pixmap.rows()
            &&& forall|place: int| 0 <= place < pixels@.len() ==> #[trigger] pixels@[place] == 0
        },
        makes_buffer(
            requests@,
            old(window).pixmap.columns(),
            old(window).pixmap.rows(),
        ),
        requests@.contains(Request::DestroyReplacedBuffer) <==> old(window).has_buffer,
        requests@.len() == if old(window).has_buffer {
            8int
        } else {
            7int
        },
{
    let columns = old(window).pixmap.columns();
    let rows = old(window).pixmap.rows();
    lemma_mappable_by_area(old(window).pixmap.width, old(window).pixmap.height, old(
        window,
    ).pixmap.scale);
    let empty = Seq::<Request>::empty();
    let made = allocation(columns, rows, old(window).has_buffer);
    lemma_allocation_makes_buffer(empty, columns, rows, old(window).has_buffer, empty);
    assert(empty + made + empty =~= made);
    if old(window).has_buffer {
        assert(made[7] == Request::DestroyReplacedBuffer);
    }
}

/// A buffer can be had where its pixels take at least one byte, and a number of bytes that
/// has 32 bits.
pub proof fn lemma_mappable_by_area(width: u32, height: u32, scale: u32)
    ensures
        mappable(width * scale, height * scale) <==> 0 < 4 * ((width * scale) * (height * scale))
            <= u32::MAX,
{
    let columns = width * scale;
    let rows = height * scale;
    lemma_bytes(columns, rows);
    lemma_sides(width, height, scale);
    if columns > 0 && rows > 0 {
        lemma_sides_below_bytes(columns, rows);
        lemma_offset(columns, rows, 0, 0);
    } else {
        assert(columns * rows == 0) by (nonlinear_arith)
            requires
                columns == 0 || rows == 0,
        ;
    }
}

/// A window that is drawn depicts the source, and the requests show all of it.
pub proof fn law_render(window: &mut Window, source: &Option<Picture>, requests: Vec<Request>)
    requires
        old(window).wf(),
        old(window).has_buffer,
        call_ensures(Window::render, (window, source), requests),
    ensures
        final(window).pixmap.width == old(window).pixmap.width,
        final(window).pixmap.height == old(window).pixmap.height,
        final(window).pixmap.scale == old(window).pixmap.scale,
        final(window).has_buffer,
        final(window).pixmap.data matches Some(pixels) && depicts(
            pixels@,
            old(window).pixmap.columns(),
            old(window).pixmap.rows(),
            *source,
        ),
        requests@.len() == 4,
        shows_all(
            requests@,
            old(window).pixmap.columns(),
            old(window).pixmap.rows(),
        ),
{
    let columns = old(window).pixmap.columns();
    let rows = old(window).pixmap.rows();
    old(window).pixmap.lemma_sides();
    lemma_frame_depicts(*source, columns, rows);
    let empty = Seq::<Request>::empty();
    lemma_presentation_shows_all(empty, columns, rows);
    assert(empty + presentation(columns, rows) =~= presentation(columns, rows));
}

} // verus!
