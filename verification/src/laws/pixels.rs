//! Pixels, their places and their sizes, and the numbers of the protocol.

use vstd::prelude::*;

use crate::event::Capabilities;
use crate::frame::can_draw;
use crate::globals::{interface_named, is_kept, protocol_name, takes_note, Global, Globals};
use crate::laws::showing::{lemma_mappable_by_area, lemma_sides, same_bits};
use crate::picture::Picture;
use crate::pixmap::{buffer_fits, lemma_bytes, Pixmap};
use crate::request::{to_signed, to_unsigned, Interface};

verus! {

/// A buffer can be had where its pixels take at least one byte, and a number of bytes that
/// has 32 bits.
pub proof fn law_buffer_fits(width: u32, height: u32, scale: u32, fitting: bool)
    requires
        call_ensures(buffer_fits, (width, height, scale), fitting),
    ensures
        fitting <==> 0 < 4 * ((width * scale) * (height * scale)) <= u32::MAX,
{
    lemma_mappable_by_area(width, height, scale);
}

/// The sizes of a buffer agree: its sides are those of the window times the scale, a pixel
/// takes four bytes, a row takes the bytes of its pixels and the buffer those of its rows.
pub proof fn law_sizes(pixmap: &Pixmap, columns: u32, rows: u32, stride: u32, size: u32)
    requires
        call_ensures(Pixmap::buffer_width, (pixmap,), columns),
        call_ensures(Pixmap::buffer_height, (pixmap,), rows),
        call_ensures(Pixmap::buffer_stride, (pixmap,), stride),
        call_ensures(Pixmap::byte_size, (pixmap,), size),
    ensures
        columns == pixmap.width * pixmap.scale,
        rows == pixmap.height * pixmap.scale,
        stride == 4 * columns,
        size == stride * rows,
        size == 4 * (columns * rows),
{
    lemma_bytes(pixmap.columns(), pixmap.rows());
}

/// The sizes of a buffer that takes no more bytes than 32 bits can count can be asked for.
pub proof fn law_sizes_can_be_had(pixmap: &Pixmap)
    requires
        0 < 4 * (pixmap.columns() * pixmap.rows()) <= u32::MAX,
    ensures
        call_requires(Pixmap::buffer_width, (pixmap,)),
        call_requires(Pixmap::buffer_height, (pixmap,)),
        call_requires(Pixmap::buffer_stride, (pixmap,)),
        call_requires(Pixmap::byte_size, (pixmap,)),
{
    lemma_mappable_by_area(pixmap.width, pixmap.height, pixmap.scale);
    pixmap.lemma_sides();
}

/// The memory to unmap is that of the pixels, four bytes for each.
pub proof fn law_unmap(pixmap: &Pixmap, released: Option<u32>)
    requires
        pixmap.wf(),
        call_ensures(Pixmap::unmap, (pixmap,), released),
    ensures
        call_requires(Pixmap::unmap, (pixmap,)),
        match pixmap.data {
            Some(pixels) => released matches Some(size) && size == 4 * pixels@.len(),
            None => released is None,
        },
{
    lemma_bytes(pixmap.columns(), pixmap.rows());
}

/// The pixel in column `x` of row `y` comes after `y` rows and `x` pixels.
pub proof fn law_pixel(pixmap: &Pixmap, x: u32, y: u32, pixel: u32)
    requires
        pixmap.wf(),
        pixmap.data is Some,
        y * (pixmap.width * pixmap.scale) + x < pixmap.data.unwrap()@.len(),
        call_ensures(Pixmap::pixel, (pixmap, x, y), pixel),
    ensures
        call_requires(Pixmap::pixel, (pixmap, x, y)),
        pixel == pixmap.data.unwrap()@[y * (pixmap.width * pixmap.scale) + x],
{
}

/// A pixel that is written is read back, and every other pixel stays as it was.
pub proof fn law_write_pixel(
    pixmap: &mut Pixmap,
    x: u32,
    y: u32,
    written: &mut u32,
    place: int,
)
    requires
        old(pixmap).wf(),
        old(pixmap).data is Some,
        y * (old(pixmap).width * old(pixmap).scale) + x < old(pixmap).data.unwrap()@.len(),
        0 <= place < old(pixmap).data.unwrap()@.len(),
        call_ensures(Pixmap::pixel_mut, (pixmap, x, y), written),
    ensures
        call_requires(Pixmap::pixel_mut, (pixmap, x, y)),
        final(pixmap).width == old(pixmap).width,
        final(pixmap).height == old(pixmap).height,
        final(pixmap).scale == old(pixmap).scale,
        final(pixmap).data matches Some(pixels) && {
            &&& pixels@.len() == old(pixmap).data.unwrap()@.len()
            &&& pixels@[place] == if place == y * (old(pixmap).width * old(pixmap).scale) + x {
                *final(written)
            } else {
                old(pixmap).data.unwrap()@[place]
            }
        },
{
    lemma_sides(old(pixmap).width, old(pixmap).height, old(pixmap).scale);
    let columns = old(pixmap).columns();
    assert(y * columns >= 0) by (nonlinear_arith)
        requires
            y >= 0,
            columns >= 0,
    ;
}

/// All pixels can be changed at once, and nothing else is.
pub proof fn law_write_pixels(pixmap: &mut Pixmap, written: &mut [u32])
    requires
        old(pixmap).wf(),
        old(pixmap).data is Some,
        call_ensures(Pixmap::pixels_mut, (pixmap,), written),
    ensures
        call_requires(Pixmap::pixels_mut, (pixmap,)),
        old(written)@ == old(pixmap).data.unwrap()@,
        final(pixmap).width == old(pixmap).width,
        final(pixmap).height == old(pixmap).height,
        final(pixmap).scale == old(pixmap).scale,
        final(pixmap).data matches Some(pixels) && pixels@ == final(written)@,
{
}

/// A picture can be drawn where it is not empty and the products that the drawing takes are
/// numbers of 32 bits.
pub proof fn law_can_draw(source: &Option<Picture>, columns: u32, rows: u32, can: bool)
    requires
        columns > 0,
        rows > 0,
        call_ensures(can_draw, (source, columns, rows), can),
    ensures
        match *source {
            Some(picture) => can <==> picture.width > 0 && picture.height > 0 && (columns - 1)
                * picture.width <= u32::MAX && (rows - 1) * picture.height <= u32::MAX,
            None => can,
        },
{
}

/// The pixel in column `x` of row `y` of a picture comes after `y` rows and `x` pixels.
pub proof fn law_get_pixel(picture: &Picture, x: u32, y: u32, pixel: [u8; 4])
    requires
        picture.wf(),
        x < picture.width,
        y < picture.height,
        call_ensures(Picture::get_pixel, (picture, x, y), pixel),
    ensures
        call_requires(Picture::get_pixel, (picture, x, y)),
        pixel == picture.pixels@[y * picture.width + x],
{
}

/// A number of 32 bits keeps its bits, with a sign and without one, and comes back.
pub proof fn law_signs(n: u32, signed: i32, back: u32)
    requires
        call_ensures(to_signed, (n,), signed),
        call_ensures(to_unsigned, (signed,), back),
    ensures
        same_bits(signed as int, n as int),
        back == n,
{
}

/// A number of 32 bits keeps its bits without its sign.
pub proof fn law_unsigned(n: i32, unsigned: u32)
    requires
        call_ensures(to_unsigned, (n,), unsigned),
    ensures
        same_bits(unsigned as int, n as int),
{
}

/// There is a pointer where the capabilities are known and the lowest bit is set.
pub proof fn law_has_pointer(capabilities: &Capabilities, has: bool)
    requires
        call_ensures(Capabilities::has_pointer, (capabilities,), has),
    ensures
        has <==> (*capabilities matches Capabilities::Value { bits } && bits % 2 == 1),
{
}

/// The four interfaces are known by their names in the protocol, and no other is.
pub proof fn law_interface_named(text: &str, found: Option<Interface>)
    requires
        call_ensures(interface_named, (text,), found),
    ensures
        text@ == "wl_compositor"@ <==> found == Some(Interface::Compositor),
        text@ == "wl_shm"@ <==> found == Some(Interface::Shm),
        text@ == "zwlr_layer_shell_v1"@ <==> found == Some(Interface::LayerShell),
        text@ == "wp_cursor_shape_manager_v1"@ <==> found == Some(Interface::CursorShapeManager),
{
    lemma_lengths();
    assert(protocol_name(Interface::Compositor) == "wl_compositor"@);
    assert(protocol_name(Interface::Shm) == "wl_shm"@);
    assert(protocol_name(Interface::LayerShell) == "zwlr_layer_shell_v1"@);
    assert(protocol_name(Interface::CursorShapeManager) == "wp_cursor_shape_manager_v1"@);
}

/// The names of the interfaces differ in their lengths.
proof fn lemma_lengths()
    ensures
        "wl_compositor"@.len() == 13,
        "wl_shm"@.len() == 6,
        "zwlr_layer_shell_v1"@.len() == 19,
        "wp_cursor_shape_manager_v1"@.len() == 26,
{
    reveal_strlit("wl_compositor");
    reveal_strlit("wl_shm");
    reveal_strlit("zwlr_layer_shell_v1");
    reveal_strlit("wp_cursor_shape_manager_v1");
}

/// A global of one of the four interfaces is kept as it is announced, in place of an earlier
/// one, and the others stay.
pub proof fn law_bind(
    globals: &mut Globals,
    name: u32,
    interface: &str,
    version: u32,
    bound: bool,
)
    requires
        call_ensures(Globals::bind, (globals, name, interface, version), bound),
    ensures
        bound <==> interface@ == "wl_compositor"@ || interface@ == "wl_shm"@ || interface@
            == "zwlr_layer_shell_v1"@ || interface@ == "wp_cursor_shape_manager_v1"@,
        final(globals).compositor == if interface@ == "wl_compositor"@ {
            Some(Global { name, version })
        } else {
            old(globals).compositor
        },
        final(globals).shm == if interface@ == "wl_shm"@ {
            Some(Global { name, version })
        } else {
            old(globals).shm
        },
        final(globals).layer_shell_v1 == if interface@ == "zwlr_layer_shell_v1"@ {
            Some(Global { name, version })
        } else {
            old(globals).layer_shell_v1
        },
        final(globals).cursor_shaper_manager == if interface@ == "wp_cursor_shape_manager_v1"@ {
            Some(Global { name, version })
        } else {
            old(globals).cursor_shaper_manager
        },
{
    lemma_lengths();
    assert(takes_note(*old(globals), *final(globals), interface@, Global { name, version }));
    assert(final(globals).of(Interface::Compositor) == if protocol_name(Interface::Compositor)
        == interface@ {
        Some(Global { name, version })
    } else {
        old(globals).of(Interface::Compositor)
    });
    assert(final(globals).of(Interface::Shm) == if protocol_name(Interface::Shm)
        == interface@ {
        Some(Global { name, version })
    } else {
        old(globals).of(Interface::Shm)
    });
    assert(final(globals).of(Interface::LayerShell) == if protocol_name(Interface::LayerShell)
        == interface@ {
        Some(Global { name, version })
    } else {
        old(globals).of(Interface::LayerShell)
    });
    assert(final(globals).of(Interface::CursorShapeManager) == if protocol_name(Interface::CursorShapeManager)
        == interface@ {
        Some(Global { name, version })
    } else {
        old(globals).of(Interface::CursorShapeManager)
    });
    assert(protocol_name(Interface::Compositor) == "wl_compositor"@);
    assert(protocol_name(Interface::Shm) == "wl_shm"@);
    assert(protocol_name(Interface::LayerShell) == "zwlr_layer_shell_v1"@);
    assert(protocol_name(Interface::CursorShapeManager) == "wp_cursor_shape_manager_v1"@);
    if is_kept(interface@) {
        let kept = choose|kept: Interface| #[trigger] protocol_name(kept) == interface@;
        assert(protocol_name(kept) == interface@);
    }
}

} // verus!
