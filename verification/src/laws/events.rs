//! What the client does about events.

use vstd::prelude::*;

use crate::client::{replacement, shows, Client};
use crate::event::{
    Capabilities, LayerSurfaceEvent, PointerEvent, RegistryEvent, SeatEvent, SurfaceEvent,
};

use crate::globals::{is_kept, protocol_name, Global};
use crate::laws::showing::{
    depicts, lemma_allocation_makes_buffer, lemma_frame_depicts, lemma_mappable_by_area,
    lemma_presentation_shows_all, lemma_sides, makes_buffer, same_bits, shows_all,
};
use crate::ledger::{
    lemma_allocation_is_in_order, lemma_change_is_in_order, lemma_perform_add, lemma_perform_first,
    lemma_release_is_in_order, perform_all, settled, Change, Held,
};
use crate::picture::Picture;
use crate::pixmap::{lemma_bytes, lemma_offset, mappable};
use crate::request::{signed, unsigned, Interface, Request, Shape};
use crate::window::{allocation, presentation, release, Window};

verus! {

/// Whether a window with `columns` by `rows` pixels can be made and `source` be drawn on it:
/// it has pixels, their bytes and the products that the drawing takes are numbers of 32
/// bits, and the picture is not empty.
pub open spec fn within_bounds(source: Option<Picture>, columns: int, rows: int) -> bool {
    &&& 0 < 4 * (columns * rows) <= u32::MAX
    &&& source matches Some(picture) ==> {
        &&& picture.width > 0
        &&& picture.height > 0
        &&& (columns - 1) * picture.width <= u32::MAX
        &&& (rows - 1) * picture.height <= u32::MAX
    }
}

/// Whether `after` is `before` with another window, or none.
pub open spec fn only_window_differs(before: Client, after: Client) -> bool {
    &&& after.cache_path == before.cache_path
    &&& after.globals == before.globals
    &&& after.has_cursor_shape_device == before.has_cursor_shape_device
    &&& after.source == before.source
}

/// Whether the window has this size and scale, and a buffer that depicts `source`.
pub open spec fn window_depicts(
    window: Option<Window>,
    width: u32,
    height: u32,
    scale: u32,
    source: Option<Picture>,
) -> bool {
    window matches Some(window) && {
        &&& window.has_buffer
        &&& window.pixmap.width == width
        &&& window.pixmap.height == height
        &&& window.pixmap.scale == scale
        &&& window.pixmap.data matches Some(pixels) && depicts(
            pixels@,
            width * scale,
            height * scale,
            source,
        )
    }
}

/// Whether the requests, after the first of them, give the window a buffer of this size and
/// show all of it, and the memory and the buffer that `before` had are let go. Nothing else is
/// asked for.
pub open spec fn replaces_buffer(
    before: Option<Window>,
    requests: Seq<Request>,
    after: Option<Window>,
    columns: int,
    rows: int,
) -> bool {
    &&& requests.len() == if before.unwrap().has_buffer {
        14int
    } else {
        12int
    }
    &&& makes_buffer(requests, columns, rows)
    &&& shows_all(requests, columns, rows)
    &&& perform_all(Some(settled(before)), requests) == Some(settled(after))
}

/// What shows a source depicts it.
proof fn lemma_shows_depicts(
    window: Option<Window>,
    source: Option<Picture>,
    width: u32,
    height: u32,
    scale: u32,
)
    requires
        shows(window, source, width, height, scale),
    ensures
        window_depicts(window, width, height, scale, source),
{
    lemma_sides(width, height, scale);
    lemma_frame_depicts(source, width * scale, height * scale);
}

/// One request and a replacement give the window a buffer and show it.
proof fn lemma_replacement(
    first: Request,
    window: Window,
    width: u32,
    height: u32,
    scale: u32,
)
    requires
        mappable(width * scale, height * scale),
    ensures
        makes_buffer(
            seq![first] + replacement(window, width, height, scale),
            width * scale,
            height * scale,
        ),
        shows_all(
            seq![first] + replacement(window, width, height, scale),
            width * scale,
            height * scale,
        ),
{
    let columns = width * scale;
    let rows = height * scale;
    let head = seq![first] + release(window.pixmap);
    let made = allocation(columns, rows, window.has_buffer);
    let tail = presentation(columns, rows);
    let all = seq![first] + replacement(window, width, height, scale);
    assert(all =~= head + made + tail);
    lemma_allocation_makes_buffer(head, columns, rows, window.has_buffer, tail);
    lemma_presentation_shows_all(head + made, columns, rows);
}

/// When the compositor gives the window a size, the client acknowledges that first, and the
/// window then has this size and depicts the picture that the client has. All of it is
/// shown, and what the window had before is let go.
pub proof fn law_configure(
    client: &mut Client,
    serial: u32,
    width: u32,
    height: u32,
    requests: Vec<Request>,
)
    requires
        old(client).wf(),
        old(client).globals.shm is Some,
        old(client).window is Some,
        within_bounds(
            old(client).source,
            width * old(client).window.unwrap().pixmap.scale,
            height * old(client).window.unwrap().pixmap.scale,
        ),
        call_ensures(
            Client::layer_surface_event,
            (client, LayerSurfaceEvent::Configure { serial, width, height }),
            requests,
        ),
    ensures
        call_requires(
            Client::layer_surface_event,
            (client, LayerSurfaceEvent::Configure { serial, width, height }),
        ),
        only_window_differs(*old(client), *final(client)),
        window_depicts(
            final(client).window,
            width,
            height,
            old(client).window.unwrap().pixmap.scale,
            old(client).source,
        ),
        requests@.len() > 0,
        requests@[0] == (Request::AckConfigure { serial }),
        replaces_buffer(
            old(client).window,
            requests@,
            final(client).window,
            width * old(client).window.unwrap().pixmap.scale,
            height * old(client).window.unwrap().pixmap.scale,
        ),
{
    let window = old(client).window.unwrap();
    let scale = window.pixmap.scale;
    lemma_mappable_by_area(width, height, scale);
    lemma_shows_depicts(final(client).window, old(client).source, width, height, scale);
    lemma_replacement(Request::AckConfigure { serial }, window, width, height, scale);
    lemma_change_is_in_order(
        old(client).window,
        Change::Configured { serial, width, height },
        final(client).window,
    );
}

/// When the compositor prefers a scale, the client takes it as it comes: it tells the
/// compositor so first, and the window then has this scale and depicts the picture that the
/// client has. All of it is shown, and what the window had before is let go. Where the window
/// has this scale already, nothing happens.
pub proof fn law_preferred_scale(client: &mut Client, factor: i32, scale: u32, requests: Vec<Request>)
    requires
        old(client).wf(),
        same_bits(factor as int, scale as int),
        old(client).window is Some,
        old(client).window.unwrap().pixmap.scale == scale || {
            &&& old(client).globals.shm is Some
            &&& within_bounds(
                old(client).source,
                old(client).window.unwrap().pixmap.width * scale,
                old(client).window.unwrap().pixmap.height * scale,
            )
        },
        call_ensures(
            Client::surface_event,
            (client, SurfaceEvent::PreferredBufferScale { factor }),
            requests,
        ),
    ensures
        call_requires(
            Client::surface_event,
            (client, SurfaceEvent::PreferredBufferScale { factor }),
        ),
        only_window_differs(*old(client), *final(client)),
        old(client).window.unwrap().pixmap.scale == scale ==> {
            &&& final(client).window == old(client).window
            &&& requests@.len() == 0
        },
        old(client).window.unwrap().pixmap.scale != scale ==> {
            &&& window_depicts(
                final(client).window,
                old(client).window.unwrap().pixmap.width,
                old(client).window.unwrap().pixmap.height,
                scale,
                old(client).source,
            )
            &&& requests@.len() > 0
            &&& requests@[0] == (Request::SetBufferScale { scale: factor })
            &&& replaces_buffer(
                old(client).window,
                requests@,
                final(client).window,
                old(client).window.unwrap().pixmap.width * scale,
                old(client).window.unwrap().pixmap.height * scale,
            )
        },
{
    let window = old(client).window.unwrap();
    let width = window.pixmap.width;
    let height = window.pixmap.height;
    assert(unsigned(factor as int) == scale);
    if window.pixmap.scale != scale {
        lemma_mappable_by_area(width, height, scale);
        lemma_shows_depicts(final(client).window, old(client).source, width, height, scale);
        lemma_replacement(Request::SetBufferScale { scale: factor }, window, width, height, scale);
        assert(signed(scale as int) == factor);
        lemma_change_is_in_order(
            old(client).window,
            Change::Scaled { scale },
            final(client).window,
        );
    }
}

/// A scale that is set by its number does what the event does.
pub proof fn law_scale(client: &mut Client, scale: u32, requests: Vec<Request>)
    requires
        old(client).wf(),
        old(client).window is Some,
        old(client).window.unwrap().pixmap.scale == scale || {
            &&& old(client).globals.shm is Some
            &&& within_bounds(
                old(client).source,
                old(client).window.unwrap().pixmap.width * scale,
                old(client).window.unwrap().pixmap.height * scale,
            )
        },
        call_ensures(Client::scale, (client, scale), requests),
    ensures
        call_requires(Client::scale, (client, scale)),
        only_window_differs(*old(client), *final(client)),
        old(client).window.unwrap().pixmap.scale == scale ==> {
            &&& final(client).window == old(client).window
            &&& requests@.len() == 0
        },
        old(client).window.unwrap().pixmap.scale != scale ==> {
            &&& window_depicts(
                final(client).window,
                old(client).window.unwrap().pixmap.width,
                old(client).window.unwrap().pixmap.height,
                scale,
                old(client).source,
            )
            &&& requests@.len() > 0
            &&& requests@[0] matches Request::SetBufferScale { scale: told } && same_bits(
                told as int,
                scale as int,
            )
            &&& replaces_buffer(
                old(client).window,
                requests@,
                final(client).window,
                old(client).window.unwrap().pixmap.width * scale,
                old(client).window.unwrap().pixmap.height * scale,
            )
        },
{
    let window = old(client).window.unwrap();
    let width = window.pixmap.width;
    let height = window.pixmap.height;
    if window.pixmap.scale != scale {
        let first = Request::SetBufferScale { scale: signed(scale as int) };
        lemma_mappable_by_area(width, height, scale);
        lemma_shows_depicts(final(client).window, old(client).source, width, height, scale);
        lemma_replacement(first, window, width, height, scale);
        lemma_change_is_in_order(
            old(client).window,
            Change::Scaled { scale },
            final(client).window,
        );
    }
}

/// Drawing again makes the window depict the picture that the client has, and shows all of
/// it.
pub proof fn law_reload(client: &mut Client, requests: Vec<Request>)
    requires
        old(client).wf(),
        old(client).window is Some,
        old(client).window.unwrap().has_buffer,
        within_bounds(
            old(client).source,
            old(client).window.unwrap().pixmap.columns(),
            old(client).window.unwrap().pixmap.rows(),
        ),
        call_ensures(Client::reload, (client,), requests),
    ensures
        call_requires(Client::reload, (client,)),
        only_window_differs(*old(client), *final(client)),
        window_depicts(
            final(client).window,
            old(client).window.unwrap().pixmap.width,
            old(client).window.unwrap().pixmap.height,
            old(client).window.unwrap().pixmap.scale,
            old(client).source,
        ),
        requests@.len() == 4,
        shows_all(
            requests@,
            old(client).window.unwrap().pixmap.columns(),
            old(client).window.unwrap().pixmap.rows(),
        ),
        perform_all(Some(settled(old(client).window)), requests@) == Some(
            settled(final(client).window),
        ),
{
    lemma_redrawn(old(client).window, final(client).window, old(client).source, requests@);
}

/// A window that is drawn again.
proof fn lemma_redrawn(
    before: Option<Window>,
    after: Option<Window>,
    source: Option<Picture>,
    requests: Seq<Request>,
)
    requires
        before matches Some(window) && window.wf() && window.has_buffer && shows(
            after,
            source,
            window.pixmap.width,
            window.pixmap.height,
            window.pixmap.scale,
        ) && requests == presentation(window.pixmap.columns(), window.pixmap.rows()),
    ensures
        window_depicts(
            after,
            before.unwrap().pixmap.width,
            before.unwrap().pixmap.height,
            before.unwrap().pixmap.scale,
            source,
        ),
        shows_all(
            requests,
            before.unwrap().pixmap.columns(),
            before.unwrap().pixmap.rows(),
        ),
        perform_all(Some(settled(before)), requests) == Some(settled(after)),
{
    let pixmap = before.unwrap().pixmap;
    lemma_sides(pixmap.width, pixmap.height, pixmap.scale);
    lemma_shows_depicts(after, source, pixmap.width, pixmap.height, pixmap.scale);
    lemma_change_is_in_order(before, Change::Redrawn, after);
    let empty = Seq::<Request>::empty();
    lemma_presentation_shows_all(empty, pixmap.columns(), pixmap.rows());
    assert(empty + presentation(pixmap.columns(), pixmap.rows()) =~= requests);
}

/// A search that came to a picture makes that the picture of the client, and the window
/// depicts it and shows all of it. One that came to none changes nothing.
pub proof fn law_tick(client: &mut Client, fetched: Option<Picture>, requests: Vec<Request>)
    requires
        old(client).wf(),
        fetched matches Some(picture) ==> {
            &&& picture.wf()
            &&& old(client).window is Some
            &&& old(client).window.unwrap().has_buffer
            &&& within_bounds(
                fetched,
                old(client).window.unwrap().pixmap.columns(),
                old(client).window.unwrap().pixmap.rows(),
            )
        },
        call_ensures(Client::tick, (client, fetched), requests),
    ensures
        call_requires(Client::tick, (client, fetched)),
        fetched is None ==> *final(client) == *old(client) && requests@.len() == 0,
        fetched is Some ==> {
            &&& final(client).source == fetched
            &&& only_window_differs(
                Client { source: fetched, ..*old(client) },
                *final(client),
            )
            &&& window_depicts(
                final(client).window,
                old(client).window.unwrap().pixmap.width,
                old(client).window.unwrap().pixmap.height,
                old(client).window.unwrap().pixmap.scale,
                fetched,
            )
            &&& requests@.len() == 4
            &&& shows_all(
                requests@,
                old(client).window.unwrap().pixmap.columns(),
                old(client).window.unwrap().pixmap.rows(),
            )
            &&& perform_all(Some(settled(old(client).window)), requests@) == Some(
                settled(final(client).window),
            )
        },
{
    if fetched is Some {
        lemma_redrawn(old(client).window, final(client).window, fetched, requests@);
    }
}

/// The other events of the layer surface and of the surface change nothing.
pub proof fn law_other_surface_events(
    client: &mut Client,
    event: LayerSurfaceEvent,
    requests: Vec<Request>,
)
    requires
        old(client).wf(),
        !(event is Configure),
        call_ensures(Client::layer_surface_event, (client, event), requests),
    ensures
        call_requires(Client::layer_surface_event, (client, event)),
        only_window_differs(*old(client), *final(client)),
        final(client).window == old(client).window,
        requests@.len() == 0,
{
}

/// The other events of the surface change nothing.
pub proof fn law_other_scale_events(client: &mut Client, requests: Vec<Request>)
    requires
        old(client).wf(),
        call_ensures(Client::surface_event, (client, SurfaceEvent::Other), requests),
    ensures
        call_requires(Client::surface_event, (client, SurfaceEvent::Other)),
        only_window_differs(*old(client), *final(client)),
        final(client).window == old(client).window,
        requests@.len() == 0,
{
}

/// The names that the client knows are different.
proof fn lemma_names()
    ensures
        "wl_compositor"@.len() == 13,
        "wl_shm"@.len() == 6,
        "zwlr_layer_shell_v1"@.len() == 19,
        "wp_cursor_shape_manager_v1"@.len() == 26,
        "wl_seat"@.len() == 7,
{
    reveal_strlit("wl_compositor");
    reveal_strlit("wl_shm");
    reveal_strlit("zwlr_layer_shell_v1");
    reveal_strlit("wp_cursor_shape_manager_v1");
    reveal_strlit("wl_seat");
}

/// Whether `kept` is the announced global where the interface has this name, and else what
/// it was before.
pub open spec fn announced(
    kept: Option<Global>,
    before: Option<Global>,
    named: bool,
    name: u32,
    version: u32,
) -> bool {
    if named {
        kept matches Some(global) && global.name == name && global.version == version
    } else {
        kept == before
    }
}

/// A global is bound as it is announced, with its number and its version: the last one of
/// each of four interfaces is kept, and seats are bound. Others are not bound, and nothing
/// else changes.
pub proof fn law_global(
    client: &mut Client,
    name: u32,
    interface: String,
    version: u32,
    requests: Vec<Request>,
)
    requires
        old(client).wf(),
        call_ensures(
            Client::registry_event,
            (client, RegistryEvent::Global { name, interface, version }),
            requests,
        ),
    ensures
        call_requires(
            Client::registry_event,
            (client, RegistryEvent::Global { name, interface, version }),
        ),
        final(client).cache_path == old(client).cache_path,
        final(client).window == old(client).window,
        final(client).has_cursor_shape_device == old(client).has_cursor_shape_device,
        final(client).source == old(client).source,
        announced(
            final(client).globals.compositor,
            old(client).globals.compositor,
            interface@ == "wl_compositor"@,
            name,
            version,
        ),
        announced(
            final(client).globals.shm,
            old(client).globals.shm,
            interface@ == "wl_shm"@,
            name,
            version,
        ),
        announced(
            final(client).globals.layer_shell_v1,
            old(client).globals.layer_shell_v1,
            interface@ == "zwlr_layer_shell_v1"@,
            name,
            version,
        ),
        announced(
            final(client).globals.cursor_shaper_manager,
            old(client).globals.cursor_shaper_manager,
            interface@ == "wp_cursor_shape_manager_v1"@,
            name,
            version,
        ),
        requests@.len() <= 1,
        requests@.len() == 1 <==> interface@ == "wl_compositor"@ || interface@ == "wl_shm"@
            || interface@ == "zwlr_layer_shell_v1"@ || interface@ == "wp_cursor_shape_manager_v1"@
            || interface@ == "wl_seat"@,
        interface@ == "wl_seat"@ ==> requests@[0] == (Request::BindSeat { name, version }),
        interface@ == "wl_compositor"@ ==> requests@[0] == (Request::BindGlobal {
            interface: Interface::Compositor,
            name,
            version,
        }),
        interface@ == "wl_shm"@ ==> requests@[0] == (Request::BindGlobal {
            interface: Interface::Shm,
            name,
            version,
        }),
        interface@ == "zwlr_layer_shell_v1"@ ==> requests@[0] == (Request::BindGlobal {
            interface: Interface::LayerShell,
            name,
            version,
        }),
        interface@ == "wp_cursor_shape_manager_v1"@ ==> requests@[0] == (Request::BindGlobal {
            interface: Interface::CursorShapeManager,
            name,
            version,
        }),
{
    lemma_names();
    let before = old(client).globals;
    let after = final(client).globals;
    assert(after.of(Interface::Compositor) == after.compositor);
    assert(after.of(Interface::Shm) == after.shm);
    assert(after.of(Interface::LayerShell) == after.layer_shell_v1);
    assert(after.of(Interface::CursorShapeManager) == after.cursor_shaper_manager);
    assert(before.of(Interface::Compositor) == before.compositor);
    assert(protocol_name(Interface::Compositor) == "wl_compositor"@);
    assert(protocol_name(Interface::Shm) == "wl_shm"@);
    assert(protocol_name(Interface::LayerShell) == "zwlr_layer_shell_v1"@);
    assert(protocol_name(Interface::CursorShapeManager) == "wp_cursor_shape_manager_v1"@);
    if !(interface@ == "wl_compositor"@ || interface@ == "wl_shm"@ || interface@
        == "zwlr_layer_shell_v1"@ || interface@ == "wp_cursor_shape_manager_v1"@) {
        assert forall|kept: Interface| #[trigger] protocol_name(kept) != interface@ by {
            match kept {
                Interface::Compositor => {},
                Interface::Shm => {},
                Interface::LayerShell => {},
                Interface::CursorShapeManager => {},
            }
        }
        assert(!is_kept(interface@));
    }
}

/// The other events of the registry change nothing.
pub proof fn law_other_registry_events(
    client: &mut Client,
    event: RegistryEvent,
    requests: Vec<Request>,
)
    requires
        old(client).wf(),
        !(event is Global),
        call_ensures(Client::registry_event, (client, event), requests),
    ensures
        call_requires(Client::registry_event, (client, event)),
        only_window_differs(*old(client), *final(client)),
        final(client).window == old(client).window,
        requests@.len() == 0,
{
}

/// A seat with a pointer, which the lowest bit stands for, gets a cursor shape device, and
/// the manager is not needed then. Nothing comes of another seat, or of capabilities that
/// are not known.
pub proof fn law_seat(client: &mut Client, event: SeatEvent, requests: Vec<Request>)
    requires
        old(client).wf(),
        old(client).globals.cursor_shaper_manager is Some,
        call_ensures(Client::seat_event, (client, event), requests),
    ensures
        call_requires(Client::seat_event, (client, event)),
        final(client).cache_path == old(client).cache_path,
        final(client).globals == old(client).globals,
        final(client).window == old(client).window,
        final(client).source == old(client).source,
        if event matches SeatEvent::Capabilities { capabilities } && capabilities matches
            Capabilities::Value { bits } && bits % 2 == 1 {
            &&& final(client).has_cursor_shape_device
            &&& requests@.len() == 3
            &&& requests@[0] == Request::GetPointer
            &&& requests@[1] == Request::GetCursorShapeDevice
            &&& requests@[2] == Request::DestroyCursorShapeManager
        } else {
            &&& final(client).has_cursor_shape_device == old(client).has_cursor_shape_device
            &&& requests@.len() == 0
        },
{
}

/// Where there is no pointer, a seat needs no cursor shape manager.
pub proof fn law_seat_without_pointer(client: &mut Client, bits: u32)
    requires
        old(client).wf(),
    ensures
        call_requires(Client::seat_event, (client, SeatEvent::Other)),
        call_requires(
            Client::seat_event,
            (
                client,
                SeatEvent::Capabilities { capabilities: Capabilities::Unknown { bits } },
            ),
        ),
        bits % 2 == 0 ==> call_requires(
            Client::seat_event,
            (client, SeatEvent::Capabilities { capabilities: Capabilities::Value { bits } }),
        ),
{
}

/// A pointer that comes over the window gets the default shape, by the number of that very
/// event.
pub proof fn law_pointer(client: &Client, event: PointerEvent, requests: Vec<Request>)
    requires
        client.has_cursor_shape_device,
        call_ensures(Client::pointer_event, (client, event), requests),
    ensures
        call_requires(Client::pointer_event, (client, event)),
        match event {
            PointerEvent::Enter { serial } => requests@.len() == 1 && requests@[0]
                == (Request::SetCursorShape { serial, shape: Shape::Default }),
            PointerEvent::Other => requests@.len() == 0,
        },
{
}

/// The window is opened in the same way whatever the client knows: it has no size and no
/// buffer yet, its requests are in order, and it covers the whole background.
pub proof fn law_open_window(
    client: &mut Client,
    requests: Vec<Request>,
    other: &mut Client,
    others: Vec<Request>,
    i: int,
)
    requires
        old(client).wf(),
        old(client).globals.compositor is Some,
        old(client).globals.layer_shell_v1 is Some,
        call_ensures(Client::open_window, (client,), requests),
        call_ensures(Client::open_window, (other,), others),
        0 <= i < requests@.len(),
    ensures
        call_requires(Client::open_window, (client,)),
        only_window_differs(*old(client), *final(client)),
        final(client).window matches Some(window) && {
            &&& window.pixmap.width == 0
            &&& window.pixmap.height == 0
            &&& window.pixmap.scale == 1
            &&& !window.has_buffer
            &&& window.pixmap.data is None
        },
        requests@ == others@,
        perform_all(Some(settled(None)), requests@) == Some(settled(final(client).window)),
        match requests@[i] {
            Request::GetLayerSurface { layer: _, namespace } => namespace@ == "papier"@,
            Request::SetExclusiveZone { zone } => zone == -1,
            Request::SetAnchor { anchor } => anchor.top && anchor.bottom && anchor.left
                && anchor.right,
            Request::CreateSurface => i == 0,
            Request::Commit => i + 2 == requests@.len(),
            Request::DestroyLayerShell => i + 1 == requests@.len(),
            _ => true,
        },
        requests@.len() == 6,
{
    lemma_change_is_in_order(None, Change::Opened, final(client).window);
}

/// A window can be given a size exactly where there is memory to share and the size is
/// within bounds.
pub proof fn law_can_configure(client: &Client, width: u32, height: u32, can: bool)
    requires
        call_ensures(Client::can_configure, (client, width, height), can),
    ensures
        call_requires(Client::can_configure, (client, width, height)),
        can <==> client.globals.shm is Some && client.window is Some && within_bounds(
            client.source,
            width * client.window.unwrap().pixmap.scale,
            height * client.window.unwrap().pixmap.scale,
        ),
{
    if client.window is Some {
        let scale = client.window.unwrap().pixmap.scale;
        lemma_mappable_by_area(width, height, scale);
        lemma_area_is_positive(width, height, scale);
    }
}

/// An area that is positive has positive sides.
proof fn lemma_area_is_positive(width: u32, height: u32, scale: u32)
    ensures
        (width * scale) * (height * scale) > 0 <==> width * scale > 0 && height * scale > 0,
{
    let columns = width * scale;
    let rows = height * scale;
    lemma_sides(width, height, scale);
    assert(columns * rows > 0 <==> columns > 0 && rows > 0) by (nonlinear_arith)
        requires
            columns >= 0,
            rows >= 0,
    ;
}

/// A window can be given a scale exactly where it has that scale, or there is memory to
/// share and the scale is within bounds.
pub proof fn law_can_scale(client: &Client, scale: u32, can: bool)
    requires
        call_ensures(Client::can_scale, (client, scale), can),
    ensures
        call_requires(Client::can_scale, (client, scale)),
        can <==> client.window is Some && (client.window.unwrap().pixmap.scale == scale || {
            &&& client.globals.shm is Some
            &&& within_bounds(
                client.source,
                client.window.unwrap().pixmap.width * scale,
                client.window.unwrap().pixmap.height * scale,
            )
        }),
{
    if client.window is Some {
        let pixmap = client.window.unwrap().pixmap;
        lemma_mappable_by_area(pixmap.width, pixmap.height, scale);
        lemma_area_is_positive(pixmap.width, pixmap.height, scale);
    }
}

/// A picture can be shown exactly where the window has a buffer and the picture is within
/// bounds.
pub proof fn law_can_redraw(client: &Client, source: &Option<Picture>, can: bool)
    requires
        client.wf(),
        call_ensures(Client::can_redraw, (client, source), can),
    ensures
        call_requires(Client::can_redraw, (client, source)),
        can <==> client.window is Some && client.window.unwrap().has_buffer && within_bounds(
            *source,
            client.window.unwrap().pixmap.columns(),
            client.window.unwrap().pixmap.rows(),
        ),
{
    if client.window is Some && client.window.unwrap().has_buffer {
        let pixmap = client.window.unwrap().pixmap;
        lemma_mappable_by_area(pixmap.width, pixmap.height, pixmap.scale);
        lemma_area_is_positive(pixmap.width, pixmap.height, pixmap.scale);
    }
}

/// A buffer of another size or scale takes the place of the one that the window had.
proof fn lemma_buffer_replaced(
    before: Window,
    after: Window,
    width: u32,
    height: u32,
    scale: u32,
)
    requires
        before.wf(),
        mappable(width * scale, height * scale),
        after.has_buffer,
        after.pixmap.pixels().len() == (width * scale) * (height * scale),
    ensures
        makes_buffer(
            release(before.pixmap) + allocation(width * scale, height * scale, before.has_buffer),
            width * scale,
            height * scale,
        ),
        perform_all(
            Some(settled(Some(before))),
            release(before.pixmap) + allocation(width * scale, height * scale, before.has_buffer),
        ) == Some(settled(Some(after))),
{
    let columns = width * scale;
    let rows = height * scale;
    let released = release(before.pixmap);
    let made = allocation(columns, rows, before.has_buffer);
    let empty = Seq::<Request>::empty();
    lemma_bytes(columns, rows);
    lemma_offset(columns, rows, 0, 0);
    lemma_allocation_makes_buffer(released, columns, rows, before.has_buffer, empty);
    assert(released + made + empty =~= released + made);
    lemma_release_is_in_order(before);
    lemma_allocation_is_in_order(
        Held { mapped: None, ..settled(Some(before)) },
        columns,
        rows,
    );
    lemma_perform_add(Some(settled(Some(before))), released, made);
}

/// A window that is given a size has it, keeps its scale, and gets a buffer of zeros of that
/// size. What it had before is let go.
pub proof fn law_window_configure(
    window: &mut Window,
    width: u32,
    height: u32,
    requests: Vec<Request>,
)
    requires
        old(window).wf(),
        0 < 4 * ((width * old(window).pixmap.scale) * (height * old(window).pixmap.scale))
            <= u32::MAX,
        call_ensures(Window::configure, (window, width, height), requests),
    ensures
        call_requires(Window::configure, (window, width, height)),
        final(window).pixmap.width == width,
        final(window).pixmap.height == height,
        final(window).pixmap.scale == old(window).pixmap.scale,
        final(window).has_buffer,
        final(window).pixmap.data matches Some(pixels) && {
            &&& pixels@.len() == (width * old(window).pixmap.scale) * (height * old(
                window,
            ).pixmap.scale)
            &&& forall|place: int| 0 <= place < pixels@.len() ==> #[trigger] pixels@[place] == 0
        },
        requests@.len() == if old(window).has_buffer {
            9int
        } else {
            7int
        },
        makes_buffer(
            requests@,
            width * old(window).pixmap.scale,
            height * old(window).pixmap.scale,
        ),
        perform_all(Some(settled(Some(*old(window)))), requests@) == Some(
            settled(Some(*final(window))),
        ),
{
    let scale = old(window).pixmap.scale;
    lemma_mappable_by_area(width, height, scale);
    lemma_buffer_replaced(*old(window), *final(window), width, height, scale);
}

/// A window that is given a scale has it, keeps its size, and gets a buffer of zeros of that
/// size. The compositor is told first, and what the window had before is let go.
pub proof fn law_window_rescale(window: &mut Window, scale: u32, requests: Vec<Request>)
    requires
        old(window).wf(),
        0 < 4 * ((old(window).pixmap.width * scale) * (old(window).pixmap.height * scale))
            <= u32::MAX,
        call_ensures(Window::rescale, (window, scale), requests),
    ensures
        call_requires(Window::rescale, (window, scale)),
        final(window).pixmap.width == old(window).pixmap.width,
        final(window).pixmap.height == old(window).pixmap.height,
        final(window).pixmap.scale == scale,
        final(window).has_buffer,
        final(window).pixmap.data matches Some(pixels) && {
            &&& pixels@.len() == (old(window).pixmap.width * scale) * (old(window).pixmap.height
                * scale)
            &&& forall|place: int| 0 <= place < pixels@.len() ==> #[trigger] pixels@[place] == 0
        },
        requests@.len() == if old(window).has_buffer {
            10int
        } else {
            8int
        },
        requests@[0] matches Request::SetBufferScale { scale: told } && same_bits(
            told as int,
            scale as int,
        ),
        makes_buffer(
            requests@.skip(1),
            old(window).pixmap.width * scale,
            old(window).pixmap.height * scale,
        ),
        perform_all(Some(settled(Some(*old(window)))), requests@) == Some(
            settled(Some(*final(window))),
        ),
{
    let width = old(window).pixmap.width;
    let height = old(window).pixmap.height;
    let first = Request::SetBufferScale { scale: signed(scale as int) };
    let rest = release(old(window).pixmap) + allocation(
        width * scale,
        height * scale,
        old(window).has_buffer,
    );
    lemma_mappable_by_area(width, height, scale);
    lemma_buffer_replaced(*old(window), *final(window), width, height, scale);
    assert(requests@ =~= seq![first] + rest);
    assert(requests@.skip(1) =~= rest);
    lemma_perform_first(Some(settled(Some(*old(window)))), first, rest);
}

} // verus!
