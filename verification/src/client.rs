//! The client: what it knows, and what it does about each event.

use vstd::prelude::*;

use crate::cache::CachePath;
use crate::event::{LayerSurfaceEvent, PointerEvent, RegistryEvent, SeatEvent, SurfaceEvent};
use crate::fetch::{finishes_with, FetchAction};
use crate::frame::{can_draw, drawable, frame, source_wf};
use crate::globals::{
    interface_named, is_kept, lemma_names_differ, protocol_name, Global, Globals,
};
use crate::ledger::{is_change, Change};
use crate::picture::{
    decode_image, decoded_from, lemma_same_file_same_picture, readable, DecodeError, Picture,
};
use crate::pixmap::{buffer_fits, mappable, Pixmap};
use crate::request::{signed, to_unsigned, unsigned, Interface, Request, Shape};
use crate::window::{allocation, creation, presentation, release, Window};

verus! {

/// The name of the interface of a seat in the protocol.
pub const SEAT: &'static str = "wl_seat";

/// What the client knows.
#[derive(Debug, Clone)]
pub struct Client {
    /// Where the last picture is kept.
    pub cache_path: CachePath,
    pub globals: Globals,
    pub window: Option<Window>,
    /// Whether there is a device that sets the shape of the cursor.
    pub has_cursor_shape_device: bool,
    /// The picture to show, where there is one.
    pub source: Option<Picture>,
}

/// Whether `source` is the picture in the file `cached`: there is one exactly where
/// there is such a file and it can be read.
pub open spec fn is_cached(source: Option<Picture>, cached: Option<Vec<u8>>) -> bool {
    match cached {
        Some(file) => {
            &&& source is Some <==> readable(file@)
            &&& source matches Some(picture) ==> decoded_from(picture, file@)
        },
        None => source is None,
    }
}

/// Whether a window of this size and scale can have a buffer, and `source` be drawn
/// on it.
pub open spec fn showable(source: Option<Picture>, width: u32, height: u32, scale: u32) -> bool {
    &&& mappable(width * scale, height * scale)
    &&& drawable(source, width * scale, height * scale)
}

/// Whether a window of this size and scale can have a buffer, and `source` be drawn
/// on it.
fn can_show(source: &Option<Picture>, width: u32, height: u32, scale: u32) -> (can: bool)
    ensures
        can == showable(*source, width, height, scale),
{
    if !buffer_fits(width, height, scale) {
        return false;
    }
    let pixmap = Pixmap { width, height, data: None, scale };
    proof {
        pixmap.lemma_sides();
    }
    can_draw(source, pixmap.buffer_width(), pixmap.buffer_height())
}

/// Whether `window` has this size and scale, and shows `source`.
pub open spec fn shows(
    window: Option<Window>,
    source: Option<Picture>,
    width: u32,
    height: u32,
    scale: u32,
) -> bool {
    window matches Some(window) && {
        &&& window.wf()
        &&& window.has_buffer
        &&& window.pixmap.width == width
        &&& window.pixmap.height == height
        &&& window.pixmap.scale == scale
        &&& window.pixmap.pixels() == frame(source, width * scale, height * scale)
    }
}

/// The requests that give `window` a buffer of another size or scale, and show it.
pub open spec fn replacement(window: Window, width: u32, height: u32, scale: u32) -> Seq<Request> {
    release(window.pixmap) + allocation(width * scale, height * scale, window.has_buffer)
        + presentation(width * scale, height * scale)
}

impl Client {
    /// What the client holds is well formed.
    pub open spec fn wf(&self) -> bool {
        &&& source_wf(self.source)
        &&& self.window matches Some(window) ==> window.wf()
    }

    /// Whether two clients differ at most in their windows.
    pub open spec fn same_but_window(&self, other: Client) -> bool {
        &&& self.cache_path == other.cache_path
        &&& self.globals == other.globals
        &&& self.has_cursor_shape_device == other.has_cursor_shape_device
        &&& self.source == other.source
    }

    /// Whether the window can be given this size.
    pub open spec fn configurable(&self, width: u32, height: u32) -> bool {
        &&& self.globals.shm is Some
        &&& self.window matches Some(window) && showable(
            self.source,
            width,
            height,
            window.pixmap.scale,
        )
    }

    /// Whether the window can be given this scale. The one that it has, it can keep.
    pub open spec fn scalable(&self, scale: u32) -> bool {
        self.window matches Some(window) && (scale != window.pixmap.scale ==> {
            &&& self.globals.shm is Some
            &&& showable(self.source, window.pixmap.width, window.pixmap.height, scale)
        })
    }

    /// Whether the window can show `source` as it is.
    pub open spec fn redrawable(&self, source: Option<Picture>) -> bool {
        self.window matches Some(window) && window.has_buffer && drawable(
            source,
            window.pixmap.columns(),
            window.pixmap.rows(),
        )
    }

    /// Whether the window can be given this size.
    pub fn can_configure(&self, width: u32, height: u32) -> (can: bool)
        ensures
            can == self.configurable(width, height),
    {
        match &self.window {
            Some(window) => self.globals.shm.is_some() && can_show(
                &self.source,
                width,
                height,
                window.pixmap.scale,
            ),
            None => false,
        }
    }

    /// Whether the window can be given this scale.
    pub fn can_scale(&self, scale: u32) -> (can: bool)
        ensures
            can == self.scalable(scale),
    {
        match &self.window {
            Some(window) => scale == window.pixmap.scale || (self.globals.shm.is_some()
                && can_show(&self.source, window.pixmap.width, window.pixmap.height, scale)),
            None => false,
        }
    }

    /// Whether the window can show `source` as it is.
    pub fn can_redraw(&self, source: &Option<Picture>) -> (can: bool)
        requires
            self.wf(),
        ensures
            can == self.redrawable(*source),
    {
        match &self.window {
            Some(window) => {
                if window.has_buffer {
                    proof {
                        window.pixmap.lemma_sides();
                    }
                    can_draw(source, window.pixmap.buffer_width(), window.pixmap.buffer_height())
                } else {
                    false
                }
            },
            None => false,
        }
    }

    /// A client without a window. Where the file at `cache_path` was read as a
    /// picture, it shows that.
    pub fn with_cached(
        cache_path: CachePath,
        cached: Option<Result<Picture, DecodeError>>,
    ) -> (client: Client)
        ensures
            client.cache_path == cache_path,
            forall|interface: Interface| #[trigger] client.globals.of(interface) is None,
            client.window is None,
            !client.has_cursor_shape_device,
            client.source == match cached {
                Some(Ok(picture)) => Some(picture),
                _ => None,
            },
            source_wf(client.source) ==> client.wf(),
    {
        let source: Option<Picture> = match cached {
            Some(Ok(picture)) => Some(picture),
            _ => None,
        };
        Client {
            cache_path,
            globals: Globals::default(),
            window: None,
            has_cursor_shape_device: false,
            source,
        }
    }

    /// A client without a window. It shows the picture that `cached` holds, where
    /// the file at `cache_path` could be read and is a picture.
    pub fn new(cache_path: CachePath, cached: Option<Vec<u8>>) -> (client: Client)
        ensures
            client.wf(),
            client.cache_path == cache_path,
            forall|interface: Interface| #[trigger] client.globals.of(interface) is None,
            client.window is None,
            !client.has_cursor_shape_device,
            is_cached(client.source, cached),
    {
        let decoded: Option<Result<Picture, DecodeError>> = match cached {
            Some(file) => Some(decode_image(file.as_slice())),
            None => None,
        };
        Client::with_cached(cache_path, decoded)
    }

    /// Opens the window. The layer shell is not needed after that.
    pub fn open_window(&mut self) -> (requests: Vec<Request>)
        requires
            old(self).wf(),
            old(self).globals.compositor is Some,
            old(self).globals.layer_shell_v1 is Some,
        ensures
            final(self).wf(),
            final(self).same_but_window(*old(self)),
            final(self).window matches Some(window) && {
                &&& window.pixmap.width == 0
                &&& window.pixmap.height == 0
                &&& window.pixmap.scale == 1
                &&& !window.has_buffer
            },
            requests@ == creation().push(Request::DestroyLayerShell),
            old(self).window is None ==> is_change(
                None,
                Change::Opened,
                final(self).window,
                requests@,
            ),
    {
        let (window, created) = Window::new();
        let mut requests: Vec<Request> = created;
        self.window = Some(window);
        requests.push(Request::DestroyLayerShell);
        requests
    }

    /// Gives the window another scale.
    pub fn scale(&mut self, scale: u32) -> (requests: Vec<Request>)
        requires
            old(self).wf(),
            old(self).scalable(scale),
        ensures
            final(self).wf(),
            final(self).same_but_window(*old(self)),
            ({
                let window = old(self).window.unwrap();
                if scale == window.pixmap.scale {
                    final(self).window == old(self).window && requests@ == Seq::<Request>::empty()
                } else {
                    &&& shows(
                        final(self).window,
                        old(self).source,
                        window.pixmap.width,
                        window.pixmap.height,
                        scale,
                    )
                    &&& requests@ == seq![Request::SetBufferScale { scale: signed(scale as int) }]
                        + replacement(window, window.pixmap.width, window.pixmap.height, scale)
                }
            }),
            is_change(
                old(self).window,
                Change::Scaled { scale },
                final(self).window,
                requests@,
            ),
    {
        let ghost before = self.window.unwrap();
        if scale == self.window.as_ref().unwrap().pixmap.scale {
            return Vec::new();
        }
        let mut requests: Vec<Request> = self.window.as_mut().unwrap().rescale(scale);
        let mut shown: Vec<Request> = self.reload();
        requests.append(&mut shown);
        proof {
            assert(requests@ =~= seq![Request::SetBufferScale { scale: signed(scale as int) }]
                + replacement(before, before.pixmap.width, before.pixmap.height, scale));
        }
        requests
    }

    /// Draws the window again.
    pub fn reload(&mut self) -> (requests: Vec<Request>)
        requires
            old(self).wf(),
            old(self).redrawable(old(self).source),
        ensures
            final(self).wf(),
            final(self).same_but_window(*old(self)),
            ({
                let pixmap = old(self).window.unwrap().pixmap;
                &&& shows(
                    final(self).window,
                    old(self).source,
                    pixmap.width,
                    pixmap.height,
                    pixmap.scale,
                )
                &&& requests@ == presentation(pixmap.columns(), pixmap.rows())
            }),
            is_change(old(self).window, Change::Redrawn, final(self).window, requests@),
    {
        self.window.as_mut().unwrap().render(&self.source)
    }

    /// Shows the picture that a search came to. Where it came to none, all stays as
    /// it is.
    pub fn tick(&mut self, fetched: Option<Picture>) -> (requests: Vec<Request>)
        requires
            old(self).wf(),
            fetched matches Some(picture) ==> picture.wf() && old(self).redrawable(fetched),
        ensures
            final(self).wf(),
            fetched is None ==> *final(self) == *old(self) && requests@ == Seq::<Request>::empty(),
            fetched is Some ==> {
                let pixmap = old(self).window.unwrap().pixmap;
                &&& final(self).source == fetched
                &&& final(self).cache_path == old(self).cache_path
                &&& final(self).globals == old(self).globals
                &&& final(self).has_cursor_shape_device == old(self).has_cursor_shape_device
                &&& shows(final(self).window, fetched, pixmap.width, pixmap.height, pixmap.scale)
                &&& requests@ == presentation(pixmap.columns(), pixmap.rows())
                &&& is_change(old(self).window, Change::Redrawn, final(self).window, requests@)
            },
    {
        if fetched.is_some() {
            self.source = fetched;
            self.reload()
        } else {
            Vec::new()
        }
    }

    /// What to do about an event of the layer surface.
    pub fn layer_surface_event(&mut self, event: LayerSurfaceEvent) -> (requests: Vec<Request>)
        requires
            old(self).wf(),
            event matches LayerSurfaceEvent::Configure { serial, width, height } ==> old(
                self,
            ).configurable(width, height),
        ensures
            final(self).wf(),
            final(self).same_but_window(*old(self)),
            match event {
                LayerSurfaceEvent::Configure { serial, width, height } => {
                    let window = old(self).window.unwrap();
                    let scale = window.pixmap.scale;
                    &&& shows(final(self).window, old(self).source, width, height, scale)
                    &&& requests@ == seq![Request::AckConfigure { serial }] + replacement(
                        window,
                        width,
                        height,
                        scale,
                    )
                    &&& is_change(
                        old(self).window,
                        Change::Configured { serial, width, height },
                        final(self).window,
                        requests@,
                    )
                },
                _ => final(self).window == old(self).window && requests@
                    == Seq::<Request>::empty(),
            },
    {
        match event {
            LayerSurfaceEvent::Configure { serial, width, height } => {
                let ghost before = self.window.unwrap();
                let mut requests: Vec<Request> = vec![Request::AckConfigure { serial }];
                let mut configured: Vec<Request> = self.window.as_mut().unwrap().configure(
                    width,
                    height,
                );
                requests.append(&mut configured);
                let mut shown: Vec<Request> = self.reload();
                requests.append(&mut shown);
                proof {
                    assert(requests@ =~= seq![Request::AckConfigure { serial }] + replacement(
                        before,
                        width,
                        height,
                        before.pixmap.scale,
                    ));
                }
                requests
            },
            LayerSurfaceEvent::Closed => Vec::new(),
            LayerSurfaceEvent::Other => Vec::new(),
        }
    }

    /// What to do about an event of the registry.
    pub fn registry_event(&mut self, event: RegistryEvent) -> (requests: Vec<Request>)
        requires
            old(self).wf(),
        ensures
            final(self).wf(),
            final(self).cache_path == old(self).cache_path,
            final(self).window == old(self).window,
            final(self).has_cursor_shape_device == old(self).has_cursor_shape_device,
            final(self).source == old(self).source,
            match event {
                RegistryEvent::Global { name, interface, version } => {
                    &&& forall|kept: Interface| #[trigger]
                        final(self).globals.of(kept) == if protocol_name(kept) == interface@ {
                            Some(Global { name, version })
                        } else {
                            old(self).globals.of(kept)
                        }
                    &&& forall|kept: Interface| #[trigger]
                        protocol_name(kept) == interface@ ==> requests@
                            == seq![Request::BindGlobal { interface: kept, name, version }]
                    &&& !is_kept(interface@) ==> requests@ == if interface@ == SEAT@ {
                        seq![Request::BindSeat { name, version }]
                    } else {
                        seq![]
                    }
                },
                _ => final(self).globals == old(self).globals && requests@
                    == Seq::<Request>::empty(),
            },
            is_change(
                old(self).window,
                Change::Kept { requests: requests@ },
                final(self).window,
                requests@,
            ),
    {
        match event {
            RegistryEvent::Global { name, interface, version } => {
                if self.globals.bind(name, interface.as_str(), version) {
                    match interface_named(interface.as_str()) {
                        Some(kept) => {
                            proof {
                                assert forall|other: Interface| #[trigger]
                                    protocol_name(other) == interface@ implies other == kept by {
                                    lemma_names_differ(other, kept);
                                }
                            }
                            vec![Request::BindGlobal { interface: kept, name, version }]
                        },
                        None => Vec::new(),
                    }
                } else if interface == SEAT.to_owned() {
                    vec![Request::BindSeat { name, version }]
                } else {
                    Vec::new()
                }
            },
            RegistryEvent::GlobalRemove { .. } => Vec::new(),
            RegistryEvent::Other => Vec::new(),
        }
    }

    /// What to do about an event of the surface.
    pub fn surface_event(&mut self, event: SurfaceEvent) -> (requests: Vec<Request>)
        requires
            old(self).wf(),
            event matches SurfaceEvent::PreferredBufferScale { factor } ==> old(self).scalable(
                unsigned(factor as int),
            ),
        ensures
            final(self).wf(),
            final(self).same_but_window(*old(self)),
            match event {
                SurfaceEvent::PreferredBufferScale { factor } => {
                    let window = old(self).window.unwrap();
                    let scale = unsigned(factor as int);
                    if scale == window.pixmap.scale {
                        final(self).window == old(self).window && requests@
                            == Seq::<Request>::empty()
                    } else {
                        &&& shows(
                            final(self).window,
                            old(self).source,
                            window.pixmap.width,
                            window.pixmap.height,
                            scale,
                        )
                        &&& requests@ == seq![Request::SetBufferScale { scale: factor }]
                            + replacement(window, window.pixmap.width, window.pixmap.height, scale)
                    }
                },
                SurfaceEvent::Other => final(self).window == old(self).window && requests@
                    == Seq::<Request>::empty(),
            },
            event matches SurfaceEvent::PreferredBufferScale { factor } ==> is_change(
                old(self).window,
                Change::Scaled { scale: unsigned(factor as int) },
                final(self).window,
                requests@,
            ),
    {
        match event {
            SurfaceEvent::PreferredBufferScale { factor } => self.scale(to_unsigned(factor)),
            SurfaceEvent::Other => Vec::new(),
        }
    }

    /// What to do about an event of the seat.
    pub fn seat_event(&mut self, event: SeatEvent) -> (requests: Vec<Request>)
        requires
            old(self).wf(),
            event matches SeatEvent::Capabilities { capabilities } && capabilities.with_pointer()
                ==> old(self).globals.cursor_shaper_manager is Some,
        ensures
            final(self).wf(),
            final(self).cache_path == old(self).cache_path,
            final(self).globals == old(self).globals,
            final(self).window == old(self).window,
            final(self).source == old(self).source,
            if event matches SeatEvent::Capabilities { capabilities }
                && capabilities.with_pointer() {
                &&& final(self).has_cursor_shape_device
                &&& requests@ == seq![
                    Request::GetPointer,
                    Request::GetCursorShapeDevice,
                    Request::DestroyCursorShapeManager,
                ]
            } else {
                &&& final(self).has_cursor_shape_device == old(self).has_cursor_shape_device
                &&& requests@ == Seq::<Request>::empty()
            },
            is_change(
                old(self).window,
                Change::Kept { requests: requests@ },
                final(self).window,
                requests@,
            ),
    {
        match event {
            SeatEvent::Capabilities { capabilities } => {
                if capabilities.has_pointer() {
                    self.has_cursor_shape_device = true;
                    vec![
                        Request::GetPointer,
                        Request::GetCursorShapeDevice,
                        Request::DestroyCursorShapeManager,
                    ]
                } else {
                    Vec::new()
                }
            },
            SeatEvent::Other => Vec::new(),
        }
    }

    /// What to do about an event of the pointer.
    pub fn pointer_event(&self, event: PointerEvent) -> (requests: Vec<Request>)
        requires
            event is Enter ==> self.has_cursor_shape_device,
        ensures
            requests@ == match event {
                PointerEvent::Enter { serial } => seq![
                    Request::SetCursorShape { serial, shape: Shape::Default },
                ],
                PointerEvent::Other => seq![],
            },
            is_change(
                self.window,
                Change::Kept { requests: requests@ },
                self.window,
                requests@,
            ),
    {
        match event {
            PointerEvent::Enter { serial } => vec![
                Request::SetCursorShape { serial, shape: Shape::Default },
            ],
            PointerEvent::Other => Vec::new(),
        }
    }
}

/// The picture that a search finishes with comes back from the cache. A client that
/// starts with the file that was kept has a picture of the same size with the same
/// pixels, and windows show both alike.
pub proof fn lemma_picture_comes_back_from_cache(
    action: FetchAction,
    downloaded: Vec<u8>,
    client: Client,
    columns: int,
    rows: int,
)
    requires
        finishes_with(action, downloaded),
        is_cached(client.source, Some(action->file)),
    ensures
        client.source matches Some(picture) && {
            &&& picture.width == action->picture.width
            &&& picture.height == action->picture.height
            &&& picture.pixels@ == action->picture.pixels@
        },
        frame(client.source, columns, rows) == frame(Some(action->picture), columns, rows),
{
    lemma_same_file_same_picture(client.source.unwrap(), action->picture, downloaded@);
    assert(frame(client.source, columns, rows) =~= frame(Some(action->picture), columns, rows));
}

/// What the window shows depends on the picture, the size and the scale, and on
/// nothing that happened before: drawing again changes nothing.
pub proof fn lemma_what_is_shown(
    window: Option<Window>,
    other: Option<Window>,
    source: Option<Picture>,
    width: u32,
    height: u32,
    scale: u32,
)
    requires
        shows(window, source, width, height, scale),
        shows(other, source, width, height, scale),
    ensures
        window.unwrap().pixmap.pixels() == other.unwrap().pixmap.pixels(),
{
}

} // verus!
