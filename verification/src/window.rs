//! The window: a surface on the background layer, and the buffer that it shows.

use vstd::prelude::*;

use crate::frame::{drawable, frame, source_wf};
use crate::picture::Picture;
use crate::pixmap::{bytes_of, mappable, Pixmap};
use crate::request::{
    signed, to_signed, Anchor, Format, Layer, Request, APP_NAME, EXCLUSIVE_ZONE,
    MEMORY_MODE, MEMORY_PATH,
};

verus! {

/// The window. What stands for its surface and its buffer is kept by the one who
/// performs the requests.
#[derive(Debug, Clone)]
pub struct Window {
    pub pixmap: Pixmap,
    /// Whether a buffer was created.
    pub has_buffer: bool,
}

/// The requests that put the window on the background layer, over the whole screen
/// and under what others keep free there.
pub open spec fn creation() -> Seq<Request> {
    seq![
        Request::CreateSurface,
        Request::GetLayerSurface { layer: Layer::Background, namespace: APP_NAME },
        Request::SetExclusiveZone { zone: EXCLUSIVE_ZONE },
        Request::SetAnchor {
            anchor: (Anchor { top: true, bottom: true, left: true, right: true }),
        },
        Request::Commit,
    ]
}

/// The requests that let the memory of `pixmap` go.
pub open spec fn release(pixmap: Pixmap) -> Seq<Request> {
    if pixmap.data is Some {
        seq![
            Request::UnmapMemory { size: bytes_of(pixmap.columns(), pixmap.rows()) as u32 },
        ]
    } else {
        seq![]
    }
}

/// The requests that make a buffer of `columns` by `rows` pixels in fresh shared
/// memory, in place of an earlier one where `replaces` says so.
pub open spec fn allocation(columns: int, rows: int, replaces: bool) -> Seq<Request> {
    let size = bytes_of(columns, rows);
    seq![
        Request::OpenMemory { path: MEMORY_PATH, mode: MEMORY_MODE },
        Request::ResizeMemory { size: size as u32 },
        Request::MapMemory { size: size as u32 },
        Request::UnlinkMemory { path: MEMORY_PATH },
        Request::CreatePool { length: signed(size) },
        Request::CreateBuffer {
            offset: 0,
            width: signed(columns),
            height: signed(rows),
            stride: signed(columns * 4),
            format: Format::Xrgb8888,
        },
        Request::DestroyPool,
    ] + if replaces {
        seq![Request::DestroyReplacedBuffer]
    } else {
        seq![]
    }
}

/// The requests that show a buffer of `columns` by `rows` pixels.
pub open spec fn presentation(columns: int, rows: int) -> Seq<Request> {
    seq![
        Request::Paint,
        Request::Attach { x: 0, y: 0 },
        Request::DamageBuffer { x: 0, y: 0, width: signed(columns), height: signed(rows) },
        Request::Commit,
    ]
}

impl Window {
    /// There are pixels exactly where there is a buffer for them, and such a buffer can
    /// be had.
    pub open spec fn wf(&self) -> bool {
        &&& self.pixmap.wf()
        &&& self.has_buffer <==> self.pixmap.data is Some
        &&& self.has_buffer ==> mappable(self.pixmap.columns(), self.pixmap.rows())
    }

    /// A window without a buffer, and the requests that create it.
    pub fn new() -> (created: (Window, Vec<Request>))
        ensures
            created.0.wf(),
            created.0.pixmap.width == 0,
            created.0.pixmap.height == 0,
            created.0.pixmap.scale == 1,
            created.0.pixmap.data is None,
            !created.0.has_buffer,
            created.1@ == creation(),
    {
        let anchor = Anchor { top: true, bottom: true, left: true, right: true };
        let requests: Vec<Request> = vec![
            Request::CreateSurface,
            Request::GetLayerSurface { layer: Layer::Background, namespace: APP_NAME },
            Request::SetExclusiveZone { zone: EXCLUSIVE_ZONE },
            Request::SetAnchor { anchor },
            Request::Commit,
        ];
        (Window { pixmap: Pixmap::default(), has_buffer: false }, requests)
    }

    /// Gives the window another size, and a buffer of that size.
    pub fn configure(&mut self, width: u32, height: u32) -> (requests: Vec<Request>)
        requires
            old(self).wf(),
            mappable(width * old(self).pixmap.scale, height * old(self).pixmap.scale),
        ensures
            final(self).wf(),
            final(self).pixmap.width == width,
            final(self).pixmap.height == height,
            final(self).pixmap.scale == old(self).pixmap.scale,
            final(self).has_buffer,
            final(self).pixmap.pixels() == blank(
                width * old(self).pixmap.scale,
                height * old(self).pixmap.scale,
            ),
            requests@ == release(old(self).pixmap) + allocation(
                width * old(self).pixmap.scale,
                height * old(self).pixmap.scale,
                old(self).has_buffer,
            ),
    {
        let mut requests: Vec<Request> = self.unmap();
        self.pixmap.width = width;
        self.pixmap.height = height;
        let mut allocated: Vec<Request> = self.allocate_buffer();
        requests.append(&mut allocated);
        requests
    }

    /// Gives the window another scale, and a buffer of that scale.
    pub fn rescale(&mut self, scale: u32) -> (requests: Vec<Request>)
        requires
            old(self).wf(),
            mappable(old(self).pixmap.width * scale, old(self).pixmap.height * scale),
        ensures
            final(self).wf(),
            final(self).pixmap.width == old(self).pixmap.width,
            final(self).pixmap.height == old(self).pixmap.height,
            final(self).pixmap.scale == scale,
            final(self).has_buffer,
            final(self).pixmap.pixels() == blank(
                old(self).pixmap.width * scale,
                old(self).pixmap.height * scale,
            ),
            requests@ == seq![Request::SetBufferScale { scale: signed(scale as int) }] + release(
                old(self).pixmap,
            ) + allocation(
                old(self).pixmap.width * scale,
                old(self).pixmap.height * scale,
                old(self).has_buffer,
            ),
    {
        let mut requests: Vec<Request> = vec![Request::SetBufferScale { scale: to_signed(scale) }];
        let mut released: Vec<Request> = self.unmap();
        requests.append(&mut released);
        self.pixmap.scale = scale;
        let mut allocated: Vec<Request> = self.allocate_buffer();
        requests.append(&mut allocated);
        requests
    }

    /// The requests that let the memory of the pixels go.
    fn unmap(&self) -> (requests: Vec<Request>)
        requires
            self.wf(),
        ensures
            requests@ == release(self.pixmap),
    {
        match self.pixmap.unmap() {
            Some(size) => vec![Request::UnmapMemory { size }],
            None => Vec::new(),
        }
    }

    /// Makes a buffer of the size and the scale of the window. Its pixels are zero.
    pub fn allocate_buffer(&mut self) -> (requests: Vec<Request>)
        requires
            mappable(old(self).pixmap.columns(), old(self).pixmap.rows()),
        ensures
            final(self).wf(),
            final(self).pixmap.width == old(self).pixmap.width,
            final(self).pixmap.height == old(self).pixmap.height,
            final(self).pixmap.scale == old(self).pixmap.scale,
            final(self).has_buffer,
            final(self).pixmap.pixels() == blank(
                old(self).pixmap.columns(),
                old(self).pixmap.rows(),
            ),
            requests@ == allocation(
                old(self).pixmap.columns(),
                old(self).pixmap.rows(),
                old(self).has_buffer,
            ),
    {
        proof {
            self.pixmap.lemma_sides();
        }
        let columns: u32 = self.pixmap.buffer_width();
        let rows: u32 = self.pixmap.buffer_height();
        let stride: u32 = self.pixmap.buffer_stride();
        let size: u32 = self.pixmap.byte_size();
        let mut requests: Vec<Request> = vec![
            Request::OpenMemory { path: MEMORY_PATH, mode: MEMORY_MODE },
            Request::ResizeMemory { size },
            Request::MapMemory { size },
            Request::UnlinkMemory { path: MEMORY_PATH },
            Request::CreatePool { length: to_signed(size) },
            Request::CreateBuffer {
                offset: 0,
                width: to_signed(columns),
                height: to_signed(rows),
                stride: to_signed(stride),
                format: Format::Xrgb8888,
            },
            Request::DestroyPool,
        ];
        if self.has_buffer {
            requests.push(Request::DestroyReplacedBuffer);
        }
        let count: usize = (columns * rows) as usize;
        self.pixmap.data = Some(vec![0; count]);
        self.has_buffer = true;
        proof {
            assert(self.pixmap.pixels() =~= blank(columns as int, rows as int));
            assert(requests@ =~= allocation(columns as int, rows as int, old(self).has_buffer));
        }
        requests
    }

    /// Draws `source` on the buffer, and shows the buffer.
    pub fn render(&mut self, source: &Option<Picture>) -> (requests: Vec<Request>)
        requires
            old(self).wf(),
            old(self).has_buffer,
            source_wf(*source),
            drawable(*source, old(self).pixmap.columns(), old(self).pixmap.rows()),
        ensures
            final(self).wf(),
            final(self).pixmap.width == old(self).pixmap.width,
            final(self).pixmap.height == old(self).pixmap.height,
            final(self).pixmap.scale == old(self).pixmap.scale,
            final(self).has_buffer,
            final(self).pixmap.pixels() == frame(
                *source,
                old(self).pixmap.columns(),
                old(self).pixmap.rows(),
            ),
            requests@ == presentation(old(self).pixmap.columns(), old(self).pixmap.rows()),
    {
        proof {
            self.pixmap.lemma_sides();
        }
        self.pixmap.draw(source);
        let width: i32 = to_signed(self.pixmap.buffer_width());
        let height: i32 = to_signed(self.pixmap.buffer_height());
        vec![
            Request::Paint,
            Request::Attach { x: 0, y: 0 },
            Request::DamageBuffer { x: 0, y: 0, width, height },
            Request::Commit,
        ]
    }
}

/// `columns` by `rows` pixels that are zero.
pub open spec fn blank(columns: int, rows: int) -> Seq<u32> {
    Seq::new((columns * rows) as nat, |place: int| 0u32)
}

} // verus!
