//! What the client asks of the compositor and of the system.

use vstd::prelude::*;

verus! {

/// The name of the program: the namespace of its layer surface, and of its
/// directory in the user's cache.
pub const APP_NAME: &'static str = "papier";

/// The file behind the memory that is shared with the compositor.
pub const MEMORY_PATH: &'static str = "/dev/shm/bar";

/// The permissions of that file: its owner reads and writes it.
pub const MEMORY_MODE: u32 = 0o600;

/// The exclusive zone of a surface that reaches under what others keep free.
pub const EXCLUSIVE_ZONE: i32 = -1;

/// The interfaces of which the client keeps one global each.
#[derive(Debug, Clone, Copy, PartialEq, Eq, Structural)]
pub enum Interface {
    Compositor,
    Shm,
    LayerShell,
    CursorShapeManager,
}

/// The layers of the desktop that the client uses.
#[derive(Debug, Clone, Copy, PartialEq, Eq, Structural)]
pub enum Layer {
    Background,
}

/// The layouts of a pixel that the client uses.
#[derive(Debug, Clone, Copy, PartialEq, Eq, Structural)]
pub enum Format {
    /// 32 bits: eight that are ignored, then red, green and blue.
    Xrgb8888,
}

/// The shapes of the cursor that the client uses.
#[derive(Debug, Clone, Copy, PartialEq, Eq, Structural)]
pub enum Shape {
    Default,
}

/// The edges of the screen that a surface is held to.
#[derive(Debug, Clone, Copy, PartialEq, Eq, Structural)]
pub struct Anchor {
    pub top: bool,
    pub bottom: bool,
    pub left: bool,
    pub right: bool,
}

/// One thing to do. Requests are performed in the order in which they are given.
#[derive(Debug, Clone, Copy, PartialEq, Eq)]
pub enum Request {
    /// Bind the global `name`, and keep it as the one of its interface.
    BindGlobal { interface: Interface, name: u32, version: u32 },
    /// Bind the seat `name`.
    BindSeat { name: u32, version: u32 },
    /// Create the surface of the window.
    CreateSurface,
    /// Make the surface a layer surface, on whichever output the compositor picks.
    GetLayerSurface { layer: Layer, namespace: &'static str },
    /// Set the exclusive zone of the layer surface.
    SetExclusiveZone { zone: i32 },
    /// Set the anchor of the layer surface.
    SetAnchor { anchor: Anchor },
    /// Commit the surface.
    Commit,
    /// Destroy the layer shell.
    DestroyLayerShell,
    /// Acknowledge a configuration of the layer surface.
    AckConfigure { serial: u32 },
    /// Set the scale of the surface's buffer.
    SetBufferScale { scale: i32 },
    /// Unmap the memory that is mapped, which has `size` bytes.
    UnmapMemory { size: u32 },
    /// Open the file at `path` for reading and writing, or create it.
    OpenMemory { path: &'static str, mode: u32 },
    /// Give the open file the length `size`.
    ResizeMemory { size: u32 },
    /// Map `size` bytes of the open file, shared, for reading and writing.
    MapMemory { size: u32 },
    /// Remove the file at `path`.
    UnlinkMemory { path: &'static str },
    /// Create a pool of `length` bytes on the open file.
    CreatePool { length: i32 },
    /// Create a buffer in the pool, and keep it as the one of the window.
    CreateBuffer { offset: i32, width: i32, height: i32, stride: i32, format: Format },
    /// Destroy the pool. The buffer stays.
    DestroyPool,
    /// Destroy the buffer that the last one took the place of.
    DestroyReplacedBuffer,
    /// Copy the pixels of the window to the mapped memory.
    Paint,
    /// Attach the buffer of the window to the surface.
    Attach { x: i32, y: i32 },
    /// Report a part of the buffer as changed.
    DamageBuffer { x: i32, y: i32, width: i32, height: i32 },
    /// Get the pointer of the seat.
    GetPointer,
    /// Get the cursor shape device of the pointer, and keep it.
    GetCursorShapeDevice,
    /// Destroy the cursor shape manager.
    DestroyCursorShapeManager,
    /// Set the shape of the cursor.
    SetCursorShape { serial: u32, shape: Shape },
}

/// The signed number with the same 32 bits as `n`.
pub open spec fn signed(n: int) -> i32 {
    if n <= i32::MAX {
        n as i32
    } else {
        (n - 0x1_0000_0000) as i32
    }
}

/// The unsigned number with the same 32 bits as `n`.
pub open spec fn unsigned(n: int) -> u32 {
    if n >= 0 {
        n as u32
    } else {
        (n + 0x1_0000_0000) as u32
    }
}

/// The signed number with the same 32 bits as `n`.
pub fn to_signed(n: u32) -> (s: i32)
    ensures
        s == signed(n as int),
{
    assert(n <= 0x7fff_ffff ==> n as i32 == n) by (bit_vector);
    assert(n > 0x7fff_ffff ==> n as i32 == n - 0x1_0000_0000) by (bit_vector);
    #[verifier::truncate]
    (n as i32)
}

/// The unsigned number with the same 32 bits as `n`.
pub fn to_unsigned(n: i32) -> (u: u32)
    ensures
        u == unsigned(n as int),
{
    assert(n >= 0 ==> n as u32 == n) by (bit_vector);
    assert(n < 0 ==> n as u32 == n + 0x1_0000_0000) by (bit_vector);
    #[verifier::truncate]
    (n as u32)
}

} // verus!
