//! What the compositor tells the client.

use vstd::prelude::*;

verus! {

/// An event of the layer surface.
#[derive(Debug, Clone, Copy, PartialEq, Eq)]
pub enum LayerSurfaceEvent {
    /// The surface is to have this size.
    Configure { serial: u32, width: u32, height: u32 },
    /// The surface is no longer shown.
    Closed,
    /// One that the client does not know.
    Other,
}

/// An event of the registry.
#[derive(Debug, Clone, PartialEq, Eq)]
pub enum RegistryEvent {
    /// There is a global with this number.
    Global { name: u32, interface: String, version: u32 },
    /// The global with this number is gone.
    GlobalRemove { name: u32 },
    /// One that the client does not know.
    Other,
}

/// An event of the surface.
#[derive(Debug, Clone, Copy, PartialEq, Eq)]
pub enum SurfaceEvent {
    /// The scale that the compositor would like the buffer to have.
    PreferredBufferScale { factor: i32 },
    /// One of the other events.
    Other,
}

/// The bit of a seat's capabilities that stands for a pointer.
pub const POINTER: u32 = 1;

/// The capabilities of a seat.
#[derive(Debug, Clone, Copy, PartialEq, Eq)]
pub enum Capabilities {
    /// Known ones, one bit each.
    Value { bits: u32 },
    /// A number that holds bits which the protocol does not define.
    Unknown { bits: u32 },
}

/// An event of the seat.
#[derive(Debug, Clone, Copy, PartialEq, Eq)]
pub enum SeatEvent {
    /// What the seat has.
    Capabilities { capabilities: Capabilities },
    /// One of the other events.
    Other,
}

/// An event of the pointer.
#[derive(Debug, Clone, Copy, PartialEq, Eq)]
pub enum PointerEvent {
    /// The pointer is now over the window.
    Enter { serial: u32 },
    /// One of the other events.
    Other,
}

impl Capabilities {
    /// Whether there is a pointer among them.
    pub open spec fn with_pointer(&self) -> bool {
        self matches Capabilities::Value { bits } && bits % 2 == 1
    }

    /// Whether there is a pointer among them. Of a number that is not known, nothing
    /// is taken.
    pub fn has_pointer(&self) -> (has: bool)
        ensures
            has == self.with_pointer(),
    {
        match self {
            Capabilities::Value { bits } => {
                let bits: u32 = *bits;
                assert(bits & 1 == bits % 2) by (bit_vector);
                bits & POINTER == POINTER
            },
            Capabilities::Unknown { .. } => false,
        }
    }
}

} // verus!
