//! The globals of the compositor that the client uses.

use vstd::prelude::*;

use crate::request::Interface;

verus! {

/// A global that was bound: the number by which the registry knows it, and the
/// version of it that is used.
#[derive(Debug, Clone, Copy, PartialEq, Eq, Structural)]
pub struct Global {
    pub name: u32,
    pub version: u32,
}

/// The globals, one for each interface, as far as the compositor has announced
/// them.
#[derive(Debug, Clone, Copy, PartialEq, Eq)]
pub struct Globals {
    pub compositor: Option<Global>,
    pub shm: Option<Global>,
    pub layer_shell_v1: Option<Global>,
    pub cursor_shaper_manager: Option<Global>,
}

/// The name of an interface in the protocol.
pub open spec fn protocol_name(interface: Interface) -> Seq<char> {
    match interface {
        Interface::Compositor => "wl_compositor"@,
        Interface::Shm => "wl_shm"@,
        Interface::LayerShell => "zwlr_layer_shell_v1"@,
        Interface::CursorShapeManager => "wp_cursor_shape_manager_v1"@,
    }
}

/// Whether the client keeps a global of the interface with this name.
pub open spec fn is_kept(text: Seq<char>) -> bool {
    exists|interface: Interface| #[trigger] protocol_name(interface) == text
}

/// No two interfaces have the same name.
pub proof fn lemma_names_differ(a: Interface, b: Interface)
    ensures
        protocol_name(a) == protocol_name(b) <==> a == b,
{
    reveal_strlit("wl_compositor");
    reveal_strlit("wl_shm");
    reveal_strlit("zwlr_layer_shell_v1");
    reveal_strlit("wp_cursor_shape_manager_v1");
    assert("wl_compositor"@.len() == 13);
    assert("wl_shm"@.len() == 6);
    assert("zwlr_layer_shell_v1"@.len() == 19);
    assert("wp_cursor_shape_manager_v1"@.len() == 26);
}

/// The interface with the name `text`, where the client keeps a global of it.
pub fn interface_named(text: &str) -> (found: Option<Interface>)
    ensures
        found is Some <==> is_kept(text@),
        found matches Some(interface) ==> protocol_name(interface) == text@,
{
    let text: String = text.to_owned();
    let found: Option<Interface> = if text == "wl_compositor".to_owned() {
        Some(Interface::Compositor)
    } else if text == "wl_shm".to_owned() {
        Some(Interface::Shm)
    } else if text == "zwlr_layer_shell_v1".to_owned() {
        Some(Interface::LayerShell)
    } else if text == "wp_cursor_shape_manager_v1".to_owned() {
        Some(Interface::CursorShapeManager)
    } else {
        None
    };
    proof {
        if found is Some {
            assert(protocol_name(found.unwrap()) == text@);
        }
    }
    found
}

impl Default for Globals {
    /// No global is bound.
    fn default() -> (globals: Self)
        ensures
            forall|interface: Interface| #[trigger] globals.of(interface) is None,
    {
        Globals { compositor: None, shm: None, layer_shell_v1: None, cursor_shaper_manager: None }
    }
}

/// Whether the global that the compositor announces was taken note of: `after` has it for the
/// interface with this name, and is `before` for the others.
pub open spec fn takes_note(
    before: Globals,
    after: Globals,
    text: Seq<char>,
    global: Global,
) -> bool {
    forall|kept: Interface| #[trigger]
        after.of(kept) == if protocol_name(kept) == text {
            Some(global)
        } else {
            before.of(kept)
        }
}

impl Globals {
    /// The global of an interface.
    pub open spec fn of(&self, interface: Interface) -> Option<Global> {
        match interface {
            Interface::Compositor => self.compositor,
            Interface::Shm => self.shm,
            Interface::LayerShell => self.layer_shell_v1,
            Interface::CursorShapeManager => self.cursor_shaper_manager,
        }
    }

    /// Takes note of a global that the compositor announces, where its interface is
    /// one of those that the client keeps. The result says whether it is. The
    /// version is the announced one.
    pub fn bind(&mut self, name: u32, interface: &str, version: u32) -> (bound: bool)
        ensures
            bound == is_kept(interface@),
            takes_note(*old(self), *final(self), interface@, Global { name, version }),
            forall|kept: Interface| #[trigger]
                final(self).of(kept) == if protocol_name(kept) == interface@ {
                    Some(Global { name, version })
                } else {
                    old(self).of(kept)
                },
    {
        match interface_named(interface) {
            Some(kept) => {
                let global = Global { name, version };
                match kept {
                    Interface::Compositor => {
                        self.compositor = Some(global);
                    },
                    Interface::Shm => {
                        self.shm = Some(global);
                    },
                    Interface::LayerShell => {
                        self.layer_shell_v1 = Some(global);
                    },
                    Interface::CursorShapeManager => {
                        self.cursor_shaper_manager = Some(global);
                    },
                }
                proof {
                    assert forall|other: Interface| protocol_name(other) == interface@ implies other
                        == kept by {
                        lemma_names_differ(other, kept);
                    }
                }
                true
            },
            None => false,
        }
    }

    /// The compositor.
    pub fn compositor(&self) -> (global: &Global)
        requires
            self.compositor is Some,
        ensures
            Some(*global) == self.compositor,
    {
        self.compositor.as_ref().unwrap()
    }

    /// The factory of shared memory.
    pub fn shm(&self) -> (global: &Global)
        requires
            self.shm is Some,
        ensures
            Some(*global) == self.shm,
    {
        self.shm.as_ref().unwrap()
    }

    /// The layer shell.
    pub fn layer_shell_v1(&self) -> (global: &Global)
        requires
            self.layer_shell_v1 is Some,
        ensures
            Some(*global) == self.layer_shell_v1,
    {
        self.layer_shell_v1.as_ref().unwrap()
    }

    /// The cursor shape manager.
    pub fn cursor_shaper_manager(&self) -> (global: &Global)
        requires
            self.cursor_shaper_manager is Some,
        ensures
            Some(*global) == self.cursor_shaper_manager,
    {
        self.cursor_shaper_manager.as_ref().unwrap()
    }
}

} // verus!
