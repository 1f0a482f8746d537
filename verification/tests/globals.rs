use papier::globals::{interface_named, Global, Globals};
use papier::request::Interface;

#[test]
fn nothing_is_bound_at_first() {
    let globals = Globals::default();
    assert!(globals.compositor.is_none());
    assert!(globals.shm.is_none());
    assert!(globals.layer_shell_v1.is_none());
    assert!(globals.cursor_shaper_manager.is_none());
}

#[test]
fn four_interfaces_are_kept() {
    let mut globals = Globals::default();
    assert!(globals.bind(1, "wl_compositor", 6));
    assert!(globals.bind(2, "wl_shm", 1));
    assert!(globals.bind(3, "zwlr_layer_shell_v1", 4));
    assert!(globals.bind(4, "wp_cursor_shape_manager_v1", 1));
    assert_eq!(*globals.compositor(), Global { name: 1, version: 6 });
    assert_eq!(*globals.shm(), Global { name: 2, version: 1 });
    assert_eq!(*globals.layer_shell_v1(), Global { name: 3, version: 4 });
    assert_eq!(
        *globals.cursor_shaper_manager(),
        Global { name: 4, version: 1 }
    );
}

#[test]
fn other_interfaces_are_not_kept() {
    let mut globals = Globals::default();
    for interface in ["wl_seat", "wl_output", "", "wl_shm ", "wl_compositor2"] {
        assert!(!globals.bind(1, interface, 1));
        assert_eq!(interface_named(interface), None);
    }
    assert_eq!(globals, Globals::default());
}

#[test]
fn the_last_global_of_an_interface_counts() {
    let mut globals = Globals::default();
    assert!(globals.bind(1, "wl_shm", 1));
    assert!(globals.bind(7, "wl_shm", 2));
    assert_eq!(*globals.shm(), Global { name: 7, version: 2 });
    assert!(globals.compositor.is_none());
}

#[test]
fn names_of_interfaces() {
    assert_eq!(interface_named("wl_compositor"), Some(Interface::Compositor));
    assert_eq!(interface_named("wl_shm"), Some(Interface::Shm));
    assert_eq!(
        interface_named("zwlr_layer_shell_v1"),
        Some(Interface::LayerShell)
    );
    assert_eq!(
        interface_named("wp_cursor_shape_manager_v1"),
        Some(Interface::CursorShapeManager)
    );
}
