use image::codecs::jpeg::JpegEncoder;
use image::ExtendedColorType;
use papier::cache::{cache_path, CachePath};
use papier::client::Client;
use papier::event::{
    Capabilities, LayerSurfaceEvent, PointerEvent, RegistryEvent, SeatEvent, SurfaceEvent,
};
use papier::fetch::{Fetch, FetchAction, FetchEvent};
use papier::picture::{DecodeError, Picture};
use papier::request::{
    to_signed, to_unsigned, Anchor, Format, Interface, Layer, Request, Shape,
};
use papier::window::Window;

fn place() -> CachePath {
    cache_path(&None, &Some(b"/home/me".to_vec()))
}

fn announce(client: &mut Client, name: u32, interface: &str, version: u32) -> Vec<Request> {
    client.registry_event(RegistryEvent::Global {
        name,
        interface: interface.to_string(),
        version,
    })
}

/// A client with an open window that has no size yet.
fn opened() -> Client {
    let mut client = Client::with_cached(place(), None);
    announce(&mut client, 1, "wl_compositor", 6);
    announce(&mut client, 2, "wl_shm", 1);
    announce(&mut client, 3, "zwlr_layer_shell_v1", 4);
    announce(&mut client, 4, "wp_cursor_shape_manager_v1", 1);
    client.open_window();
    client
}

fn configure(client: &mut Client, width: u32, height: u32) -> Vec<Request> {
    assert!(client.can_configure(width, height));
    client.layer_surface_event(LayerSurfaceEvent::Configure {
        serial: 9,
        width,
        height,
    })
}

fn prefer(client: &mut Client, factor: i32) -> Vec<Request> {
    assert!(client.can_scale(factor as u32));
    client.surface_event(SurfaceEvent::PreferredBufferScale { factor })
}

fn allocation(width: i32, height: i32) -> Vec<Request> {
    let size = width * height * 4;
    vec![
        Request::OpenMemory {
            path: "/dev/shm/bar",
            mode: 0o600,
        },
        Request::ResizeMemory { size: size as u32 },
        Request::MapMemory { size: size as u32 },
        Request::UnlinkMemory {
            path: "/dev/shm/bar",
        },
        Request::CreatePool { length: size },
        Request::CreateBuffer {
            offset: 0,
            width,
            height,
            stride: width * 4,
            format: Format::Xrgb8888,
        },
        Request::DestroyPool,
    ]
}

fn presentation(width: i32, height: i32) -> Vec<Request> {
    vec![
        Request::Paint,
        Request::Attach { x: 0, y: 0 },
        Request::DamageBuffer {
            x: 0,
            y: 0,
            width,
            height,
        },
        Request::Commit,
    ]
}

fn dot(colour: [u8; 4]) -> Picture {
    Picture {
        width: 1,
        height: 1,
        pixels: vec![colour],
    }
}

#[test]
fn a_new_client_knows_nothing() {
    let client = Client::new(place(), None);
    assert_eq!(client.cache_path, place());
    assert!(client.window.is_none());
    assert!(client.source.is_none());
    assert!(!client.has_cursor_shape_device);
}

#[test]
fn a_new_client_takes_the_picture_from_the_cache() {
    let mut file = Vec::new();
    JpegEncoder::new(&mut file)
        .encode(&[128; 48], 4, 4, ExtendedColorType::Rgb8)
        .unwrap();
    let client = Client::new(place(), Some(file));
    let source = client.source.unwrap();
    assert_eq!((source.width, source.height), (4, 4));
    assert!(source.pixels[0][0].abs_diff(128) < 4);
}

#[test]
fn a_new_client_does_without_a_broken_cache() {
    let client = Client::new(place(), Some(b"broken".to_vec()));
    assert!(client.source.is_none());
}

#[test]
fn what_was_read_from_the_cache_is_shown() {
    let picture = dot([1, 2, 3, 4]);
    let client = Client::with_cached(place(), Some(Ok(picture.clone())));
    assert_eq!(client.source, Some(picture));
    for error in [
        DecodeError::Unsafe,
        DecodeError::Header,
        DecodeError::Pixels,
    ] {
        let client = Client::with_cached(place(), Some(Err(error)));
        assert_eq!(client.source, None);
    }
    assert_eq!(Client::with_cached(place(), None).source, None);
}

#[test]
fn a_picture_that_was_found_comes_back_from_the_cache() {
    let raw: Vec<u8> = (0..16 * 16 * 3).map(|n| (n * 7 % 256) as u8).collect();
    let mut downloaded = Vec::new();
    JpegEncoder::new(&mut downloaded)
        .encode(&raw, 16, 16, ExtendedColorType::Rgb8)
        .unwrap();
    let mut search = Fetch::new(1);
    assert_eq!(search.next(FetchEvent::Begun), FetchAction::Download);
    match search.next(FetchEvent::Downloaded { file: downloaded }) {
        FetchAction::Finish { picture, file } => {
            assert_eq!(Client::new(place(), Some(file)).source, Some(picture));
        }
        other => panic!("{other:?}"),
    }
}

#[test]
fn globals_are_bound_as_they_are_announced() {
    let mut client = Client::with_cached(place(), None);
    assert_eq!(
        announce(&mut client, 5, "wl_shm", 2),
        vec![Request::BindGlobal {
            interface: Interface::Shm,
            name: 5,
            version: 2
        }]
    );
    assert!(client.globals.shm.is_some());
    assert_eq!(
        announce(&mut client, 6, "wl_seat", 9),
        vec![Request::BindSeat {
            name: 6,
            version: 9
        }]
    );
    assert_eq!(announce(&mut client, 7, "wl_output", 4), vec![]);
    assert_eq!(
        client.registry_event(RegistryEvent::GlobalRemove { name: 5 }),
        vec![]
    );
    assert_eq!(client.registry_event(RegistryEvent::Other), vec![]);
    assert!(client.globals.shm.is_some());
}

#[test]
fn the_window_is_put_on_the_background() {
    let mut client = Client::with_cached(place(), None);
    announce(&mut client, 1, "wl_compositor", 6);
    announce(&mut client, 3, "zwlr_layer_shell_v1", 4);
    assert_eq!(
        client.open_window(),
        vec![
            Request::CreateSurface,
            Request::GetLayerSurface {
                layer: Layer::Background,
                namespace: "papier"
            },
            Request::SetExclusiveZone { zone: -1 },
            Request::SetAnchor {
                anchor: Anchor {
                    top: true,
                    bottom: true,
                    left: true,
                    right: true
                }
            },
            Request::Commit,
            Request::DestroyLayerShell,
        ]
    );
    let (window, _) = Window::new();
    let opened = client.window.unwrap();
    assert_eq!(opened.has_buffer, window.has_buffer);
    assert_eq!(opened.pixmap.scale, 1);
}

#[test]
fn the_first_size_brings_a_buffer() {
    let mut client = opened();
    let mut expected = vec![Request::AckConfigure { serial: 9 }];
    expected.extend(allocation(4, 3));
    expected.extend(presentation(4, 3));
    assert_eq!(configure(&mut client, 4, 3), expected);
    let window = client.window.unwrap();
    assert!(window.has_buffer);
    assert_eq!(window.pixmap.data, Some(vec![0x93a7c9; 12]));
}

#[test]
fn another_size_replaces_the_buffer() {
    let mut client = opened();
    configure(&mut client, 4, 3);
    let mut expected = vec![
        Request::AckConfigure { serial: 9 },
        Request::UnmapMemory { size: 48 },
    ];
    expected.extend(allocation(2, 5));
    expected.push(Request::DestroyReplacedBuffer);
    expected.extend(presentation(2, 5));
    assert_eq!(configure(&mut client, 2, 5), expected);
}

#[test]
fn other_events_of_the_layer_surface_change_nothing() {
    let mut client = opened();
    assert_eq!(client.layer_surface_event(LayerSurfaceEvent::Closed), vec![]);
    assert_eq!(client.layer_surface_event(LayerSurfaceEvent::Other), vec![]);
    assert!(!client.window.unwrap().has_buffer);
}

#[test]
fn another_scale_replaces_the_buffer() {
    let mut client = opened();
    configure(&mut client, 4, 3);
    let mut expected = vec![
        Request::SetBufferScale { scale: 2 },
        Request::UnmapMemory { size: 48 },
    ];
    expected.extend(allocation(8, 6));
    expected.push(Request::DestroyReplacedBuffer);
    expected.extend(presentation(8, 6));
    assert_eq!(prefer(&mut client, 2), expected);
    let pixmap = client.window.unwrap().pixmap;
    assert_eq!((pixmap.width, pixmap.height, pixmap.scale), (4, 3, 2));
    assert_eq!(pixmap.data.unwrap().len(), 48);
}

#[test]
fn the_same_scale_changes_nothing() {
    let mut client = opened();
    assert_eq!(prefer(&mut client, 1), vec![]);
    configure(&mut client, 4, 3);
    assert_eq!(prefer(&mut client, 1), vec![]);
    assert!(!prefer(&mut client, 3).is_empty());
    assert_eq!(prefer(&mut client, 3), vec![]);
    assert_eq!(client.surface_event(SurfaceEvent::Other), vec![]);
}

#[test]
fn a_scale_without_bounds_is_refused() {
    let mut client = opened();
    configure(&mut client, 4, 3);
    assert!(!client.can_scale(-1i32 as u32));
    assert!(!client.can_configure(u32::MAX, 1));
}

#[test]
fn a_window_without_area_gets_no_buffer() {
    let mut client = opened();
    assert!(!client.can_scale(2));
    assert!(!client.can_configure(0, 3));
    assert!(!client.can_configure(4, 0));
    assert!(client.can_configure(4, 3));
    configure(&mut client, 4, 3);
    assert!(!client.can_scale(0));
    assert!(!client.can_configure(0, 0));
}

#[test]
fn numbers_past_31_bits_wrap() {
    assert_eq!(to_signed(u32::MAX), -1);
    assert_eq!(to_signed(0x8000_0000), i32::MIN);
    assert_eq!(to_signed(0x7fff_ffff), i32::MAX);
    assert_eq!(to_unsigned(-1), u32::MAX);
    assert_eq!(to_unsigned(i32::MIN), 0x8000_0000);
    assert_eq!(to_unsigned(7), 7);
}

#[test]
fn a_buffer_is_made_for_the_window() {
    let (mut window, _) = Window::new();
    window.pixmap.width = 3;
    window.pixmap.height = 2;
    assert_eq!(window.allocate_buffer(), allocation(3, 2));
    assert!(window.has_buffer);
    assert_eq!(window.pixmap.data, Some(vec![0; 6]));
}

#[test]
fn a_picture_is_shown_when_it_comes() {
    let mut client = opened();
    configure(&mut client, 4, 3);
    let picture = Some(dot([1, 2, 3, 4]));
    assert!(client.can_redraw(&picture));
    assert_eq!(client.tick(picture.clone()), presentation(4, 3));
    assert_eq!(client.source, picture);
    assert_eq!(
        client.window.as_ref().unwrap().pixmap.data,
        Some(vec![0x010203; 12])
    );
    // It stays when the window changes.
    prefer(&mut client, 2);
    assert_eq!(
        client.window.as_ref().unwrap().pixmap.data,
        Some(vec![0x010203; 48])
    );
    assert_eq!(client.reload(), presentation(8, 6));
}

#[test]
fn a_search_without_a_picture_changes_nothing() {
    let mut client = opened();
    configure(&mut client, 4, 3);
    client.tick(Some(dot([9, 9, 9, 9])));
    assert_eq!(client.tick(None), vec![]);
    assert_eq!(client.source, Some(dot([9, 9, 9, 9])));
    assert_eq!(client.window.unwrap().pixmap.data, Some(vec![0x090909; 12]));
}

#[test]
fn nothing_can_be_drawn_without_a_buffer() {
    let client = opened();
    assert!(!client.can_redraw(&None));
    let client = Client::with_cached(place(), None);
    assert!(!client.can_redraw(&None));
    assert!(!client.can_configure(1, 1));
    assert!(!client.can_scale(1));
}

#[test]
fn a_pointer_brings_a_cursor_shape_device() {
    let mut client = opened();
    let capabilities = Capabilities::Value { bits: 3 };
    assert_eq!(
        client.seat_event(SeatEvent::Capabilities { capabilities }),
        vec![
            Request::GetPointer,
            Request::GetCursorShapeDevice,
            Request::DestroyCursorShapeManager
        ]
    );
    assert!(client.has_cursor_shape_device);
    assert_eq!(
        client.pointer_event(PointerEvent::Enter { serial: 12 }),
        vec![Request::SetCursorShape {
            serial: 12,
            shape: Shape::Default
        }]
    );
    assert_eq!(client.pointer_event(PointerEvent::Other), vec![]);
}

#[test]
fn without_a_pointer_there_is_no_device() {
    let mut client = opened();
    for capabilities in [
        Capabilities::Value { bits: 0 },
        Capabilities::Value { bits: 6 },
        Capabilities::Unknown { bits: 9 },
    ] {
        let event = SeatEvent::Capabilities { capabilities };
        assert_eq!(client.seat_event(event), vec![]);
    }
    assert_eq!(client.seat_event(SeatEvent::Other), vec![]);
    assert!(!client.has_cursor_shape_device);
}

#[test]
fn memory_and_buffers_are_let_go() {
    let mut client = opened();
    let mut requests = configure(&mut client, 4, 3);
    requests.extend(prefer(&mut client, 2));
    requests.extend(configure(&mut client, 1, 1));
    requests.extend(client.tick(Some(dot([1, 1, 1, 1]))));
    requests.extend(prefer(&mut client, 2));
    requests.extend(prefer(&mut client, 1));
    let mut mapped = None;
    let mut pools = 0;
    let mut buffers = 0;
    for request in requests {
        match request {
            Request::MapMemory { size } => {
                assert_eq!(mapped, None);
                mapped = Some(size);
            }
            Request::UnmapMemory { size } => {
                assert_eq!(mapped, Some(size));
                mapped = None;
            }
            Request::CreatePool { .. } => pools += 1,
            Request::DestroyPool => pools -= 1,
            Request::CreateBuffer { .. } => buffers += 1,
            Request::DestroyReplacedBuffer => buffers -= 1,
            Request::Paint => assert!(mapped.is_some()),
            _ => {}
        }
    }
    assert_eq!(mapped, Some(4));
    assert_eq!(pools, 0);
    assert_eq!(buffers, 1);
}
