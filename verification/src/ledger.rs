//! What the requests of the client hold on to, and that they let go of it.

use vstd::prelude::*;

use crate::client::{replacement, shows};
use crate::picture::Picture;
use crate::pixmap::{bytes_of, lemma_bytes, lemma_offset, lemma_sides_below_bytes, mappable};
use crate::request::{signed, Request};
use crate::window::{allocation, creation, presentation, release, Window};

verus! {

/// What is held on behalf of the window.
pub struct Held {
    /// The surface.
    pub surface: bool,
    /// Its layer surface.
    pub layer_surface: bool,
    /// The length of the shared file, while it is open.
    pub file: Option<int>,
    /// The size of the memory that is mapped.
    pub mapped: Option<int>,
    /// The length of the pool, while there is one.
    pub pool: Option<int>,
    /// The buffer of the window.
    pub buffer: bool,
    /// The buffer that the last one took the place of.
    pub replaced: bool,
}

/// Whether a buffer lies in a pool of `length` bytes: it has pixels, its rows do not
/// overlap, and its last row ends in the pool. Of a pool that the protocol has no number
/// for, nothing is asked.
pub open spec fn lies_in_pool(
    length: int,
    offset: int,
    width: int,
    height: int,
    stride: int,
) -> bool {
    length <= i32::MAX ==> {
        &&& 0 <= offset
        &&& 0 < width
        &&& 0 < height
        &&& 4 * width <= stride
        &&& offset + stride * height <= length
    }
}

/// What is held after `request`. `None` where `request` is not in order: it uses what
/// is not held, or takes what is still held.
pub open spec fn perform(held: Option<Held>, request: Request) -> Option<Held> {
    match held {
        None => None,
        Some(held) => {
            let after = match request {
                Request::CreateSurface => Held { surface: true, ..held },
                Request::GetLayerSurface { .. } => Held { layer_surface: true, ..held },
                Request::UnmapMemory { .. } => Held { mapped: None, ..held },
                Request::OpenMemory { .. } => Held { file: Some(0), ..held },
                Request::ResizeMemory { size } => Held { file: Some(size as int), ..held },
                Request::MapMemory { size } => Held { mapped: Some(size as int), ..held },
                Request::CreatePool { .. } => Held { pool: held.file, ..held },
                Request::CreateBuffer { .. } => Held {
                    buffer: true,
                    replaced: held.buffer,
                    ..held
                },
                Request::DestroyPool => Held { pool: None, file: None, ..held },
                Request::DestroyReplacedBuffer => Held { replaced: false, ..held },
                _ => held,
            };
            let in_order = match request {
                Request::CreateSurface => !held.surface,
                Request::GetLayerSurface { .. } => held.surface && !held.layer_surface,
                Request::SetExclusiveZone { .. } => held.layer_surface,
                Request::SetAnchor { .. } => held.layer_surface,
                Request::AckConfigure { .. } => held.layer_surface,
                Request::Commit => held.surface,
                Request::SetBufferScale { .. } => held.surface,
                Request::UnmapMemory { size } => held.mapped == Some(size as int),
                Request::OpenMemory { .. } => held.file is None,
                Request::ResizeMemory { .. } => held.file is Some,
                Request::MapMemory { size } => size > 0 && held.mapped is None && held.file
                    == Some(size as int),
                Request::UnlinkMemory { .. } => held.file is Some,
                Request::CreatePool { length } => held.pool is None && held.file is Some && length
                    == signed(held.file.unwrap()),
                Request::CreateBuffer { offset, width, height, stride, .. } => !held.replaced
                    && held.pool is Some && lies_in_pool(
                    held.pool.unwrap(),
                    offset as int,
                    width as int,
                    height as int,
                    stride as int,
                ),
                Request::DestroyPool => held.pool is Some,
                Request::DestroyReplacedBuffer => held.replaced,
                Request::Paint => held.mapped is Some,
                Request::Attach { .. } => held.surface && held.buffer,
                Request::DamageBuffer { .. } => held.surface,
                _ => true,
            };
            if in_order {
                Some(after)
            } else {
                None
            }
        },
    }
}

/// What is held after `requests`, performed in order.
pub open spec fn perform_all(held: Option<Held>, requests: Seq<Request>) -> Option<Held>
    decreases requests.len(),
{
    if requests.len() == 0 {
        held
    } else {
        perform(perform_all(held, requests.drop_last()), requests.last())
    }
}

/// What is held between two events: the surface of the window, and where it has a
/// buffer, that buffer and as much mapped memory as its pixels take.
pub open spec fn settled(window: Option<Window>) -> Held {
    let buffer = window is Some && window.unwrap().has_buffer;
    Held {
        surface: window is Some,
        layer_surface: window is Some,
        file: None,
        mapped: if buffer {
            Some(4 * window.unwrap().pixmap.pixels().len() as int)
        } else {
            None
        },
        pool: None,
        buffer,
        replaced: false,
    }
}

/// Some requests, and then others.
pub proof fn lemma_perform_add(held: Option<Held>, a: Seq<Request>, b: Seq<Request>)
    ensures
        perform_all(held, a + b) == perform_all(perform_all(held, a), b),
    decreases b.len(),
{
    if b.len() == 0 {
        assert(a + b =~= a);
    } else {
        assert((a + b).drop_last() =~= a + b.drop_last());
        lemma_perform_add(held, a, b.drop_last());
    }
}

/// Opening the window is in order, and takes the surface and the layer surface.
pub proof fn lemma_opening_is_in_order(window: Window)
    requires
        !window.has_buffer,
    ensures
        perform_all(Some(settled(None)), creation().push(Request::DestroyLayerShell)) == Some(
            settled(Some(window)),
        ),
{
    reveal_with_fuel(perform_all, 7);
}

/// Showing the buffer is in order, and takes nothing.
pub proof fn lemma_presentation_is_in_order(window: Window, columns: int, rows: int)
    requires
        window.has_buffer,
    ensures
        perform_all(Some(settled(Some(window))), presentation(columns, rows)) == Some(
            settled(Some(window)),
        ),
{
    reveal_with_fuel(perform_all, 5);
}

/// One more request.
proof fn lemma_perform_next(held: Option<Held>, requests: Seq<Request>, i: int)
    requires
        0 <= i < requests.len(),
    ensures
        perform_all(held, requests.take(i + 1)) == perform(
            perform_all(held, requests.take(i)),
            requests[i],
        ),
{
    assert(requests.take(i + 1).drop_last() =~= requests.take(i));
}

/// Letting the memory go is in order, where there is any.
pub proof fn lemma_release_is_in_order(window: Window)
    requires
        window.wf(),
    ensures
        perform_all(Some(settled(Some(window))), release(window.pixmap)) == Some(
            Held { mapped: None, ..settled(Some(window)) },
        ),
{
    reveal_with_fuel(perform_all, 2);
    if window.has_buffer {
        window.pixmap.lemma_sides();
        lemma_bytes(window.pixmap.columns(), window.pixmap.rows());
    }
}

/// Making a buffer is in order, where no memory is mapped. It leaves the buffer and
/// its memory.
pub proof fn lemma_allocation_is_in_order(held: Held, columns: int, rows: int)
    requires
        mappable(columns, rows),
        0 < bytes_of(columns, rows) <= u32::MAX,
        held.file is None,
        held.mapped is None,
        held.pool is None,
        !held.replaced,
    ensures
        perform_all(Some(held), allocation(columns, rows, held.buffer)) == Some(
            Held { mapped: Some(bytes_of(columns, rows)), buffer: true, ..held },
        ),
{
    let start = Some(held);
    let size = bytes_of(columns, rows);
    let all = allocation(columns, rows, held.buffer);
    assert(all.take(0) =~= Seq::<Request>::empty());
    lemma_perform_next(start, all, 0);
    let opened = Held { file: Some(0), ..held };
    assert(perform_all(start, all.take(1)) == Some(opened));
    lemma_perform_next(start, all, 1);
    let resized = Held { file: Some(size), ..held };
    assert(perform_all(start, all.take(2)) == Some(resized));
    lemma_perform_next(start, all, 2);
    let mapped = Held { mapped: Some(size), ..resized };
    assert(perform_all(start, all.take(3)) == Some(mapped));
    lemma_perform_next(start, all, 3);
    assert(perform_all(start, all.take(4)) == Some(mapped));
    lemma_perform_next(start, all, 4);
    let pooled = Held { pool: Some(size), ..mapped };
    assert(perform_all(start, all.take(5)) == Some(pooled));
    lemma_perform_next(start, all, 5);
    lemma_sides_below_bytes(columns, rows);
    let buffered = Held { buffer: true, replaced: held.buffer, ..pooled };
    assert(perform_all(start, all.take(6)) == Some(buffered));
    lemma_perform_next(start, all, 6);
    let closed = Held { pool: None, file: None, ..buffered };
    assert(perform_all(start, all.take(7)) == Some(closed));
    if held.buffer {
        lemma_perform_next(start, all, 7);
        assert(all.take(8) =~= all);
    } else {
        assert(all.take(7) =~= all);
    }
}

/// Giving the window another buffer is in order. The memory of the earlier one is
/// unmapped, with the size that it was mapped with, and the earlier one is destroyed.
/// Nothing else is held afterwards than the new buffer and its memory.
pub proof fn lemma_replacement_is_in_order(
    window: Window,
    width: u32,
    height: u32,
    scale: u32,
    source: Option<Picture>,
    after: Option<Window>,
)
    requires
        window.wf(),
        mappable(width * scale, height * scale),
        shows(after, source, width, height, scale),
    ensures
        perform_all(Some(settled(Some(window))), replacement(window, width, height, scale)) == Some(
            settled(after),
        ),
{
    let columns = width * scale;
    let rows = height * scale;
    let start = Some(settled(Some(window)));
    let released = Held { mapped: None, ..settled(Some(window)) };
    let release = release(window.pixmap);
    let allocation = allocation(columns, rows, window.has_buffer);
    lemma_bytes(columns, rows);
    lemma_offset(columns, rows, 0, 0);
    after.unwrap().pixmap.lemma_sides();
    lemma_release_is_in_order(window);
    lemma_allocation_is_in_order(released, columns, rows);
    lemma_presentation_is_in_order(after.unwrap(), columns, rows);
    lemma_perform_add(start, release, allocation);
    lemma_perform_add(start, release + allocation, presentation(columns, rows));
}

/// What can happen to the window.
pub enum Change {
    /// It is opened.
    Opened,
    /// The compositor gives it a size.
    Configured { serial: u32, width: u32, height: u32 },
    /// The compositor prefers a scale.
    Scaled { scale: u32 },
    /// It is drawn again.
    Redrawn,
    /// Something else happens, which comes with these requests.
    Kept { requests: Seq<Request> },
}

/// Whether a request has nothing to do with what is held for the window.
pub open spec fn is_apart(request: Request) -> bool {
    match request {
        Request::BindGlobal { .. } => true,
        Request::BindSeat { .. } => true,
        Request::GetPointer => true,
        Request::GetCursorShapeDevice => true,
        Request::DestroyCursorShapeManager => true,
        Request::SetCursorShape { .. } => true,
        _ => false,
    }
}

/// The requests that a change comes with.
pub open spec fn change_requests(before: Option<Window>, change: Change) -> Seq<Request> {
    let window = before.unwrap();
    match change {
        Change::Opened => creation().push(Request::DestroyLayerShell),
        Change::Configured { serial, width, height } => seq![Request::AckConfigure { serial }]
            + replacement(window, width, height, window.pixmap.scale),
        Change::Scaled { scale } => if scale == window.pixmap.scale {
            seq![]
        } else {
            seq![Request::SetBufferScale { scale: signed(scale as int) }] + replacement(
                window,
                window.pixmap.width,
                window.pixmap.height,
                scale,
            )
        },
        Change::Redrawn => presentation(window.pixmap.columns(), window.pixmap.rows()),
        Change::Kept { requests } => requests,
    }
}

/// Whether `after` has this size and scale, and shows some source.
pub open spec fn shows_some(after: Option<Window>, width: u32, height: u32, scale: u32) -> bool {
    exists|source: Option<Picture>| #[trigger] shows(after, source, width, height, scale)
}

/// Whether a change can make `after` of `before`.
pub open spec fn leads_to(before: Option<Window>, change: Change, after: Option<Window>) -> bool {
    match change {
        Change::Opened => before is None && after is Some && !after.unwrap().has_buffer
            && after.unwrap().wf(),
        Change::Configured { serial, width, height } => before matches Some(window) && {
            &&& mappable(width * window.pixmap.scale, height * window.pixmap.scale)
            &&& shows_some(after, width, height, window.pixmap.scale)
        },
        Change::Scaled { scale } => before matches Some(window) && if scale
            == window.pixmap.scale {
            after == before
        } else {
            &&& mappable(window.pixmap.width * scale, window.pixmap.height * scale)
            &&& shows_some(after, window.pixmap.width, window.pixmap.height, scale)
        },
        Change::Redrawn => before matches Some(window) && {
            &&& window.has_buffer
            &&& shows_some(after, window.pixmap.width, window.pixmap.height, window.pixmap.scale)
        },
        Change::Kept { requests } => after == before && forall|i: int|
            0 <= i < requests.len() ==> #[trigger] is_apart(requests[i]),
    }
}

/// Whether a change can make `after` of `before`, and comes with `requests`.
pub open spec fn is_change(
    before: Option<Window>,
    change: Change,
    after: Option<Window>,
    requests: Seq<Request>,
) -> bool {
    leads_to(before, change, after) && requests == change_requests(before, change)
}

/// Every change is in order, and leaves the books as they are to be between two
/// events.
pub proof fn lemma_change_is_in_order(
    before: Option<Window>,
    change: Change,
    after: Option<Window>,
)
    requires
        before matches Some(window) ==> window.wf(),
        leads_to(before, change, after),
    ensures
        after matches Some(window) ==> window.wf(),
        perform_all(Some(settled(before)), change_requests(before, change)) == Some(settled(after)),
{
    let held = Some(settled(before));
    match change {
        Change::Opened => {
            lemma_opening_is_in_order(after.unwrap());
        },
        Change::Configured { serial, width, height } => {
            let window = before.unwrap();
            let scale = window.pixmap.scale;
            let source = choose|source: Option<Picture>| #[trigger]
                shows(after, source, width, height, scale);
            lemma_replacement_is_in_order(window, width, height, scale, source, after);
            let first = Request::AckConfigure { serial };
            lemma_perform_first(held, first, replacement(window, width, height, scale));
        },
        Change::Scaled { scale } => {
            let window = before.unwrap();
            if scale != window.pixmap.scale {
                let width = window.pixmap.width;
                let height = window.pixmap.height;
                let source = choose|source: Option<Picture>| #[trigger]
                    shows(after, source, width, height, scale);
                lemma_replacement_is_in_order(window, width, height, scale, source, after);
                let first = Request::SetBufferScale { scale: signed(scale as int) };
                lemma_perform_first(held, first, replacement(window, width, height, scale));
            }
        },
        Change::Redrawn => {
            let window = before.unwrap();
            lemma_presentation_is_in_order(
                window,
                window.pixmap.columns(),
                window.pixmap.rows(),
            );
        },
        Change::Kept { requests } => {
            lemma_perform_apart(held, requests);
        },
    }
}

/// Requests apart from the window leave what is held for it as it is.
proof fn lemma_perform_apart(held: Option<Held>, requests: Seq<Request>)
    requires
        forall|i: int| 0 <= i < requests.len() ==> #[trigger] is_apart(requests[i]),
    ensures
        perform_all(held, requests) == held,
    decreases requests.len(),
{
    if requests.len() > 0 {
        let earlier = requests.drop_last();
        assert forall|i: int| 0 <= i < earlier.len() implies #[trigger] is_apart(earlier[i]) by {
            assert(is_apart(requests[i]));
        }
        lemma_perform_apart(held, earlier);
        assert(is_apart(requests[requests.len() - 1]));
    }
}

/// One request, and then others.
pub proof fn lemma_perform_first(held: Option<Held>, first: Request, rest: Seq<Request>)
    ensures
        perform_all(held, seq![first] + rest) == perform_all(perform(held, first), rest),
{
    lemma_perform_add(held, seq![first], rest);
    assert(seq![first].drop_last() =~= Seq::<Request>::empty());
    reveal_with_fuel(perform_all, 2);
}

/// A scale that the window has already changes nothing and asks for nothing.
pub proof fn lemma_scaling_again_does_nothing(
    before: Option<Window>,
    scale: u32,
    after: Option<Window>,
    again: Option<Window>,
)
    requires
        leads_to(before, Change::Scaled { scale }, after),
        leads_to(after, Change::Scaled { scale }, again),
    ensures
        again == after,
        change_requests(after, Change::Scaled { scale }) == Seq::<Request>::empty(),
{
}

/// The requests of `changes`, one after the other, where `windows` holds the window
/// before each of them.
pub open spec fn all_requests(windows: Seq<Option<Window>>, changes: Seq<Change>) -> Seq<Request>
    decreases changes.len(),
{
    if changes.len() == 0 {
        seq![]
    } else {
        all_requests(windows, changes.drop_last()) + change_requests(
            windows[changes.len() - 1],
            changes.last(),
        )
    }
}

/// Whatever happens to the window from the beginning on, all requests are in order:
/// memory is mapped at most once at a time and unmapped with the size that it was
/// mapped with, every buffer is destroyed when another takes its place, and between
/// two events nothing is held but what the window needs.
pub proof fn lemma_books_balance(windows: Seq<Option<Window>>, changes: Seq<Change>)
    requires
        windows.len() == changes.len() + 1,
        windows[0] is None,
        forall|i: int|
            #![trigger changes[i]]
            0 <= i < changes.len() ==> leads_to(windows[i], changes[i], windows[i + 1]),
    ensures
        windows.last() matches Some(window) ==> window.wf(),
        perform_all(Some(settled(None)), all_requests(windows, changes)) == Some(
            settled(windows.last()),
        ),
    decreases changes.len(),
{
    if changes.len() > 0 {
        let last = changes.len() - 1;
        let earlier = changes.drop_last();
        let start = windows.drop_last();
        assert forall|i: int|
            #![trigger earlier[i]]
            0 <= i < earlier.len() implies leads_to(start[i], earlier[i], start[i + 1]) by {
            assert(changes[i] == earlier[i]);
        }
        lemma_books_balance(start, earlier);
        lemma_requests_of_start(windows, earlier);
        assert(leads_to(windows[last], changes[last], windows[last + 1]));
        lemma_change_is_in_order(windows[last], changes[last], windows[last + 1]);
        lemma_perform_add(
            Some(settled(None)),
            all_requests(windows, earlier),
            change_requests(windows[last], changes[last]),
        );
    }
}

/// The window after the last change has no part in the requests.
proof fn lemma_requests_of_start(windows: Seq<Option<Window>>, changes: Seq<Change>)
    requires
        changes.len() < windows.len(),
    ensures
        all_requests(windows.drop_last(), changes) == all_requests(windows, changes),
    decreases changes.len(),
{
    if changes.len() > 0 {
        lemma_requests_of_start(windows, changes.drop_last());
    }
}

} // verus!
