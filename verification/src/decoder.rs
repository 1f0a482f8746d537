//! Which JPEG files the decoder can be given.
//!
//! The decoder cuts a component into blocks of eight by eight samples. It makes room for
//! the blocks by the sampling factors, and panics where it made too little.

use vstd::prelude::*;

use crate::header::{
    after_segment, component_wf, components, end_of_segment, frame_wf, header, height, horizontal,
    larger, marker_at, number, read_header, read_segment, segment_end, table, vertical, width,
    Colours, Found, Header, CODES, END, LARGEST_CATEGORY, MARKER, PROGRESSIVE, SCAN,
};

verus! {

/// The code of the first of the eight restarts in a scan.
pub const RESTART: u8 = 0xd0;

/// The code of the last of the eight restarts in a scan.
pub const LAST_RESTART: u8 = 0xd7;

/// The longest side to which the decoder can add seven in 16 bits.
pub const LONGEST: usize = 65528;

/// What the decoder adds to a value before it shifts it, to move and to round it.
pub const ROUNDING: i32 = 1028;

/// `a` divided by `b`, rounded up.
pub open spec fn divided(a: int, b: int) -> int {
    (a + b - 1) / b
}

/// The most samples that one of the first `n` components has in a row.
pub open spec fn widest(data: Seq<u8>, frame: int, n: int) -> int
    decreases n,
{
    if n <= 0 {
        1
    } else {
        larger(widest(data, frame, n - 1), horizontal(data, frame, n - 1))
    }
}

/// The most samples that one of the first `n` components has in a column.
pub open spec fn tallest(data: Seq<u8>, frame: int, n: int) -> int
    decreases n,
{
    if n <= 0 {
        1
    } else {
        larger(tallest(data, frame, n - 1), vertical(data, frame, n - 1))
    }
}

/// The number of blocks that the decoder counts in a row of the component `i`: it goes
/// by the components up to this one.
pub open spec fn counted(data: Seq<u8>, frame: int, i: int) -> int {
    divided(width(data, frame), 8 * widest(data, frame, i + 1)) * horizontal(data, frame, i)
}

/// The number of blocks in a row of the component `i`.
pub open spec fn across(data: Seq<u8>, frame: int, i: int) -> int {
    divided(width(data, frame), 8 * widest(data, frame, components(data, frame))) * horizontal(
        data,
        frame,
        i,
    )
}

/// The number of groups of rows of blocks: one row of a component for each of its
/// samples in a column.
pub open spec fn groups(data: Seq<u8>, frame: int) -> int {
    divided(height(data, frame), 8 * tallest(data, frame, components(data, frame)))
}

/// Whether the blocks in row `row` of a component lie in the room for the component, or
/// the decoder sees that the row does not. It puts the rows as far apart as it counted.
pub open spec fn row_fits(counted: int, across: int, vertical: int, groups: int, row: int) -> bool {
    row * counted < across * groups ==> (row * vertical + 1) * counted <= across * vertical * groups
}

/// Whether all rows of a component that the decoder reads fit.
pub open spec fn rows_fit(counted: int, across: int, vertical: int, groups: int) -> bool {
    forall|row: int|
        0 <= row < groups ==> #[trigger] row_fits(counted, across, vertical, groups, row)
}

/// Whether the samples of the component `i` are spread over twice as many columns and
/// rows.
pub open spec fn is_spread(data: Seq<u8>, frame: int, i: int) -> bool {
    let count = components(data, frame);
    &&& widest(data, frame, count) == 2 * horizontal(data, frame, i)
    &&& tallest(data, frame, count) == 2
    &&& vertical(data, frame, i) == 1
}

/// Whether the samples of the component `i` are spread over twice as many rows, and over
/// at most twice as many columns.
pub open spec fn is_stretched(data: Seq<u8>, frame: int, i: int) -> bool {
    let count = components(data, frame);
    &&& widest(data, frame, count) <= 2 * horizontal(data, frame, i)
    &&& tallest(data, frame, count) / vertical(data, frame, i) == 2
}

/// Whether `code` is that of a restart in a scan.
pub open spec fn is_restart(code: u8) -> bool {
    RESTART <= code <= LAST_RESTART
}

/// Whether the colours are said to be [`Colours::Ycbcr`], if `header` is known at `at`,
/// or come to be said so from there on, before the end of the picture.
pub open spec fn comes_to_ycbcr(data: Seq<u8>, at: int, header: Header) -> bool
    decreases data.len() - at,
{
    if header.colours == Colours::Ycbcr {
        true
    } else if at + 1 >= data.len() {
        false
    } else if !marker_at(data, at) {
        comes_to_ycbcr(data, at + 1, header)
    } else if is_restart(data[at + 1]) {
        comes_to_ycbcr(data, at + 2, header)
    } else {
        match (segment_end(data, at), after_segment(data, at, header)) {
            (Some(end), Some(after)) => comes_to_ycbcr(data, end, after),
            _ => false,
        }
    }
}

/// Whether there are only restarts from `at` to the end of the picture.
pub open spec fn only_restarts(data: Seq<u8>, at: int) -> bool
    decreases data.len() - at,
{
    if at + 1 >= data.len() {
        true
    } else if !marker_at(data, at) {
        only_restarts(data, at + 1)
    } else if is_restart(data[at + 1]) {
        only_restarts(data, at + 2)
    } else {
        data[at + 1] == END
    }
}

/// Whether the scan whose marker is at `scan` is the only one.
pub open spec fn is_only_scan(data: Seq<u8>, scan: int) -> bool {
    match segment_end(data, scan) {
        Some(end) => only_restarts(data, end),
        None => true,
    }
}

/// How often a marker with this code can begin from `at` on.
pub open spec fn markers(data: Seq<u8>, at: int, code: u8) -> int
    decreases data.len() - at,
{
    if at + 1 >= data.len() {
        0
    } else {
        markers(data, at + 1, code) + if data[at] == MARKER && data[at + 1] == code {
            1int
        } else {
            0int
        }
    }
}

/// How often the decoder can read a component, at most.
pub open spec fn readings(data: Seq<u8>, scan: int) -> int {
    if is_only_scan(data, scan) {
        1
    } else {
        1 + markers(data, scan + 2, SCAN)
    }
}

/// The largest category that a code in a scan can stand for, at most.
pub open spec fn category(data: Seq<u8>, header: Header, scan: int) -> int {
    if is_only_scan(data, scan) || markers(data, scan + 2, CODES) == 0 {
        header.category
    } else {
        LARGEST_CATEGORY as int
    }
}

/// The largest difference of a category: each has one bit more than the one before.
pub open spec fn difference(category: int) -> int
    decreases category,
{
    if category <= 0 {
        0
    } else {
        2 * difference(category - 1) + 1
    }
}

/// The largest value that the differences of the component `i` can add up to.
pub open spec fn total(data: Seq<u8>, header: Header, scan: int, i: int) -> int {
    let frame = header.frame.unwrap();
    let blocks = counted(data, frame, i) * (vertical(data, frame, i) * groups(data, frame));
    readings(data, scan) * (blocks * difference(category(data, header, scan)))
}

/// Whether all that the differences of the component `i` can add up to, times its first
/// quantizer, is a number of 32 bits, and can be rounded.
pub open spec fn total_fits(data: Seq<u8>, header: Header, scan: int, i: int) -> bool {
    let quantizer = header.quantizers[table(data, header.frame.unwrap(), i)];
    total(data, header, scan, i) * quantizer + ROUNDING <= i32::MAX
}

/// Whether the scan whose marker is at `scan` is for `count` components.
pub open spec fn scans(data: Seq<u8>, scan: int, count: int) -> bool {
    scan + 4 < data.len() && data[scan + 4] == count
}

/// Whether a component is stretched.
pub open spec fn is_any_stretched(data: Seq<u8>, frame: int) -> bool {
    exists|i: int| 0 <= i < components(data, frame) && #[trigger] is_stretched(data, frame, i)
}

/// Whether each component that is spread fits, twice, into what the decoder counts for
/// the first one.
pub open spec fn all_spread_fit(data: Seq<u8>, frame: int) -> bool {
    forall|i: int|
        0 <= i < components(data, frame) && #[trigger] is_spread(data, frame, i) ==> 2 * counted(
            data,
            frame,
            i,
        ) <= counted(data, frame, 0)
}

/// Whether all rows of the component `i` that the decoder reads fit.
pub open spec fn component_fits(data: Seq<u8>, frame: int, i: int) -> bool {
    rows_fit(
        counted(data, frame, i),
        across(data, frame, i),
        vertical(data, frame, i),
        groups(data, frame),
    )
}

/// Whether the decoder can be given a progressive picture with this header and its first
/// scan there. It cannot in these cases:
/// - There are fewer than three components, and they are said to be four.
/// - There are four components, one of them is stretched, and they are said to be three,
///   before the first scan or between two. If the reading breaks off there, the decoder
///   has no samples of the fourth component to stretch.
/// - There is too little room to spread a component.
///
/// Where it counts more blocks of the first component than there are, it comes to an error
/// before the last two matter.
pub open spec fn safe_progressive(data: Seq<u8>, header: Header, scan: int) -> bool {
    let frame = header.frame.unwrap();
    let count = components(data, frame);
    &&& count < 3 ==> header.colours != Colours::Ycck
    &&& counted(data, frame, 0) == across(data, frame, 0) ==> {
        &&& count == 4 && is_any_stretched(data, frame) ==> !comes_to_ycbcr(data, scan, header)
        &&& all_spread_fit(data, frame)
    }
}

/// Whether the decoder can be given another picture with this header and its first scan
/// there. It cannot in these cases:
/// - There is one component, with a sampling factor above one, and a side is so long that
///   rounding it up takes more than 16 bits.
/// - The first scan is not for all components, and there is too little room for the
///   blocks of one, or to spread it.
/// - The differences of a component can add up to so much that the sum times the
///   quantizer takes more than 32 bits. How large they are in the scans is not looked at.
pub open spec fn safe_sequential(data: Seq<u8>, header: Header, scan: int) -> bool {
    let frame = header.frame.unwrap();
    let count = components(data, frame);
    &&& count == 1 && header.colours == Colours::Luma && data[frame + 11] != 0x11 ==> {
        &&& width(data, frame) <= LONGEST
        &&& height(data, frame) <= LONGEST
    }
    &&& !scans(data, scan, count) ==> {
        &&& all_spread_fit(data, frame)
        &&& forall|i: int| 0 <= i < count ==> #[trigger] component_fits(data, frame, i)
    }
    &&& forall|i: int| 0 <= i < count ==> #[trigger] total_fits(data, header, scan, i)
}

/// Whether the pixels of a frame, and the room for its blocks, can be had on this machine:
/// the sides are rounded up to whole blocks, and a place takes four bytes.
pub open spec fn room_fits(data: Seq<u8>, frame: int) -> bool {
    (width(data, frame) + 32) * (height(data, frame) + 32) * 4 <= isize::MAX
}

/// Whether the decoder can be given this file: it comes to pixels or to an error then. It
/// counts what comes before the first scan in 32 bits.
pub open spec fn safe_to_read(data: Seq<u8>) -> bool {
    match header(data) {
        Some((header, scan)) => {
            &&& scan <= i32::MAX
            &&& room_fits(data, header.frame.unwrap())
            &&& if data[header.frame.unwrap() + 1] == PROGRESSIVE {
                safe_progressive(data, header, scan)
            } else {
                safe_sequential(data, header, scan)
            }
        },
        None => data.len() <= i32::MAX,
    }
}

/// A product of two numbers that have bounds is at most the product of the bounds.
proof fn lemma_bound(a: int, b: int, x: int, y: int)
    requires
        0 <= a <= x,
        0 <= b <= y,
    ensures
        0 <= a * b <= x * y,
{
    assert(0 <= a * b <= x * y) by (nonlinear_arith)
        requires
            0 <= a <= x,
            0 <= b <= y,
    ;
}

/// The length `a` of a side, divided by that of a group of blocks.
fn divide(a: u64, b: u64) -> (quotient: u64)
    requires
        a <= 65535,
        b == 8 || b == 16 || b == 24 || b == 32,
    ensures
        quotient == divided(a as int, b as int),
        quotient <= 8192,
{
    (a + b - 1) / b
}

/// The most samples that one of the first `n` components has in a row.
fn find_widest(data: &[u8], frame: usize, n: usize) -> (most: u64)
    requires
        frame_wf(data@, frame as int),
        n <= components(data@, frame as int),
    ensures
        most == widest(data@, frame as int, n as int),
        most == 1 || most == 2 || most == 4,
{
    assert(data.len() <= usize::MAX);
    let mut most: u64 = 1;
    for i in 0..n
        invariant
            frame_wf(data@, frame as int),
            data@.len() <= usize::MAX,
            n <= components(data@, frame as int),
            most == widest(data@, frame as int, i as int),
            most == 1 || most == 2 || most == 4,
    {
        assert(component_wf(data@, frame as int, i as int));
        let factor: u64 = (data[frame + 11 + 3 * i] / 16) as u64;
        if most < factor {
            most = factor;
        }
    }
    most
}

/// The most samples that a component has in a column.
fn find_tallest(data: &[u8], frame: usize) -> (most: u64)
    requires
        frame_wf(data@, frame as int),
    ensures
        most == tallest(data@, frame as int, components(data@, frame as int)),
        1 <= most <= 4,
{
    assert(data.len() <= usize::MAX);
    let count: usize = data[frame + 9] as usize;
    let mut most: u64 = 1;
    for i in 0..count
        invariant
            frame_wf(data@, frame as int),
            data@.len() <= usize::MAX,
            count == components(data@, frame as int),
            most == tallest(data@, frame as int, i as int),
            1 <= most <= 4,
    {
        assert(component_wf(data@, frame as int, i as int));
        let factor: u64 = (data[frame + 11 + 3 * i] % 16) as u64;
        if most < factor {
            most = factor;
        }
    }
    most
}

/// The sizes of a component, counted in blocks.
struct Sizes {
    /// What the decoder counts in a row.
    counted: u64,
    /// What is in a row.
    across: u64,
    /// The rows in a group.
    vertical: u64,
    /// The groups of rows.
    groups: u64,
    /// Whether the samples are spread over twice as many columns and rows.
    spread: bool,
    /// Whether they are spread over twice as many rows.
    stretched: bool,
}

impl Sizes {
    /// These are the sizes of the component `i`.
    spec fn of(&self, data: Seq<u8>, frame: int, i: int) -> bool {
        &&& self.counted == counted(data, frame, i)
        &&& self.across == across(data, frame, i)
        &&& self.vertical == vertical(data, frame, i)
        &&& self.groups == groups(data, frame)
        &&& self.spread == is_spread(data, frame, i)
        &&& self.stretched == is_stretched(data, frame, i)
    }

    /// The bounds that the sizes have.
    spec fn wf(&self) -> bool {
        &&& self.counted <= 32768
        &&& self.across <= 32768
        &&& 1 <= self.vertical <= 4
        &&& self.groups <= 8192
    }

    /// The sizes of the component `i`.
    fn measure(data: &[u8], frame: usize, i: usize) -> (sizes: Sizes)
        requires
            frame_wf(data@, frame as int),
            i < components(data@, frame as int),
        ensures
            sizes.of(data@, frame as int, i as int),
            sizes.wf(),
    {
        assert(data.len() <= usize::MAX);
        assert(component_wf(data@, frame as int, i as int));
        let columns: u64 = number(data, frame + 7) as u64;
        let rows: u64 = number(data, frame + 5) as u64;
        let horizontal: u64 = (data[frame + 11 + 3 * i] / 16) as u64;
        let vertical: u64 = (data[frame + 11 + 3 * i] % 16) as u64;
        let most: u64 = find_widest(data, frame, data[frame + 9] as usize);
        let tallest: u64 = find_tallest(data, frame);
        let by_these: u64 = divide(columns, 8 * find_widest(data, frame, i + 1));
        let by_all: u64 = divide(columns, 8 * most);
        proof {
            lemma_bound(by_these as int, horizontal as int, 8192, 4);
            lemma_bound(by_all as int, horizontal as int, 8192, 4);
        }
        Sizes {
            counted: by_these * horizontal,
            across: by_all * horizontal,
            vertical,
            groups: divide(rows, 8 * tallest),
            spread: most == 2 * horizontal && tallest == 2 && vertical == 1,
            stretched: most <= 2 * horizontal && tallest / vertical == 2,
        }
    }

    /// Whether all rows of the component that the decoder reads fit.
    fn fit(&self) -> (fit: bool)
        requires
            self.wf(),
        ensures
            fit == rows_fit(
                self.counted as int,
                self.across as int,
                self.vertical as int,
                self.groups as int,
            ),
    {
        proof {
            lemma_bound(self.across as int, self.groups as int, 32768, 8192);
            lemma_bound(self.across as int, self.vertical as int, 32768, 4);
            lemma_bound(self.across * self.vertical, self.groups as int, 131072, 8192);
        }
        let room: u64 = self.across * self.groups;
        let whole: u64 = self.across * self.vertical * self.groups;
        for row in 0..self.groups
            invariant
                self.wf(),
                room == self.across * self.groups,
                whole == self.across * self.vertical * self.groups,
                forall|before: int|
                    0 <= before < row ==> #[trigger] row_fits(
                        self.counted as int,
                        self.across as int,
                        self.vertical as int,
                        self.groups as int,
                        before,
                    ),
        {
            proof {
                lemma_bound(row as int, self.counted as int, 8192, 32768);
                lemma_bound(row as int, self.vertical as int, 8192, 4);
                lemma_bound(row * self.vertical + 1, self.counted as int, 32769, 32768);
            }
            if row * self.counted < room && (row * self.vertical + 1) * self.counted > whole {
                assert(!row_fits(
                    self.counted as int,
                    self.across as int,
                    self.vertical as int,
                    self.groups as int,
                    row as int,
                ));
                return false;
            }
        }
        true
    }
}

/// The largest difference of a category.
fn find_difference(category: u8) -> (most: u64)
    requires
        category <= LARGEST_CATEGORY,
    ensures
        most == difference(category as int),
        most <= 32767,
{
    proof {
        reveal_with_fuel(difference, 16);
    }
    let mut most: u64 = 0;
    for i in 0..category
        invariant
            category <= LARGEST_CATEGORY,
            most == difference(i as int),
            most <= difference(i as int) <= 32767,
    {
        proof {
            reveal_with_fuel(difference, 16);
        }
        most = 2 * most + 1;
    }
    most
}

/// How often a marker with this code can begin from `start` on.
fn count_markers(data: &[u8], start: usize, code: u8) -> (count: usize)
    requires
        start <= data@.len(),
    ensures
        count == markers(data@, start as int, code),
        count <= data@.len() - start,
{
    let mut at: usize = start;
    let mut count: usize = 0;
    while data.len() - at >= 2
        invariant
            start <= at <= data@.len(),
            count <= at - start,
            markers(data@, start as int, code) == count + markers(data@, at as int, code),
        decreases data@.len() - at,
    {
        if data[at] == MARKER && data[at + 1] == code {
            count = count + 1;
        }
        at = at + 1;
    }
    count
}

/// Whether the scan whose marker is at `scan` is the only one.
fn find_only_scan(data: &[u8], scan: usize) -> (only: bool)
    requires
        scan + 2 <= data@.len(),
    ensures
        only == is_only_scan(data@, scan as int),
{
    match end_of_segment(data, scan) {
        Some(end) => find_only_restarts(data, end),
        None => true,
    }
}

/// Whether there are only restarts from `start` to the end of the picture.
fn find_only_restarts(data: &[u8], start: usize) -> (only: bool)
    requires
        start <= data@.len(),
    ensures
        only == only_restarts(data@, start as int),
{
    let mut at: usize = start;
    while data.len() - at >= 2
        invariant
            at <= data@.len(),
            only_restarts(data@, start as int) == only_restarts(data@, at as int),
        decreases data@.len() - at,
    {
        let code: u8 = data[at + 1];
        if data[at] != MARKER || code == MARKER || code == 0 {
            at = at + 1;
        } else if RESTART <= code && code <= LAST_RESTART {
            at = at + 2;
        } else {
            return code == END;
        }
    }
    true
}

/// Whether the colours are said to be [`Colours::Ycbcr`], or come to be said so.
fn find_ycbcr(data: &[u8], start: Found) -> (comes: bool)
    requires
        start.wf(data@),
    ensures
        comes == comes_to_ycbcr(data@, start.at as int, start.header()),
{
    let mut found: Found = start;
    while data.len() - found.at >= 2 && found.colours != Colours::Ycbcr
        invariant
            found.wf(data@),
            comes_to_ycbcr(data@, start.at as int, start.header()) == comes_to_ycbcr(
                data@,
                found.at as int,
                found.header(),
            ),
        decreases data@.len() - found.at,
    {
        let at: usize = found.at;
        let code: u8 = data[at + 1];
        if data[at] != MARKER || code == MARKER || code == 0 {
            found.at = at + 1;
        } else if RESTART <= code && code <= LAST_RESTART {
            found.at = at + 2;
        } else {
            match end_of_segment(data, at) {
                Some(end) => match read_segment(data, found, end) {
                    Some(next) => {
                        found = next;
                    },
                    None => return false,
                },
                None => return false,
            }
        }
    }
    found.colours == Colours::Ycbcr
}

/// Whether a component is stretched.
fn find_stretched(data: &[u8], frame: usize) -> (any: bool)
    requires
        frame_wf(data@, frame as int),
    ensures
        any == is_any_stretched(data@, frame as int),
{
    assert(data.len() <= usize::MAX);
    let count: usize = data[frame + 9] as usize;
    for i in 0..count
        invariant
            frame_wf(data@, frame as int),
            count == components(data@, frame as int),
            forall|before: int|
                0 <= before < i ==> !#[trigger] is_stretched(data@, frame as int, before),
    {
        if Sizes::measure(data, frame, i).stretched {
            assert(is_stretched(data@, frame as int, i as int));
            return true;
        }
    }
    false
}

/// Whether each component that is spread fits.
fn find_spread_fit(data: &[u8], frame: usize) -> (fit: bool)
    requires
        frame_wf(data@, frame as int),
    ensures
        fit == all_spread_fit(data@, frame as int),
{
    assert(data.len() <= usize::MAX);
    let count: usize = data[frame + 9] as usize;
    let first: u64 = Sizes::measure(data, frame, 0).counted;
    for i in 0..count
        invariant
            frame_wf(data@, frame as int),
            count == components(data@, frame as int),
            first == counted(data@, frame as int, 0),
            forall|before: int|
                0 <= before < i && #[trigger] is_spread(data@, frame as int, before) ==> 2
                    * counted(data@, frame as int, before) <= first,
    {
        let sizes: Sizes = Sizes::measure(data, frame, i);
        if sizes.spread && 2 * sizes.counted > first {
            assert(is_spread(data@, frame as int, i as int));
            return false;
        }
    }
    true
}

/// Whether all rows of all components fit.
fn find_rows_fit(data: &[u8], frame: usize) -> (fit: bool)
    requires
        frame_wf(data@, frame as int),
    ensures
        fit == forall|i: int|
            0 <= i < components(data@, frame as int) ==> #[trigger] component_fits(
                data@,
                frame as int,
                i,
            ),
{
    assert(data.len() <= usize::MAX);
    let count: usize = data[frame + 9] as usize;
    for i in 0..count
        invariant
            frame_wf(data@, frame as int),
            count == components(data@, frame as int),
            forall|before: int|
                0 <= before < i ==> #[trigger] component_fits(data@, frame as int, before),
    {
        if !Sizes::measure(data, frame, i).fit() {
            assert(!component_fits(data@, frame as int, i as int));
            return false;
        }
    }
    true
}

/// Whether what the differences of each component can add up to fits.
fn find_totals_fit(data: &[u8], found: &Found) -> (fit: bool)
    requires
        found.wf(data@),
        found.frame is Some,
        found.at + 2 <= data@.len(),
    ensures
        fit == forall|i: int|
            0 <= i < components(data@, found.frame.unwrap() as int) ==> #[trigger] total_fits(
                data@,
                found.header(),
                found.at as int,
                i,
            ),
{
    assert(data.len() <= usize::MAX);
    let frame: usize = found.frame.unwrap();
    let only: bool = find_only_scan(data, found.at);
    let readings: u64 = if only {
        1
    } else {
        1 + count_markers(data, found.at + 2, SCAN) as u64
    };
    let category: u8 = if only || count_markers(data, found.at + 2, CODES) == 0 {
        found.category
    } else {
        LARGEST_CATEGORY
    };
    let most: u64 = find_difference(category);
    let count: usize = data[frame + 9] as usize;
    for i in 0..count
        invariant
            found.wf(data@),
            data@.len() <= usize::MAX,
            found.frame == Some(frame),
            count == components(data@, frame as int),
            readings == self::readings(data@, found.at as int),
            most == difference(self::category(data@, found.header(), found.at as int)),
            most <= 32767,
            forall|before: int|
                0 <= before < i ==> #[trigger] total_fits(
                    data@,
                    found.header(),
                    found.at as int,
                    before,
                ),
    {
        assert(component_wf(data@, frame as int, i as int));
        let sizes: Sizes = Sizes::measure(data, frame, i);
        let quantizer: u64 = found.quantizers[data[frame + 12 + 3 * i] as usize] as u64;
        proof {
            lemma_bound(sizes.vertical as int, sizes.groups as int, 4, 8192);
            lemma_bound(sizes.counted as int, sizes.vertical * sizes.groups, 32768, 32768);
        }
        let blocks: u64 = sizes.counted * (sizes.vertical * sizes.groups);
        proof {
            lemma_bound(blocks as int, most as int, 0x4000_0000, 32767);
        }
        let once: u128 = (blocks * most) as u128;
        proof {
            lemma_bound(readings as int, once as int, u64::MAX as int, 0x2000_0000_0000);
            lemma_bound(
                readings * once,
                quantizer as int,
                u64::MAX * 0x2000_0000_0000,
                0xffff,
            );
        }
        if readings as u128 * once * quantizer as u128 > (i32::MAX - ROUNDING) as u128 {
            assert(!total_fits(data@, found.header(), found.at as int, i as int));
            return false;
        }
    }
    true
}

/// Whether the room for the pixels and for the blocks of a frame can be had.
fn find_room_fits(data: &[u8], frame: usize) -> (fits: bool)
    requires
        frame_wf(data@, frame as int),
    ensures
        fits == room_fits(data@, frame as int),
{
    assert(data.len() <= usize::MAX);
    let columns: u64 = number(data, frame + 7) as u64 + 32;
    let rows: u64 = number(data, frame + 5) as u64 + 32;
    proof {
        lemma_bound(columns as int, rows as int, 65567, 65567);
    }
    columns * rows * 4 <= isize::MAX as u64
}

/// Whether the decoder can be given this file.
pub fn can_read(data: &[u8]) -> (can: bool)
    ensures
        can == safe_to_read(data@),
{
    match read_header(data) {
        Some(found) => {
            assert(data.len() <= usize::MAX);
            let frame: usize = found.frame.unwrap();
            let scan: usize = found.at;
            let count: u8 = data[frame + 9];
            if scan > i32::MAX as usize || !find_room_fits(data, frame) {
                return false;
            }
            if data[frame + 1] == PROGRESSIVE {
                let first: Sizes = Sizes::measure(data, frame, 0);
                if count < 3 && found.colours == Colours::Ycck {
                    return false;
                }
                if first.counted != first.across {
                    return true;
                }
                find_spread_fit(data, frame) && !(count == 4 && find_stretched(data, frame)
                    && find_ycbcr(data, found))
            } else {
                if count == 1 && found.colours == Colours::Luma && data[frame + 11] != 0x11 && (
                number(data, frame + 7) > LONGEST || number(data, frame + 5) > LONGEST) {
                    return false;
                }
                let whole: bool = data.len() - scan > 4 && data[scan + 4] == count;
                if !whole && !(find_spread_fit(data, frame) && find_rows_fit(data, frame)) {
                    return false;
                }
                find_totals_fit(data, &found)
            }
        },
        None => data.len() <= i32::MAX as usize,
    }
}

} // verus!
