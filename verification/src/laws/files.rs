//! Which files are read, and what decides about it.

use vstd::arithmetic::div_mod::lemma_fundamental_div_mod_converse_div;
use vstd::arithmetic::power2::{lemma_pow2_unfold, pow2};
use vstd::prelude::*;

use crate::decoder::{
    across, all_spread_fit, can_read, category, comes_to_ycbcr, component_fits, counted,
    difference, divided, groups, is_any_stretched, is_only_scan, is_spread, is_stretched, markers,
    only_restarts, readings, row_fits, rows_fit, safe_to_read, scans, tallest, total_fits, widest,
};
use crate::header::{
    adobe_at, after_segment, category_from, component_wf, components, film_at, frame_wf, header,
    header_from, height, horizontal, is_frame, larger, largest_at, marker_at, number_at,
    quantizers_from, segment_end, sum_at, table, vertical, width, Colours, Header,
};


verus! {

/// Whether what is known at `at` is in shape: the decoder takes the frame, which lies before,
/// there are four tables of quantizers, and the category is one that there is.
pub open spec fn header_wf(data: Seq<u8>, known: Header, at: int) -> bool {
    &&& known.frame matches Some(frame) ==> frame_wf(data, frame) && frame + 10 + 3 * components(
        data,
        frame,
    ) <= at
    &&& known.quantizers.len() == 4
    &&& 0 <= known.category <= 15
}

/// The categories that tables bring are those that there are.
proof fn lemma_category_bounds(data: Seq<u8>, at: int, end: int, before: int)
    requires
        0 <= before <= 15,
    ensures
        category_from(data, at, end, before) matches Some(after) ==> 0 <= after <= 15,
    decreases end - at,
{
    if end - at >= 17 {
        let count = sum_at(data, at + 1, 16);
        let largest = largest_at(data, at + 17, count);
        if 0 <= count && 17 + count <= end - at {
            lemma_category_bounds(data, at + 17 + count, end, before);
            if largest <= 15 {
                lemma_category_bounds(data, at + 17 + count, end, larger(before, largest));
            }
        }
    }
}

/// The tables stay four.
proof fn lemma_four_tables(data: Seq<u8>, at: int, end: int, tables: Seq<u16>)
    requires
        tables.len() == 4,
    ensures
        quantizers_from(data, at, end, tables) matches Some(after) ==> after.len() == 4,
    decreases end - at,
{
    if at < end {
        let wide = data[at] as int / 16;
        let place = data[at] as int % 16;
        let first = if wide == 0 {
            data[at + 1] as u16
        } else {
            number_at(data, at + 1) as u16
        };
        if place <= 3 && 65 + 64 * wide <= end - at {
            lemma_four_tables(data, at + 65 + 64 * wide, end, tables.update(place, first));
        }
    }
}

/// What is known after a segment is in shape.
proof fn lemma_after_segment(data: Seq<u8>, at: int, known: Header)
    requires
        marker_at(data, at),
        header_wf(data, known, at),
        segment_end(data, at) is Some,
    ensures
        after_segment(data, at, known) matches Some(after) ==> header_wf(
            data,
            after,
            segment_end(data, at).unwrap(),
        ),
{
    let end = at + 2 + number_at(data, at + 2);
    lemma_four_tables(data, at + 4, end, known.quantizers);
    lemma_category_bounds(data, at + 4, end, known.category);
}

/// What is known at the first scan is in shape, and the scan is a marker in the file.
proof fn lemma_header_from(data: Seq<u8>, at: int, known: Header)
    requires
        0 <= at,
        header_wf(data, known, at),
    ensures
        header_from(data, at, known) matches Some((found, scan)) ==> {
            &&& header_wf(data, found, scan)
            &&& found.frame is Some
            &&& at <= scan
            &&& marker_at(data, scan)
            &&& data[scan + 1] == 0xda
        },
    decreases data.len() - at,
{
    if at + 1 < data.len() {
        if !marker_at(data, at) {
            lemma_header_from(data, at + 1, known);
        } else if data[at + 1] != 0xda {
            if segment_end(data, at) is Some {
                lemma_after_segment(data, at, known);
            }
            match (segment_end(data, at), after_segment(data, at, known)) {
                (Some(next), Some(after)) => {
                    lemma_header_from(data, next, after);
                },
                _ => {},
            }
        }
    }
}

/// What is known at the first scan of a file is in shape.
pub proof fn lemma_header(data: Seq<u8>)
    ensures
        header(data) matches Some((found, scan)) ==> {
            &&& header_wf(data, found, scan)
            &&& found.frame is Some
            &&& 2 <= scan
            &&& marker_at(data, scan)
            &&& data[scan + 1] == 0xda
        },
{
    lemma_header_from(
        data,
        2,
        Header {
            frame: None,
            colours: Colours::Ycbcr,
            quantizers: seq![0u16, 0u16, 0u16, 0u16],
            category: 0,
        },
    );
}

/// Whether no component has more samples in a row or in a column than the first.
pub open spec fn first_is_largest(data: Seq<u8>, frame: int) -> bool {
    forall|i: int|
        0 <= i < data[frame + 9] ==> {
            &&& data[#[trigger] (frame + 11 + 3 * i)] as int / 16 <= data[frame + 11] as int / 16
            &&& data[frame + 11 + 3 * i] as int % 16 <= data[frame + 11] as int % 16
        }
}

/// The widest and the tallest of the first components, where the first is the largest.
proof fn lemma_first_is_largest(data: Seq<u8>, frame: int, n: int)
    requires
        frame_wf(data, frame),
        first_is_largest(data, frame),
        1 <= n <= data[frame + 9],
    ensures
        widest(data, frame, n) == data[frame + 11] as int / 16,
        tallest(data, frame, n) == data[frame + 11] as int % 16,
    decreases n,
{
    assert(component_wf(data, frame, 0));
    assert(component_wf(data, frame, n - 1));
    assert(frame + 11 + 3 * (n - 1) == frame + 11 + 3 * (n - 1));
    if n > 1 {
        lemma_first_is_largest(data, frame, n - 1);
    } else {
        reveal_with_fuel(widest, 2);
        reveal_with_fuel(tallest, 2);
    }
}

/// A side is covered by `units` groups, and not by one less.
pub open spec fn is_covered(side: int, group: int, units: int) -> bool {
    (units - 1) * group < side <= units * group
}

/// So many groups cover a side.
proof fn lemma_covered(side: int, group: int, units: int)
    requires
        group > 0,
        is_covered(side, group, units),
    ensures
        divided(side, group) == units,
{
    let rest = side + group - 1 - units * group;
    assert((units - 1) * group == units * group - group) by (nonlinear_arith);
    lemma_fundamental_div_mod_converse_div(side + group - 1, group, units, rest);
}

/// The largest difference of a category has a bit for each.
proof fn lemma_difference(category: int)
    requires
        0 <= category,
    ensures
        difference(category) == pow2(category as nat) - 1,
    decreases category,
{
    if category > 0 {
        lemma_difference(category - 1);
        lemma_pow2_unfold(category as nat);
    } else {
        assert(pow2(0) == 1) by {
            vstd::arithmetic::power2::lemma2_to64();
        }
    }
}

/// Whether the sums of the component `i` of a frame fit: the picture has `columns` by `rows`
/// groups of blocks, each block can add a number of so many bits, and the sum is multiplied
/// by the first quantizer and rounded.
pub open spec fn sums_fit(
    data: Seq<u8>,
    known: Header,
    frame: int,
    columns: int,
    rows: int,
    i: int,
) -> bool {
    let blocks = (columns * (data[frame + 11 + 3 * i] as int / 16)) * (rows * (data[frame + 11 + 3
        * i] as int % 16));
    let quantizer = known.quantizers[data[frame + 12 + 3 * i] as int];
    blocks * (pow2(known.category as nat) - 1) * quantizer + 1028 <= i32::MAX
}

/// Whether the scan at `scan` is the only one: from its end to `stop` there are only coded
/// samples and restarts, and there the picture ends, or the file does.
pub open spec fn ends_after_scan(data: Seq<u8>, scan: int, stop: int) -> bool {
    let start = scan + 2 + data[scan + 2] * 256 + data[scan + 3];
    &&& scan + 4 <= data.len()
    &&& data[scan + 2] * 256 + data[scan + 3] >= 2
    &&& start <= stop <= data.len()
    &&& forall|p: int|
        start <= p < stop && p + 1 < data.len() && #[trigger] data[p] == 0xff ==> data[p + 1] == 0
            || data[p + 1] == 0xff || 0xd0 <= data[p + 1] <= 0xd7
    &&& stop + 1 < data.len() ==> data[stop] == 0xff && data[stop + 1] == 0xd9
}

/// Coded samples and restarts up to the end of the picture.
proof fn lemma_only_restarts(data: Seq<u8>, scan: int, stop: int, at: int)
    requires
        ends_after_scan(data, scan, stop),
        0 <= scan,
        scan + 2 + data[scan + 2] * 256 + data[scan + 3] <= at,
        at <= stop || at + 1 >= data.len(),
    ensures
        only_restarts(data, at),
    decreases data.len() - at,
{
    if at + 1 < data.len() {
        if !marker_at(data, at) {
            if at < stop {
                lemma_only_restarts(data, scan, stop, at + 1);
            } else {
                assert(data[stop] == 0xff);
            }
        } else if at < stop {
            assert(data[at] == 0xff);
            if at + 1 == stop && stop + 1 < data.len() {
                assert(data[stop] == 0xff);
            }
            lemma_only_restarts(data, scan, stop, at + 2);
        }
    }
}

/// A scan after which there are only restarts is the only one.
proof fn lemma_only_scan(data: Seq<u8>, scan: int, stop: int)
    requires
        0 <= scan,
        data[scan + 1] == 0xda,
        ends_after_scan(data, scan, stop),
    ensures
        is_only_scan(data, scan),
        segment_end(data, scan) == Some(scan + 2 + data[scan + 2] * 256 + data[scan + 3]),
{
    let start = scan + 2 + data[scan + 2] * 256 + data[scan + 3];
    lemma_only_restarts(data, scan, stop, start);
}

/// Which files of the sort that common encoders write are read, whatever their length: of the
/// pictures that are not progressive, whose first component is sampled most, with one scan
/// for all components, those that there is room for and the sums of which fit.
pub proof fn law_common_files(
    data: &[u8],
    known: Header,
    frame: int,
    scan: int,
    stop: int,
    columns: int,
    rows: int,
    can: bool,
)
    requires
        header(data@) == Some((known, scan)),
        known.frame == Some(frame),
        data@[frame + 1] == 0xc0 || data@[frame + 1] == 0xc1,
        first_is_largest(data@, frame),
        scan + 4 < data@.len(),
        data@[scan + 4] == data@[frame + 9],
        ends_after_scan(data@, scan, stop),
        is_covered(
            data@[frame + 7] * 256 + data@[frame + 8],
            8 * (data@[frame + 11] as int / 16),
            columns,
        ),
        is_covered(
            data@[frame + 5] * 256 + data@[frame + 6],
            8 * (data@[frame + 11] as int % 16),
            rows,
        ),
        call_ensures(can_read, (data,), can),
    ensures
        can <==> {
            &&& scan <= i32::MAX
            &&& has_room(data@, frame)
            &&& data@[frame + 9] == 1 && data@[frame + 11] != 0x11 && known.colours
                == Colours::Luma ==> {
                &&& data@[frame + 7] * 256 + data@[frame + 8] <= 65528
                &&& data@[frame + 5] * 256 + data@[frame + 6] <= 65528
            }
            &&& forall|i: int|
                0 <= i < data@[frame + 9] ==> #[trigger] sums_fit(
                    data@,
                    known,
                    frame,
                    columns,
                    rows,
                    i,
                )
        },
{
    lemma_header(data@);
    lemma_only_scan(data@, scan, stop);
    let count = components(data@, frame);
    lemma_first_is_largest(data@, frame, count);
    assert(component_wf(data@, frame, 0));
    lemma_covered(width(data@, frame), 8 * (data@[frame + 11] as int / 16), columns);
    lemma_covered(height(data@, frame), 8 * (data@[frame + 11] as int % 16), rows);
    assert(readings(data@, scan) == 1);
    assert forall|i: int| 0 <= i < count implies #[trigger] total_fits(data@, known, scan, i)
        == sums_fit(data@, known, frame, columns, rows, i) by {
        assert(component_wf(data@, frame, i));
        lemma_first_is_largest(data@, frame, i + 1);
        lemma_sums(data@, known, frame, columns, rows, i);
    }
    if forall|i: int| 0 <= i < count ==> #[trigger] total_fits(data@, known, scan, i) {
        assert forall|i: int| 0 <= i < count implies #[trigger] sums_fit(
            data@,
            known,
            frame,
            columns,
            rows,
            i,
        ) by {
            assert(total_fits(data@, known, scan, i));
        }
    }
}

/// Whether the pixels of a frame can be had on this machine.
pub open spec fn has_room(data: Seq<u8>, frame: int) -> bool {
    (data[frame + 7] * 256 + data[frame + 8] + 32) * (data[frame + 5] * 256 + data[frame + 6] + 32)
        * 4 <= isize::MAX
}

/// The most that the differences of a component can add up to in one scan.
proof fn lemma_sums(data: Seq<u8>, known: Header, frame: int, columns: int, rows: int, i: int)
    requires
        0 <= known.category,
        divided(width(data, frame), 8 * widest(data, frame, i + 1)) == columns,
        groups(data, frame) == rows,
    ensures
        ({
            let h = data[frame + 11 + 3 * i] as int / 16;
            let v = data[frame + 11 + 3 * i] as int % 16;
            counted(data, frame, i) * (vertical(data, frame, i) * groups(data, frame))
                * difference(known.category) == (columns * h) * (rows * v) * (pow2(
                known.category as nat,
            ) - 1)
        }),
{
    lemma_difference(known.category);
    let v = data[frame + 11 + 3 * i] as int % 16;
    assert(v * rows == rows * v) by (nonlinear_arith);
}

/// There is room to spread components where the first is sampled most.
proof fn lemma_spread_fit(data: Seq<u8>, frame: int)
    requires
        frame_wf(data, frame),
        first_is_largest(data, frame),
    ensures
        counted(data, frame, 0) == across(data, frame, 0),
        all_spread_fit(data, frame),
{
    let count = components(data, frame);
    lemma_first_is_largest(data, frame, count);
    lemma_first_is_largest(data, frame, 1);
    assert(component_wf(data, frame, 0));
    assert forall|i: int| 0 <= i < count && #[trigger] is_spread(data, frame, i) implies 2
        * counted(data, frame, i) <= counted(data, frame, 0) by {
        assert(component_wf(data, frame, i));
        lemma_first_is_largest(data, frame, i + 1);
        let units = divided(width(data, frame), 8 * widest(data, frame, 1));
        let h = horizontal(data, frame, i);
        assert(2 * (units * h) == units * (2 * h)) by (nonlinear_arith);
    }
}

/// Which progressive files of the sort that common encoders write are read, whatever follows
/// their first scan: of those with up to three components, the first of which is sampled
/// most, all that there is room for, unless there are fewer than three and four are said to
/// be there.
pub proof fn law_common_progressive_files(
    data: &[u8],
    known: Header,
    frame: int,
    scan: int,
    can: bool,
)
    requires
        header(data@) == Some((known, scan)),
        known.frame == Some(frame),
        data@[frame + 1] == 0xc2,
        data@[frame + 9] < 4,
        first_is_largest(data@, frame),
        call_ensures(can_read, (data,), can),
    ensures
        can <==> {
            &&& scan <= i32::MAX
            &&& has_room(data@, frame)
            &&& data@[frame + 9] < 3 ==> known.colours != Colours::Ycck
        },
{
    lemma_header(data@);
    lemma_spread_fit(data@, frame);
}

/// Colours that are no brightness with two differences stay so where nothing is said of
/// them.
proof fn lemma_nothing_is_said(data: Seq<u8>, at: int, known: Header)
    requires
        0 <= at,
        known.colours != Colours::Ycbcr,
        known.frame is Some,
        forall|p: int|
            at <= p < data.len() - 1 ==> !(#[trigger] data[p] == 0xff && data[p + 1] == 0xee),
    ensures
        !comes_to_ycbcr(data, at, known),
    decreases data.len() - at,
{
    if at + 1 < data.len() {
        if !marker_at(data, at) {
            lemma_nothing_is_said(data, at + 1, known);
        } else if 0xd0 <= data[at + 1] <= 0xd7 {
            lemma_nothing_is_said(data, at + 2, known);
        } else {
            assert(data[at] == 0xff);
            match (segment_end(data, at), after_segment(data, at, known)) {
                (Some(end), Some(after)) => {
                    lemma_nothing_is_said(data, end, after);
                },
                _ => {},
            }
        }
    }
}

/// Progressive files with four components are read where there is room, the first component
/// is sampled most, the colours are said to be of four components, and nothing is said of
/// them after the first scan.
pub proof fn law_progressive_files_of_four(
    data: &[u8],
    known: Header,
    frame: int,
    scan: int,
    can: bool,
)
    requires
        header(data@) == Some((known, scan)),
        known.frame == Some(frame),
        data@[frame + 1] == 0xc2,
        data@[frame + 9] == 4,
        first_is_largest(data@, frame),
        scan <= i32::MAX,
        has_room(data@, frame),
        known.colours == Colours::Cmyk || known.colours == Colours::Ycck,
        forall|p: int|
            scan <= p < data@.len() - 1 ==> !(#[trigger] data@[p] == 0xff && data@[p + 1] == 0xee),
        call_ensures(can_read, (data,), can),
    ensures
        can,
{
    lemma_header(data@);
    lemma_spread_fit(data@, frame);
    lemma_nothing_is_said(data@, scan, known);
}

/// A file in which the decoder comes to no scan is left to it, up to the length that it can
/// count.
pub proof fn law_files_without_scan(data: &[u8], can: bool)
    requires
        header(data@) is None,
        call_ensures(can_read, (data,), can),
    ensures
        can <==> data@.len() <= i32::MAX,
{
}

/// Whether two files begin with the same `n` bytes.
pub open spec fn begin_alike(a: Seq<u8>, b: Seq<u8>, n: int) -> bool {
    &&& 0 <= n <= a.len()
    &&& n <= b.len()
    &&& forall|i: int| 0 <= i < n ==> #[trigger] a[i] == b[i]
}

/// Tables of quantizers in the part that is alike.
proof fn lemma_quantizers_alike(
    a: Seq<u8>,
    b: Seq<u8>,
    n: int,
    at: int,
    end: int,
    tables: Seq<u16>,
)
    requires
        begin_alike(a, b, n),
        0 <= at,
        end <= n,
    ensures
        quantizers_from(a, at, end, tables) == quantizers_from(b, at, end, tables),
    decreases end - at,
{
    if at < end {
        let wide = a[at] as int / 16;
        let place = a[at] as int % 16;
        if wide <= 1 && place <= 3 && end - at >= 65 + 64 * wide {
            let first = if wide == 0 {
                a[at + 1] as u16
            } else {
                number_at(a, at + 1) as u16
            };
            lemma_quantizers_alike(a, b, n, at + 65 + 64 * wide, end, tables.update(place, first));
        }
    }
}

/// Sums and largest bytes in the part that is alike.
proof fn lemma_bytes_alike(a: Seq<u8>, b: Seq<u8>, n: int, at: int, count: int)
    requires
        begin_alike(a, b, n),
        0 <= at,
        at + count <= n,
    ensures
        sum_at(a, at, count) == sum_at(b, at, count),
        sum_at(a, at, count) >= 0,
        largest_at(a, at, count) == largest_at(b, at, count),
    decreases count,
{
    if count > 0 {
        lemma_bytes_alike(a, b, n, at, count - 1);
        assert(a[at + count - 1] == b[at + count - 1]);
    }
}

/// Tables of codes in the part that is alike.
proof fn lemma_codes_alike(a: Seq<u8>, b: Seq<u8>, n: int, at: int, end: int, before: int)
    requires
        begin_alike(a, b, n),
        0 <= at,
        end <= n,
    ensures
        category_from(a, at, end, before) == category_from(b, at, end, before),
    decreases end - at,
{
    if end - at >= 17 {
        lemma_bytes_alike(a, b, n, at + 1, 16);
        let count = sum_at(a, at + 1, 16);
        if count <= 256 && 17 + count <= end - at {
            lemma_bytes_alike(a, b, n, at + 17, count);
            let largest = largest_at(a, at + 17, count);
            lemma_codes_alike(a, b, n, at + 17 + count, end, before);
            lemma_codes_alike(a, b, n, at + 17 + count, end, larger(before, largest));
        }
    }
}

/// A frame in the part that is alike.
proof fn lemma_frame_alike(a: Seq<u8>, b: Seq<u8>, n: int, frame: int)
    requires
        begin_alike(a, b, n),
        0 <= frame,
        frame + 4 <= n,
        frame + 2 + number_at(a, frame + 2) <= n,
    ensures
        frame_wf(a, frame) == frame_wf(b, frame),
{
    let length = number_at(a, frame + 2);
    assert(length == number_at(b, frame + 2));
    if length >= 8 {
        let count = components(a, frame);
        assert(count == components(b, frame));
        if length == 8 + 3 * count {
            assert forall|i: int| 0 <= i < count implies #[trigger] component_wf(a, frame, i)
                == component_wf(b, frame, i) by {
                assert(a[frame + 11 + 3 * i] == b[frame + 11 + 3 * i]);
                assert(a[frame + 12 + 3 * i] == b[frame + 12 + 3 * i]);
            }
            if frame_wf(b, frame) {
                assert forall|i: int| 0 <= i < count implies #[trigger] component_wf(
                    a,
                    frame,
                    i,
                ) by {
                    assert(component_wf(b, frame, i));
                }
            }
            if frame_wf(a, frame) {
                assert forall|i: int| 0 <= i < count implies #[trigger] component_wf(
                    b,
                    frame,
                    i,
                ) by {
                    assert(component_wf(a, frame, i));
                }
            }
        }
    }
}

/// What is known at the first scan, where the files are alike up to some bytes of it.
proof fn lemma_header_alike(a: Seq<u8>, b: Seq<u8>, n: int, at: int, known: Header)
    requires
        begin_alike(a, b, n),
        0 <= at,
        header_wf(a, known, at),
        header_from(a, at, known) matches Some((found, scan)) && scan + 10 <= n,
    ensures
        header_from(b, at, known) == header_from(a, at, known),
    decreases a.len() - at,
{
    lemma_header_from(a, at, known);
    let (found, scan) = header_from(a, at, known).unwrap();
    assert(a[at] == b[at]);
    assert(a[at + 1] == b[at + 1]);
    if !marker_at(a, at) {
        lemma_header_alike(a, b, n, at + 1, known);
    } else if a[at + 1] != 0xda {
        let end = segment_end(a, at).unwrap();
        let after = after_segment(a, at, known).unwrap();
        lemma_after_segment(a, at, known);
        lemma_header_from(a, end, after);
        assert(end <= scan);
        let length = number_at(a, at + 2);
        assert(length == number_at(b, at + 2));
        lemma_quantizers_alike(a, b, n, at + 4, at + 2 + length, known.quantizers);
        lemma_codes_alike(a, b, n, at + 4, at + 2 + length, known.category);
        lemma_frame_alike(a, b, n, at);
        assert(film_at(a, at) == film_at(b, at)) by {
            assert(a[at + 4] == b[at + 4] && a[at + 5] == b[at + 5] && a[at + 6] == b[at + 6]
                && a[at + 7] == b[at + 7] && a[at + 8] == b[at + 8]);
        }
        assert(adobe_at(a, at) == adobe_at(b, at)) by {
            assert(a[at + 4] == b[at + 4] && a[at + 5] == b[at + 5] && a[at + 6] == b[at + 6]
                && a[at + 7] == b[at + 7] && a[at + 8] == b[at + 8]);
        }
        if length >= 14 {
            assert(a[at + 15] == b[at + 15]);
        }
        if is_frame(a[at + 1]) {
            assert(a[at + 9] == b[at + 9]);
        }
        assert(after_segment(b, at, known) == after_segment(a, at, known));
        assert(segment_end(b, at) == segment_end(a, at));
        lemma_header_alike(a, b, n, end, after);
    }
}

/// The sampling of a frame in the part that is alike.
proof fn lemma_sampling_alike(a: Seq<u8>, b: Seq<u8>, n: int, frame: int, k: int)
    requires
        begin_alike(a, b, n),
        0 <= frame,
        frame + 10 + 3 * a[frame + 9] <= n,
        k <= a[frame + 9],
    ensures
        widest(a, frame, k) == widest(b, frame, k),
        tallest(a, frame, k) == tallest(b, frame, k),
    decreases k,
{
    if k > 0 {
        lemma_sampling_alike(a, b, n, frame, k - 1);
        assert(a[frame + 11 + 3 * (k - 1)] == b[frame + 11 + 3 * (k - 1)]);
    }
}

/// The sizes of a component of a frame in the part that is alike.
proof fn lemma_sizes_alike(a: Seq<u8>, b: Seq<u8>, n: int, frame: int, i: int)
    requires
        begin_alike(a, b, n),
        0 <= frame,
        frame + 10 + 3 * a[frame + 9] <= n,
        0 <= i < a[frame + 9],
    ensures
        counted(a, frame, i) == counted(b, frame, i),
        across(a, frame, i) == across(b, frame, i),
        vertical(a, frame, i) == vertical(b, frame, i),
        groups(a, frame) == groups(b, frame),
        table(a, frame, i) == table(b, frame, i),
        is_spread(a, frame, i) == is_spread(b, frame, i),
        is_stretched(a, frame, i) == is_stretched(b, frame, i),
        component_fits(a, frame, i) == component_fits(b, frame, i),
{
    assert(a[frame + 5] == b[frame + 5] && a[frame + 6] == b[frame + 6]);
    assert(a[frame + 7] == b[frame + 7] && a[frame + 8] == b[frame + 8]);
    assert(a[frame + 9] == b[frame + 9]);
    assert(a[frame + 11 + 3 * i] == b[frame + 11 + 3 * i]);
    assert(a[frame + 12 + 3 * i] == b[frame + 12 + 3 * i]);
    lemma_sampling_alike(a, b, n, frame, i + 1);
    lemma_sampling_alike(a, b, n, frame, a[frame + 9] as int);
}

/// Restarts say nothing of colours.
proof fn lemma_restarts_say_nothing(data: Seq<u8>, at: int, known: Header)
    requires
        0 <= at,
        only_restarts(data, at),
    ensures
        comes_to_ycbcr(data, at, known) == (known.colours == Colours::Ycbcr),
    decreases data.len() - at,
{
    if at + 1 < data.len() {
        if !marker_at(data, at) {
            lemma_restarts_say_nothing(data, at + 1, known);
        } else if 0xd0 <= data[at + 1] <= 0xd7 {
            lemma_restarts_say_nothing(data, at + 2, known);
        }
    }
}

/// What is safe in one of two files is safe in the other, where they are alike up to the end
/// of their only scan's head.
proof fn lemma_safe_alike(a: Seq<u8>, b: Seq<u8>, n: int, known: Header, scan: int)
    requires
        begin_alike(a, b, n),
        header(a) == Some((known, scan)),
        header(b) == Some((known, scan)),
        scan + 10 <= n,
        segment_end(a, scan) is Some,
        segment_end(b, scan) is Some,
        is_only_scan(a, scan),
        is_only_scan(b, scan),
        safe_to_read(a),
    ensures
        safe_to_read(b),
{
    lemma_header(a);
    lemma_header(b);
    let frame = known.frame.unwrap();
    let count = components(a, frame);
    assert(a[frame + 1] == b[frame + 1]);
    assert(a[frame + 5] == b[frame + 5] && a[frame + 6] == b[frame + 6]);
    assert(a[frame + 7] == b[frame + 7] && a[frame + 8] == b[frame + 8]);
    assert(a[frame + 9] == b[frame + 9]);
    assert(a[frame + 11] == b[frame + 11]);
    assert(a[scan + 4] == b[scan + 4]);
    lemma_sizes_alike(a, b, n, frame, 0);
    assert forall|i: int| 0 <= i < count implies {
        &&& #[trigger] is_spread(a, frame, i) == is_spread(b, frame, i)
        &&& counted(a, frame, i) == counted(b, frame, i)
    } by {
        lemma_sizes_alike(a, b, n, frame, i);
    }
    assert(all_spread_fit(a, frame) ==> all_spread_fit(b, frame)) by {
        if all_spread_fit(a, frame) {
            assert forall|i: int| 0 <= i < count && #[trigger] is_spread(b, frame, i) implies 2
                * counted(b, frame, i) <= counted(b, frame, 0) by {
                assert(is_spread(a, frame, i) == is_spread(b, frame, i));
            }
        }
    }
    if a[frame + 1] == 0xc2 {
        lemma_restarts_say_nothing(a, segment_end(a, scan).unwrap(), known);
        lemma_restarts_say_nothing(b, segment_end(b, scan).unwrap(), known);
        if is_any_stretched(b, frame) {
            let i = choose|i: int| 0 <= i < count && #[trigger] is_stretched(b, frame, i);
            lemma_sizes_alike(a, b, n, frame, i);
            assert(is_stretched(a, frame, i));
        }
        assert(comes_to_ycbcr(a, scan, known) == comes_to_ycbcr(b, scan, known));
    } else {
        if !scans(a, scan, count) {
            assert forall|i: int| 0 <= i < count implies #[trigger] component_fits(
                b,
                frame,
                i,
            ) by {
                assert(component_fits(a, frame, i));
                lemma_sizes_alike(a, b, n, frame, i);
            }
        }
        assert forall|i: int| 0 <= i < count implies #[trigger] total_fits(b, known, scan, i) by {
            assert(total_fits(a, known, scan, i));
            lemma_sizes_alike(a, b, n, frame, i);
        }
    }
}

/// Whether a file with one scan is read does not depend on the coded samples, nor on how many
/// there are, nor on what follows the picture: two such files that are alike up to the end of
/// the head of their scan are both read, or neither is.
pub proof fn law_coded_samples_do_not_matter(
    data: &[u8],
    other: &[u8],
    known: Header,
    scan: int,
    stop: int,
    other_stop: int,
    can: bool,
    other_can: bool,
)
    requires
        header(data@) == Some((known, scan)),
        data@[scan + 2] * 256 + data@[scan + 3] >= 8,
        begin_alike(data@, other@, scan + 2 + data@[scan + 2] * 256 + data@[scan + 3]),
        ends_after_scan(data@, scan, stop),
        ends_after_scan(other@, scan, other_stop),
        call_ensures(can_read, (data,), can),
        call_ensures(can_read, (other,), other_can),
    ensures
        can == other_can,
{
    let a = data@;
    let b = other@;
    lemma_header(a);
    let n = scan + 2 + a[scan + 2] * 256 + a[scan + 3];
    assert(a[0] == b[0] && a[1] == b[1]);
    lemma_header_alike(
        a,
        b,
        n,
        2,
        Header {
            frame: None,
            colours: Colours::Ycbcr,
            quantizers: seq![0u16, 0u16, 0u16, 0u16],
            category: 0,
        },
    );
    assert(header(b) == Some((known, scan)));
    lemma_header(b);
    lemma_only_scan(a, scan, stop);
    lemma_only_scan(b, scan, other_stop);
    assert(begin_alike(b, a, n));
    if safe_to_read(a) {
        lemma_safe_alike(a, b, n, known, scan);
    }
    if safe_to_read(b) {
        lemma_safe_alike(b, a, n, known, scan);
    }
}

/// Whether all places from `at` on where a marker with this code can begin are among
/// `places`, which are in order.
pub open spec fn begins_only_at(data: Seq<u8>, at: int, code: u8, places: Seq<int>) -> bool {
    &&& forall|j: int, k: int| 0 <= j < k < places.len() ==> #[trigger] places[j]
        < #[trigger] places[k]
    &&& forall|p: int|
        at <= p < data.len() - 1 && #[trigger] data[p] == 0xff && data[p + 1] == code
            ==> places.contains(p)
}

/// There are no more markers than places where they can begin.
proof fn lemma_markers(data: Seq<u8>, at: int, code: u8, places: Seq<int>)
    requires
        0 <= at,
        begins_only_at(data, at, code, places),
    ensures
        0 <= markers(data, at, code) <= places.len(),
    decreases data.len() - at,
{
    if at + 1 < data.len() {
        if data[at] == 0xff && data[at + 1] == code {
            assert(places.contains(at));
            let m = choose|m: int| 0 <= m < places.len() && places[m] == at;
            let later = places.skip(m + 1);
            assert forall|p: int|
                at + 1 <= p < data.len() - 1 && #[trigger] data[p] == 0xff && data[p + 1]
                    == code implies later.contains(p) by {
                assert(places.contains(p));
                let k = choose|k: int| 0 <= k < places.len() && places[k] == p;
                assert(k > m) by {
                    if k < m {
                        assert(places[k] < places[m]);
                    }
                }
                assert(later[k - m - 1] == p);
            }
            assert forall|j: int, k: int| 0 <= j < k < later.len() implies #[trigger] later[j]
                < #[trigger] later[k] by {
                assert(places[j + m + 1] < places[k + m + 1]);
            }
            lemma_markers(data, at + 1, code, later);
        } else {
            lemma_markers(data, at + 1, code, places);
        }
    }
}

/// The rows of a component fit where as many blocks are counted as there are.
proof fn lemma_rows_fit(counted: int, vertical: int, groups: int)
    requires
        counted >= 0,
        vertical >= 1,
    ensures
        rows_fit(counted, counted, vertical, groups),
{
    assert forall|row: int| 0 <= row < groups implies #[trigger] row_fits(
        counted,
        counted,
        vertical,
        groups,
        row,
    ) by {
        assert((row * vertical + 1) * counted <= counted * vertical * groups) by (nonlinear_arith)
            requires
                0 <= row,
                row + 1 <= groups,
                counted >= 0,
                vertical >= 1,
        ;
    }
}

/// Files of more than one scan that are not progressive are read too: where there is room,
/// the first component is sampled most, no tables of codes follow the first scan, and the
/// sums fit as many times as there are places where a scan can begin.
pub proof fn law_files_of_more_scans(
    data: &[u8],
    known: Header,
    frame: int,
    scan: int,
    places: Seq<int>,
    columns: int,
    rows: int,
    can: bool,
)
    requires
        header(data@) == Some((known, scan)),
        known.frame == Some(frame),
        data@[frame + 1] == 0xc0 || data@[frame + 1] == 0xc1,
        scan <= i32::MAX,
        has_room(data@, frame),
        data@[frame + 9] > 1,
        first_is_largest(data@, frame),
        begins_only_at(data@, scan + 2, 0xda, places),
        begins_only_at(data@, scan + 2, 0xc4, Seq::<int>::empty()),
        is_covered(
            data@[frame + 7] * 256 + data@[frame + 8],
            8 * (data@[frame + 11] as int / 16),
            columns,
        ),
        is_covered(
            data@[frame + 5] * 256 + data@[frame + 6],
            8 * (data@[frame + 11] as int % 16),
            rows,
        ),
        forall|i: int|
            0 <= i < data@[frame + 9] ==> #[trigger] sums_fit_times(
                data@,
                known,
                frame,
                columns,
                rows,
                i,
                places.len() as int + 1,
            ),
        call_ensures(can_read, (data,), can),
    ensures
        can,
{
    lemma_header(data@);
    let count = components(data@, frame);
    lemma_first_is_largest(data@, frame, count);
    lemma_spread_fit(data@, frame);
    assert(component_wf(data@, frame, 0));
    lemma_covered(width(data@, frame), 8 * (data@[frame + 11] as int / 16), columns);
    lemma_covered(height(data@, frame), 8 * (data@[frame + 11] as int % 16), rows);
    assert(columns >= 1) by (nonlinear_arith)
        requires
            0 < data@[frame + 7] * 256 + data@[frame + 8] <= columns * (8 * (data@[frame + 11] as int
                / 16)),
            data@[frame + 11] as int / 16 > 0,
    ;
    assert(rows >= 1) by (nonlinear_arith)
        requires
            0 < data@[frame + 5] * 256 + data@[frame + 6] <= rows * (8 * (data@[frame + 11] as int
                % 16)),
            data@[frame + 11] as int % 16 > 0,
    ;
    assert forall|i: int| 0 <= i < count implies #[trigger] total_fits(
        data@,
        known,
        scan,
        i,
    ) by {
        assert(component_wf(data@, frame, i));
        lemma_first_is_largest(data@, frame, i + 1);
        assert(sums_fit_times(data@, known, frame, columns, rows, i, places.len() as int + 1));
        lemma_total(data@, known, scan, places, columns, rows, i);
    }
    assert forall|i: int| 0 <= i < count implies #[trigger] component_fits(data@, frame, i) by {
        assert(component_wf(data@, frame, i));
        lemma_first_is_largest(data@, frame, i + 1);
        let h = horizontal(data@, frame, i);
        assert(columns * h >= 0) by (nonlinear_arith)
            requires
                columns >= 1,
                h >= 1,
        ;
        lemma_rows_fit(counted(data@, frame, i), vertical(data@, frame, i), groups(data@, frame));
    }
}

/// What the differences of a component add up to fits, where the sums fit as many times as
/// there are places where a scan can begin.
proof fn lemma_total(
    data: Seq<u8>,
    known: Header,
    scan: int,
    places: Seq<int>,
    columns: int,
    rows: int,
    i: int,
)
    requires
        known.frame is Some,
        0 <= scan,
        0 <= known.category,
        component_wf(data, known.frame.unwrap(), i),
        columns >= 1,
        rows >= 1,
        divided(width(data, known.frame.unwrap()), 8 * widest(data, known.frame.unwrap(), i + 1))
            == columns,
        groups(data, known.frame.unwrap()) == rows,
        begins_only_at(data, scan + 2, 0xda, places),
        begins_only_at(data, scan + 2, 0xc4, Seq::<int>::empty()),
        sums_fit_times(
            data,
            known,
            known.frame.unwrap(),
            columns,
            rows,
            i,
            places.len() as int + 1,
        ),
    ensures
        total_fits(data, known, scan, i),
{
    let frame = known.frame.unwrap();
    lemma_markers(data, scan + 2, 0xda, places);
    lemma_markers(data, scan + 2, 0xc4, Seq::<int>::empty());
    lemma_sums(data, known, frame, columns, rows, i);
    let h = horizontal(data, frame, i);
    let v = vertical(data, frame, i);
    lemma_not_negative(columns, h, rows, v, known.category);
    let once = (columns * h) * (rows * v) * (pow2(known.category as nat) - 1);
    let quantizer = known.quantizers[table(data, frame, i)];
    let n = readings(data, scan);
    let most = places.len() as int + 1;
    assert(n * once * quantizer <= most * once * quantizer) by (nonlinear_arith)
        requires
            n <= most,
            once >= 0,
            quantizer >= 0,
    ;
}

/// What the differences can add up to is not negative.
proof fn lemma_not_negative(columns: int, h: int, rows: int, v: int, category: int)
    requires
        columns >= 1,
        rows >= 1,
        h >= 1,
        v >= 1,
        category >= 0,
    ensures
        (columns * h) * (rows * v) * (pow2(category as nat) - 1) >= 0,
{
    lemma_difference(category);
    lemma_difference_sign(category);
    let d = pow2(category as nat) - 1;
    assert((columns * h) * (rows * v) * d >= 0) by (nonlinear_arith)
        requires
            columns >= 1,
            rows >= 1,
            h >= 1,
            v >= 1,
            d >= 0,
    ;
}

/// The largest difference of a category is not negative.
proof fn lemma_difference_sign(category: int)
    ensures
        difference(category) >= 0,
    decreases category,
{
    if category > 0 {
        lemma_difference_sign(category - 1);
    }
}

/// Whether the sums of the component `i` of a frame fit, if it is read so many times.
pub open spec fn sums_fit_times(
    data: Seq<u8>,
    known: Header,
    frame: int,
    columns: int,
    rows: int,
    i: int,
    times: int,
) -> bool {
    let blocks = (columns * (data[frame + 11 + 3 * i] as int / 16)) * (rows * (data[frame + 11 + 3
        * i] as int % 16));
    let quantizer = known.quantizers[data[frame + 12 + 3 * i] as int];
    times * (blocks * (pow2(known.category as nat) - 1)) * quantizer + 1028 <= i32::MAX
}

/// Whether all components have the same number of samples in a column.
pub open spec fn equally_tall(data: Seq<u8>, frame: int) -> bool {
    forall|i: int|
        0 <= i < data[frame + 9] ==> data[#[trigger] (frame + 11 + 3 * i)] as int % 16
            == data[frame + 11] as int % 16
}

/// The widest of some components has at least one sample, and at most four.
proof fn lemma_widest(data: Seq<u8>, frame: int, n: int)
    requires
        frame_wf(data, frame),
        n <= data[frame + 9],
    ensures
        1 <= widest(data, frame, n) <= 4,
    decreases n,
{
    if n > 0 {
        assert(component_wf(data, frame, n - 1));
        lemma_widest(data, frame, n - 1);
    }
}

/// The tallest of components that are equally tall.
proof fn lemma_equally_tall(data: Seq<u8>, frame: int, n: int)
    requires
        frame_wf(data, frame),
        equally_tall(data, frame),
        1 <= n <= data[frame + 9],
    ensures
        tallest(data, frame, n) == data[frame + 11] as int % 16,
    decreases n,
{
    assert(component_wf(data, frame, 0));
    assert(component_wf(data, frame, n - 1));
    assert(frame + 11 + 3 * (n - 1) == frame + 11 + 3 * (n - 1));
    if n > 1 {
        lemma_equally_tall(data, frame, n - 1);
    } else {
        reveal_with_fuel(tallest, 2);
    }
}

/// Narrow progressive pictures are read whichever component is sampled most in a row: up to
/// eight columns there is one group of blocks in a row either way.
pub proof fn law_narrow_progressive_files(
    data: &[u8],
    known: Header,
    frame: int,
    scan: int,
    can: bool,
)
    requires
        header(data@) == Some((known, scan)),
        known.frame == Some(frame),
        data@[frame + 1] == 0xc2,
        data@[frame + 9] < 4,
        data@[frame + 7] * 256 + data@[frame + 8] <= 8,
        equally_tall(data@, frame),
        call_ensures(can_read, (data,), can),
    ensures
        can <==> {
            &&& scan <= i32::MAX
            &&& has_room(data@, frame)
            &&& data@[frame + 9] < 3 ==> known.colours != Colours::Ycck
        },
{
    lemma_header(data@);
    let count = components(data@, frame);
    lemma_equally_tall(data@, frame, count);
    assert forall|i: int| 0 <= i < count implies !#[trigger] is_spread(data@, frame, i) by {
        assert(component_wf(data@, frame, i));
        assert(data@[frame + 11 + 3 * i] as int % 16 == data@[frame + 11] as int % 16);
    }
}

/// So are narrow pictures that are not progressive, however many scans there are, where the
/// sums fit.
pub proof fn law_narrow_files(
    data: &[u8],
    known: Header,
    frame: int,
    scan: int,
    places: Seq<int>,
    rows: int,
    can: bool,
)
    requires
        header(data@) == Some((known, scan)),
        known.frame == Some(frame),
        data@[frame + 1] == 0xc0 || data@[frame + 1] == 0xc1,
        data@[frame + 9] > 1,
        data@[frame + 7] * 256 + data@[frame + 8] <= 8,
        equally_tall(data@, frame),
        scan <= i32::MAX,
        has_room(data@, frame),
        begins_only_at(data@, scan + 2, 0xda, places),
        begins_only_at(data@, scan + 2, 0xc4, Seq::<int>::empty()),
        is_covered(
            data@[frame + 5] * 256 + data@[frame + 6],
            8 * (data@[frame + 11] as int % 16),
            rows,
        ),
        forall|i: int|
            0 <= i < data@[frame + 9] ==> #[trigger] sums_fit_times(
                data@,
                known,
                frame,
                1,
                rows,
                i,
                places.len() as int + 1,
            ),
        call_ensures(can_read, (data,), can),
    ensures
        can,
{
    lemma_header(data@);
    let count = components(data@, frame);
    lemma_equally_tall(data@, frame, count);
    assert(component_wf(data@, frame, 0));
    lemma_covered(height(data@, frame), 8 * (data@[frame + 11] as int % 16), rows);
    assert(rows >= 1) by (nonlinear_arith)
        requires
            0 < data@[frame + 5] * 256 + data@[frame + 6] <= rows * (8 * (data@[frame + 11] as int
                % 16)),
            data@[frame + 11] as int % 16 > 0,
    ;
    assert forall|i: int| 0 <= i < count implies {
        &&& !#[trigger] is_spread(data@, frame, i)
        &&& component_fits(data@, frame, i)
        &&& total_fits(data@, known, scan, i)
    } by {
        assert(component_wf(data@, frame, i));
        assert(data@[frame + 11 + 3 * i] as int % 16 == data@[frame + 11] as int % 16);
        assert(sums_fit_times(data@, known, frame, 1, rows, i, places.len() as int + 1));
        lemma_widest(data@, frame, i + 1);
        lemma_widest(data@, frame, count);
        lemma_one_group(width(data@, frame), widest(data@, frame, i + 1));
        lemma_one_group(width(data@, frame), widest(data@, frame, count));
        lemma_rows_fit(counted(data@, frame, i), vertical(data@, frame, i), groups(data@, frame));
        lemma_total(data@, known, scan, places, 1, rows, i);
    }
    assert forall|i: int| 0 <= i < count implies #[trigger] component_fits(data@, frame, i) by {
        assert(!is_spread(data@, frame, i));
    }
    assert forall|i: int| 0 <= i < count implies #[trigger] total_fits(
        data@,
        known,
        scan,
        i,
    ) by {
        assert(!is_spread(data@, frame, i));
    }
}

/// A side of up to eight pixels is one group.
proof fn lemma_one_group(side: int, factor: int)
    requires
        1 <= side <= 8,
        1 <= factor <= 4,
    ensures
        divided(side, 8 * factor) == 1,
{
    lemma_covered(side, 8 * factor, 1);
}

/// A picture that is not progressive is refused where the sums do not even fit once.
pub proof fn law_sums_that_do_not_fit(
    data: &[u8],
    known: Header,
    frame: int,
    scan: int,
    columns: int,
    rows: int,
    i: int,
    can: bool,
)
    requires
        header(data@) == Some((known, scan)),
        known.frame == Some(frame),
        data@[frame + 1] == 0xc0 || data@[frame + 1] == 0xc1,
        first_is_largest(data@, frame),
        is_covered(
            data@[frame + 7] * 256 + data@[frame + 8],
            8 * (data@[frame + 11] as int / 16),
            columns,
        ),
        is_covered(
            data@[frame + 5] * 256 + data@[frame + 6],
            8 * (data@[frame + 11] as int % 16),
            rows,
        ),
        0 <= i < data@[frame + 9],
        !sums_fit(data@, known, frame, columns, rows, i),
        call_ensures(can_read, (data,), can),
    ensures
        !can,
{
    lemma_header(data@);
    let count = components(data@, frame);
    lemma_first_is_largest(data@, frame, count);
    lemma_first_is_largest(data@, frame, i + 1);
    assert(component_wf(data@, frame, 0));
    assert(component_wf(data@, frame, i));
    lemma_covered(width(data@, frame), 8 * (data@[frame + 11] as int / 16), columns);
    lemma_covered(height(data@, frame), 8 * (data@[frame + 11] as int % 16), rows);
    lemma_sums(data@, known, frame, columns, rows, i);
    lemma_count_sign(data@, scan + 2, 0xda);
    lemma_difference_order(known.category, category(data@, known, scan));
    lemma_difference_sign(known.category);
    lemma_units(width(data@, frame), data@[frame + 11] as int / 16, columns);
    lemma_units(height(data@, frame), data@[frame + 11] as int % 16, rows);
    let blocks = counted(data@, frame, i) * (vertical(data@, frame, i) * groups(data@, frame));
    lemma_blocks(columns, horizontal(data@, frame, i), rows, vertical(data@, frame, i));
    let d = difference(known.category);
    let most = difference(category(data@, known, scan));
    let n = readings(data@, scan);
    let quantizer = known.quantizers[table(data@, frame, i)];
    assert(blocks * d * quantizer <= n * (blocks * most) * quantizer) by (nonlinear_arith)
        requires
            blocks >= 0,
            0 <= d <= most,
            n >= 1,
            quantizer >= 0,
    ;
    assert(!total_fits(data@, known, scan, i));
}

/// There is at least one group of blocks along a side.
proof fn lemma_units(side: int, factor: int, units: int)
    requires
        side > 0,
        factor > 0,
        is_covered(side, 8 * factor, units),
    ensures
        units >= 1,
{
    assert(units >= 1) by (nonlinear_arith)
        requires
            0 < side <= units * (8 * factor),
            factor > 0,
    ;
}

/// The number of blocks is not negative.
proof fn lemma_blocks(columns: int, h: int, rows: int, v: int)
    requires
        columns >= 1,
        h >= 1,
        rows >= 1,
        v >= 1,
    ensures
        (columns * h) * (v * rows) >= 0,
{
    assert((columns * h) * (v * rows) >= 0) by (nonlinear_arith)
        requires
            columns >= 1,
            h >= 1,
            rows >= 1,
            v >= 1,
    ;
}

/// A count of markers is not negative.
proof fn lemma_count_sign(data: Seq<u8>, at: int, code: u8)
    requires
        0 <= at,
    ensures
        markers(data, at, code) >= 0,
    decreases data.len() - at,
{
    if at + 1 < data.len() {
        lemma_count_sign(data, at + 1, code);
    }
}

/// A larger category has larger differences.
proof fn lemma_difference_order(a: int, b: int)
    requires
        a <= b,
    ensures
        difference(a) <= difference(b),
    decreases b - a,
{
    lemma_difference_sign(b - 1);
    if a < b {
        lemma_difference_order(a, b - 1);
    }
}

/// Whether the first component has the sampling factors `first`, another has `other`, and no
/// component has more than two samples in a row or in a column.
pub open spec fn is_sampled(data: Seq<u8>, frame: int, first: u8, k: int, other: u8) -> bool {
    &&& 0 < k < data[frame + 9]
    &&& data[frame + 11] == first
    &&& data[frame + 11 + 3 * k] == other
    &&& forall|i: int|
        0 <= i < data[frame + 9] ==> data[#[trigger] (frame + 11 + 3 * i)] as int / 16 <= 2
            && data[frame + 11 + 3 * i] as int % 16 <= 2
}

/// The widest and the tallest of the first components have at most two samples, and have as
/// many as any of them.
proof fn lemma_sampled_twice(data: Seq<u8>, frame: int, n: int, k: int)
    requires
        frame_wf(data, frame),
        0 <= k < n <= data[frame + 9],
        forall|i: int|
            0 <= i < data[frame + 9] ==> data[#[trigger] (frame + 11 + 3 * i)] as int / 16 <= 2
                && data[frame + 11 + 3 * i] as int % 16 <= 2,
    ensures
        data[frame + 11 + 3 * k] as int / 16 <= widest(data, frame, n) <= 2,
        data[frame + 11 + 3 * k] as int % 16 <= tallest(data, frame, n) <= 2,
    decreases n,
{
    assert(data[frame + 11 + 3 * (n - 1)] as int / 16 <= 2);
    assert(component_wf(data, frame, n - 1));
    if n == 1 {
        reveal_with_fuel(widest, 2);
        reveal_with_fuel(tallest, 2);
    } else if k == n - 1 {
        lemma_sampled_twice(data, frame, n - 1, 0);
    } else {
        lemma_sampled_twice(data, frame, n - 1, k);
    }
}

/// A narrow picture is refused where its first component is to be spread over twice as many
/// columns and rows, unless one scan is for all components of a picture that is not
/// progressive: the room for that goes by the first component.
pub proof fn law_no_room_to_spread(
    data: &[u8],
    known: Header,
    frame: int,
    scan: int,
    k: int,
    can: bool,
)
    requires
        header(data@) == Some((known, scan)),
        known.frame == Some(frame),
        data@[frame + 1] == 0xc2 || (scan + 4 < data@.len() && data@[scan + 4] != data@[frame + 9]),
        is_sampled(data@, frame, 0x11, k, 0x22),
        data@[frame + 7] * 256 + data@[frame + 8] <= 8,
        call_ensures(can_read, (data,), can),
    ensures
        !can,
{
    lemma_header(data@);
    let count = components(data@, frame);
    lemma_sampled_twice(data@, frame, count, k);
    lemma_sampled_twice(data@, frame, 1, 0);
    reveal_with_fuel(widest, 2);
    assert(component_wf(data@, frame, 0));
    assert(widest(data@, frame, 1) == 1);
    lemma_one_group(width(data@, frame), 1);
    lemma_one_group(width(data@, frame), 2);
    assert(is_spread(data@, frame, 0));
    assert(counted(data@, frame, 0) == 1);
    assert(across(data@, frame, 0) == 1);
    assert(!all_spread_fit(data@, frame));
}

/// A picture that is not progressive, whose first scan is not for all components, is refused
/// where the blocks that are counted in one row of the first component are more than all its
/// blocks: another component has twice as many samples in a row.
pub proof fn law_no_room_for_blocks(
    data: &[u8],
    known: Header,
    frame: int,
    scan: int,
    k: int,
    taken: int,
    columns: int,
    rows: int,
    can: bool,
)
    requires
        header(data@) == Some((known, scan)),
        known.frame == Some(frame),
        data@[frame + 1] == 0xc0 || data@[frame + 1] == 0xc1,
        scan + 4 < data@.len(),
        data@[scan + 4] != data@[frame + 9],
        is_sampled(data@, frame, 0x11, k, 0x21),
        equally_tall(data@, frame),
        is_covered(data@[frame + 7] * 256 + data@[frame + 8], 8, taken),
        is_covered(data@[frame + 7] * 256 + data@[frame + 8], 16, columns),
        is_covered(data@[frame + 5] * 256 + data@[frame + 6], 8, rows),
        taken > columns * rows,
        call_ensures(can_read, (data,), can),
    ensures
        !can,
{
    lemma_header(data@);
    let count = components(data@, frame);
    lemma_sampled_twice(data@, frame, count, k);
    lemma_sampled_twice(data@, frame, 1, 0);
    reveal_with_fuel(widest, 2);
    lemma_equally_tall(data@, frame, count);
    assert(component_wf(data@, frame, 0));
    assert(widest(data@, frame, 1) == 1);
    lemma_covered(width(data@, frame), 8, taken);
    lemma_covered(width(data@, frame), 16, columns);
    lemma_covered(height(data@, frame), 8, rows);
    lemma_units(width(data@, frame), 2, columns);
    lemma_units(height(data@, frame), 1, rows);
    assert(horizontal(data@, frame, 0) == 1);
    assert(8 * widest(data@, frame, 1) == 8);
    assert(taken * 1 == taken && columns * 1 == columns) by (nonlinear_arith);
    assert(counted(data@, frame, 0) == taken);
    assert(across(data@, frame, 0) == columns);
    assert(columns * rows >= 1) by (nonlinear_arith)
        requires
            columns >= 1,
            rows >= 1,
    ;
    assert(!row_fits(taken, columns, 1, rows, 0)) by {
        assert(0 * taken == 0 && (0 * 1 + 1) * taken == taken && columns * 1 * rows == columns
            * rows) by (nonlinear_arith);
    }
    assert(!component_fits(data@, frame, 0));
}

/// A progressive picture of four components is refused where one is stretched over twice as
/// many rows and the colours are said to be those of three: before the first scan, or by a
/// segment that is the first after its samples.
pub proof fn law_four_said_to_be_three(
    data: &[u8],
    known: Header,
    frame: int,
    scan: int,
    k: int,
    said: int,
    can: bool,
)
    requires
        header(data@) == Some((known, scan)),
        known.frame == Some(frame),
        data@[frame + 1] == 0xc2,
        data@[frame + 9] == 4,
        is_sampled(data@, frame, 0x22, k, 0x11),
        known.colours == Colours::Ycbcr || says_ycbcr_after_scan(data@, scan, said),
        call_ensures(can_read, (data,), can),
    ensures
        !can,
{
    lemma_header(data@);
    lemma_sampled_twice(data@, frame, 4, 0);
    lemma_sampled_twice(data@, frame, 1, 0);
    assert(component_wf(data@, frame, 0));
    assert(component_wf(data@, frame, k));
    assert(is_stretched(data@, frame, k));
    assert(is_any_stretched(data@, frame));
    assert(counted(data@, frame, 0) == across(data@, frame, 0));
    if known.colours != Colours::Ycbcr {
        let start = scan + 2 + data@[scan + 2] * 256 + data@[scan + 3];
        lemma_comes_to_said(data@, start, said, known);
    }
    assert(comes_to_ycbcr(data@, scan, known));
}

/// Whether there are only coded samples and restarts from the end of the scan's head to
/// `said`, and a segment of Adobe's there says that the colours are those of three
/// components.
pub open spec fn says_ycbcr_after_scan(data: Seq<u8>, scan: int, said: int) -> bool {
    let start = scan + 2 + data[scan + 2] * 256 + data[scan + 3];
    &&& scan + 4 <= data.len()
    &&& data[scan + 2] * 256 + data[scan + 3] >= 2
    &&& start <= said
    &&& forall|p: int|
        start <= p < said && #[trigger] data[p] == 0xff ==> data[p + 1] == 0 || data[p + 1] == 0xff
            || 0xd0 <= data[p + 1] <= 0xd7
    &&& said + 4 <= data.len()
    &&& data[said] == 0xff
    &&& data[said + 1] == 0xee
    &&& data[said + 2] * 256 + data[said + 3] >= 14
    &&& said + 2 + data[said + 2] * 256 + data[said + 3] <= data.len()
    &&& data[said + 4] == 0x41
    &&& data[said + 5] == 0x64
    &&& data[said + 6] == 0x6f
    &&& data[said + 7] == 0x62
    &&& data[said + 8] == 0x65
    &&& data[said + 15] == 1
}

/// The segment is come to.
proof fn lemma_comes_to_said(data: Seq<u8>, at: int, said: int, known: Header)
    requires
        0 <= at <= said,
        known.colours != Colours::Ycbcr,
        forall|p: int|
            at <= p < said && #[trigger] data[p] == 0xff ==> data[p + 1] == 0 || data[p + 1] == 0xff
                || 0xd0 <= data[p + 1] <= 0xd7,
        said + 4 <= data.len(),
        data[said] == 0xff,
        data[said + 1] == 0xee,
        data[said + 2] * 256 + data[said + 3] >= 14,
        said + 2 + data[said + 2] * 256 + data[said + 3] <= data.len(),
        data[said + 4] == 0x41,
        data[said + 5] == 0x64,
        data[said + 6] == 0x6f,
        data[said + 7] == 0x62,
        data[said + 8] == 0x65,
        data[said + 15] == 1,
    ensures
        comes_to_ycbcr(data, at, known),
    decreases said - at,
{
    if at < said {
        if !marker_at(data, at) {
            lemma_comes_to_said(data, at + 1, said, known);
        } else {
            assert(data[at] == 0xff);
            assert(at + 1 != said);
            lemma_comes_to_said(data, at + 2, said, known);
        }
    } else {
        reveal_with_fuel(comes_to_ycbcr, 2);
    }
}

} // verus!
