//! What the segments of a file say, byte by byte.

use vstd::prelude::*;

use crate::header::{
    category_from, component_wf, components, frame_wf, header, header_from, largest_at,
    quantizers_from, read_header, sum_at, Colours, Found, Header,
};

verus! {

/// The number in the two bytes at `at`, the high byte first.
pub open spec fn number_in(data: Seq<u8>, at: int) -> int {
    256 * data[at] + data[at + 1]
}

/// Whether a marker with this code begins at `at`, and its segment of at least two bytes lies
/// in the file.
pub open spec fn is_segment(data: Seq<u8>, at: int, code: u8) -> bool {
    &&& 0 <= at
    &&& at + 4 <= data.len()
    &&& data[at] == 0xff
    &&& data[at + 1] == code
    &&& 2 <= number_in(data, at + 2)
    &&& at + 2 + number_in(data, at + 2) <= data.len()
}

/// A file begins with its own marker. Nothing is known then.
pub proof fn law_file_begins(data: Seq<u8>)
    ensures
        header(data) == if data.len() >= 2 && data[0] == 0xff && data[1] == 0xd8 {
            header_from(
                data,
                2,
                Header {
                    frame: None,
                    colours: Colours::Ycbcr,
                    quantizers: seq![0u16, 0u16, 0u16, 0u16],
                    category: 0,
                },
            )
        } else {
            None
        },
{
}

/// The reading of a header finds what the header says.
pub proof fn law_read_header(data: &[u8], found: Option<Found>)
    requires
        call_ensures(read_header, (data,), found),
    ensures
        found is Some <==> header(data@) is Some,
        found matches Some(found) ==> header(data@) matches Some((known, scan)) && {
            &&& found.at == scan
            &&& found.colours == known.colours
            &&& found.quantizers@ == known.quantizers
            &&& found.category == known.category
            &&& found.frame matches Some(frame) && known.frame == Some(frame as int)
        },
{
}

/// Bytes that are no marker are passed over: a marker is a byte of ones and a code, and the
/// code is neither zero nor all ones.
pub proof fn law_other_bytes(data: Seq<u8>, at: int, known: Header)
    requires
        0 <= at,
        at + 1 < data.len(),
        data[at] != 0xff || data[at + 1] == 0 || data[at + 1] == 0xff,
    ensures
        header_from(data, at, known) == header_from(data, at + 1, known),
{
}

/// At the end of the file, and at the end of the picture, there is no scan.
pub proof fn law_no_scan(data: Seq<u8>, at: int, known: Header)
    requires
        0 <= at,
        at + 1 >= data.len() || (data[at] == 0xff && data[at + 1] == 0xd9),
    ensures
        header_from(data, at, known) is None,
{
}

/// The first scan ends the header, if there was a frame.
pub proof fn law_scan(data: Seq<u8>, at: int, known: Header)
    requires
        0 <= at,
        at + 1 < data.len(),
        data[at] == 0xff,
        data[at + 1] == 0xda,
    ensures
        header_from(data, at, known) == if known.frame is Some {
            Some((known, at))
        } else {
            None
        },
{
}

/// A segment of any other kind is passed over, by its length.
pub proof fn law_other_segment(data: Seq<u8>, at: int, code: u8, known: Header)
    requires
        is_segment(data, at, code),
        code != 0 && code != 0xff && code != 0xda && code != 0xd9,
        code != 0xc0 && code != 0xc1 && code != 0xc2 && code != 0xc4 && code != 0xdb,
        code == 0xe0 ==> number_in(data, at + 2) != 6 && !(data[at + 4] == 0x41 && data[at + 5]
            == 0x56),
        code == 0xee ==> !(data[at + 4] == 0x41 && data[at + 5] == 0x64),
    ensures
        header_from(data, at, known) == header_from(
            data,
            at + 2 + number_in(data, at + 2),
            known,
        ),
{
}

/// A segment that does not end in the file ends the reading.
pub proof fn law_broken_segment(data: Seq<u8>, at: int, known: Header)
    requires
        0 <= at,
        at + 1 < data.len(),
        data[at] == 0xff,
        data[at + 1] != 0 && data[at + 1] != 0xff && data[at + 1] != 0xda,
        at + 4 > data.len() || number_in(data, at + 2) < 2 || at + 2 + number_in(data, at + 2)
            > data.len(),
    ensures
        header_from(data, at, known) is None,
{
}

/// A frame in shape is taken, once: eight bits for a sample, sides that are not zero, and
/// one to four components with sampling factors and tables that there are. A single component
/// is a brightness, and four that nothing was said of are inks.
pub proof fn law_frame(data: Seq<u8>, at: int, code: u8, known: Header)
    requires
        is_segment(data, at, code),
        code == 0xc0 || code == 0xc1 || code == 0xc2,
        known.frame is None,
        number_in(data, at + 2) >= 8,
        data[at + 4] == 8,
        number_in(data, at + 5) > 0,
        number_in(data, at + 7) > 0,
        1 <= data[at + 9] <= 4,
        number_in(data, at + 2) == 8 + 3 * data[at + 9],
        forall|i: int|
            0 <= i < data[at + 9] ==> {
                let factors = data[#[trigger] (at + 11 + 3 * i)] as int;
                &&& factors / 16 == 1 || factors / 16 == 2 || factors / 16 == 4
                &&& 1 <= factors % 16 <= 4
                &&& data[at + 12 + 3 * i] < 4
            },
    ensures
        header_from(data, at, known) == header_from(
            data,
            at + 10 + 3 * data[at + 9],
            Header {
                frame: Some(at),
                colours: if data[at + 9] == 1 {
                    Colours::Luma
                } else if data[at + 9] == 4 && known.colours == Colours::Ycbcr {
                    Colours::Cmyk
                } else {
                    known.colours
                },
                ..known
            },
        ),
{
    assert forall|i: int| 0 <= i < components(data, at) implies #[trigger] component_wf(
        data,
        at,
        i,
    ) by {
        let place = at + 11 + 3 * i;
        assert(data[place] as int / 16 >= 1);
    }
    assert(frame_wf(data, at));
}

/// A second frame ends the reading.
pub proof fn law_second_frame(data: Seq<u8>, at: int, code: u8, known: Header)
    requires
        is_segment(data, at, code),
        code == 0xc0 || code == 0xc1 || code == 0xc2,
        known.frame is Some,
    ensures
        header_from(data, at, known) is None,
{
}

/// A table of quantizers of one byte each counts from then on, in place of an earlier one.
pub proof fn law_quantizers(data: Seq<u8>, at: int, known: Header)
    requires
        is_segment(data, at, 0xdb),
        number_in(data, at + 2) == 67,
        data[at + 4] < 4,
    ensures
        header_from(data, at, known) == header_from(
            data,
            at + 69,
            Header {
                quantizers: known.quantizers.update(data[at + 4] as int, data[at + 5] as u16),
                ..known
            },
        ),
{
    reveal_with_fuel(quantizers_from, 2);
}

/// So does one of quantizers of two bytes each.
pub proof fn law_wide_quantizers(data: Seq<u8>, at: int, known: Header)
    requires
        is_segment(data, at, 0xdb),
        number_in(data, at + 2) == 131,
        0x10 <= data[at + 4] < 0x14,
    ensures
        header_from(data, at, known) == header_from(
            data,
            at + 133,
            Header {
                quantizers: known.quantizers.update(
                    data[at + 4] - 0x10,
                    number_in(data, at + 5) as u16,
                ),
                ..known
            },
        ),
{
    reveal_with_fuel(quantizers_from, 2);
}

/// Two tables in one segment count as in two segments.
pub proof fn law_tables_together(data: Seq<u8>, at: int, end: int, tables: Seq<u16>)
    requires
        0 <= at,
        at + 65 <= end <= data.len(),
        data[at] < 4,
    ensures
        quantizers_from(data, at, end, tables) == quantizers_from(
            data,
            at + 65,
            end,
            tables.update(data[at] as int, data[at + 1] as u16),
        ),
{
}

/// The numbers of codes of a table add up.
pub open spec fn counts(data: Seq<u8>, at: int, n: int) -> int
    decreases n,
{
    if n <= 0 {
        0
    } else {
        data[at] + counts(data, at + 1, n - 1)
    }
}

/// Adding from the front comes to the same as adding from the back.
proof fn lemma_counts(data: Seq<u8>, at: int, n: int)
    requires
        n >= 0,
    ensures
        counts(data, at, n) == sum_at(data, at, n),
        sum_at(data, at, n) >= 0,
        n > 0 ==> sum_at(data, at, n) == data[at] + sum_at(data, at + 1, n - 1),
    decreases n,
{
    if n > 0 {
        lemma_counts(data, at + 1, n - 1);
        lemma_sum_front(data, at, n);
    }
}

/// The first byte of a sum.
proof fn lemma_sum_front(data: Seq<u8>, at: int, n: int)
    requires
        n > 0,
    ensures
        sum_at(data, at, n) == data[at] + sum_at(data, at + 1, n - 1),
    decreases n,
{
    reveal_with_fuel(sum_at, 2);
    if n > 1 {
        lemma_sum_front(data, at, n - 1);
        assert(at + n - 1 == (at + 1) + (n - 1) - 1);
    }
}

/// The largest of some bytes is one of them, and none is larger.
pub proof fn law_largest(data: Seq<u8>, at: int, n: int, i: int)
    requires
        0 <= i < n,
    ensures
        data[at + i] <= largest_at(data, at, n),
        exists|j: int| 0 <= j < n && data[#[trigger] (at + j)] == largest_at(data, at, n),
    decreases n,
{
    if n == 1 {
        reveal_with_fuel(largest_at, 2);
        assert(data[at + 0] == largest_at(data, at, 1));
    } else {
        let before = largest_at(data, at, n - 1);
        if i < n - 1 {
            law_largest(data, at, n - 1, i);
        }
        if data[at + n - 1] > before {
            assert(data[at + (n - 1)] == largest_at(data, at, n));
        } else {
            law_largest(data, at, n - 1, 0);
        }
    }
}

/// A table of codes for differences raises the category to the largest that it has. One of
/// other codes does not matter.
pub proof fn law_codes(data: Seq<u8>, at: int, known: Header, largest: int)
    requires
        is_segment(data, at, 0xc4),
        number_in(data, at + 2) == 19 + counts(data, at + 5, 16),
        data[at + 4] as int / 16 <= 1,
        data[at + 4] as int % 16 <= 3,
        1 <= counts(data, at + 5, 16) <= 256,
        forall|i: int|
            0 <= i < counts(data, at + 5, 16) ==> data[#[trigger] (at + 21 + i)] <= largest,
        exists|i: int|
            0 <= i < counts(data, at + 5, 16) && data[#[trigger] (at + 21 + i)] == largest,
        data[at + 4] as int / 16 == 0 ==> largest <= 15,
        known.category >= 0,
    ensures
        header_from(data, at, known) == header_from(
            data,
            at + 2 + number_in(data, at + 2),
            Header {
                category: if data[at + 4] as int / 16 == 0 && known.category < largest {
                    largest
                } else {
                    known.category
                },
                ..known
            },
        ),
{
    let count = counts(data, at + 5, 16);
    lemma_counts(data, at + 5, 16);
    let found = largest_at(data, at + 21, count);
    let place = choose|i: int| 0 <= i < count && data[#[trigger] (at + 21 + i)] == largest;
    law_largest(data, at + 21, count, place);
    let other = choose|j: int| 0 <= j < count && data[#[trigger] (at + 21 + j)] == found;
    assert(data[at + 21 + other] <= largest);
    assert(found == largest);
    reveal_with_fuel(category_from, 2);
}

/// A segment of Adobe's says how colours are coded.
pub proof fn law_adobe(data: Seq<u8>, at: int, known: Header)
    requires
        is_segment(data, at, 0xee),
        number_in(data, at + 2) >= 14,
        data[at + 4] == 0x41,
        data[at + 5] == 0x64,
        data[at + 6] == 0x6f,
        data[at + 7] == 0x62,
        data[at + 8] == 0x65,
        data[at + 15] <= 2,
    ensures
        header_from(data, at, known) == header_from(
            data,
            at + 2 + number_in(data, at + 2),
            Header {
                colours: if data[at + 15] == 0 {
                    Colours::Cmyk
                } else if data[at + 15] == 1 {
                    Colours::Ycbcr
                } else {
                    Colours::Ycck
                },
                ..known
            },
        ),
{
}

/// One that is too short, or says something else, ends the reading.
pub proof fn law_other_adobe(data: Seq<u8>, at: int, known: Header)
    requires
        is_segment(data, at, 0xee),
        at + 9 <= data.len(),
        data[at + 4] == 0x41,
        data[at + 5] == 0x64,
        data[at + 6] == 0x6f,
        data[at + 7] == 0x62,
        data[at + 8] == 0x65,
        number_in(data, at + 2) < 14 || data[at + 15] > 2,
    ensures
        header_from(data, at, known) is None,
{
}

/// A frame of a film brings tables of codes of its own, with categories up to eleven.
pub proof fn law_film(data: Seq<u8>, at: int, known: Header)
    requires
        is_segment(data, at, 0xe0),
        number_in(data, at + 2) > 6,
        data[at + 4] == 0x41,
        data[at + 5] == 0x56,
        data[at + 6] == 0x49,
        data[at + 7] == 0x31,
        data[at + 8] == 0,
    ensures
        header_from(data, at, known) == header_from(
            data,
            at + 2 + number_in(data, at + 2),
            Header {
                category: if known.category < 11 {
                    11
                } else {
                    known.category
                },
                ..known
            },
        ),
{
}

/// The decoder takes a segment of length six with the code of a JFIF segment for one byte
/// longer.
pub proof fn law_jfif_of_six(data: Seq<u8>, at: int, known: Header)
    requires
        is_segment(data, at, 0xe0),
        number_in(data, at + 2) == 6,
        at + 9 <= data.len(),
        data[at + 4] != 0x41,
    ensures
        header_from(data, at, known) == header_from(data, at + 9, known),
{
}

/// A table of quantizers with another number, or of another width, ends the reading, and so
/// does one that is cut off.
pub proof fn law_broken_quantizers(data: Seq<u8>, at: int, known: Header)
    requires
        is_segment(data, at, 0xdb),
        number_in(data, at + 2) > 2,
        data[at + 4] as int % 16 > 3 || data[at + 4] as int / 16 > 1 || number_in(data, at + 2) < 67
            || (data[at + 4] as int / 16 == 1 && number_in(data, at + 2) < 131),
    ensures
        header_from(data, at, known) is None,
{
    reveal_with_fuel(quantizers_from, 2);
}

/// A frame with another number of bits, without pixels, with too many components or of
/// another length ends the reading.
pub proof fn law_broken_frame(data: Seq<u8>, at: int, code: u8, known: Header)
    requires
        is_segment(data, at, code),
        code == 0xc0 || code == 0xc1 || code == 0xc2,
        number_in(data, at + 2) < 8 || data[at + 4] != 8 || number_in(data, at + 5) == 0
            || number_in(data, at + 7) == 0 || data[at + 9] == 0 || data[at + 9] > 4 || number_in(
            data,
            at + 2,
        ) != 8 + 3 * data[at + 9],
    ensures
        header_from(data, at, known) is None,
{
}

} // verus!
