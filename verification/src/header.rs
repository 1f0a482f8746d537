//! What a JPEG file says before its first scan, as far as its decoder rests on it.
//!
//! A file is a row of segments. Each begins with a marker, a byte of ones and a code.
//! Most go on with a length of two bytes, which counts itself, and what that covers.

use vstd::prelude::*;

verus! {

/// The first byte of a marker.
pub const MARKER: u8 = 0xff;

/// The code at the start of the file.
pub const START: u8 = 0xd8;

/// The code at the end of the file.
pub const END: u8 = 0xd9;

/// The code of a scan.
pub const SCAN: u8 = 0xda;

/// The code of a baseline frame.
pub const BASELINE: u8 = 0xc0;

/// The code of an extended sequential frame.
pub const SEQUENTIAL: u8 = 0xc1;

/// The code of a progressive frame.
pub const PROGRESSIVE: u8 = 0xc2;

/// The code of the segment that begins a JFIF file.
pub const JFIF: u8 = 0xe0;

/// The code of a segment of tables of quantizers.
pub const QUANTIZERS: u8 = 0xdb;

/// The code of a segment of tables of codes.
pub const CODES: u8 = 0xc4;

/// The code of the segment in which Adobe's programs say how colours are coded.
pub const ADOBE: u8 = 0xee;

/// The largest category that there is.
pub const LARGEST_CATEGORY: u8 = 15;

/// The largest category in the tables of codes that the decoder has itself, for frames
/// of films.
pub const FILM_CATEGORY: u8 = 11;

/// How colours are coded.
#[derive(Debug, Clone, Copy, PartialEq, Eq, Structural)]
pub enum Colours {
    /// As a brightness and two differences of colour.
    Ycbcr,
    /// As a brightness.
    Luma,
    /// As four inks.
    Cmyk,
    /// As a brightness, two differences of colour and black ink.
    Ycck,
}

/// What the segments before a place say.
pub struct Header {
    /// Where the frame is: the place of its marker.
    pub frame: Option<int>,
    pub colours: Colours,
    /// The first quantizer of each of the four tables. Zero where there is no table.
    pub quantizers: Seq<u16>,
    /// The largest category that a code for differences of brightness or colour from
    /// one block to the next can stand for.
    pub category: int,
}

/// Whether a marker begins at `at`.
pub open spec fn marker_at(data: Seq<u8>, at: int) -> bool {
    &&& 0 <= at
    &&& at + 1 < data.len()
    &&& data[at] == MARKER
    &&& data[at + 1] != MARKER
    &&& data[at + 1] != 0
}

/// The number in the two bytes at `at`, the high byte first.
pub open spec fn number_at(data: Seq<u8>, at: int) -> int {
    data[at] * 256 + data[at + 1]
}

/// The end of the segment whose marker is at `at`, where it is in the file. The
/// decoder takes a JFIF segment of length 6 for one byte longer than it says.
pub open spec fn segment_end(data: Seq<u8>, at: int) -> Option<int> {
    let length = number_at(data, at + 2);
    let end = at + 2 + length + if data[at + 1] == JFIF && length == 6 {
        1int
    } else {
        0int
    };
    if at + 4 <= data.len() && length >= 2 && end <= data.len() {
        Some(end)
    } else {
        None
    }
}

/// Whether what begins at `at` is a segment of Adobe's.
pub open spec fn adobe_at(data: Seq<u8>, at: int) -> bool {
    &&& 0 <= at
    &&& at + 9 <= data.len()
    &&& data[at] == MARKER
    &&& data[at + 1] == ADOBE
    &&& data[at + 4] == 0x41
    &&& data[at + 5] == 0x64
    &&& data[at + 6] == 0x6f
    &&& data[at + 7] == 0x62
    &&& data[at + 8] == 0x65
}

/// Whether the segment whose marker is at `at` says that the file is a frame of a film
/// of the kind that goes without tables of codes.
pub open spec fn film_at(data: Seq<u8>, at: int) -> bool {
    &&& data[at + 1] == JFIF
    &&& number_at(data, at + 2) > 5
    &&& at + 9 <= data.len()
    &&& data[at + 4] == 0x41
    &&& data[at + 5] == 0x56
    &&& data[at + 6] == 0x49
    &&& data[at + 7] == 0x31
    &&& data[at + 8] == 0
}

/// The larger of two numbers.
pub open spec fn larger(a: int, b: int) -> int {
    if a < b {
        b
    } else {
        a
    }
}

/// The first quantizers after the tables from `at` to `end`, if `tables` are those
/// before. `None` where the tables are out of shape.
pub open spec fn quantizers_from(data: Seq<u8>, at: int, end: int, tables: Seq<u16>) -> Option<
    Seq<u16>,
>
    decreases end - at,
{
    if at >= end {
        Some(tables)
    } else {
        let wide = data[at] as int / 16;
        let table = data[at] as int % 16;
        let size = 65 + 64 * wide;
        if wide > 1 || table > 3 || end - at < size {
            None
        } else {
            let first = if wide == 0 {
                data[at + 1] as u16
            } else {
                number_at(data, at + 1) as u16
            };
            quantizers_from(data, at + size, end, tables.update(table, first))
        }
    }
}

/// The sum of the `count` bytes at `at`.
pub open spec fn sum_at(data: Seq<u8>, at: int, count: int) -> int
    decreases count,
{
    if count <= 0 {
        0
    } else {
        sum_at(data, at, count - 1) + data[at + count - 1]
    }
}

/// The largest of the `count` bytes at `at`. Zero where `count` is.
pub open spec fn largest_at(data: Seq<u8>, at: int, count: int) -> int
    decreases count,
{
    if count <= 0 {
        0
    } else {
        larger(largest_at(data, at, count - 1), data[at + count - 1] as int)
    }
}

/// The largest category after the tables of codes from `at` to `end`, if `category` is
/// the largest before. `None` where the tables are out of shape. A table begins with
/// its kind, which is zero where its codes are for differences, and the numbers of its
/// codes of each length. What the codes stand for comes then.
pub open spec fn category_from(data: Seq<u8>, at: int, end: int, category: int) -> Option<int>
    decreases end - at,
{
    if end - at < 17 {
        if at == end {
            Some(category)
        } else {
            None
        }
    } else {
        let kind = data[at] as int / 16;
        let count = sum_at(data, at + 1, 16);
        let largest = largest_at(data, at + 17, count);
        if kind > 1 || data[at] as int % 16 > 3 || count < 0 || count > 256 || end - at < 17
            + count {
            None
        } else if kind == 1 {
            category_from(data, at + 17 + count, end, category)
        } else if largest > LARGEST_CATEGORY {
            None
        } else {
            category_from(data, at + 17 + count, end, larger(category, largest))
        }
    }
}

/// The number of components of the frame whose marker is at `frame`.
pub open spec fn components(data: Seq<u8>, frame: int) -> int {
    data[frame + 9] as int
}

/// The number of columns of a frame.
pub open spec fn width(data: Seq<u8>, frame: int) -> int {
    number_at(data, frame + 7)
}

/// The number of rows of a frame.
pub open spec fn height(data: Seq<u8>, frame: int) -> int {
    number_at(data, frame + 5)
}

/// How many samples the component `i` of a frame has in a row, beside the others.
pub open spec fn horizontal(data: Seq<u8>, frame: int, i: int) -> int {
    data[frame + 11 + 3 * i] as int / 16
}

/// How many samples the component `i` of a frame has in a column, beside the others.
pub open spec fn vertical(data: Seq<u8>, frame: int, i: int) -> int {
    data[frame + 11 + 3 * i] as int % 16
}

/// The table of quantizers of the component `i` of a frame.
pub open spec fn table(data: Seq<u8>, frame: int, i: int) -> int {
    data[frame + 12 + 3 * i] as int
}

/// Whether the decoder takes the component `i` of a frame.
pub open spec fn component_wf(data: Seq<u8>, frame: int, i: int) -> bool {
    &&& horizontal(data, frame, i) == 1 || horizontal(data, frame, i) == 2 || horizontal(
        data,
        frame,
        i,
    ) == 4
    &&& 1 <= vertical(data, frame, i) <= 4
    &&& table(data, frame, i) < 4
}

/// Whether the decoder takes the frame whose marker is at `frame`.
pub open spec fn frame_wf(data: Seq<u8>, frame: int) -> bool {
    let length = number_at(data, frame + 2);
    &&& 0 <= frame
    &&& frame + 2 + length <= data.len()
    &&& length >= 8
    &&& data[frame + 4] == 8
    &&& height(data, frame) > 0
    &&& width(data, frame) > 0
    &&& 1 <= components(data, frame) <= 4
    &&& length == 8 + 3 * components(data, frame)
    &&& forall|i: int|
        0 <= i < components(data, frame) ==> #[trigger] component_wf(data, frame, i)
}

/// Whether `code` is that of a frame that the decoder can read.
pub open spec fn is_frame(code: u8) -> bool {
    code == BASELINE || code == SEQUENTIAL || code == PROGRESSIVE
}

/// What is known after the segment whose marker is at `at`, if `header` is known
/// before it. `None` where the decoder reads no further: at the end of the picture, at
/// a second frame, and at a segment that is out of shape.
pub open spec fn after_segment(data: Seq<u8>, at: int, header: Header) -> Option<Header> {
    let length = number_at(data, at + 2);
    let end = at + 2 + length;
    if data[at + 1] == END {
        None
    } else if is_frame(data[at + 1]) {
        if header.frame is None && frame_wf(data, at) {
            let colours = if components(data, at) == 1 {
                Colours::Luma
            } else if components(data, at) == 4 && header.colours == Colours::Ycbcr {
                Colours::Cmyk
            } else {
                header.colours
            };
            Some(Header { frame: Some(at), colours, ..header })
        } else {
            None
        }
    } else if data[at + 1] == QUANTIZERS {
        match quantizers_from(data, at + 4, end, header.quantizers) {
            Some(quantizers) => Some(Header { quantizers, ..header }),
            None => None,
        }
    } else if data[at + 1] == CODES {
        match category_from(data, at + 4, end, header.category) {
            Some(category) => Some(Header { category, ..header }),
            None => None,
        }
    } else if film_at(data, at) {
        Some(Header { category: larger(header.category, FILM_CATEGORY as int), ..header })
    } else if adobe_at(data, at) {
        if length < 14 {
            None
        } else if data[at + 15] == 0 {
            Some(Header { colours: Colours::Cmyk, ..header })
        } else if data[at + 15] == 1 {
            Some(Header { colours: Colours::Ycbcr, ..header })
        } else if data[at + 15] == 2 {
            Some(Header { colours: Colours::Ycck, ..header })
        } else {
            None
        }
    } else {
        Some(header)
    }
}

/// What is known at the first scan, and where that is, if `header` is known at `at`.
/// `None` where the decoder comes to no scan.
pub open spec fn header_from(data: Seq<u8>, at: int, header: Header) -> Option<(Header, int)>
    decreases data.len() - at,
{
    if at + 1 >= data.len() {
        None
    } else if !marker_at(data, at) {
        header_from(data, at + 1, header)
    } else if data[at + 1] == SCAN {
        if header.frame is Some {
            Some((header, at))
        } else {
            None
        }
    } else {
        match (segment_end(data, at), after_segment(data, at, header)) {
            (Some(end), Some(after)) => header_from(data, end, after),
            _ => None,
        }
    }
}

/// What the file says before its first scan, and where that is. `None` where the
/// decoder comes to no scan.
pub open spec fn header(data: Seq<u8>) -> Option<(Header, int)> {
    if data.len() >= 2 && data[0] == MARKER && data[1] == START {
        header_from(
            data,
            2,
            Header {
                frame: None,
                colours: Colours::Ycbcr,
                quantizers: seq![0u16, 0u16, 0u16, 0u16],
                category: 0,
            },
        )
    } else {
        None
    }
}

/// What is known before a place, and that place.
pub struct Found {
    pub frame: Option<usize>,
    pub colours: Colours,
    pub quantizers: Vec<u16>,
    pub category: u8,
    pub at: usize,
}

impl Found {
    /// What is known, as a header.
    pub open spec fn header(&self) -> Header {
        Header {
            frame: match self.frame {
                Some(frame) => Some(frame as int),
                None => None,
            },
            colours: self.colours,
            quantizers: self.quantizers@,
            category: self.category as int,
        }
    }

    /// The decoder takes the frame. There are four tables, and the category is one
    /// that there is.
    pub open spec fn wf(&self, data: Seq<u8>) -> bool {
        &&& self.frame matches Some(frame) ==> frame_wf(data, frame as int)
        &&& self.quantizers@.len() == 4
        &&& self.category <= LARGEST_CATEGORY
        &&& self.at <= data.len()
    }
}

/// The number in the two bytes at `at`.
pub fn number(data: &[u8], at: usize) -> (number: usize)
    requires
        at + 2 <= data@.len(),
    ensures
        number == number_at(data@, at as int),
        number <= u16::MAX,
{
    data[at] as usize * 256 + data[at + 1] as usize
}

/// Whether what begins at `at` is a segment of Adobe's.
fn is_adobe(data: &[u8], at: usize) -> (adobe: bool)
    requires
        at < data@.len(),
    ensures
        adobe == adobe_at(data@, at as int),
{
    data.len() - at >= 9 && data[at] == MARKER && data[at + 1] == ADOBE && data[at + 4] == 0x41
        && data[at + 5] == 0x64 && data[at + 6] == 0x6f && data[at + 7] == 0x62 && data[at + 8]
        == 0x65
}

/// Whether the segment whose marker is at `at` says that the file is a frame of a film.
fn is_film(data: &[u8], at: usize) -> (film: bool)
    requires
        at + 4 <= data@.len(),
    ensures
        film == film_at(data@, at as int),
{
    data.len() - at >= 9 && data[at + 1] == JFIF && number(data, at + 2) > 5 && data[at + 4]
        == 0x41 && data[at + 5] == 0x56 && data[at + 6] == 0x49 && data[at + 7] == 0x31 && data[at
        + 8] == 0
}

/// The end of the segment whose marker is at `at`, where it is in the file.
pub fn end_of_segment(data: &[u8], at: usize) -> (end: Option<usize>)
    requires
        at + 2 <= data@.len(),
    ensures
        segment_end(data@, at as int) == match end {
            Some(end) => Some(end as int),
            None => None,
        },
        end matches Some(end) ==> at + 4 <= end <= data@.len(),
{
    if data.len() - at < 4 {
        return None;
    }
    let length: usize = number(data, at + 2);
    let taken: usize = if data[at + 1] == JFIF && length == 6 {
        length + 1
    } else {
        length
    };
    if length < 2 || data.len() - at - 2 < taken {
        return None;
    }
    Some(at + 2 + taken)
}

/// Reads the tables of quantizers from `start` to `end`. The result is whether they are
/// in shape.
fn read_quantizers(data: &[u8], start: usize, end: usize, tables: &mut Vec<u16>) -> (read: bool)
    requires
        start <= end <= data@.len(),
        old(tables)@.len() == 4,
    ensures
        final(tables)@.len() == 4,
        quantizers_from(data@, start as int, end as int, old(tables)@) == if read {
            Some(final(tables)@)
        } else {
            None
        },
{
    let mut at: usize = start;
    while at < end
        invariant
            start <= at <= end <= data@.len(),
            tables@.len() == 4,
            quantizers_from(data@, start as int, end as int, old(tables)@) == quantizers_from(
                data@,
                at as int,
                end as int,
                tables@,
            ),
        decreases end - at,
    {
        let wide: usize = (data[at] / 16) as usize;
        let table: usize = (data[at] % 16) as usize;
        let size: usize = 65 + 64 * wide;
        if wide > 1 || table > 3 || end - at < size {
            return false;
        }
        let first: u16 = if wide == 0 {
            data[at + 1] as u16
        } else {
            number(data, at + 1) as u16
        };
        tables.set(table, first);
        at = at + size;
    }
    true
}

/// The sum of the `count` bytes at `at`.
fn sum(data: &[u8], at: usize, count: usize) -> (sum: usize)
    requires
        at + count <= data@.len(),
        count <= 16,
    ensures
        sum == sum_at(data@, at as int, count as int),
        sum <= 255 * count,
{
    assert(data.len() <= usize::MAX);
    let mut sum: usize = 0;
    for i in 0..count
        invariant
            at + count <= data@.len() <= usize::MAX,
            count <= 16,
            sum == sum_at(data@, at as int, i as int),
            sum <= 255 * i,
    {
        sum = sum + data[at + i] as usize;
    }
    sum
}

/// The largest of the `count` bytes at `at`.
fn largest(data: &[u8], at: usize, count: usize) -> (largest: u8)
    requires
        at + count <= data@.len(),
    ensures
        largest == largest_at(data@, at as int, count as int),
{
    assert(data.len() <= usize::MAX);
    let mut largest: u8 = 0;
    for i in 0..count
        invariant
            at + count <= data@.len() <= usize::MAX,
            largest == largest_at(data@, at as int, i as int),
    {
        if largest < data[at + i] {
            largest = data[at + i];
        }
    }
    largest
}

/// The largest category after the tables of codes from `start` to `end`.
fn read_codes(data: &[u8], start: usize, end: usize, category: u8) -> (after: Option<u8>)
    requires
        start <= end <= data@.len(),
        category <= LARGEST_CATEGORY,
    ensures
        category_from(data@, start as int, end as int, category as int) == match after {
            Some(after) => Some(after as int),
            None => None,
        },
        after matches Some(after) ==> after <= LARGEST_CATEGORY,
{
    let mut at: usize = start;
    let mut after: u8 = category;
    while end - at >= 17
        invariant
            start <= at <= end <= data@.len(),
            after <= LARGEST_CATEGORY,
            category_from(data@, start as int, end as int, category as int) == category_from(
                data@,
                at as int,
                end as int,
                after as int,
            ),
        decreases end - at,
    {
        let kind: u8 = data[at] / 16;
        let count: usize = sum(data, at + 1, 16);
        if kind > 1 || data[at] % 16 > 3 || count > 256 || end - at < 17 + count {
            return None;
        }
        if kind == 0 {
            let found: u8 = largest(data, at + 17, count);
            if found > LARGEST_CATEGORY {
                return None;
            }
            if after < found {
                after = found;
            }
        }
        at = at + 17 + count;
    }
    if at == end {
        Some(after)
    } else {
        None
    }
}

/// Whether the decoder takes the frame whose marker is at `frame`, and which ends at
/// `end`.
fn takes_frame(data: &[u8], frame: usize, end: usize) -> (takes: bool)
    requires
        frame + 4 <= end <= data@.len(),
        end == frame + 2 + number_at(data@, frame as int + 2),
    ensures
        takes == frame_wf(data@, frame as int),
{
    let length: usize = end - frame - 2;
    if length < 8 || data[frame + 4] != 8 || number(data, frame + 5) == 0 || number(data, frame + 7)
        == 0 {
        return false;
    }
    let count: usize = data[frame + 9] as usize;
    if count < 1 || count > 4 || length != 8 + 3 * count {
        return false;
    }
    for i in 0..count
        invariant
            count == components(data@, frame as int),
            1 <= count <= 4,
            frame + 10 + 3 * count <= data@.len() <= usize::MAX,
            forall|before: int|
                0 <= before < i ==> #[trigger] component_wf(data@, frame as int, before),
    {
        let factors: u8 = data[frame + 11 + 3 * i];
        let across: u8 = factors / 16;
        let down: u8 = factors % 16;
        if (across != 1 && across != 2 && across != 4) || down < 1 || down > 4 || data[frame + 12 + 3
            * i] > 3 {
            assert(!component_wf(data@, frame as int, i as int));
            return false;
        }
    }
    true
}

/// What is known after the segment whose marker is at `found.at` and which ends at
/// `end`.
pub fn read_segment(data: &[u8], found: Found, end: usize) -> (next: Option<Found>)
    requires
        marker_at(data@, found.at as int),
        segment_end(data@, found.at as int) == Some(end as int),
        found.wf(data@),
    ensures
        after_segment(data@, found.at as int, found.header()) == match next {
            Some(next) => Some(next.header()),
            None => None,
        },
        next matches Some(next) ==> next.at == end && next.wf(data@),
{
    let at: usize = found.at;
    let code: u8 = data[at + 1];
    let length: usize = number(data, at + 2);
    let mut next: Found = found;
    next.at = end;
    if code == END {
        return None;
    } else if code == BASELINE || code == SEQUENTIAL || code == PROGRESSIVE {
        if next.frame.is_some() || !takes_frame(data, at, end) {
            return None;
        }
        let count: u8 = data[at + 9];
        if count == 1 {
            next.colours = Colours::Luma;
        } else if count == 4 && next.colours == Colours::Ycbcr {
            next.colours = Colours::Cmyk;
        }
        next.frame = Some(at);
    } else if code == QUANTIZERS {
        if !read_quantizers(data, at + 4, end, &mut next.quantizers) {
            return None;
        }
    } else if code == CODES {
        match read_codes(data, at + 4, end, next.category) {
            Some(category) => {
                next.category = category;
            },
            None => return None,
        }
    } else if is_film(data, at) {
        if next.category < FILM_CATEGORY {
            next.category = FILM_CATEGORY;
        }
    } else if is_adobe(data, at) {
        if length < 14 {
            return None;
        }
        next.colours = match data[at + 15] {
            0 => Colours::Cmyk,
            1 => Colours::Ycbcr,
            2 => Colours::Ycck,
            _ => return None,
        };
    }
    Some(next)
}

/// What the file says before its first scan.
pub fn read_header(data: &[u8]) -> (found: Option<Found>)
    ensures
        header(data@) == match found {
            Some(found) => Some((found.header(), found.at as int)),
            None => None,
        },
        found matches Some(found) ==> {
            &&& found.frame is Some
            &&& marker_at(data@, found.at as int)
            &&& data@[found.at + 1] == SCAN
            &&& found.wf(data@)
        },
{
    if data.len() < 2 || data[0] != MARKER || data[1] != START {
        return None;
    }
    let mut found = Found {
        frame: None,
        colours: Colours::Ycbcr,
        quantizers: vec![0u16, 0u16, 0u16, 0u16],
        category: 0,
        at: 2,
    };
    assert(found.quantizers@ =~= seq![0u16, 0u16, 0u16, 0u16]);
    while data.len() - found.at >= 2
        invariant
            found.wf(data@),
            header(data@) == header_from(data@, found.at as int, found.header()),
        decreases data@.len() - found.at,
    {
        let at: usize = found.at;
        let code: u8 = data[at + 1];
        if data[at] != MARKER || code == MARKER || code == 0 {
            found.at = at + 1;
        } else if code == SCAN {
            return if found.frame.is_some() {
                Some(found)
            } else {
                None
            };
        } else {
            match end_of_segment(data, at) {
                Some(end) => match read_segment(data, found, end) {
                    Some(next) => {
                        found = next;
                    },
                    None => return None,
                },
                None => return None,
            }
        }
    }
    None
}

} // verus!
