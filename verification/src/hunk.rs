//! Hunk headers of a unified diff:
//! `@@ -<old_start>[,<old_count>] +<new_start>[,<new_count>] @@`.

use crate::intervals::LineInterval;
use crate::text::{
    all_digits, decimal_value, digits_end, has_at, is_digit, lemma_digits_end_bounds,
    lemma_digits_end_of_run, matches_at, number_at, scan_number,
};
use vstd::prelude::*;

verus! {

pub const AT_SIGN: u8 = 64;

pub const SPACE: u8 = 32;

pub const MINUS: u8 = 45;

pub const PLUS: u8 = 43;

pub const COMMA: u8 = 44;

/// `@@`, with which every hunk header starts.
pub open spec fn hunk_mark() -> Seq<u8> {
    seq![AT_SIGN, AT_SIGN]
}

/// `@@ -`, which leads to the range in the old file.
pub open spec fn old_side_open() -> Seq<u8> {
    seq![AT_SIGN, AT_SIGN, SPACE, MINUS]
}

/// ` +`, which leads to the range in the new file.
pub open spec fn new_side_open() -> Seq<u8> {
    seq![SPACE, PLUS]
}

/// ` @@`, which closes the two ranges.
pub open spec fn hunk_close() -> Seq<u8> {
    seq![SPACE, AT_SIGN, AT_SIGN]
}

/// Whether the range `<start>[,<count>]` at `i` writes its count: the start
/// has at least one digit, and a comma and at least one digit follow it.
pub open spec fn has_count(s: Seq<u8>, i: int) -> bool {
    let comma = digits_end(s, i);
    i < comma < s.len() && s[comma] == COMMA && digits_end(s, comma + 1) > comma + 1
}

/// The index just behind the range at `i`; `i` itself where no digit stands
/// there.
pub open spec fn range_end(s: Seq<u8>, i: int) -> int {
    if has_count(s, i) {
        digits_end(s, digits_end(s, i) + 1)
    } else {
        digits_end(s, i)
    }
}

/// The first line of the range at `i`.
pub open spec fn range_start(s: Seq<u8>, i: int) -> nat {
    number_at(s, i)
}

/// The number of lines of the range at `i`: 1 where it writes none.
pub open spec fn range_count(s: Seq<u8>, i: int) -> nat {
    if has_count(s, i) {
        number_at(s, digits_end(s, i) + 1)
    } else {
        1
    }
}

/// Where the range of the new file starts in a header that is well formed up
/// to there: behind `@@ -`, the old range and ` +`.
pub open spec fn new_side_at(line: Seq<u8>) -> Option<int> {
    if has_at(line, 0, old_side_open()) && range_end(line, 4) > 4 && has_at(
        line,
        range_end(line, 4),
        new_side_open(),
    ) {
        Some(range_end(line, 4) + 2)
    } else {
        None
    }
}

/// Whether the line has the shape of a hunk header. The numbers of the old
/// file may have any length; text may follow the closing ` @@`.
pub open spec fn well_formed_header(line: Seq<u8>) -> bool {
    match new_side_at(line) {
        Some(at) => range_end(line, at) > at && has_at(line, range_end(line, at), hunk_close()),
        None => false,
    }
}

/// What a hunk header says of the new file.
#[derive(Clone, Copy, Debug, PartialEq, Eq, Structural)]
pub enum Hunk {
    /// Not a hunk header, or one whose lines do not fit in 32 bits.
    Malformed,
    /// A pure deletion: no line of the new file is touched.
    NoLines,
    /// The lines of the new file that the hunk adds or changes.
    Lines(LineInterval),
}

/// The hunk that starts at line `start` of the new file and holds `count`
/// lines: the interval from `start` to `start + count - 1`, none for a count
/// of zero. Both numbers and the last line must fit in 32 bits.
pub open spec fn hunk_for(start: nat, count: nat) -> Hunk {
    if start > u32::MAX || count > u32::MAX {
        Hunk::Malformed
    } else if count == 0 {
        Hunk::NoLines
    } else if start + count - 1 <= u32::MAX {
        Hunk::Lines(LineInterval { start: start as u32, end: (start + count - 1) as u32 })
    } else {
        Hunk::Malformed
    }
}

/// The meaning of one line taken as a hunk header.
pub open spec fn hunk_of(line: Seq<u8>) -> Hunk {
    if well_formed_header(line) {
        let at = new_side_at(line).unwrap();
        hunk_for(range_start(line, at), range_count(line, at))
    } else {
        Hunk::Malformed
    }
}

/// A range as read from a header: its end, and its two numbers where they
/// fit in 32 bits.
struct ScannedRange {
    end: usize,
    start: Option<u32>,
    count: Option<u32>,
}

fn scan_range(s: &[u8], i: usize) -> (r: ScannedRange)
    requires
        i <= s@.len(),
    ensures
        r.end == range_end(s@, i as int),
        i <= r.end <= s@.len(),
        r.start == (if range_start(s@, i as int) <= u32::MAX {
            Some(range_start(s@, i as int) as u32)
        } else {
            None
        }),
        r.count == (if range_count(s@, i as int) <= u32::MAX {
            Some(range_count(s@, i as int) as u32)
        } else {
            None
        }),
{
    let (comma, start) = scan_number(s, i);
    if i < comma && comma < s.len() && s[comma] == COMMA {
        let (end, count) = scan_number(s, comma + 1);
        if end > comma + 1 {
            return ScannedRange { end, start, count };
        }
    }
    ScannedRange { end: comma, start, count: Some(1) }
}

/// Reads one line as a hunk header.
pub fn parse_hunk_header(line: &[u8]) -> (r: Hunk)
    ensures
        r == hunk_of(line@),
{
    let old_open: [u8; 4] = [AT_SIGN, AT_SIGN, SPACE, MINUS];
    let new_open: [u8; 2] = [SPACE, PLUS];
    let close: [u8; 3] = [SPACE, AT_SIGN, AT_SIGN];
    proof {
        assert(old_open@ =~= old_side_open());
        assert(new_open@ =~= new_side_open());
        assert(close@ =~= hunk_close());
    }
    if !matches_at(line, 0, old_open.as_slice()) {
        return Hunk::Malformed;
    }
    let old_range = scan_range(line, 4);
    if old_range.end == 4 || !matches_at(line, old_range.end, new_open.as_slice()) {
        return Hunk::Malformed;
    }
    proof {
        assert(line@.len() == vstd::slice::spec_slice_len(line));
        assert(new_open@.len() == 2);
    }
    let at: usize = old_range.end + 2;

    let new_range = scan_range(line, at);
    if new_range.end == at || !matches_at(line, new_range.end, close.as_slice()) {
        return Hunk::Malformed;
    }
    let start: u32 = match new_range.start {
        Some(start) => start,
        None => { return Hunk::Malformed; },
    };
    let count: u32 = match new_range.count {
        Some(count) => count,
        None => { return Hunk::Malformed; },
    };
    if count == 0 {
        Hunk::NoLines
    } else if count - 1 <= u32::MAX - start {
        Hunk::Lines(LineInterval { start, end: start + (count - 1) })
    } else {
        Hunk::Malformed
    }
}

/// An interval that a hunk header yields holds at least one line.
pub proof fn lemma_hunk_interval_wf(line: Seq<u8>)
    ensures
        hunk_of(line) matches Hunk::Lines(interval) ==> interval.wf(),
{
}

/// A number as a header writes it: at least one digit, and digits only.
pub open spec fn is_number(digits: Seq<u8>) -> bool {
    digits.len() > 0 && all_digits(digits)
}

/// A range as a header writes it: the start, then a comma and the count
/// where there is one.
pub open spec fn written_range(start: Seq<u8>, count: Option<Seq<u8>>) -> Seq<u8> {
    match count {
        Some(count) => start + seq![COMMA] + count,
        None => start,
    }
}

/// A hunk header as the diff writes it, from the two ranges and the text
/// that follows the closing mark.
pub open spec fn written_header(old_range: Seq<u8>, new_range: Seq<u8>, rest: Seq<u8>) -> Seq<u8> {
    old_side_open() + old_range + new_side_open() + new_range + hunk_close() + rest
}

/// The count that a range writes, 1 where it writes none.
pub open spec fn written_count(count: Option<Seq<u8>>) -> nat {
    match count {
        Some(count) => decimal_value(count),
        None => 1,
    }
}

/// A written range that a space follows is read back as it was written.
pub proof fn lemma_written_range_is_read(
    line: Seq<u8>,
    i: int,
    start: Seq<u8>,
    count: Option<Seq<u8>>,
)
    requires
        is_number(start),
        count matches Some(c) ==> is_number(c),
        has_at(line, i, written_range(start, count)),
        i + written_range(start, count).len() < line.len(),
        line[i + written_range(start, count).len()] == SPACE,
    ensures
        range_end(line, i) == i + written_range(start, count).len(),
        range_start(line, i) == decimal_value(start),
        range_count(line, i) == written_count(count),
{
    let range = written_range(start, count);
    let comma: int = i + start.len();
    assert forall|k: int| 0 <= k < range.len() implies line[i + k] == range[k] by {
        assert(line.subrange(i, i + range.len())[k] == range[k]);
    }
    assert forall|k: int| i <= k < comma implies is_digit(#[trigger] line[k]) by {
        assert(line[k] == range[k - i]);
        assert(range[k - i] == start[k - i]);
    }
    match count {
        Some(c) => {
            assert(range[start.len() as int] == COMMA);
            assert(line[comma] == COMMA);
            lemma_digits_end_of_run(line, i, comma);
            let end: int = comma + 1 + c.len();
            assert forall|k: int| comma + 1 <= k < end implies #[trigger] line[k] == c[k - comma
                - 1] by {
                assert(line[k] == range[k - i]);
                assert(range[k - i] == c[k - comma - 1]);
            }
            lemma_digits_end_of_run(line, comma + 1, end);
            assert(line.subrange(comma + 1, end) =~= c);
        },
        None => {
            lemma_digits_end_of_run(line, i, comma);
        },
    }
    assert(line.subrange(i, comma) =~= start);
}

/// A header written from numbers is read back as those numbers: whatever
/// the old range and the trailing text, its hunk is the one that starts at
/// the number written as `new_start` and holds as many lines as `new_count`
/// writes, one where the count is left out.
pub proof fn lemma_written_header_is_read(
    old_start: Seq<u8>,
    old_count: Option<Seq<u8>>,
    new_start: Seq<u8>,
    new_count: Option<Seq<u8>>,
    rest: Seq<u8>,
)
    requires
        is_number(old_start),
        old_count matches Some(c) ==> is_number(c),
        is_number(new_start),
        new_count matches Some(c) ==> is_number(c),
    ensures
        hunk_of(
            written_header(
                written_range(old_start, old_count),
                written_range(new_start, new_count),
                rest,
            ),
        ) == hunk_for(decimal_value(new_start), written_count(new_count)),
{
    let old_range = written_range(old_start, old_count);
    let new_range = written_range(new_start, new_count);
    let line = written_header(old_range, new_range, rest);
    let plus: int = 4 + old_range.len() as int;
    let at: int = plus + 2;
    let close: int = at + new_range.len();
    assert(line.subrange(0, 4) =~= old_side_open());
    assert(line.subrange(4, plus) =~= old_range);
    assert(line.subrange(plus, at) =~= new_side_open());
    assert(line.subrange(at, close) =~= new_range);
    assert(line.subrange(close, close + 3) =~= hunk_close());
    assert(line[plus] == SPACE);
    assert(line[close] == SPACE);
    lemma_written_range_is_read(line, 4, old_start, old_count);
    lemma_written_range_is_read(line, at, new_start, new_count);
    assert(new_side_at(line) == Some(at));
    assert(well_formed_header(line));
}

/// The digits of the start of the range at `i`.
pub open spec fn start_digits(s: Seq<u8>, i: int) -> Seq<u8> {
    s.subrange(i, digits_end(s, i))
}

/// The digits of the count of the range at `i`, where it writes one.
pub open spec fn count_digits(s: Seq<u8>, i: int) -> Option<Seq<u8>> {
    if has_count(s, i) {
        Some(s.subrange(digits_end(s, i) + 1, range_end(s, i)))
    } else {
        None
    }
}

/// A range that is read at `i` is a written range: a number, and where a
/// comma and a digit follow, a second number.
pub proof fn lemma_read_range_was_written(s: Seq<u8>, i: int)
    requires
        0 <= i <= s.len(),
        range_end(s, i) > i,
    ensures
        range_end(s, i) <= s.len(),
        is_number(start_digits(s, i)),
        count_digits(s, i) matches Some(c) ==> is_number(c),
        s.subrange(i, range_end(s, i)) == written_range(start_digits(s, i), count_digits(s, i)),
{
    let comma = digits_end(s, i);
    lemma_digits_end_bounds(s, i);
    if has_count(s, i) {
        lemma_digits_end_bounds(s, comma + 1);
        assert(s.subrange(i, range_end(s, i)) =~= written_range(
            start_digits(s, i),
            count_digits(s, i),
        ));
    }
}

/// A line that is read as a hunk header was written as one: it is made of
/// `@@ -`, a range, ` +`, a range, ` @@` and whatever follows, and nothing
/// else is read as a header.
pub proof fn lemma_read_header_was_written(line: Seq<u8>)
    requires
        well_formed_header(line),
    ensures
        ({
            let at = new_side_at(line).unwrap();
            &&& is_number(start_digits(line, 4))
            &&& count_digits(line, 4) matches Some(c) ==> is_number(c)
            &&& is_number(start_digits(line, at))
            &&& count_digits(line, at) matches Some(c) ==> is_number(c)
            &&& line == written_header(
                written_range(start_digits(line, 4), count_digits(line, 4)),
                written_range(start_digits(line, at), count_digits(line, at)),
                line.skip(range_end(line, at) + 3),
            )
        }),
{
    let at = new_side_at(line).unwrap();
    lemma_read_range_was_written(line, 4);
    lemma_read_range_was_written(line, at);
    let old_range = line.subrange(4, range_end(line, 4));
    let new_range = line.subrange(at, range_end(line, at));
    let close = range_end(line, at);
    assert(line =~= line.subrange(0, 4) + old_range + line.subrange(range_end(line, 4), at)
        + new_range + line.subrange(close, close + 3) + line.skip(close + 3));
}

} // verus!
