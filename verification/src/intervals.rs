//! Inclusive line intervals and the overlap test between them.

use vstd::prelude::*;

verus! {

/// A run of changed lines in the new version of a file, both ends included.
#[derive(Clone, Copy, Debug, PartialEq, Eq, Structural)]
pub struct LineInterval {
    pub start: u32,
    pub end: u32,
}

impl LineInterval {
    /// An interval holds at least one line.
    pub open spec fn wf(self) -> bool {
        self.start <= self.end
    }

    /// Whether the lines `line_start..=line_end` and this interval meet.
    pub open spec fn overlaps(self, line_start: u32, line_end: u32) -> bool {
        line_start <= self.end && self.start <= line_end
    }

    /// Whether `line` lies in this interval.
    pub open spec fn contains_line(self, line: int) -> bool {
        self.start <= line <= self.end
    }

    /// The interval `start..=end`, or `None` where `end` lies before `start`.
    pub fn new(start: u32, end: u32) -> (r: Option<LineInterval>)
        ensures
            r == (if start <= end {
                Some(LineInterval { start, end })
            } else {
                None
            }),
    {
        if start <= end {
            Some(LineInterval { start, end })
        } else {
            None
        }
    }

    /// The overlap test against one candidate range.
    pub fn intersects(&self, line_start: u32, line_end: u32) -> (r: bool)
        ensures
            r == self.overlaps(line_start, line_end),
    {
        line_start <= self.end && self.start <= line_end
    }
}

/// Every interval of the list holds at least one line.
pub open spec fn all_wf(intervals: Seq<LineInterval>) -> bool {
    forall|k: int| 0 <= k < intervals.len() ==> (#[trigger] intervals[k]).wf()
}

/// Whether some interval of the list meets the lines `line_start..=line_end`.
pub open spec fn overlaps_any(line_start: u32, line_end: u32, intervals: Seq<LineInterval>) -> bool {
    exists|i: int|
        0 <= i < intervals.len() && (#[trigger] intervals[i]).overlaps(line_start, line_end)
}

/// Scans the list in order and stops at the first interval that meets the
/// candidate range. The list need not be sorted nor coalesced.
pub fn intersect_intervals(line_start: u32, line_end: u32, intervals: &Vec<LineInterval>) -> (r:
    bool)
    ensures
        r == overlaps_any(line_start, line_end, intervals@),
{
    let mut i: usize = 0;
    while i < intervals.len()
        invariant
            i <= intervals.len(),
            forall|j: int| 0 <= j < i ==> !(#[trigger] intervals@[j]).overlaps(line_start, line_end),
        decreases intervals.len() - i,
    {
        if intervals[i].intersects(line_start, line_end) {
            return true;
        }
        i += 1;
    }
    false
}

/// Two inclusive ranges that each hold a line overlap exactly when they share
/// a line.
pub proof fn lemma_overlap_shares_line(interval: LineInterval, line_start: u32, line_end: u32)
    requires
        interval.wf(),
        line_start <= line_end,
    ensures
        interval.overlaps(line_start, line_end) <==> exists|n: int|
            line_start <= n <= line_end && #[trigger] interval.contains_line(n),
{
    if interval.overlaps(line_start, line_end) {
        let n: int = if interval.start <= line_start {
            line_start as int
        } else {
            interval.start as int
        };
        assert(line_start <= n <= line_end && interval.contains_line(n));
    }
}

/// The overlap test is symmetric in the two ranges.
pub proof fn lemma_overlap_symmetric(a: LineInterval, b: LineInterval)
    ensures
        a.overlaps(b.start, b.end) == b.overlaps(a.start, a.end),
{
}

} // verus!
