//! One run of the filter: the changed lines are fixed at the start, the
//! diagnostics are consumed one by one, and the run ends with the number of
//! those that count toward failure.

use crate::changes::FileChanges;
use crate::decode::{decode_diagnostic, decoded, DecodeError};
use crate::diagnostics::{Diagnostic, DiagnosticView};
use crate::diff::{parse_diff, parsed_diff, DiffParseError};
use crate::filter::{classify, verdict_of, Verdict};
use crate::intervals::LineInterval;
use crate::text::utf8;
use vstd::prelude::*;

verus! {

/// How a run ended.
#[derive(Clone, Copy, Debug, PartialEq, Eq, Structural)]
pub enum RunResult {
    /// No forwarded diagnostic counted toward failure.
    Success,
    /// So many forwarded diagnostics counted toward failure.
    Failure(u64),
}

/// The result of a run that ends with `tally` counted diagnostics.
pub open spec fn result_for(tally: u64) -> RunResult {
    if tally == 0 {
        RunResult::Success
    } else {
        RunResult::Failure(tally)
    }
}

/// The tally once `verdict` is taken in: raised by one where the verdict
/// counts, except that a tally at the largest `u64` stays there.
pub open spec fn tally_after(tally: u64, verdict: Verdict) -> u64 {
    if verdict.counts() && tally < u64::MAX {
        (tally + 1) as u64
    } else {
        tally
    }
}

/// The verdicts on a sequence of records, each judged on its own.
pub open spec fn verdicts_of(
    records: Seq<DiagnosticView>,
    changes: Map<Seq<u8>, Seq<LineInterval>>,
) -> Seq<Verdict> {
    Seq::new(records.len(), |i: int| verdict_of(records[i], changes))
}

/// How many of the verdicts count toward failure.
pub open spec fn counted(verdicts: Seq<Verdict>) -> nat
    decreases verdicts.len(),
{
    if verdicts.len() == 0 {
        0
    } else {
        counted(verdicts.drop_last()) + if verdicts.last().counts() {
            1nat
        } else {
            0nat
        }
    }
}

/// The tally after a sequence of verdicts, consumed in order from `tally`.
pub open spec fn tally_through(tally: u64, verdicts: Seq<Verdict>) -> u64
    decreases verdicts.len(),
{
    if verdicts.len() == 0 {
        tally
    } else {
        tally_after(tally_through(tally, verdicts.drop_last()), verdicts.last())
    }
}

/// The state of a run: the changed lines, and the failures counted so far.
pub struct FilterEngine {
    changes: FileChanges,
    failures: u64,
}

impl FilterEngine {
    /// The changed lines that the run judges by.
    pub closed spec fn changes(&self) -> Map<Seq<u8>, Seq<LineInterval>> {
        self.changes@
    }

    /// The number of diagnostics counted so far.
    pub closed spec fn tally(&self) -> u64 {
        self.failures
    }

    /// Starts a run on the given changes, with nothing counted.
    pub fn new(changes: FileChanges) -> (r: FilterEngine)
        ensures
            r.changes() == changes@,
            r.tally() == 0,
    {
        FilterEngine { changes, failures: 0 }
    }

    /// The changed lines that the run judges by.
    pub fn file_changes(&self) -> (r: &FileChanges)
        ensures
            r@ == self.changes(),
    {
        &self.changes
    }

    /// The number of diagnostics counted so far.
    pub fn failures(&self) -> (r: u64)
        ensures
            r == self.tally(),
    {
        self.failures
    }

    /// Judges one diagnostic and counts it where the verdict says so. The
    /// verdict depends on the diagnostic and the changed lines alone; the
    /// changed lines stay as they are.
    pub fn consume(&mut self, diagnostic: &Diagnostic) -> (r: Verdict)
        ensures
            r == verdict_of(diagnostic@, old(self).changes()),
            final(self).changes() == old(self).changes(),
            final(self).tally() == tally_after(old(self).tally(), r),
    {
        let verdict = classify(diagnostic, &self.changes);
        if verdict.is_counted() && self.failures < u64::MAX {
            self.failures = self.failures + 1;
        }
        verdict
    }

    /// Decodes one line of the stream and consumes the record. A line that
    /// cannot be decoded is refused, and the run stays as it was.
    pub fn consume_line(&mut self, line: &str) -> (r: Result<Verdict, DecodeError>)
        ensures
            final(self).changes() == old(self).changes(),
            match r {
                Ok(verdict) => decoded(line@).is_some() && verdict == verdict_of(
                    decoded(line@).unwrap(),
                    old(self).changes(),
                ) && final(self).tally() == tally_after(old(self).tally(), verdict),
                Err(e) => decoded(line@).is_none() && e.line@ == line@ && final(self).tally() == old(
                    self,
                ).tally(),
            },
    {
        match decode_diagnostic(line) {
            Ok(diagnostic) => Ok(self.consume(&diagnostic)),
            Err(e) => Err(e),
        }
    }

    /// Ends the run: success where nothing was counted.
    pub fn finish(self) -> (r: RunResult)
        ensures
            r == result_for(self.tally()),
    {
        if self.failures == 0 {
            RunResult::Success
        } else {
            RunResult::Failure(self.failures)
        }
    }
}

/// The views of a list of records, in order.
pub open spec fn records_view(records: Seq<Diagnostic>) -> Seq<DiagnosticView> {
    Seq::new(records.len(), |i: int| records[i]@)
}

/// A whole run over records that are at hand: the verdict on each, in
/// order, and the result.
pub fn run(changes: FileChanges, diagnostics: &Vec<Diagnostic>) -> (r: (Vec<Verdict>, RunResult))
    ensures
        r.0@ == verdicts_of(records_view(diagnostics@), changes@),
        r.1 == result_for(tally_through(0, r.0@)),
        r.1 == result_for(counted(r.0@) as u64),
{
    let mut engine = FilterEngine::new(changes);
    let mut verdicts: Vec<Verdict> = Vec::new();
    let mut i: usize = 0;
    while i < diagnostics.len()
        invariant
            i <= diagnostics@.len(),
            engine.changes() == changes@,
            verdicts@ == verdicts_of(records_view(diagnostics@), changes@).take(i as int),
            engine.tally() == tally_through(0, verdicts@),
        decreases diagnostics@.len() - i,
    {
        let ghost before = verdicts@;
        let verdict = engine.consume(&diagnostics[i]);
        verdicts.push(verdict);
        proof {
            assert(verdicts@.drop_last() =~= before);
            assert(verdicts@ =~= verdicts_of(records_view(diagnostics@), changes@).take(i + 1));
        }
        i += 1;
    }
    proof {
        let all = verdicts_of(records_view(diagnostics@), changes@);
        assert(all.take(i as int) =~= all);
        lemma_tally_counts(all);
        lemma_counted_bounded(all);
    }
    (verdicts, engine.finish())
}

/// The index of the first line at or behind `from` that is no record, or the
/// number of lines where each is one.
pub open spec fn first_refused(lines: Seq<Seq<char>>, from: int) -> int
    decreases lines.len() - from,
{
    if 0 <= from < lines.len() && decoded(lines[from]).is_some() {
        first_refused(lines, from + 1)
    } else {
        from
    }
}

/// The records of a stream of lines: those of the lines before the first
/// that is refused.
pub open spec fn records_of(lines: Seq<Seq<char>>) -> Seq<DiagnosticView> {
    Seq::new(first_refused(lines, 0) as nat, |i: int| decoded(lines[i]).unwrap())
}

/// The views of a list of lines, in order.
pub open spec fn lines_view(lines: Seq<String>) -> Seq<Seq<char>> {
    Seq::new(lines.len(), |i: int| lines[i]@)
}

/// What a run over a stream of lines gave.
#[derive(Debug, PartialEq, Eq)]
pub struct RunReport {
    /// The verdicts on the records that were consumed, in order.
    pub verdicts: Vec<Verdict>,
    /// How the run ended, or the line at which it was given up.
    pub outcome: Result<RunResult, DecodeError>,
}

/// A report as contracts see it.
pub struct RunReportView {
    pub verdicts: Seq<Verdict>,
    pub outcome: Result<RunResult, Seq<char>>,
}

impl View for RunReport {
    type V = RunReportView;

    open spec fn view(&self) -> RunReportView {
        RunReportView {
            verdicts: self.verdicts@,
            outcome: match self.outcome {
                Ok(result) => Ok(result),
                Err(e) => Err(e.line@),
            },
        }
    }
}

/// The report of a run over `lines`: a verdict for each record before the
/// first line that is refused; then that line, or, where no line is
/// refused, the result for the verdicts that count.
pub open spec fn report_for(
    changes: Map<Seq<u8>, Seq<LineInterval>>,
    lines: Seq<Seq<char>>,
) -> RunReportView {
    let stop = first_refused(lines, 0);
    let verdicts = verdicts_of(records_of(lines), changes);
    RunReportView {
        verdicts,
        outcome: if stop < lines.len() {
            Err(lines[stop])
        } else {
            Ok(result_for(counted(verdicts) as u64))
        },
    }
}

/// What the filter gives for a diff and a stream of lines: the report of
/// the run on the changes that the diff says, or the malformed header of
/// the diff.
pub open spec fn filtered(diff: Seq<char>, lines: Seq<Seq<char>>) -> Result<RunReportView, Seq<u8>> {
    match parsed_diff(utf8(diff)) {
        Ok(changes) => Ok(report_for(changes, lines)),
        Err(line) => Err(line),
    }
}

/// A whole run over lines that are at hand. Each line is decoded and
/// judged in order. The first line that cannot be decoded ends the run
/// with that line; the verdicts given before it stand.
pub fn run_lines(changes: FileChanges, lines: &Vec<String>) -> (r: RunReport)
    ensures
        r@ == report_for(changes@, lines_view(lines@)),
{
    let ghost texts = lines_view(lines@);
    let mut engine = FilterEngine::new(changes);
    let mut verdicts: Vec<Verdict> = Vec::new();
    let mut i: usize = 0;
    while i < lines.len()
        invariant
            i <= lines@.len(),
            texts == lines_view(lines@),
            engine.changes() == changes@,
            first_refused(texts, 0) == first_refused(texts, i as int),
            verdicts@.len() == i,
            forall|k: int|
                0 <= k < i ==> decoded(texts[k]).is_some() && #[trigger] verdicts@[k] == verdict_of(
                    decoded(texts[k]).unwrap(),
                    changes@,
                ),
            engine.tally() == tally_through(0, verdicts@),
        decreases lines@.len() - i,
    {
        let ghost before = verdicts@;
        match engine.consume_line(lines[i].as_str()) {
            Ok(verdict) => {
                verdicts.push(verdict);
                proof {
                    assert(verdicts@.drop_last() =~= before);
                }
            },
            Err(e) => {
                proof {
                    assert(verdicts@ =~= verdicts_of(records_of(texts), changes@));
                }
                return RunReport { verdicts, outcome: Err(e) };
            },
        }
        i += 1;
    }
    proof {
        assert(verdicts@ =~= verdicts_of(records_of(texts), changes@));
        lemma_tally_counts(verdicts@);
        lemma_counted_bounded(verdicts@);
    }
    RunReport { verdicts, outcome: Ok(engine.finish()) }
}

/// The filter from end to end: reads the diff, then runs over the lines.
/// A diff that cannot be read ends everything before any line is looked
/// at. The outcome depends on the two texts alone.
pub fn filter_lines(diff: &str, lines: &Vec<String>) -> (r: Result<RunReport, DiffParseError>)
    ensures
        match r {
            Ok(report) => filtered(diff@, lines_view(lines@)) == Ok::<_, Seq<u8>>(report@),
            Err(e) => filtered(diff@, lines_view(lines@)) == Err::<RunReportView, _>(e.line@),
        },
{
    match parse_diff(diff) {
        Ok(changes) => Ok(run_lines(changes, lines)),
        Err(e) => Err(e),
    }
}

/// A diff with a malformed header gives that header, whatever the lines of
/// the stream are: none of them is looked at.
pub proof fn lemma_malformed_diff_ends_the_run(
    diff: Seq<char>,
    lines: Seq<Seq<char>>,
    others: Seq<Seq<char>>,
)
    requires
        parsed_diff(utf8(diff)).is_err(),
    ensures
        filtered(diff, lines).is_err(),
        filtered(diff, lines) == filtered(diff, others),
{
}

/// The tally never runs ahead of the verdicts that count, and equals their
/// number as long as that fits.
pub proof fn lemma_tally_counts(verdicts: Seq<Verdict>)
    ensures
        tally_through(0, verdicts) == if counted(verdicts) <= u64::MAX {
            counted(verdicts)
        } else {
            u64::MAX as nat
        },
    decreases verdicts.len(),
{
    if verdicts.len() > 0 {
        lemma_tally_counts(verdicts.drop_last());
    }
}

/// No more verdicts count than there are.
pub proof fn lemma_counted_bounded(verdicts: Seq<Verdict>)
    ensures
        counted(verdicts) <= verdicts.len(),
    decreases verdicts.len(),
{
    if verdicts.len() > 0 {
        lemma_counted_bounded(verdicts.drop_last());
    }
}

/// A run succeeds exactly when no verdict counted.
pub proof fn lemma_success_means_none_counted(verdicts: Seq<Verdict>)
    ensures
        result_for(tally_through(0, verdicts)) == RunResult::Success <==> counted(verdicts) == 0,
{
    lemma_tally_counts(verdicts);
}

/// The verdict on a record is the same wherever the record stands in the
/// stream and whatever was consumed before it: the verdicts of a stream cut
/// in two are those of the first part, then those of the second, and the
/// tally of the whole is the tally of the second part taken up where the
/// first left it.
pub proof fn lemma_run_has_no_hidden_state(
    first: Seq<DiagnosticView>,
    second: Seq<DiagnosticView>,
    changes: Map<Seq<u8>, Seq<LineInterval>>,
    tally: u64,
)
    ensures
        verdicts_of(first + second, changes) == verdicts_of(first, changes) + verdicts_of(
            second,
            changes,
        ),
        tally_through(tally, verdicts_of(first + second, changes)) == tally_through(
            tally_through(tally, verdicts_of(first, changes)),
            verdicts_of(second, changes),
        ),
{
    assert(verdicts_of(first + second, changes) =~= verdicts_of(first, changes) + verdicts_of(
        second,
        changes,
    ));
    lemma_tally_through_concat(tally, verdicts_of(first, changes), verdicts_of(second, changes));
}

/// The tally over two sequences of verdicts, one after the other.
pub proof fn lemma_tally_through_concat(tally: u64, first: Seq<Verdict>, second: Seq<Verdict>)
    ensures
        tally_through(tally, first + second) == tally_through(tally_through(tally, first), second),
    decreases second.len(),
{
    if second.len() == 0 {
        assert(first + second =~= first);
    } else {
        lemma_tally_through_concat(tally, first, second.drop_last());
        assert((first + second).drop_last() =~= first + second.drop_last());
    }
}

} // verus!
