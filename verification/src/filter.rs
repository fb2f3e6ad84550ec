//! The verdict on one diagnostic: forwarded or suppressed, counted or not.

use crate::changes::{intervals_of, FileChanges};
use crate::diagnostics::{Diagnostic, DiagnosticView, Span, SpanView};
use crate::intervals::{intersect_intervals, overlaps_any, LineInterval};
use crate::text::utf8;
use vstd::prelude::*;

verus! {

/// What becomes of one diagnostic.
#[derive(Clone, Copy, Debug, PartialEq, Eq, Structural)]
pub enum Verdict {
    /// The diagnostic is dropped: it does not concern the changed lines.
    Suppress,
    /// The diagnostic is passed on, and may count toward the run's failure.
    Forward { counts_toward_failure: bool },
}

impl Verdict {
    /// Whether the diagnostic is passed on.
    pub open spec fn forwards(self) -> bool {
        self != Verdict::Suppress
    }

    /// Whether the diagnostic moves the failure tally.
    pub open spec fn counts(self) -> bool {
        self == (Verdict::Forward { counts_toward_failure: true })
    }

    /// Whether the diagnostic is passed on.
    pub fn is_forwarded(&self) -> (r: bool)
        ensures
            r == self.forwards(),
    {
        match self {
            Verdict::Suppress => false,
            Verdict::Forward { .. } => true,
        }
    }

    /// Whether the diagnostic moves the failure tally.
    pub fn is_counted(&self) -> (r: bool)
        ensures
            r == self.counts(),
    {
        match self {
            Verdict::Suppress => false,
            Verdict::Forward { counts_toward_failure } => *counts_toward_failure,
        }
    }
}

/// A span whose last line lies before its first: it cannot be held against
/// the changed lines.
#[derive(Clone, Copy, Debug, PartialEq, Eq, Structural)]
pub struct InvalidSpan {
    pub line_start: u32,
    pub line_end: u32,
}

/// Whether the lines `line_start..=line_end` of the file named `file` meet
/// an interval that `changes` holds for that file. A file that `changes`
/// does not know has no changed line.
pub open spec fn touches_changes(
    file: Seq<char>,
    line_start: u32,
    line_end: u32,
    changes: Map<Seq<u8>, Seq<LineInterval>>,
) -> bool {
    overlaps_any(line_start, line_end, intervals_of(changes, utf8(file)))
}

/// Whether a span keeps its diagnostic from being suppressed: it meets a
/// changed interval, or it is inverted and so cannot be judged.
pub open spec fn span_relevant(span: SpanView, changes: Map<Seq<u8>, Seq<LineInterval>>) -> bool {
    span.line_end < span.line_start || touches_changes(
        span.file_name,
        span.line_start,
        span.line_end,
        changes,
    )
}

/// Whether some span of the list is relevant.
pub open spec fn any_relevant(spans: Seq<SpanView>, changes: Map<Seq<u8>, Seq<LineInterval>>) -> bool {
    exists|i: int| 0 <= i < spans.len() && span_relevant(#[trigger] spans[i], changes)
}

/// The verdict on a diagnostic, given the changed lines.
///
/// A record without a message is forwarded and not counted. An error or a
/// warning is forwarded and counted where it has no span at all or a
/// relevant one, and suppressed otherwise. Every other severity is
/// forwarded and not counted, whatever its spans.
pub open spec fn verdict_of(diagnostic: DiagnosticView, changes: Map<Seq<u8>, Seq<LineInterval>>) -> Verdict {
    match diagnostic.message {
        None => Verdict::Forward { counts_toward_failure: false },
        Some(message) => if !diagnostic.level.gates() {
            Verdict::Forward { counts_toward_failure: false }
        } else if message.spans.len() == 0 || any_relevant(message.spans, changes) {
            Verdict::Forward { counts_toward_failure: true }
        } else {
            Verdict::Suppress
        },
    }
}

/// Whether the lines `line_start..=line_end` of `file` meet a changed
/// interval; an inverted range is refused.
pub fn intersects(file: &str, line_start: u32, line_end: u32, ranges: &FileChanges) -> (r: Result<
    bool,
    InvalidSpan,
>)
    ensures
        r == (if line_end < line_start {
            Err::<bool, _>(InvalidSpan { line_start, line_end })
        } else {
            Ok::<_, InvalidSpan>(touches_changes(file@, line_start, line_end, ranges@))
        }),
{
    if line_end < line_start {
        return Err(InvalidSpan { line_start, line_end });
    }
    match ranges.get(file) {
        Some(list) => Ok(intersect_intervals(line_start, line_end, list)),
        None => {
            assert(!touches_changes(file@, line_start, line_end, ranges@));
            Ok(false)
        },
    }
}

/// Whether `span` keeps its diagnostic from being suppressed.
pub fn is_relevant(span: &Span, changes: &FileChanges) -> (r: bool)
    ensures
        r == span_relevant(span@, changes@),
{
    match intersects(span.file_name.as_str(), span.line_start, span.line_end, changes) {
        Ok(overlap) => overlap,
        Err(_) => true,
    }
}

/// The verdict on `diagnostic`, given the changed lines.
pub fn classify(diagnostic: &Diagnostic, changes: &FileChanges) -> (r: Verdict)
    ensures
        r == verdict_of(diagnostic@, changes@),
{
    match &diagnostic.message {
        None => Verdict::Forward { counts_toward_failure: false },
        Some(message) => {
            if !diagnostic.level.is_gating() {
                return Verdict::Forward { counts_toward_failure: false };
            }
            if message.spans.len() == 0 {
                return Verdict::Forward { counts_toward_failure: true };
            }
            let ghost spans = message@.spans;
            let mut i: usize = 0;
            while i < message.spans.len()
                invariant
                    i <= message.spans@.len(),
                    spans == message@.spans,
                    diagnostic@.message == Some(message@),
                    diagnostic@.level.gates(),
                    forall|j: int| 0 <= j < i ==> !span_relevant(#[trigger] spans[j], changes@),
                decreases message.spans@.len() - i,
            {
                if is_relevant(&message.spans[i], changes) {
                    assert(spans[i as int] == message.spans@[i as int]@);
                    assert(span_relevant(spans[i as int], changes@));
                    assert(any_relevant(spans, changes@));
                    return Verdict::Forward { counts_toward_failure: true };
                }
                i += 1;
            }
            Verdict::Suppress
        },
    }
}

/// Whether `diagnostic` is to be passed on: `false` only for an error or a
/// warning that has spans, none of them relevant to the changed lines.
pub fn should_report_diagnostic(diagnostic: &Diagnostic, file_changes: &FileChanges) -> (r: bool)
    ensures
        r == verdict_of(diagnostic@, file_changes@).forwards(),
{
    classify(diagnostic, file_changes).is_forwarded()
}

/// An error or a warning whose spans all lie outside the changed lines is
/// suppressed.
pub proof fn lemma_gated_outside_is_suppressed(
    diagnostic: DiagnosticView,
    changes: Map<Seq<u8>, Seq<LineInterval>>,
)
    requires
        diagnostic.level.gates(),
        diagnostic.message.is_some(),
        diagnostic.message.unwrap().spans.len() > 0,
        forall|i: int|
            0 <= i < diagnostic.message.unwrap().spans.len() ==> !span_relevant(
                #[trigger] diagnostic.message.unwrap().spans[i],
                changes,
            ),
    ensures
        verdict_of(diagnostic, changes) == Verdict::Suppress,
{
}

/// An error or a warning with a span that meets a changed interval is
/// forwarded and counted, whatever its other spans.
pub proof fn lemma_gated_overlap_is_counted(
    diagnostic: DiagnosticView,
    changes: Map<Seq<u8>, Seq<LineInterval>>,
    i: int,
)
    requires
        diagnostic.level.gates(),
        diagnostic.message.is_some(),
        0 <= i < diagnostic.message.unwrap().spans.len(),
        touches_changes(
            diagnostic.message.unwrap().spans[i].file_name,
            diagnostic.message.unwrap().spans[i].line_start,
            diagnostic.message.unwrap().spans[i].line_end,
            changes,
        ),
    ensures
        verdict_of(diagnostic, changes) == (Verdict::Forward { counts_toward_failure: true }),
{
    assert(span_relevant(diagnostic.message.unwrap().spans[i], changes));
}

/// A diagnostic that is neither an error nor a warning is forwarded and
/// never counted, whatever its spans and whatever has changed.
pub proof fn lemma_ungated_is_forwarded_uncounted(
    diagnostic: DiagnosticView,
    changes: Map<Seq<u8>, Seq<LineInterval>>,
)
    requires
        !diagnostic.level.gates(),
    ensures
        verdict_of(diagnostic, changes) == (Verdict::Forward { counts_toward_failure: false }),
{
}

/// An error or a warning without any span is forwarded and counted,
/// whatever has changed.
pub proof fn lemma_gated_without_span_is_counted(
    diagnostic: DiagnosticView,
    changes: Map<Seq<u8>, Seq<LineInterval>>,
)
    requires
        diagnostic.level.gates(),
        diagnostic.message.is_some(),
        diagnostic.message.unwrap().spans.len() == 0,
    ensures
        verdict_of(diagnostic, changes) == (Verdict::Forward { counts_toward_failure: true }),
{
}

/// A record without a message is forwarded and never counted.
pub proof fn lemma_notice_is_forwarded_uncounted(
    diagnostic: DiagnosticView,
    changes: Map<Seq<u8>, Seq<LineInterval>>,
)
    requires
        diagnostic.message.is_none(),
    ensures
        verdict_of(diagnostic, changes) == (Verdict::Forward { counts_toward_failure: false }),
{
}

/// The verdict looks at the intervals of the files that the spans name and
/// at nothing else: two sets of changes that agree on those files give the
/// same verdict.
pub proof fn lemma_verdict_reads_named_files_only(
    diagnostic: DiagnosticView,
    a: Map<Seq<u8>, Seq<LineInterval>>,
    b: Map<Seq<u8>, Seq<LineInterval>>,
)
    requires
        diagnostic.message.is_some() ==> forall|i: int|
            0 <= i < diagnostic.message.unwrap().spans.len() ==> intervals_of(
                a,
                utf8((#[trigger] diagnostic.message.unwrap().spans[i]).file_name),
            ) == intervals_of(b, utf8(diagnostic.message.unwrap().spans[i].file_name)),
    ensures
        verdict_of(diagnostic, a) == verdict_of(diagnostic, b),
{
    if diagnostic.message.is_some() {
        let spans = diagnostic.message.unwrap().spans;
        assert forall|i: int| 0 <= i < spans.len() implies span_relevant(#[trigger] spans[i], a)
            == span_relevant(spans[i], b) by {}
        assert(any_relevant(spans, a) == any_relevant(spans, b));
    }
}

} // verus!
