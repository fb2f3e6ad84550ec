//! Reads a zero-context unified diff into the changed lines of each file.
//!
//! Two kinds of line matter. A file header `+++ <path>` names the file that
//! the hunks after it belong to; a hunk header `@@ -a,b +c,d @@` names the
//! lines `c` to `c + d - 1` of that file. Every other line is passed over.

use crate::changes::{with_interval, FileChanges};
use crate::hunk::{hunk_mark, hunk_of, parse_hunk_header, Hunk, AT_SIGN, PLUS, SPACE};
use crate::intervals::{all_wf, LineInterval};
use crate::text::{
    bytes_equal, find_byte, has_at, index_of_byte, lemma_index_of_byte_bounds, matches_at,
    utf8, CARRIAGE_RETURN, LINE_FEED, TAB,
};
use vstd::prelude::*;
use vstd::slice::{slice_subrange, slice_to_vec};

verus! {

/// `+++ `, with which the header of the new file starts.
pub open spec fn file_mark() -> Seq<u8> {
    seq![PLUS, PLUS, PLUS, SPACE]
}

/// `b/`, which the diff puts before the path of the new file.
pub open spec fn new_file_prefix() -> Seq<u8> {
    seq![98u8, 47u8]
}

/// `/dev/null`, which stands for the new file where the file was deleted.
pub open spec fn null_path() -> Seq<u8> {
    seq![47u8, 100u8, 101u8, 118u8, 47u8, 110u8, 117u8, 108u8, 108u8]
}

/// The line without the carriage return that may end it.
pub open spec fn without_carriage_return(line: Seq<u8>) -> Seq<u8> {
    if line.len() > 0 && line.last() == CARRIAGE_RETURN {
        line.drop_last()
    } else {
        line
    }
}

/// The lines of `text` from index `pos` on: the runs between line feeds,
/// each without its carriage return. A line feed at the very end opens no
/// further line.
pub open spec fn lines_from(text: Seq<u8>, pos: int) -> Seq<Seq<u8>>
    decreases text.len() + 1 - pos,
    via lines_from_terminates
{
    if 0 <= pos < text.len() {
        let end = index_of_byte(text, pos, LINE_FEED);
        seq![without_carriage_return(text.subrange(pos, end))] + lines_from(text, end + 1)
    } else {
        Seq::empty()
    }
}

#[via_fn]
proof fn lines_from_terminates(text: Seq<u8>, pos: int) {
    if 0 <= pos < text.len() {
        lemma_index_of_byte_bounds(text, pos, LINE_FEED);
    }
}

/// What a file header writes behind `+++ `, up to the first tab.
pub open spec fn header_path(line: Seq<u8>) -> Seq<u8> {
    line.subrange(4, index_of_byte(line, 4, TAB))
}

/// The name under which the file of a header is recorded: the path without
/// a leading `b/`.
pub open spec fn file_name_of(path: Seq<u8>) -> Seq<u8> {
    if has_at(path, 0, new_file_prefix()) {
        path.skip(2)
    } else {
        path
    }
}

/// Where the parser stands between two lines.
pub struct DiffState {
    /// The file that the next hunks belong to, if any.
    pub current: Option<Seq<u8>>,
    /// The intervals recorded so far.
    pub changes: Map<Seq<u8>, Seq<LineInterval>>,
}

/// The state before the first line: no file, no interval.
pub open spec fn initial_state() -> DiffState {
    DiffState { current: None, changes: Map::empty() }
}

/// The state after `line`, or `None` where the line is a malformed header.
///
/// A file header with an empty name is malformed. One that names `/dev/null`
/// leaves no current file. A hunk header must be well formed wherever it
/// stands; its interval is recorded only for a current file.
pub open spec fn after_line(state: DiffState, line: Seq<u8>) -> Option<DiffState> {
    if has_at(line, 0, file_mark()) {
        let path = header_path(line);
        if path == null_path() {
            Some(DiffState { current: None, changes: state.changes })
        } else if file_name_of(path).len() == 0 {
            None
        } else {
            Some(DiffState { current: Some(file_name_of(path)), changes: state.changes })
        }
    } else if has_at(line, 0, hunk_mark()) {
        match hunk_of(line) {
            Hunk::Malformed => None,
            Hunk::NoLines => Some(state),
            Hunk::Lines(interval) => match state.current {
                Some(file) => Some(
                    DiffState {
                        current: state.current,
                        changes: with_interval(state.changes, file, interval),
                    },
                ),
                None => Some(state),
            },
        }
    } else {
        Some(state)
    }
}

/// The changes after all of `lines`, read in order from `state`, or the
/// first malformed header among them.
pub open spec fn changes_after(lines: Seq<Seq<u8>>, state: DiffState) -> Result<
    Map<Seq<u8>, Seq<LineInterval>>,
    Seq<u8>,
>
    decreases lines.len(),
{
    if lines.len() == 0 {
        Ok(state.changes)
    } else {
        match after_line(state, lines[0]) {
            Some(next) => changes_after(lines.drop_first(), next),
            None => Err(lines[0]),
        }
    }
}

/// What a diff says: the changed intervals of each file, or the first
/// malformed header.
pub open spec fn parsed_diff(text: Seq<u8>) -> Result<Map<Seq<u8>, Seq<LineInterval>>, Seq<u8>> {
    changes_after(lines_from(text, 0), initial_state())
}

/// Every file that is present has at least one interval, and every interval
/// at least one line.
pub open spec fn well_formed_changes(changes: Map<Seq<u8>, Seq<LineInterval>>) -> bool {
    forall|path: Seq<u8>| #[trigger]
        changes.contains_key(path) ==> changes[path].len() > 0 && all_wf(changes[path])
}

/// Reading one line keeps the changes well formed.
pub proof fn lemma_line_keeps_well_formed(state: DiffState, line: Seq<u8>)
    requires
        well_formed_changes(state.changes),
    ensures
        after_line(state, line) matches Some(next) ==> well_formed_changes(next.changes),
{
}

/// Reading lines keeps the changes well formed.
pub proof fn lemma_lines_keep_well_formed(lines: Seq<Seq<u8>>, state: DiffState)
    requires
        well_formed_changes(state.changes),
    ensures
        changes_after(lines, state) matches Ok(changes) ==> well_formed_changes(changes),
    decreases lines.len(),
{
    if lines.len() > 0 {
        lemma_line_keeps_well_formed(state, lines[0]);
        match after_line(state, lines[0]) {
            Some(next) => {
                lemma_lines_keep_well_formed(lines.drop_first(), next);
            },
            None => {},
        }
    }
}

/// In what a diff says, every file that is present has at least one
/// interval, and every interval runs from its first line to a last line
/// that is not before it.
pub proof fn lemma_parsed_diff_well_formed(text: Seq<u8>)
    ensures
        parsed_diff(text) matches Ok(changes) ==> well_formed_changes(changes),
{
    lemma_lines_keep_well_formed(lines_from(text, 0), initial_state());
}

/// A diff without any text says that nothing has changed.
pub proof fn lemma_empty_diff_has_no_changes()
    ensures
        parsed_diff(Seq::empty()) == Ok::<_, Seq<u8>>(Map::<Seq<u8>, Seq<LineInterval>>::empty()),
{
}

/// A diff without any file header says that nothing has changed, provided
/// that its hunk headers are well formed: hunks count only for a file.
pub proof fn lemma_no_file_no_changes(lines: Seq<Seq<u8>>)
    requires
        forall|i: int| 0 <= i < lines.len() ==> !has_at(#[trigger] lines[i], 0, file_mark()),
    ensures
        changes_after(lines, initial_state()) matches Ok(changes) ==> changes == Map::<
            Seq<u8>,
            Seq<LineInterval>,
        >::empty(),
    decreases lines.len(),
{
    if lines.len() > 0 {
        match after_line(initial_state(), lines[0]) {
            Some(next) => {
                assert(next == initial_state());
                assert forall|i: int| 0 <= i < lines.drop_first().len() implies !has_at(
                    #[trigger] lines.drop_first()[i],
                    0,
                    file_mark(),
                ) by {
                    assert(lines.drop_first()[i] == lines[i + 1]);
                }
                lemma_no_file_no_changes(lines.drop_first());
            },
            None => {},
        }
    }
}

/// Whether `line` is a header that cannot be read: a hunk header that is
/// malformed, or a file header without a name.
pub open spec fn malformed_header(line: Seq<u8>) -> bool {
    if has_at(line, 0, file_mark()) {
        header_path(line) != null_path() && file_name_of(header_path(line)).len() == 0
    } else {
        has_at(line, 0, hunk_mark()) && hunk_of(line) == Hunk::Malformed
    }
}

/// Whether a line is refused does not depend on what was read before it.
pub proof fn lemma_refused_lines_are_malformed(state: DiffState, line: Seq<u8>)
    ensures
        after_line(state, line).is_none() <==> malformed_header(line),
{
}

/// One malformed header anywhere among the lines makes the reading fail,
/// and the line that is reported is the first such header.
pub proof fn lemma_malformed_header_fails(lines: Seq<Seq<u8>>, state: DiffState, i: int)
    requires
        0 <= i < lines.len(),
        malformed_header(lines[i]),
        forall|j: int| 0 <= j < i ==> !malformed_header(#[trigger] lines[j]),
    ensures
        changes_after(lines, state) == Err::<Map<Seq<u8>, Seq<LineInterval>>, _>(lines[i]),
    decreases i,
{
    lemma_refused_lines_are_malformed(state, lines[0]);
    if i > 0 {
        let rest = lines.drop_first();
        assert(rest[i - 1] == lines[i]);
        assert forall|j: int| 0 <= j < i - 1 implies !malformed_header(#[trigger] rest[j]) by {
            assert(rest[j] == lines[j + 1]);
        }
        lemma_malformed_header_fails(rest, after_line(state, lines[0]).unwrap(), i - 1);
    }
}

/// Lines without a malformed header are read to the end.
pub proof fn lemma_well_formed_lines_are_read(lines: Seq<Seq<u8>>, state: DiffState)
    requires
        forall|j: int| 0 <= j < lines.len() ==> !malformed_header(#[trigger] lines[j]),
    ensures
        changes_after(lines, state).is_ok(),
    decreases lines.len(),
{
    if lines.len() > 0 {
        lemma_refused_lines_are_malformed(state, lines[0]);
        let rest = lines.drop_first();
        assert forall|j: int| 0 <= j < rest.len() implies !malformed_header(#[trigger] rest[j]) by {
            assert(rest[j] == lines[j + 1]);
        }
        lemma_well_formed_lines_are_read(rest, after_line(state, lines[0]).unwrap());
    }
}

/// A diff that could not be read: the header that is malformed.
#[derive(Debug)]
pub struct DiffParseError {
    /// The offending line, without its line end.
    pub line: Vec<u8>,
}

/// The file that the hunks belong to, as the parser holds it.
pub open spec fn current_view(current: Option<Vec<u8>>) -> Option<Seq<u8>> {
    match current {
        Some(file) => Some(file@),
        None => None,
    }
}

/// Reads one line into the parser's state; `false` for a malformed header,
/// which leaves the state as it was.
fn read_line(line: &[u8], current: &mut Option<Vec<u8>>, changes: &mut FileChanges) -> (ok: bool)
    ensures
        match after_line(
            DiffState { current: current_view(*old(current)), changes: old(changes)@ },
            line@,
        ) {
            Some(next) => ok && current_view(*final(current)) == next.current && final(changes)@
                == next.changes,
            None => !ok && *final(current) == *old(current) && final(changes)@ == old(changes)@,
        },
{
    let file_open: [u8; 4] = [PLUS, PLUS, PLUS, SPACE];
    let hunk_open: [u8; 2] = [AT_SIGN, AT_SIGN];
    proof {
        assert(file_open@ =~= file_mark());
        assert(hunk_open@ =~= hunk_mark());
    }
    if matches_at(line, 0, file_open.as_slice()) {
        let null: [u8; 9] = [47, 100, 101, 118, 47, 110, 117, 108, 108];
        let prefix: [u8; 2] = [98, 47];
        proof {
            assert(null@ =~= null_path());
            assert(prefix@ =~= new_file_prefix());
        }
        let path = slice_subrange(line, 4, find_byte(line, 4, TAB));
        if bytes_equal(path, null.as_slice()) {
            *current = None;
            return true;
        }
        let name = if matches_at(path, 0, prefix.as_slice()) {
            slice_subrange(path, 2, path.len())
        } else {
            path
        };
        if name.len() == 0 {
            return false;
        }
        *current = Some(slice_to_vec(name));
        true
    } else if matches_at(line, 0, hunk_open.as_slice()) {
        match parse_hunk_header(line) {
            Hunk::Malformed => false,
            Hunk::NoLines => true,
            Hunk::Lines(interval) => {
                match current {
                    Some(file) => {
                        changes.push(file.as_slice(), interval);
                    },
                    None => {},
                }
                true
            },
        }
    } else {
        true
    }
}

/// Reads a diff given as bytes. The result holds, for each file that a hunk
/// adds lines to, the intervals of its hunks in the order of the diff, not
/// merged; the first malformed header ends the reading with that line.
pub fn parse_diff_bytes(text: &[u8]) -> (r: Result<FileChanges, DiffParseError>)
    ensures
        match r {
            Ok(changes) => parsed_diff(text@) == Ok::<_, Seq<u8>>(changes@),
            Err(e) => parsed_diff(text@) == Err::<Map<Seq<u8>, Seq<LineInterval>>, _>(e.line@),
        },
{
    let mut changes = FileChanges::new();
    let mut current: Option<Vec<u8>> = None;
    let mut pos: usize = 0;
    while pos < text.len()
        invariant
            pos <= text@.len(),
            parsed_diff(text@) == changes_after(
                lines_from(text@, pos as int),
                DiffState { current: current_view(current), changes: changes@ },
            ),
        decreases text@.len() - pos,
    {
        let end = find_byte(text, pos, LINE_FEED);
        let line_end = if end > pos && text[end - 1] == CARRIAGE_RETURN {
            end - 1
        } else {
            end
        };
        let line = slice_subrange(text, pos, line_end);
        proof {
            let rest = lines_from(text@, end + 1);
            let all = lines_from(text@, pos as int);
            assert(line@ =~= without_carriage_return(text@.subrange(pos as int, end as int)));
            assert(all =~= seq![line@] + rest);
            assert(all[0] == line@);
            assert(all.drop_first() =~= rest);
        }
        if !read_line(line, &mut current, &mut changes) {
            return Err(DiffParseError { line: slice_to_vec(line) });
        }
        if end == text.len() {
            pos = end;
        } else {
            pos = end + 1;
        }
    }
    Ok(changes)
}

/// Reads a diff given as text; see [`parse_diff_bytes`].
pub fn parse_diff(diff: &str) -> (r: Result<FileChanges, DiffParseError>)
    ensures
        match r {
            Ok(changes) => parsed_diff(utf8(diff@)) == Ok::<_, Seq<u8>>(
                changes@,
            ),
            Err(e) => parsed_diff(utf8(diff@)) == Err::<
                Map<Seq<u8>, Seq<LineInterval>>,
                _,
            >(e.line@),
        },
{
    parse_diff_bytes(diff.as_bytes())
}

} // verus!
