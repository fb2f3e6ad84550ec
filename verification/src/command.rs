//! What the command line decides before and after a run: which arguments
//! are its own, and whether the subprocess it ran has failed.

use crate::text::text_equal;
use vstd::prelude::*;

verus! {

/// The exit code with which the build tool says that the build itself
/// failed, as opposed to the tool.
pub const BUILD_FAILED_EXIT_CODE: i32 = 101;

/// The views of a list of texts, in order.
pub open spec fn texts_view(texts: Seq<String>) -> Seq<Seq<char>> {
    Seq::new(texts.len(), |i: int| texts[i]@)
}

/// The index of the first `--` at or behind `from`, or the length of `args`
/// where there is none.
pub open spec fn separator_from(args: Seq<Seq<char>>, from: int) -> int
    decreases args.len() - from,
{
    if 0 <= from < args.len() && args[from] != "--"@ {
        separator_from(args, from + 1)
    } else {
        from
    }
}

/// The arguments that the program reads itself: all of them without a
/// subcommand, else those before the first `--`.
pub open spec fn own_arguments(args: Seq<Seq<char>>, with_subcommand: bool) -> Seq<Seq<char>> {
    if with_subcommand {
        args.take(separator_from(args, 0))
    } else {
        args
    }
}

/// The arguments that are handed on to the subcommand: those behind the
/// first `--`, none without a subcommand.
pub open spec fn passed_arguments(args: Seq<Seq<char>>, with_subcommand: bool) -> Seq<Seq<char>> {
    if with_subcommand && separator_from(args, 0) < args.len() {
        args.skip(separator_from(args, 0) + 1)
    } else {
        Seq::empty()
    }
}

/// The search for `--` ends at or behind `from`, inside `args`.
pub proof fn lemma_separator_bounds(args: Seq<Seq<char>>, from: int)
    requires
        0 <= from <= args.len(),
    ensures
        from <= separator_from(args, from) <= args.len(),
    decreases args.len() - from,
{
    if from < args.len() && args[from] != "--"@ {
        lemma_separator_bounds(args, from + 1);
    }
}

fn copy_texts(args: &Vec<String>, from: usize, to: usize) -> (r: Vec<String>)
    requires
        from <= to <= args@.len(),
    ensures
        texts_view(r@) == texts_view(args@).subrange(from as int, to as int),
{
    let mut r: Vec<String> = Vec::new();
    let mut i: usize = from;
    while i < to
        invariant
            from <= i <= to <= args@.len(),
            r@.len() == i - from,
            forall|k: int| 0 <= k < r@.len() ==> (#[trigger] r@[k])@ == args@[from + k]@,
        decreases to - i,
    {
        r.push(args[i].clone());
        i += 1;
    }
    proof {
        assert(texts_view(r@) =~= texts_view(args@).subrange(from as int, to as int));
    }
    r
}

/// Parts the command line at the first `--`: before it the program's own
/// arguments, behind it those of the subcommand. Without a subcommand the
/// whole line is the program's own.
pub fn split_arguments(args: &Vec<String>, with_subcommand: bool) -> (r: (Vec<String>, Vec<String>))
    ensures
        texts_view(r.0@) == own_arguments(texts_view(args@), with_subcommand),
        texts_view(r.1@) == passed_arguments(texts_view(args@), with_subcommand),
{
    let ghost texts = texts_view(args@);
    if !with_subcommand {
        let own = copy_texts(args, 0, args.len());
        proof {
            assert(texts.subrange(0, texts.len() as int) =~= texts);
        }
        return (own, Vec::new());
    }
    let mut at: usize = 0;
    while at < args.len() && !text_equal(args[at].as_str(), "--")
        invariant
            at <= args@.len(),
            texts == texts_view(args@),
            separator_from(texts, 0) == separator_from(texts, at as int),
        decreases args@.len() - at,
    {
        at += 1;
    }
    let own = copy_texts(args, 0, at);
    let passed = if at < args.len() {
        copy_texts(args, at + 1, args.len())
    } else {
        Vec::new()
    };
    (own, passed)
}

/// Whether the subprocess failed for a reason of its own. An exit without
/// success is no such failure where the code is the one of a failed build:
/// then the diagnostics that were counted decide. A missing code counts as 0.
pub open spec fn subprocess_failure(success: bool, code: Option<i32>) -> bool {
    !success && (match code {
        Some(c) => c,
        None => 0,
    }) != BUILD_FAILED_EXIT_CODE
}

/// Whether the subprocess failed for a reason of its own.
pub fn subprocess_failed(success: bool, code: Option<i32>) -> (r: bool)
    ensures
        r == subprocess_failure(success, code),
{
    let code: i32 = match code {
        Some(c) => c,
        None => 0,
    };
    !success && code != BUILD_FAILED_EXIT_CODE
}

} // verus!
