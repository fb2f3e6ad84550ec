//! Narrows build diagnostics down to those that fall on lines touched by a
//! pending change: a zero-context unified diff is read into per-file line
//! intervals, and each diagnostic is forwarded, counted or suppressed by its
//! severity and by whether one of its spans meets a changed interval.
//!
//! A run goes through three steps. [`parse_diff`] reads the diff into
//! [`FileChanges`]. A [`FilterEngine`] is started on them and consumes the
//! diagnostics one by one, each decoded by [`decode_diagnostic`] and judged
//! by [`classify`]. [`FilterEngine::finish`] says whether the run succeeded.

pub mod changes;
pub mod command;
pub mod decode;
pub mod diagnostics;
pub mod diff;
pub mod engine;
pub mod filter;
pub mod hunk;
pub mod intervals;
pub mod json;
pub mod text;

pub use crate::changes::FileChanges;
pub use crate::decode::{decode_diagnostic, DecodeError};
pub use crate::diagnostics::{Diagnostic, Level, Message, Span};
pub use crate::diff::{parse_diff, DiffParseError};
pub use crate::engine::{FilterEngine, RunResult};
pub use crate::filter::{classify, intersects, should_report_diagnostic, InvalidSpan, Verdict};
pub use crate::intervals::{intersect_intervals, LineInterval};
