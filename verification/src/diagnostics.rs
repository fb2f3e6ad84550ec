//! The record of one build diagnostic: a severity and the source spans that
//! the message points at.

use crate::text::text_equal;
use vstd::prelude::*;

verus! {

/// How severe a diagnostic is. From the most to the least severe: `Ice`,
/// `Error`, `Warning`, `Note`, `Help`; `Unknown` stands for any severity that
/// has no variant of its own.
#[derive(Clone, Copy, Debug, PartialEq, Eq, Structural)]
pub enum Level {
    /// An internal failure of the tool that reports.
    Ice,
    Error,
    Warning,
    Note,
    Help,
    Unknown,
}

/// The severity that a name stands for; `Unknown` for every name but the
/// five that are known.
pub open spec fn level_named(name: Seq<char>) -> Level {
    if name == "error"@ {
        Level::Error
    } else if name == "warning"@ {
        Level::Warning
    } else if name == "note"@ {
        Level::Note
    } else if name == "help"@ {
        Level::Help
    } else if name == "error: internal compiler error"@ {
        Level::Ice
    } else {
        Level::Unknown
    }
}

impl Level {
    /// Whether diagnostics of this severity are held to the changed lines
    /// and counted: errors and warnings are, nothing else is.
    pub open spec fn gates(self) -> bool {
        self == Level::Error || self == Level::Warning
    }

    /// The place of the severity in the order, 0 for `Unknown`.
    pub open spec fn rank_spec(self) -> u8 {
        match self {
            Level::Ice => 5,
            Level::Error => 4,
            Level::Warning => 3,
            Level::Note => 2,
            Level::Help => 1,
            Level::Unknown => 0,
        }
    }

    /// Whether diagnostics of this severity are held to the changed lines.
    pub fn is_gating(&self) -> (r: bool)
        ensures
            r == self.gates(),
    {
        match self {
            Level::Error => true,
            Level::Warning => true,
            _ => false,
        }
    }

    /// The place of the severity in the order: the more severe, the higher.
    pub fn rank(&self) -> (r: u8)
        ensures
            r == self.rank_spec(),
    {
        match self {
            Level::Ice => 5,
            Level::Error => 4,
            Level::Warning => 3,
            Level::Note => 2,
            Level::Help => 1,
            Level::Unknown => 0,
        }
    }

    /// The severity that `name` stands for. A name that is not known is no
    /// error: it gives `Unknown`.
    pub fn from_name(name: &str) -> (r: Level)
        ensures
            r == level_named(name@),
    {
        if text_equal(name, "error") {
            Level::Error
        } else if text_equal(name, "warning") {
            Level::Warning
        } else if text_equal(name, "note") {
            Level::Note
        } else if text_equal(name, "help") {
            Level::Help
        } else if text_equal(name, "error: internal compiler error") {
            Level::Ice
        } else {
            Level::Unknown
        }
    }
}

/// The lines `line_start..=line_end` of one file, counted from 1.
#[derive(Clone, Debug, PartialEq, Eq)]
pub struct Span {
    pub file_name: String,
    pub line_start: u32,
    pub line_end: u32,
}

/// A span as contracts see it.
pub struct SpanView {
    pub file_name: Seq<char>,
    pub line_start: u32,
    pub line_end: u32,
}

impl View for Span {
    type V = SpanView;

    open spec fn view(&self) -> SpanView {
        SpanView {
            file_name: self.file_name@,
            line_start: self.line_start,
            line_end: self.line_end,
        }
    }
}

/// The views of a list of spans, in order.
pub open spec fn spans_view(spans: Seq<Span>) -> Seq<SpanView> {
    Seq::new(spans.len(), |i: int| spans[i]@)
}

/// What a diagnostic says: here, only where it points.
#[derive(Clone, Debug, PartialEq, Eq)]
pub struct Message {
    pub spans: Vec<Span>,
}

/// A message as contracts see it.
pub struct MessageView {
    pub spans: Seq<SpanView>,
}

impl View for Message {
    type V = MessageView;

    open spec fn view(&self) -> MessageView {
        MessageView { spans: spans_view(self.spans@) }
    }
}

/// One record of the diagnostic stream. A record without a message is not a
/// diagnostic but a notice of the build's progress.
#[derive(Clone, Debug, PartialEq, Eq)]
pub struct Diagnostic {
    pub level: Level,
    pub message: Option<Message>,
}

/// A record as contracts see it.
pub struct DiagnosticView {
    pub level: Level,
    pub message: Option<MessageView>,
}

impl View for Diagnostic {
    type V = DiagnosticView;

    open spec fn view(&self) -> DiagnosticView {
        DiagnosticView {
            level: self.level,
            message: match self.message {
                Some(message) => Some(message@),
                None => None,
            },
        }
    }
}

/// Two severities with the same rank are the same severity.
pub proof fn lemma_rank_tells_levels_apart(a: Level, b: Level)
    requires
        a.rank_spec() == b.rank_spec(),
    ensures
        a == b,
{
}

} // verus!
