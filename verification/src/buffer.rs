//! Plain document-side types: cursor and selection, editing actions, anchors
//! for virtual text, and the diagnostics attached to a document.  The text
//! buffer itself (a rope) is a collaborator outside this crate; these types
//! carry what the protocol layer reads and writes of it.

use vstd::prelude::*;

verus! {

/// A character index into a document.
pub type Index = usize;

/// A half-open character range `(start, end)`.
pub type Bounds = (Index, Index);

/// Where a piece of virtual text is anchored.
pub enum Handle {
    LineStart(usize),
    LineEnd(usize),
    Char(Index),
}

/// A cursor with a selection: `head` moves, `tail` stays.
#[derive(Clone, Copy, Debug, PartialEq, Eq, Structural)]
pub struct Cursor {
    pub head: Index,
    pub tail: Index,
}

impl Cursor {
    /// The lower end of the selection.
    pub fn min(&self) -> (r: Index)
        ensures
            r == if self.head <= self.tail {
                self.head
            } else {
                self.tail
            },
    {
        if self.head <= self.tail {
            self.head
        } else {
            self.tail
        }
    }

    /// The upper end of the selection.
    pub fn max(&self) -> (r: Index)
        ensures
            r == if self.head >= self.tail {
                self.head
            } else {
                self.tail
            },
    {
        if self.head >= self.tail {
            self.head
        } else {
            self.tail
        }
    }

    /// Whether the selection is empty.
    pub fn same(&self) -> (r: bool)
        ensures
            r == (self.head == self.tail),
    {
        self.head == self.tail
    }
}

/// A cursor movement the editor can ask for.
pub enum Movement {
    Up,
    Down,
    Left,
    Right,
    Index(Index),
}

/// An editing action the editor can ask for.
pub enum Action {
    Insert(String),
    Backspace,
    Delete,
}

/// How severe a diagnostic is; the wire carries 1 for `Error` through 4 for
/// `Hint`, and a diagnostic without a severity counts as an error.
#[derive(Clone, Copy, Debug, PartialEq, Eq, Structural)]
pub enum Severity {
    Error,
    Warning,
    Information,
    Hint,
}

impl Severity {
    /// The numeric code used on the wire.
    pub open spec fn spec_code(self) -> u64 {
        match self {
            Severity::Error => 1,
            Severity::Warning => 2,
            Severity::Information => 3,
            Severity::Hint => 4,
        }
    }

    /// The severity a wire code denotes.
    pub open spec fn spec_of_code(code: u64) -> Option<Severity> {
        if code == 1 {
            Some(Severity::Error)
        } else if code == 2 {
            Some(Severity::Warning)
        } else if code == 3 {
            Some(Severity::Information)
        } else if code == 4 {
            Some(Severity::Hint)
        } else {
            None
        }
    }

    pub fn of_code(code: u64) -> (r: Option<Severity>)
        ensures
            r == Severity::spec_of_code(code),
    {
        if code == 1 {
            Some(Severity::Error)
        } else if code == 2 {
            Some(Severity::Warning)
        } else if code == 3 {
            Some(Severity::Information)
        } else if code == 4 {
            Some(Severity::Hint)
        } else {
            None
        }
    }
}

/// One diagnostic attached to a document.
pub struct Diagnostic {
    pub range: crate::lsp::TextRange,
    pub severity: Severity,
    pub message: String,
}

/// The ghost shape of an attached diagnostic.
pub struct DiagnosticSpec {
    pub range: crate::lsp::TextRange,
    pub severity: Severity,
    pub message: Seq<char>,
}

impl View for Diagnostic {
    type V = DiagnosticSpec;

    open spec fn view(&self) -> DiagnosticSpec {
        DiagnosticSpec { range: self.range, severity: self.severity, message: self.message@ }
    }
}

} // verus!
