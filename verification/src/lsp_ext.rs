//! The non-standard `rust-analyzer/inlayHints` extension: hint kinds and the
//! anchoring rule that places a hint at one end of its range.

use crate::lsp::{Position, TextRange};
use vstd::prelude::*;

verus! {

/// The kinds of inlay hint the extension reports.
#[derive(Clone, Copy, Debug, PartialEq, Eq, Structural)]
pub enum InlayKind {
    TypeHint,
    ParameterHint,
    ChainingHint,
}

/// One inlay hint: a range, a kind, and the label to draw.
pub struct InlayHint {
    pub range: TextRange,
    pub kind: InlayKind,
    pub label: String,
}

/// The ghost shape of an inlay hint.
pub struct HintSpec {
    pub range: TextRange,
    pub kind: InlayKind,
    pub label: Seq<char>,
}

impl HintSpec {
    /// The anchoring rule, at the ghost level.
    pub open spec fn spec_anchor(self) -> Position {
        match self.kind {
            InlayKind::TypeHint => self.range.end,
            InlayKind::ParameterHint => self.range.start,
            InlayKind::ChainingHint => self.range.end,
        }
    }
}

impl View for InlayHint {
    type V = HintSpec;

    open spec fn view(&self) -> HintSpec {
        HintSpec { range: self.range, kind: self.kind, label: self.label@ }
    }
}

impl InlayHint {
    /// Where the hint is displayed: type and chaining hints hang off the end
    /// of their range, parameter hints off its start.
    pub open spec fn spec_anchor(self) -> Position {
        match self.kind {
            InlayKind::TypeHint => self.range.end,
            InlayKind::ParameterHint => self.range.start,
            InlayKind::ChainingHint => self.range.end,
        }
    }

    pub fn anchor(&self) -> (r: Position)
        ensures
            r == self.spec_anchor(),
    {
        match self.kind {
            InlayKind::TypeHint => self.range.end,
            InlayKind::ParameterHint => self.range.start,
            InlayKind::ChainingHint => self.range.end,
        }
    }
}

} // verus!
