//! The fatal errors that abort a translation, each carrying the offending
//! source text.

use vstd::prelude::*;

verus! {

/// A fatal translation error.  Every error aborts the whole run; no partial
/// output is produced.
#[derive(Debug)]
pub enum AsmError {
    /// A line opening with `(` that does not close with `)`.
    MalformedLabel(String),
    /// An address instruction that is a bare `@` with no token after it.
    MalformedAddress(String),
    /// A label name bound twice (or colliding with a predefined symbol).
    DuplicateLabel(String),
    /// A destination field that matches none of the fixed mnemonics.
    UnknownDest(String),
    /// A computation field that matches none of the fixed mnemonics.
    UnknownComp(String),
    /// A jump field that matches none of the fixed mnemonics.
    UnknownJump(String),
}

/// The mathematical image of an `AsmError`: the same variant over the view
/// of the offending text.
pub enum ErrView {
    MalformedLabel(Seq<char>),
    MalformedAddress(Seq<char>),
    DuplicateLabel(Seq<char>),
    UnknownDest(Seq<char>),
    UnknownComp(Seq<char>),
    UnknownJump(Seq<char>),
}

impl View for AsmError {
    type V = ErrView;

    open spec fn view(&self) -> ErrView {
        match self {
            AsmError::MalformedLabel(t) => ErrView::MalformedLabel(t@),
            AsmError::MalformedAddress(t) => ErrView::MalformedAddress(t@),
            AsmError::DuplicateLabel(t) => ErrView::DuplicateLabel(t@),
            AsmError::UnknownDest(t) => ErrView::UnknownDest(t@),
            AsmError::UnknownComp(t) => ErrView::UnknownComp(t@),
            AsmError::UnknownJump(t) => ErrView::UnknownJump(t@),
        }
    }
}

impl AsmError {
    /// The offending source text that the error names.
    pub fn offending_text(&self) -> (r: &String)
        ensures
            r@ == match self@ {
                ErrView::MalformedLabel(t) => t,
                ErrView::MalformedAddress(t) => t,
                ErrView::DuplicateLabel(t) => t,
                ErrView::UnknownDest(t) => t,
                ErrView::UnknownComp(t) => t,
                ErrView::UnknownJump(t) => t,
            },
    {
        match self {
            AsmError::MalformedLabel(t) => t,
            AsmError::MalformedAddress(t) => t,
            AsmError::DuplicateLabel(t) => t,
            AsmError::UnknownDest(t) => t,
            AsmError::UnknownComp(t) => t,
            AsmError::UnknownJump(t) => t,
        }
    }
}

} // verus!
