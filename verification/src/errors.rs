//! The failure taxonomy of the library: a source can be structurally
//! malformed, violate the expected document shape, or reference an
//! abbreviation that no table entry defines.
use vstd::prelude::*;

verus! {

/// A typed failure raised while loading or feeding a source.
#[derive(Debug, Clone, PartialEq, Eq)]
pub enum XdxfError {
    /// The structural parser rejected the raw text.
    Malformed,
    /// The document violates the expected shape (wrong tag, wrong child
    /// count, missing extractable text). Carries a short description.
    Structure(String),
    /// An abbreviation reference has no matching table entry; carries the key.
    UndefinedAbbreviation(String),
}

/// The mathematical value of an `XdxfError`: the same variants over
/// character sequences.
pub ghost enum ErrView {
    Malformed,
    Structure(Seq<char>),
    UndefinedAbbreviation(Seq<char>),
}

impl View for XdxfError {
    type V = ErrView;

    open spec fn view(&self) -> ErrView {
        match self {
            XdxfError::Malformed => ErrView::Malformed,
            XdxfError::Structure(m) => ErrView::Structure(m@),
            XdxfError::UndefinedAbbreviation(k) => ErrView::UndefinedAbbreviation(k@),
        }
    }
}

/// Builds the structure-shaped error value from a description.
pub fn errio(text: &str) -> (r: XdxfError)
    ensures
        r@ == ErrView::Structure(text@),
{
    XdxfError::Structure(String::from_str(text))
}

/// Wraps a structure-shaped error as the failed arm of a result.
pub fn err<T>(text: &str) -> (r: Result<T, XdxfError>)
    ensures
        r matches Err(e) && e@ == ErrView::Structure(text@),
{
    Err(errio(text))
}

} // verus!
