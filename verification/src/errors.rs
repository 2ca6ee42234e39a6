use vstd::prelude::*;

verus! {

/// The ways parsing a type signature can fail.
///
/// The taxonomy is closed and flat: there are exactly these two kinds,
/// and a recursive parse of a generic argument propagates them unchanged.
#[derive(Clone, Copy, Debug, PartialEq, Eq)]
pub enum ParamParseError {
    /// The signature, or some component of its dotted path, is empty.
    Empty,
    /// The signature has an opening `<` but does not end with a closing `>`.
    BadGeneric,
}

} // verus!
