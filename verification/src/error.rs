//! Why a struct is refused.

use vstd::prelude::*;
use crate::borrows::BorrowsError;

verus! {

/// Why a struct is refused.
#[derive(Clone, Copy, PartialEq, Eq, Structural, Debug)]
pub enum Error {
    /// Tuple structs are not supported.
    TupleStruct,
    /// Unit structs cannot be self-referential.
    UnitStruct,
    /// The attribute `borrows(..)` of the field `field`, which stands at
    /// `attr` among the field's attributes, is refused.
    Borrows { field: usize, attr: usize, error: BorrowsError },
    /// Self-referencing structs must have at least 2 fields.
    TooFewFields,
    /// No field borrows another.
    NothingBorrowed,
    /// The generic parameter at `position` is a constant.
    ConstGeneric { position: usize },
}

} // verus!
