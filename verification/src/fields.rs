//! The field catalogue: one descriptor per declared field, with the borrows it
//! asks for and the role that the borrows of later fields give it.

use vstd::prelude::*;
use vstd::string::*;
use crate::tokens::TokenTree;

verus! {

/// How a field is used by the fields declared after it.
#[derive(Clone, Copy, PartialEq, Eq, Structural, Debug)]
pub enum FieldType {
    /// Not borrowed by other parts of the struct.
    Tail,
    /// Immutably borrowed by at least one other field.
    Borrowed,
    /// Mutably borrowed by one other field.
    BorrowedMut,
}

impl FieldType {
    pub fn is_tail(self) -> (tail: bool)
        ensures
            tail == (self == FieldType::Tail),
    {
        self == FieldType::Tail
    }
}

/// A borrow that a field asks for: the declaration index of the field it
/// borrows from, and whether the borrow is mutable.
#[derive(Clone, Copy, PartialEq, Eq, Structural, Debug)]
pub struct BorrowRequest {
    pub index: usize,
    pub mutable: bool,
}

/// One field of the struct. A catalogue is a `Vec` of these in declaration
/// order, and every index in the crate is a position in that order.
#[derive(PartialEq, Eq, Debug)]
pub struct StructFieldInfo {
    pub name: String,
    pub typ: Vec<TokenTree>,
    pub field_type: FieldType,
    pub borrows: Vec<BorrowRequest>,
}

/// The name of the constructor parameter that builds the field `name`.
pub open spec fn builder_name_of(name: Seq<char>) -> Seq<char> {
    name + "_builder"@
}

/// The name of the local that holds the reference into the field `name`
/// while the fields after it are built.
pub open spec fn illegal_ref_name_of(name: Seq<char>) -> Seq<char> {
    name + "_illegal_static_reference"@
}

impl StructFieldInfo {
    /// A head borrows nothing: its value is handed to the constructor as it is.
    pub open spec fn is_head(&self) -> bool {
        self.borrows@.len() == 0
    }

    pub fn builder_name(&self) -> (name: String)
        ensures
            name@ == builder_name_of(self.name@),
    {
        let mut name = self.name.clone();
        name.append("_builder");
        name
    }

    pub fn illegal_ref_name(&self) -> (name: String)
        ensures
            name@ == illegal_ref_name_of(self.name@),
    {
        let mut name = self.name.clone();
        name.append("_illegal_static_reference");
        name
    }
}

/// The requests of each field of a catalogue, field by field.
pub open spec fn requests_of(fields: Seq<StructFieldInfo>) -> Seq<Seq<BorrowRequest>> {
    Seq::new(fields.len(), |i: int| fields[i].borrows@)
}

/// The role of each field of a catalogue.
pub open spec fn roles_of(fields: Seq<StructFieldInfo>) -> Seq<FieldType> {
    Seq::new(fields.len(), |i: int| fields[i].field_type)
}

/// Every request names a field of the catalogue.
pub open spec fn requests_in_range(fields: Seq<StructFieldInfo>) -> bool {
    forall|i: int, j: int|
        0 <= i < fields.len() && 0 <= j < fields[i].borrows@.len() ==> (#[trigger] fields[i].borrows@[j]).index
            < fields.len()
}

/// `fields` with the roles `roles` in place of their own.
pub open spec fn with_roles(fields: Seq<StructFieldInfo>, roles: Seq<FieldType>) -> Seq<StructFieldInfo> {
    Seq::new(
        fields.len(),
        |i: int|
            StructFieldInfo {
                name: fields[i].name,
                typ: fields[i].typ,
                field_type: roles[i],
                borrows: fields[i].borrows,
            },
    )
}

} // verus!
