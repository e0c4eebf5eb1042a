//! The accessors: which references the generated struct lends out, field by
//! field and all at once, so that no borrow held inside it is ever broken.

use vstd::prelude::*;
use vstd::string::*;
use crate::fields::{FieldType, StructFieldInfo};
use crate::models::{models_of, lemma_models_push, lemma_models_empty};
use crate::names::affixed;

verus! {

/// What an accessor lends to its caller.
#[derive(Clone, Copy, PartialEq, Eq, Structural, Debug)]
pub enum Access {
    /// A shared reference to the field.
    Shared,
    /// A mutable reference to the field.
    Exclusive,
    /// A shared reference to what the field dereferences to.
    Contents,
}

/// An accessor of one field: it calls its argument with the reference and
/// returns what the call returns.
#[derive(PartialEq, Eq, Debug)]
pub struct UseFunction {
    pub name: String,
    pub field: usize,
    pub access: Access,
}

pub struct UseFunctionShape {
    pub name: Seq<char>,
    pub field: usize,
    pub access: Access,
}

impl View for UseFunction {
    type V = UseFunctionShape;

    open spec fn view(&self) -> UseFunctionShape {
        UseFunctionShape { name: self.name@, field: self.field, access: self.access }
    }
}

/// A field of one of the structs that lend all fields at once: a reference
/// to the field `field`, or to what it dereferences to.
#[derive(PartialEq, Eq, Debug)]
pub struct BorrowedField {
    pub name: String,
    pub field: usize,
    pub contents: bool,
}

pub struct BorrowedFieldShape {
    pub name: Seq<char>,
    pub field: usize,
    pub contents: bool,
}

impl View for BorrowedField {
    type V = BorrowedFieldShape;

    open spec fn view(&self) -> BorrowedFieldShape {
        BorrowedFieldShape { name: self.name@, field: self.field, contents: self.contents }
    }
}

/// One of the two structs that lend all fields at once, `BorrowedFields` with
/// shared references and `BorrowedMutFields` with mutable ones.
#[derive(PartialEq, Eq, Debug)]
pub struct BorrowedFieldsDef {
    /// The lifetimes of the loan and of the struct's own borrows, then the
    /// type arguments of the struct.
    pub generic_args: Vec<String>,
    pub fields: Vec<BorrowedField>,
}

pub open spec fn use_name_of(name: Seq<char>) -> Seq<char> {
    "use_"@ + name
}

pub open spec fn use_mut_name_of(name: Seq<char>) -> Seq<char> {
    "use_"@ + name + "_mut"@
}

pub open spec fn use_contents_name_of(name: Seq<char>) -> Seq<char> {
    "use_"@ + name + "_contents"@
}

pub open spec fn contents_name_of(name: Seq<char>) -> Seq<char> {
    name + "_contents"@
}

/// The accessors of the field `i`: shared and mutable for a tail field, of the
/// contents only for a field that is borrowed immutably, none for a field that
/// is borrowed mutably.
pub open spec fn field_users(fields: Seq<StructFieldInfo>, i: int) -> Seq<UseFunctionShape> {
    match fields[i].field_type {
        FieldType::Tail => seq![
            UseFunctionShape { name: use_name_of(fields[i].name@), field: i as usize, access: Access::Shared },
            UseFunctionShape {
                name: use_mut_name_of(fields[i].name@),
                field: i as usize,
                access: Access::Exclusive,
            },
        ],
        FieldType::Borrowed => seq![
            UseFunctionShape {
                name: use_contents_name_of(fields[i].name@),
                field: i as usize,
                access: Access::Contents,
            },
        ],
        FieldType::BorrowedMut => Seq::empty(),
    }
}

/// The accessors of the first `count` fields, field by field.
pub open spec fn users(fields: Seq<StructFieldInfo>, count: int) -> Seq<UseFunctionShape>
    decreases count,
{
    if count <= 0 {
        Seq::empty()
    } else {
        users(fields, count - 1) + field_users(fields, count - 1)
    }
}

/// What `BorrowedFields` holds of the field `i`.
pub open spec fn shared_field(fields: Seq<StructFieldInfo>, i: int) -> Seq<BorrowedFieldShape> {
    match fields[i].field_type {
        FieldType::Tail => seq![BorrowedFieldShape { name: fields[i].name@, field: i as usize, contents: false }],
        FieldType::Borrowed => seq![
            BorrowedFieldShape { name: contents_name_of(fields[i].name@), field: i as usize, contents: true },
        ],
        FieldType::BorrowedMut => Seq::empty(),
    }
}

/// What `BorrowedMutFields` holds of the field `i`.
pub open spec fn exclusive_field(fields: Seq<StructFieldInfo>, i: int) -> Seq<BorrowedFieldShape> {
    match fields[i].field_type {
        FieldType::Tail => seq![BorrowedFieldShape { name: fields[i].name@, field: i as usize, contents: false }],
        _ => Seq::empty(),
    }
}

/// The fields of `BorrowedFields` for the fields from `from` on, the last
/// declared first.
pub open spec fn shared_fields(fields: Seq<StructFieldInfo>, from: int) -> Seq<BorrowedFieldShape>
    decreases fields.len() - from,
{
    if from >= fields.len() {
        Seq::empty()
    } else {
        shared_fields(fields, from + 1) + shared_field(fields, from)
    }
}

/// The fields of `BorrowedMutFields` for the fields from `from` on, the last
/// declared first.
pub open spec fn exclusive_fields(fields: Seq<StructFieldInfo>, from: int) -> Seq<BorrowedFieldShape>
    decreases fields.len() - from,
{
    if from >= fields.len() {
        Seq::empty()
    } else {
        exclusive_fields(fields, from + 1) + exclusive_field(fields, from)
    }
}

/// The type arguments of the structs that lend all fields at once.
pub open spec fn borrowed_generic_args(generic_args: Seq<Seq<char>>) -> Seq<Seq<char>> {
    seq!["'outer_borrow"@, "'this"@] + generic_args
}

pub fn make_use_functions(field_info: &Vec<StructFieldInfo>) -> (out: Vec<UseFunction>)
    ensures
        models_of(out@) == users(field_info@, field_info@.len() as int),
{
    let mut out: Vec<UseFunction> = Vec::new();
    let ghost fields = field_info@;
    proof {
        lemma_models_empty::<UseFunction>();
    }
    let mut i: usize = 0;
    while i < field_info.len()
        invariant
            i <= fields.len(),
            fields == field_info@,
            models_of(out@) == users(fields, i as int),
        decreases fields.len() - i,
    {
        let field = &field_info[i];
        let ghost before = out@;
        // If the field is not a tail, we need to serve up the same kind of reference that other
        // fields in the struct may have borrowed to ensure safety.
        if field.field_type == FieldType::Tail {
            let user = UseFunction {
                name: affixed("use_", field.name.as_str(), ""),
                field: i,
                access: Access::Shared,
            };
            proof {
                reveal_strlit("");
                assert("use_"@ + field.name@ + ""@ =~= "use_"@ + field.name@);
                lemma_models_push(out@, user);
            }
            out.push(user);
            // If it is not borrowed at all it's safe to allow mutably borrowing it.
            let user = UseFunction {
                name: affixed("use_", field.name.as_str(), "_mut"),
                field: i,
                access: Access::Exclusive,
            };
            proof {
                lemma_models_push(out@, user);
            }
            out.push(user);
        } else if field.field_type == FieldType::Borrowed {
            let user = UseFunction {
                name: affixed("use_", field.name.as_str(), "_contents"),
                field: i,
                access: Access::Contents,
            };
            proof {
                lemma_models_push(out@, user);
            }
            out.push(user);
        }
        // If it is borrowed mutably once, no other kind of reference to it may be had.
        proof {
            assert(models_of(out@) =~= models_of(before) + field_users(fields, i as int));
        }
        i += 1;
    }
    out
}

fn borrowed_struct_generic_args(generic_args: &Vec<String>) -> (out: Vec<String>)
    ensures
        models_of(out@) == borrowed_generic_args(models_of(generic_args@)),
{
    let mut out: Vec<String> = Vec::new();
    out.push(String::from_str("'outer_borrow"));
    out.push(String::from_str("'this"));
    assert(models_of(out@) =~= seq!["'outer_borrow"@, "'this"@]);
    let mut i: usize = 0;
    while i < generic_args.len()
        invariant
            i <= generic_args@.len(),
            models_of(out@) == borrowed_generic_args(models_of(generic_args@.take(i as int))),
        decreases generic_args@.len() - i,
    {
        let name = generic_args[i].clone();
        proof {
            lemma_models_push(out@, name);
            lemma_models_push(generic_args@.take(i as int), generic_args@[i as int]);
            assert(generic_args@.take(i + 1) =~= generic_args@.take(i as int).push(generic_args@[i as int]));
            assert(borrowed_generic_args(models_of(generic_args@.take(i as int))).push(name@)
                =~= borrowed_generic_args(models_of(generic_args@.take(i as int)).push(name@)));
        }
        out.push(name);
        i += 1;
    }
    assert(generic_args@.take(i as int) =~= generic_args@);
    out
}

/// The structs `BorrowedFields` and `BorrowedMutFields`, which `use_all_fields`
/// and `use_all_fields_mut` hand to their argument: a shared reference to every
/// tail field and to the contents of every field that is borrowed immutably;
/// a mutable reference to every tail field.
pub fn make_use_all_function(field_info: &Vec<StructFieldInfo>, generic_args: &Vec<String>) -> (defs: (
    BorrowedFieldsDef,
    BorrowedFieldsDef,
))
    ensures
        models_of(defs.0.fields@) == shared_fields(field_info@, 0),
        models_of(defs.1.fields@) == exclusive_fields(field_info@, 0),
        models_of(defs.0.generic_args@) == borrowed_generic_args(models_of(generic_args@)),
        models_of(defs.1.generic_args@) == borrowed_generic_args(models_of(generic_args@)),
{
    let mut fields: Vec<BorrowedField> = Vec::new();
    let mut mut_fields: Vec<BorrowedField> = Vec::new();
    let ghost catalogue = field_info@;
    proof {
        lemma_models_empty::<BorrowedField>();
    }
    let mut i: usize = field_info.len();
    while i > 0
        invariant
            i <= catalogue.len(),
            catalogue == field_info@,
            models_of(fields@) == shared_fields(catalogue, i as int),
            models_of(mut_fields@) == exclusive_fields(catalogue, i as int),
        decreases i,
    {
        i -= 1;
        let field = &field_info[i];
        let ghost fields_before = fields@;
        let ghost mut_fields_before = mut_fields@;
        if field.field_type == FieldType::Tail {
            let shared = BorrowedField { name: field.name.clone(), field: i, contents: false };
            let exclusive = BorrowedField { name: field.name.clone(), field: i, contents: false };
            proof {
                lemma_models_push(fields@, shared);
                lemma_models_push(mut_fields@, exclusive);
            }
            fields.push(shared);
            mut_fields.push(exclusive);
        } else if field.field_type == FieldType::Borrowed {
            let shared = BorrowedField {
                name: affixed("", field.name.as_str(), "_contents"),
                field: i,
                contents: true,
            };
            proof {
                reveal_strlit("");
                assert(""@ + field.name@ + "_contents"@ =~= field.name@ + "_contents"@);
                lemma_models_push(fields@, shared);
            }
            fields.push(shared);
        }
        // Nothing for a field that is borrowed mutably: it cannot be borrowed again.
        proof {
            assert(models_of(fields@) =~= models_of(fields_before) + shared_field(catalogue, i as int));
            assert(models_of(mut_fields@) =~= models_of(mut_fields_before) + exclusive_field(
                catalogue,
                i as int,
            ));
        }
    }
    (
        BorrowedFieldsDef { generic_args: borrowed_struct_generic_args(generic_args), fields },
        BorrowedFieldsDef { generic_args: borrowed_struct_generic_args(generic_args), fields: mut_fields },
    )
}

} // verus!
