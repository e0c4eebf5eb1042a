//! Synthesis of self-referencing structs: from a list of fields, some of which
//! borrow from fields declared before them, to the storage layout, the
//! constructors, the builders, the accessors and the heads of the generated type.

use vstd::prelude::*;
use vstd::string::*;
use crate::accessors::{
    BorrowedFieldsDef, UseFunction, borrowed_generic_args, exclusive_fields, make_use_all_function,
    make_use_functions, shared_fields, users,
};
use crate::constructor::{
    BuilderDef, ConstructorDef, ReturnShape, TryConstructorDef, builder_for, constructor_for,
    create_builder_and_constructor, create_try_builder_and_constructor, heads_of,
};
use crate::error::Error;
use crate::fields::StructFieldInfo;
use crate::generics::{GenericParam, first_const, generic_arguments, make_generic_arguments};
use crate::heads::{IntoHeadsDef, heads_from, make_into_heads, teardown};
use crate::layout::{Fields, StorageField, catalogue_for, catalogue_of, create_actual_struct, storage_for};
use crate::models::models_of;
use crate::names::{affixed, module_name, module_name_of};
use crate::roles::{valid_catalogue, valid_catalogue_in_range};

pub mod accessors;
pub mod borrows;
pub mod construction;
pub mod constructor;
pub mod error;
pub mod fields;
pub mod generics;
pub mod heads;
pub mod layout;
pub mod models;
pub mod names;
pub mod roles;
pub mod tokens;

verus! {

/// A struct declaration: its name, its generic parameters and its fields.
#[derive(PartialEq, Eq, Debug)]
pub struct ItemStruct {
    pub ident: String,
    pub generics: Vec<GenericParam>,
    pub fields: Fields,
}

/// All that is generated for a struct.
#[derive(PartialEq, Eq, Debug)]
pub struct Expansion {
    /// The module that holds the generated items.
    pub mod_name: String,
    pub builder_struct_name: String,
    pub try_builder_struct_name: String,
    /// The fields in the order in which they are stored.
    pub actual_struct: Vec<StorageField>,
    /// The catalogue, in declaration order.
    pub field_info: Vec<StructFieldInfo>,
    pub generic_args: Vec<String>,
    pub builder_def: BuilderDef,
    pub constructor_def: ConstructorDef,
    pub try_builder_def: BuilderDef,
    pub try_constructor_def: TryConstructorDef,
    pub users: Vec<UseFunction>,
    pub borrowed_fields: BorrowedFieldsDef,
    pub borrowed_mut_fields: BorrowedFieldsDef,
    pub heads: IntoHeadsDef,
}

/// `expansion` is what is generated for `item`, whose fields have the roles
/// and the requests `collected`.
pub open spec fn expansion_for(expansion: Expansion, item: ItemStruct, collected: crate::layout::Collected) -> bool {
    let declared = item.fields->Named_0@;
    let fields = expansion.field_info@;
    let count = fields.len() as int;
    let generic_args = generic_arguments(item.generics@);
    &&& expansion.mod_name@ == module_name_of(item.ident@)
    &&& expansion.builder_struct_name@ == item.ident@ + "Builder"@
    &&& expansion.try_builder_struct_name@ == item.ident@ + "TryBuilder"@
    &&& storage_for(expansion.actual_struct@, declared)
    &&& catalogue_for(fields, declared, collected)
    &&& valid_catalogue(fields)
    &&& models_of(expansion.generic_args@) == generic_args
    &&& builder_for(expansion.builder_def, fields, generic_args, Seq::empty())
    &&& constructor_for(
        expansion.constructor_def.params@,
        expansion.constructor_def.code@,
        expansion.constructor_def.field_names@,
        fields,
        ReturnShape::Value,
    )
    &&& builder_for(expansion.try_builder_def, fields, generic_args, seq!["Error_"@])
    &&& constructor_for(
        expansion.try_constructor_def.params@,
        expansion.try_constructor_def.code@,
        expansion.try_constructor_def.field_names@,
        fields,
        ReturnShape::Fallible,
    )
    &&& expansion.try_constructor_def.head_field_names@ == heads_of(fields, count)
    &&& models_of(expansion.users@) == users(fields, count)
    &&& models_of(expansion.borrowed_fields.fields@) == shared_fields(fields, 0)
    &&& models_of(expansion.borrowed_mut_fields.fields@) == exclusive_fields(fields, 0)
    &&& models_of(expansion.borrowed_fields.generic_args@) == borrowed_generic_args(generic_args)
    &&& models_of(expansion.borrowed_mut_fields.generic_args@) == borrowed_generic_args(generic_args)
    &&& expansion.heads.code@ == teardown(fields, 0)
    &&& expansion.heads.field_names@ == heads_from(fields, 0)
}

/// Generates, for a struct whose fields borrow from one another, the struct
/// that stores the data, its builders and constructors, its accessors and
/// its heads. The struct is refused for its fields first, then for its
/// generic parameters.
pub fn self_referencing(item: &ItemStruct) -> (result: Result<Expansion, Error>)
    ensures
        match catalogue_of(item.fields) {
            Err(e) => result == Err::<Expansion, Error>(e),
            Ok(collected) => match first_const(item.generics@, item.generics@.len() as int) {
                Some(position) => result == Err::<Expansion, Error>(
                    Error::ConstGeneric { position: position as usize },
                ),
                None => result is Ok && expansion_for(result->Ok_0, *item, collected),
            },
        },
{
    let mod_name = module_name(item.ident.as_str());
    let (actual_struct, field_info) = match create_actual_struct(&item.fields) {
        Ok(parts) => parts,
        Err(e) => {
            return Err(e);
        },
    };
    let generic_args = match make_generic_arguments(&item.generics) {
        Ok(arguments) => arguments,
        Err(e) => {
            return Err(e);
        },
    };
    proof {
        assert(field_info.len() <= usize::MAX);
        valid_catalogue_in_range(field_info@);
        reveal_strlit("");
    }
    let builder_struct_name = affixed("", item.ident.as_str(), "Builder");
    let try_builder_struct_name = affixed("", item.ident.as_str(), "TryBuilder");
    assert(""@ + item.ident@ + "Builder"@ =~= item.ident@ + "Builder"@);
    assert(""@ + item.ident@ + "TryBuilder"@ =~= item.ident@ + "TryBuilder"@);
    let (builder_def, constructor_def) = create_builder_and_constructor(&generic_args, &field_info);
    let (try_builder_def, try_constructor_def) = create_try_builder_and_constructor(&generic_args, &field_info);
    let users = make_use_functions(&field_info);
    let (borrowed_fields, borrowed_mut_fields) = make_use_all_function(&field_info, &generic_args);
    let heads = make_into_heads(&field_info);
    Ok(
        Expansion {
            mod_name,
            builder_struct_name,
            try_builder_struct_name,
            actual_struct,
            field_info,
            generic_args,
            builder_def,
            constructor_def,
            try_builder_def,
            try_constructor_def,
            users,
            borrowed_fields,
            borrowed_mut_fields,
            heads,
        },
    )
}

} // verus!
