use ouroboros_macro::accessors::{Access, BorrowedField, UseFunction};
use ouroboros_macro::borrows::{Attribute, BorrowsError};
use ouroboros_macro::construction::{
    build, new, try_build, try_build_or_recover, try_new, try_new_or_recover, Argument, Construction, Run,
};
use ouroboros_macro::constructor::{
    create_builder_and_constructor, create_try_builder_and_constructor, ArgType, ConstructorDef, Param, Statement,
    TryConstructorDef,
};
use ouroboros_macro::error::Error;
use ouroboros_macro::fields::{BorrowRequest, FieldType, StructFieldInfo};
use ouroboros_macro::generics::GenericParam;
use ouroboros_macro::heads::{into_heads, make_into_heads, HeadStep, Heads, IntoHeadsDef};
use ouroboros_macro::layout::{Field, Fields};
use ouroboros_macro::tokens::{Delimiter, TokenTree};
use ouroboros_macro::{self_referencing, ItemStruct};

fn ident(text: &str) -> TokenTree {
    TokenTree::Ident(text.to_string())
}

fn info(name: &str, field_type: FieldType, borrows: Vec<BorrowRequest>) -> StructFieldInfo {
    StructFieldInfo { name: name.to_string(), typ: vec![ident("i32")], field_type, borrows }
}

fn request(index: usize, mutable: bool) -> BorrowRequest {
    BorrowRequest { index, mutable }
}

fn borrows(inner: Vec<TokenTree>) -> Attribute {
    Attribute {
        leading_colon: false,
        segments: vec!["borrows".to_string()],
        tokens: vec![TokenTree::Group(Delimiter::Parenthesis, inner)],
    }
}

/// `a: i32`, `b: i32`, `c: &mut i32` that borrows `a` mutably.
fn a_b_c() -> Vec<StructFieldInfo> {
    vec![
        info("a", FieldType::BorrowedMut, vec![]),
        info("b", FieldType::Tail, vec![]),
        info("c", FieldType::Tail, vec![request(0, true)]),
    ]
}

/// `a`, then `c` that borrows `a`, then `b`, then `d` that borrows `c` and `b`.
fn a_c_b_d() -> Vec<StructFieldInfo> {
    vec![
        info("a", FieldType::Borrowed, vec![]),
        info("c", FieldType::Borrowed, vec![request(0, false)]),
        info("b", FieldType::Borrowed, vec![]),
        info("d", FieldType::Tail, vec![request(1, false), request(2, false)]),
    ]
}

fn try_constructor(fields: &Vec<StructFieldInfo>) -> TryConstructorDef {
    create_try_builder_and_constructor(&vec![], fields).1
}

#[test]
fn new_calls_every_builder_in_turn() {
    let (_, constructor) = create_builder_and_constructor(&vec![], &a_c_b_d());
    let args = vec![Argument::Value(1), Argument::Builder(Ok(10)), Argument::Value(2), Argument::Builder(Ok(20))];
    assert_eq!(
        new(&constructor, &args),
        Some(Run { called: vec![1, 3], result: Construction::Built(vec![1, 10, 2, 20]) })
    );
}

#[test]
fn new_has_no_builder_that_fails() {
    let (_, constructor) = create_builder_and_constructor(&vec![], &a_b_c());
    let args = vec![Argument::Value(1), Argument::Value(2), Argument::Builder(Err(7))];
    assert_eq!(new(&constructor, &args), None);
}

#[test]
fn a_constructor_takes_what_its_parameters_ask_for() {
    let constructor = try_constructor(&a_b_c());
    // Too few arguments, a builder for a head, a value for a field that borrows.
    assert_eq!(try_new(&constructor, &vec![Argument::Value(1), Argument::Value(2)]), None);
    assert_eq!(
        try_new(&constructor, &vec![Argument::Builder(Ok(1)), Argument::Value(2), Argument::Builder(Ok(3))]),
        None
    );
    assert_eq!(try_new(&constructor, &vec![Argument::Value(1), Argument::Value(2), Argument::Value(3)]), None);
}

#[test]
fn try_new_builds_where_no_builder_fails() {
    let constructor = try_constructor(&a_b_c());
    let args = vec![Argument::Value(1), Argument::Value(2), Argument::Builder(Ok(3))];
    let built = Some(Run { called: vec![2], result: Construction::Built(vec![1, 2, 3]) });
    assert_eq!(try_new(&constructor, &args), built);
    assert_eq!(try_new_or_recover(&constructor, &args), built);
}

#[test]
fn try_new_hands_back_the_error_alone() {
    let constructor = try_constructor(&a_b_c());
    let args = vec![Argument::Value(1), Argument::Value(2), Argument::Builder(Err(-5))];
    assert_eq!(
        try_new(&constructor, &args),
        Some(Run { called: vec![2], result: Construction::Failed { field: 2, error: -5, heads: vec![] } })
    );
}

#[test]
fn try_new_or_recover_hands_back_the_heads() {
    // `c` is never bound: its builder fails, and `a` and `b` come back as they were.
    let constructor = try_constructor(&a_b_c());
    let args = vec![Argument::Value(1), Argument::Value(2), Argument::Builder(Err(-5))];
    assert_eq!(
        try_new_or_recover(&constructor, &args),
        Some(Run { called: vec![2], result: Construction::Failed { field: 2, error: -5, heads: vec![1, 2] } })
    );
}

#[test]
fn no_builder_is_called_after_one_that_fails() {
    let constructor = try_constructor(&a_c_b_d());
    let args = vec![Argument::Value(1), Argument::Builder(Err(9)), Argument::Value(2), Argument::Builder(Ok(20))];
    assert_eq!(
        try_new_or_recover(&constructor, &args),
        Some(Run { called: vec![1], result: Construction::Failed { field: 1, error: 9, heads: vec![1, 2] } })
    );
    // The second of two builders that fail is never called.
    let args = vec![Argument::Value(1), Argument::Builder(Err(9)), Argument::Value(2), Argument::Builder(Err(8))];
    assert_eq!(
        try_new(&constructor, &args),
        Some(Run { called: vec![1], result: Construction::Failed { field: 1, error: 9, heads: vec![] } })
    );
    // The builders before the one that fails were called.
    let args = vec![Argument::Value(1), Argument::Builder(Ok(10)), Argument::Value(2), Argument::Builder(Err(8))];
    assert_eq!(
        try_new_or_recover(&constructor, &args),
        Some(Run { called: vec![1, 3], result: Construction::Failed { field: 3, error: 8, heads: vec![1, 2] } })
    );
}

#[test]
fn a_builder_needs_its_references() {
    // The reference into `a` is not taken before the builder of `c` is called.
    let mut constructor = try_constructor(&a_b_c());
    assert_eq!(
        constructor.code,
        vec![Statement::Reference { field: 0, mutable: true }, Statement::Build { field: 2, mutable: false, args: vec![0] }]
    );
    constructor.code.swap(0, 1);
    let args = vec![Argument::Value(1), Argument::Value(2), Argument::Builder(Ok(3))];
    assert_eq!(try_new(&constructor, &args), None);
}

#[test]
fn a_reference_needs_a_bound_field() {
    let constructor = ConstructorDef {
        params: vec![
            Param { field: 0, mutable: false, arg: ArgType::Plain },
            Param {
                field: 1,
                mutable: false,
                arg: create_builder_and_constructor(&vec![], &a_c_b_d()).1.params.remove(1).arg,
            },
        ],
        code: vec![
            Statement::Reference { field: 1, mutable: false },
            Statement::Build { field: 1, mutable: false, args: vec![] },
        ],
        field_names: vec![0, 1],
    };
    assert_eq!(new(&constructor, &vec![Argument::Value(1), Argument::Builder(Ok(2))]), None);
}

#[test]
fn every_field_is_built_before_the_struct_is() {
    let mut constructor = try_constructor(&a_b_c());
    constructor.code.pop();
    let args = vec![Argument::Value(1), Argument::Value(2), Argument::Builder(Ok(3))];
    assert_eq!(try_new(&constructor, &args), None);
}

#[test]
fn build_is_the_call_of_new() {
    let fields = a_c_b_d();
    let (builder, constructor) = create_builder_and_constructor(&vec![], &fields);
    let values = vec![Argument::Value(1), Argument::Builder(Ok(10)), Argument::Value(2), Argument::Builder(Ok(20))];
    assert_eq!(build(&builder, &constructor, &values), new(&constructor, &values));
    assert_eq!(
        build(&builder, &constructor, &values),
        Some(Run { called: vec![1, 3], result: Construction::Built(vec![1, 10, 2, 20]) })
    );
    assert_eq!(build(&builder, &constructor, &vec![Argument::Value(1)]), None);
}

#[test]
fn try_build_is_the_call_of_try_new() {
    let fields = a_c_b_d();
    let (builder, constructor) = create_try_builder_and_constructor(&vec![], &fields);
    let values = vec![Argument::Value(1), Argument::Builder(Ok(10)), Argument::Value(2), Argument::Builder(Err(4))];
    assert_eq!(try_build(&builder, &constructor, &values), try_new(&constructor, &values));
    assert_eq!(
        try_build_or_recover(&builder, &constructor, &values),
        try_new_or_recover(&constructor, &values)
    );
    assert_eq!(
        try_build_or_recover(&builder, &constructor, &values),
        Some(Run { called: vec![1, 3], result: Construction::Failed { field: 3, error: 4, heads: vec![1, 2] } })
    );
}

#[test]
fn into_heads_hands_back_the_heads_as_they_were() {
    let def = make_into_heads(&a_c_b_d());
    assert_eq!(def.field_names, vec![2, 0]);
    assert_eq!(
        into_heads(&def, &vec![1, 10, 2, 20]),
        Some(Heads { dropped: vec![3, 1], values: vec![2, 1] })
    );
}

#[test]
fn into_heads_takes_each_field_once() {
    let def = IntoHeadsDef { code: vec![HeadStep::Take(0), HeadStep::Drop(0)], field_names: vec![0] };
    assert_eq!(into_heads(&def, &vec![5]), None);
    // A field is left in the struct.
    let def = IntoHeadsDef { code: vec![HeadStep::Take(0)], field_names: vec![0] };
    assert_eq!(into_heads(&def, &vec![5, 6]), None);
    // A field of the heads was dropped.
    let def = IntoHeadsDef { code: vec![HeadStep::Drop(1), HeadStep::Drop(0)], field_names: vec![0] };
    assert_eq!(into_heads(&def, &vec![5, 6]), None);
    // No such field.
    let def = IntoHeadsDef { code: vec![HeadStep::Drop(2)], field_names: vec![] };
    assert_eq!(into_heads(&def, &vec![5, 6]), None);
}

fn owner_and_view() -> ItemStruct {
    ItemStruct {
        ident: "BufferView".to_string(),
        generics: vec![],
        fields: Fields::Named(vec![
            Field { attrs: vec![], name: "owner".to_string(), typ: vec![ident("OwnedBuffer")] },
            Field {
                attrs: vec![borrows(vec![ident("owner")])],
                name: "view".to_string(),
                typ: vec![
                    ident("BorrowedSlice"),
                    TokenTree::Punct('<', false),
                    TokenTree::Punct('\'', true),
                    ident("this"),
                    TokenTree::Punct('>', false),
                ],
            },
        ]),
    }
}

#[test]
fn a_view_into_an_owned_buffer() {
    let expansion = self_referencing(&owner_and_view()).unwrap();
    assert_eq!(expansion.mod_name, "ouroboros_impl_buffer_view");
    assert_eq!(expansion.builder_struct_name, "BufferViewBuilder");
    assert_eq!(expansion.try_builder_struct_name, "BufferViewTryBuilder");
    let roles: Vec<FieldType> = expansion.field_info.iter().map(|field| field.field_type).collect();
    assert_eq!(roles, vec![FieldType::Borrowed, FieldType::Tail]);
    // The owner lends its contents only; the view is lent as it is, mutably too.
    assert_eq!(
        expansion.users,
        vec![
            UseFunction { name: "use_owner_contents".to_string(), field: 0, access: Access::Contents },
            UseFunction { name: "use_view".to_string(), field: 1, access: Access::Shared },
            UseFunction { name: "use_view_mut".to_string(), field: 1, access: Access::Exclusive },
        ]
    );
    assert_eq!(
        expansion.borrowed_fields.fields,
        vec![
            BorrowedField { name: "view".to_string(), field: 1, contents: false },
            BorrowedField { name: "owner_contents".to_string(), field: 0, contents: true },
        ]
    );
    assert_eq!(
        expansion.borrowed_mut_fields.fields,
        vec![BorrowedField { name: "view".to_string(), field: 1, contents: false }]
    );
    assert_eq!(expansion.actual_struct.iter().map(|s| s.field).collect::<Vec<_>>(), vec![1, 0]);
    assert_eq!(expansion.actual_struct[0].typ[3], ident("static"));
    assert_eq!(expansion.field_info[1].typ[3], ident("this"));
    assert_eq!(
        expansion.constructor_def.code,
        vec![Statement::Reference { field: 0, mutable: false }, Statement::Build { field: 1, mutable: false, args: vec![0] }]
    );
    assert_eq!(expansion.try_constructor_def.head_field_names, vec![0]);
    assert_eq!(expansion.heads.code, vec![HeadStep::Drop(1), HeadStep::Take(0)]);
    assert_eq!(expansion.heads.field_names, vec![0]);
    assert_eq!(expansion.builder_def.generics[0].name, "ViewBuilder_");
    // The view is built over the owner, and what was handed over is what is held.
    let hello = 0x68656c6c6f;
    assert_eq!(
        new(&expansion.constructor_def, &vec![Argument::Value(hello), Argument::Builder(Ok(hello))]),
        Some(Run { called: vec![1], result: Construction::Built(vec![hello, hello]) })
    );
    assert_eq!(
        into_heads(&expansion.heads, &vec![hello, hello]),
        Some(Heads { dropped: vec![1], values: vec![hello] })
    );
}

#[test]
fn a_failed_builder_hands_back_both_heads() {
    let item = ItemStruct {
        ident: "Three".to_string(),
        generics: vec![GenericParam::Lifetime("'a".to_string())],
        fields: Fields::Named(vec![
            Field { attrs: vec![], name: "a".to_string(), typ: vec![ident("i32")] },
            Field { attrs: vec![], name: "b".to_string(), typ: vec![ident("i32")] },
            Field {
                attrs: vec![borrows(vec![ident("mut"), ident("a")])],
                name: "c".to_string(),
                typ: vec![TokenTree::Punct('&', false), TokenTree::Punct('\'', true), ident("this"), ident("i32")],
            },
        ]),
    };
    let expansion = self_referencing(&item).unwrap();
    assert_eq!(expansion.generic_args, vec!["'a".to_string()]);
    assert_eq!(expansion.field_info, {
        let mut fields = a_b_c();
        fields[2].typ =
            vec![TokenTree::Punct('&', false), TokenTree::Punct('\'', true), ident("this"), ident("i32")];
        fields
    });
    let args = vec![Argument::Value(11), Argument::Value(22), Argument::Builder(Err(404))];
    assert_eq!(
        try_new_or_recover(&expansion.try_constructor_def, &args),
        Some(Run { called: vec![2], result: Construction::Failed { field: 2, error: 404, heads: vec![11, 22] } })
    );
    assert_eq!(
        try_build_or_recover(&expansion.try_builder_def, &expansion.try_constructor_def, &args),
        Some(Run { called: vec![2], result: Construction::Failed { field: 2, error: 404, heads: vec![11, 22] } })
    );
}

#[test]
fn a_struct_is_refused_for_its_fields_first() {
    let mut item = owner_and_view();
    item.generics = vec![GenericParam::Const("N".to_string())];
    assert_eq!(self_referencing(&item), Err(Error::ConstGeneric { position: 0 }));
    item.fields = Fields::Unit;
    assert_eq!(self_referencing(&item), Err(Error::UnitStruct));
    item.fields = Fields::Named(vec![
        Field { attrs: vec![], name: "a".to_string(), typ: vec![ident("A")] },
        Field { attrs: vec![borrows(vec![ident("b")])], name: "b".to_string(), typ: vec![ident("B")] },
    ]);
    assert_eq!(
        self_referencing(&item),
        Err(Error::Borrows { field: 1, attr: 0, error: BorrowsError::UnknownIdentifier { position: 0 } })
    );
}
