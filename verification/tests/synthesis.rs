use ouroboros_macro::accessors::{
    make_use_all_function, make_use_functions, Access, BorrowedField, BorrowedFieldsDef, UseFunction,
};
use ouroboros_macro::constructor::{
    create_builder_and_constructor, create_try_builder_and_constructor, make_constructor_arg_type,
    make_illegal_static_mut_reference, make_illegal_static_reference, make_try_constructor_arg_type, ArgType,
    BuilderBound, BuilderDef, BuilderField, BuilderGeneric, ConstructorDef, Param, RefParam, ReturnShape,
    Statement, TryConstructorDef,
};
use ouroboros_macro::error::Error;
use ouroboros_macro::fields::{BorrowRequest, FieldType, StructFieldInfo};
use ouroboros_macro::generics::{make_generic_arguments, GenericParam};
use ouroboros_macro::heads::{make_into_heads, HeadStep, IntoHeadsDef};
use ouroboros_macro::names::{affixed, builder_generic_name, generic_type_name, impl_module_name, module_name};
use ouroboros_macro::tokens::TokenTree;

fn info(name: &str, field_type: FieldType, borrows: Vec<BorrowRequest>) -> StructFieldInfo {
    StructFieldInfo { name: name.to_string(), typ: vec![TokenTree::Ident("i32".to_string())], field_type, borrows }
}

fn request(index: usize, mutable: bool) -> BorrowRequest {
    BorrowRequest { index, mutable }
}

/// `a` and `b` are heads, `b_view` borrows `b`, `both` borrows `a` mutably and `b_view`,
/// `last` is a head that nothing borrows.
fn five_fields() -> Vec<StructFieldInfo> {
    vec![
        info("a", FieldType::BorrowedMut, vec![]),
        info("b", FieldType::Borrowed, vec![]),
        info("b_view", FieldType::Borrowed, vec![request(1, false)]),
        info("both", FieldType::Tail, vec![request(0, true), request(2, false)]),
        info("last", FieldType::Tail, vec![]),
    ]
}

fn strings(names: &[&str]) -> Vec<String> {
    names.iter().map(|name| name.to_string()).collect()
}

fn bound(params: Vec<RefParam>, output: ReturnShape) -> ArgType {
    ArgType::TraitBound(BuilderBound { params, output })
}

#[test]
fn names_are_put_together() {
    assert_eq!(affixed("use_", "owner", "_mut"), "use_owner_mut");
    assert_eq!(affixed("", "", ""), "");
    assert_eq!(generic_type_name("Owner"), "OwnerBuilder_");
    assert_eq!(impl_module_name("my_struct"), "ouroboros_impl_my_struct");
}

#[test]
fn builder_type_parameters_are_in_class_case() {
    assert_eq!(builder_generic_name("b_view"), "BViewBuilder_");
    assert_eq!(builder_generic_name("owner"), "OwnerBuilder_");
    // Class case takes the last word in the singular.
    assert_eq!(builder_generic_name("foo_bars"), "FooBarBuilder_");
}

#[test]
fn the_module_is_in_snake_case() {
    assert_eq!(module_name("MyStruct"), "ouroboros_impl_my_struct");
    assert_eq!(module_name("HTTPFooBar"), "ouroboros_impl_http_foo_bar");
    assert_eq!(module_name("plain"), "ouroboros_impl_plain");
}

#[test]
fn a_head_is_passed_as_it_is() {
    let fields = five_fields();
    assert_eq!(make_constructor_arg_type(&fields[0], &fields), ArgType::Plain);
    assert_eq!(make_try_constructor_arg_type(&fields[4], &fields), ArgType::Plain);
}

#[test]
fn a_field_that_borrows_is_passed_as_a_builder() {
    let fields = five_fields();
    assert_eq!(
        make_constructor_arg_type(&fields[2], &fields),
        bound(vec![RefParam { target: 1, mutable: false }], ReturnShape::Value)
    );
    assert_eq!(
        make_constructor_arg_type(&fields[3], &fields),
        bound(
            vec![RefParam { target: 0, mutable: true }, RefParam { target: 2, mutable: false }],
            ReturnShape::Value
        )
    );
    assert_eq!(
        make_try_constructor_arg_type(&fields[3], &fields),
        bound(
            vec![RefParam { target: 0, mutable: true }, RefParam { target: 2, mutable: false }],
            ReturnShape::Fallible
        )
    );
}

#[test]
fn references_are_taken_by_their_kind() {
    assert_eq!(make_illegal_static_reference(3), Statement::Reference { field: 3, mutable: false });
    assert_eq!(make_illegal_static_mut_reference(0), Statement::Reference { field: 0, mutable: true });
}

fn expected_params(output: ReturnShape) -> Vec<Param> {
    vec![
        Param { field: 0, mutable: true, arg: ArgType::Plain },
        Param { field: 1, mutable: false, arg: ArgType::Plain },
        Param { field: 2, mutable: false, arg: bound(vec![RefParam { target: 1, mutable: false }], output) },
        Param {
            field: 3,
            mutable: false,
            arg: bound(
                vec![RefParam { target: 0, mutable: true }, RefParam { target: 2, mutable: false }],
                output,
            ),
        },
        Param { field: 4, mutable: false, arg: ArgType::Plain },
    ]
}

fn expected_code() -> Vec<Statement> {
    vec![
        Statement::Reference { field: 0, mutable: true },
        Statement::Reference { field: 1, mutable: false },
        Statement::Build { field: 2, mutable: false, args: vec![1] },
        Statement::Reference { field: 2, mutable: false },
        Statement::Build { field: 3, mutable: false, args: vec![0, 2] },
    ]
}

fn expected_builder(extra: &[&str]) -> BuilderDef {
    let mut generic_consumers = strings(&["'a", "T", "BViewBuilder_", "BothBuilder_"]);
    generic_consumers.extend(strings(extra));
    BuilderDef {
        generics: vec![
            BuilderGeneric { name: "BViewBuilder_".to_string(), field: 2 },
            BuilderGeneric { name: "BothBuilder_".to_string(), field: 3 },
        ],
        generic_consumers,
        fields: vec![
            BuilderField { field: 0, generic: None },
            BuilderField { field: 1, generic: None },
            BuilderField { field: 2, generic: Some(0) },
            BuilderField { field: 3, generic: Some(1) },
            BuilderField { field: 4, generic: None },
        ],
        field_names: vec![0, 1, 2, 3, 4],
    }
}

#[test]
fn the_constructor_and_its_builder() {
    let (builder, constructor) = create_builder_and_constructor(&strings(&["'a", "T"]), &five_fields());
    assert_eq!(
        constructor,
        ConstructorDef {
            params: expected_params(ReturnShape::Value),
            code: expected_code(),
            field_names: vec![0, 1, 2, 3, 4],
        }
    );
    assert_eq!(builder, expected_builder(&[]));
}

#[test]
fn the_fallible_constructors_and_their_builder() {
    let (builder, constructor) = create_try_builder_and_constructor(&strings(&["'a", "T"]), &five_fields());
    assert_eq!(
        constructor,
        TryConstructorDef {
            params: expected_params(ReturnShape::Fallible),
            code: expected_code(),
            field_names: vec![0, 1, 2, 3, 4],
            head_field_names: vec![0, 1, 4],
        }
    );
    assert_eq!(builder, expected_builder(&["Error_"]));
}

#[test]
fn a_mutably_borrowed_field_that_borrows_is_bound_mutably() {
    let fields = vec![
        info("a", FieldType::Borrowed, vec![]),
        info("b", FieldType::BorrowedMut, vec![request(0, false)]),
        info("c", FieldType::Tail, vec![request(1, true)]),
    ];
    let (_, constructor) = create_builder_and_constructor(&vec![], &fields);
    assert_eq!(
        constructor.code,
        vec![
            Statement::Reference { field: 0, mutable: false },
            Statement::Build { field: 1, mutable: true, args: vec![0] },
            Statement::Reference { field: 1, mutable: true },
            Statement::Build { field: 2, mutable: false, args: vec![1] },
        ]
    );
    // The parameter of a builder is never mutable: the binding of what it returns is.
    assert!(constructor.params.iter().all(|param| !param.mutable));
}

#[test]
fn the_builder_hands_over_what_the_constructor_takes() {
    let (builder, constructor) = create_builder_and_constructor(&vec![], &five_fields());
    assert_eq!(builder.fields.len(), constructor.params.len());
    for (position, param) in constructor.params.iter().enumerate() {
        let handed = builder.fields[builder.field_names[position]];
        assert_eq!(handed.field, param.field);
        assert_eq!(handed.generic.is_none(), param.arg == ArgType::Plain);
    }
}

#[test]
fn no_fields_give_empty_definitions() {
    let (builder, constructor) = create_try_builder_and_constructor(&vec![], &vec![]);
    assert_eq!(
        constructor,
        TryConstructorDef { params: vec![], code: vec![], field_names: vec![], head_field_names: vec![] }
    );
    assert_eq!(
        builder,
        BuilderDef { generics: vec![], generic_consumers: strings(&["Error_"]), fields: vec![], field_names: vec![] }
    );
}

fn user(name: &str, field: usize, access: Access) -> UseFunction {
    UseFunction { name: name.to_string(), field, access }
}

#[test]
fn accessors_follow_the_roles() {
    assert_eq!(
        make_use_functions(&five_fields()),
        vec![
            user("use_b_contents", 1, Access::Contents),
            user("use_b_view_contents", 2, Access::Contents),
            user("use_both", 3, Access::Shared),
            user("use_both_mut", 3, Access::Exclusive),
            user("use_last", 4, Access::Shared),
            user("use_last_mut", 4, Access::Exclusive),
        ]
    );
    assert_eq!(make_use_functions(&vec![]), vec![]);
}

fn borrowed(name: &str, field: usize, contents: bool) -> BorrowedField {
    BorrowedField { name: name.to_string(), field, contents }
}

#[test]
fn all_fields_are_lent_at_once() {
    let (shared, exclusive) = make_use_all_function(&five_fields(), &strings(&["'a", "T"]));
    assert_eq!(
        shared,
        BorrowedFieldsDef {
            generic_args: strings(&["'outer_borrow", "'this", "'a", "T"]),
            fields: vec![
                borrowed("last", 4, false),
                borrowed("both", 3, false),
                borrowed("b_view_contents", 2, true),
                borrowed("b_contents", 1, true),
            ],
        }
    );
    assert_eq!(
        exclusive,
        BorrowedFieldsDef {
            generic_args: strings(&["'outer_borrow", "'this", "'a", "T"]),
            fields: vec![borrowed("last", 4, false), borrowed("both", 3, false)],
        }
    );
}

#[test]
fn all_fields_of_a_struct_without_generics() {
    let (shared, exclusive) = make_use_all_function(&vec![], &vec![]);
    assert_eq!(shared, BorrowedFieldsDef { generic_args: strings(&["'outer_borrow", "'this"]), fields: vec![] });
    assert_eq!(exclusive, shared);
}

#[test]
fn heads_are_taken_and_the_others_dropped() {
    assert_eq!(
        make_into_heads(&five_fields()),
        IntoHeadsDef {
            code: vec![
                HeadStep::Take(4),
                HeadStep::Drop(3),
                HeadStep::Drop(2),
                HeadStep::Take(1),
                HeadStep::Take(0),
            ],
            field_names: vec![4, 1, 0],
        }
    );
    assert_eq!(make_into_heads(&vec![]), IntoHeadsDef { code: vec![], field_names: vec![] });
}

#[test]
fn generic_parameters_become_arguments() {
    let params = vec![
        GenericParam::Lifetime("'a".to_string()),
        GenericParam::Type("T".to_string()),
        GenericParam::Type("U".to_string()),
    ];
    assert_eq!(make_generic_arguments(&params), Ok(strings(&["'a", "T", "U"])));
    assert_eq!(make_generic_arguments(&vec![]), Ok(vec![]));
}

#[test]
fn constant_parameters_are_refused() {
    let params = vec![
        GenericParam::Type("T".to_string()),
        GenericParam::Const("N".to_string()),
        GenericParam::Const("M".to_string()),
    ];
    assert_eq!(make_generic_arguments(&params), Err(Error::ConstGeneric { position: 1 }));
}
