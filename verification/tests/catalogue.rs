use ouroboros_macro::borrows::{handle_borrows_attr, Attribute, BorrowsError};
use ouroboros_macro::error::Error;
use ouroboros_macro::fields::{BorrowRequest, FieldType, StructFieldInfo};
use ouroboros_macro::layout::{create_actual_struct, Field, Fields, StorageField};
use ouroboros_macro::roles::{classify, note_request, CatalogueError, Conflict, RequestError};
use ouroboros_macro::tokens::{replace_this_with_static, Delimiter, TokenTree};

fn ident(text: &str) -> TokenTree {
    TokenTree::Ident(text.to_string())
}

fn comma() -> TokenTree {
    TokenTree::Punct(',', false)
}

fn lifetime(name: &str) -> Vec<TokenTree> {
    vec![TokenTree::Punct('\'', true), ident(name)]
}

fn reference_to(typ: &str) -> Vec<TokenTree> {
    let mut tokens = vec![TokenTree::Punct('&', false)];
    tokens.extend(lifetime("this"));
    tokens.push(ident(typ));
    tokens
}

fn borrows(inner: Vec<TokenTree>) -> Attribute {
    Attribute {
        leading_colon: false,
        segments: vec!["borrows".to_string()],
        tokens: vec![TokenTree::Group(Delimiter::Parenthesis, inner)],
    }
}

fn info(name: &str, field_type: FieldType, borrows: Vec<BorrowRequest>) -> StructFieldInfo {
    StructFieldInfo { name: name.to_string(), typ: vec![ident("i32")], field_type, borrows }
}

fn tails(names: &[&str]) -> Vec<StructFieldInfo> {
    names.iter().map(|name| info(name, FieldType::Tail, vec![])).collect()
}

fn roles(fields: &[StructFieldInfo]) -> Vec<FieldType> {
    fields.iter().map(|field| field.field_type).collect()
}

fn field(name: &str, typ: Vec<TokenTree>, attrs: Vec<Attribute>) -> Field {
    Field { attrs, name: name.to_string(), typ }
}

fn request(index: usize, mutable: bool) -> BorrowRequest {
    BorrowRequest { index, mutable }
}

#[test]
fn a_tail_is_a_tail() {
    assert!(FieldType::Tail.is_tail());
    assert!(!FieldType::Borrowed.is_tail());
    assert!(!FieldType::BorrowedMut.is_tail());
}

#[test]
fn roles_change_as_the_requests_come() {
    assert_eq!(note_request(FieldType::Tail, false), Ok(FieldType::Borrowed));
    assert_eq!(note_request(FieldType::Borrowed, false), Ok(FieldType::Borrowed));
    assert_eq!(note_request(FieldType::Tail, true), Ok(FieldType::BorrowedMut));
    assert_eq!(note_request(FieldType::Borrowed, true), Err(Conflict::MutableAfterImmutable));
    assert_eq!(note_request(FieldType::BorrowedMut, true), Err(Conflict::MutableTwice));
    assert_eq!(note_request(FieldType::BorrowedMut, false), Err(Conflict::ImmutableAfterMutable));
}

#[test]
fn names_of_the_constructor_locals() {
    let owner = info("owner", FieldType::Borrowed, vec![]);
    assert_eq!(owner.builder_name(), "owner_builder");
    assert_eq!(owner.illegal_ref_name(), "owner_illegal_static_reference");
}

#[test]
fn borrows_attr_reads_names_and_mut() {
    let mut fields = tails(&["a", "b", "c"]);
    let mut requests = Vec::new();
    let attr = borrows(vec![ident("a"), comma(), ident("mut"), ident("c"), comma()]);
    assert_eq!(handle_borrows_attr(&mut fields, &attr, &mut requests), Ok(()));
    assert_eq!(requests, vec![request(0, false), request(2, true)]);
    assert_eq!(roles(&fields), vec![FieldType::Borrowed, FieldType::Tail, FieldType::BorrowedMut]);
}

#[test]
fn borrows_attr_may_be_empty() {
    let mut fields = tails(&["a"]);
    let mut requests = Vec::new();
    assert_eq!(handle_borrows_attr(&mut fields, &borrows(vec![]), &mut requests), Ok(()));
    assert!(requests.is_empty());
    assert_eq!(roles(&fields), vec![FieldType::Tail]);
}

#[test]
fn borrows_attr_forgets_a_last_mut() {
    let mut fields = tails(&["a"]);
    let mut requests = Vec::new();
    let attr = borrows(vec![ident("a"), comma(), ident("mut")]);
    assert_eq!(handle_borrows_attr(&mut fields, &attr, &mut requests), Ok(()));
    assert_eq!(requests, vec![request(0, false)]);
}

#[test]
fn borrows_attr_takes_the_first_of_two_fields_of_one_name() {
    let mut fields = tails(&["a", "a"]);
    let mut requests = Vec::new();
    assert_eq!(handle_borrows_attr(&mut fields, &borrows(vec![ident("a")]), &mut requests), Ok(()));
    assert_eq!(requests, vec![request(0, false)]);
}

#[test]
fn borrows_attr_may_borrow_a_field_twice_immutably() {
    let mut fields = tails(&["a"]);
    let mut requests = Vec::new();
    let attr = borrows(vec![ident("a"), comma(), ident("a")]);
    assert_eq!(handle_borrows_attr(&mut fields, &attr, &mut requests), Ok(()));
    assert_eq!(requests, vec![request(0, false), request(0, false)]);
    assert_eq!(roles(&fields), vec![FieldType::Borrowed]);
}

fn refused(names: &[&str], attr: Attribute) -> BorrowsError {
    let mut fields = tails(names);
    let mut requests = vec![];
    let result = handle_borrows_attr(&mut fields, &attr, &mut requests);
    // Nothing is changed where the attribute is refused.
    assert_eq!(fields, tails(names));
    assert!(requests.is_empty());
    result.unwrap_err()
}

#[test]
fn borrows_attr_without_brackets() {
    let attr = Attribute { leading_colon: false, segments: vec!["borrows".to_string()], tokens: vec![] };
    assert_eq!(refused(&["a"], attr), BorrowsError::InvalidSyntax);
    let attr = Attribute {
        leading_colon: false,
        segments: vec!["borrows".to_string()],
        tokens: vec![TokenTree::Punct('=', false), ident("a")],
    };
    assert_eq!(refused(&["a"], attr), BorrowsError::InvalidSyntax);
}

#[test]
fn borrows_attr_without_comma() {
    let attr = borrows(vec![ident("a"), ident("b")]);
    assert_eq!(refused(&["a", "b"], attr), BorrowsError::ExpectedComma { position: 1 });
}

#[test]
fn borrows_attr_with_double_mut() {
    let attr = borrows(vec![ident("mut"), ident("mut"), ident("a")]);
    assert_eq!(refused(&["a"], attr), BorrowsError::DoubleMut { position: 1 });
}

#[test]
fn borrows_attr_with_unknown_name() {
    let attr = borrows(vec![ident("a"), comma(), ident("d")]);
    assert_eq!(refused(&["a", "b"], attr), BorrowsError::UnknownIdentifier { position: 2 });
}

#[test]
fn borrows_attr_with_extra_comma() {
    let attr = borrows(vec![ident("a"), comma(), comma()]);
    assert_eq!(refused(&["a"], attr), BorrowsError::ExtraComma { position: 2 });
    assert_eq!(refused(&["a"], borrows(vec![comma()])), BorrowsError::ExtraComma { position: 0 });
}

#[test]
fn borrows_attr_with_other_punctuation() {
    let attr = borrows(vec![ident("a"), TokenTree::Punct(';', false)]);
    assert_eq!(refused(&["a"], attr), BorrowsError::UnexpectedPunct { position: 1 });
}

#[test]
fn borrows_attr_with_other_tokens() {
    let attr = borrows(vec![TokenTree::Literal("1".to_string())]);
    assert_eq!(refused(&["a"], attr), BorrowsError::UnexpectedToken { position: 0 });
    let attr = borrows(vec![ident("a"), comma(), TokenTree::Group(Delimiter::Bracket, vec![])]);
    assert_eq!(refused(&["a"], attr), BorrowsError::UnexpectedToken { position: 2 });
}

#[test]
fn borrows_attr_with_mutable_borrow_twice() {
    let attr = borrows(vec![ident("mut"), ident("a"), comma(), ident("mut"), ident("a")]);
    assert_eq!(
        refused(&["a"], attr),
        BorrowsError::Refused { position: 4, field: 0, conflict: Conflict::MutableTwice }
    );
}

#[test]
fn borrows_attr_with_mutable_borrow_after_immutable() {
    let attr = borrows(vec![ident("b"), comma(), ident("mut"), ident("b")]);
    assert_eq!(
        refused(&["a", "b"], attr),
        BorrowsError::Refused { position: 3, field: 1, conflict: Conflict::MutableAfterImmutable }
    );
}

#[test]
fn borrows_attr_with_immutable_borrow_after_mutable() {
    let attr = borrows(vec![ident("mut"), ident("a"), comma(), ident("a")]);
    assert_eq!(
        refused(&["a"], attr),
        BorrowsError::Refused { position: 3, field: 0, conflict: Conflict::ImmutableAfterMutable }
    );
}

#[test]
fn borrows_attr_sees_the_borrows_of_earlier_fields() {
    let mut fields = vec![info("a", FieldType::BorrowedMut, vec![]), info("b", FieldType::Tail, vec![request(0, true)])];
    let before = vec![info("a", FieldType::BorrowedMut, vec![]), info("b", FieldType::Tail, vec![request(0, true)])];
    let mut requests = vec![];
    assert_eq!(
        handle_borrows_attr(&mut fields, &borrows(vec![ident("a")]), &mut requests),
        Err(BorrowsError::Refused { position: 0, field: 0, conflict: Conflict::ImmutableAfterMutable })
    );
    assert_eq!(fields, before);
}

fn catalogue(requests: Vec<Vec<BorrowRequest>>) -> Vec<StructFieldInfo> {
    requests
        .into_iter()
        .enumerate()
        .map(|(i, borrows)| info(&format!("f{}", i), FieldType::Tail, borrows))
        .collect()
}

#[test]
fn classify_gives_the_roles() {
    let mut fields = catalogue(vec![
        vec![],
        vec![request(0, false)],
        vec![request(0, false), request(1, true)],
        vec![],
    ]);
    assert_eq!(classify(&mut fields), Ok(()));
    assert_eq!(
        roles(&fields),
        vec![FieldType::Borrowed, FieldType::BorrowedMut, FieldType::Tail, FieldType::Tail]
    );
}

#[test]
fn classify_overwrites_the_roles_held() {
    let mut fields = vec![
        info("a", FieldType::BorrowedMut, vec![]),
        info("b", FieldType::Borrowed, vec![request(0, false)]),
    ];
    assert_eq!(classify(&mut fields), Ok(()));
    assert_eq!(roles(&fields), vec![FieldType::Borrowed, FieldType::Tail]);
}

#[test]
fn classify_twice_changes_nothing() {
    let mut fields = catalogue(vec![vec![], vec![request(0, true)], vec![request(1, false)]]);
    assert_eq!(classify(&mut fields), Ok(()));
    let once = roles(&fields);
    assert_eq!(once, vec![FieldType::BorrowedMut, FieldType::Borrowed, FieldType::Tail]);
    assert_eq!(classify(&mut fields), Ok(()));
    assert_eq!(roles(&fields), once);
}

#[test]
fn classify_does_not_mind_the_order_of_the_requests() {
    let mut one = catalogue(vec![vec![], vec![], vec![request(0, false), request(1, true)], vec![request(0, false)]]);
    let mut other = catalogue(vec![vec![], vec![], vec![request(0, false)], vec![request(1, true), request(0, false)]]);
    assert_eq!(classify(&mut one), Ok(()));
    assert_eq!(classify(&mut other), Ok(()));
    assert_eq!(roles(&one), roles(&other));
}

fn classify_refuses(requests: Vec<Vec<BorrowRequest>>) -> CatalogueError {
    let mut fields = catalogue(requests.clone());
    let error = classify(&mut fields).unwrap_err();
    assert_eq!(fields, catalogue(requests));
    error
}

#[test]
fn classify_refuses_a_request_for_the_field_itself() {
    assert_eq!(
        classify_refuses(vec![vec![], vec![request(1, false)]]),
        CatalogueError::Request(RequestError { field: 1, request: 0, conflict: Conflict::NotDeclaredBefore })
    );
}

#[test]
fn classify_refuses_a_request_for_a_later_field() {
    assert_eq!(
        classify_refuses(vec![vec![request(1, true)], vec![]]),
        CatalogueError::Request(RequestError { field: 0, request: 0, conflict: Conflict::NotDeclaredBefore })
    );
    assert_eq!(
        classify_refuses(vec![vec![], vec![request(0, false), request(7, false)]]),
        CatalogueError::Request(RequestError { field: 1, request: 1, conflict: Conflict::NotDeclaredBefore })
    );
}

#[test]
fn classify_refuses_two_mutable_borrows() {
    assert_eq!(
        classify_refuses(vec![vec![], vec![request(0, true)], vec![request(0, true)]]),
        CatalogueError::Request(RequestError { field: 2, request: 0, conflict: Conflict::MutableTwice })
    );
}

#[test]
fn classify_refuses_an_immutable_borrow_after_a_mutable_one() {
    assert_eq!(
        classify_refuses(vec![vec![], vec![request(0, true)], vec![request(0, false)]]),
        CatalogueError::Request(RequestError { field: 2, request: 0, conflict: Conflict::ImmutableAfterMutable })
    );
}

#[test]
fn classify_refuses_a_mutable_borrow_after_an_immutable_one() {
    assert_eq!(
        classify_refuses(vec![vec![], vec![request(0, false)], vec![request(0, true)]]),
        CatalogueError::Request(RequestError { field: 2, request: 0, conflict: Conflict::MutableAfterImmutable })
    );
}

#[test]
fn classify_refuses_a_single_field() {
    assert_eq!(classify_refuses(vec![vec![]]), CatalogueError::TooFewFields);
    assert_eq!(classify_refuses(vec![]), CatalogueError::TooFewFields);
}

#[test]
fn classify_refuses_fields_that_borrow_nothing() {
    assert_eq!(classify_refuses(vec![vec![], vec![], vec![]]), CatalogueError::NothingBorrowed);
}

#[test]
fn this_becomes_static() {
    let input = vec![
        ident("Box"),
        TokenTree::Punct('<', false),
        TokenTree::Punct('&', false),
        TokenTree::Punct('\'', true),
        ident("this"),
        TokenTree::Group(
            Delimiter::Bracket,
            vec![ident("this"), TokenTree::Group(Delimiter::Parenthesis, vec![ident("this"), ident("those")])],
        ),
        TokenTree::Literal("this".to_string()),
        TokenTree::Punct('>', false),
    ];
    let expected = vec![
        ident("Box"),
        TokenTree::Punct('<', false),
        TokenTree::Punct('&', false),
        TokenTree::Punct('\'', true),
        ident("static"),
        TokenTree::Group(
            Delimiter::Bracket,
            vec![ident("static"), TokenTree::Group(Delimiter::Parenthesis, vec![ident("static"), ident("those")])],
        ),
        TokenTree::Literal("this".to_string()),
        TokenTree::Punct('>', false),
    ];
    assert_eq!(replace_this_with_static(input), expected);
    assert_eq!(replace_this_with_static(vec![]), vec![]);
}

fn owner_and_view() -> Fields {
    Fields::Named(vec![
        field("owner", vec![ident("OwnedBuffer")], vec![]),
        field(
            "view",
            reference_to("BorrowedSlice"),
            vec![
                Attribute {
                    leading_colon: false,
                    segments: vec!["doc".to_string()],
                    tokens: vec![TokenTree::Punct('=', false), TokenTree::Literal("\"view\"".to_string())],
                },
                borrows(vec![ident("owner")]),
            ],
        ),
    ])
}

#[test]
fn the_struct_is_stored_in_reverse() {
    let (stored, field_info) = create_actual_struct(&owner_and_view()).unwrap();
    let mut static_reference = vec![TokenTree::Punct('&', false)];
    static_reference.extend(lifetime("static"));
    static_reference.push(ident("BorrowedSlice"));
    assert_eq!(
        stored,
        vec![
            StorageField { field: 1, borrows_attr: Some(1), typ: static_reference },
            StorageField { field: 0, borrows_attr: None, typ: vec![ident("OwnedBuffer")] },
        ]
    );
    assert_eq!(
        field_info,
        vec![
            StructFieldInfo {
                name: "owner".to_string(),
                typ: vec![ident("OwnedBuffer")],
                field_type: FieldType::Borrowed,
                borrows: vec![],
            },
            StructFieldInfo {
                name: "view".to_string(),
                typ: reference_to("BorrowedSlice"),
                field_type: FieldType::Tail,
                borrows: vec![request(0, false)],
            },
        ]
    );
}

#[test]
fn the_catalogue_of_a_struct_is_settled() {
    let (_, mut field_info) = create_actual_struct(&owner_and_view()).unwrap();
    let before = roles(&field_info);
    assert_eq!(classify(&mut field_info), Ok(()));
    assert_eq!(roles(&field_info), before);
}

#[test]
fn only_the_first_borrows_attr_is_read() {
    let fields = Fields::Named(vec![
        field("a", vec![ident("A")], vec![]),
        field("b", vec![ident("B")], vec![]),
        field("c", vec![ident("C")], vec![borrows(vec![ident("mut"), ident("b")]), borrows(vec![ident("a")])]),
    ]);
    let (stored, field_info) = create_actual_struct(&fields).unwrap();
    assert_eq!(roles(&field_info), vec![FieldType::Tail, FieldType::BorrowedMut, FieldType::Tail]);
    assert_eq!(field_info[2].borrows, vec![request(1, true)]);
    assert_eq!(stored.iter().map(|s| s.field).collect::<Vec<_>>(), vec![2, 1, 0]);
    assert_eq!(stored.iter().map(|s| s.borrows_attr).collect::<Vec<_>>(), vec![Some(0), None, None]);
}

#[test]
fn other_paths_are_no_borrows_attr() {
    let fields = Fields::Named(vec![
        field("a", vec![ident("A")], vec![]),
        field(
            "b",
            vec![ident("B")],
            vec![
                Attribute {
                    leading_colon: true,
                    segments: vec!["borrows".to_string()],
                    tokens: vec![TokenTree::Group(Delimiter::Parenthesis, vec![ident("a")])],
                },
                Attribute {
                    leading_colon: false,
                    segments: vec!["ouroboros".to_string(), "borrows".to_string()],
                    tokens: vec![TokenTree::Group(Delimiter::Parenthesis, vec![ident("a")])],
                },
            ],
        ),
    ]);
    assert_eq!(create_actual_struct(&fields), Err(Error::NothingBorrowed));
}

#[test]
fn a_struct_is_refused_for_its_shape() {
    assert_eq!(create_actual_struct(&Fields::Unnamed), Err(Error::TupleStruct));
    assert_eq!(create_actual_struct(&Fields::Unit), Err(Error::UnitStruct));
    assert_eq!(create_actual_struct(&Fields::Named(vec![])), Err(Error::TooFewFields));
    assert_eq!(
        create_actual_struct(&Fields::Named(vec![field("a", vec![ident("A")], vec![])])),
        Err(Error::TooFewFields)
    );
    assert_eq!(
        create_actual_struct(&Fields::Named(vec![
            field("a", vec![ident("A")], vec![]),
            field("b", vec![ident("B")], vec![borrows(vec![])]),
        ])),
        Err(Error::NothingBorrowed)
    );
}

#[test]
fn a_struct_is_refused_for_a_borrow() {
    // A field cannot borrow itself, nor a field declared after it.
    let fields = Fields::Named(vec![
        field("a", vec![ident("A")], vec![borrows(vec![ident("a")])]),
        field("b", vec![ident("B")], vec![borrows(vec![ident("a")])]),
    ]);
    assert_eq!(
        create_actual_struct(&fields),
        Err(Error::Borrows { field: 0, attr: 0, error: BorrowsError::UnknownIdentifier { position: 0 } })
    );
    let fields = Fields::Named(vec![
        field("a", vec![ident("A")], vec![]),
        field("b", vec![ident("B")], vec![borrows(vec![ident("c")])]),
        field("c", vec![ident("C")], vec![borrows(vec![ident("a")])]),
    ]);
    assert_eq!(
        create_actual_struct(&fields),
        Err(Error::Borrows { field: 1, attr: 0, error: BorrowsError::UnknownIdentifier { position: 0 } })
    );
    // The borrow is refused before the count of the fields is looked at.
    let fields = Fields::Named(vec![field("a", vec![ident("A")], vec![borrows(vec![ident("a")])])]);
    assert_eq!(
        create_actual_struct(&fields),
        Err(Error::Borrows { field: 0, attr: 0, error: BorrowsError::UnknownIdentifier { position: 0 } })
    );
    let fields = Fields::Named(vec![
        field("a", vec![ident("A")], vec![]),
        field("b", vec![ident("B")], vec![borrows(vec![ident("mut"), ident("a")])]),
        field("c", vec![ident("C")], vec![borrows(vec![ident("b"), comma(), ident("a")])]),
    ]);
    assert_eq!(
        create_actual_struct(&fields),
        Err(Error::Borrows {
            field: 2,
            attr: 0,
            error: BorrowsError::Refused { position: 2, field: 0, conflict: Conflict::ImmutableAfterMutable },
        })
    );
}
