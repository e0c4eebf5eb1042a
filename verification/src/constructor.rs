//! The constructors and the builders: what each takes, in which order the
//! fields are built, and what is handed back when a builder fails.
//!
//! A definition names a field by its declaration index; the names and the
//! types are those of the catalogue it was made from.

use vstd::prelude::*;
use vstd::string::*;
use crate::fields::{BorrowRequest, FieldType, StructFieldInfo, requests_in_range};
use crate::models::{models_of, lemma_models_push, lemma_models_empty};
use crate::names::{builder_generic_name, builder_generic_name_of};

verus! {

/// What the builder of a field returns: the field's value, or a `Result` of
/// it, with the error type of the fallible constructors.
#[derive(Clone, Copy, PartialEq, Eq, Structural, Debug)]
pub enum ReturnShape {
    Value,
    Fallible,
}

/// A parameter of a builder: a reference, for the time of the call, to what
/// the field `target` dereferences to.
#[derive(Clone, Copy, PartialEq, Eq, Structural, Debug)]
pub struct RefParam {
    pub target: usize,
    pub mutable: bool,
}

/// The bound of a builder: called once, with `params`, it returns `output`.
#[derive(PartialEq, Eq, Debug)]
pub struct BuilderBound {
    pub params: Vec<RefParam>,
    pub output: ReturnShape,
}

#[derive(PartialEq, Eq, Debug)]
pub enum ArgType {
    /// Used when the initial value of a field can be passed directly into the
    /// constructor: the argument has the field's declared type.
    Plain,
    /// Used when a field borrows from other fields: the argument is a builder
    /// with this bound.
    TraitBound(BuilderBound),
}

pub enum ArgShape {
    Plain,
    TraitBound(Seq<RefParam>, ReturnShape),
}

impl View for ArgType {
    type V = ArgShape;

    open spec fn view(&self) -> ArgShape {
        match self {
            ArgType::Plain => ArgShape::Plain,
            ArgType::TraitBound(bound) => ArgShape::TraitBound(bound.params@, bound.output),
        }
    }
}

/// A parameter of a constructor: the value of the field `field`, or its
/// builder. `mutable` marks a value that a later builder borrows mutably.
#[derive(PartialEq, Eq, Debug)]
pub struct Param {
    pub field: usize,
    pub mutable: bool,
    pub arg: ArgType,
}

pub struct ParamShape {
    pub field: usize,
    pub mutable: bool,
    pub arg: ArgShape,
}

impl View for Param {
    type V = ParamShape;

    open spec fn view(&self) -> ParamShape {
        ParamShape { field: self.field, mutable: self.mutable, arg: self.arg@ }
    }
}

/// One step of a constructor's body.
#[derive(PartialEq, Eq, Debug)]
pub enum Statement {
    /// Binds the field `field` to what its builder returns. The builder is
    /// called with the references held for the fields `args`, in that order;
    /// `mutable` marks a binding that a later builder borrows mutably. In a
    /// fallible constructor the builder's error ends the construction here.
    Build { field: usize, mutable: bool, args: Vec<usize> },
    /// Takes the reference into the field `field` that the builders after it
    /// are called with.
    Reference { field: usize, mutable: bool },
}

pub enum StatementShape {
    Build { field: usize, mutable: bool, args: Seq<usize> },
    Reference { field: usize, mutable: bool },
}

impl View for Statement {
    type V = StatementShape;

    open spec fn view(&self) -> StatementShape {
        match self {
            Statement::Build { field, mutable, args } => StatementShape::Build {
                field: *field,
                mutable: *mutable,
                args: args@,
            },
            Statement::Reference { field, mutable } => StatementShape::Reference {
                field: *field,
                mutable: *mutable,
            },
        }
    }
}

/// A constructor: its parameters, one per field in declaration order, the
/// steps of its body, and the fields that it assembles at the end.
#[derive(PartialEq, Eq, Debug)]
pub struct ConstructorDef {
    pub params: Vec<Param>,
    pub code: Vec<Statement>,
    pub field_names: Vec<usize>,
}

/// The fallible constructors `try_new` and `try_new_or_recover`. Both run
/// `code` and end at the first builder that fails: the first returns its
/// error, the second its error and the values of the fields `head_field_names`.
#[derive(PartialEq, Eq, Debug)]
pub struct TryConstructorDef {
    pub params: Vec<Param>,
    pub code: Vec<Statement>,
    pub field_names: Vec<usize>,
    pub head_field_names: Vec<usize>,
}

/// A type parameter of a builder struct: the type of the builder of `field`.
#[derive(PartialEq, Eq, Debug)]
pub struct BuilderGeneric {
    pub name: String,
    pub field: usize,
}

pub struct BuilderGenericShape {
    pub name: Seq<char>,
    pub field: usize,
}

impl View for BuilderGeneric {
    type V = BuilderGenericShape;

    open spec fn view(&self) -> BuilderGenericShape {
        BuilderGenericShape { name: self.name@, field: self.field }
    }
}

/// A field of a builder struct: what the constructor takes for `field`. Its
/// type is the field's own where `generic` is `None`, else the type parameter
/// at that position of `BuilderDef::generics`.
#[derive(Clone, Copy, PartialEq, Eq, Structural, Debug)]
pub struct BuilderField {
    pub field: usize,
    pub generic: Option<usize>,
}

/// A builder struct and its `build` functions.
#[derive(PartialEq, Eq, Debug)]
pub struct BuilderDef {
    /// The type parameters that follow those of the struct itself. The
    /// fallible builder has one more after these, the error type `Error_`.
    pub generics: Vec<BuilderGeneric>,
    /// The type arguments that name the builder struct in its own impl.
    pub generic_consumers: Vec<String>,
    pub fields: Vec<BuilderField>,
    /// The arguments of the constructor call in `build`: the positions, in
    /// `fields`, of what is handed over for each parameter in turn.
    pub field_names: Vec<usize>,
}

/// The parameters of the builder of a field that makes the requests `borrows`.
pub open spec fn ref_params(borrows: Seq<BorrowRequest>) -> Seq<RefParam> {
    Seq::new(borrows.len(), |j: int| RefParam { target: borrows[j].index, mutable: borrows[j].mutable })
}

/// The fields that the requests `borrows` name, in the order of the requests.
pub open spec fn targets(borrows: Seq<BorrowRequest>) -> Seq<usize> {
    Seq::new(borrows.len(), |j: int| borrows[j].index)
}

/// What a constructor takes for a field: its value where it borrows nothing,
/// else a builder with one parameter for each request.
pub open spec fn arg_shape(field: StructFieldInfo, output: ReturnShape) -> ArgShape {
    if field.is_head() {
        ArgShape::Plain
    } else {
        ArgShape::TraitBound(ref_params(field.borrows@), output)
    }
}

pub open spec fn param_shape(fields: Seq<StructFieldInfo>, i: int, output: ReturnShape) -> ParamShape {
    ParamShape {
        field: i as usize,
        mutable: fields[i].is_head() && fields[i].field_type == FieldType::BorrowedMut,
        arg: arg_shape(fields[i], output),
    }
}

/// The parameters of a constructor for the first `count` fields.
pub open spec fn constructor_params(fields: Seq<StructFieldInfo>, count: int, output: ReturnShape) -> Seq<
    ParamShape,
> {
    Seq::new(count as nat, |i: int| param_shape(fields, i, output))
}

/// The steps that a constructor takes for the field `i`: the call of its
/// builder, if it has one, then the reference into it, if it is borrowed.
pub open spec fn field_code(fields: Seq<StructFieldInfo>, i: int) -> Seq<StatementShape> {
    let build = if fields[i].is_head() {
        Seq::<StatementShape>::empty()
    } else {
        seq![
            StatementShape::Build {
                field: i as usize,
                mutable: fields[i].field_type == FieldType::BorrowedMut,
                args: targets(fields[i].borrows@),
            },
        ]
    };
    let reference = match fields[i].field_type {
        FieldType::Tail => Seq::<StatementShape>::empty(),
        FieldType::Borrowed => seq![StatementShape::Reference { field: i as usize, mutable: false }],
        FieldType::BorrowedMut => seq![StatementShape::Reference { field: i as usize, mutable: true }],
    };
    build + reference
}

/// The steps that a constructor takes for the first `count` fields, field by
/// field in declaration order.
pub open spec fn constructor_code(fields: Seq<StructFieldInfo>, count: int) -> Seq<StatementShape>
    decreases count,
{
    if count <= 0 {
        Seq::empty()
    } else {
        constructor_code(fields, count - 1) + field_code(fields, count - 1)
    }
}

/// The first `count` indices, in order.
pub open spec fn indices(count: int) -> Seq<usize> {
    Seq::new(count as nat, |i: int| i as usize)
}

/// The heads among the first `count` fields, in declaration order.
pub open spec fn heads_of(fields: Seq<StructFieldInfo>, count: int) -> Seq<usize>
    decreases count,
{
    if count <= 0 {
        Seq::empty()
    } else if fields[count - 1].is_head() {
        heads_of(fields, count - 1).push((count - 1) as usize)
    } else {
        heads_of(fields, count - 1)
    }
}

/// The type parameters that a builder struct has for the first `count`
/// fields: one for each field that borrows, named after the field.
pub open spec fn builder_generics(fields: Seq<StructFieldInfo>, count: int) -> Seq<BuilderGenericShape>
    decreases count,
{
    if count <= 0 {
        Seq::empty()
    } else if fields[count - 1].is_head() {
        builder_generics(fields, count - 1)
    } else {
        builder_generics(fields, count - 1).push(
            BuilderGenericShape {
                name: builder_generic_name_of(fields[count - 1].name@),
                field: (count - 1) as usize,
            },
        )
    }
}

pub open spec fn builder_field(fields: Seq<StructFieldInfo>, i: int) -> BuilderField {
    BuilderField {
        field: i as usize,
        generic: if fields[i].is_head() {
            None
        } else {
            Some(builder_generics(fields, i).len() as usize)
        },
    }
}

/// The fields of a builder struct for the first `count` fields.
pub open spec fn builder_fields(fields: Seq<StructFieldInfo>, count: int) -> Seq<BuilderField> {
    Seq::new(count as nat, |i: int| builder_field(fields, i))
}

/// The names of type parameters.
pub open spec fn generic_names(generics: Seq<BuilderGenericShape>) -> Seq<Seq<char>> {
    Seq::new(generics.len(), |k: int| generics[k].name)
}

fn make_constructor_arg_type_impl(
    for_field: &StructFieldInfo,
    other_fields: &Vec<StructFieldInfo>,
    output: ReturnShape,
) -> (arg: ArgType)
    requires
        forall|j: int|
            0 <= j < for_field.borrows@.len() ==> (#[trigger] for_field.borrows@[j]).index < other_fields@.len(),
    ensures
        arg@ == arg_shape(*for_field, output),
{
    if for_field.borrows.len() == 0 {
        ArgType::Plain
    } else {
        let mut field_builder_params: Vec<RefParam> = Vec::new();
        let mut j: usize = 0;
        while j < for_field.borrows.len()
            invariant
                j <= for_field.borrows@.len(),
                field_builder_params@ == ref_params(for_field.borrows@.take(j as int)),
            decreases for_field.borrows@.len() - j,
        {
            let borrow = for_field.borrows[j];
            field_builder_params.push(RefParam { target: borrow.index, mutable: borrow.mutable });
            assert(field_builder_params@ =~= ref_params(for_field.borrows@.take(j + 1)));
            j += 1;
        }
        assert(for_field.borrows@.take(j as int) =~= for_field.borrows@);
        ArgType::TraitBound(BuilderBound { params: field_builder_params, output })
    }
}

/// Returns a trait bound if `for_field` refers to any other fields, and a plain type if not. This
/// is the type used in the constructor to initialize the value of `for_field`.
pub fn make_constructor_arg_type(for_field: &StructFieldInfo, other_fields: &Vec<StructFieldInfo>) -> (arg:
    ArgType)
    requires
        forall|j: int|
            0 <= j < for_field.borrows@.len() ==> (#[trigger] for_field.borrows@[j]).index < other_fields@.len(),
    ensures
        arg@ == arg_shape(*for_field, ReturnShape::Value),
{
    make_constructor_arg_type_impl(for_field, other_fields, ReturnShape::Value)
}

/// Like make_constructor_arg_type, but used for the try_new constructor.
pub fn make_try_constructor_arg_type(for_field: &StructFieldInfo, other_fields: &Vec<StructFieldInfo>) -> (arg:
    ArgType)
    requires
        forall|j: int|
            0 <= j < for_field.borrows@.len() ==> (#[trigger] for_field.borrows@[j]).index < other_fields@.len(),
    ensures
        arg@ == arg_shape(*for_field, ReturnShape::Fallible),
{
    make_constructor_arg_type_impl(for_field, other_fields, ReturnShape::Fallible)
}


/// The step that takes the shared reference into `field`, for the builders
/// of the fields that borrow it immutably.
pub fn make_illegal_static_reference(field: usize) -> (statement: Statement)
    ensures
        statement == (Statement::Reference { field, mutable: false }),
{
    Statement::Reference { field, mutable: false }
}

/// Like make_illegal_static_reference, but provides a mutable reference instead.
pub fn make_illegal_static_mut_reference(field: usize) -> (statement: Statement)
    ensures
        statement == (Statement::Reference { field, mutable: true }),
{
    Statement::Reference { field, mutable: true }
}

/// `params`, `code` and `field_names` are those of the constructor of the
/// catalogue `fields` whose builders return `output`.
pub open spec fn constructor_for(
    params: Seq<Param>,
    code: Seq<Statement>,
    field_names: Seq<usize>,
    fields: Seq<StructFieldInfo>,
    output: ReturnShape,
) -> bool {
    &&& models_of(params) == constructor_params(fields, fields.len() as int, output)
    &&& models_of(code) == constructor_code(fields, fields.len() as int)
    &&& field_names == indices(fields.len() as int)
}

/// `def` is the builder struct of the catalogue `fields`, for a struct with
/// the type arguments `generic_args`; `extra` is what follows the builders'
/// types among its own type arguments.
pub open spec fn builder_for(
    def: BuilderDef,
    fields: Seq<StructFieldInfo>,
    generic_args: Seq<Seq<char>>,
    extra: Seq<Seq<char>>,
) -> bool {
    &&& models_of(def.generics@) == builder_generics(fields, fields.len() as int)
    &&& models_of(def.generic_consumers@) == generic_args + generic_names(
        builder_generics(fields, fields.len() as int),
    ) + extra
    &&& def.fields@ == builder_fields(fields, fields.len() as int)
    &&& def.field_names@ == indices(fields.len() as int)
}

fn clone_names(names: &Vec<String>) -> (out: Vec<String>)
    ensures
        models_of(out@) == models_of(names@),
{
    let mut out: Vec<String> = Vec::new();
    let mut i: usize = 0;
    while i < names.len()
        invariant
            i <= names@.len(),
            models_of(out@) == models_of(names@.take(i as int)),
        decreases names@.len() - i,
    {
        let name = names[i].clone();
        proof {
            lemma_models_push(out@, name);
            lemma_models_push(names@.take(i as int), names@[i as int]);
            assert(names@.take(i + 1) =~= names@.take(i as int).push(names@[i as int]));
        }
        out.push(name);
        i += 1;
    }
    assert(names@.take(i as int) =~= names@);
    out
}

fn builder_arguments(borrows: &Vec<BorrowRequest>) -> (args: Vec<usize>)
    ensures
        args@ == targets(borrows@),
{
    let mut args: Vec<usize> = Vec::new();
    let mut j: usize = 0;
    while j < borrows.len()
        invariant
            j <= borrows@.len(),
            args@ == targets(borrows@.take(j as int)),
        decreases borrows@.len() - j,
    {
        args.push(borrows[j].index);
        assert(args@ =~= targets(borrows@.take(j + 1)));
        j += 1;
    }
    assert(borrows@.take(j as int) =~= borrows@);
    args
}

fn builder_and_constructor(
    generic_args: &Vec<String>,
    field_info: &Vec<StructFieldInfo>,
    output: ReturnShape,
) -> (defs: (BuilderDef, ConstructorDef))
    requires
        requests_in_range(field_info@),
    ensures
        builder_for(defs.0, field_info@, models_of(generic_args@), Seq::empty()),
        constructor_for(defs.1.params@, defs.1.code@, defs.1.field_names@, field_info@, output),
{
    let mut code: Vec<Statement> = Vec::new();
    let mut params: Vec<Param> = Vec::new();
    let mut field_names: Vec<usize> = Vec::new();
    let mut builder_struct_generics: Vec<BuilderGeneric> = Vec::new();
    let mut builder_struct_generic_consumers: Vec<String> = clone_names(generic_args);
    let mut builder_struct_fields: Vec<BuilderField> = Vec::new();
    let mut builder_struct_field_names: Vec<usize> = Vec::new();
    let ghost fields = field_info@;
    let ghost args = models_of(generic_args@);
    proof {
        lemma_models_empty::<Param>();
        lemma_models_empty::<Statement>();
        lemma_models_empty::<BuilderGeneric>();
        assert(args + generic_names(builder_generics(fields, 0)) =~= args);
        assert(builder_struct_fields@ =~= builder_fields(fields, 0));
        assert(field_names@ =~= indices(0));
    }
    let mut i: usize = 0;
    while i < field_info.len()
        invariant
            i <= fields.len(),
            fields == field_info@,
            args == models_of(generic_args@),
            requests_in_range(fields),
            models_of(params@) == constructor_params(fields, i as int, output),
            models_of(code@) == constructor_code(fields, i as int),
            field_names@ == indices(i as int),
            models_of(builder_struct_generics@) == builder_generics(fields, i as int),
            models_of(builder_struct_generic_consumers@) == args + generic_names(
                builder_generics(fields, i as int),
            ),
            builder_struct_fields@ == builder_fields(fields, i as int),
            builder_struct_field_names@ == indices(i as int),
        decreases fields.len() - i,
    {
        let field = &field_info[i];
        let ghost code_before = code@;
        let ghost generics_before = builder_generics(fields, i as int);
        assert(forall|j: int|
            0 <= j < field.borrows@.len() ==> (#[trigger] field.borrows@[j]).index < field_info@.len());
        let arg_type = make_constructor_arg_type_impl(field, field_info, output);
        match arg_type {
            ArgType::Plain => {
                // No builder function, the value is moved directly into the struct. If
                // other fields borrow it mutably, the argument is made mutable.
                let param = Param {
                    field: i,
                    mutable: field.field_type == FieldType::BorrowedMut,
                    arg: ArgType::Plain,
                };
                proof {
                    lemma_models_push(params@, param);
                }
                params.push(param);
                builder_struct_fields.push(BuilderField { field: i, generic: None });
            },
            ArgType::TraitBound(bound) => {
                // The constructor takes a builder, and the builder struct gets a
                // type parameter for it.
                let param = Param { field: i, mutable: false, arg: ArgType::TraitBound(bound) };
                proof {
                    lemma_models_push(params@, param);
                }
                params.push(param);
                let builder_args = builder_arguments(&field.borrows);
                // If other fields borrow the field mutably, its binding is made mutable.
                let statement = Statement::Build {
                    field: i,
                    mutable: field.field_type == FieldType::BorrowedMut,
                    args: builder_args,
                };
                proof {
                    lemma_models_push(code@, statement);
                }
                code.push(statement);
                let generic_type_name = builder_generic_name(field.name.as_str());
                let generic = BuilderGeneric { name: generic_type_name.clone(), field: i };
                builder_struct_fields.push(
                    BuilderField { field: i, generic: Some(builder_struct_generics.len()) },
                );
                proof {
                    lemma_models_push(builder_struct_generics@, generic);
                    lemma_models_push(builder_struct_generic_consumers@, generic_type_name);
                }
                builder_struct_generics.push(generic);
                builder_struct_generic_consumers.push(generic_type_name);
            },
        }
        if field.field_type == FieldType::Borrowed {
            let statement = make_illegal_static_reference(i);
            proof {
                lemma_models_push(code@, statement);
            }
            code.push(statement);
        } else if field.field_type == FieldType::BorrowedMut {
            let statement = make_illegal_static_mut_reference(i);
            proof {
                lemma_models_push(code@, statement);
            }
            code.push(statement);
        }
        field_names.push(i);
        builder_struct_field_names.push(i);
        proof {
            assert(models_of(params@) =~= constructor_params(fields, i + 1, output));
            assert(models_of(code@) =~= models_of(code_before) + field_code(fields, i as int));
            assert(field_names@ =~= indices(i + 1));
            assert(builder_struct_field_names@ =~= indices(i + 1));
            assert(builder_struct_fields@ =~= builder_fields(fields, i + 1));
            assert(models_of(builder_struct_generic_consumers@) =~= args + generic_names(
                builder_generics(fields, i + 1),
            ));
        }
        i += 1;
    }
    proof {
        assert(args + generic_names(builder_generics(fields, fields.len() as int)) + Seq::empty() =~= args
            + generic_names(builder_generics(fields, fields.len() as int)));
    }
    (
        BuilderDef {
            generics: builder_struct_generics,
            generic_consumers: builder_struct_generic_consumers,
            fields: builder_struct_fields,
            field_names: builder_struct_field_names,
        },
        ConstructorDef { params, code, field_names },
    )
}

/// The builder struct and the constructor `new` of a catalogue. `generic_args`
/// are the type arguments of the struct itself.
pub fn create_builder_and_constructor(generic_args: &Vec<String>, field_info: &Vec<StructFieldInfo>) -> (defs: (
    BuilderDef,
    ConstructorDef,
))
    requires
        requests_in_range(field_info@),
    ensures
        builder_for(defs.0, field_info@, models_of(generic_args@), Seq::empty()),
        constructor_for(defs.1.params@, defs.1.code@, defs.1.field_names@, field_info@, ReturnShape::Value),
{
    builder_and_constructor(generic_args, field_info, ReturnShape::Value)
}

/// The builder struct and the constructors `try_new` and `try_new_or_recover`
/// of a catalogue. The builders return a `Result`, whose error type `Error_`
/// is the last type parameter of the builder struct; `try_new_or_recover`
/// hands back every head with the error.
pub fn create_try_builder_and_constructor(generic_args: &Vec<String>, field_info: &Vec<StructFieldInfo>) -> (defs:
    (BuilderDef, TryConstructorDef))
    requires
        requests_in_range(field_info@),
    ensures
        builder_for(defs.0, field_info@, models_of(generic_args@), seq!["Error_"@]),
        constructor_for(defs.1.params@, defs.1.code@, defs.1.field_names@, field_info@, ReturnShape::Fallible),
        defs.1.head_field_names@ == heads_of(field_info@, field_info@.len() as int),
{
    let mut head_field_names: Vec<usize> = Vec::new();
    let mut i: usize = 0;
    while i < field_info.len()
        invariant
            i <= field_info@.len(),
            head_field_names@ == heads_of(field_info@, i as int),
        decreases field_info@.len() - i,
    {
        if field_info[i].borrows.len() == 0 {
            head_field_names.push(i);
        }
        i += 1;
    }
    let (builder_def, constructor_def) = builder_and_constructor(
        generic_args,
        field_info,
        ReturnShape::Fallible,
    );
    let BuilderDef { generics, generic_consumers, fields, field_names } = builder_def;
    let mut generic_consumers = generic_consumers;
    let error_name = String::from_str("Error_");
    proof {
        lemma_models_push(generic_consumers@, error_name);
        let names = models_of(generic_args@) + generic_names(
            builder_generics(field_info@, field_info@.len() as int),
        );
        assert(names + Seq::empty() =~= names);
        assert(names.push("Error_"@) =~= names + seq!["Error_"@]);
    }
    generic_consumers.push(error_name);
    let ConstructorDef { params, code, field_names: assembled } = constructor_def;
    (
        BuilderDef { generics, generic_consumers, fields, field_names },
        TryConstructorDef { params, code, field_names: assembled, head_field_names },
    )
}

} // verus!
