//! What the generated constructors do when they are called: which builders
//! are called, in which order, and what comes back.
//!
//! A value is an `i64`, and so is a builder's error. A builder is given by
//! what it returns when it is called, so that a run depends on the definition
//! and the arguments alone.

use vstd::prelude::*;
use crate::constructor::{
    ArgShape, ArgType, BuilderDef, ConstructorDef, Param, ParamShape, ReturnShape, Statement, StatementShape,
    TryConstructorDef, builder_for, constructor_code, constructor_for, constructor_params, field_code, heads_of,
    indices, targets,
};
use crate::fields::{FieldType, StructFieldInfo};
use crate::models::models_of;
use crate::roles::{valid_catalogue, valid_catalogue_request};

verus! {

/// What the caller hands over for one parameter: the value of a head, or the
/// builder of a field that borrows.
#[derive(Clone, Copy, PartialEq, Eq, Debug)]
pub enum Argument {
    Value(i64),
    Builder(Result<i64, i64>),
}

/// How a construction ends: with the values of all fields, in the order of
/// the definition's `field_names`, or with the error of the builder of
/// `field` and the values of the heads that are handed back.
#[derive(PartialEq, Eq, Debug)]
pub enum Construction {
    Built(Vec<i64>),
    Failed { field: usize, error: i64, heads: Vec<i64> },
}

pub enum ConstructionShape {
    Built(Seq<i64>),
    Failed { field: usize, error: i64, heads: Seq<i64> },
}

impl View for Construction {
    type V = ConstructionShape;

    open spec fn view(&self) -> ConstructionShape {
        match self {
            Construction::Built(values) => ConstructionShape::Built(values@),
            Construction::Failed { field, error, heads } => ConstructionShape::Failed {
                field: *field,
                error: *error,
                heads: heads@,
            },
        }
    }
}

/// A run of a constructor: the fields whose builders were called, in the
/// order of the calls, and how it ended.
#[derive(PartialEq, Eq, Debug)]
pub struct Run {
    pub called: Vec<usize>,
    pub result: Construction,
}

pub struct RunShape {
    pub called: Seq<usize>,
    pub result: ConstructionShape,
}

impl View for Run {
    type V = RunShape;

    open spec fn view(&self) -> RunShape {
        RunShape { called: self.called@, result: self.result@ }
    }
}

/// How far a construction has come: the value of each field that is bound,
/// the fields into which a reference is held, and the builders called.
pub struct Progress {
    pub values: Seq<Option<i64>>,
    pub referenced: Seq<bool>,
    pub called: Seq<usize>,
}

/// A construction after some steps: it goes on, a builder has failed, or a
/// step could not be taken.
pub enum Step {
    Goes(Progress),
    Fails { called: Seq<usize>, field: usize, error: i64 },
    Stuck,
}

/// Before the first step the heads are bound and nothing else is.
pub open spec fn start(args: Seq<Argument>) -> Progress {
    Progress {
        values: Seq::new(
            args.len(),
            |i: int|
                match args[i] {
                    Argument::Value(value) => Some(value),
                    Argument::Builder(_) => None,
                },
        ),
        referenced: Seq::new(args.len(), |i: int| false),
        called: Seq::empty(),
    }
}

/// Every one of `refs` is a field into which a reference is held.
pub open spec fn all_referenced(referenced: Seq<bool>, refs: Seq<usize>) -> bool {
    forall|j: int| 0 <= j < refs.len() ==> (#[trigger] refs[j]) < referenced.len() && referenced[refs[j] as int]
}

/// One step. A builder can be called once, for a field that is not bound, with
/// references that are held; a reference can be taken into a field that is
/// bound.
pub open spec fn advance(progress: Progress, statement: StatementShape, args: Seq<Argument>) -> Step {
    match statement {
        StatementShape::Build { field, mutable, args: refs } => {
            if field < args.len() && args[field as int] is Builder && progress.values[field as int] is None
                && all_referenced(progress.referenced, refs) {
                match args[field as int]->Builder_0 {
                    Ok(value) => Step::Goes(
                        Progress {
                            values: progress.values.update(field as int, Some(value)),
                            called: progress.called.push(field),
                            ..progress
                        },
                    ),
                    Err(error) => Step::Fails { called: progress.called.push(field), field, error },
                }
            } else {
                Step::Stuck
            }
        },
        StatementShape::Reference { field, mutable } => {
            if field < progress.values.len() && progress.values[field as int] is Some {
                Step::Goes(Progress { referenced: progress.referenced.update(field as int, true), ..progress })
            } else {
                Step::Stuck
            }
        },
    }
}

/// The construction after the first `count` steps of `code`, from `from`.
pub open spec fn run_code(from: Step, code: Seq<StatementShape>, args: Seq<Argument>, count: int) -> Step
    decreases count,
{
    if count <= 0 {
        from
    } else {
        match run_code(from, code, args, count - 1) {
            Step::Goes(progress) => advance(progress, code[count - 1], args),
            other => other,
        }
    }
}

/// The arguments are those that the parameters ask for: a value for a head,
/// a builder for a field that borrows.
pub open spec fn fits(params: Seq<ParamShape>, args: Seq<Argument>) -> bool {
    &&& params.len() == args.len()
    &&& forall|i: int|
        0 <= i < params.len() ==> ((#[trigger] params[i]).arg is Plain <==> args[i] is Value)
}

/// Every one of `heads` is an argument that is a value.
pub open spec fn heads_given(heads: Seq<usize>, args: Seq<Argument>) -> bool {
    forall|k: int| 0 <= k < heads.len() ==> (#[trigger] heads[k]) < args.len() && args[heads[k] as int] is Value
}

/// Every one of `field_names` is a field that is bound.
pub open spec fn all_bound(field_names: Seq<usize>, values: Seq<Option<i64>>) -> bool {
    forall|k: int|
        0 <= k < field_names.len() ==> (#[trigger] field_names[k]) < values.len() && values[field_names[k] as int]
            is Some
}

/// What a constructor does with `args`: `None` where the arguments are not
/// those it asks for or a step cannot be taken. A failure hands back the
/// values of `heads`.
pub open spec fn construction(
    params: Seq<ParamShape>,
    code: Seq<StatementShape>,
    field_names: Seq<usize>,
    heads: Seq<usize>,
    args: Seq<Argument>,
) -> Option<RunShape> {
    if !fits(params, args) || !heads_given(heads, args) {
        None
    } else {
        match run_code(Step::Goes(start(args)), code, args, code.len() as int) {
            Step::Stuck => None,
            Step::Fails { called, field, error } => Some(
                RunShape {
                    called,
                    result: ConstructionShape::Failed {
                        field,
                        error,
                        heads: Seq::new(heads.len(), |k: int| args[heads[k] as int]->Value_0),
                    },
                },
            ),
            Step::Goes(progress) => if all_bound(field_names, progress.values) {
                Some(
                    RunShape {
                        called: progress.called,
                        result: ConstructionShape::Built(
                            Seq::new(field_names.len(), |k: int| progress.values[field_names[k] as int]->Some_0),
                        ),
                    },
                )
            } else {
                None
            },
        }
    }
}

/// No builder among `args` fails.
pub open spec fn infallible(args: Seq<Argument>) -> bool {
    forall|i: int| 0 <= i < args.len() ==> !(#[trigger] args[i] matches Argument::Builder(Err(_)))
}

/// Once a construction has ended, it stays as it is.
proof fn lemma_run_ended(from: Step, code: Seq<StatementShape>, args: Seq<Argument>, count: int, more: int)
    requires
        count <= more,
        !(run_code(from, code, args, count) is Goes),
    ensures
        run_code(from, code, args, more) == run_code(from, code, args, count),
    decreases more - count,
{
    if count < more {
        lemma_run_ended(from, code, args, count, more - 1);
    }
}

fn check_fits(params: &Vec<Param>, args: &Vec<Argument>) -> (ok: bool)
    ensures
        ok == fits(models_of(params@), args@),
{
    if params.len() != args.len() {
        return false;
    }
    let mut i: usize = 0;
    while i < params.len()
        invariant
            i <= params@.len(),
            params@.len() == args@.len(),
            forall|k: int|
                0 <= k < i ==> ((#[trigger] models_of(params@)[k]).arg is Plain <==> args@[k] is Value),
        decreases params@.len() - i,
    {
        let plain = match &params[i].arg {
            ArgType::Plain => true,
            ArgType::TraitBound(_) => false,
        };
        let value = match args[i] {
            Argument::Value(_) => true,
            Argument::Builder(_) => false,
        };
        if plain != value {
            assert(!(models_of(params@)[i as int].arg is Plain <==> args@[i as int] is Value));
            return false;
        }
        i += 1;
    }
    true
}

fn head_values(heads: &Vec<usize>, args: &Vec<Argument>) -> (values: Option<Vec<i64>>)
    ensures
        match values {
            Some(values) => heads_given(heads@, args@) && values@ == Seq::new(
                heads@.len(),
                |k: int| args@[heads@[k] as int]->Value_0,
            ),
            None => !heads_given(heads@, args@),
        },
{
    let mut values: Vec<i64> = Vec::new();
    let mut k: usize = 0;
    while k < heads.len()
        invariant
            k <= heads@.len(),
            values@.len() == k,
            forall|j: int| 0 <= j < k ==> (#[trigger] heads@[j]) < args@.len() && args@[heads@[j] as int] is Value,
            forall|j: int| 0 <= j < k ==> #[trigger] values@[j] == args@[heads@[j] as int]->Value_0,
        decreases heads@.len() - k,
    {
        let head = heads[k];
        if head >= args.len() {
            return None;
        }
        match args[head] {
            Argument::Value(value) => {
                values.push(value);
            },
            Argument::Builder(_) => {
                return None;
            },
        }
        k += 1;
    }
    assert(values@ =~= Seq::new(heads@.len(), |k: int| args@[heads@[k] as int]->Value_0));
    Some(values)
}

fn check_referenced(referenced: &Vec<bool>, refs: &Vec<usize>) -> (ok: bool)
    ensures
        ok == all_referenced(referenced@, refs@),
{
    let mut j: usize = 0;
    while j < refs.len()
        invariant
            j <= refs@.len(),
            forall|k: int| 0 <= k < j ==> (#[trigger] refs@[k]) < referenced@.len() && referenced@[refs@[k] as int],
        decreases refs@.len() - j,
    {
        if refs[j] >= referenced.len() || !referenced[refs[j]] {
            return false;
        }
        j += 1;
    }
    true
}

fn run(
    params: &Vec<Param>,
    code: &Vec<Statement>,
    field_names: &Vec<usize>,
    heads: &Vec<usize>,
    args: &Vec<Argument>,
) -> (result: Option<Run>)
    ensures
        match result {
            Some(run) => construction(models_of(params@), models_of(code@), field_names@, heads@, args@) == Some(
                run@,
            ),
            None => construction(models_of(params@), models_of(code@), field_names@, heads@, args@) is None,
        },
{
    if !check_fits(params, args) {
        return None;
    }
    let recovered = match head_values(heads, args) {
        Some(values) => values,
        None => {
            return None;
        },
    };
    let ghost statements = models_of(code@);
    let mut values: Vec<Option<i64>> = Vec::new();
    let mut referenced: Vec<bool> = Vec::new();
    let mut called: Vec<usize> = Vec::new();
    let mut i: usize = 0;
    while i < args.len()
        invariant
            i <= args@.len(),
            values@ == start(args@).values.take(i as int),
            referenced@ == start(args@).referenced.take(i as int),
        decreases args@.len() - i,
    {
        match args[i] {
            Argument::Value(value) => {
                values.push(Some(value));
            },
            Argument::Builder(_) => {
                values.push(None);
            },
        }
        referenced.push(false);
        assert(values@ =~= start(args@).values.take(i + 1));
        assert(referenced@ =~= start(args@).referenced.take(i + 1));
        i += 1;
    }
    assert(values@ =~= start(args@).values);
    assert(referenced@ =~= start(args@).referenced);
    let mut i: usize = 0;
    while i < code.len()
        invariant
            i <= code@.len(),
            statements == models_of(code@),
            values@.len() == args@.len(),
            referenced@.len() == args@.len(),
            fits(models_of(params@), args@),
            heads_given(heads@, args@),
            recovered@ == Seq::new(heads@.len(), |k: int| args@[heads@[k] as int]->Value_0),
            run_code(Step::Goes(start(args@)), statements, args@, i as int) == Step::Goes(
                Progress { values: values@, referenced: referenced@, called: called@ },
            ),
        decreases code@.len() - i,
    {
        let ghost before = Progress { values: values@, referenced: referenced@, called: called@ };
        assert(statements[i as int] == code@[i as int]@);
        match &code[i] {
            Statement::Build { field, mutable: _, args: refs } => {
                let field = *field;
                let builder: Option<Result<i64, i64>> = if field < args.len() {
                    match args[field] {
                        Argument::Builder(outcome) => Some(outcome),
                        Argument::Value(_) => None,
                    }
                } else {
                    None
                };
                let ready = match builder {
                    Some(_) => values[field].is_none() && check_referenced(&referenced, refs),
                    None => false,
                };
                if !ready {
                    proof {
                        assert(advance(before, statements[i as int], args@) is Stuck);
                        lemma_run_ended(Step::Goes(start(args@)), statements, args@, i + 1, code@.len() as int);
                    }
                    return None;
                }
                called.push(field);
                match builder {
                    Some(Ok(value)) => {
                        values.set(field, Some(value));
                    },
                    Some(Err(error)) => {
                        proof {
                            assert(advance(before, statements[i as int], args@) == Step::Fails {
                                called: called@,
                                field,
                                error,
                            });
                            lemma_run_ended(Step::Goes(start(args@)), statements, args@, i + 1, code@.len() as int);
                        }
                        return Some(
                            Run { called, result: Construction::Failed { field, error, heads: recovered } },
                        );
                    },
                    None => {},
                }
            },
            Statement::Reference { field, mutable: _ } => {
                let field = *field;
                if field < values.len() && values[field].is_some() {
                    referenced.set(field, true);
                } else {
                    proof {
                        assert(advance(before, statements[i as int], args@) is Stuck);
                        lemma_run_ended(Step::Goes(start(args@)), statements, args@, i + 1, code@.len() as int);
                    }
                    return None;
                }
            },
        }
        i += 1;
    }
    let mut built: Vec<i64> = Vec::new();
    let mut k: usize = 0;
    while k < field_names.len()
        invariant
            k <= field_names@.len(),
            built@.len() == k,
            statements == models_of(code@),
            fits(models_of(params@), args@),
            heads_given(heads@, args@),
            run_code(Step::Goes(start(args@)), statements, args@, code@.len() as int) == Step::Goes(
                Progress { values: values@, referenced: referenced@, called: called@ },
            ),
            forall|j: int|
                0 <= j < k ==> (#[trigger] field_names@[j]) < values@.len() && values@[field_names@[j] as int]
                    is Some,
            forall|j: int| 0 <= j < k ==> #[trigger] built@[j] == values@[field_names@[j] as int]->Some_0,
        decreases field_names@.len() - k,
    {
        let field = field_names[k];
        if field >= values.len() {
            return None;
        }
        match values[field] {
            Some(value) => {
                built.push(value);
            },
            None => {
                return None;
            },
        }
        k += 1;
    }
    assert(built@ =~= Seq::new(field_names@.len(), |k: int| values@[field_names@[k] as int]->Some_0));
    Some(Run { called, result: Construction::Built(built) })
}


/// `result` is the run `expected`, if there is one.
pub open spec fn same_run(result: Option<Run>, expected: Option<RunShape>) -> bool {
    match result {
        Some(run) => expected == Some(run@),
        None => expected is None,
    }
}

/// What the constructor `new` does: its builders cannot fail.
pub open spec fn new_run(def: ConstructorDef, args: Seq<Argument>) -> Option<RunShape> {
    if infallible(args) {
        construction(models_of(def.params@), models_of(def.code@), def.field_names@, Seq::empty(), args)
    } else {
        None
    }
}

/// What the constructor `try_new` does: a failure hands back nothing but the
/// error.
pub open spec fn try_new_run(def: TryConstructorDef, args: Seq<Argument>) -> Option<RunShape> {
    construction(models_of(def.params@), models_of(def.code@), def.field_names@, Seq::empty(), args)
}

/// What the constructor `try_new_or_recover` does: a failure hands back the
/// heads with the error.
pub open spec fn try_new_or_recover_run(def: TryConstructorDef, args: Seq<Argument>) -> Option<RunShape> {
    construction(models_of(def.params@), models_of(def.code@), def.field_names@, def.head_field_names@, args)
}

/// What a builder struct with the fields `values` hands to the constructor:
/// for each parameter in turn, the field that `field_names` gives.
pub open spec fn forwarded(field_names: Seq<usize>, values: Seq<Argument>) -> Option<Seq<Argument>> {
    if forall|k: int| 0 <= k < field_names.len() ==> (#[trigger] field_names[k]) < values.len() {
        Some(Seq::new(field_names.len(), |k: int| values[field_names[k] as int]))
    } else {
        None
    }
}

fn check_infallible(args: &Vec<Argument>) -> (ok: bool)
    ensures
        ok == infallible(args@),
{
    let mut i: usize = 0;
    while i < args.len()
        invariant
            i <= args@.len(),
            forall|k: int| 0 <= k < i ==> !(#[trigger] args@[k] matches Argument::Builder(Err(_))),
        decreases args@.len() - i,
    {
        match args[i] {
            Argument::Builder(Err(_)) => {
                return false;
            },
            _ => {},
        }
        i += 1;
    }
    true
}

/// Runs the constructor `new` on `args`, one argument for each parameter.
/// `None` where an argument is not what its parameter asks for, a builder
/// fails, or a step of the definition cannot be taken.
pub fn new(def: &ConstructorDef, args: &Vec<Argument>) -> (result: Option<Run>)
    ensures
        same_run(result, new_run(*def, args@)),
{
    if !check_infallible(args) {
        return None;
    }
    let heads: Vec<usize> = Vec::new();
    run(&def.params, &def.code, &def.field_names, &heads, args)
}

/// Runs the constructor `try_new` on `args`.
pub fn try_new(def: &TryConstructorDef, args: &Vec<Argument>) -> (result: Option<Run>)
    ensures
        same_run(result, try_new_run(*def, args@)),
{
    let heads: Vec<usize> = Vec::new();
    run(&def.params, &def.code, &def.field_names, &heads, args)
}

/// Runs the constructor `try_new_or_recover` on `args`.
pub fn try_new_or_recover(def: &TryConstructorDef, args: &Vec<Argument>) -> (result: Option<Run>)
    ensures
        same_run(result, try_new_or_recover_run(*def, args@)),
{
    run(&def.params, &def.code, &def.field_names, &def.head_field_names, args)
}

fn forward(field_names: &Vec<usize>, values: &Vec<Argument>) -> (args: Option<Vec<Argument>>)
    ensures
        match args {
            Some(args) => forwarded(field_names@, values@) == Some(args@),
            None => forwarded(field_names@, values@) is None,
        },
{
    let mut args: Vec<Argument> = Vec::new();
    let mut k: usize = 0;
    while k < field_names.len()
        invariant
            k <= field_names@.len(),
            args@.len() == k,
            forall|j: int| 0 <= j < k ==> (#[trigger] field_names@[j]) < values@.len(),
            forall|j: int| 0 <= j < k ==> #[trigger] args@[j] == values@[field_names@[j] as int],
        decreases field_names@.len() - k,
    {
        if field_names[k] >= values.len() {
            return None;
        }
        args.push(values[field_names[k]]);
        k += 1;
    }
    assert(args@ =~= Seq::new(field_names@.len(), |k: int| values@[field_names@[k] as int]));
    Some(args)
}

/// Runs `build` of the builder struct `builder` whose fields hold `values`:
/// the call of `new` with the fields in the order of the parameters.
pub fn build(builder: &BuilderDef, def: &ConstructorDef, values: &Vec<Argument>) -> (result: Option<Run>)
    ensures
        same_run(
            result,
            match forwarded(builder.field_names@, values@) {
                Some(args) => new_run(*def, args),
                None => None,
            },
        ),
{
    match forward(&builder.field_names, values) {
        Some(args) => new(def, &args),
        None => None,
    }
}

/// Runs `try_build` of the builder struct `builder` whose fields hold
/// `values`: the call of `try_new`.
pub fn try_build(builder: &BuilderDef, def: &TryConstructorDef, values: &Vec<Argument>) -> (result: Option<Run>)
    ensures
        same_run(
            result,
            match forwarded(builder.field_names@, values@) {
                Some(args) => try_new_run(*def, args),
                None => None,
            },
        ),
{
    match forward(&builder.field_names, values) {
        Some(args) => try_new(def, &args),
        None => None,
    }
}

/// Runs `try_build_or_recover` of the builder struct `builder` whose fields
/// hold `values`: the call of `try_new_or_recover`.
pub fn try_build_or_recover(builder: &BuilderDef, def: &TryConstructorDef, values: &Vec<Argument>) -> (result:
    Option<Run>)
    ensures
        same_run(
            result,
            match forwarded(builder.field_names@, values@) {
                Some(args) => try_new_or_recover_run(*def, args),
                None => None,
            },
        ),
{
    match forward(&builder.field_names, values) {
        Some(args) => try_new_or_recover(def, &args),
        None => None,
    }
}

/// `args` are arguments for a constructor of the catalogue `fields`: a value
/// for each head, a builder for each field that borrows.
pub open spec fn arguments_for(fields: Seq<StructFieldInfo>, args: Seq<Argument>) -> bool {
    &&& args.len() == fields.len()
    &&& forall|i: int| 0 <= i < fields.len() ==> ((#[trigger] fields[i]).is_head() <==> args[i] is Value)
}

/// The first of the first `count` arguments that is a builder that fails.
pub open spec fn first_failure(args: Seq<Argument>, count: int) -> Option<int>
    decreases count,
{
    if count <= 0 {
        None
    } else {
        match first_failure(args, count - 1) {
            Some(k) => Some(k),
            None => if args[count - 1] matches Argument::Builder(Err(_)) {
                Some(count - 1)
            } else {
                None
            },
        }
    }
}

/// The fields that borrow among the first `count` fields, in declaration order.
pub open spec fn dependents(fields: Seq<StructFieldInfo>, count: int) -> Seq<usize>
    decreases count,
{
    if count <= 0 {
        Seq::empty()
    } else if fields[count - 1].is_head() {
        dependents(fields, count - 1)
    } else {
        dependents(fields, count - 1).push((count - 1) as usize)
    }
}

/// The value that an argument gives its field.
pub open spec fn value_of(arg: Argument) -> i64 {
    match arg {
        Argument::Value(value) => value,
        Argument::Builder(Ok(value)) => value,
        Argument::Builder(Err(error)) => error,
    }
}

/// The values of the fields `heads`, which are among `args`.
pub open spec fn values_of(heads: Seq<usize>, args: Seq<Argument>) -> Seq<i64> {
    Seq::new(heads.len(), |k: int| args[heads[k] as int]->Value_0)
}

/// How a constructor of the catalogue `fields` runs on `args`: it calls the
/// builders in declaration order, up to the first that fails, and hands back
/// that builder's error with the values of `heads`; where none fails, it
/// calls them all and yields the value of every field.
pub open spec fn expected_run(fields: Seq<StructFieldInfo>, heads: Seq<usize>, args: Seq<Argument>) -> RunShape {
    match first_failure(args, args.len() as int) {
        Some(k) => RunShape {
            called: dependents(fields, k + 1),
            result: ConstructionShape::Failed {
                field: k as usize,
                error: args[k]->Builder_0->Err_0,
                heads: values_of(heads, args),
            },
        },
        None => RunShape {
            called: dependents(fields, fields.len() as int),
            result: ConstructionShape::Built(Seq::new(fields.len(), |i: int| value_of(args[i]))),
        },
    }
}

/// The construction after the first `count` fields, where no builder has failed.
pub open spec fn progress_after(fields: Seq<StructFieldInfo>, args: Seq<Argument>, count: int) -> Progress {
    Progress {
        values: Seq::new(
            fields.len(),
            |t: int|
                if fields[t].is_head() || t < count {
                    Some(value_of(args[t]))
                } else {
                    None
                },
        ),
        referenced: Seq::new(fields.len(), |t: int| t < count && fields[t].field_type != FieldType::Tail),
        called: dependents(fields, count),
    }
}

/// The steps of `first`, then those of `second`.
proof fn lemma_run_concat(
    from: Step,
    first: Seq<StatementShape>,
    second: Seq<StatementShape>,
    args: Seq<Argument>,
    count: int,
)
    requires
        0 <= count <= second.len(),
    ensures
        run_code(from, first + second, args, first.len() + count) == run_code(
            run_code(from, first, args, first.len() as int),
            second,
            args,
            count,
        ),
    decreases count,
{
    if count == 0 {
        lemma_run_same(from, first + second, first, args, first.len() as int);
    } else {
        lemma_run_concat(from, first, second, args, count - 1);
        assert((first + second)[first.len() + count - 1] == second[count - 1]);
    }
}

/// A run reads the first `count` steps only.
proof fn lemma_run_same(from: Step, a: Seq<StatementShape>, b: Seq<StatementShape>, args: Seq<Argument>, count: int)
    requires
        forall|k: int| 0 <= k < count ==> a[k] == b[k],
    ensures
        run_code(from, a, args, count) == run_code(from, b, args, count),
    decreases count,
{
    if count > 0 {
        lemma_run_same(from, a, b, args, count - 1);
    }
}

/// The steps of one field: its builder is handed references that are held
/// into fields that are bound, and the construction goes on to the next
/// field unless the builder fails.
proof fn lemma_field_runs(fields: Seq<StructFieldInfo>, args: Seq<Argument>, i: int)
    requires
        fields.len() <= usize::MAX,
        valid_catalogue(fields),
        arguments_for(fields, args),
        0 <= i < fields.len(),
    ensures
        run_code(
            Step::Goes(progress_after(fields, args, i)),
            field_code(fields, i),
            args,
            field_code(fields, i).len() as int,
        ) == (if args[i] matches Argument::Builder(Err(_)) {
            Step::Fails {
                called: dependents(fields, i + 1),
                field: i as usize,
                error: args[i]->Builder_0->Err_0,
            }
        } else {
            Step::Goes(progress_after(fields, args, i + 1))
        }),
{
    reveal_with_fuel(run_code, 3);
    let before = progress_after(fields, args, i);
    let after = progress_after(fields, args, i + 1);
    let code = field_code(fields, i);
    let from = Step::Goes(before);
    let field = fields[i];
    let reference = StatementShape::Reference {
        field: i as usize,
        mutable: field.field_type == FieldType::BorrowedMut,
    };
    if field.is_head() {
        assert(args[i] is Value);
        assert(dependents(fields, i + 1) == dependents(fields, i));
        if field.field_type == FieldType::Tail {
            assert(code =~= Seq::<StatementShape>::empty());
            assert(before.values =~= after.values);
            assert(before.referenced =~= after.referenced);
        } else {
            assert(code =~= seq![reference]);
            assert(code[0] == reference);
            assert(before.values =~= after.values);
            assert(before.referenced.update(i, true) =~= after.referenced);
        }
    } else {
        let refs = targets(field.borrows@);
        let build = StatementShape::Build {
            field: i as usize,
            mutable: field.field_type == FieldType::BorrowedMut,
            args: refs,
        };
        assert(args[i] is Builder);
        assert(dependents(fields, i + 1) == dependents(fields, i).push(i as usize));
        assert forall|j: int| 0 <= j < refs.len() implies (#[trigger] refs[j]) < before.referenced.len()
            && before.referenced[refs[j] as int] by {
            valid_catalogue_request(fields, i, j);
        }
        assert(all_referenced(before.referenced, refs));
        assert(code[0] == build);
        match args[i]->Builder_0 {
            Ok(value) => {
                let middle = Progress {
                    values: before.values.update(i, Some(value)),
                    called: before.called.push(i as usize),
                    ..before
                };
                assert(advance(before, build, args) == Step::Goes(middle));
                assert(middle.values =~= after.values);
                if field.field_type == FieldType::Tail {
                    assert(code =~= seq![build]);
                    assert(middle.referenced =~= after.referenced);
                } else {
                    assert(code =~= seq![build, reference]);
                    assert(code[1] == reference);
                    assert(middle.referenced.update(i, true) =~= after.referenced);
                }
            },
            Err(error) => {
                assert(advance(before, build, args) == Step::Fails {
                    called: dependents(fields, i + 1),
                    field: i as usize,
                    error,
                });
                if field.field_type == FieldType::Tail {
                    assert(code =~= seq![build]);
                } else {
                    assert(code =~= seq![build, reference]);
                }
            },
        }
    }
}

/// The steps of the first `count` fields.
proof fn lemma_fields_run(fields: Seq<StructFieldInfo>, args: Seq<Argument>, count: int)
    requires
        fields.len() <= usize::MAX,
        valid_catalogue(fields),
        arguments_for(fields, args),
        0 <= count <= fields.len(),
    ensures
        run_code(
            Step::Goes(start(args)),
            constructor_code(fields, count),
            args,
            constructor_code(fields, count).len() as int,
        ) == (match first_failure(args, count) {
            Some(k) => Step::Fails {
                called: dependents(fields, k + 1),
                field: k as usize,
                error: args[k]->Builder_0->Err_0,
            },
            None => Step::Goes(progress_after(fields, args, count)),
        }),
        match first_failure(args, count) {
            Some(k) => 0 <= k < count && args[k] matches Argument::Builder(Err(_)),
            None => forall|k: int| 0 <= k < count ==> !(#[trigger] args[k] matches Argument::Builder(Err(_))),
        },
    decreases count,
{
    if count <= 0 {
        assert(start(args).values =~= progress_after(fields, args, 0).values);
        assert(start(args).referenced =~= progress_after(fields, args, 0).referenced);
    } else {
        lemma_fields_run(fields, args, count - 1);
        let earlier = constructor_code(fields, count - 1);
        let code = field_code(fields, count - 1);
        lemma_run_concat(Step::Goes(start(args)), earlier, code, args, code.len() as int);
        match first_failure(args, count - 1) {
            Some(k) => {
                lemma_run_ended(
                    run_code(Step::Goes(start(args)), earlier, args, earlier.len() as int),
                    code,
                    args,
                    0,
                    code.len() as int,
                );
            },
            None => {
                lemma_field_runs(fields, args, count - 1);
            },
        }
    }
}

/// How the constructors of a valid catalogue run. Every step can be taken:
/// each builder is handed references that are held, into fields that are
/// bound. The builders are called in declaration order; the first that fails
/// ends the construction, and no builder is called after it.
pub proof fn constructor_runs(
    fields: Seq<StructFieldInfo>,
    output: ReturnShape,
    heads: Seq<usize>,
    args: Seq<Argument>,
)
    requires
        fields.len() <= usize::MAX,
        valid_catalogue(fields),
        arguments_for(fields, args),
        heads_given(heads, args),
    ensures
        construction(
            constructor_params(fields, fields.len() as int, output),
            constructor_code(fields, fields.len() as int),
            indices(fields.len() as int),
            heads,
            args,
        ) == Some(expected_run(fields, heads, args)),
{
    let n = fields.len() as int;
    lemma_fields_run(fields, args, n);
    let params = constructor_params(fields, n, output);
    assert(fits(params, args));
    match first_failure(args, n) {
        Some(k) => {},
        None => {
            let progress = progress_after(fields, args, n);
            assert(all_bound(indices(n), progress.values));
            assert(Seq::new(indices(n).len(), |k: int| progress.values[indices(n)[k] as int]->Some_0)
                =~= Seq::new(fields.len(), |i: int| value_of(args[i])));
        },
    }
}


/// The fields that borrow among the first `count` are among the first `count`.
pub proof fn lemma_dependents_before(fields: Seq<StructFieldInfo>, count: int)
    requires
        0 <= count <= fields.len() <= usize::MAX,
    ensures
        forall|j: int|
            0 <= j < dependents(fields, count).len() ==> (#[trigger] dependents(fields, count)[j]) < count
                && !fields[dependents(fields, count)[j] as int].is_head(),
    decreases count,
{
    if count > 0 {
        lemma_dependents_before(fields, count - 1);
        let now = dependents(fields, count);
        let before = dependents(fields, count - 1);
        assert forall|j: int| 0 <= j < now.len() implies (#[trigger] now[j]) < count && !fields[now[j] as int].is_head() by {
            if j < before.len() {
                assert(now[j] == before[j]);
            }
        }
    }
}

/// The heads among the first `count` fields are heads, and among the first
/// `count`.
pub proof fn lemma_heads_before(fields: Seq<StructFieldInfo>, count: int)
    requires
        0 <= count <= fields.len() <= usize::MAX,
    ensures
        forall|j: int|
            0 <= j < heads_of(fields, count).len() ==> (#[trigger] heads_of(fields, count)[j]) < count
                && fields[heads_of(fields, count)[j] as int].is_head(),
    decreases count,
{
    if count > 0 {
        lemma_heads_before(fields, count - 1);
        let now = heads_of(fields, count);
        let before = heads_of(fields, count - 1);
        assert forall|j: int| 0 <= j < now.len() implies (#[trigger] now[j]) < count && fields[now[j] as int].is_head() by {
            if j < before.len() {
                assert(now[j] == before[j]);
            }
        }
    }
}

/// Where no head is declared from `from` on, the heads are those declared
/// before `from`.
proof fn lemma_heads_all_before(fields: Seq<StructFieldInfo>, from: int, count: int)
    requires
        0 <= from <= count <= fields.len(),
        forall|i: int| from <= i < fields.len() ==> !(#[trigger] fields[i]).is_head(),
    ensures
        heads_of(fields, count) == heads_of(fields, from),
    decreases count,
{
    if count > from {
        lemma_heads_all_before(fields, from, count - 1);
    }
}

/// The builder struct hands its fields to the constructor as they stand:
/// `build`, `try_build` and `try_build_or_recover` of a builder struct run as
/// `new`, `try_new` and `try_new_or_recover` do on the values of its fields.
pub proof fn build_is_new(
    fields: Seq<StructFieldInfo>,
    builder: BuilderDef,
    generic_args: Seq<Seq<char>>,
    extra: Seq<Seq<char>>,
    values: Seq<Argument>,
)
    requires
        fields.len() <= usize::MAX,
        builder_for(builder, fields, generic_args, extra),
        values.len() == fields.len(),
    ensures
        forwarded(builder.field_names@, values) == Some(values),
{
    assert(Seq::new(builder.field_names@.len(), |k: int| values[builder.field_names@[k] as int]) =~= values);
}

/// Where no builder fails, the constructors of a valid catalogue call every
/// builder, in declaration order, and yield the value of every field.
pub proof fn construction_succeeds(fields: Seq<StructFieldInfo>, def: TryConstructorDef, args: Seq<Argument>)
    requires
        fields.len() <= usize::MAX,
        valid_catalogue(fields),
        constructor_for(def.params@, def.code@, def.field_names@, fields, ReturnShape::Fallible),
        def.head_field_names@ == heads_of(fields, fields.len() as int),
        arguments_for(fields, args),
        infallible(args),
    ensures
        try_new_or_recover_run(def, args) == Some(
            RunShape {
                called: dependents(fields, fields.len() as int),
                result: ConstructionShape::Built(Seq::new(fields.len(), |i: int| value_of(args[i]))),
            },
        ),
        try_new_run(def, args) == try_new_or_recover_run(def, args),
{
    let n = fields.len() as int;
    lemma_heads_before(fields, n);
    lemma_fields_run(fields, args, n);
    constructor_runs(fields, ReturnShape::Fallible, def.head_field_names@, args);
    constructor_runs(fields, ReturnShape::Fallible, Seq::empty(), args);
}

/// Where the builder of the field `k` is the first that fails, the fallible
/// constructors of a valid catalogue call the builders of the fields up to
/// `k`, in declaration order, and no builder of a field after `k`. Both end
/// with that builder's error; `try_new_or_recover` hands back with it the
/// value of every head. Where every head is declared before `k`, these are
/// the heads among the first `k` fields.
pub proof fn failure_is_recovered(
    fields: Seq<StructFieldInfo>,
    def: TryConstructorDef,
    args: Seq<Argument>,
    k: int,
)
    requires
        fields.len() <= usize::MAX,
        valid_catalogue(fields),
        constructor_for(def.params@, def.code@, def.field_names@, fields, ReturnShape::Fallible),
        def.head_field_names@ == heads_of(fields, fields.len() as int),
        arguments_for(fields, args),
        first_failure(args, args.len() as int) == Some(k),
    ensures
        0 <= k < fields.len(),
        try_new_or_recover_run(def, args) == Some(
            RunShape {
                called: dependents(fields, k + 1),
                result: ConstructionShape::Failed {
                    field: k as usize,
                    error: args[k]->Builder_0->Err_0,
                    heads: values_of(heads_of(fields, fields.len() as int), args),
                },
            },
        ),
        try_new_run(def, args) == Some(
            RunShape {
                called: dependents(fields, k + 1),
                result: ConstructionShape::Failed {
                    field: k as usize,
                    error: args[k]->Builder_0->Err_0,
                    heads: Seq::empty(),
                },
            },
        ),
        forall|j: int|
            0 <= j < dependents(fields, k + 1).len() ==> (#[trigger] dependents(fields, k + 1)[j]) <= k,
        (forall|i: int| k < i < fields.len() ==> !(#[trigger] fields[i]).is_head()) ==> heads_of(
            fields,
            fields.len() as int,
        ) == heads_of(fields, k),
{
    let n = fields.len() as int;
    lemma_heads_before(fields, n);
    lemma_fields_run(fields, args, n);
    constructor_runs(fields, ReturnShape::Fallible, def.head_field_names@, args);
    constructor_runs(fields, ReturnShape::Fallible, Seq::empty(), args);
    assert(values_of(Seq::empty(), args) =~= Seq::<i64>::empty());
    lemma_dependents_before(fields, k + 1);
    if forall|i: int| k < i < fields.len() ==> !(#[trigger] fields[i]).is_head() {
        assert(!fields[k].is_head());
        lemma_heads_all_before(fields, k, n);
    }
}

} // verus!
