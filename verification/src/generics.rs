//! The generic parameters of the struct, and the arguments that name them.

use vstd::prelude::*;
use vstd::string::*;
use crate::error::Error;
use crate::models::{models_of, lemma_models_push, lemma_models_empty};

verus! {

/// A generic parameter, by its name: the identifier of a type or of a
/// constant, the lifetime with its `'`.
#[derive(PartialEq, Eq, Debug)]
pub enum GenericParam {
    Type(String),
    Lifetime(String),
    Const(String),
}

impl GenericParam {
    /// The name of the parameter.
    pub open spec fn name(self) -> Seq<char> {
        match self {
            GenericParam::Type(ident) => ident@,
            GenericParam::Lifetime(lifetime) => lifetime@,
            GenericParam::Const(ident) => ident@,
        }
    }
}

/// The first of the first `count` parameters that is a constant.
pub open spec fn first_const(params: Seq<GenericParam>, count: int) -> Option<int>
    decreases count,
{
    if count <= 0 {
        None
    } else {
        match first_const(params, count - 1) {
            Some(k) => Some(k),
            None => if params[count - 1] is Const {
                Some(count - 1)
            } else {
                None
            },
        }
    }
}

/// The names of the parameters, in order.
pub open spec fn generic_arguments(params: Seq<GenericParam>) -> Seq<Seq<char>> {
    Seq::new(params.len(), |i: int| params[i].name())
}

proof fn lemma_first_const_found(params: Seq<GenericParam>, at: int, count: int)
    requires
        0 <= at < count,
        first_const(params, at) is None,
        params[at] is Const,
    ensures
        first_const(params, count) == Some(at),
    decreases count,
{
    if count > at + 1 {
        lemma_first_const_found(params, at, count - 1);
    }
}

/// Takes the generic parameters of the struct and turns them into arguments:
/// each type and each lifetime by its name. Constants are not supported.
pub fn make_generic_arguments(generic_params: &Vec<GenericParam>) -> (result: Result<Vec<String>, Error>)
    ensures
        match first_const(generic_params@, generic_params@.len() as int) {
            Some(position) => result == Err::<Vec<String>, Error>(
                Error::ConstGeneric { position: position as usize },
            ),
            None => result is Ok && models_of(result->Ok_0@) == generic_arguments(generic_params@),
        },
{
    let mut arguments: Vec<String> = Vec::new();
    proof {
        lemma_models_empty::<String>();
    }
    let mut i: usize = 0;
    while i < generic_params.len()
        invariant
            i <= generic_params@.len(),
            first_const(generic_params@, i as int) is None,
            models_of(arguments@) == generic_arguments(generic_params@.take(i as int)),
        decreases generic_params@.len() - i,
    {
        match &generic_params[i] {
            GenericParam::Type(ident) => {
                let argument = ident.clone();
                proof {
                    lemma_models_push(arguments@, argument);
                }
                arguments.push(argument);
            },
            GenericParam::Lifetime(lifetime) => {
                let argument = lifetime.clone();
                proof {
                    lemma_models_push(arguments@, argument);
                }
                arguments.push(argument);
            },
            GenericParam::Const(_) => {
                proof {
                    lemma_first_const_found(generic_params@, i as int, generic_params@.len() as int);
                }
                return Err(Error::ConstGeneric { position: i });
            },
        }
        assert(models_of(arguments@) =~= generic_arguments(generic_params@.take(i + 1)));
        i += 1;
    }
    assert(generic_params@.take(i as int) =~= generic_params@);
    Ok(arguments)
}

} // verus!
