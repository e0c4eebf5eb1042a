//! Token trees: what a declared type, or the arguments of an attribute, are made of.

use vstd::prelude::*;
use vstd::string::*;

verus! {

/// The brackets around a group of tokens.
#[derive(Clone, Copy, PartialEq, Eq, Structural, Debug)]
pub enum Delimiter {
    Parenthesis,
    Brace,
    Bracket,
    /// No visible brackets: the group only keeps its tokens together.
    Invisible,
}

/// One token, or a bracketed group of tokens.
#[derive(PartialEq, Eq, Debug)]
pub enum TokenTree {
    Group(Delimiter, Vec<TokenTree>),
    /// An identifier or a keyword.
    Ident(String),
    /// One punctuation character, and whether the next token follows it
    /// without a space, as the `'` of a lifetime does.
    Punct(char, bool),
    /// A literal, by its text.
    Literal(String),
}

/// What a `TokenTree` stands for.
pub enum TokenModel {
    Group(Delimiter, Seq<TokenModel>),
    Ident(Seq<char>),
    Punct(char, bool),
    Literal(Seq<char>),
}

impl View for TokenTree {
    type V = TokenModel;

    open spec fn view(&self) -> TokenModel
        decreases self,
    {
        match self {
            TokenTree::Group(delimiter, inner) => TokenModel::Group(*delimiter, token_models(inner@)),
            TokenTree::Ident(text) => TokenModel::Ident(text@),
            TokenTree::Punct(c, joint) => TokenModel::Punct(*c, *joint),
            TokenTree::Literal(text) => TokenModel::Literal(text@),
        }
    }
}

/// The models of a sequence of tokens, one for one.
pub open spec fn token_models(tokens: Seq<TokenTree>) -> Seq<TokenModel>
    decreases tokens,
{
    if tokens.len() == 0 {
        Seq::empty()
    } else {
        token_models(tokens.drop_last()).push(tokens.last()@)
    }
}

/// `token` with every identifier `this` replaced by `static`, at any depth.
pub open spec fn static_for_this(token: TokenModel) -> TokenModel
    decreases token,
{
    match token {
        TokenModel::Group(delimiter, inner) => TokenModel::Group(delimiter, static_for_this_all(inner)),
        TokenModel::Ident(text) => if text == "this"@ {
            TokenModel::Ident("static"@)
        } else {
            token
        },
        _ => token,
    }
}

/// `static_for_this` of each token of a sequence.
pub open spec fn static_for_this_all(tokens: Seq<TokenModel>) -> Seq<TokenModel>
    decreases tokens,
{
    if tokens.len() == 0 {
        Seq::empty()
    } else {
        static_for_this_all(tokens.drop_last()).push(static_for_this(tokens.last()))
    }
}

pub proof fn lemma_token_models_push(tokens: Seq<TokenTree>, token: TokenTree)
    ensures
        token_models(tokens.push(token)) == token_models(tokens).push(token@),
{
    assert(tokens.push(token).drop_last() =~= tokens);
}

pub proof fn lemma_static_for_this_all_push(tokens: Seq<TokenModel>, token: TokenModel)
    ensures
        static_for_this_all(tokens.push(token)) == static_for_this_all(tokens).push(static_for_this(token)),
{
    assert(tokens.push(token).drop_last() =~= tokens);
}

fn replace_in_token(token: &TokenTree) -> (out: TokenTree)
    ensures
        out@ == static_for_this(token@),
    decreases token,
{
    match token {
        TokenTree::Group(delimiter, inner) => TokenTree::Group(*delimiter, replace_in_tokens(inner)),
        TokenTree::Ident(text) => {
            if *text == String::from_str("this") {
                TokenTree::Ident(String::from_str("static"))
            } else {
                TokenTree::Ident(text.clone())
            }
        },
        TokenTree::Punct(c, joint) => TokenTree::Punct(*c, *joint),
        TokenTree::Literal(text) => TokenTree::Literal(text.clone()),
    }
}

fn replace_in_tokens(input: &Vec<TokenTree>) -> (out: Vec<TokenTree>)
    ensures
        token_models(out@) == static_for_this_all(token_models(input@)),
    decreases input,
{
    let mut out: Vec<TokenTree> = Vec::new();
    let mut i: usize = 0;
    while i < input.len()
        invariant
            i <= input.len(),
            token_models(out@) == static_for_this_all(token_models(input@.take(i as int))),
        decreases input.len() - i,
    {
        let replaced = replace_in_token(&input[i]);
        proof {
            lemma_token_models_push(out@, replaced);
            lemma_token_models_push(input@.take(i as int), input@[i as int]);
            lemma_static_for_this_all_push(token_models(input@.take(i as int)), input@[i as int]@);
            assert(input@.take(i as int + 1) =~= input@.take(i as int).push(input@[i as int]));
        }
        out.push(replaced);
        i += 1;
    }
    proof {
        assert(input@.take(i as int) =~= input@);
    }
    out
}

fn copy_token(token: &TokenTree) -> (out: TokenTree)
    ensures
        out@ == token@,
    decreases token,
{
    match token {
        TokenTree::Group(delimiter, inner) => TokenTree::Group(*delimiter, copy_tokens(inner)),
        TokenTree::Ident(text) => TokenTree::Ident(text.clone()),
        TokenTree::Punct(c, joint) => TokenTree::Punct(*c, *joint),
        TokenTree::Literal(text) => TokenTree::Literal(text.clone()),
    }
}

/// A copy of `input`, token for token.
pub fn copy_tokens(input: &Vec<TokenTree>) -> (out: Vec<TokenTree>)
    ensures
        token_models(out@) == token_models(input@),
    decreases input,
{
    let mut out: Vec<TokenTree> = Vec::new();
    let mut i: usize = 0;
    while i < input.len()
        invariant
            i <= input.len(),
            token_models(out@) == token_models(input@.take(i as int)),
        decreases input.len() - i,
    {
        let copy = copy_token(&input[i]);
        proof {
            lemma_token_models_push(out@, copy);
            lemma_token_models_push(input@.take(i as int), input@[i as int]);
            assert(input@.take(i as int + 1) =~= input@.take(i as int).push(input@[i as int]));
        }
        out.push(copy);
        i += 1;
    }
    proof {
        assert(input@.take(i as int) =~= input@);
    }
    out
}

/// Replaces every identifier `this` by `static`, in the groups too: the
/// lifetime `'this` of a declared type becomes `'static` in the stored type.
pub fn replace_this_with_static(input: Vec<TokenTree>) -> (out: Vec<TokenTree>)
    ensures
        token_models(out@) == static_for_this_all(token_models(input@)),
{
    replace_in_tokens(&input)
}

} // verus!
