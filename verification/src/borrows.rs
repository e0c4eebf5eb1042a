//! The attribute `borrows(..)` of a field: the fields it names, each with or
//! without `mut`, separated by commas.

use vstd::prelude::*;
use vstd::string::*;
use crate::fields::{BorrowRequest, FieldType, StructFieldInfo, roles_of, with_roles};
use crate::roles::{Conflict, after_request, field_pass, lemma_field_pass_prefix, note_request};
use crate::tokens::TokenTree;

verus! {

/// An attribute: its path, and the tokens after the path.
#[derive(PartialEq, Eq, Debug)]
pub struct Attribute {
    /// Whether the path starts with `::`.
    pub leading_colon: bool,
    /// The identifiers of the path.
    pub segments: Vec<String>,
    pub tokens: Vec<TokenTree>,
}

/// Why the attribute `borrows(..)` of a field is refused. A position counts
/// the tokens between the brackets.
#[derive(Clone, Copy, PartialEq, Eq, Structural, Debug)]
pub enum BorrowsError {
    /// The path is not followed by one bracketed group.
    InvalidSyntax,
    /// An identifier follows a field's name without a comma between them.
    ExpectedComma { position: usize },
    /// `mut` follows `mut`.
    DoubleMut { position: usize },
    /// The identifier is not the name of a field declared before this one.
    UnknownIdentifier { position: usize },
    /// The field `field` cannot be borrowed in this way any more.
    Refused { position: usize, field: usize, conflict: Conflict },
    /// A comma follows no field's name.
    ExtraComma { position: usize },
    /// A punctuation character other than a comma.
    UnexpectedPunct { position: usize },
    /// A literal or a group.
    UnexpectedToken { position: usize },
}

/// How far the reading of an attribute has come: the roles of the fields
/// declared before, the requests read, whether `mut` was just read, and
/// whether a comma is due.
pub struct Scan {
    pub roles: Seq<FieldType>,
    pub borrows: Seq<BorrowRequest>,
    pub borrow_mut: bool,
    pub waiting_for_comma: bool,
}

/// The names of the fields of a catalogue.
pub open spec fn names_of(fields: Seq<StructFieldInfo>) -> Seq<Seq<char>> {
    Seq::new(fields.len(), |i: int| fields[i].name@)
}

/// The first of the first `count` names that is `name`.
pub open spec fn position_in(names: Seq<Seq<char>>, name: Seq<char>, count: int) -> Option<int>
    decreases count,
{
    if count <= 0 {
        None
    } else {
        match position_in(names, name, count - 1) {
            Some(k) => Some(k),
            None => if names[count - 1] == name {
                Some(count - 1)
            } else {
                None
            },
        }
    }
}

/// `position_in` finds the first occurrence, if there is one.
pub proof fn lemma_position_in(names: Seq<Seq<char>>, name: Seq<char>, count: int)
    requires
        0 <= count <= names.len(),
    ensures
        match position_in(names, name, count) {
            Some(k) => 0 <= k < count && names[k] == name && forall|j: int| 0 <= j < k ==> names[j] != name,
            None => forall|j: int| 0 <= j < count ==> names[j] != name,
        },
    decreases count,
{
    if count > 0 {
        lemma_position_in(names, name, count - 1);
        match position_in(names, name, count - 1) {
            Some(k) => {
                assert(position_in(names, name, count) == Some(k));
            },
            None => {
                if names[count - 1] == name {
                    assert(position_in(names, name, count) == Some(count - 1));
                } else {
                    assert(position_in(names, name, count) is None);
                    assert forall|j: int| 0 <= j < count implies names[j] != name by {
                        if j < count - 1 {
                        }
                    }
                }
            },
        }
    }
}

/// The reading after one more token, the one at `position`.
pub open spec fn scan_token(scan: Scan, names: Seq<Seq<char>>, token: TokenTree, position: usize) -> Result<
    Scan,
    BorrowsError,
> {
    match token {
        TokenTree::Ident(text) => {
            if scan.waiting_for_comma {
                Err(BorrowsError::ExpectedComma { position })
            } else if text@ == "mut"@ {
                if scan.borrow_mut {
                    Err(BorrowsError::DoubleMut { position })
                } else {
                    Ok(Scan { borrow_mut: true, ..scan })
                }
            } else {
                match position_in(names, text@, names.len() as int) {
                    None => Err(BorrowsError::UnknownIdentifier { position }),
                    Some(index) => match after_request(scan.roles[index], scan.borrow_mut) {
                        Err(conflict) => Err(
                            BorrowsError::Refused { position, field: index as usize, conflict },
                        ),
                        Ok(role) => Ok(
                            Scan {
                                roles: scan.roles.update(index, role),
                                borrows: scan.borrows.push(
                                    BorrowRequest { index: index as usize, mutable: scan.borrow_mut },
                                ),
                                borrow_mut: false,
                                waiting_for_comma: true,
                            },
                        ),
                    },
                }
            }
        },
        TokenTree::Punct(c, _) => {
            if c != ',' {
                Err(BorrowsError::UnexpectedPunct { position })
            } else if scan.waiting_for_comma {
                Ok(Scan { waiting_for_comma: false, ..scan })
            } else {
                Err(BorrowsError::ExtraComma { position })
            }
        },
        _ => Err(BorrowsError::UnexpectedToken { position }),
    }
}

/// The reading after the first `count` tokens.
pub open spec fn scan_tokens(start: Scan, names: Seq<Seq<char>>, tokens: Seq<TokenTree>, count: int) -> Result<
    Scan,
    BorrowsError,
>
    decreases count,
{
    if count <= 0 {
        Ok(start)
    } else {
        match scan_tokens(start, names, tokens, count - 1) {
            Err(e) => Err(e),
            Ok(scan) => scan_token(scan, names, tokens[count - 1], (count - 1) as usize),
        }
    }
}

/// What an attribute `borrows(..)` asks of the fields declared before its own:
/// their roles after it and the requests it makes, added to `borrows`. `roles`
/// and `names` are of the fields declared before; `tokens` follow the
/// attribute's path. A `mut` that no name follows asks nothing.
pub open spec fn scan_attribute(
    roles: Seq<FieldType>,
    borrows: Seq<BorrowRequest>,
    names: Seq<Seq<char>>,
    tokens: Seq<TokenTree>,
) -> Result<Scan, BorrowsError> {
    if tokens.len() > 0 && tokens[0] is Group {
        let inner = tokens[0]->Group_1@;
        scan_tokens(
            Scan { roles, borrows, borrow_mut: false, waiting_for_comma: false },
            names,
            inner,
            inner.len() as int,
        )
    } else {
        Err(BorrowsError::InvalidSyntax)
    }
}

/// Once a token is refused, the reading stays refused.
pub proof fn lemma_scan_stays_refused(
    start: Scan,
    names: Seq<Seq<char>>,
    tokens: Seq<TokenTree>,
    count: int,
    more: int,
)
    requires
        count <= more,
        scan_tokens(start, names, tokens, count) is Err,
    ensures
        scan_tokens(start, names, tokens, more) == scan_tokens(start, names, tokens, count),
    decreases more - count,
{
    if count < more {
        lemma_scan_stays_refused(start, names, tokens, count, more - 1);
    }
}

/// A reading keeps the number of roles, and every request it adds names a
/// field declared before.
pub proof fn lemma_scan_in_range(start: Scan, names: Seq<Seq<char>>, tokens: Seq<TokenTree>, count: int)
    requires
        start.roles.len() == names.len(),
        forall|j: int| 0 <= j < start.borrows.len() ==> (#[trigger] start.borrows[j]).index < names.len(),
    ensures
        match scan_tokens(start, names, tokens, count) {
            Ok(scan) => scan.roles.len() == names.len() && forall|j: int|
                0 <= j < scan.borrows.len() ==> (#[trigger] scan.borrows[j]).index < names.len(),
            Err(_) => true,
        },
    decreases count,
{
    if count > 0 {
        lemma_scan_in_range(start, names, tokens, count - 1);
        match scan_tokens(start, names, tokens, count - 1) {
            Ok(scan) => {
                match tokens[count - 1] {
                    TokenTree::Ident(text) => {
                        lemma_position_in(names, text@, names.len() as int);
                    },
                    _ => {},
                }
            },
            Err(_) => {},
        }
    }
}

/// A reading gives the roles that its requests give, taken one by one.
pub proof fn lemma_scan_is_field_pass(
    start: Scan,
    names: Seq<Seq<char>>,
    tokens: Seq<TokenTree>,
    count: int,
    roles: Seq<FieldType>,
    field: usize,
)
    requires
        names.len() <= usize::MAX,
        start.roles.len() == names.len(),
        field_pass(roles, field, start.borrows, start.borrows.len() as int) == Ok::<
            Seq<FieldType>,
            crate::roles::RequestError,
        >(start.roles),
    ensures
        match scan_tokens(start, names, tokens, count) {
            Ok(scan) => {
                &&& scan.roles.len() == names.len()
                &&& field_pass(roles, field, scan.borrows, scan.borrows.len() as int) == Ok::<
                    Seq<FieldType>,
                    crate::roles::RequestError,
                >(scan.roles)
            },
            Err(_) => true,
        },
    decreases count,
{
    if count > 0 {
        lemma_scan_is_field_pass(start, names, tokens, count - 1, roles, field);
        match scan_tokens(start, names, tokens, count - 1) {
            Ok(before) => {
                match scan_token(before, names, tokens[count - 1], (count - 1) as usize) {
                    Ok(scan) => {
                        match tokens[count - 1] {
                            TokenTree::Ident(text) => {
                                if text@ != "mut"@ {
                                    lemma_position_in(names, text@, names.len() as int);
                                    lemma_field_pass_prefix(
                                        roles,
                                        field,
                                        scan.borrows,
                                        before.borrows,
                                        before.borrows.len() as int,
                                    );
                                }
                            },
                            _ => {},
                        }
                    },
                    Err(_) => {},
                }
            },
            Err(_) => {},
        }
    }
}

fn position(field_info: &Vec<StructFieldInfo>, name: &String) -> (found: Option<usize>)
    ensures
        match found {
            Some(k) => position_in(names_of(field_info@), name@, field_info@.len() as int) == Some(k as int),
            None => position_in(names_of(field_info@), name@, field_info@.len() as int) is None,
        },
{
    let mut i: usize = 0;
    while i < field_info.len()
        invariant
            i <= field_info@.len(),
            position_in(names_of(field_info@), name@, i as int) is None,
        decreases field_info@.len() - i,
    {
        if field_info[i].name == *name {
            proof {
                lemma_position_found(names_of(field_info@), name@, i as int, field_info@.len() as int);
            }
            return Some(i);
        }
        i += 1;
    }
    None
}

proof fn lemma_position_found(names: Seq<Seq<char>>, name: Seq<char>, at: int, count: int)
    requires
        0 <= at < count,
        position_in(names, name, at) is None,
        names[at] == name,
    ensures
        position_in(names, name, count) == Some(at),
    decreases count,
{
    if count > at + 1 {
        lemma_position_found(names, name, at, count - 1);
    }
}

/// Reads the attribute `borrows(..)` of the field that is being declared:
/// `field_info` holds the fields declared before it, and `borrows` the
/// requests of the field itself. Each name is looked up among the fields
/// declared before, gives that field its new role and adds a request. Where
/// the attribute is refused, nothing is changed.
pub fn handle_borrows_attr(
    field_info: &mut Vec<StructFieldInfo>,
    attr: &Attribute,
    borrows: &mut Vec<BorrowRequest>,
) -> (result: Result<(), BorrowsError>)
    ensures
        match scan_attribute(
            roles_of(old(field_info)@),
            old(borrows)@,
            names_of(old(field_info)@),
            attr.tokens@,
        ) {
            Ok(scan) => {
                &&& result is Ok
                &&& final(field_info)@ == with_roles(old(field_info)@, scan.roles)
                &&& final(borrows)@ == scan.borrows
            },
            Err(e) => {
                &&& result == Err::<(), BorrowsError>(e)
                &&& *final(field_info) == *old(field_info)
                &&& *final(borrows) == *old(borrows)
            },
        },
{
    if attr.tokens.len() == 0 {
        return Err(BorrowsError::InvalidSyntax);
    }
    let tokens = match &attr.tokens[0] {
        TokenTree::Group(_, inner) => inner,
        _ => {
            return Err(BorrowsError::InvalidSyntax);
        },
    };
    let ghost names = names_of(field_info@);
    let ghost start = Scan {
        roles: roles_of(field_info@),
        borrows: borrows@,
        borrow_mut: false,
        waiting_for_comma: false,
    };
    let mut roles: Vec<FieldType> = Vec::new();
    let mut k: usize = 0;
    while k < field_info.len()
        invariant
            k <= field_info@.len(),
            roles@ == roles_of(field_info@).take(k as int),
        decreases field_info@.len() - k,
    {
        roles.push(field_info[k].field_type);
        assert(roles@ =~= roles_of(field_info@).take(k + 1));
        k += 1;
    }
    assert(roles@ =~= roles_of(field_info@));
    let mut requests: Vec<BorrowRequest> = Vec::new();
    let mut k: usize = 0;
    while k < borrows.len()
        invariant
            k <= borrows@.len(),
            requests@ == borrows@.take(k as int),
        decreases borrows@.len() - k,
    {
        requests.push(borrows[k]);
        assert(requests@ =~= borrows@.take(k + 1));
        k += 1;
    }
    assert(requests@ =~= borrows@);
    let mut borrow_mut = false;
    let mut waiting_for_comma = false;
    let mut i: usize = 0;
    while i < tokens.len()
        invariant
            i <= tokens@.len(),
            names == names_of(old(field_info)@),
            start == (Scan {
                roles: roles_of(old(field_info)@),
                borrows: old(borrows)@,
                borrow_mut: false,
                waiting_for_comma: false,
            }),
            roles@.len() == field_info@.len(),
            *field_info == *old(field_info),
            *borrows == *old(borrows),
            attr.tokens@.len() > 0,
            attr.tokens@[0] is Group,
            tokens@ == attr.tokens@[0]->Group_1@,
            scan_attribute(start.roles, start.borrows, names, attr.tokens@) == scan_tokens(
                start,
                names,
                tokens@,
                tokens@.len() as int,
            ),
            scan_tokens(start, names, tokens@, i as int) == Ok::<Scan, BorrowsError>(
                Scan { roles: roles@, borrows: requests@, borrow_mut, waiting_for_comma },
            ),
        decreases tokens@.len() - i,
    {
        let ghost before = Scan { roles: roles@, borrows: requests@, borrow_mut, waiting_for_comma };
        let mut refused: Option<BorrowsError> = None;
        match &tokens[i] {
            TokenTree::Ident(ident) => {
                if waiting_for_comma {
                    refused = Some(BorrowsError::ExpectedComma { position: i });
                } else if *ident == String::from_str("mut") {
                    if borrow_mut {
                        refused = Some(BorrowsError::DoubleMut { position: i });
                    } else {
                        borrow_mut = true;
                    }
                } else {
                    match position(field_info, ident) {
                        None => {
                            refused = Some(BorrowsError::UnknownIdentifier { position: i });
                        },
                        Some(index) => {
                            proof {
                                lemma_position_in(names, ident@, names.len() as int);
                            }
                            match note_request(roles[index], borrow_mut) {
                                Err(conflict) => {
                                    refused = Some(BorrowsError::Refused { position: i, field: index, conflict });
                                },
                                Ok(role) => {
                                    roles.set(index, role);
                                    requests.push(BorrowRequest { index, mutable: borrow_mut });
                                    waiting_for_comma = true;
                                    borrow_mut = false;
                                },
                            }
                        },
                    }
                }
            },
            TokenTree::Punct(c, _) => {
                if *c != ',' {
                    refused = Some(BorrowsError::UnexpectedPunct { position: i });
                } else if waiting_for_comma {
                    waiting_for_comma = false;
                } else {
                    refused = Some(BorrowsError::ExtraComma { position: i });
                }
            },
            _ => {
                refused = Some(BorrowsError::UnexpectedToken { position: i });
            },
        }
        match refused {
            Some(e) => {
                proof {
                    assert(scan_token(before, names, tokens@[i as int], i) == Err::<Scan, BorrowsError>(e));
                    assert(scan_tokens(start, names, tokens@, i + 1) == Err::<Scan, BorrowsError>(e));
                    lemma_scan_stays_refused(start, names, tokens@, i + 1, tokens@.len() as int);
                }
                return Err(e);
            },
            None => {
                assert(scan_token(before, names, tokens@[i as int], i) == Ok::<Scan, BorrowsError>(
                    Scan { roles: roles@, borrows: requests@, borrow_mut, waiting_for_comma },
                ));
            },
        }
        i += 1;
    }
    let mut k: usize = 0;
    while k < field_info.len()
        invariant
            k <= field_info@.len(),
            field_info@.len() == old(field_info)@.len(),
            roles@.len() == field_info@.len(),
            forall|j: int| 0 <= j < k ==> #[trigger] field_info@[j] == with_roles(old(field_info)@, roles@)[j],
            forall|j: int| k <= j < field_info@.len() ==> #[trigger] field_info@[j] == old(field_info)@[j],
        decreases field_info@.len() - k,
    {
        field_info[k].field_type = roles[k];
        k += 1;
    }
    assert(field_info@ =~= with_roles(old(field_info)@, roles@));
    *borrows = requests;
    Ok(())
}

} // verus!
