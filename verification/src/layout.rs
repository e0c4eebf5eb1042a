//! From the declared fields to the catalogue and the storage layout.
//!
//! The fields are stored in the reverse of the order in which they are
//! declared: a struct drops its fields in the order in which it stores them,
//! and a field that borrows from another is dropped before it.

use vstd::prelude::*;
use vstd::string::*;
use crate::borrows::{
    Attribute, Scan, handle_borrows_attr, lemma_scan_in_range, lemma_scan_is_field_pass, names_of,
    scan_attribute,
};
use crate::error::Error;
use crate::fields::{BorrowRequest, FieldType, StructFieldInfo, requests_of, roles_of, with_roles};
use crate::roles::{
    CatalogueError, RequestError, catalogue_pass, classification, lemma_borrowed_means_not_all_tails,
    lemma_catalogue_pass_prefix, something_borrowed, valid_catalogue, valid_catalogue_request,
};
use crate::tokens::{
    TokenTree, copy_tokens, replace_this_with_static, static_for_this_all, token_models,
};

verus! {

/// A field as it is declared.
#[derive(PartialEq, Eq, Debug)]
pub struct Field {
    pub attrs: Vec<Attribute>,
    pub name: String,
    pub typ: Vec<TokenTree>,
}

/// The fields of a struct declaration.
#[derive(PartialEq, Eq, Debug)]
pub enum Fields {
    Named(Vec<Field>),
    Unnamed,
    Unit,
}

/// A field as it is stored: the declaration index of the field, the position
/// among its attributes of the `borrows(..)` that was read and is left out,
/// and its type with `'this` replaced by `'static`.
#[derive(PartialEq, Eq, Debug)]
pub struct StorageField {
    pub field: usize,
    pub borrows_attr: Option<usize>,
    pub typ: Vec<TokenTree>,
}

/// The attribute is `borrows`, with whatever follows.
pub open spec fn is_borrows(attr: Attribute) -> bool {
    &&& !attr.leading_colon
    &&& attr.segments@.len() == 1
    &&& attr.segments@[0]@ == "borrows"@
}

/// The first of the first `count` attributes that is `borrows`.
pub open spec fn borrows_attr_in(attrs: Seq<Attribute>, count: int) -> Option<int>
    decreases count,
{
    if count <= 0 {
        None
    } else {
        match borrows_attr_in(attrs, count - 1) {
            Some(k) => Some(k),
            None => if is_borrows(attrs[count - 1]) {
                Some(count - 1)
            } else {
                None
            },
        }
    }
}

/// The attribute of a field that is read: its first `borrows`.
pub open spec fn borrows_attr_of(field: Field) -> Option<int> {
    borrows_attr_in(field.attrs@, field.attrs@.len() as int)
}

/// The names of the declared fields.
pub open spec fn declared_names(fields: Seq<Field>) -> Seq<Seq<char>> {
    Seq::new(fields.len(), |i: int| fields[i].name@)
}

/// What has been gathered from the fields read so far: their roles and
/// their requests.
pub struct Collected {
    pub roles: Seq<FieldType>,
    pub requests: Seq<Seq<BorrowRequest>>,
}

/// The roles and the requests of the first `count` fields: each field reads
/// its attribute `borrows(..)`, if it has one, against the fields before it,
/// and starts as a tail.
pub open spec fn collect(fields: Seq<Field>, count: int) -> Result<Collected, Error>
    decreases count,
{
    if count <= 0 {
        Ok(Collected { roles: Seq::empty(), requests: Seq::empty() })
    } else {
        match collect(fields, count - 1) {
            Err(e) => Err(e),
            Ok(before) => match borrows_attr_of(fields[count - 1]) {
                None => Ok(
                    Collected {
                        roles: before.roles.push(FieldType::Tail),
                        requests: before.requests.push(Seq::empty()),
                    },
                ),
                Some(k) => match scan_attribute(
                    before.roles,
                    Seq::empty(),
                    declared_names(fields).take(count - 1),
                    fields[count - 1].attrs@[k].tokens@,
                ) {
                    Err(error) => Err(Error::Borrows { field: (count - 1) as usize, attr: k as usize, error }),
                    Ok(scan) => Ok(
                        Collected {
                            roles: scan.roles.push(FieldType::Tail),
                            requests: before.requests.push(scan.borrows),
                        },
                    ),
                },
            },
        }
    }
}

/// The roles and the requests of the fields of a struct, or the first reason
/// to refuse it.
pub open spec fn catalogue_of(fields: Fields) -> Result<Collected, Error> {
    match fields {
        Fields::Unnamed => Err(Error::TupleStruct),
        Fields::Unit => Err(Error::UnitStruct),
        Fields::Named(named) => match collect(named@, named@.len() as int) {
            Err(e) => Err(e),
            Ok(collected) => if named@.len() < 2 {
                Err(Error::TooFewFields)
            } else if !something_borrowed(collected.requests) {
                Err(Error::NothingBorrowed)
            } else {
                Ok(collected)
            },
        },
    }
}

/// `field_info` is the catalogue of the declared fields `fields`, with the
/// roles and the requests `collected`.
pub open spec fn catalogue_for(field_info: Seq<StructFieldInfo>, fields: Seq<Field>, collected: Collected) -> bool {
    &&& field_info.len() == fields.len()
    &&& roles_of(field_info) == collected.roles
    &&& requests_of(field_info) == collected.requests
    &&& forall|i: int|
        0 <= i < fields.len() ==> (#[trigger] field_info[i]).name@ == fields[i].name@ && token_models(
            field_info[i].typ@,
        ) == token_models(fields[i].typ@)
}

/// `stored` is how the declared fields `fields` are stored: the last declared
/// first.
pub open spec fn storage_for(stored: Seq<StorageField>, fields: Seq<Field>) -> bool {
    &&& stored.len() == fields.len()
    &&& forall|k: int|
        0 <= k < stored.len() ==> {
            let i = fields.len() - 1 - k;
            &&& (#[trigger] stored[k]).field == i
            &&& storage_position(fields.len() as int, i) == k
            &&& match borrows_attr_of(fields[i]) {
                Some(a) => stored[k].borrows_attr == Some(a as usize),
                None => stored[k].borrows_attr is None,
            }
            &&& token_models(stored[k].typ@) == static_for_this_all(token_models(fields[i].typ@))
        }
}

/// Where the field `field` of `count` fields is stored: the last declared
/// first.
pub open spec fn storage_position(count: int, field: int) -> int {
    count - 1 - field
}

/// A field that borrows from another is stored before it, and so is dropped
/// before it.
pub proof fn borrowers_are_stored_first(fields: Seq<StructFieldInfo>, field: int, request: int)
    requires
        fields.len() <= usize::MAX,
        valid_catalogue(fields),
        0 <= field < fields.len(),
        0 <= request < fields[field].borrows@.len(),
    ensures
        0 <= storage_position(fields.len() as int, field) < storage_position(
            fields.len() as int,
            fields[field].borrows@[request].index as int,
        ) < fields.len(),
{
    valid_catalogue_request(fields, field, request);
}

/// Once a field is refused, the struct stays refused.
proof fn lemma_collect_stays_refused(fields: Seq<Field>, count: int, more: int)
    requires
        count <= more,
        collect(fields, count) is Err,
    ensures
        collect(fields, more) == collect(fields, count),
    decreases more - count,
{
    if count < more {
        lemma_collect_stays_refused(fields, count, more - 1);
    }
}

/// What is gathered from the fields is what the classification of their
/// requests gives.
pub proof fn lemma_collect_classified(fields: Seq<Field>, count: int)
    requires
        0 <= count <= fields.len() <= usize::MAX,
    ensures
        match collect(fields, count) {
            Ok(collected) => {
                &&& collected.roles.len() == count
                &&& collected.requests.len() == count
                &&& catalogue_pass(collected.requests, count) == Ok::<Seq<FieldType>, RequestError>(
                    collected.roles,
                )
            },
            Err(_) => true,
        },
    decreases count,
{
    if count > 0 {
        lemma_collect_classified(fields, count - 1);
        match collect(fields, count - 1) {
            Ok(before) => {
                match collect(fields, count) {
                    Ok(collected) => {
                        lemma_catalogue_pass_prefix(collected.requests, before.requests, count - 1);
                        match borrows_attr_of(fields[count - 1]) {
                            None => {},
                            Some(k) => {
                                let tokens = fields[count - 1].attrs@[k].tokens@;
                                let inner = tokens[0]->Group_1@;
                                let start = Scan {
                                    roles: before.roles,
                                    borrows: Seq::empty(),
                                    borrow_mut: false,
                                    waiting_for_comma: false,
                                };
                                lemma_scan_is_field_pass(
                                    start,
                                    declared_names(fields).take(count - 1),
                                    inner,
                                    inner.len() as int,
                                    before.roles,
                                    (count - 1) as usize,
                                );
                            },
                        }
                    },
                    Err(_) => {},
                }
            },
            Err(_) => {},
        }
    }
}

fn find_borrows_attr(attrs: &Vec<Attribute>) -> (found: Option<usize>)
    ensures
        match found {
            Some(k) => borrows_attr_in(attrs@, attrs@.len() as int) == Some(k as int) && k < attrs@.len(),
            None => borrows_attr_in(attrs@, attrs@.len() as int) is None,
        },
{
    let mut index: usize = 0;
    while index < attrs.len()
        invariant
            index <= attrs@.len(),
            borrows_attr_in(attrs@, index as int) is None,
        decreases attrs@.len() - index,
    {
        let attr = &attrs[index];
        if !attr.leading_colon && attr.segments.len() == 1 && attr.segments[0] == String::from_str("borrows") {
            proof {
                lemma_borrows_attr_found(attrs@, index as int, attrs@.len() as int);
            }
            return Some(index);
        }
        index += 1;
    }
    None
}

proof fn lemma_borrows_attr_found(attrs: Seq<Attribute>, at: int, count: int)
    requires
        0 <= at < count,
        borrows_attr_in(attrs, at) is None,
        is_borrows(attrs[at]),
    ensures
        borrows_attr_in(attrs, count) == Some(at),
    decreases count,
{
    if count > at + 1 {
        lemma_borrows_attr_found(attrs, at, count - 1);
    }
}

/// Gathers the catalogue of a struct's fields and lays out the struct that
/// will actually store the data: reads the attribute `borrows(..)` of each
/// field, gives each field its role, refuses a struct with fewer than two
/// fields or in which nothing is borrowed, reverses the order in which the
/// fields are stored, and replaces `'this` by `'static` in the stored types.
pub fn create_actual_struct(declared_fields: &Fields) -> (result: Result<
    (Vec<StorageField>, Vec<StructFieldInfo>),
    Error,
>)
    ensures
        match catalogue_of(*declared_fields) {
            Ok(collected) => {
                &&& result is Ok
                &&& storage_for(result->Ok_0.0@, declared_fields->Named_0@)
                &&& catalogue_for(result->Ok_0.1@, declared_fields->Named_0@, collected)
                &&& valid_catalogue(result->Ok_0.1@)
            },
            Err(e) => result == Err::<(Vec<StorageField>, Vec<StructFieldInfo>), Error>(e),
        },
{
    let named = match declared_fields {
        Fields::Named(named) => named,
        Fields::Unnamed => {
            return Err(Error::TupleStruct);
        },
        Fields::Unit => {
            return Err(Error::UnitStruct);
        },
    };
    let ghost fields = named@;
    let count = named.len();
    let mut field_info: Vec<StructFieldInfo> = Vec::new();
    let mut borrows_attrs: Vec<Option<usize>> = Vec::new();
    assert(roles_of(field_info@) =~= Seq::<FieldType>::empty());
    assert(requests_of(field_info@) =~= Seq::<Seq<BorrowRequest>>::empty());
    let mut i: usize = 0;
    while i < count
        invariant
            i <= count,
            count == fields.len(),
            fields == named@,
            *declared_fields == Fields::Named(*named),
            field_info@.len() == i,
            borrows_attrs@.len() == i,
            collect(fields, i as int) == Ok::<Collected, Error>(
                Collected { roles: roles_of(field_info@), requests: requests_of(field_info@) },
            ),
            names_of(field_info@) == declared_names(fields).take(i as int),
            forall|k: int|
                0 <= k < i ==> (#[trigger] field_info@[k]).name@ == fields[k].name@ && token_models(
                    field_info@[k].typ@,
                ) == token_models(fields[k].typ@),
            forall|k: int|
                0 <= k < i ==> match borrows_attr_of(fields[k]) {
                    Some(a) => (#[trigger] borrows_attrs@[k]) == Some(a as usize),
                    None => borrows_attrs@[k] is None,
                },
        decreases count - i,
    {
        let field = &named[i];
        let ghost before = field_info@;
        let mut borrows: Vec<BorrowRequest> = Vec::new();
        let found = find_borrows_attr(&field.attrs);
        match found {
            Some(index) => {
                match handle_borrows_attr(&mut field_info, &field.attrs[index], &mut borrows) {
                    Ok(()) => {},
                    Err(error) => {
                        proof {
                            assert(collect(fields, i + 1) == Err::<Collected, Error>(
                                Error::Borrows { field: i, attr: index, error },
                            ));
                            lemma_collect_stays_refused(fields, i + 1, count as int);
                        }
                        return Err(Error::Borrows { field: i, attr: index, error });
                    },
                }
            },
            None => {},
        }
        borrows_attrs.push(found);
        let ghost middle = field_info@;
        let info = StructFieldInfo {
            name: field.name.clone(),
            typ: copy_tokens(&field.typ),
            field_type: FieldType::Tail,
            borrows,
        };
        field_info.push(info);
        proof {
            assert(middle.len() == before.len());
            assert(names_of(middle) =~= names_of(before));
            assert(requests_of(middle) =~= requests_of(before));
            assert(roles_of(field_info@) =~= roles_of(middle).push(FieldType::Tail));
            assert(requests_of(field_info@) =~= requests_of(before).push(info.borrows@));
            assert(names_of(field_info@) =~= declared_names(fields).take(i + 1));
            if found is Some {
                let tokens = field.attrs@[found->Some_0 as int].tokens@;
                let inner = tokens[0]->Group_1@;
                lemma_scan_in_range(
                    Scan {
                        roles: roles_of(before),
                        borrows: Seq::empty(),
                        borrow_mut: false,
                        waiting_for_comma: false,
                    },
                    names_of(before),
                    inner,
                    inner.len() as int,
                );
                assert(roles_of(middle) =~= scan_attribute(
                    roles_of(before),
                    Seq::empty(),
                    names_of(before),
                    field.attrs@[found->Some_0 as int].tokens@,
                )->Ok_0.roles);
            } else {
                assert(roles_of(middle) =~= roles_of(before));
            }
        }
        i += 1;
    }
    if field_info.len() < 2 {
        return Err(Error::TooFewFields);
    }
    let mut has_non_tail = false;
    let mut k: usize = 0;
    while k < field_info.len()
        invariant
            k <= field_info@.len(),
            has_non_tail <==> exists|t: int| 0 <= t < k && (#[trigger] roles_of(field_info@)[t]) != FieldType::Tail,
        decreases field_info@.len() - k,
    {
        if !field_info[k].field_type.is_tail() {
            assert(roles_of(field_info@)[k as int] != FieldType::Tail);
            has_non_tail = true;
        }
        k += 1;
    }
    proof {
        lemma_collect_classified(fields, count as int);
        lemma_borrowed_means_not_all_tails(requests_of(field_info@));
    }
    if !has_non_tail {
        return Err(Error::NothingBorrowed);
    }
    // Reverse the order of all fields. Items in the struct only depend on references to
    // items declared before them, and a struct drops its fields in the order of their
    // declaration: without the reversal a field would be dropped before those that borrow it.
    let mut stored: Vec<StorageField> = Vec::new();
    let mut i: usize = count;
    while i > 0
        invariant
            i <= count,
            count == fields.len(),
            fields == named@,
            borrows_attrs@.len() == count,
            stored@.len() == count - i,
            forall|k: int|
                0 <= k < count ==> match borrows_attr_of(fields[k]) {
                    Some(a) => (#[trigger] borrows_attrs@[k]) == Some(a as usize),
                    None => borrows_attrs@[k] is None,
                },
            forall|k: int|
                0 <= k < stored@.len() ==> {
                    let d = count - 1 - k;
                    &&& (#[trigger] stored@[k]).field == d
                    &&& stored@[k].borrows_attr == borrows_attrs@[d]
                    &&& token_models(stored@[k].typ@) == static_for_this_all(token_models(fields[d].typ@))
                },
        decreases i,
    {
        i -= 1;
        // Finally, replace the fake 'this lifetime with 'static.
        let typ = replace_this_with_static(copy_tokens(&named[i].typ));
        stored.push(StorageField { field: i, borrows_attr: borrows_attrs[i], typ });
    }
    Ok((stored, field_info))
}

} // verus!
