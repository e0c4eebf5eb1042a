//! The borrow graph: which requests a catalogue may hold, and the role that
//! they give each field.

use vstd::prelude::*;
use vstd::multiset::Multiset;
use crate::fields::{
    BorrowRequest, FieldType, StructFieldInfo, requests_in_range, requests_of, roles_of, with_roles,
};

verus! {

/// Why a borrow request is refused.
#[derive(Clone, Copy, PartialEq, Eq, Structural, Debug)]
pub enum Conflict {
    /// It names the requesting field itself or a field declared after it.
    NotDeclaredBefore,
    /// It is mutable, and the field is already borrowed immutably.
    MutableAfterImmutable,
    /// It is mutable, and the field is already borrowed mutably.
    MutableTwice,
    /// It is immutable, and the field is already borrowed mutably.
    ImmutableAfterMutable,
}

/// A refused request: the requesting field, the position of the request among
/// that field's requests, and the reason.
#[derive(Clone, Copy, PartialEq, Eq, Structural, Debug)]
pub struct RequestError {
    pub field: usize,
    pub request: usize,
    pub conflict: Conflict,
}

/// Why a catalogue is refused.
#[derive(Clone, Copy, PartialEq, Eq, Structural, Debug)]
pub enum CatalogueError {
    Request(RequestError),
    /// Fewer than two fields.
    TooFewFields,
    /// No field borrows anything.
    NothingBorrowed,
}

/// The role of a field after one more request for it.
pub open spec fn after_request(role: FieldType, mutable: bool) -> Result<FieldType, Conflict> {
    if mutable {
        match role {
            FieldType::Tail => Ok(FieldType::BorrowedMut),
            FieldType::Borrowed => Err(Conflict::MutableAfterImmutable),
            FieldType::BorrowedMut => Err(Conflict::MutableTwice),
        }
    } else {
        match role {
            FieldType::BorrowedMut => Err(Conflict::ImmutableAfterMutable),
            _ => Ok(FieldType::Borrowed),
        }
    }
}

pub fn note_request(role: FieldType, mutable: bool) -> (result: Result<FieldType, Conflict>)
    ensures
        result == after_request(role, mutable),
{
    if mutable {
        match role {
            FieldType::Tail => Ok(FieldType::BorrowedMut),
            FieldType::Borrowed => Err(Conflict::MutableAfterImmutable),
            FieldType::BorrowedMut => Err(Conflict::MutableTwice),
        }
    } else {
        match role {
            FieldType::BorrowedMut => Err(Conflict::ImmutableAfterMutable),
            _ => Ok(FieldType::Borrowed),
        }
    }
}

/// The roles of the fields declared so far, after one request of the field
/// that is being declared.
pub open spec fn apply_request(roles: Seq<FieldType>, request: BorrowRequest) -> Result<
    Seq<FieldType>,
    Conflict,
> {
    if request.index >= roles.len() {
        Err(Conflict::NotDeclaredBefore)
    } else {
        match after_request(roles[request.index as int], request.mutable) {
            Ok(role) => Ok(roles.update(request.index as int, role)),
            Err(conflict) => Err(conflict),
        }
    }
}

/// The roles of the fields declared before `field`, after the first `count`
/// requests of `field`.
pub open spec fn field_pass(
    roles: Seq<FieldType>,
    field: usize,
    requests: Seq<BorrowRequest>,
    count: int,
) -> Result<Seq<FieldType>, RequestError>
    decreases count,
{
    if count <= 0 {
        Ok(roles)
    } else {
        match field_pass(roles, field, requests, count - 1) {
            Err(e) => Err(e),
            Ok(before) => match apply_request(before, requests[count - 1]) {
                Ok(after) => Ok(after),
                Err(conflict) => Err(RequestError { field, request: (count - 1) as usize, conflict }),
            },
        }
    }
}

/// The roles of the first `count` fields, after the requests of those fields.
pub open spec fn catalogue_pass(table: Seq<Seq<BorrowRequest>>, count: int) -> Result<
    Seq<FieldType>,
    RequestError,
>
    decreases count,
{
    if count <= 0 {
        Ok(Seq::empty())
    } else {
        match catalogue_pass(table, count - 1) {
            Err(e) => Err(e),
            Ok(before) => match field_pass(
                before,
                (count - 1) as usize,
                table[count - 1],
                table[count - 1].len() as int,
            ) {
                Ok(after) => Ok(after.push(FieldType::Tail)),
                Err(e) => Err(e),
            },
        }
    }
}

/// Some field borrows something.
pub open spec fn something_borrowed(table: Seq<Seq<BorrowRequest>>) -> bool {
    exists|i: int| 0 <= i < table.len() && (#[trigger] table[i]).len() > 0
}

/// The roles that the requests of a catalogue give its fields, or the first
/// reason to refuse it: the requests are taken field by field, each field's in
/// the order it makes them.
pub open spec fn classification(table: Seq<Seq<BorrowRequest>>) -> Result<Seq<FieldType>, CatalogueError> {
    match catalogue_pass(table, table.len() as int) {
        Err(e) => Err(CatalogueError::Request(e)),
        Ok(roles) => if table.len() < 2 {
            Err(CatalogueError::TooFewFields)
        } else if !something_borrowed(table) {
            Err(CatalogueError::NothingBorrowed)
        } else {
            Ok(roles)
        },
    }
}

/// A catalogue is valid when its requests are accepted and give each field
/// the role it holds.
pub open spec fn valid_catalogue(fields: Seq<StructFieldInfo>) -> bool {
    classification(requests_of(fields)) == Ok::<Seq<FieldType>, CatalogueError>(roles_of(fields))
}


/// The requests of the first `count` fields, without their order.
pub open spec fn requests_upto(table: Seq<Seq<BorrowRequest>>, count: int) -> Multiset<BorrowRequest>
    decreases count,
{
    if count <= 0 {
        Multiset::empty()
    } else {
        requests_upto(table, count - 1).add(table[count - 1].to_multiset())
    }
}

/// The requests of a catalogue, without their order.
pub open spec fn all_requests(table: Seq<Seq<BorrowRequest>>) -> Multiset<BorrowRequest> {
    requests_upto(table, table.len() as int)
}

/// How many of `requests` borrow the field `target` mutably.
pub open spec fn mutable_requests(requests: Multiset<BorrowRequest>, target: usize) -> nat {
    requests.count(BorrowRequest { index: target, mutable: true })
}

/// How many of `requests` borrow the field `target` immutably.
pub open spec fn shared_requests(requests: Multiset<BorrowRequest>, target: usize) -> nat {
    requests.count(BorrowRequest { index: target, mutable: false })
}

/// The role that `requests` give the field `target`.
pub open spec fn role_from(requests: Multiset<BorrowRequest>, target: usize) -> FieldType {
    if mutable_requests(requests, target) > 0 {
        FieldType::BorrowedMut
    } else if shared_requests(requests, target) > 0 {
        FieldType::Borrowed
    } else {
        FieldType::Tail
    }
}

/// A mutable borrow of a field is the only borrow of that field.
pub open spec fn exclusive(requests: Multiset<BorrowRequest>) -> bool {
    forall|target: usize| #[trigger]
        mutable_requests(requests, target) > 0 ==> mutable_requests(requests, target) + shared_requests(
            requests,
            target,
        ) == 1
}

/// Every request of the first `count` fields names a field declared before
/// the field that makes it.
pub open spec fn forward_upto(table: Seq<Seq<BorrowRequest>>, count: int) -> bool {
    forall|i: int, j: int| 0 <= i < count && 0 <= j < table[i].len() ==> (#[trigger] table[i][j]).index < i
}

/// Every request names a field declared before the field that makes it.
pub open spec fn forward_only(table: Seq<Seq<BorrowRequest>>) -> bool {
    forward_upto(table, table.len() as int)
}

/// Each of the first `count` requests names one of the first `field` fields.
pub open spec fn names_before(requests: Seq<BorrowRequest>, count: int, field: int) -> bool {
    forall|j: int| 0 <= j < count ==> (#[trigger] requests[j]).index < field
}

/// Each of `roles` is the role that `requests` give its field.
pub open spec fn roles_match(roles: Seq<FieldType>, requests: Multiset<BorrowRequest>) -> bool {
    forall|target: int| 0 <= target < roles.len() ==> #[trigger] roles[target] == role_from(requests, target as usize)
}

/// Every one of `requests` names one of the first `count` fields.
pub open spec fn names_declared(requests: Multiset<BorrowRequest>, count: int) -> bool {
    forall|request: BorrowRequest| #[trigger] requests.count(request) > 0 ==> request.index < count
}

proof fn lemma_apply_request(roles: Seq<FieldType>, requests: Multiset<BorrowRequest>, request: BorrowRequest)
    requires
        roles.len() <= usize::MAX,
        roles_match(roles, requests),
        exclusive(requests),
        names_declared(requests, roles.len() as int),
    ensures
        match apply_request(roles, request) {
            Ok(after) => {
                &&& request.index < roles.len()
                &&& after.len() == roles.len()
                &&& roles_match(after, requests.insert(request))
                &&& exclusive(requests.insert(request))
                &&& names_declared(requests.insert(request), roles.len() as int)
            },
            Err(_) => request.index >= roles.len() || !exclusive(requests.insert(request)),
        },
{
    broadcast use vstd::multiset::group_multiset_properties;

    let more = requests.insert(request);
    let target = request.index;
    let shared = BorrowRequest { index: target, mutable: false };
    let mutable = BorrowRequest { index: target, mutable: true };
    if target < roles.len() {
        assert(roles[target as int] == role_from(requests, target));
        assert(more.count(shared) == requests.count(shared) + (if request.mutable { 0int } else { 1int }));
        assert(more.count(mutable) == requests.count(mutable) + (if request.mutable { 1int } else { 0int }));
        match apply_request(roles, request) {
            Ok(after) => {
                assert forall|t: int| 0 <= t < after.len() implies #[trigger] after[t] == role_from(
                    more,
                    t as usize,
                ) by {
                    assert(roles[t] == role_from(requests, t as usize));
                    if t != target {
                        assert(more.count(BorrowRequest { index: t as usize, mutable: true })
                            == requests.count(BorrowRequest { index: t as usize, mutable: true }));
                        assert(more.count(BorrowRequest { index: t as usize, mutable: false })
                            == requests.count(BorrowRequest { index: t as usize, mutable: false }));
                    }
                }
                assert forall|t: usize| #[trigger] mutable_requests(more, t) > 0 implies mutable_requests(
                    more,
                    t,
                ) + shared_requests(more, t) == 1 by {
                    if t != target {
                        assert(more.count(BorrowRequest { index: t, mutable: true }) == requests.count(
                            BorrowRequest { index: t, mutable: true },
                        ));
                        assert(more.count(BorrowRequest { index: t, mutable: false }) == requests.count(
                            BorrowRequest { index: t, mutable: false },
                        ));
                        assert(mutable_requests(requests, t) > 0);
                    } else {
                        assert(mutable_requests(requests, t) > 0 ==> mutable_requests(requests, t)
                            + shared_requests(requests, t) == 1);
                    }
                }
                assert forall|r: BorrowRequest| #[trigger] more.count(r) > 0 implies r.index < roles.len() by {
                    if r != request {
                        assert(more.count(r) == requests.count(r));
                    }
                }
            },
            Err(_) => {
                assert(mutable_requests(more, target) > 0);
                assert(mutable_requests(more, target) + shared_requests(more, target) >= 2);
            },
        }
    }
}

/// `field_pass` reads the first `count` requests only.
pub proof fn lemma_field_pass_prefix(
    roles: Seq<FieldType>,
    field: usize,
    a: Seq<BorrowRequest>,
    b: Seq<BorrowRequest>,
    count: int,
)
    requires
        forall|j: int| 0 <= j < count ==> a[j] == b[j],
    ensures
        field_pass(roles, field, a, count) == field_pass(roles, field, b, count),
    decreases count,
{
    if count > 0 {
        lemma_field_pass_prefix(roles, field, a, b, count - 1);
    }
}

/// `catalogue_pass` reads the first `count` fields only.
pub proof fn lemma_catalogue_pass_prefix(a: Seq<Seq<BorrowRequest>>, b: Seq<Seq<BorrowRequest>>, count: int)
    requires
        forall|i: int| 0 <= i < count ==> a[i] == b[i],
    ensures
        catalogue_pass(a, count) == catalogue_pass(b, count),
    decreases count,
{
    if count > 0 {
        lemma_catalogue_pass_prefix(a, b, count - 1);
    }
}

/// Once a request is refused, the field stays refused.
proof fn lemma_field_pass_stays_refused(
    roles: Seq<FieldType>,
    field: usize,
    requests: Seq<BorrowRequest>,
    count: int,
    more: int,
)
    requires
        count <= more,
        field_pass(roles, field, requests, count) is Err,
    ensures
        field_pass(roles, field, requests, more) == field_pass(roles, field, requests, count),
    decreases more - count,
{
    if count < more {
        lemma_field_pass_stays_refused(roles, field, requests, count, more - 1);
    }
}

/// Once a field is refused, the catalogue stays refused.
pub proof fn lemma_catalogue_pass_stays_refused(table: Seq<Seq<BorrowRequest>>, count: int, more: int)
    requires
        count <= more,
        catalogue_pass(table, count) is Err,
    ensures
        catalogue_pass(table, more) == catalogue_pass(table, count),
    decreases more - count,
{
    if count < more {
        lemma_catalogue_pass_stays_refused(table, count, more - 1);
    }
}

/// What grows keeps a broken exclusion.
proof fn lemma_exclusive_of_part(part: Multiset<BorrowRequest>, rest: Multiset<BorrowRequest>)
    requires
        !exclusive(part),
    ensures
        !exclusive(part.add(rest)),
{
    let target = choose|target: usize| #[trigger]
        mutable_requests(part, target) > 0 && mutable_requests(part, target) + shared_requests(part, target)
            != 1;
    assert(mutable_requests(part.add(rest), target) > 0);
    assert(mutable_requests(part.add(rest), target) + shared_requests(part.add(rest), target) >= 2);
}

proof fn lemma_field_pass(
    roles: Seq<FieldType>,
    field: usize,
    requests: Seq<BorrowRequest>,
    count: int,
    before: Multiset<BorrowRequest>,
)
    requires
        0 <= count <= requests.len(),
        roles.len() == field,
        roles_match(roles, before),
        exclusive(before),
        names_declared(before, field as int),
    ensures
        match field_pass(roles, field, requests, count) {
            Ok(after) => {
                let now = before.add(requests.take(count).to_multiset());
                &&& after.len() == roles.len()
                &&& roles_match(after, now)
                &&& exclusive(now)
                &&& names_declared(now, field as int)
                &&& names_before(requests, count, field as int)
            },
            Err(_) => !names_before(requests, count, field as int) || !exclusive(
                before.add(requests.to_multiset()),
            ),
        },
    decreases count,
{
    broadcast use vstd::seq_lib::group_to_multiset_ensures;

    if count <= 0 {
        assert(requests.take(0) =~= Seq::empty());
        assert(before.add(requests.take(0).to_multiset()) =~= before);
    } else {
        lemma_field_pass(roles, field, requests, count - 1, before);
        match field_pass(roles, field, requests, count - 1) {
            Ok(middle) => {
                let earlier = before.add(requests.take(count - 1).to_multiset());
                let request = requests[count - 1];
                lemma_apply_request(middle, earlier, request);
                assert(requests.take(count) =~= requests.take(count - 1).push(request));
                assert(requests.take(count).to_multiset() =~= requests.take(count - 1).to_multiset().insert(
                    request,
                ));
                assert(before.add(requests.take(count).to_multiset()) =~= earlier.insert(request));
                match apply_request(middle, request) {
                    Ok(after) => {
                        assert forall|j: int| 0 <= j < count implies (#[trigger] requests[j]).index < field by {
                            if j < count - 1 {
                            }
                        }
                    },
                    Err(_) => {
                        if request.index < field {
                            let rest = requests.skip(count);
                            assert(requests =~= requests.take(count) + rest);
                            vstd::seq_lib::lemma_multiset_commutative(requests.take(count), rest);
                            assert(before.add(requests.to_multiset()) =~= earlier.insert(request).add(
                                rest.to_multiset(),
                            ));
                            lemma_exclusive_of_part(earlier.insert(request), rest.to_multiset());
                        }
                    },
                }
            },
            Err(e) => {},
        }
    }
}

/// What `catalogue_pass` accepts, and what roles it gives.
proof fn lemma_catalogue_pass(table: Seq<Seq<BorrowRequest>>, count: int)
    requires
        0 <= count <= table.len() <= usize::MAX,
    ensures
        match catalogue_pass(table, count) {
            Ok(roles) => {
                let requests = requests_upto(table, count);
                &&& roles.len() == count
                &&& roles_match(roles, requests)
                &&& exclusive(requests)
                &&& names_declared(requests, count)
                &&& forward_upto(table, count)
            },
            Err(_) => !forward_upto(table, count) || !exclusive(requests_upto(table, count)),
        },
    decreases count,
{
    if count > 0 {
        lemma_catalogue_pass(table, count - 1);
        let field = (count - 1) as usize;
        match catalogue_pass(table, count - 1) {
            Ok(before) => {
                let earlier = requests_upto(table, count - 1);
                lemma_field_pass(before, field, table[count - 1], table[count - 1].len() as int, earlier);
                assert(table[count - 1].take(table[count - 1].len() as int) =~= table[count - 1]);
                match field_pass(before, field, table[count - 1], table[count - 1].len() as int) {
                    Ok(after) => {
                        let roles = after.push(FieldType::Tail);
                        let requests = requests_upto(table, count);
                        assert forall|t: int| 0 <= t < roles.len() implies #[trigger] roles[t] == role_from(
                            requests,
                            t as usize,
                        ) by {
                            if t == count - 1 {
                                assert(requests.count(BorrowRequest { index: t as usize, mutable: true }) == 0);
                                assert(requests.count(BorrowRequest { index: t as usize, mutable: false }) == 0);
                            } else {
                                assert(after[t] == role_from(requests, t as usize));
                            }
                        }
                    },
                    Err(e) => {
                        if names_before(table[count - 1], table[count - 1].len() as int, count - 1) {
                        } else {
                            let j = choose|j: int|
                                0 <= j < table[count - 1].len() && (#[trigger] table[count - 1][j]).index
                                    >= count - 1;
                            assert(table[count - 1][j].index >= count - 1);
                        }
                    },
                }
            },
            Err(e) => {
                if forward_upto(table, count - 1) {
                    lemma_exclusive_of_part(requests_upto(table, count - 1), table[count - 1].to_multiset());
                } else {
                    let (i, j) = choose|i: int, j: int|
                        0 <= i < count - 1 && 0 <= j < table[i].len() && (#[trigger] table[i][j]).index >= i;
                    assert(table[i][j].index >= i);
                }
            },
        }
    }
}

/// Some field borrows something exactly if there is a request.
proof fn lemma_something_borrowed(table: Seq<Seq<BorrowRequest>>, count: int)
    requires
        0 <= count <= table.len(),
    ensures
        requests_upto(table, count).len() > 0 <==> exists|i: int| 0 <= i < count && (#[trigger] table[i]).len() > 0,
    decreases count,
{
    broadcast use vstd::seq_lib::group_to_multiset_ensures;

    if count > 0 {
        lemma_something_borrowed(table, count - 1);
        assert(table[count - 1].to_multiset().len() == table[count - 1].len());
        if table[count - 1].len() > 0 {
        } else if exists|i: int| 0 <= i < count && (#[trigger] table[i]).len() > 0 {
            let i = choose|i: int| 0 <= i < count && (#[trigger] table[i]).len() > 0;
            assert(i < count - 1);
        }
    }
}

/// A catalogue is accepted exactly if it has two fields or more, some field
/// borrows something, every request names a field declared before the field
/// that makes it, and a mutable borrow of a field is the only borrow of that
/// field.
pub proof fn classification_accepts(table: Seq<Seq<BorrowRequest>>)
    requires
        table.len() <= usize::MAX,
    ensures
        classification(table) is Ok <==> {
            &&& table.len() >= 2
            &&& something_borrowed(table)
            &&& forward_only(table)
            &&& exclusive(all_requests(table))
        },
{
    lemma_catalogue_pass(table, table.len() as int);
}

/// The role of a field depends on the requests alone, and not on their
/// order: mutably borrowed, if some request borrows it mutably; else borrowed,
/// if some request borrows it; else a tail.
pub proof fn classification_roles(table: Seq<Seq<BorrowRequest>>, target: int)
    requires
        table.len() <= usize::MAX,
        classification(table) is Ok,
        0 <= target < table.len(),
    ensures
        classification(table)->Ok_0.len() == table.len(),
        classification(table)->Ok_0[target] == role_from(all_requests(table), target as usize),
{
    lemma_catalogue_pass(table, table.len() as int);
}

/// Two catalogues of one length that hold the same requests, in whatever
/// order and of whichever fields, give their fields the same roles, if both
/// are accepted.
pub proof fn roles_follow_requests(a: Seq<Seq<BorrowRequest>>, b: Seq<Seq<BorrowRequest>>)
    requires
        a.len() == b.len() <= usize::MAX,
        all_requests(a) == all_requests(b),
        classification(a) is Ok,
        classification(b) is Ok,
    ensures
        classification(a) == classification(b),
{
    let x = classification(a)->Ok_0;
    let y = classification(b)->Ok_0;
    lemma_catalogue_pass(a, a.len() as int);
    lemma_catalogue_pass(b, b.len() as int);
    assert forall|t: int| 0 <= t < x.len() implies x[t] == y[t] by {
        classification_roles(a, t);
        classification_roles(b, t);
    }
    assert(x =~= y);
}

/// A request for the requesting field itself, or for a field declared after
/// it, has the catalogue refused.
pub proof fn forward_request_is_refused(table: Seq<Seq<BorrowRequest>>, field: int, request: int)
    requires
        table.len() <= usize::MAX,
        0 <= field < table.len(),
        0 <= request < table[field].len(),
        table[field][request].index >= field,
    ensures
        classification(table) is Err,
{
    classification_accepts(table);
}

/// Two requests for one field, of which one is mutable, have the catalogue
/// refused: whichever comes first, and whichever fields make them.
pub proof fn conflicting_requests_are_refused(
    table: Seq<Seq<BorrowRequest>>,
    field: int,
    request: int,
    other_field: int,
    other_request: int,
)
    requires
        table.len() <= usize::MAX,
        0 <= field < table.len(),
        0 <= request < table[field].len(),
        0 <= other_field < table.len(),
        0 <= other_request < table[other_field].len(),
        field != other_field || request != other_request,
        table[field][request].index == table[other_field][other_request].index,
        table[field][request].mutable,
    ensures
        classification(table) is Err,
{
    classification_accepts(table);
    let x = table[field][request];
    let y = table[other_field][other_request];
    lemma_requests_counted(table, table.len() as int, field, request, other_field, other_request);
    let all = all_requests(table);
    assert(mutable_requests(all, x.index) > 0);
    assert(mutable_requests(all, x.index) + shared_requests(all, x.index) >= 2);
}

/// Two requests at different places of the first `count` fields are counted
/// apart.
proof fn lemma_requests_counted(
    table: Seq<Seq<BorrowRequest>>,
    count: int,
    field: int,
    request: int,
    other_field: int,
    other_request: int,
)
    requires
        0 <= count <= table.len(),
        0 <= field < count,
        0 <= request < table[field].len(),
        0 <= other_field < count,
        0 <= other_request < table[other_field].len(),
        field != other_field || request != other_request,
    ensures
        requests_upto(table, count).count(table[field][request]) >= 1,
        requests_upto(table, count).count(table[other_field][other_request]) >= 1,
        table[field][request] == table[other_field][other_request] ==> requests_upto(table, count).count(
            table[field][request],
        ) >= 2,
    decreases count,
{
    let last = count - 1;
    let x = table[field][request];
    let y = table[other_field][other_request];
    if field < last && other_field < last {
        lemma_requests_counted(table, last, field, request, other_field, other_request);
    } else if field == last && other_field == last {
        lemma_counted_within(table[last], request, other_request);
    } else if field == last {
        lemma_counted_within(table[last], request, request);
        lemma_request_counted(table, last, other_field, other_request);
    } else {
        lemma_counted_within(table[last], other_request, other_request);
        lemma_request_counted(table, last, field, request);
    }
}

proof fn lemma_request_counted(table: Seq<Seq<BorrowRequest>>, count: int, field: int, request: int)
    requires
        0 <= count <= table.len(),
        0 <= field < count,
        0 <= request < table[field].len(),
    ensures
        requests_upto(table, count).count(table[field][request]) >= 1,
    decreases count,
{
    if field < count - 1 {
        lemma_request_counted(table, count - 1, field, request);
    } else {
        lemma_counted_within(table[field], request, request);
    }
}

/// The requests at `i` and at `j` are counted, and apart if `i` is not `j`.
proof fn lemma_counted_within(requests: Seq<BorrowRequest>, i: int, j: int)
    requires
        0 <= i < requests.len(),
        0 <= j < requests.len(),
    ensures
        requests.to_multiset().count(requests[i]) >= 1,
        requests.to_multiset().count(requests[j]) >= 1,
        i != j && requests[i] == requests[j] ==> requests.to_multiset().count(requests[i]) >= 2,
    decreases requests.len(),
{
    broadcast use vstd::seq_lib::group_to_multiset_ensures;

    let last = requests.len() - 1;
    let front = requests.drop_last();
    assert(requests =~= front.push(requests[last]));
    assert(requests.to_multiset() =~= front.to_multiset().insert(requests[last]));
    if i < last && j < last {
        lemma_counted_within(front, i, j);
    } else if i < last {
        lemma_counted_within(front, i, i);
    } else if j < last {
        lemma_counted_within(front, j, j);
    }
}


/// In an accepted catalogue some field borrows something exactly if some field
/// is no tail.
pub proof fn lemma_borrowed_means_not_all_tails(table: Seq<Seq<BorrowRequest>>)
    requires
        table.len() <= usize::MAX,
        catalogue_pass(table, table.len() as int) is Ok,
    ensures
        something_borrowed(table) <==> exists|target: int|
            0 <= target < table.len() && #[trigger] catalogue_pass(table, table.len() as int)->Ok_0[target]
                != FieldType::Tail,
{
    let roles = catalogue_pass(table, table.len() as int)->Ok_0;
    let requests = all_requests(table);
    lemma_catalogue_pass(table, table.len() as int);
    lemma_something_borrowed(table, table.len() as int);
    if something_borrowed(table) {
        let request = requests.choose();
        assert(requests.count(request) > 0);
        let target = request.index as int;
        assert(roles[target] == role_from(requests, target as usize));
        if request.mutable {
            assert(mutable_requests(requests, request.index) > 0);
        } else {
            assert(shared_requests(requests, request.index) > 0);
        }
        assert(roles[target] != FieldType::Tail);
    }
    if exists|target: int| 0 <= target < table.len() && #[trigger] roles[target] != FieldType::Tail {
        let target = choose|target: int| 0 <= target < table.len() && #[trigger] roles[target] != FieldType::Tail;
        assert(roles[target] == role_from(requests, target as usize));
        assert(requests.len() > 0);
    }
}

/// In a valid catalogue every request names a field declared before the field
/// that makes it, and that field holds the role that the request gives it.
pub proof fn valid_catalogue_request(fields: Seq<StructFieldInfo>, field: int, request: int)
    requires
        fields.len() <= usize::MAX,
        valid_catalogue(fields),
        0 <= field < fields.len(),
        0 <= request < fields[field].borrows@.len(),
    ensures
        fields[field].borrows@[request].index < field,
        fields[fields[field].borrows@[request].index as int].field_type == (if fields[field].borrows@[request].mutable {
            FieldType::BorrowedMut
        } else {
            FieldType::Borrowed
        }),
{
    let table = requests_of(fields);
    let asked = table[field][request];
    let all = all_requests(table);
    lemma_catalogue_pass(table, table.len() as int);
    lemma_request_counted(table, table.len() as int, field, request);
    assert(asked.index < field);
    assert(roles_of(fields)[asked.index as int] == role_from(all, asked.index));
    if asked.mutable {
        assert(mutable_requests(all, asked.index) > 0);
    } else {
        assert(shared_requests(all, asked.index) > 0);
        assert(mutable_requests(all, asked.index) > 0 ==> mutable_requests(all, asked.index) + shared_requests(
            all,
            asked.index,
        ) == 1);
    }
}

/// In a valid catalogue every request names a field of the catalogue.
pub proof fn valid_catalogue_in_range(fields: Seq<StructFieldInfo>)
    requires
        fields.len() <= usize::MAX,
        valid_catalogue(fields),
    ensures
        requests_in_range(fields),
{
    assert forall|i: int, j: int|
        0 <= i < fields.len() && 0 <= j < fields[i].borrows@.len() implies (#[trigger] fields[i].borrows@[j]).index
        < fields.len() by {
        valid_catalogue_request(fields, i, j);
    }
}

/// Classification settles: a catalogue with the roles that its requests give
/// is valid, and classifying it again changes nothing.
pub proof fn classification_is_idempotent(fields: Seq<StructFieldInfo>)
    requires
        fields.len() <= usize::MAX,
        classification(requests_of(fields)) is Ok,
    ensures
        ({
            let once = with_roles(fields, classification(requests_of(fields))->Ok_0);
            &&& valid_catalogue(once)
            &&& classification(requests_of(once)) == classification(requests_of(fields))
            &&& with_roles(once, classification(requests_of(once))->Ok_0) == once
        }),
{
    let roles = classification(requests_of(fields))->Ok_0;
    let once = with_roles(fields, roles);
    lemma_catalogue_pass(requests_of(fields), fields.len() as int);
    assert(requests_of(once) =~= requests_of(fields));
    assert(roles_of(once) =~= roles);
    assert(with_roles(once, roles) =~= once);
}

/// Gives every field of a catalogue the role that the requests of the
/// catalogue give it, whatever role it held. Where the catalogue is refused,
/// nothing is changed.
pub fn classify(field_info: &mut Vec<StructFieldInfo>) -> (result: Result<(), CatalogueError>)
    ensures
        match classification(requests_of(old(field_info)@)) {
            Ok(roles) => {
                &&& result is Ok
                &&& final(field_info)@ == with_roles(old(field_info)@, roles)
            },
            Err(e) => {
                &&& result == Err::<(), CatalogueError>(e)
                &&& *final(field_info) == *old(field_info)
            },
        },
{
    let ghost table = requests_of(field_info@);
    let count = field_info.len();
    let mut roles: Vec<FieldType> = Vec::new();
    let mut any_borrow = false;
    let mut i: usize = 0;
    while i < count
        invariant
            i <= count,
            count == table.len(),
            *field_info == *old(field_info),
            table == requests_of(old(field_info)@),
            roles@.len() == i,
            catalogue_pass(table, i as int) == Ok::<Seq<FieldType>, RequestError>(roles@),
            any_borrow <==> exists|k: int| 0 <= k < i && (#[trigger] table[k]).len() > 0,
        decreases count - i,
    {
        let ghost before = roles@;
        let requests = &field_info[i].borrows;
        let mut j: usize = 0;
        while j < requests.len()
            invariant
                i < count,
                count == table.len(),
                j <= requests@.len(),
                requests@ == table[i as int],
                *field_info == *old(field_info),
                table == requests_of(old(field_info)@),
                roles@.len() == i,
                catalogue_pass(table, i as int) == Ok::<Seq<FieldType>, RequestError>(before),
                field_pass(before, i, requests@, j as int) == Ok::<Seq<FieldType>, RequestError>(roles@),
            decreases requests@.len() - j,
        {
            let request = requests[j];
            let refused: Option<Conflict> = if request.index >= i {
                Some(Conflict::NotDeclaredBefore)
            } else {
                match note_request(roles[request.index], request.mutable) {
                    Ok(role) => {
                        roles.set(request.index, role);
                        None
                    },
                    Err(conflict) => Some(conflict),
                }
            };
            match refused {
                Some(conflict) => {
                    let error = RequestError { field: i, request: j, conflict };
                    proof {
                        assert(field_pass(before, i, requests@, j + 1) == Err::<Seq<FieldType>, RequestError>(
                            error,
                        ));
                        lemma_field_pass_stays_refused(before, i, requests@, j + 1, requests@.len() as int);
                        assert(catalogue_pass(table, i + 1) == Err::<Seq<FieldType>, RequestError>(error));
                        lemma_catalogue_pass_stays_refused(table, i + 1, count as int);
                    }
                    return Err(CatalogueError::Request(error));
                },
                None => {},
            }
            j += 1;
        }
        if requests.len() > 0 {
            any_borrow = true;
        }
        roles.push(FieldType::Tail);
        i += 1;
    }
    if count < 2 {
        return Err(CatalogueError::TooFewFields);
    }
    if !any_borrow {
        return Err(CatalogueError::NothingBorrowed);
    }
    let mut k: usize = 0;
    while k < count
        invariant
            k <= count,
            count == field_info@.len(),
            field_info@.len() == old(field_info)@.len(),
            roles@.len() == count,
            forall|j: int| 0 <= j < k ==> #[trigger] field_info@[j] == with_roles(old(field_info)@, roles@)[j],
            forall|j: int| k <= j < count ==> #[trigger] field_info@[j] == old(field_info)@[j],
        decreases count - k,
    {
        field_info[k].field_type = roles[k];
        k += 1;
    }
    assert(field_info@ =~= with_roles(old(field_info)@, roles@));
    Ok(())
}

} // verus!
