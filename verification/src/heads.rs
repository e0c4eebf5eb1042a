//! The heads: the fields that borrow nothing, which `into_heads` hands back
//! once the fields that borrow have been dropped.

use vstd::prelude::*;
use crate::fields::StructFieldInfo;
use crate::roles::{valid_catalogue, valid_catalogue_request};

verus! {

/// One step of `into_heads`.
#[derive(Clone, Copy, PartialEq, Eq, Structural, Debug)]
pub enum HeadStep {
    /// Drops the field: it borrows from other fields.
    Drop(usize),
    /// Moves the field out of the struct: it is a head.
    Take(usize),
}

/// The struct `Heads` and the function `into_heads`: the steps of the
/// function, and the fields of the struct in the order in which they are taken.
#[derive(PartialEq, Eq, Debug)]
pub struct IntoHeadsDef {
    pub code: Vec<HeadStep>,
    pub field_names: Vec<usize>,
}

/// What `into_heads` does with the field `i`.
pub open spec fn head_step(fields: Seq<StructFieldInfo>, i: int) -> HeadStep {
    if fields[i].is_head() {
        HeadStep::Take(i as usize)
    } else {
        HeadStep::Drop(i as usize)
    }
}

/// The steps of `into_heads` for the fields from `from` on, the last declared
/// first.
pub open spec fn teardown(fields: Seq<StructFieldInfo>, from: int) -> Seq<HeadStep>
    decreases fields.len() - from,
{
    if from >= fields.len() {
        Seq::empty()
    } else {
        teardown(fields, from + 1).push(head_step(fields, from))
    }
}

/// The heads among the fields from `from` on, the last declared first.
pub open spec fn heads_from(fields: Seq<StructFieldInfo>, from: int) -> Seq<usize>
    decreases fields.len() - from,
{
    if from >= fields.len() {
        Seq::empty()
    } else if fields[from].is_head() {
        heads_from(fields, from + 1).push(from as usize)
    } else {
        heads_from(fields, from + 1)
    }
}

/// The struct `Heads` and the function `into_heads`, which turns the struct into its heads.
pub fn make_into_heads(field_info: &Vec<StructFieldInfo>) -> (def: IntoHeadsDef)
    ensures
        def.code@ == teardown(field_info@, 0),
        def.field_names@ == heads_from(field_info@, 0),
{
    let mut code: Vec<HeadStep> = Vec::new();
    let mut field_names: Vec<usize> = Vec::new();
    // Drop everything in the reverse order of what it was declared in. Fields that come later
    // are only dependent on fields that came before them.
    let mut i: usize = field_info.len();
    while i > 0
        invariant
            i <= field_info@.len(),
            code@ == teardown(field_info@, i as int),
            field_names@ == heads_from(field_info@, i as int),
        decreases i,
    {
        i -= 1;
        // Heads are fields that do not borrow anything.
        if field_info[i].borrows.len() > 0 {
            code.push(HeadStep::Drop(i));
        } else {
            code.push(HeadStep::Take(i));
            field_names.push(i);
        }
    }
    IntoHeadsDef { code, field_names }
}


/// What `into_heads` hands back: the fields that were dropped, in the order
/// in which they were dropped, and the values of the heads, in the order of
/// the definition's `field_names`.
#[derive(PartialEq, Eq, Debug)]
pub struct Heads {
    pub dropped: Vec<usize>,
    pub values: Vec<i64>,
}

pub struct HeadsShape {
    pub dropped: Seq<usize>,
    pub values: Seq<i64>,
}

impl View for Heads {
    type V = HeadsShape;

    open spec fn view(&self) -> HeadsShape {
        HeadsShape { dropped: self.dropped@, values: self.values@ }
    }
}

/// How far `into_heads` has come: the fields that the struct still holds,
/// those that were moved out, and those that were dropped, in order.
pub struct Teardown {
    pub held: Seq<bool>,
    pub taken: Seq<bool>,
    pub dropped: Seq<usize>,
}

/// One step of `into_heads`: a field that is still held is dropped or moved
/// out. `None` where the field is not held.
pub open spec fn take_apart(state: Teardown, step: HeadStep) -> Option<Teardown> {
    match step {
        HeadStep::Drop(field) => if field < state.held.len() && state.held[field as int] {
            Some(
                Teardown {
                    held: state.held.update(field as int, false),
                    dropped: state.dropped.push(field),
                    ..state
                },
            )
        } else {
            None
        },
        HeadStep::Take(field) => if field < state.held.len() && state.held[field as int] {
            Some(
                Teardown {
                    held: state.held.update(field as int, false),
                    taken: state.taken.update(field as int, true),
                    ..state
                },
            )
        } else {
            None
        },
    }
}

/// `into_heads` after the first `count` steps of `code`, on a struct of
/// `fields` fields.
pub open spec fn torn_down(code: Seq<HeadStep>, fields: nat, count: int) -> Option<Teardown>
    decreases count,
{
    if count <= 0 {
        Some(
            Teardown {
                held: Seq::new(fields, |i: int| true),
                taken: Seq::new(fields, |i: int| false),
                dropped: Seq::empty(),
            },
        )
    } else {
        match torn_down(code, fields, count - 1) {
            Some(state) => take_apart(state, code[count - 1]),
            None => None,
        }
    }
}

/// Every one of `field_names` was moved out.
pub open spec fn all_taken(field_names: Seq<usize>, taken: Seq<bool>) -> bool {
    forall|k: int| 0 <= k < field_names.len() ==> (#[trigger] field_names[k]) < taken.len() && taken[field_names[k] as int]
}

/// Nothing is held any more.
pub open spec fn none_held(held: Seq<bool>) -> bool {
    forall|i: int| 0 <= i < held.len() ==> !(#[trigger] held[i])
}

/// What `into_heads` does with a struct whose fields hold `values`, in
/// declaration order: `None` where a step cannot be taken, a field is left in
/// the struct, or a field of `Heads` was not moved out.
pub open spec fn into_heads_run(code: Seq<HeadStep>, field_names: Seq<usize>, values: Seq<i64>) -> Option<
    HeadsShape,
> {
    match torn_down(code, values.len(), code.len() as int) {
        None => None,
        Some(state) => if none_held(state.held) && all_taken(field_names, state.taken) {
            Some(
                HeadsShape {
                    dropped: state.dropped,
                    values: Seq::new(field_names.len(), |k: int| values[field_names[k] as int]),
                },
            )
        } else {
            None
        },
    }
}

proof fn lemma_torn_down_stays(code: Seq<HeadStep>, fields: nat, count: int, more: int)
    requires
        count <= more,
        torn_down(code, fields, count) is None,
    ensures
        torn_down(code, fields, more) is None,
    decreases more - count,
{
    if count < more {
        lemma_torn_down_stays(code, fields, count, more - 1);
    }
}

/// Runs `into_heads` on a struct whose fields hold `values`, in declaration
/// order.
pub fn into_heads(def: &IntoHeadsDef, values: &Vec<i64>) -> (result: Option<Heads>)
    ensures
        match result {
            Some(heads) => into_heads_run(def.code@, def.field_names@, values@) == Some(heads@),
            None => into_heads_run(def.code@, def.field_names@, values@) is None,
        },
{
    let mut held: Vec<bool> = Vec::new();
    let mut taken: Vec<bool> = Vec::new();
    let mut dropped: Vec<usize> = Vec::new();
    let mut i: usize = 0;
    while i < values.len()
        invariant
            i <= values@.len(),
            held@ == Seq::new(i as nat, |i: int| true),
            taken@ == Seq::new(i as nat, |i: int| false),
        decreases values@.len() - i,
    {
        held.push(true);
        taken.push(false);
        assert(held@ =~= Seq::new((i + 1) as nat, |i: int| true));
        assert(taken@ =~= Seq::new((i + 1) as nat, |i: int| false));
        i += 1;
    }
    let mut i: usize = 0;
    while i < def.code.len()
        invariant
            i <= def.code@.len(),
            held@.len() == values@.len(),
            taken@.len() == values@.len(),
            torn_down(def.code@, values@.len(), i as int) == Some(
                Teardown { held: held@, taken: taken@, dropped: dropped@ },
            ),
        decreases def.code@.len() - i,
    {
        let field = match def.code[i] {
            HeadStep::Drop(field) => field,
            HeadStep::Take(field) => field,
        };
        if field >= held.len() || !held[field] {
            proof {
                assert(torn_down(def.code@, values@.len(), i + 1) is None);
                lemma_torn_down_stays(def.code@, values@.len(), i + 1, def.code@.len() as int);
            }
            return None;
        }
        held.set(field, false);
        match def.code[i] {
            HeadStep::Drop(_) => {
                dropped.push(field);
            },
            HeadStep::Take(_) => {
                taken.set(field, true);
            },
        }
        i += 1;
    }
    let mut i: usize = 0;
    while i < held.len()
        invariant
            i <= held@.len(),
            held@.len() == values@.len(),
            taken@.len() == values@.len(),
            torn_down(def.code@, values@.len(), def.code@.len() as int) == Some(
                Teardown { held: held@, taken: taken@, dropped: dropped@ },
            ),
            forall|k: int| 0 <= k < i ==> !(#[trigger] held@[k]),
        decreases held@.len() - i,
    {
        if held[i] {
            return None;
        }
        i += 1;
    }
    let mut heads: Vec<i64> = Vec::new();
    let mut k: usize = 0;
    while k < def.field_names.len()
        invariant
            k <= def.field_names@.len(),
            heads@.len() == k,
            taken@.len() == values@.len(),
            none_held(held@),
            torn_down(def.code@, values@.len(), def.code@.len() as int) == Some(
                Teardown { held: held@, taken: taken@, dropped: dropped@ },
            ),
            forall|j: int|
                0 <= j < k ==> (#[trigger] def.field_names@[j]) < taken@.len() && taken@[def.field_names@[j] as int],
            forall|j: int| 0 <= j < k ==> #[trigger] heads@[j] == values@[def.field_names@[j] as int],
        decreases def.field_names@.len() - k,
    {
        let field = def.field_names[k];
        if field >= taken.len() || !taken[field] {
            return None;
        }
        heads.push(values[field]);
        k += 1;
    }
    assert(heads@ =~= Seq::new(def.field_names@.len(), |k: int| values@[def.field_names@[k] as int]));
    Some(Heads { dropped, values: heads })
}

/// The fields that borrow among the fields from `from` on, the last declared
/// first.
pub open spec fn dependents_from(fields: Seq<StructFieldInfo>, from: int) -> Seq<usize>
    decreases fields.len() - from,
{
    if from >= fields.len() {
        Seq::empty()
    } else if fields[from].is_head() {
        dependents_from(fields, from + 1)
    } else {
        dependents_from(fields, from + 1).push(from as usize)
    }
}

/// The heads from `from` on are the fields from `from` on that borrow
/// nothing; the others are the dependents from `from` on.
pub proof fn lemma_heads_from(fields: Seq<StructFieldInfo>, from: int)
    requires
        0 <= from <= fields.len() <= usize::MAX,
    ensures
        forall|i: int|
            from <= i < fields.len() ==> ((#[trigger] fields[i]).is_head() <==> heads_from(fields, from).contains(
                i as usize,
            )),
        forall|i: int|
            from <= i < fields.len() ==> (!(#[trigger] fields[i]).is_head() <==> dependents_from(
                fields,
                from,
            ).contains(i as usize)),
        forall|k: int|
            0 <= k < heads_from(fields, from).len() ==> from <= (#[trigger] heads_from(fields, from)[k])
                < fields.len(),
        forall|k: int|
            0 <= k < dependents_from(fields, from).len() ==> from <= (#[trigger] dependents_from(fields, from)[k])
                < fields.len(),
    decreases fields.len() - from,
{
    if from < fields.len() {
        lemma_heads_from(fields, from + 1);
        let heads = heads_from(fields, from);
        let later_heads = heads_from(fields, from + 1);
        let dependents = dependents_from(fields, from);
        let later_dependents = dependents_from(fields, from + 1);
        if fields[from].is_head() {
            assert(heads == later_heads.push(from as usize));
            assert(heads[heads.len() - 1] == from as usize);
        } else {
            assert(dependents == later_dependents.push(from as usize));
            assert(dependents[dependents.len() - 1] == from as usize);
        }
        assert forall|i: int| from <= i < fields.len() implies ((#[trigger] fields[i]).is_head()
            <==> heads.contains(i as usize)) by {
            if i > from {
                if fields[i].is_head() {
                    let k = choose|k: int| 0 <= k < later_heads.len() && later_heads[k] == i as usize;
                    assert(heads[k] == i as usize);
                }
                if heads.contains(i as usize) {
                    let k = choose|k: int| 0 <= k < heads.len() && heads[k] == i as usize;
                    if k < later_heads.len() {
                        assert(later_heads[k] == i as usize);
                    }
                }
            } else if heads.contains(i as usize) {
                let k = choose|k: int| 0 <= k < heads.len() && heads[k] == i as usize;
                if k < later_heads.len() {
                    assert(later_heads[k] == i as usize);
                }
            }
        }
        assert forall|i: int| from <= i < fields.len() implies (!(#[trigger] fields[i]).is_head()
            <==> dependents.contains(i as usize)) by {
            if i > from {
                if !fields[i].is_head() {
                    let k = choose|k: int| 0 <= k < later_dependents.len() && later_dependents[k] == i as usize;
                    assert(dependents[k] == i as usize);
                }
                if dependents.contains(i as usize) {
                    let k = choose|k: int| 0 <= k < dependents.len() && dependents[k] == i as usize;
                    if k < later_dependents.len() {
                        assert(later_dependents[k] == i as usize);
                    }
                }
            } else if dependents.contains(i as usize) {
                let k = choose|k: int| 0 <= k < dependents.len() && dependents[k] == i as usize;
                if k < later_dependents.len() {
                    assert(later_dependents[k] == i as usize);
                }
            }
        }
    }
}

proof fn lemma_torn_down_same(a: Seq<HeadStep>, b: Seq<HeadStep>, fields: nat, count: int)
    requires
        forall|k: int| 0 <= k < count ==> a[k] == b[k],
    ensures
        torn_down(a, fields, count) == torn_down(b, fields, count),
    decreases count,
{
    if count > 0 {
        lemma_torn_down_same(a, b, fields, count - 1);
    }
}

/// `into_heads` after the fields from `from` on: the fields before `from` are
/// still held, the heads from `from` on are moved out, and the others are
/// dropped, the last declared first.
proof fn lemma_teardown_runs(fields: Seq<StructFieldInfo>, from: int)
    requires
        0 <= from <= fields.len() <= usize::MAX,
    ensures
        teardown(fields, from).len() == fields.len() - from,
        torn_down(teardown(fields, from), fields.len(), fields.len() - from) == Some(
            Teardown {
                held: Seq::new(fields.len(), |i: int| i < from),
                taken: Seq::new(fields.len(), |i: int| i >= from && fields[i].is_head()),
                dropped: dependents_from(fields, from),
            },
        ),
    decreases fields.len() - from,
{
    let n = fields.len();
    if from >= n {
        assert(Seq::new(n, |i: int| true) =~= Seq::new(n, |i: int| i < from));
        assert(Seq::new(n, |i: int| false) =~= Seq::new(n, |i: int| i >= from && fields[i].is_head()));
    } else {
        lemma_teardown_runs(fields, from + 1);
        let later = teardown(fields, from + 1);
        let code = teardown(fields, from);
        lemma_torn_down_same(code, later, n, n - from - 1);
        let before = Teardown {
            held: Seq::new(n, |i: int| i < from + 1),
            taken: Seq::new(n, |i: int| i >= from + 1 && fields[i].is_head()),
            dropped: dependents_from(fields, from + 1),
        };
        assert(code[n - from - 1] == head_step(fields, from));
        let after = take_apart(before, head_step(fields, from));
        assert(after is Some);
        assert(after->Some_0.held =~= Seq::new(n, |i: int| i < from));
        assert(after->Some_0.taken =~= Seq::new(n, |i: int| i >= from && fields[i].is_head()));
    }
}

/// `into_heads` drops every field that borrows, the last declared first, and
/// hands back the value of every head and of no other field, as it was.
pub proof fn into_heads_returns_the_heads(fields: Seq<StructFieldInfo>, values: Seq<i64>)
    requires
        fields.len() <= usize::MAX,
        values.len() == fields.len(),
    ensures
        into_heads_run(teardown(fields, 0), heads_from(fields, 0), values) == Some(
            HeadsShape {
                dropped: dependents_from(fields, 0),
                values: Seq::new(heads_from(fields, 0).len(), |k: int| values[heads_from(fields, 0)[k] as int]),
            },
        ),
        forall|i: int|
            0 <= i < fields.len() ==> ((#[trigger] fields[i]).is_head() <==> heads_from(fields, 0).contains(
                i as usize,
            )),
        forall|i: int|
            0 <= i < fields.len() ==> (!(#[trigger] fields[i]).is_head() <==> dependents_from(fields, 0).contains(
                i as usize,
            )),
{
    lemma_teardown_runs(fields, 0);
    lemma_heads_from(fields, 0);
}

/// The steps of `into_heads` take the fields in the order in which they are
/// stored, which is the reverse of the order in which they are declared: so
/// a field is dropped before every field that it borrows from is dropped or
/// moved out.
pub proof fn teardown_is_in_storage_order(fields: Seq<StructFieldInfo>, from: int, step: int)
    requires
        0 <= from <= fields.len() <= usize::MAX,
        0 <= step < fields.len() - from,
    ensures
        teardown(fields, from).len() == fields.len() - from,
        teardown(fields, from)[step] == head_step(fields, fields.len() - 1 - step),
    decreases fields.len() - from,
{
    lemma_teardown_runs(fields, from);
    if from < fields.len() {
        lemma_teardown_runs(fields, from + 1);
        if step < fields.len() - from - 1 {
            teardown_is_in_storage_order(fields, from + 1, step);
        }
    }
}


/// In a valid catalogue `into_heads` is done with a field that borrows before
/// it comes to any field that it borrows from.
pub proof fn borrowers_are_dropped_first(fields: Seq<StructFieldInfo>, field: int, request: int)
    requires
        fields.len() <= usize::MAX,
        valid_catalogue(fields),
        0 <= field < fields.len(),
        0 <= request < fields[field].borrows@.len(),
    ensures
        ({
            let code = teardown(fields, 0);
            let target = fields[field].borrows@[request].index as int;
            let early = fields.len() - 1 - field;
            let late = fields.len() - 1 - target;
            &&& 0 <= early < late < code.len()
            &&& code[early] == HeadStep::Drop(field as usize)
            &&& code[late] == head_step(fields, target)
        }),
{
    valid_catalogue_request(fields, field, request);
    let target = fields[field].borrows@[request].index as int;
    teardown_is_in_storage_order(fields, 0, fields.len() - 1 - field);
    teardown_is_in_storage_order(fields, 0, fields.len() - 1 - target);
}

} // verus!
