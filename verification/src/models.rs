//! The model of a sequence of values that have a view: the views, one for one.

use vstd::prelude::*;

verus! {

pub open spec fn models_of<T: View>(items: Seq<T>) -> Seq<T::V> {
    Seq::new(items.len(), |i: int| items[i]@)
}

pub proof fn lemma_models_push<T: View>(items: Seq<T>, item: T)
    ensures
        models_of(items.push(item)) == models_of(items).push(item@),
{
    assert(models_of(items.push(item)) =~= models_of(items).push(item@));
}

pub proof fn lemma_models_empty<T: View>()
    ensures
        models_of(Seq::<T>::empty()) == Seq::<T::V>::empty(),
{
    assert(models_of(Seq::<T>::empty()) =~= Seq::<T::V>::empty());
}

} // verus!
