use vstd::prelude::*;
use core::hash::BuildHasherDefault;
use ahash::AHasher;
use indexmap::IndexSet;

verus! {

#[verifier::external_type_specification]
#[verifier::external_body]
#[verifier::reject_recursive_types(T)]
#[verifier::reject_recursive_types(S)]
pub struct ExIndexSet<T, S>(IndexSet<T, S>);

#[verifier::external_type_specification]
#[verifier::external_body]
#[verifier::reject_recursive_types(H)]
pub struct ExBuildHasherDefault<H>(BuildHasherDefault<H>);

#[verifier::external_type_specification]
#[verifier::external_body]
pub struct ExAHasher(AHasher);

/// An insertion-ordered hash set with a fixed-key hasher.
pub type FxIndexSet<T> = IndexSet<T, BuildHasherDefault<AHasher>>;

/// The items of a key set, in insertion order.
pub uninterp spec fn key_set_items(s: FxIndexSet<u64>) -> Seq<u64>;

/// `IndexSet::with_hasher`: the new set holds no item.
#[verifier::external_body]
pub(crate) fn key_set_new() -> (r: FxIndexSet<u64>)
    ensures
        key_set_items(r) == Seq::<u64>::empty(),
{
    IndexSet::with_hasher(BuildHasherDefault::default())
}

/// `IndexSet::insert`: an item that is not in the set is appended at the end
/// and `true` is returned; an item that is already there leaves the set as it
/// was and `false` is returned. The set still holds each item once.
#[verifier::external_body]
pub(crate) fn key_set_insert(s: &mut FxIndexSet<u64>, value: u64) -> (r: bool)
    ensures
        r == !key_set_items(*old(s)).contains(value),
        key_set_items(*final(s)).no_duplicates(),
        key_set_items(*final(s)) == (if r {
            key_set_items(*old(s)).push(value)
        } else {
            key_set_items(*old(s))
        }),
{
    s.insert(value)
}

/// `IndexSet::len`: the number of items.
#[verifier::external_body]
pub(crate) fn key_set_len(s: &FxIndexSet<u64>) -> (r: usize)
    ensures
        r == key_set_items(*s).len(),
{
    s.len()
}

/// `IndexSet::is_empty`: whether the set holds no item.
#[verifier::external_body]
pub(crate) fn key_set_is_empty(s: &FxIndexSet<u64>) -> (r: bool)
    ensures
        r == (key_set_items(*s).len() == 0),
{
    s.is_empty()
}

/// `IndexSet::get_index`: the item at a position, if the position is in range.
#[verifier::external_body]
pub(crate) fn key_set_get_index(s: &FxIndexSet<u64>, index: usize) -> (r: Option<u64>)
    ensures
        r == (if index < key_set_items(*s).len() {
            Some(key_set_items(*s)[index as int])
        } else {
            None
        }),
{
    s.get_index(index).copied()
}

/// `IndexSet::contains`: whether the item is in the set.
#[verifier::external_body]
pub(crate) fn key_set_contains(s: &FxIndexSet<u64>, value: &u64) -> (r: bool)
    ensures
        r == key_set_items(*s).contains(*value),
{
    s.contains(value)
}

/// `IndexSet::get_full`, keeping the position: the position of the item if it
/// is in the set (items are distinct, so that position is the only one).
#[verifier::external_body]
pub(crate) fn key_set_get_full(s: &FxIndexSet<u64>, value: &u64) -> (r: Option<usize>)
    ensures
        r == (if key_set_items(*s).contains(*value) {
            Some(key_set_items(*s).index_of(*value) as usize)
        } else {
            None
        }),
{
    s.get_full(value).map(|(index, _)| index)
}

} // verus!
