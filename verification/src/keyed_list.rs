use vstd::prelude::*;
use crate::diff::{
    Diff, DiffOpMove, is_diff_of, longest_len, is_unchanged, is_removed, is_added, is_moved,
    is_target, source_of, move_at, unchanged_upto, removed_upto, added_upto, moved_upto,
    moved_froms, bound_at, lemma_positions, lemma_positions_step, lemma_moved_froms,
    lemma_target_source, lemma_moved_target, lemma_new_position_kinds, lemma_old_position_kinds,
    lemma_new_len_bound, lemma_index_of_unique,
};
use crate::renderer::{opt_node, same_node, state_put, NodeTree, Renderer, RendererNodeId, RendererWorld, ViewCtx};
use crate::view::{XView, ViewKey, IntoView, MutableView, MutableViewKey, removes_in_order, inserts_in_order, sets_visibility_in_order, first_node_from, lemma_removes_step, lemma_inserts_step, lemma_sets_visibility_step};
use crate::key_set::{FxIndexSet, key_set_items, key_set_new, key_set_insert, key_set_len, key_set_get_index, key_set_get_full};
use crate::virtual_container::{VirtualContainer, virtual_container};
use core::marker::PhantomData;

verus! {

/// Takes the item out of slot `i`, leaving the slot empty.
pub(crate) fn take_slot<T>(v: &mut Vec<Option<T>>, i: usize) -> (r: Option<T>)
    requires
        i < old(v).len(),
    ensures
        r == old(v)@[i as int],
        final(v)@ == old(v)@.update(i as int, None),
{
    let mut r: Option<T> = None;
    std::mem::swap(&mut r, &mut v[i]);
    r
}

/// The key that slot `p` holds once the removed and moved keys are taken out.
pub open spec fn base_slot<K>(f: Seq<u64>, t: Seq<u64>, old: Seq<Option<K>>, p: int) -> Option<K> {
    if 0 <= p < f.len() && is_unchanged(f, t, p) {
        old[p]
    } else {
        None
    }
}

/// The old and new key lists are such that `diff` describes them, and the
/// children and views line up with them.
pub open spec fn keyed_lists_fit<K, V>(
    f: Seq<u64>,
    t: Seq<u64>,
    children: Seq<Option<K>>,
    views: Seq<Option<V>>,
) -> bool {
    &&& f.no_duplicates()
    &&& t.no_duplicates()
    &&& f.len() <= i32::MAX
    &&& t.len() <= i32::MAX
    &&& children.len() == f.len()
    &&& views.len() == t.len()
    &&& forall|j: int| 0 <= j < children.len() ==> #[trigger] children[j] is Some
    &&& forall|p: int| 0 <= p < views.len() ==> #[trigger] views[p] is Some
}

/// The first node of the first built key at or after `to`, else the placeholder.
pub(crate) fn get_next_some_node_id<R: Renderer, K: ViewKey<R>>(
    world: &RendererWorld<R>,
    children_keys: &Vec<Option<K>>,
    to: usize,
    placeholder_id: &RendererNodeId<R>,
) -> (r: Option<RendererNodeId<R>>)
    ensures
        r is Some,
        same_node(
            match first_node_from::<R, Option<K>>(children_keys@, to as int, *world) {
                Some(id) => Some(id),
                None => Some(*placeholder_id),
            },
            r,
        ),
{
    let mut j: usize = to;
    while j < children_keys.len()
        invariant
            to <= j,
            first_node_from::<R, Option<K>>(children_keys@, to as int, *world) == first_node_from::<
                R,
                Option<K>,
            >(children_keys@, j as int, *world),
        decreases children_keys.len() - j,
    {
        if let Some(key) = &children_keys[j] {
            if let Some(node_id) = key.first_node_id(world) {
                return Some(node_id);
            }
        }
        j = j + 1;
    }
    Some(placeholder_id.clone())
}

/// Whether `after` is `before` once `view` is rebuilt on a clone of `key`
/// under a clone of `parent`.
pub open spec fn view_rebuilt_on<R: Renderer, V: XView<R>>(
    view: V,
    key: V::Key,
    parent: RendererNodeId<R>,
    before: RendererWorld<R>,
    after: RendererWorld<R>,
) -> bool {
    exists|p: RendererNodeId<R>, k: V::Key|
        #![trigger view.rebuilds(p, k, before, after)]
        {
            &&& cloned::<RendererNodeId<R>>(parent, p)
            &&& cloned::<V::Key>(key, k)
            &&& view.rebuilds(p, k, before, after)
        }
}

/// Whether `after` is `before` once, at each of `positions` in turn, the
/// view there is rebuilt on a clone of the key there.
pub open spec fn rebuilds_at<R: Renderer, V: XView<R>>(
    views: Seq<Option<V>>,
    keys: Seq<Option<V::Key>>,
    positions: Seq<usize>,
    parent: RendererNodeId<R>,
    before: RendererWorld<R>,
    after: RendererWorld<R>,
) -> bool
    decreases positions.len(),
{
    if positions.len() == 0 {
        after == before
    } else {
        exists|mid: RendererWorld<R>|
            #![trigger view_rebuilt_on::<R, V>(views[positions.last() as int]->0, keys[positions.last() as int]->0, parent, mid, after)]
            {
                &&& rebuilds_at::<R, V>(views, keys, positions.drop_last(), parent, before, mid)
                &&& view_rebuilt_on::<R, V>(
                    views[positions.last() as int]->0,
                    keys[positions.last() as int]->0,
                    parent,
                    mid,
                    after,
                )
            }
    }
}

/// Whether `after` is `before` once the view of `key` is removed.
pub open spec fn key_removed<R: Renderer, K: ViewKey<R>>(
    key: Option<K>,
    before: RendererWorld<R>,
    after: RendererWorld<R>,
) -> bool {
    key.view_removes(before, after)
}

/// Whether `after` is `before` once, at each of `positions` in turn, the view
/// of the key there is removed.
pub open spec fn removes_at<R: Renderer, K: ViewKey<R>>(
    keys: Seq<Option<K>>,
    positions: Seq<usize>,
    before: RendererWorld<R>,
    after: RendererWorld<R>,
) -> bool
    decreases positions.len(),
{
    if positions.len() == 0 {
        after == before
    } else {
        exists|mid: RendererWorld<R>|
            #![trigger key_removed::<R, K>(keys[positions.last() as int], mid, after)]
            {
                &&& removes_at::<R, K>(keys, positions.drop_last(), before, mid)
                &&& key_removed::<R, K>(keys[positions.last() as int], mid, after)
            }
    }
}

/// The node that views put at position `to` of `slots` go before: the first
/// node of the first view at or after `to`, else the placeholder.
pub open spec fn next_anchor<R: Renderer, K: ViewKey<R>>(
    slots: Seq<Option<K>>,
    to: int,
    world: RendererWorld<R>,
    placeholder: RendererNodeId<R>,
) -> Option<RendererNodeId<R>> {
    match first_node_from::<R, Option<K>>(slots, to, world) {
        Some(id) => Some(id),
        None => Some(placeholder),
    }
}

/// What slot `p` of the new list holds once the moves in storage are done
/// and the moves in the node tree of the old positions before `done`: the key
/// of a move done in storage, a clone of a key moved in the tree, nothing
/// for a move still to come, and the old key of an unchanged position.
pub open spec fn slot_after_moves<K: Clone>(
    f: Seq<u64>,
    t: Seq<u64>,
    old_keys: Seq<Option<K>>,
    done: int,
    p: int,
    slot: Option<K>,
) -> bool {
    if is_target(f, t, p) {
        if target_ignored(f, t, p) {
            slot == old_keys[source_of(f, t, p)]
        } else if source_of(f, t, p) < done {
            is_clone_of(old_keys[source_of(f, t, p)], slot)
        } else {
            slot is None
        }
    } else {
        slot == base_slot(f, t, old_keys, p)
    }
}

/// Whether `slots` holds `len` slots, each as `slot_after_moves` describes.
pub open spec fn slots_after_moves<K: Clone>(
    f: Seq<u64>,
    t: Seq<u64>,
    old_keys: Seq<Option<K>>,
    len: int,
    done: int,
    slots: Seq<Option<K>>,
) -> bool {
    &&& slots.len() == len
    &&& forall|p: int| 0 <= p < len ==> #[trigger] slot_after_moves(f, t, old_keys, done, p, slots[p])
}

/// Whether `after` is `before` once the view of `key` is put under `parent`
/// before the first node of the next view in the list at position `to` (or
/// before the placeholder), the slots being as they stand once the moves of
/// the old positions before `done` are placed, and `view` is then rebuilt on
/// `key` under a clone of `parent`.
pub open spec fn moved_and_rebuilt<R: Renderer, V: XView<R>>(
    key: V::Key,
    view: V,
    parent: RendererNodeId<R>,
    f: Seq<u64>,
    t: Seq<u64>,
    old_keys: Seq<Option<V::Key>>,
    len: int,
    placeholder: RendererNodeId<R>,
    to: int,
    done: int,
    before: RendererWorld<R>,
    after: RendererWorld<R>,
) -> bool {
    exists|placed: RendererWorld<R>, n: RendererNodeId<R>, p: RendererNodeId<R>, slots: Seq<Option<V::Key>>|
        #![trigger key.view_inserts_before(before, Some(parent), Some(n), placed), view.rebuilds(p, key, placed, after), slots_after_moves(f, t, old_keys, len, done, slots)]
        {
            &&& slots_after_moves(f, t, old_keys, len, done, slots)
            &&& same_node(next_anchor::<R, V::Key>(slots, to, before, placeholder), Some(n))
            &&& key.view_inserts_before(before, Some(parent), Some(n), placed)
            &&& cloned::<RendererNodeId<R>>(parent, p)
            &&& view.rebuilds(p, key, placed, after)
        }
}

/// Whether `after` is `before` once, for each move in turn that is not done
/// in storage only, the moved key's view is put in its new place and the new
/// view at that place is rebuilt on it.
pub open spec fn moves_in_tree<R: Renderer, V: XView<R>>(
    moved: Seq<DiffOpMove>,
    old_keys: Seq<Option<V::Key>>,
    views: Seq<Option<V>>,
    parent: RendererNodeId<R>,
    f: Seq<u64>,
    t: Seq<u64>,
    len: int,
    placeholder: RendererNodeId<R>,
    before: RendererWorld<R>,
    after: RendererWorld<R>,
) -> bool
    decreases moved.len(),
{
    if moved.len() == 0 {
        after == before
    } else if moved.last().can_ignored {
        moves_in_tree::<R, V>(moved.drop_last(), old_keys, views, parent, f, t, len, placeholder, before, after)
    } else {
        exists|mid: RendererWorld<R>|
            #![trigger moved_and_rebuilt::<R, V>(old_keys[moved.last().from as int]->0, views[moved.last().to as int]->0, parent, f, t, old_keys, len, placeholder, moved.last().to as int, moved.last().from as int, mid, after)]
            {
                &&& moves_in_tree::<R, V>(moved.drop_last(), old_keys, views, parent, f, t, len, placeholder, before, mid)
                &&& moved_and_rebuilt::<R, V>(
                    old_keys[moved.last().from as int]->0,
                    views[moved.last().to as int]->0,
                    parent,
                    f,
                    t,
                    old_keys,
                    len,
                    placeholder,
                    moved.last().to as int,
                    moved.last().from as int,
                    mid,
                    after,
                )
            }
    }
}

/// The slots `slots` once the first `k` additions have put the keys of
/// `built` at their positions.
pub open spec fn added_slots<K>(slots: Seq<Option<K>>, added: Seq<usize>, built: Seq<K>, k: int) -> Seq<
    Option<K>,
>
    decreases k,
{
    if k <= 0 {
        slots
    } else {
        added_slots(slots, added, built, k - 1).update(added[k - 1] as int, Some(built[k - 1]))
    }
}

/// Whether `after` is `before` once `view` is built (to be rebuilt) under a
/// clone of `parent` as `key`, and its nodes put under `parent` before the
/// first node of the next view at or after `at` in `slots` (or before the
/// placeholder).
pub open spec fn built_and_placed<R: Renderer, V: XView<R>>(
    view: V,
    key: V::Key,
    parent: RendererNodeId<R>,
    slots: Seq<Option<V::Key>>,
    at: int,
    placeholder: RendererNodeId<R>,
    before: RendererWorld<R>,
    after: RendererWorld<R>,
) -> bool {
    exists|built: RendererWorld<R>, n: RendererNodeId<R>, p: RendererNodeId<R>|
        #![trigger view.builds(p, None, true, before, built, key), key.view_inserts_before(built, Some(parent), Some(n), after)]
        {
            &&& cloned::<RendererNodeId<R>>(parent, p)
            &&& view.builds(p, None, true, before, built, key)
            &&& same_node(next_anchor::<R, V::Key>(slots, at, built, placeholder), Some(n))
            &&& key.view_inserts_before(built, Some(parent), Some(n), after)
        }
}

/// Whether `after` is `before` once, for each of the first `k` additions in
/// turn, the view at its position is built as the matching key of `built`
/// and put in place among the slots, which start as `slots`.
pub open spec fn builds_upto<R: Renderer, V: XView<R>>(
    views: Seq<Option<V>>,
    added: Seq<usize>,
    built: Seq<V::Key>,
    slots: Seq<Option<V::Key>>,
    parent: RendererNodeId<R>,
    placeholder: RendererNodeId<R>,
    k: int,
    before: RendererWorld<R>,
    after: RendererWorld<R>,
) -> bool
    decreases k,
{
    if k <= 0 {
        after == before
    } else {
        exists|mid: RendererWorld<R>|
            #![trigger built_and_placed::<R, V>(views[added[k - 1] as int]->0, built[k - 1], parent, added_slots(slots, added, built, k - 1), added[k - 1] as int, placeholder, mid, after)]
            {
                &&& builds_upto::<R, V>(views, added, built, slots, parent, placeholder, k - 1, before, mid)
                &&& built_and_placed::<R, V>(
                    views[added[k - 1] as int]->0,
                    built[k - 1],
                    parent,
                    added_slots(slots, added, built, k - 1),
                    added[k - 1] as int,
                    placeholder,
                    mid,
                    after,
                )
            }
    }
}

proof fn lemma_added_slots_prefix<K>(slots: Seq<Option<K>>, added: Seq<usize>, built: Seq<K>, x: K, k: int)
    requires
        0 <= k <= built.len(),
    ensures
        added_slots(slots, added, built.push(x), k) == added_slots(slots, added, built, k),
    decreases k,
{
    if k > 0 {
        lemma_added_slots_prefix(slots, added, built, x, k - 1);
        assert(built.push(x)[k - 1] == built[k - 1]);
    }
}

proof fn lemma_builds_upto_prefix<R: Renderer, V: XView<R>>(
    views: Seq<Option<V>>,
    added: Seq<usize>,
    built: Seq<V::Key>,
    x: V::Key,
    slots: Seq<Option<V::Key>>,
    parent: RendererNodeId<R>,
    placeholder: RendererNodeId<R>,
    k: int,
    before: RendererWorld<R>,
    after: RendererWorld<R>,
)
    requires
        0 <= k <= built.len(),
        builds_upto::<R, V>(views, added, built, slots, parent, placeholder, k, before, after),
    ensures
        builds_upto::<R, V>(views, added, built.push(x), slots, parent, placeholder, k, before, after),
    decreases k,
{
    if k > 0 {
        assert(exists|mid: RendererWorld<R>|
            #![trigger built_and_placed::<R, V>(views[added[k - 1] as int]->0, built[k - 1], parent, added_slots(slots, added, built, k - 1), added[k - 1] as int, placeholder, mid, after)]
            {
                &&& builds_upto::<R, V>(views, added, built, slots, parent, placeholder, k - 1, before, mid)
                &&& built_and_placed::<R, V>(
                    views[added[k - 1] as int]->0,
                    built[k - 1],
                    parent,
                    added_slots(slots, added, built, k - 1),
                    added[k - 1] as int,
                    placeholder,
                    mid,
                    after,
                )
            });
        let mid = choose|mid: RendererWorld<R>|
            #![trigger built_and_placed::<R, V>(views[added[k - 1] as int]->0, built[k - 1], parent, added_slots(slots, added, built, k - 1), added[k - 1] as int, placeholder, mid, after)]
            {
                &&& builds_upto::<R, V>(views, added, built, slots, parent, placeholder, k - 1, before, mid)
                &&& built_and_placed::<R, V>(
                    views[added[k - 1] as int]->0,
                    built[k - 1],
                    parent,
                    added_slots(slots, added, built, k - 1),
                    added[k - 1] as int,
                    placeholder,
                    mid,
                    after,
                )
            };
        lemma_builds_upto_prefix::<R, V>(views, added, built, x, slots, parent, placeholder, k - 1, before, mid);
        lemma_added_slots_prefix(slots, added, built, x, k - 1);
        assert(built.push(x)[k - 1] == built[k - 1]);
    }
}

proof fn lemma_rebuilds_at_step<R: Renderer, V: XView<R>>(
    views: Seq<Option<V>>,
    keys: Seq<Option<V::Key>>,
    positions: Seq<usize>,
    parent: RendererNodeId<R>,
    before: RendererWorld<R>,
    mid: RendererWorld<R>,
    after: RendererWorld<R>,
)
    requires
        positions.len() > 0,
        rebuilds_at::<R, V>(views, keys, positions.drop_last(), parent, before, mid),
        view_rebuilt_on::<R, V>(
            views[positions.last() as int]->0,
            keys[positions.last() as int]->0,
            parent,
            mid,
            after,
        ),
    ensures
        rebuilds_at::<R, V>(views, keys, positions, parent, before, after),
{
}

pub(crate) proof fn lemma_removes_at_step<R: Renderer, K: ViewKey<R>>(
    keys: Seq<Option<K>>,
    positions: Seq<usize>,
    before: RendererWorld<R>,
    mid: RendererWorld<R>,
    after: RendererWorld<R>,
)
    requires
        positions.len() > 0,
        removes_at::<R, K>(keys, positions.drop_last(), before, mid),
        key_removed::<R, K>(keys[positions.last() as int], mid, after),
    ensures
        removes_at::<R, K>(keys, positions, before, after),
{
}

proof fn lemma_moves_step<R: Renderer, V: XView<R>>(
    moved: Seq<DiffOpMove>,
    old_keys: Seq<Option<V::Key>>,
    views: Seq<Option<V>>,
    parent: RendererNodeId<R>,
    f: Seq<u64>,
    t: Seq<u64>,
    len: int,
    placeholder: RendererNodeId<R>,
    before: RendererWorld<R>,
    mid: RendererWorld<R>,
    after: RendererWorld<R>,
)
    requires
        moved.len() > 0,
        moves_in_tree::<R, V>(moved.drop_last(), old_keys, views, parent, f, t, len, placeholder, before, mid),
        moved.last().can_ignored ==> after == mid,
        !moved.last().can_ignored ==> moved_and_rebuilt::<R, V>(
            old_keys[moved.last().from as int]->0,
            views[moved.last().to as int]->0,
            parent,
            f,
            t,
            old_keys,
            len,
            placeholder,
            moved.last().to as int,
            moved.last().from as int,
            mid,
            after,
        ),
    ensures
        moves_in_tree::<R, V>(moved, old_keys, views, parent, f, t, len, placeholder, before, after),
{
}

fn rebuild_no_changed<R: Renderer, V: XView<R>>(
    world: &mut RendererWorld<R>,
    parent: &RendererNodeId<R>,
    no_changed: &Vec<usize>,
    views: &mut Vec<Option<V>>,
    children_keys: &Vec<Option<V::Key>>,
    Ghost(f): Ghost<Seq<u64>>,
    Ghost(t): Ghost<Seq<u64>>,
)
    requires
        keyed_lists_fit(f, t, children_keys@, old(views)@),
        no_changed@ == unchanged_upto(f, t, longest_len(f, t)),
    ensures
        final(views)@.len() == old(views)@.len(),
        forall|p: int|
            0 <= p < t.len() ==> #[trigger] final(views)@[p] == if is_unchanged(f, t, p) {
                None
            } else {
                old(views)@[p]
            },
        rebuilds_at::<R, V>(old(views)@, children_keys@, no_changed@, *parent, *old(world), *final(world)),
{
    let ghost n = longest_len(f, t);
    let ghost v0 = views@;
    let ghost w0 = *world;
    let ghost pu = |i: int| is_unchanged(f, t, i);
    proof {
        lemma_positions(n, pu);
        assert forall|p: int| 0 <= p < t.len() && is_unchanged(f, t, p) implies bound_at(
            no_changed@,
            0,
            n,
        ) <= p by {
            assert(pu(p));
            crate::diff::lemma_positions_first(n, pu, p);
        }
    }
    let mut k: usize = 0;
    while k < no_changed.len()
        invariant
            keyed_lists_fit(f, t, children_keys@, v0),
            no_changed@ == unchanged_upto(f, t, n),
            n == longest_len(f, t),
            pu == (|i: int| is_unchanged(f, t, i)),
            unchanged_upto(f, t, n) == crate::diff::positions_upto(n, pu),
            k <= no_changed.len(),
            views@.len() == v0.len(),
            forall|p: int|
                0 <= p < t.len() ==> #[trigger] views@[p] == if is_unchanged(f, t, p) && p < bound_at(
                    no_changed@,
                    k as int,
                    n,
                ) {
                    None
                } else {
                    v0[p]
                },
            rebuilds_at::<R, V>(v0, children_keys@, no_changed@.take(k as int), *parent, w0, *world),
        decreases no_changed.len() - k,
    {
        proof {
            lemma_positions(n, pu);
        }
        let at = no_changed[k];
        assert(pu(at as int));
        assert(at < t.len() && at < f.len());
        let ghost mid = *world;
        let view = take_slot(views, at).unwrap();
        let key = children_keys[at].as_ref().unwrap().clone();
        let p = parent.clone();
        view.rebuild(ViewCtx { world: &mut *world, parent: p }, key);
        proof {
            assert(no_changed@.take(k + 1).drop_last() == no_changed@.take(k as int));
            assert(no_changed@.take(k + 1).last() == at);
            assert(view.rebuilds(p, key, mid, *world));
            lemma_rebuilds_at_step::<R, V>(v0, children_keys@, no_changed@.take(k + 1), *parent, w0, mid, *world);
        }
        proof {
            assert forall|p: int| 0 <= p < t.len() implies #[trigger] views@[p] == if is_unchanged(
                f,
                t,
                p,
            ) && p < bound_at(no_changed@, k + 1, n) {
                None
            } else {
                v0[p]
            } by {
                if is_unchanged(f, t, p) && at <= p < bound_at(no_changed@, k + 1, n) {
                    lemma_positions_step(n, pu, k as int, p);
                }
                if k + 1 < no_changed.len() {
                    assert(no_changed@[k as int] < no_changed@[k + 1]);
                }
            }
        }
        k = k + 1;
    }
    assert(no_changed@.take(no_changed@.len() as int) == no_changed@);
}

} // verus!

verus! {

fn remove_removed<R: Renderer, K: ViewKey<R>>(
    world: &mut RendererWorld<R>,
    removed: &Vec<usize>,
    children_keys: &mut Vec<Option<K>>,
    Ghost(f): Ghost<Seq<u64>>,
    Ghost(t): Ghost<Seq<u64>>,
)
    requires
        f.len() <= i32::MAX,
        t.len() <= i32::MAX,
        old(children_keys)@.len() == f.len(),
        forall|j: int| 0 <= j < f.len() ==> #[trigger] old(children_keys)@[j] is Some,
        removed@ == removed_upto(f, t, longest_len(f, t)),
    ensures
        final(children_keys)@.len() == f.len(),
        forall|j: int|
            0 <= j < f.len() ==> #[trigger] final(children_keys)@[j] == if is_removed(f, t, j) {
                None
            } else {
                old(children_keys)@[j]
            },
        removes_at::<R, K>(old(children_keys)@, removed@, *old(world), *final(world)),
{
    let ghost n = longest_len(f, t);
    let ghost k0 = children_keys@;
    let ghost w0 = *world;
    let ghost pr = |i: int| is_removed(f, t, i);
    proof {
        lemma_positions(n, pr);
        assert forall|j: int| 0 <= j < f.len() && is_removed(f, t, j) implies bound_at(removed@, 0, n)
            <= j by {
            assert(pr(j));
            crate::diff::lemma_positions_first(n, pr, j);
        }
    }
    let mut k: usize = 0;
    while k < removed.len()
        invariant
            f.len() <= i32::MAX,
            t.len() <= i32::MAX,
            n == longest_len(f, t),
            pr == (|i: int| is_removed(f, t, i)),
            removed@ == crate::diff::positions_upto(n, pr),
            k <= removed.len(),
            children_keys@.len() == f.len(),
            forall|j: int| 0 <= j < f.len() ==> #[trigger] k0[j] is Some,
            forall|j: int|
                0 <= j < f.len() ==> #[trigger] children_keys@[j] == if is_removed(f, t, j) && j
                    < bound_at(removed@, k as int, n) {
                    None
                } else {
                    k0[j]
                },
            removes_at::<R, K>(k0, removed@.take(k as int), w0, *world),
        decreases removed.len() - k,
    {
        proof {
            lemma_positions(n, pr);
        }
        let at = removed[k];
        assert(pr(at as int));
        let ghost mid = *world;
        let key = take_slot(children_keys, at).unwrap();
        key.remove(world);
        proof {
            assert(removed@.take(k + 1).drop_last() == removed@.take(k as int));
            assert(removed@.take(k + 1).last() == at);
            assert(key_removed::<R, K>(k0[at as int], mid, *world));
            lemma_removes_at_step::<R, K>(k0, removed@.take(k + 1), w0, mid, *world);
        }
        proof {
            assert forall|j: int| 0 <= j < f.len() implies #[trigger] children_keys@[j] == if is_removed(
                f,
                t,
                j,
            ) && j < bound_at(removed@, k + 1, n) {
                None
            } else {
                k0[j]
            } by {
                if is_removed(f, t, j) && at <= j < bound_at(removed@, k + 1, n) {
                    lemma_positions_step(n, pr, k as int, j);
                }
                if k + 1 < removed.len() {
                    assert(removed@[k as int] < removed@[k + 1]);
                }
            }
        }
        k = k + 1;
    }
    assert(removed@.take(removed@.len() as int) == removed@);
}

fn take_moved<K>(
    moved: &Vec<DiffOpMove>,
    children_keys: &mut Vec<Option<K>>,
    Ghost(f): Ghost<Seq<u64>>,
    Ghost(t): Ghost<Seq<u64>>,
    Ghost(old_keys): Ghost<Seq<Option<K>>>,
) -> (moved_children: Vec<Option<K>>)
    requires
        f.len() <= i32::MAX,
        t.len() <= i32::MAX,
        old_keys.len() == f.len(),
        old(children_keys)@.len() == f.len(),
        forall|j: int|
            0 <= j < f.len() ==> #[trigger] old(children_keys)@[j] == if is_removed(f, t, j) {
                None
            } else {
                old_keys[j]
            },
        moved@ == moved_upto(f, t, longest_len(f, t)),
    ensures
        final(children_keys)@.len() == f.len(),
        forall|j: int|
            0 <= j < f.len() ==> #[trigger] final(children_keys)@[j] == base_slot(f, t, old_keys, j),
        moved_children@.len() == moved@.len(),
        forall|a: int|
            0 <= a < moved@.len() ==> #[trigger] moved_children@[a] == old_keys[moved@[a].from as int],
{
    let ghost n = longest_len(f, t);
    let ghost pm = |i: int| is_moved(f, t, i);
    let ghost froms = moved_froms(f, t, n);
    proof {
        lemma_positions(n, pm);
        lemma_moved_froms(f, t, n);
        assert forall|j: int| 0 <= j < f.len() && is_moved(f, t, j) implies bound_at(froms, 0, n)
            <= j by {
            assert(pm(j));
            crate::diff::lemma_positions_first(n, pm, j);
        }
    }
    let mut moved_children: Vec<Option<K>> = Vec::new();
    let mut i: usize = 0;
    while i < moved.len()
        invariant
            f.len() <= i32::MAX,
            t.len() <= i32::MAX,
            n == longest_len(f, t),
            pm == (|i: int| is_moved(f, t, i)),
            froms == crate::diff::positions_upto(n, pm),
            moved@ == moved_upto(f, t, n),
            moved@.len() == froms.len(),
            forall|a: int| 0 <= a < moved@.len() ==> #[trigger] moved@[a].from == froms[a],
            i <= moved.len(),
            old_keys.len() == f.len(),
            children_keys@.len() == f.len(),
            moved_children@.len() == i,
            forall|a: int|
                0 <= a < i ==> #[trigger] moved_children@[a] == old_keys[moved@[a].from as int],
            forall|j: int|
                0 <= j < f.len() ==> #[trigger] children_keys@[j] == if is_removed(f, t, j) || (
                is_moved(f, t, j) && j < bound_at(froms, i as int, n)) {
                    None
                } else {
                    old_keys[j]
                },
        decreases moved.len() - i,
    {
        proof {
            lemma_positions(n, pm);
        }
        let from = moved[i].from;
        assert(from == froms[i as int]);
        assert(pm(from as int));
        let child = take_slot(children_keys, from);
        moved_children.push(child);
        proof {
            assert forall|j: int| 0 <= j < f.len() implies #[trigger] children_keys@[j] == if is_removed(
                f,
                t,
                j,
            ) || (is_moved(f, t, j) && j < bound_at(froms, i + 1, n)) {
                None
            } else {
                old_keys[j]
            } by {
                if is_moved(f, t, j) && from <= j < bound_at(froms, i + 1, n) {
                    lemma_positions_step(n, pm, i as int, j);
                }
                if i + 1 < moved.len() {
                    assert(froms[i as int] < froms[i + 1]);
                }
            }
        }
        i = i + 1;
    }
    proof {
        assert forall|j: int| 0 <= j < f.len() implies #[trigger] children_keys@[j] == base_slot(
            f,
            t,
            old_keys,
            j,
        ) by {
            lemma_old_position_kinds(f, t, j);
        }
    }
    moved_children
}

} // verus!

verus! {

/// `b` is a copy of the built key `a`: both are built, and `b` is a clone of `a`.
pub open spec fn is_clone_of<K: Clone>(a: Option<K>, b: Option<K>) -> bool {
    &&& a is Some
    &&& b is Some
    &&& cloned::<K>(a->0, b->0)
}

/// The move that brings the key at new position `p` can be done in storage only.
pub open spec fn target_ignored(f: Seq<u64>, t: Seq<u64>, p: int) -> bool {
    move_at(f, t, source_of(f, t, p)).can_ignored
}

fn place_ignored<K>(
    moved: &Vec<DiffOpMove>,
    moved_children: &mut Vec<Option<K>>,
    children_keys: &mut Vec<Option<K>>,
    Ghost(f): Ghost<Seq<u64>>,
    Ghost(t): Ghost<Seq<u64>>,
    Ghost(old_keys): Ghost<Seq<Option<K>>>,
)
    requires
        f.no_duplicates(),
        t.no_duplicates(),
        f.len() <= i32::MAX,
        t.len() <= i32::MAX,
        old_keys.len() == f.len(),
        t.len() <= old(children_keys)@.len(),
        forall|p: int|
            0 <= p < old(children_keys)@.len() ==> #[trigger] old(children_keys)@[p] == base_slot(
                f,
                t,
                old_keys,
                p,
            ),
        moved@ == moved_upto(f, t, longest_len(f, t)),
        old(moved_children)@.len() == moved@.len(),
        forall|a: int|
            0 <= a < moved@.len() ==> #[trigger] old(moved_children)@[a] == old_keys[moved@[a].from as int],
    ensures
        final(children_keys)@.len() == old(children_keys)@.len(),
        forall|p: int|
            0 <= p < final(children_keys)@.len() ==> #[trigger] final(children_keys)@[p] == if is_target(
                f,
                t,
                p,
            ) && target_ignored(f, t, p) {
                old_keys[source_of(f, t, p)]
            } else {
                base_slot(f, t, old_keys, p)
            },
        final(moved_children)@.len() == moved@.len(),
        forall|a: int|
            0 <= a < moved@.len() ==> #[trigger] final(moved_children)@[a] == if moved@[a].can_ignored {
                None
            } else {
                old_keys[moved@[a].from as int]
            },
{
    let ghost n = longest_len(f, t);
    let ghost pm = |i: int| is_moved(f, t, i);
    let ghost froms = moved_froms(f, t, n);
    let ghost len = children_keys@.len();
    proof {
        lemma_positions(n, pm);
        lemma_moved_froms(f, t, n);
        assert forall|p: int| 0 <= p < len && is_target(f, t, p) implies bound_at(froms, 0, n)
            <= source_of(f, t, p) by {
            lemma_target_source(f, t, p);
            assert(pm(source_of(f, t, p)));
            crate::diff::lemma_positions_first(n, pm, source_of(f, t, p));
        }
    }
    let mut i: usize = 0;
    while i < moved.len()
        invariant
            f.no_duplicates(),
            t.no_duplicates(),
            f.len() <= i32::MAX,
            t.len() <= i32::MAX,
            n == longest_len(f, t),
            pm == (|i: int| is_moved(f, t, i)),
            froms == crate::diff::positions_upto(n, pm),
            moved@ == moved_upto(f, t, n),
            moved@.len() == froms.len(),
            forall|a: int|
                0 <= a < moved@.len() ==> #[trigger] moved@[a] == move_at(f, t, froms[a] as int)
                    && moved@[a].from == froms[a],
            i <= moved.len(),
            old_keys.len() == f.len(),
            children_keys@.len() == len,
            t.len() <= len,
            moved_children@.len() == moved@.len(),
            forall|a: int|
                0 <= a < moved@.len() ==> #[trigger] moved_children@[a] == if a < i
                    && moved@[a].can_ignored {
                    None
                } else {
                    old_keys[moved@[a].from as int]
                },
            forall|p: int|
                0 <= p < len ==> #[trigger] children_keys@[p] == if is_target(f, t, p)
                    && target_ignored(f, t, p) && source_of(f, t, p) < bound_at(froms, i as int, n) {
                    old_keys[source_of(f, t, p)]
                } else {
                    base_slot(f, t, old_keys, p)
                },
        decreases moved.len() - i,
    {
        proof {
            lemma_positions(n, pm);
        }
        let m = moved[i];
        let ghost j = m.from as int;
        assert(j == froms[i as int]);
        assert(pm(j));
        proof {
            lemma_moved_target(f, t, j);
        }
        if m.can_ignored {
            let child = take_slot(moved_children, i);
            children_keys.set(m.to, child);
        }
        proof {
            assert forall|p: int| 0 <= p < len implies #[trigger] children_keys@[p] == if is_target(
                f,
                t,
                p,
            ) && target_ignored(f, t, p) && source_of(f, t, p) < bound_at(froms, i + 1, n) {
                old_keys[source_of(f, t, p)]
            } else {
                base_slot(f, t, old_keys, p)
            } by {
                if is_target(f, t, p) {
                    lemma_target_source(f, t, p);
                    let s = source_of(f, t, p);
                    if j <= s < bound_at(froms, i + 1, n) {
                        lemma_positions_step(n, pm, i as int, s);
                    }
                    if i + 1 < moved.len() {
                        assert(froms[i as int] < froms[i + 1]);
                    }
                }
            }
        }
        i = i + 1;
    }
}

} // verus!

verus! {

fn place_moved<R: Renderer, V: XView<R>>(
    world: &mut RendererWorld<R>,
    parent: &RendererNodeId<R>,
    placeholder_id: &RendererNodeId<R>,
    moved: &Vec<DiffOpMove>,
    moved_children: &mut Vec<Option<V::Key>>,
    children_keys: &mut Vec<Option<V::Key>>,
    views: &mut Vec<Option<V>>,
    Ghost(f): Ghost<Seq<u64>>,
    Ghost(t): Ghost<Seq<u64>>,
    Ghost(old_keys): Ghost<Seq<Option<V::Key>>>,
    Ghost(orig_views): Ghost<Seq<Option<V>>>,
)
    requires
        forall|p: int| 0 <= p < t.len() && is_target(f, t, p) ==> #[trigger] old(views)@[p] == orig_views[p],
        f.no_duplicates(),
        t.no_duplicates(),
        f.len() <= i32::MAX,
        t.len() <= i32::MAX,
        old_keys.len() == f.len(),
        forall|j: int| 0 <= j < f.len() ==> #[trigger] old_keys[j] is Some,
        t.len() <= old(children_keys)@.len(),
        forall|p: int|
            0 <= p < old(children_keys)@.len() ==> #[trigger] old(children_keys)@[p] == if is_target(
                f,
                t,
                p,
            ) && target_ignored(f, t, p) {
                old_keys[source_of(f, t, p)]
            } else {
                base_slot(f, t, old_keys, p)
            },
        moved@ == moved_upto(f, t, longest_len(f, t)),
        old(moved_children)@.len() == moved@.len(),
        forall|a: int|
            0 <= a < moved@.len() && !moved@[a].can_ignored ==> #[trigger] old(moved_children)@[a]
                == old_keys[moved@[a].from as int],
        old(views)@.len() == t.len(),
        forall|p: int|
            0 <= p < t.len() && (is_added(f, t, p) || (is_target(f, t, p) && !target_ignored(
                f,
                t,
                p,
            ))) ==> #[trigger] old(views)@[p] is Some,
    ensures
        final(children_keys)@.len() == old(children_keys)@.len(),
        forall|p: int|
            0 <= p < final(children_keys)@.len() ==> if is_target(f, t, p) {
                if target_ignored(f, t, p) {
                    #[trigger] final(children_keys)@[p] == old_keys[source_of(f, t, p)]
                } else {
                    is_clone_of(old_keys[source_of(f, t, p)], final(children_keys)@[p])
                }
            } else {
                final(children_keys)@[p] == base_slot(f, t, old_keys, p)
            },
        final(views)@.len() == t.len(),
        forall|p: int| 0 <= p < t.len() && is_added(f, t, p) ==> #[trigger] final(views)@[p] == old(views)@[p],
        moves_in_tree::<R, V>(
            moved@,
            old_keys,
            orig_views,
            *parent,
            f,
            t,
            old(children_keys)@.len() as int,
            *placeholder_id,
            *old(world),
            *final(world),
        ),
{
    let ghost n = longest_len(f, t);
    let ghost pm = |i: int| is_moved(f, t, i);
    let ghost froms = moved_froms(f, t, n);
    let ghost len = children_keys@.len();
    let ghost v0 = views@;
    let ghost w0 = *world;
    proof {
        lemma_positions(n, pm);
        lemma_moved_froms(f, t, n);
        assert forall|p: int| 0 <= p < len && is_target(f, t, p) implies bound_at(froms, 0, n)
            <= source_of(f, t, p) by {
            lemma_target_source(f, t, p);
            assert(pm(source_of(f, t, p)));
            crate::diff::lemma_positions_first(n, pm, source_of(f, t, p));
        }
    }
    let mut i: usize = 0;
    while i < moved.len()
        invariant
            f.no_duplicates(),
            t.no_duplicates(),
            f.len() <= i32::MAX,
            t.len() <= i32::MAX,
            n == longest_len(f, t),
            pm == (|i: int| is_moved(f, t, i)),
            froms == crate::diff::positions_upto(n, pm),
            moved@ == moved_upto(f, t, n),
            moved@.len() == froms.len(),
            forall|a: int|
                0 <= a < moved@.len() ==> #[trigger] moved@[a] == move_at(f, t, froms[a] as int)
                    && moved@[a].from == froms[a],
            i <= moved.len(),
            old_keys.len() == f.len(),
            forall|j: int| 0 <= j < f.len() ==> #[trigger] old_keys[j] is Some,
            children_keys@.len() == len,
            t.len() <= len,
            moved_children@.len() == moved@.len(),
            forall|a: int|
                i <= a < moved@.len() && !moved@[a].can_ignored ==> #[trigger] moved_children@[a]
                    == old_keys[moved@[a].from as int],
            forall|p: int|
                0 <= p < len ==> if is_target(f, t, p) {
                    if target_ignored(f, t, p) {
                        #[trigger] children_keys@[p] == old_keys[source_of(f, t, p)]
                    } else if source_of(f, t, p) < bound_at(froms, i as int, n) {
                        is_clone_of(old_keys[source_of(f, t, p)], children_keys@[p])
                    } else {
                        children_keys@[p] is None
                    }
                } else {
                    children_keys@[p] == base_slot(f, t, old_keys, p)
                },
            views@.len() == t.len(),
            v0.len() == t.len(),
            forall|p: int|
                0 <= p < t.len() && (is_added(f, t, p) || (is_target(f, t, p) && !target_ignored(
                    f,
                    t,
                    p,
                ))) ==> #[trigger] v0[p] is Some,
            forall|p: int|
                0 <= p < t.len() && (is_added(f, t, p) || (is_target(f, t, p) && !target_ignored(
                    f,
                    t,
                    p,
                ) && source_of(f, t, p) >= bound_at(froms, i as int, n))) ==> #[trigger] views@[p] == v0[p],
            forall|p: int| 0 <= p < t.len() && is_target(f, t, p) ==> #[trigger] v0[p] == orig_views[p],
            moves_in_tree::<R, V>(moved@.take(i as int), old_keys, orig_views, *parent, f, t, len as int, *placeholder_id, w0, *world),
        decreases moved.len() - i,
    {
        proof {
            lemma_positions(n, pm);
        }
        let m = moved[i];
        let ghost j = m.from as int;
        assert(j == froms[i as int]);
        assert(pm(j));
        proof {
            lemma_moved_target(f, t, j);
        }
        let ghost p0 = m.to as int;
        assert(is_target(f, t, p0) && source_of(f, t, p0) == j);
        let ghost mid = *world;
        if !m.can_ignored {
            let ghost ck = children_keys@;
            proof {
                assert(bound_at(froms, i as int, n) == j);
                assert(slots_after_moves(f, t, old_keys, len as int, j, ck));
            }
            let moved_key = take_slot(moved_children, i).unwrap();
            let before_node_id = get_next_some_node_id::<R, V::Key>(
                world,
                children_keys,
                m.to,
                placeholder_id,
            );
            moved_key.insert_before(world, Some(parent), before_node_id.as_ref());
            let ghost placed = *world;
            children_keys.set(m.to, Some(moved_key.clone()));
            assert(views@[p0] == v0[p0]);
            let view = take_slot(views, m.to).unwrap();
            let p = parent.clone();
            view.rebuild(ViewCtx { world: &mut *world, parent: p }, moved_key);
            proof {
                assert(moved_key.view_inserts_before(mid, Some(*parent), Some(before_node_id->0), placed));
                assert(view.rebuilds(p, moved_key, placed, *world));
                assert(same_node(next_anchor::<R, V::Key>(ck, p0, mid, *placeholder_id), before_node_id));
                assert(moved_and_rebuilt::<R, V>(old_keys[j]->0, orig_views[p0]->0, *parent, f, t, old_keys, len as int, *placeholder_id, p0, j, mid, *world));
            }
        }
        proof {
            assert(moved@.take(i + 1).drop_last() == moved@.take(i as int));
            assert(moved@.take(i + 1).last() == m);
            lemma_moves_step::<R, V>(moved@.take(i + 1), old_keys, orig_views, *parent, f, t, len as int, *placeholder_id, w0, mid, *world);
        }
        proof {
            assert forall|p: int| 0 <= p < len implies if is_target(f, t, p) {
                if target_ignored(f, t, p) {
                    #[trigger] children_keys@[p] == old_keys[source_of(f, t, p)]
                } else if source_of(f, t, p) < bound_at(froms, i + 1, n) {
                    is_clone_of(old_keys[source_of(f, t, p)], children_keys@[p])
                } else {
                    children_keys@[p] is None
                }
            } else {
                children_keys@[p] == base_slot(f, t, old_keys, p)
            } by {
                if is_target(f, t, p) {
                    lemma_target_source(f, t, p);
                    let s = source_of(f, t, p);
                    if j <= s < bound_at(froms, i + 1, n) {
                        lemma_positions_step(n, pm, i as int, s);
                    }
                    if i + 1 < moved.len() {
                        assert(froms[i as int] < froms[i + 1]);
                    }
                }
            }
            assert forall|p: int|
                0 <= p < t.len() && (is_added(f, t, p) || (is_target(f, t, p) && !target_ignored(
                    f,
                    t,
                    p,
                ) && source_of(f, t, p) >= bound_at(froms, i + 1, n))) implies #[trigger] views@[p] == v0[p] by {
                lemma_new_position_kinds(f, t, p);
                if is_target(f, t, p) {
                    lemma_target_source(f, t, p);
                    if i + 1 < moved.len() {
                        assert(froms[i as int] < froms[i + 1]);
                    }
                }
            }
        }
        i = i + 1;
    }
    assert(moved@.take(moved@.len() as int) == moved@);
}

fn build_added<R: Renderer, V: XView<R>>(
    world: &mut RendererWorld<R>,
    parent: &RendererNodeId<R>,
    placeholder_id: &RendererNodeId<R>,
    added: &Vec<usize>,
    children_keys: &mut Vec<Option<V::Key>>,
    views: &mut Vec<Option<V>>,
    Ghost(f): Ghost<Seq<u64>>,
    Ghost(t): Ghost<Seq<u64>>,
    Ghost(orig_views): Ghost<Seq<Option<V>>>,
)
    requires
        forall|p: int| 0 <= p < t.len() && is_added(f, t, p) ==> #[trigger] old(views)@[p] == orig_views[p],
        f.len() <= i32::MAX,
        t.len() <= i32::MAX,
        t.len() <= old(children_keys)@.len(),
        added@ == added_upto(f, t, longest_len(f, t)),
        forall|p: int|
            0 <= p < old(children_keys)@.len() && is_added(f, t, p) ==> #[trigger] old(
                children_keys,
            )@[p] is None,
        old(views)@.len() == t.len(),
        forall|p: int| 0 <= p < t.len() && is_added(f, t, p) ==> #[trigger] old(views)@[p] is Some,
    ensures
        final(children_keys)@.len() == old(children_keys)@.len(),
        forall|p: int|
            #![trigger final(children_keys)@[p]]
            0 <= p < final(children_keys)@.len() ==> if is_added(f, t, p) {
                final(children_keys)@[p] is Some
            } else {
                final(children_keys)@[p] == old(children_keys)@[p]
            },
        builds_into::<R, V>(
            orig_views,
            added@,
            old(children_keys)@,
            final(children_keys)@,
            *parent,
            *placeholder_id,
            *old(world),
            *final(world),
        ),
{
    let ghost n = longest_len(f, t);
    let ghost pa = |i: int| is_added(f, t, i);
    let ghost k0 = children_keys@;
    let ghost v0 = views@;
    let ghost w0 = *world;
    let ghost mut built: Seq<V::Key> = Seq::empty();
    proof {
        lemma_positions(n, pa);
        assert forall|p: int| 0 <= p < t.len() && is_added(f, t, p) implies bound_at(added@, 0, n)
            <= p by {
            assert(pa(p));
            crate::diff::lemma_positions_first(n, pa, p);
        }
    }
    let mut k: usize = 0;
    while k < added.len()
        invariant
            f.len() <= i32::MAX,
            t.len() <= i32::MAX,
            n == longest_len(f, t),
            pa == (|i: int| is_added(f, t, i)),
            added@ == crate::diff::positions_upto(n, pa),
            k <= added.len(),
            children_keys@.len() == k0.len(),
            t.len() <= k0.len(),
            forall|p: int|
                #![trigger children_keys@[p]]
                0 <= p < k0.len() ==> if is_added(f, t, p) {
                    if p < bound_at(added@, k as int, n) {
                        children_keys@[p] is Some
                    } else {
                        children_keys@[p] is None
                    }
                } else {
                    children_keys@[p] == k0[p]
                },
            views@.len() == t.len(),
            v0.len() == t.len(),
            forall|p: int| 0 <= p < t.len() && is_added(f, t, p) ==> #[trigger] v0[p] is Some,
            forall|p: int|
                0 <= p < t.len() && is_added(f, t, p) && p >= bound_at(added@, k as int, n)
                    ==> #[trigger] views@[p] == v0[p],
            built.len() == k,
            forall|a: int| 0 <= a < k ==> #[trigger] children_keys@[added@[a] as int] == Some(built[a]),
            forall|p: int| 0 <= p < t.len() && is_added(f, t, p) ==> #[trigger] v0[p] == orig_views[p],
            children_keys@ == added_slots(k0, added@, built, k as int),
            builds_upto::<R, V>(orig_views, added@, built, k0, *parent, *placeholder_id, k as int, w0, *world),
        decreases added.len() - k,
    {
        proof {
            lemma_positions(n, pa);
        }
        let at = added[k];
        assert(pa(at as int));
        let ghost ck_before = children_keys@;
        let ghost mid = *world;
        let view = take_slot(views, at).unwrap();
        let p = parent.clone();
        let key = view.build(ViewCtx { world: &mut *world, parent: p }, None, true);
        let ghost built_world = *world;
        let before_node_id = get_next_some_node_id::<R, V::Key>(
            world,
            children_keys,
            at,
            placeholder_id,
        );
        key.insert_before(world, Some(parent), before_node_id.as_ref());
        children_keys.set(at, Some(key));
        proof {
            assert(view.builds(p, None, true, mid, built_world, key));
            assert(key.view_inserts_before(built_world, Some(*parent), Some(before_node_id->0), *world));
            assert(same_node(next_anchor::<R, V::Key>(ck_before, at as int, built_world, *placeholder_id), before_node_id));
            assert(built_and_placed::<R, V>(orig_views[at as int]->0, key, *parent, ck_before, at as int, *placeholder_id, mid, *world));
            let nb = built.push(key);
            lemma_builds_upto_prefix::<R, V>(orig_views, added@, built, key, k0, *parent, *placeholder_id, k as int, w0, mid);
            lemma_added_slots_prefix(k0, added@, built, key, k as int);
            assert(nb[k as int] == key);
            assert(builds_upto::<R, V>(orig_views, added@, nb, k0, *parent, *placeholder_id, k + 1, w0, *world));
            assert(children_keys@ == added_slots(k0, added@, nb, k + 1));
            assert forall|a: int| 0 <= a < k + 1 implies #[trigger] children_keys@[added@[a] as int] == Some(nb[a]) by {
                if a < k {
                    assert(added@[a] < added@[k as int]);
                }
            }
            built = nb;
        }
        proof {
            assert forall|p: int|
                #![trigger children_keys@[p]]
                0 <= p < k0.len() implies if is_added(f, t, p) {
                if p < bound_at(added@, k + 1, n) {
                    children_keys@[p] is Some
                } else {
                    children_keys@[p] is None
                }
            } else {
                children_keys@[p] == k0[p]
            } by {
                assert(children_keys@[p] == if p == at {
                    Some(key)
                } else {
                    ck_before[p]
                });
                if is_added(f, t, p) && at <= p < bound_at(added@, k + 1, n) {
                    assert(pa(p));
                    lemma_positions_step(n, pa, k as int, p);
                }
                if k + 1 < added.len() {
                    assert(added@[k as int] < added@[k + 1]);
                }
                assert(at < n);
                assert(at < bound_at(added@, k + 1, n));
                if is_added(f, t, p) {
                    if p < at {
                        assert(ck_before[p] is Some);
                    }
                }
            }
            assert forall|p: int|
                0 <= p < t.len() && is_added(f, t, p) && p >= bound_at(added@, k + 1, n)
                    implies #[trigger] views@[p] == v0[p] by {
                if k + 1 < added.len() {
                    assert(added@[k as int] < added@[k + 1]);
                }
            }
        }
        k = k + 1;
    }
}

} // verus!

verus! {

/// Drops the empty slots, keeping the order of the others.
pub(crate) fn drain_none<K>(children_keys: Vec<Option<K>>, Ghost(m): Ghost<nat>) -> (r: Vec<Option<K>>)
    requires
        m <= children_keys@.len(),
        forall|p: int| 0 <= p < m ==> #[trigger] children_keys@[p] is Some,
        forall|p: int| m <= p < children_keys@.len() ==> #[trigger] children_keys@[p] is None,
    ensures
        r@ == children_keys@.take(m as int),
{
    let ghost k0 = children_keys@;
    let mut children_keys = children_keys;
    let mut r: Vec<Option<K>> = Vec::new();
    let mut j: usize = 0;
    while j < children_keys.len()
        invariant
            m <= k0.len(),
            children_keys@.len() == k0.len(),
            j <= k0.len(),
            forall|p: int| j <= p < k0.len() ==> #[trigger] children_keys@[p] == k0[p],
            forall|p: int| 0 <= p < m ==> #[trigger] k0[p] is Some,
            forall|p: int| m <= p < k0.len() ==> #[trigger] k0[p] is None,
            r@ == k0.take(if j <= m {
                j as int
            } else {
                m as int
            }),
        decreases children_keys.len() - j,
    {
        let slot = take_slot(&mut children_keys, j);
        assert(slot == k0[j as int]);
        if slot.is_some() {
            r.push(slot);
            assert(k0.take(j + 1) =~= k0.take(j as int).push(k0[j as int]));
        }
        j = j + 1;
    }
    r
}

/// Whether `after` is `before` once the views of `added` are built in turn,
/// the keys they get standing at those positions of `keys`.
pub open spec fn builds_into<R: Renderer, V: XView<R>>(
    views: Seq<Option<V>>,
    added: Seq<usize>,
    slots: Seq<Option<V::Key>>,
    keys: Seq<Option<V::Key>>,
    parent: RendererNodeId<R>,
    placeholder: RendererNodeId<R>,
    before: RendererWorld<R>,
    after: RendererWorld<R>,
) -> bool {
    exists|built: Seq<V::Key>|
        #![trigger builds_upto::<R, V>(views, added, built, slots, parent, placeholder, added.len() as int, before, after)]
        {
            &&& built.len() == added.len()
            &&& forall|a: int| 0 <= a < added.len() ==> #[trigger] keys[added[a] as int] == Some(built[a])
            &&& builds_upto::<R, V>(views, added, built, slots, parent, placeholder, added.len() as int, before, after)
        }
}

/// What applying a diff does to the node tree: nothing when nothing changed;
/// every old view removed, in order, when the list is cleared; every new view
/// built, in order, when the list is replaced; otherwise the unchanged views
/// rebuilt in place, the removed ones removed, the moved ones moved and
/// rebuilt (unless the move is in storage only), and the added ones built
/// and put in place, their keys standing at their positions of `result`.
pub open spec fn diff_applied_in_tree<R: Renderer, V: XView<R>>(
    f: Seq<u64>,
    t: Seq<u64>,
    placeholder: RendererNodeId<R>,
    diff: Diff,
    views: Seq<Option<V>>,
    old_keys: Seq<Option<V::Key>>,
    parent: RendererNodeId<R>,
    before: RendererWorld<R>,
    after: RendererWorld<R>,
    result: Seq<Option<V::Key>>,
) -> bool {
    match diff {
        Diff::NoChanged => after == before,
        Diff::Cleared => removes_in_order::<R, Option<V::Key>>(old_keys, before, after),
        Diff::Replaced => builds_in_order::<R, V>(views, true, parent, before, after, result),
        Diff::PartDiff { moved, removed, added, no_changed, .. } => exists|
            rebuilt: RendererWorld<R>,
            removed_w: RendererWorld<R>,
            moved_w: RendererWorld<R>,
            slots: Seq<Option<V::Key>>,
        |
            #![trigger rebuilds_at::<R, V>(views, old_keys, no_changed@, parent, before, rebuilt), removes_at::<R, V::Key>(old_keys, removed@, rebuilt, removed_w), moves_in_tree::<R, V>(moved@, old_keys, views, parent, f, t, (f.len() + added@.len()) as int, placeholder, removed_w, moved_w), slots_after_moves(f, t, old_keys, (f.len() + added@.len()) as int, longest_len(f, t) as int, slots)]
            {
                &&& rebuilds_at::<R, V>(views, old_keys, no_changed@, parent, before, rebuilt)
                &&& removes_at::<R, V::Key>(old_keys, removed@, rebuilt, removed_w)
                &&& moves_in_tree::<R, V>(
                    moved@,
                    old_keys,
                    views,
                    parent,
                    f,
                    t,
                    (f.len() + added@.len()) as int,
                    placeholder,
                    removed_w,
                    moved_w,
                )
                &&& slots_after_moves(f, t, old_keys, (f.len() + added@.len()) as int, longest_len(f, t) as int, slots)
                &&& builds_into::<R, V>(views, added@, slots, result, parent, placeholder, moved_w, after)
            },
    }
}

/// Brings the built keys of a keyed list from the old keys `f` to the new keys
/// `t`: unchanged items are rebuilt in place, removed ones are removed, moved
/// ones are carried to their new place (and moved in the node tree when their
/// order changes), and added ones are built and inserted. The result holds one
/// key per new item, in the order of the new items.
fn apply_diff<R: Renderer, V: XView<R>>(
    ctx: ViewCtx<R>,
    placeholder_id: &RendererNodeId<R>,
    diff: Diff,
    views: Vec<Option<V>>,
    children_keys: Vec<Option<V::Key>>,
    Ghost(f): Ghost<Seq<u64>>,
    Ghost(t): Ghost<Seq<u64>>,
) -> (r: Vec<Option<V::Key>>)
    requires
        keyed_lists_fit(f, t, children_keys@, views@),
        is_diff_of(f, t, diff),
    ensures
        r@.len() == t.len(),
        forall|p: int| 0 <= p < t.len() ==> #[trigger] r@[p] is Some,
        forall|p: int|
            0 <= p < t.len() && is_unchanged(f, t, p) ==> #[trigger] r@[p] == children_keys@[p],
        forall|p: int|
            is_target(f, t, p) && target_ignored(f, t, p) ==> #[trigger] r@[p]
                == children_keys@[source_of(f, t, p)],
        forall|p: int|
            is_target(f, t, p) && !target_ignored(f, t, p) ==> is_clone_of(
                children_keys@[source_of(f, t, p)],
                #[trigger] r@[p],
            ),
        diff_applied_in_tree::<R, V>(
            f,
            t,
            *placeholder_id,
            diff,
            views@,
            children_keys@,
            ctx.parent,
            *old(ctx.world),
            *final(ctx.world),
            r@,
        ),
{
    let ghost old_keys = children_keys@;
    let ghost orig_views = views@;
    let ghost w0 = *ctx.world;
    let mut views = views;
    let mut children_keys = children_keys;
    match diff {
        Diff::NoChanged => children_keys,
        Diff::Cleared => {
            let world = ctx.world;
            let mut j: usize = 0;
            while j < children_keys.len()
                invariant
                    children_keys@.len() == old_keys.len(),
                    j <= old_keys.len(),
                    forall|p: int| j <= p < old_keys.len() ==> #[trigger] children_keys@[p] == old_keys[p],
                    removes_in_order::<R, Option<V::Key>>(old_keys.take(j as int), w0, *world),
                decreases children_keys.len() - j,
            {
                let ghost mid = *world;
                let slot = take_slot(&mut children_keys, j);
                if let Some(key) = slot {
                    key.remove(world);
                }
                proof {
                    assert(old_keys.take(j + 1).drop_last() == old_keys.take(j as int));
                    assert(old_keys.take(j + 1).last() == slot);
                    crate::view::lemma_removes_step::<R, Option<V::Key>>(old_keys.take(j + 1), w0, mid, *world);
                }
                j = j + 1;
            }
            assert(old_keys.take(old_keys.len() as int) == old_keys);
            Vec::new()
        },
        Diff::Replaced => {
            let world = ctx.world;
            let parent = ctx.parent;
            let mut keys: Vec<Option<V::Key>> = Vec::new();
            let mut j: usize = 0;
            while j < views.len()
                invariant
                    views@.len() == t.len(),
                    orig_views.len() == t.len(),
                    j <= views@.len(),
                    keys@.len() == j,
                    forall|p: int| j <= p < t.len() ==> #[trigger] views@[p] == orig_views[p],
                    forall|p: int| 0 <= p < t.len() ==> #[trigger] orig_views[p] is Some,
                    forall|p: int| 0 <= p < j ==> #[trigger] keys@[p] is Some,
                    builds_in_order::<R, V>(orig_views.take(j as int), true, parent, w0, *world, keys@),
                decreases views.len() - j,
            {
                let ghost mid = *world;
                let ghost keys0 = keys@;
                assert(orig_views.take(j + 1).drop_last() == orig_views.take(j as int));
                if let Some(view) = take_slot(&mut views, j) {
                    let p = parent.clone();
                    let key = view.build(ViewCtx { world: &mut *world, parent: p }, None, true);
                    keys.push(Some(key));
                    assert(keys@.drop_last() == keys0);
                    assert(last_view_builds::<R, V>(orig_views.take(j + 1), true, p, mid, *world, keys@));
                }
                j = j + 1;
            }
            assert(orig_views.take(orig_views.len() as int) == orig_views);
            keys
        },
        Diff::PartDiff { moved, removed, added, no_changed, .. } => {
            let parent = ctx.parent;
            let world = ctx.world;
            rebuild_no_changed::<R, V>(
                world,
                &parent,
                &no_changed,
                &mut views,
                &children_keys,
                Ghost(f),
                Ghost(t),
            );
            let ghost rebuilt = *world;
            remove_removed::<R, V::Key>(world, &removed, &mut children_keys, Ghost(f), Ghost(t));
            let ghost removed_w = *world;
            proof {
                assert forall|p: int| 0 <= p < t.len() && (is_target(f, t, p) || is_added(f, t, p)) implies #[trigger] views@[p]
                    == orig_views[p] by {
                    lemma_new_position_kinds(f, t, p);
                }
            }
            let mut moved_children = take_moved(
                &moved,
                &mut children_keys,
                Ghost(f),
                Ghost(t),
                Ghost(old_keys),
            );
            proof {
                lemma_new_len_bound(f, t);
                crate::diff::lemma_upto_len(f, t, longest_len(f, t));
            }
            let target_len = children_keys.len() + added.len();
            while children_keys.len() < target_len
                invariant
                    f.len() <= children_keys@.len() <= target_len,
                    forall|p: int|
                        0 <= p < children_keys@.len() ==> #[trigger] children_keys@[p] == base_slot(
                            f,
                            t,
                            old_keys,
                            p,
                        ),
                decreases target_len - children_keys.len(),
            {
                children_keys.push(None);
            }
            place_ignored(
                &moved,
                &mut moved_children,
                &mut children_keys,
                Ghost(f),
                Ghost(t),
                Ghost(old_keys),
            );
            place_moved::<R, V>(
                world,
                &parent,
                placeholder_id,
                &moved,
                &mut moved_children,
                &mut children_keys,
                &mut views,
                Ghost(f),
                Ghost(t),
                Ghost(old_keys),
                Ghost(orig_views),
            );
            let ghost moved_w = *world;
            let ghost placed = children_keys@;
            proof {
                assert forall|p: int| 0 <= p < t.len() && is_added(f, t, p) implies #[trigger] views@[p]
                    == orig_views[p] by {
                    lemma_new_position_kinds(f, t, p);
                }
            }
            proof {
                assert forall|p: int| 0 <= p < placed.len() && is_added(f, t, p) implies #[trigger] placed[p]
                    is None by {
                    lemma_new_position_kinds(f, t, p);
                }
            }
            build_added::<R, V>(
                world,
                &parent,
                placeholder_id,
                &added,
                &mut children_keys,
                &mut views,
                Ghost(f),
                Ghost(t),
                Ghost(orig_views),
            );
            proof {
                assert forall|p: int| 0 <= p < t.len() implies #[trigger] children_keys@[p] is Some by {
                    lemma_new_position_kinds(f, t, p);
                    if is_target(f, t, p) {
                        lemma_target_source(f, t, p);
                    }
                }
                assert forall|p: int|
                    t.len() <= p < children_keys@.len() implies #[trigger] children_keys@[p] is None by {
                    assert(!is_added(f, t, p));
                    assert(!is_target(f, t, p));
                    assert(!is_unchanged(f, t, p));
                }
                assert forall|p: int|
                    0 <= p < t.len() && is_unchanged(f, t, p) implies #[trigger] children_keys@[p]
                        == old_keys[p] by {
                    lemma_new_position_kinds(f, t, p);
                }
                assert forall|p: int|
                    is_target(f, t, p) && target_ignored(f, t, p) implies #[trigger] children_keys@[p]
                        == old_keys[source_of(f, t, p)] by {
                    lemma_new_position_kinds(f, t, p);
                }
                assert forall|p: int|
                    is_target(f, t, p) && !target_ignored(f, t, p) implies is_clone_of(
                        old_keys[source_of(f, t, p)],
                        #[trigger] children_keys@[p],
                    ) by {
                    lemma_new_position_kinds(f, t, p);
                }
            }
            let ghost final_keys = children_keys@;
            let r = drain_none(children_keys, Ghost(t.len()));
            proof {
                let n = longest_len(f, t);
                let pa = |i: int| is_added(f, t, i);
                lemma_positions(n, pa);
                let built = choose|built: Seq<V::Key>|
                    #![trigger builds_upto::<R, V>(orig_views, added@, built, placed, parent, *placeholder_id, added@.len() as int, moved_w, *world)]
                    {
                        &&& built.len() == added@.len()
                        &&& forall|a: int|
                            0 <= a < added@.len() ==> #[trigger] final_keys[added@[a] as int] == Some(
                                built[a],
                            )
                        &&& builds_upto::<R, V>(orig_views, added@, built, placed, parent, *placeholder_id, added@.len() as int, moved_w, *world)
                    };
                assert forall|a: int| 0 <= a < added@.len() implies #[trigger] r@[added@[a] as int] == Some(built[a]) by {
                    assert(pa(added@[a] as int));
                    lemma_new_position_kinds(f, t, added@[a] as int);
                }
                assert(builds_into::<R, V>(orig_views, added@, placed, r@, parent, *placeholder_id, moved_w, *world));
                assert forall|p: int| 0 <= p < placed.len() implies #[trigger] slot_after_moves(f, t, old_keys, n as int, p, placed[p]) by {
                    if is_target(f, t, p) {
                        lemma_target_source(f, t, p);
                    }
                }
                assert(placed.len() == f.len() + added@.len());
                assert(slots_after_moves(f, t, old_keys, (f.len() + added@.len()) as int, n as int, placed));
                assert(rebuilds_at::<R, V>(orig_views, old_keys, no_changed@, parent, w0, rebuilt));
                assert(removes_at::<R, V::Key>(old_keys, removed@, rebuilt, removed_w));
                assert(moves_in_tree::<R, V>(moved@, old_keys, orig_views, parent, f, t, (f.len() + added@.len()) as int, *placeholder_id, removed_w, moved_w));
            }
            r
        },
    }
}

} // verus!

verus! {

/// An item of a keyed list: its key and its view.
pub struct Keyed<K, V>(pub K, pub V);

impl<K, V> Keyed<K, V> {
    /// Maps the view, keeping the key.
    pub fn map<MV, F: FnOnce(V) -> MV>(self, f: F) -> (r: Keyed<K, MV>)
        requires
            f.requires((self.1,)),
        ensures
            r.0 == self.0,
            f.ensures((self.1,), r.1),
    {
        Keyed(self.0, f(self.1))
    }
}

/// The keys of the items, in order.
pub open spec fn item_keys<IV>(items: Seq<Keyed<u64, IV>>) -> Seq<u64> {
    items.map_values(|k: Keyed<u64, IV>| k.0)
}

/// The stored keys and the new keys are distinct and few enough to diff, and
/// the built children are one built key per stored key.
pub open spec fn stored_keys_fit<K>(f: Seq<u64>, t: Seq<u64>, children: Seq<Option<K>>) -> bool {
    &&& f.no_duplicates()
    &&& t.no_duplicates()
    &&& f.len() <= i32::MAX
    &&& t.len() <= i32::MAX
    &&& children.len() == f.len()
    &&& forall|j: int| 0 <= j < children.len() ==> #[trigger] children[j] is Some
}

/// When the stored keys `f` fit the built children, the rebuilt children
/// `r` hold one key per new key of `t`, and every item that stays keeps its
/// built key: in place when its position is unchanged, else carried from its
/// old position (a clone of it when the item is moved in the node tree).
pub open spec fn keeps_stayed_items<K: Clone>(
    f: Seq<u64>,
    t: Seq<u64>,
    children: Seq<Option<K>>,
    r: Seq<Option<K>>,
) -> bool {
    stored_keys_fit(f, t, children) ==> {
        &&& r.len() == t.len()
        &&& forall|p: int| 0 <= p < t.len() && is_unchanged(f, t, p) ==> #[trigger] r[p] == children[p]
        &&& forall|p: int|
            is_target(f, t, p) ==> #[trigger] r[p] == children[source_of(f, t, p)] || is_clone_of(
                children[source_of(f, t, p)],
                r[p],
            )
    }
}

/// The keys of `s`, each kept at its first place only (what inserting them in
/// order into a key set keeps).
pub open spec fn first_occurrences(s: Seq<u64>) -> Seq<u64>
    decreases s.len(),
{
    if s.len() == 0 {
        Seq::empty()
    } else if first_occurrences(s.drop_last()).contains(s.last()) {
        first_occurrences(s.drop_last())
    } else {
        first_occurrences(s.drop_last()).push(s.last())
    }
}

/// The views of the items, in order.
pub open spec fn item_views<R: Renderer, IV: IntoView<R>>(items: Seq<Keyed<u64, IV>>) -> Seq<
    Option<IV::View>,
> {
    items.map_values(|k: Keyed<u64, IV>| Some(k.1.view_of()))
}

/// Whether `after` is `before` once the keys `keys` (each once) are stored on
/// `node` as the list's keys.
pub open spec fn stores_item_keys<R: Renderer>(
    before: RendererWorld<R>,
    node: RendererNodeId<R>,
    keys: Seq<u64>,
    after: RendererWorld<R>,
) -> bool {
    exists|s: ForKeyedState|
        #![trigger state_put::<RendererWorld<R>, ForKeyedState>(before, node, s, after)]
        {
            &&& key_set_items(s.data_keys) == first_occurrences(keys)
            &&& state_put::<RendererWorld<R>, ForKeyedState>(before, node, s, after)
        }
}

/// Whether the stored keys on `node` line up with the built children and the
/// new items, so that a rebuild diffs rather than rebuilding everything.
pub open spec fn stored_fits<R: Renderer, IV: IntoView<R>>(
    world: RendererWorld<R>,
    node: RendererNodeId<R>,
    items: Seq<Keyed<u64, IV>>,
    children: Seq<Option<<IV::View as XView<R>>::Key>>,
) -> bool {
    match world.node_state::<ForKeyedState>(node) {
        Some(st) => keyed_lists_fit(
            key_set_items(st.data_keys),
            first_occurrences(item_keys(items)),
            children,
            item_views::<R, IV>(items),
        ),
        None => false,
    }
}

/// What a rebuild of a keyed list does to the node tree before storing the
/// new keys: with stored keys that line up, the diff of the stored keys and
/// the new ones is applied to the children; otherwise every child is removed
/// and every new view built afresh.
pub open spec fn keyed_list_rebuilt<R: Renderer, IV: IntoView<R>>(
    items: Seq<Keyed<u64, IV>>,
    children: Vec<Option<<IV::View as XView<R>>::Key>>,
    parent: RendererNodeId<R>,
    placeholder_node_id: RendererNodeId<R>,
    before: RendererWorld<R>,
    after: RendererWorld<R>,
    result: Seq<Option<<IV::View as XView<R>>::Key>>,
) -> bool {
    if stored_fits::<R, IV>(before, placeholder_node_id, items, children@) {
        exists|d: Diff|
            #![trigger diff_applied_in_tree::<R, IV::View>(key_set_items(before.node_state::<ForKeyedState>(placeholder_node_id)->0.data_keys), first_occurrences(item_keys(items)), placeholder_node_id, d, item_views::<R, IV>(items), children@, parent, before, after, result)]
            {
                &&& is_diff_of(
                    key_set_items(before.node_state::<ForKeyedState>(placeholder_node_id)->0.data_keys),
                    first_occurrences(item_keys(items)),
                    d,
                )
                &&& diff_applied_in_tree::<R, IV::View>(
                    key_set_items(before.node_state::<ForKeyedState>(placeholder_node_id)->0.data_keys),
                    first_occurrences(item_keys(items)),
                    placeholder_node_id,
                    d,
                    item_views::<R, IV>(items),
                    children@,
                    parent,
                    before,
                    after,
                    result,
                )
            }
    } else {
        exists|removed: RendererWorld<R>|
            #![trigger builds_in_order::<R, IV::View>(item_views::<R, IV>(items), true, parent, removed, after, result)]
            {
                &&& children.mutable_removes(before, removed)
                &&& builds_in_order::<R, IV::View>(item_views::<R, IV>(items), true, parent, removed, after, result)
            }
    }
}

/// A list of views, each with a key that identifies it across rebuilds.
pub struct ForKeyed<IV, R> {
    pub items: Vec<Keyed<u64, IV>>,
    pub _marker: PhantomData<R>,
}

/// The keys of the items, as last built, stored on the list's placeholder.
pub struct ForKeyedState {
    pub data_keys: FxIndexSet<u64>,
}

pub fn x_iter_keyed<IV, R: Renderer>(items: Vec<Keyed<u64, IV>>) -> (r: ForKeyed<IV, R>)
    ensures
        r.items == items,
{
    ForKeyed { items, _marker: PhantomData }
}

/// A list whose items are keyed by their position.
pub fn x_iter<IV, R: Renderer>(items: Vec<IV>) -> (r: ForKeyed<IV, R>)
    requires
        items@.len() <= u64::MAX,
    ensures
        r.items@.len() == items@.len(),
        forall|i: int| 0 <= i < items@.len() ==> #[trigger] r.items@[i].0 == i,
        forall|i: int| 0 <= i < items@.len() ==> #[trigger] r.items@[i].1 == items@[i],
{
    let ghost items0 = items@;
    let len = items.len();
    let mut keyed: Vec<Keyed<u64, IV>> = Vec::new();
    let mut index: u64 = 0;
    for item in it: items
        invariant
            len == items@.len(),
            len <= u64::MAX,
            it.seq().len() == len,
            keyed@.len() == it.index(),
            index == it.index(),
            forall|j: int| 0 <= j < keyed@.len() ==> #[trigger] keyed@[j].0 == j,
            items0 == it.seq(),
            forall|j: int| 0 <= j < keyed@.len() ==> #[trigger] keyed@[j].1 == items0[j],
    {
        assert(items0[it.index() as int] == item);
        keyed.push(Keyed(index, item));
        if index < u64::MAX {
            index = index + 1;
        }
    }
    ForKeyed { items: keyed, _marker: PhantomData }
}

} // verus!

verus! {

impl<R: Renderer, K: ViewKey<R>> MutableViewKey<R> for Vec<Option<K>> {
    /// Every built view is removed, in order.
    open spec fn mutable_removes(&self, before: RendererWorld<R>, after: RendererWorld<R>) -> bool {
        removes_in_order::<R, Option<K>>(self@, before, after)
    }

    /// Every built view is moved, in order.
    open spec fn mutable_inserts_before(
        &self,
        before: RendererWorld<R>,
        parent: Option<RendererNodeId<R>>,
        before_node_id: Option<RendererNodeId<R>>,
        after: RendererWorld<R>,
    ) -> bool {
        inserts_in_order::<R, Option<K>>(self@, before, parent, before_node_id, after)
    }

    /// Every built view is hidden (or shown), in order.
    open spec fn mutable_sets_visibility(&self, before: RendererWorld<R>, hidden: bool, after: RendererWorld<R>) -> bool {
        sets_visibility_in_order::<R, Option<K>>(self@, before, hidden, after)
    }

    /// The first node of the first built key that has one.
    open spec fn mutable_first_node(&self, world: RendererWorld<R>) -> Option<RendererNodeId<R>> {
        first_node_from::<R, Option<K>>(self@, 0, world)
    }

    /// The state node of the first key, when it is built.
    open spec fn mutable_state_node(&self) -> Option<RendererNodeId<R>> {
        if self@.len() == 0 {
            None
        } else {
            self@[0].view_state_node()
        }
    }

    fn remove(self, world: &mut RendererWorld<R>) {
        let ghost w0 = *world;
        let ghost all = self@;
        let mut keys = self;
        let mut j: usize = 0;
        while j < keys.len()
            invariant
                keys@.len() == all.len(),
                j <= all.len(),
                forall|k: int| j <= k < all.len() ==> #[trigger] keys@[k] == all[k],
                removes_in_order::<R, Option<K>>(all.take(j as int), w0, *world),
            decreases keys.len() - j,
        {
            let ghost mid = *world;
            let ghost slot = keys@[j as int];
            if let Some(key) = take_slot(&mut keys, j) {
                key.remove(world);
            }
            assert(all.take(j + 1).drop_last() == all.take(j as int));
            assert(all.take(j + 1).last() == slot);
            assert(slot.view_removes(mid, *world));
            assert(removes_in_order::<R, Option<K>>(all.take(j + 1).drop_last(), w0, mid));
            proof { lemma_removes_step::<R, Option<K>>(all.take(j + 1), w0, mid, *world); }
            j = j + 1;
        }
        assert(all.take(all.len() as int) == all);
    }

    fn insert_before(
        &self,
        world: &mut RendererWorld<R>,
        parent: Option<&RendererNodeId<R>>,
        before_node_id: Option<&RendererNodeId<R>>,
    ) {
        let ghost w0 = *world;
        let ghost p = opt_node(parent);
        let ghost b = opt_node(before_node_id);
        let mut j: usize = 0;
        while j < self.len()
            invariant
                j <= self@.len(),
                p == opt_node(parent),
                b == opt_node(before_node_id),
                inserts_in_order::<R, Option<K>>(self@.take(j as int), w0, p, b, *world),
            decreases self.len() - j,
        {
            let ghost mid = *world;
            if let Some(key) = &self[j] {
                key.insert_before(world, parent, before_node_id);
            }
            assert(self@.take(j + 1).drop_last() == self@.take(j as int));
            assert(self@.take(j + 1).last() == self@[j as int]);
            assert(self@[j as int].view_inserts_before(mid, p, b, *world));
            assert(inserts_in_order::<R, Option<K>>(self@.take(j + 1).drop_last(), w0, p, b, mid));
            proof { lemma_inserts_step::<R, Option<K>>(self@.take(j + 1), w0, p, b, mid, *world); }
            j = j + 1;
        }
        assert(self@.take(self@.len() as int) == self@);
    }

    fn set_visibility(&self, world: &mut RendererWorld<R>, hidden: bool) {
        let ghost w0 = *world;
        let mut j: usize = 0;
        while j < self.len()
            invariant
                j <= self@.len(),
                sets_visibility_in_order::<R, Option<K>>(self@.take(j as int), w0, hidden, *world),
            decreases self.len() - j,
        {
            let ghost mid = *world;
            if let Some(key) = &self[j] {
                key.set_visibility(world, hidden);
            }
            assert(self@.take(j + 1).drop_last() == self@.take(j as int));
            assert(self@.take(j + 1).last() == self@[j as int]);
            assert(self@[j as int].view_sets_visibility(mid, hidden, *world));
            assert(sets_visibility_in_order::<R, Option<K>>(self@.take(j + 1).drop_last(), w0, hidden, mid));
            proof { lemma_sets_visibility_step::<R, Option<K>>(self@.take(j + 1), w0, hidden, mid, *world); }
            j = j + 1;
        }
        assert(self@.take(self@.len() as int) == self@);
    }

    /// The first node of the first built key that has one.
    fn first_node_id(&self, world: &RendererWorld<R>) -> (r: Option<RendererNodeId<R>>)
        ensures
            (forall|j: int| 0 <= j < self@.len() ==> #[trigger] self@[j] is None) ==> r is None,
    {
        let mut j: usize = 0;
        while j < self.len()
            invariant
                j <= self@.len(),
                first_node_from::<R, Option<K>>(self@, 0, *world) == first_node_from::<R, Option<K>>(
                    self@,
                    j as int,
                    *world,
                ),
            decreases self.len() - j,
        {
            if let Some(key) = &self[j] {
                if let Some(node_id) = key.first_node_id(world) {
                    return Some(node_id);
                }
            }
            j = j + 1;
        }
        None
    }

    /// The state node of the first key, when it is built.
    fn state_node_id(&self) -> (r: Option<RendererNodeId<R>>)
        ensures
            (self@.len() == 0 || self@[0] is None) ==> r is None,
    {
        if self.len() == 0 {
            return None;
        }
        match &self[0] {
            Some(key) => key.state_node_id(),
            None => None,
        }
    }
}

/// Whether the items of the set are pairwise distinct. An `IndexSet` never
/// holds an item twice, but a set read back from the world was not built
/// here, so its items are checked.
fn key_set_all_distinct(s: &FxIndexSet<u64>) -> (r: bool)
    ensures
        r == key_set_items(*s).no_duplicates(),
{
    let len = key_set_len(s);
    let mut i: usize = 0;
    while i < len
        invariant
            len == key_set_items(*s).len(),
            i <= len,
            forall|a: int|
                0 <= a < i ==> #[trigger] key_set_items(*s).index_of(key_set_items(*s)[a]) == a,
        decreases len - i,
    {
        match key_set_get_index(s, i) {
            Some(v) => {
                proof {
                    if key_set_items(*s).no_duplicates() {
                        lemma_index_of_unique(key_set_items(*s), i as int);
                    }
                }
                match key_set_get_full(s, &v) {
                    Some(at) => {
                        if at != i {
                            return false;
                        }
                    },
                    None => {
                        return false;
                    },
                }
            },
            None => {
                return false;
            },
        }
        i = i + 1;
    }
    proof {
        let items = key_set_items(*s);
        assert forall|a: int, b: int| 0 <= a < items.len() && 0 <= b < items.len() && a != b implies items[a]
            != items[b] by {
            if items[a] == items[b] {
                assert(items.index_of(items[a]) == a);
                assert(items.index_of(items[b]) == b);
            }
        }
    }
    true
}

/// Whether the old keys, the new keys, the built children and the new views
/// line up so that the diff of the keys can be applied to the children.
pub(crate) fn keyed_lists_check<K, V>(
    old_keys: &FxIndexSet<u64>,
    new_keys: &FxIndexSet<u64>,
    children_keys: &Vec<Option<K>>,
    views: &Vec<Option<V>>,
) -> (r: bool)
    requires
        key_set_items(*new_keys).no_duplicates(),
    ensures
        r == keyed_lists_fit(key_set_items(*old_keys), key_set_items(*new_keys), children_keys@, views@),
{
    let old_len = key_set_len(old_keys);
    let new_len = key_set_len(new_keys);
    if old_len > 0x7fff_ffff || new_len > 0x7fff_ffff {
        return false;
    }
    if children_keys.len() != old_len || views.len() != new_len {
        return false;
    }
    if !key_set_all_distinct(old_keys) {
        return false;
    }
    let mut j: usize = 0;
    while j < children_keys.len()
        invariant
            j <= children_keys@.len(),
            forall|i: int| 0 <= i < j ==> #[trigger] children_keys@[i] is Some,
        decreases children_keys.len() - j,
    {
        if children_keys[j].is_none() {
            return false;
        }
        j = j + 1;
    }
    let mut j: usize = 0;
    while j < views.len()
        invariant
            j <= views@.len(),
            forall|i: int| 0 <= i < j ==> #[trigger] views@[i] is Some,
        decreases views.len() - j,
    {
        if views[j].is_none() {
            return false;
        }
        j = j + 1;
    }
    true
}

/// The last view of `views` is built (to be rebuilt) under `parent`, its key
/// being the last of `keys`.
pub open spec fn last_view_builds<R: Renderer, V: XView<R>>(
    views: Seq<Option<V>>,
    will_rebuild: bool,
    parent: RendererNodeId<R>,
    before: RendererWorld<R>,
    after: RendererWorld<R>,
    keys: Seq<Option<V::Key>>,
) -> bool {
    &&& views.len() > 0
    &&& keys.len() > 0
    &&& views.last() is Some
    &&& keys.last() is Some
    &&& views.last()->0.builds(parent, None, will_rebuild, before, after, keys.last()->0)
}

/// Whether `after` is `before` once the views of `views` that are there are
/// built in order under `parent`, `keys` holding their keys in that order.
pub open spec fn builds_in_order<R: Renderer, V: XView<R>>(
    views: Seq<Option<V>>,
    will_rebuild: bool,
    parent: RendererNodeId<R>,
    before: RendererWorld<R>,
    after: RendererWorld<R>,
    keys: Seq<Option<V::Key>>,
) -> bool
    decreases views.len(),
{
    if views.len() == 0 {
        &&& after == before
        &&& keys.len() == 0
    } else if views.last() is None {
        builds_in_order::<R, V>(views.drop_last(), will_rebuild, parent, before, after, keys)
    } else {
        exists|mid: RendererWorld<R>, p: RendererNodeId<R>|
            #![trigger last_view_builds::<R, V>(views, will_rebuild, p, mid, after, keys)]
            {
                &&& cloned::<RendererNodeId<R>>(parent, p)
                &&& last_view_builds::<R, V>(views, will_rebuild, p, mid, after, keys)
                &&& builds_in_order::<R, V>(views.drop_last(), will_rebuild, parent, before, mid, keys.drop_last())
            }
    }
}

/// Removes every built child and builds every new view afresh.
fn rebuild_all<R: Renderer, V: XView<R>>(
    ctx: ViewCtx<R>,
    children_keys: Vec<Option<V::Key>>,
    views: Vec<Option<V>>,
) -> (r: Vec<Option<V::Key>>)
    ensures
        forall|p: int| 0 <= p < r@.len() ==> #[trigger] r@[p] is Some,
        exists|removed: RendererWorld<R>|
            #![trigger builds_in_order::<R, V>(views@, true, ctx.parent, removed, *final(ctx.world), r@)]
            {
                &&& children_keys.mutable_removes(*old(ctx.world), removed)
                &&& builds_in_order::<R, V>(views@, true, ctx.parent, removed, *final(ctx.world), r@)
            },
{
    let world = ctx.world;
    let parent = ctx.parent;
    let ghost ck = children_keys;
    children_keys.remove(world);
    let ghost removed = *world;
    let ghost all = views@;
    let mut views = views;
    let mut keys: Vec<Option<V::Key>> = Vec::new();
    let mut j: usize = 0;
    while j < views.len()
        invariant
            views@.len() == all.len(),
            j <= all.len(),
            forall|k: int| j <= k < all.len() ==> #[trigger] views@[k] == all[k],
            forall|p: int| 0 <= p < keys@.len() ==> #[trigger] keys@[p] is Some,
            builds_in_order::<R, V>(all.take(j as int), true, parent, removed, *world, keys@),
        decreases views.len() - j,
    {
        let ghost mid = *world;
        let ghost keys0 = keys@;
        assert(all.take(j + 1).drop_last() == all.take(j as int));
        if let Some(view) = take_slot(&mut views, j) {
            let p = parent.clone();
            let key = view.build(ViewCtx { world: &mut *world, parent: p }, None, true);
            keys.push(Some(key));
            assert(keys@.drop_last() == keys0);
            assert(last_view_builds::<R, V>(all.take(j + 1), true, p, mid, *world, keys@));
        } else {
            assert(all.take(j + 1).last() is None);
        }
        j = j + 1;
    }
    assert(all.take(all.len() as int) == all);
    keys
}

impl<R: Renderer, IV: IntoView<R>> MutableView<R> for ForKeyed<IV, R> {
    type Key = Vec<Option<<IV::View as XView<R>>::Key>>;

    open spec fn no_placeholder_spec() -> bool {
        true
    }

    fn no_placeholder_when_no_rebuild() -> (r: bool)
        ensures
            r,
    {
        true
    }

    /// Builds every item in order; when the list will be rebuilt (it has a
    /// placeholder) the keys of the items are stored on the placeholder.
    /// What a build gives: one key per item, each built (the nodes are the
    /// items' own business).
    open spec fn mutable_builds(
        self,
        parent: RendererNodeId<R>,
        placeholder_node_id: Option<RendererNodeId<R>>,
        before: RendererWorld<R>,
        after: RendererWorld<R>,
        key: Self::Key,
    ) -> bool {
        &&& key@.len() == self.items@.len()
        &&& forall|p: int| 0 <= p < key@.len() ==> #[trigger] key@[p] is Some
        &&& exists|built: RendererWorld<R>|
            #![trigger builds_in_order::<R, IV::View>(item_views::<R, IV>(self.items@), placeholder_node_id is Some, parent, before, built, key@)]
            {
                &&& builds_in_order::<R, IV::View>(
                    item_views::<R, IV>(self.items@),
                    placeholder_node_id is Some,
                    parent,
                    before,
                    built,
                    key@,
                )
                &&& match placeholder_node_id {
                    Some(id) => stores_item_keys::<R>(built, id, item_keys(self.items@), after),
                    None => after == built,
                }
            }
    }

    /// What a rebuild gives: a new key list, every key built, each item that
    /// stays keeping its key.
    open spec fn mutable_rebuilds(
        self,
        parent: RendererNodeId<R>,
        key: Self::Key,
        placeholder_node_id: RendererNodeId<R>,
        before: RendererWorld<R>,
        after: RendererWorld<R>,
        r: Option<Self::Key>,
    ) -> bool {
        &&& r matches Some(keys) && forall|p: int| 0 <= p < keys@.len() ==> #[trigger] keys@[p] is Some
        &&& match before.node_state::<ForKeyedState>(placeholder_node_id) {
            Some(state) => keeps_stayed_items(
                key_set_items(state.data_keys),
                item_keys(self.items@),
                key@,
                r->0@,
            ),
            None => true,
        }
        &&& exists|p: RendererNodeId<R>, applied: RendererWorld<R>|
            #![trigger keyed_list_rebuilt::<R, IV>(self.items@, key, p, placeholder_node_id, before, applied, r->0@)]
            {
                &&& cloned::<RendererNodeId<R>>(parent, p)
                &&& keyed_list_rebuilt::<R, IV>(self.items@, key, p, placeholder_node_id, before, applied, r->0@)
                &&& stores_item_keys::<R>(applied, placeholder_node_id, item_keys(self.items@), after)
            }
    }

    fn build(self, ctx: ViewCtx<R>, placeholder_node_id: Option<RendererNodeId<R>>) -> (r:
        Self::Key)
        ensures
            r@.len() == self.items@.len(),
            forall|p: int| 0 <= p < r@.len() ==> #[trigger] r@[p] is Some,
    {
        let ghost items = self.items@;
        let world = ctx.world;
        let parent = ctx.parent;
        let ghost w0 = *world;
        let will_rebuild = placeholder_node_id.is_some();
        let mut data_keys = key_set_new();
        let mut view_keys: Vec<Option<<IV::View as XView<R>>::Key>> = Vec::new();
        for item in it: self.items
            invariant
                items == it.seq(),
                will_rebuild == placeholder_node_id is Some,
                view_keys@.len() == it.index(),
                forall|p: int| 0 <= p < view_keys@.len() ==> #[trigger] view_keys@[p] is Some,
                will_rebuild ==> key_set_items(data_keys) == first_occurrences(item_keys(items.take(it.index() as int))),
                builds_in_order::<R, IV::View>(
                    item_views::<R, IV>(items.take(it.index() as int)),
                    will_rebuild,
                    parent,
                    w0,
                    *world,
                    view_keys@,
                ),
        {
            let ghost i = it.index();
            let ghost mid = *world;
            let ghost keys0 = view_keys@;
            let Keyed(key, view) = item;
            proof {
                assert(items[i as int] == Keyed(key, view));
                let before_keys = item_keys(items.take(i as int));
                let after_keys = item_keys(items.take(i + 1));
                assert(after_keys =~= before_keys.push(key));
                assert(after_keys.drop_last() == before_keys);
                assert(item_views::<R, IV>(items.take(i + 1)).drop_last() =~= item_views::<R, IV>(items.take(i as int)));
            }
            if will_rebuild {
                key_set_insert(&mut data_keys, key);
            }
            let ghost iv = view;
            let v = view.into_view();
            let p = parent.clone();
            let built_key = v.build(ViewCtx { world: &mut *world, parent: p }, None, will_rebuild);
            view_keys.push(Some(built_key));
            proof {
                assert(view_keys@.drop_last() == keys0);
                assert(item_views::<R, IV>(items.take(i + 1)).last() == Some(iv.view_of()));
                assert(last_view_builds::<R, IV::View>(
                    item_views::<R, IV>(items.take(i + 1)),
                    will_rebuild,
                    p,
                    mid,
                    *world,
                    view_keys@,
                ));
            }
        }
        proof {
            assert(items.take(items.len() as int) =~= items);
        }
        let ghost built = *world;
        if let Some(state_node_id) = placeholder_node_id {
            let ghost s = ForKeyedState { data_keys };
            world.set_node_state(&state_node_id, ForKeyedState { data_keys });
            assert(state_put::<RendererWorld<R>, ForKeyedState>(built, state_node_id, s, *world));
        }
        view_keys
    }

    /// Diffs the stored keys against the new ones and applies the diff to the
    /// built children (see `apply_diff`), then stores the new keys. Children
    /// that do not line up with the stored keys are all rebuilt afresh.
    fn rebuild(
        self,
        ctx: ViewCtx<R>,
        key: Self::Key,
        placeholder_node_id: RendererNodeId<R>,
    ) -> (r: Option<Self::Key>)
        ensures
            r matches Some(keys) && forall|p: int| 0 <= p < keys@.len() ==> #[trigger] keys@[p] is Some,
            match old(ctx.world).node_state::<ForKeyedState>(placeholder_node_id) {
                Some(state) => keeps_stayed_items(
                    key_set_items(state.data_keys),
                    item_keys(self.items@),
                    key@,
                    r->0@,
                ),
                None => true,
            },
    {
        let ghost items = self.items@;
        let world = ctx.world;
        let parent = ctx.parent;
        let mut new_data_keys = key_set_new();
        let mut views: Vec<Option<IV::View>> = Vec::new();
        let ghost mut all_new: bool = true;
        for item in it: self.items
            invariant
                items == it.seq(),
                views@.len() == it.index(),
                forall|p: int| 0 <= p < views@.len() ==> #[trigger] views@[p] is Some,
                key_set_items(new_data_keys).len() <= it.index(),
                key_set_items(new_data_keys).no_duplicates(),
                all_new ==> key_set_items(new_data_keys) == item_keys(items.take(it.index() as int)),
                !all_new ==> key_set_items(new_data_keys).len() < it.index(),
                !all_new ==> !item_keys(items.take(it.index() as int)).no_duplicates(),
                key_set_items(new_data_keys) == first_occurrences(item_keys(items.take(it.index() as int))),
                views@ == item_views::<R, IV>(items.take(it.index() as int)),
        {
            let ghost i = it.index();
            let ghost before = item_keys(items.take(i as int));
            let ghost views0 = views@;
            let Keyed(k, view) = item;
            let inserted = key_set_insert(&mut new_data_keys, k);
            proof {
                assert(items[i as int] == Keyed(k, view));
                let after = item_keys(items.take(i + 1));
                assert(after =~= before.push(k));
                assert(after.drop_last() == before);
                if !all_new {
                    let (a, b) = choose|a: int, b: int|
                        0 <= a < before.len() && 0 <= b < before.len() && a != b && before[a] == before[b];
                    assert(after[a] == before[a] && after[b] == before[b]);
                } else if !inserted {
                    let a = choose|a: int| 0 <= a < before.len() && before[a] == k;
                    assert(after[a] == k && after[before.len() as int] == k);
                }
                if !inserted {
                    all_new = false;
                }
            }
            let ghost iv = view;
            views.push(Some(view.into_view()));
            proof {
                assert(views@ =~= item_views::<R, IV>(items.take(i + 1))) by {
                    assert(views@ == views0.push(Some(iv.view_of())));
                    assert(item_views::<R, IV>(items.take(i + 1)) =~= item_views::<R, IV>(items.take(i as int)).push(Some(iv.view_of())));
                }
            }
        }
        proof {
            assert(items.take(items.len() as int) =~= items);
            assert(item_keys(items).len() == items.len());
        }
        let ghost w0 = *world;
        let mut old_items: Ghost<Seq<u64>> = Ghost(Seq::empty());
        let ghost t = item_keys(items);
        let ghost children = key@;
        let planned = match world.get_node_state_ref::<ForKeyedState>(&placeholder_node_id) {
            Some(state) => {
                if keyed_lists_check(&state.data_keys, &new_data_keys, &key, &views) {
                    old_items = Ghost(key_set_items(state.data_keys));
                    proof {
                        if !all_new {
                            assert(key_set_items(new_data_keys).len() < items.len());
                        }
                        assert(key_set_items(new_data_keys) == t);
                    }
                    let d = crate::diff::diff(&state.data_keys, &new_data_keys);
                    Some(d)
                } else {
                    proof {
                        let f = key_set_items(state.data_keys);
                        if stored_keys_fit(f, t, children) {
                            assert(all_new);
                            assert(key_set_items(new_data_keys) == t);
                            assert(keyed_lists_fit(f, t, children, views@));
                        }
                    }
                    None
                }
            },
            None => None,
        };
        let p = parent.clone();
        let ghost children = key;
        let ghost vs = views@;
        let new_view_keys = match planned {
            Some(d) => {
                let r = apply_diff::<R, IV::View>(
                    ViewCtx { world: &mut *world, parent: p },
                    &placeholder_node_id,
                    d,
                    views,
                    key,
                    old_items,
                    Ghost(key_set_items(new_data_keys)),
                );
                assert(diff_applied_in_tree::<R, IV::View>(old_items@, key_set_items(new_data_keys), placeholder_node_id, d, vs, children@, p, w0, *world, r@));
                r
            },
            None => {
                let r = rebuild_all::<R, IV::View>(ViewCtx { world: &mut *world, parent: p }, key, views);
                r
            },
        };
        let ghost applied = *world;
        proof {
            assert(keyed_list_rebuilt::<R, IV>(items, children, p, placeholder_node_id, w0, applied, new_view_keys@));
        }
        let ghost s = ForKeyedState { data_keys: new_data_keys };
        world.set_node_state(&placeholder_node_id, ForKeyedState { data_keys: new_data_keys });
        assert(state_put::<RendererWorld<R>, ForKeyedState>(applied, placeholder_node_id, s, *world));
        Some(new_view_keys)
    }
}

impl<R: Renderer, IV: IntoView<R>> IntoView<R> for ForKeyed<IV, R> {
    type View = VirtualContainer<R, ForKeyed<IV, R>>;

    open spec fn view_of(self) -> Self::View {
        VirtualContainer(self, "[ForKeyed Placeholder]", PhantomData)
    }

    fn into_view(self) -> (r: Self::View)
        ensures
            r.0 == self,
    {
        virtual_container(self, "[ForKeyed Placeholder]")
    }
}

} // verus!

verus! {

/// A keyed list rebuilt with the keys it was built with keeps every built
/// key, in place.
pub proof fn same_keys_keep_every_key<K: Clone>(
    f: Seq<u64>,
    children: Seq<Option<K>>,
    r: Seq<Option<K>>,
)
    requires
        stored_keys_fit(f, f, children),
        keeps_stayed_items(f, f, children, r),
    ensures
        r == children,
{
    assert forall|p: int| 0 <= p < r.len() implies r[p] == children[p] by {
        assert(is_unchanged(f, f, p));
    }
    assert(r =~= children);
}

} // verus!

verus! {

/// Inserting keys that are all distinct keeps every one of them, in order.
pub(crate) proof fn lemma_first_occurrences_distinct(s: Seq<u64>)
    requires
        s.no_duplicates(),
    ensures
        first_occurrences(s) == s,
    decreases s.len(),
{
    if s.len() > 0 {
        let a = s.drop_last();
        assert forall|i: int, j: int| 0 <= i < a.len() && 0 <= j < a.len() && i != j implies a[i] != a[j] by {
            assert(a[i] == s[i] && a[j] == s[j]);
        }
        lemma_first_occurrences_distinct(a);
        if a.contains(s.last()) {
            let i = choose|i: int| 0 <= i < a.len() && a[i] == s.last();
            assert(s[i] == s[s.len() - 1]);
        }
        assert(a.push(s.last()) =~= s);
    }
}

/// A keyed list whose item keys are all distinct, built behind a placeholder
/// and then rebuilt with the same items, gives back every key it was built
/// with, in place.
pub proof fn rebuild_after_build_keeps_every_key<R: Renderer, IV: IntoView<R>>(
    list: ForKeyed<IV, R>,
    parent: RendererNodeId<R>,
    rebuild_parent: RendererNodeId<R>,
    placeholder_node_id: RendererNodeId<R>,
    start: RendererWorld<R>,
    built_world: RendererWorld<R>,
    rebuilt_world: RendererWorld<R>,
    built: Vec<Option<<IV::View as XView<R>>::Key>>,
    rebuilt: Option<Vec<Option<<IV::View as XView<R>>::Key>>>,
)
    requires
        item_keys(list.items@).no_duplicates(),
        list.items@.len() <= i32::MAX,
        list.mutable_builds(parent, Some(placeholder_node_id), start, built_world, built),
        list.mutable_rebuilds(rebuild_parent, built, placeholder_node_id, built_world, rebuilt_world, rebuilt),
    ensures
        rebuilt is Some,
        rebuilt->0@ == built@,
{
    let t = item_keys(list.items@);
    let b = choose|b: RendererWorld<R>|
        {
            &&& builds_in_order::<R, IV::View>(
                item_views::<R, IV>(list.items@),
                true,
                parent,
                start,
                b,
                built@,
            )
            &&& stores_item_keys::<R>(b, placeholder_node_id, t, built_world)
        };
    let s = choose|s: ForKeyedState|
        {
            &&& key_set_items(s.data_keys) == first_occurrences(t)
            &&& state_put::<RendererWorld<R>, ForKeyedState>(b, placeholder_node_id, s, built_world)
        };
    assert(built_world.node_state::<ForKeyedState>(placeholder_node_id) == Some(s));
    lemma_first_occurrences_distinct(t);
    assert(stored_keys_fit(t, t, built@));
    same_keys_keep_every_key(t, built@, rebuilt->0@);
}

} // verus!
