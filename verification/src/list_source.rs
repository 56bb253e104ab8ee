use vstd::prelude::*;
use core::marker::PhantomData;
use crate::keyed_list::take_slot;
use crate::renderer::{opt_node, same_node, state_put, state_taken, NodeTree, Renderer, RendererNodeId, RendererWorld, ViewCtx};
use crate::view::{IntoView, MutableViewKey, ViewKey, XView, removes_in_order, inserts_in_order, sets_visibility_in_order, lemma_removes_step, lemma_inserts_step, lemma_sets_visibility_step};

verus! {

/// One change to a list.
pub enum VecOperation<T> {
    Push { item: T },
    Pop,
    Insert { index: usize, item: T },
    Update { index: usize, item: T },
    Remove { index: usize },
    Clear,
    Move { from: usize, to: usize },
    Patch { index: usize },
}

/// The positions an operation names are within a list of `len` items (as
/// the operation's effect on the built views needs them).
pub open spec fn op_in_range<T>(op: VecOperation<T>, len: nat) -> bool {
    match op {
        VecOperation::Insert { index, .. } => index < len,
        VecOperation::Update { index, .. } => index < len,
        VecOperation::Remove { index } => index < len,
        VecOperation::Move { from, to } => from < len && to < len,
        VecOperation::Patch { index } => index < len,
        _ => true,
    }
}

/// Whether the data of a list of `len` items can take the operation: as
/// `op_in_range`, except that an item can be inserted at the end.
pub open spec fn op_in_data_range<T>(op: VecOperation<T>, len: nat) -> bool {
    match op {
        VecOperation::Insert { index, .. } => index <= len,
        _ => op_in_range(op, len),
    }
}

/// Where a moved item lands: the list is shorter by one once it is taken out.
pub open spec fn move_target(from: usize, to: usize) -> int {
    if from < to {
        to - 1
    } else {
        to as int
    }
}

/// A list after an operation; the new item of a push or an insert is `new_item`.
pub open spec fn op_applied<T, U>(s: Seq<U>, op: VecOperation<T>, new_item: U) -> Seq<U> {
    match op {
        VecOperation::Push { .. } => s.push(new_item),
        VecOperation::Pop => if s.len() > 0 {
            s.drop_last()
        } else {
            s
        },
        VecOperation::Insert { index, .. } => s.insert(index as int, new_item),
        VecOperation::Update { .. } => s,
        VecOperation::Remove { index } => s.remove(index as int),
        VecOperation::Clear => Seq::empty(),
        VecOperation::Move { from, to } => s.remove(from as int).insert(
            move_target(from, to),
            s[from as int],
        ),
        VecOperation::Patch { .. } => s,
    }
}

/// The number of items a list of `len` items has after the operation.
pub open spec fn op_len<T>(op: VecOperation<T>, len: nat) -> nat {
    match op {
        VecOperation::Push { .. } => len + 1,
        VecOperation::Pop => if len > 0 {
            (len - 1) as nat
        } else {
            0
        },
        VecOperation::Insert { .. } => len + 1,
        VecOperation::Remove { .. } => (len - 1) as nat,
        VecOperation::Clear => 0,
        _ => len,
    }
}

/// The data of a list after the operation: a push or an insert adds the
/// item, an update replaces the item, a patch leaves the data as it is (it
/// was changed in place already).
pub open spec fn data_after<T>(s: Seq<T>, op: VecOperation<T>) -> Seq<T> {
    match op {
        VecOperation::Push { item } => s.push(item),
        VecOperation::Insert { index, item } => s.insert(index as int, item),
        VecOperation::Update { index, item } => s.update(index as int, item),
        VecOperation::Pop => if s.len() > 0 {
            s.drop_last()
        } else {
            s
        },
        VecOperation::Remove { index } => s.remove(index as int),
        VecOperation::Clear => Seq::empty(),
        VecOperation::Move { from, to } => s.remove(from as int).insert(
            move_target(from, to),
            s[from as int],
        ),
        VecOperation::Patch { .. } => s,
    }
}

/// Applies a list operation to the data.
pub fn apply_op<T>(vec: &mut Vec<T>, op: VecOperation<T>)
    requires
        op_in_data_range(op, old(vec)@.len()),
    ensures
        final(vec)@ == data_after(old(vec)@, op),
{
    match op {
        VecOperation::Push { item } => {
            vec.push(item);
        },
        VecOperation::Pop => {
            vec.pop();
        },
        VecOperation::Insert { index, item } => {
            vec.insert(index, item);
        },
        VecOperation::Update { index, item } => {
            vec.set(index, item);
        },
        VecOperation::Remove { index } => {
            vec.remove(index);
        },
        VecOperation::Clear => {
            vec.clear();
        },
        VecOperation::Move { from, to } => {
            let item = vec.remove(from);
            if from < to {
                vec.insert(to - 1, item);
            } else {
                vec.insert(to, item);
            }
        },
        VecOperation::Patch { .. } => {},
    }
}

} // verus!

verus! {

/// The node a list of views keeps its state on: a data node of its own, or
/// the placeholder of the container it sits in.
pub enum DataOrPlaceholderNodeId<R: Renderer> {
    Data(RendererNodeId<R>),
    Placeholder(RendererNodeId<R>),
}

impl<R: Renderer> Clone for DataOrPlaceholderNodeId<R> {
    fn clone(&self) -> Self {
        match self {
            DataOrPlaceholderNodeId::Data(n) => DataOrPlaceholderNodeId::Data(n.clone()),
            DataOrPlaceholderNodeId::Placeholder(n) => DataOrPlaceholderNodeId::Placeholder(
                n.clone(),
            ),
        }
    }
}

impl<R: Renderer> DataOrPlaceholderNodeId<R> {
    pub open spec fn node(&self) -> RendererNodeId<R> {
        match self {
            DataOrPlaceholderNodeId::Data(node_id) => *node_id,
            DataOrPlaceholderNodeId::Placeholder(node_id) => *node_id,
        }
    }

    pub fn state_node_id(&self) -> (r: &RendererNodeId<R>)
        ensures
            *r == self.node(),
    {
        match self {
            DataOrPlaceholderNodeId::Data(node_id) => node_id,
            DataOrPlaceholderNodeId::Placeholder(node_id) => node_id,
        }
    }
}

/// The built views of a list and the task that feeds it operations.
pub struct ForSourceState<R: Renderer, K> {
    pub view_keys: Vec<K>,
    pub task: R::Task,
}

/// The node that keeps a list's state: its placeholder when it has one, else
/// a data node spawned for it.
pub fn source_state_node<R: Renderer>(
    world: &mut RendererWorld<R>,
    placeholder_node_id: Option<RendererNodeId<R>>,
) -> (r: DataOrPlaceholderNodeId<R>)
    ensures
        match placeholder_node_id {
            Some(id) => r == DataOrPlaceholderNodeId::<R>::Placeholder(id) && *final(world) == *old(world),
            None => r is Data,
        },
{
    match placeholder_node_id {
        Some(id) => DataOrPlaceholderNodeId::Placeholder(id),
        None => DataOrPlaceholderNodeId::Data(world.spawn_data_node()),
    }
}

/// Stores a list's built views and the task that keeps them in line with
/// its data on the list's state node.
pub fn store_source_state<R: Renderer, K: 'static>(
    world: &mut RendererWorld<R>,
    state_node_id: &DataOrPlaceholderNodeId<R>,
    view_keys: Vec<K>,
    task: R::Task,
)
    ensures
        state_put::<RendererWorld<R>, ForSourceState<R, K>>(
            *old(world),
            state_node_id.node(),
            ForSourceState { view_keys, task },
            *final(world),
        ),
{
    let ghost st = ForSourceState::<R, K> { view_keys, task };
    world.set_node_state(state_node_id.state_node_id(), ForSourceState::<R, K> { view_keys, task });
    assert(state_put::<RendererWorld<R>, ForSourceState<R, K>>(*old(world), state_node_id.node(), st, *world));
}

/// The key of a list of views fed by operations.
pub struct ForSourceViewKey<R: Renderer, K>(pub DataOrPlaceholderNodeId<R>, pub PhantomData<K>);

impl<R: Renderer, K> Clone for ForSourceViewKey<R, K> {
    fn clone(&self) -> Self {
        ForSourceViewKey(self.0.clone(), PhantomData)
    }
}

impl<R: Renderer, K: ViewKey<R>> ForSourceViewKey<R, K> {
    pub fn new(state_node_id: DataOrPlaceholderNodeId<R>) -> (r: Self)
        ensures
            r.0 == state_node_id,
    {
        ForSourceViewKey(state_node_id, PhantomData)
    }
}

/// Something told of every operation applied to a list, then of the end of
/// a batch of them.
pub trait OperatorHandler {
    type Op;

    fn handle(&mut self, op: &Self::Op);

    fn commit(&mut self);
}

/// Whether `after` is `before` once the view that `view_f` makes of `item`
/// is built under `parent`, to be rebuilt, `key` being its key.
pub open spec fn builds_item<R: Renderer, T, IV: IntoView<R>, F: Fn(&T) -> IV>(
    view_f: F,
    item: &T,
    parent: RendererNodeId<R>,
    before: RendererWorld<R>,
    after: RendererWorld<R>,
    key: <IV::View as XView<R>>::Key,
) -> bool {
    exists|iv: IV, p: RendererNodeId<R>|
        #![trigger iv.view_of().builds(p, None, true, before, after, key)]
        {
            &&& view_f.ensures((item,), iv)
            &&& cloned::<RendererNodeId<R>>(parent, p)
            &&& iv.view_of().builds(p, None, true, before, after, key)
        }
}

/// Builds the view of one item and gives back its key.
fn build_item<R: Renderer, T, IV: IntoView<R>, F: Fn(&T) -> IV>(
    world: &mut RendererWorld<R>,
    parent: &RendererNodeId<R>,
    view_f: &F,
    item: &T,
) -> (r: <IV::View as XView<R>>::Key)
    requires
        forall|x: &T| #[trigger] view_f.requires((x,)),
    ensures
        builds_item::<R, T, IV, F>(*view_f, item, *parent, *old(world), *final(world), r),
{
    let iv = view_f(item);
    let ghost made = iv;
    let view = iv.into_view();
    let p = parent.clone();
    let ghost w0 = *world;
    let r = view.build(ViewCtx { world: &mut *world, parent: p }, None, true);
    assert(made.view_of().builds(p, None, true, w0, *world, r));
    r
}

/// The node a view's nodes go before: its first node, or the placeholder when
/// it has none.
pub open spec fn anchor_of<R: Renderer, K: ViewKey<R>>(
    key: K,
    world: RendererWorld<R>,
    placeholder: RendererNodeId<R>,
) -> Option<RendererNodeId<R>> {
    match key.view_first_node(world) {
        Some(id) => Some(id),
        None => Some(placeholder),
    }
}

/// Whether `after` is `before` once the view of `key` is moved under `parent`
/// before a clone of `anchor`.
pub open spec fn placed_before<R: Renderer, K: ViewKey<R>>(
    key: K,
    parent: RendererNodeId<R>,
    anchor: Option<RendererNodeId<R>>,
    before: RendererWorld<R>,
    after: RendererWorld<R>,
) -> bool {
    exists|n: RendererNodeId<R>|
        #![trigger key.view_inserts_before(before, Some(parent), Some(n), after)]
        {
            &&& same_node(anchor, Some(n))
            &&& key.view_inserts_before(before, Some(parent), Some(n), after)
        }
}

/// Whether `after` is `before` once the view `view_f` makes of `item` is
/// built under `parent` as `key` and then put before the view of
/// `anchor_key` (or before the placeholder when there is no such view or it
/// has no node).
pub open spec fn builds_and_places<R: Renderer, T, IV: IntoView<R>, F: Fn(&T) -> IV>(
    view_f: F,
    item: &T,
    parent: RendererNodeId<R>,
    placeholder: RendererNodeId<R>,
    anchor_key: Option<<IV::View as XView<R>>::Key>,
    key: <IV::View as XView<R>>::Key,
    before: RendererWorld<R>,
    after: RendererWorld<R>,
) -> bool {
    exists|mid: RendererWorld<R>|
        #![trigger builds_item::<R, T, IV, F>(view_f, item, parent, before, mid, key)]
        {
            &&& builds_item::<R, T, IV, F>(view_f, item, parent, before, mid, key)
            &&& match anchor_key {
                Some(a) => placed_before::<R, <IV::View as XView<R>>::Key>(
                    key,
                    parent,
                    anchor_of::<R, <IV::View as XView<R>>::Key>(a, mid, placeholder),
                    mid,
                    after,
                ),
                None => key.view_inserts_before(mid, Some(parent), Some(placeholder), after),
            }
        }
}

/// Whether `after` is `before` once the view that `view_f` makes of `item` is
/// rebuilt on a clone of `key` under a clone of `parent`.
pub open spec fn rebuilds_item<R: Renderer, T, IV: IntoView<R>, F: Fn(&T) -> IV>(
    view_f: F,
    item: &T,
    parent: RendererNodeId<R>,
    key: <IV::View as XView<R>>::Key,
    before: RendererWorld<R>,
    after: RendererWorld<R>,
) -> bool {
    exists|iv: IV, k: <IV::View as XView<R>>::Key, p: RendererNodeId<R>|
        #![trigger iv.view_of().rebuilds(p, k, before, after)]
        {
            &&& view_f.ensures((item,), iv)
            &&& cloned::<<IV::View as XView<R>>::Key>(key, k)
            &&& cloned::<RendererNodeId<R>>(parent, p)
            &&& iv.view_of().rebuilds(p, k, before, after)
        }
}

/// What one operation does to the node tree, given the built views before
/// (`old_keys`) and after (`new_keys`) and the data before (`data`): a pushed
/// or inserted item is built and put before the next view (or the
/// placeholder); a popped, removed or cleared view is removed; an updated or
/// patched item is rebuilt on its key; a moved view is put before the view
/// it moves in front of (or the placeholder).
pub open spec fn op_effect<R: Renderer, T, IV: IntoView<R>, F: Fn(&T) -> IV>(
    op: VecOperation<T>,
    view_f: F,
    parent: RendererNodeId<R>,
    placeholder: RendererNodeId<R>,
    old_keys: Seq<<IV::View as XView<R>>::Key>,
    new_keys: Seq<<IV::View as XView<R>>::Key>,
    data: Seq<T>,
    before: RendererWorld<R>,
    after: RendererWorld<R>,
) -> bool {
    match op {
        VecOperation::Push { item } => {
            &&& new_keys.len() > 0
            &&& builds_and_places::<R, T, IV, F>(view_f, &item, parent, placeholder, None, new_keys.last(), before, after)
        },
        VecOperation::Pop => if old_keys.len() > 0 {
            old_keys.last().view_removes(before, after)
        } else {
            after == before
        },
        VecOperation::Insert { index, item } => {
            &&& index < new_keys.len()
            &&& builds_and_places::<R, T, IV, F>(
                view_f,
                &item,
                parent,
                placeholder,
                Some(old_keys[index as int]),
                new_keys[index as int],
                before,
                after,
            )
        },
        VecOperation::Update { index, item } => rebuilds_item::<R, T, IV, F>(
            view_f,
            &item,
            parent,
            old_keys[index as int],
            before,
            after,
        ),
        VecOperation::Remove { index } => old_keys[index as int].view_removes(before, after),
        VecOperation::Clear => removes_in_order::<R, <IV::View as XView<R>>::Key>(old_keys, before, after),
        VecOperation::Move { from, to } => placed_before::<R, <IV::View as XView<R>>::Key>(
            old_keys[from as int],
            parent,
            anchor_of::<R, <IV::View as XView<R>>::Key>(old_keys[to as int], before, placeholder),
            before,
            after,
        ),
        VecOperation::Patch { index } => rebuilds_item::<R, T, IV, F>(
            view_f,
            &data[index as int],
            parent,
            old_keys[index as int],
            before,
            after,
        ),
    }
}

/// The view that a move puts its view before has a node (a move is placed
/// before the first node of the view at its target).
pub open spec fn move_target_placed<R: Renderer, T, K: ViewKey<R>>(
    op: VecOperation<T>,
    keys: Seq<K>,
    world: RendererWorld<R>,
) -> bool {
    match op {
        VecOperation::Move { to, .. } => keys[to as int].view_first_node(world) is Some,
        _ => true,
    }
}

/// Whether the view at a move's target has a node to put the moved view
/// before (always, for any other operation).
pub fn move_target_has_node<R: Renderer, T, K: ViewKey<R>>(
    op: &VecOperation<T>,
    view_keys: &Vec<K>,
    world: &RendererWorld<R>,
) -> (r: bool)
    requires
        op_in_range(*op, view_keys@.len()),
    ensures
        r == move_target_placed::<R, T, K>(*op, view_keys@, *world),
{
    match op {
        VecOperation::Move { to, .. } => view_keys[*to].first_node_id(world).is_some(),
        _ => true,
    }
}

/// Brings the built views of a list in line with one operation on its data:
/// a pushed or inserted item is built and put in place before the next view
/// (or the placeholder), a popped, removed or cleared view is removed, an
/// updated or patched item is rebuilt, and a moved view is moved in the node
/// tree and in the list. `vec` is the data before the operation.
pub fn apply_op_to_view_keys<R: Renderer, T, IV: IntoView<R>, F: Fn(&T) -> IV>(
    world: &mut RendererWorld<R>,
    parent: RendererNodeId<R>,
    view_f: &F,
    op: &VecOperation<T>,
    state_node_id: &DataOrPlaceholderNodeId<R>,
    view_keys: &mut Vec<<IV::View as XView<R>>::Key>,
    vec: &[T],
)
    requires
        forall|x: &T| #[trigger] view_f.requires((x,)),
        (*op is Push || *op is Insert) ==> *state_node_id is Placeholder,
        op_in_range(*op, old(view_keys)@.len()),
        move_target_placed::<R, T, <IV::View as XView<R>>::Key>(*op, old(view_keys)@, *old(world)),
        *op matches VecOperation::Patch { index } ==> index < vec@.len(),
    ensures
        final(view_keys)@.len() == op_len(*op, old(view_keys)@.len()),
        match *op {
            VecOperation::Push { .. } => final(view_keys)@.drop_last() == old(view_keys)@,
            VecOperation::Insert { index, .. } => {
                &&& final(view_keys)@.take(index as int) == old(view_keys)@.take(index as int)
                &&& final(view_keys)@.skip(index + 1) == old(view_keys)@.skip(index as int)
            },
            _ => final(view_keys)@ == op_applied(
                old(view_keys)@,
                *op,
                arbitrary::<<IV::View as XView<R>>::Key>(),
            ),
        },
        op_effect::<R, T, IV, F>(
            *op,
            *view_f,
            parent,
            state_node_id.node(),
            old(view_keys)@,
            final(view_keys)@,
            vec@,
            *old(world),
            *final(world),
        ),
{
    let ghost w0 = *world;
    let ghost keys0 = view_keys@;
    let placeholder_node_id = state_node_id.state_node_id();
    match op {
        VecOperation::Push { item } => {
            let view_key = build_item::<R, T, IV, F>(world, &parent, view_f, item);
            let ghost mid = *world;
            view_key.insert_before(world, Some(&parent), Some(placeholder_node_id));
            view_keys.push(view_key);
            assert(builds_item::<R, T, IV, F>(*view_f, item, parent, w0, mid, view_key));
        },
        VecOperation::Pop => {
            if let Some(view_key) = view_keys.pop() {
                view_key.remove(world);
            }
        },
        VecOperation::Insert { index, item } => {
            let index = *index;
            let view_key = build_item::<R, T, IV, F>(world, &parent, view_f, item);
            let ghost mid = *world;
            let first_node_id = match view_keys[index].first_node_id(world) {
                Some(id) => id,
                None => placeholder_node_id.clone(),
            };
            view_key.insert_before(world, Some(&parent), Some(&first_node_id));
            view_keys.insert(index, view_key);
            assert(view_key.view_inserts_before(mid, Some(parent), Some(first_node_id), *world));
            assert(placed_before::<R, <IV::View as XView<R>>::Key>(
                view_key,
                parent,
                anchor_of::<R, <IV::View as XView<R>>::Key>(keys0[index as int], mid, *placeholder_node_id),
                mid,
                *world,
            ));
            assert(builds_item::<R, T, IV, F>(*view_f, item, parent, w0, mid, view_key));
        },
        VecOperation::Update { index, item } => {
            let iv = view_f(item);
            let ghost made = iv;
            let view = iv.into_view();
            let key = view_keys[*index].clone();
            let p = parent.clone();
            view.rebuild(ViewCtx { world: &mut *world, parent: p }, key);
            assert(made.view_of().rebuilds(p, key, w0, *world));
        },
        VecOperation::Remove { index } => {
            let view_key = view_keys.remove(*index);
            view_key.remove(world);
        },
        VecOperation::Clear => {
            let mut keys: Vec<<IV::View as XView<R>>::Key> = Vec::new();
            std::mem::swap(&mut keys, view_keys);
            let ghost all = keys@;
            let ghost mut j: int = 0;
            while keys.len() > 0
                invariant
                    0 <= j <= all.len(),
                    keys@ == all.skip(j),
                    removes_in_order::<R, <IV::View as XView<R>>::Key>(all.take(j), w0, *world),
                decreases keys.len(),
            {
                let ghost mid = *world;
                let key = keys.remove(0);
                key.remove(world);
                proof {
                    assert(all.take(j + 1).drop_last() == all.take(j));
                    assert(all.take(j + 1).last() == key);
                    lemma_removes_step::<R, <IV::View as XView<R>>::Key>(all.take(j + 1), w0, mid, *world);
                    j = j + 1;
                    assert(keys@ == all.skip(j));
                }
            }
            assert(all.take(j) == all);
        },
        VecOperation::Move { from, to } => {
            let from = *from;
            let to = *to;
            let before_node_id = view_keys[to].first_node_id(world).unwrap();
            view_keys[from].insert_before(world, Some(&parent), Some(&before_node_id));
            assert(keys0[from as int].view_inserts_before(w0, Some(parent), Some(before_node_id), *world));
            let view_key = view_keys.remove(from);
            if from < to {
                view_keys.insert(to - 1, view_key);
            } else {
                view_keys.insert(to, view_key);
            }
        },
        VecOperation::Patch { index } => {
            let iv = view_f(&vec[*index]);
            let ghost made = iv;
            let view = iv.into_view();
            let key = view_keys[*index].clone();
            let p = parent.clone();
            view.rebuild(ViewCtx { world: &mut *world, parent: p }, key);
            assert(made.view_of().rebuilds(p, key, w0, *world));
        },
    }
}

} // verus!

verus! {

/// Whether `after` is `before` with the list state on `node` holding no
/// built views (its task kept), as taking the state off, emptying its views
/// and putting it back leaves it.
pub open spec fn keys_emptied<R: Renderer, K>(
    before: RendererWorld<R>,
    node: RendererNodeId<R>,
    after: RendererWorld<R>,
) -> bool {
    exists|taken: RendererWorld<R>, emptied: ForSourceState<R, K>|
        #![trigger state_put::<RendererWorld<R>, ForSourceState<R, K>>(taken, node, emptied, after)]
        {
            &&& before.node_state::<ForSourceState<R, K>>(node) matches Some(st)
                && emptied.view_keys@.len() == 0 && emptied.task == st.task
            &&& state_taken::<RendererWorld<R>, ForSourceState<R, K>>(before, node, taken)
            &&& state_put::<RendererWorld<R>, ForSourceState<R, K>>(taken, node, emptied, after)
        }
}

/// Whether `after` is `before` with `keys` put back as the built views of the
/// list state on `node` (its task kept).
pub open spec fn keys_restored<R: Renderer, K>(
    before: RendererWorld<R>,
    node: RendererNodeId<R>,
    keys: Vec<K>,
    after: RendererWorld<R>,
) -> bool {
    exists|taken: RendererWorld<R>|
        #![trigger state_taken::<RendererWorld<R>, ForSourceState<R, K>>(before, node, taken)]
        {
            &&& before.node_state::<ForSourceState<R, K>>(node) matches Some(st)
                && state_put::<RendererWorld<R>, ForSourceState<R, K>>(
                taken,
                node,
                (ForSourceState { view_keys: keys, task: st.task }),
                after,
            )
            &&& state_taken::<RendererWorld<R>, ForSourceState<R, K>>(before, node, taken)
        }
}

/// Runs `f` on the built views of a list and the world; while `f` runs the
/// list state stays on its node with no views, and the views `f` leaves are
/// put back after (`f` must leave the list state on its node).
pub fn get_for_source_view_keys_scoped<
    R: Renderer,
    K: ViewKey<R>,
    U,
    F: FnOnce(&mut Vec<K>, &mut RendererWorld<R>) -> U,
>(world: &mut RendererWorld<R>, state_node_id: &RendererNodeId<R>, f: F) -> (r: U)
    requires
        old(world).node_state::<ForSourceState<R, K>>(*state_node_id) is Some,
        forall|keys: &mut Vec<K>, w: &mut RendererWorld<R>| #[trigger] f.requires((keys, w)),
        forall|keys: &mut Vec<K>, w: &mut RendererWorld<R>, u: U|
            #[trigger] f.ensures((keys, w), u) ==> final(w).node_state::<ForSourceState<R, K>>(
                *state_node_id,
            ) is Some,
    ensures
        final(world).node_state::<ForSourceState<R, K>>(*state_node_id) is Some,
        exists|keys: &mut Vec<K>, w: &mut RendererWorld<R>|
            #![trigger f.ensures((keys, w), r)]
            {
                &&& old(world).node_state::<ForSourceState<R, K>>(*state_node_id) matches Some(st)
                    && *keys == st.view_keys
                &&& keys_emptied::<R, K>(*old(world), *state_node_id, *w)
                &&& f.ensures((keys, w), r)
                &&& keys_restored::<R, K>(*final(w), *state_node_id, *final(keys), *final(world))
            },
{
    let ghost w0 = *world;
    let mut state = world.take_node_state::<ForSourceState<R, K>>(state_node_id).unwrap();
    let ghost taken = *world;
    let mut view_keys: Vec<K> = Vec::new();
    std::mem::swap(&mut view_keys, &mut state.view_keys);
    let ghost emptied = state;
    world.set_node_state(state_node_id, state);
    assert(keys_emptied::<R, K>(w0, *state_node_id, *world)) by {
        assert(state_put::<RendererWorld<R>, ForSourceState<R, K>>(taken, *state_node_id, emptied, *world));
    }
    let r = f(&mut view_keys, world);
    let ghost after_f = *world;
    let mut state = world.take_node_state::<ForSourceState<R, K>>(state_node_id).unwrap();
    let ghost taken2 = *world;
    state.view_keys = view_keys;
    world.set_node_state(state_node_id, state);
    assert(state_taken::<RendererWorld<R>, ForSourceState<R, K>>(after_f, *state_node_id, taken2));
    r
}

/// A list that is changed by `op` keeps as many items as `op_len` says.
pub proof fn list_ops_keep_views_and_data_aligned<T, K>(data: Seq<T>, keys: Seq<K>, op: VecOperation<T>)
    requires
        data.len() == keys.len(),
        op_in_range(op, data.len()),
    ensures
        data_after(data, op).len() == op_len(op, keys.len()),
{
}

/// The count that a list-count handler keeps after an operation: one more
/// after a push, an insert, a pop or a remove (a pop and a remove count up
/// too), none after a clear, and the same after any other operation.
pub fn count_after_op<T>(count: usize, op: &VecOperation<T>) -> (r: usize)
    requires
        (*op is Push || *op is Insert || *op is Pop || *op is Remove) ==> count < usize::MAX,
    ensures
        r == (match *op {
            VecOperation::Push { .. } | VecOperation::Insert { .. } | VecOperation::Pop
            | VecOperation::Remove { .. } => count + 1,
            VecOperation::Clear => 0,
            _ => count as int,
        }),
{
    match op {
        VecOperation::Push { .. } | VecOperation::Insert { .. } => count + 1,
        VecOperation::Pop | VecOperation::Remove { .. } => count + 1,
        VecOperation::Clear => 0,
        _ => count,
    }
}

/// Whether the positions an operation names fall within a list of `len` items.
pub fn op_fits<T>(op: &VecOperation<T>, len: usize) -> (r: bool)
    ensures
        r == op_in_range(*op, len as nat),
{
    match op {
        VecOperation::Insert { index, .. } => *index < len,
        VecOperation::Update { index, .. } => *index < len,
        VecOperation::Remove { index } => *index < len,
        VecOperation::Move { from, to } => *from < len && *to < len,
        VecOperation::Patch { index } => *index < len,
        _ => true,
    }
}

/// Whether the data of a list of `len` items can take the operation.
pub fn op_fits_data<T>(op: &VecOperation<T>, len: usize) -> (r: bool)
    ensures
        r == op_in_data_range(*op, len as nat),
{
    match op {
        VecOperation::Insert { index, .. } => *index <= len,
        _ => op_fits(op, len),
    }
}

/// The view of the last item is built under `parent`, its key being the
/// last of `keys`.
pub open spec fn last_item_builds<R: Renderer, T, IV: IntoView<R>, F: Fn(&T) -> IV>(
    view_f: F,
    items: Seq<T>,
    parent: RendererNodeId<R>,
    before: RendererWorld<R>,
    after: RendererWorld<R>,
    keys: Seq<<IV::View as XView<R>>::Key>,
) -> bool {
    &&& items.len() > 0
    &&& keys.len() > 0
    &&& builds_item::<R, T, IV, F>(view_f, &items.last(), parent, before, after, keys.last())
}

/// Whether `after` is `before` once the views of `items` are built in order
/// under `parent`, `keys` holding their keys in that order.
pub open spec fn builds_items_in_order<R: Renderer, T, IV: IntoView<R>, F: Fn(&T) -> IV>(
    view_f: F,
    items: Seq<T>,
    parent: RendererNodeId<R>,
    before: RendererWorld<R>,
    after: RendererWorld<R>,
    keys: Seq<<IV::View as XView<R>>::Key>,
) -> bool
    decreases items.len(),
{
    if items.len() == 0 {
        &&& after == before
        &&& keys.len() == 0
    } else {
        exists|mid: RendererWorld<R>|
            #![trigger last_item_builds::<R, T, IV, F>(view_f, items, parent, mid, after, keys)]
            {
                &&& last_item_builds::<R, T, IV, F>(view_f, items, parent, mid, after, keys)
                &&& builds_items_in_order::<R, T, IV, F>(
                    view_f,
                    items.drop_last(),
                    parent,
                    before,
                    mid,
                    keys.drop_last(),
                )
            }
    }
}

/// Builds the views of the items of a list, in order.
pub fn build_source_items<R: Renderer, T, IV: IntoView<R>, F: Fn(&T) -> IV>(
    world: &mut RendererWorld<R>,
    parent: &RendererNodeId<R>,
    view_f: &F,
    vec: &Vec<T>,
) -> (r: Vec<<IV::View as XView<R>>::Key>)
    requires
        forall|x: &T| #[trigger] view_f.requires((x,)),
    ensures
        r@.len() == vec@.len(),
        builds_items_in_order::<R, T, IV, F>(*view_f, vec@, *parent, *old(world), *final(world), r@),
{
    let ghost w0 = *world;
    let mut view_keys: Vec<<IV::View as XView<R>>::Key> = Vec::new();
    let mut i: usize = 0;
    while i < vec.len()
        invariant
            forall|x: &T| #[trigger] view_f.requires((x,)),
            i <= vec@.len(),
            view_keys@.len() == i,
            builds_items_in_order::<R, T, IV, F>(*view_f, vec@.take(i as int), *parent, w0, *world, view_keys@),
        decreases vec.len() - i,
    {
        let ghost mid = *world;
        let ghost keys0 = view_keys@;
        let key = build_item::<R, T, IV, F>(world, parent, view_f, &vec[i]);
        view_keys.push(key);
        assert(vec@.take(i + 1).drop_last() == vec@.take(i as int));
        assert(vec@.take(i + 1).last() == vec@[i as int]);
        assert(view_keys@.drop_last() == keys0);
        assert(last_item_builds::<R, T, IV, F>(*view_f, vec@.take(i + 1), *parent, mid, *world, view_keys@));
        i = i + 1;
    }
    assert(vec@.take(vec@.len() as int) == vec@);
    view_keys
}

/// Applies one operation to a list fed by operations: first to its built
/// views (see `apply_op_to_view_keys`), then to its data; the views stay one
/// per item.
pub fn apply_source_op<R: Renderer, T, IV: IntoView<R>, F: Fn(&T) -> IV>(
    world: &mut RendererWorld<R>,
    parent: RendererNodeId<R>,
    view_f: &F,
    op: VecOperation<T>,
    state_node_id: &DataOrPlaceholderNodeId<R>,
    view_keys: &mut Vec<<IV::View as XView<R>>::Key>,
    vec: &mut Vec<T>,
)
    requires
        forall|x: &T| #[trigger] view_f.requires((x,)),
        (op is Push || op is Insert) ==> *state_node_id is Placeholder,
        old(view_keys)@.len() == old(vec)@.len(),
        op_in_range(op, old(vec)@.len()),
        move_target_placed::<R, T, <IV::View as XView<R>>::Key>(op, old(view_keys)@, *old(world)),
    ensures
        final(vec)@ == data_after(old(vec)@, op),
        final(view_keys)@.len() == final(vec)@.len(),
        match op {
            VecOperation::Push { .. } => final(view_keys)@.drop_last() == old(view_keys)@,
            VecOperation::Insert { index, .. } => {
                &&& final(view_keys)@.take(index as int) == old(view_keys)@.take(index as int)
                &&& final(view_keys)@.skip(index + 1) == old(view_keys)@.skip(index as int)
            },
            _ => final(view_keys)@ == op_applied(
                old(view_keys)@,
                op,
                arbitrary::<<IV::View as XView<R>>::Key>(),
            ),
        },
        op_effect::<R, T, IV, F>(
            op,
            *view_f,
            parent,
            state_node_id.node(),
            old(view_keys)@,
            final(view_keys)@,
            old(vec)@,
            *old(world),
            *final(world),
        ),
{
    apply_op_to_view_keys::<R, T, IV, F>(world, parent, view_f, &op, state_node_id, view_keys, vec);
    proof {
        list_ops_keep_views_and_data_aligned(old(vec)@, old(view_keys)@, op);
    }
    apply_op(vec, op);
}

} // verus!

verus! {

/// The views of the list state (if any) are removed in order, from `taken`
/// to `mid`; then the list's node is removed when it is a data node.
pub open spec fn removes_list_then_node<R: Renderer, K: ViewKey<R>>(
    state: Option<ForSourceState<R, K>>,
    taken: RendererWorld<R>,
    mid: RendererWorld<R>,
    id: DataOrPlaceholderNodeId<R>,
    after: RendererWorld<R>,
) -> bool {
    &&& match state {
        Some(st) => removes_in_order::<R, K>(st.view_keys@, taken, mid),
        None => mid == taken,
    }
    &&& if id is Data {
        mid.removes_node(id.node(), after)
    } else {
        after == mid
    }
}

/// The views of the list state (if any) are moved in order, from `taken` to
/// `mid`, and the state is put back on `node`.
pub open spec fn moves_list<R: Renderer, K: ViewKey<R>>(
    state: Option<ForSourceState<R, K>>,
    taken: RendererWorld<R>,
    parent: Option<RendererNodeId<R>>,
    before_node_id: Option<RendererNodeId<R>>,
    mid: RendererWorld<R>,
    node: RendererNodeId<R>,
    after: RendererWorld<R>,
) -> bool {
    match state {
        Some(st) => {
            &&& inserts_in_order::<R, K>(st.view_keys@, taken, parent, before_node_id, mid)
            &&& state_put::<RendererWorld<R>, ForSourceState<R, K>>(mid, node, st, after)
        },
        None => after == taken,
    }
}

/// The views of the list state (if any) are hidden (or shown) in order, from
/// `taken` to `mid`, and the state is put back on `node`.
pub open spec fn shows_list<R: Renderer, K: ViewKey<R>>(
    state: Option<ForSourceState<R, K>>,
    taken: RendererWorld<R>,
    hidden: bool,
    mid: RendererWorld<R>,
    node: RendererNodeId<R>,
    after: RendererWorld<R>,
) -> bool {
    match state {
        Some(st) => {
            &&& sets_visibility_in_order::<R, K>(st.view_keys@, taken, hidden, mid)
            &&& state_put::<RendererWorld<R>, ForSourceState<R, K>>(mid, node, st, after)
        },
        None => after == taken,
    }
}

impl<R: Renderer, K: ViewKey<R>> MutableViewKey<R> for ForSourceViewKey<R, K> {
    /// The list's state is taken off its node and every built view is
    /// removed, in order; then the node itself is removed when it is a data
    /// node of the list's own.
    open spec fn mutable_removes(&self, before: RendererWorld<R>, after: RendererWorld<R>) -> bool {
        exists|taken: RendererWorld<R>, mid: RendererWorld<R>|
            #![trigger removes_list_then_node::<R, K>(before.node_state::<ForSourceState<R, K>>(self.0.node()), taken, mid, self.0, after)]
            {
                &&& state_taken::<RendererWorld<R>, ForSourceState<R, K>>(before, self.0.node(), taken)
                &&& removes_list_then_node::<R, K>(
                    before.node_state::<ForSourceState<R, K>>(self.0.node()),
                    taken,
                    mid,
                    self.0,
                    after,
                )
            }
    }

    /// Every built view is moved, in order (the state is taken off its node
    /// for the time and put back).
    open spec fn mutable_inserts_before(
        &self,
        before: RendererWorld<R>,
        parent: Option<RendererNodeId<R>>,
        before_node_id: Option<RendererNodeId<R>>,
        after: RendererWorld<R>,
    ) -> bool {
        exists|taken: RendererWorld<R>, mid: RendererWorld<R>|
            #![trigger moves_list::<R, K>(before.node_state::<ForSourceState<R, K>>(self.0.node()), taken, parent, before_node_id, mid, self.0.node(), after)]
            {
                &&& state_taken::<RendererWorld<R>, ForSourceState<R, K>>(before, self.0.node(), taken)
                &&& moves_list::<R, K>(
                    before.node_state::<ForSourceState<R, K>>(self.0.node()),
                    taken,
                    parent,
                    before_node_id,
                    mid,
                    self.0.node(),
                    after,
                )
            }
    }

    /// Every built view is hidden (or shown), in order (the state is taken
    /// off its node for the time and put back).
    open spec fn mutable_sets_visibility(&self, before: RendererWorld<R>, hidden: bool, after: RendererWorld<R>) -> bool {
        exists|taken: RendererWorld<R>, mid: RendererWorld<R>|
            #![trigger shows_list::<R, K>(before.node_state::<ForSourceState<R, K>>(self.0.node()), taken, hidden, mid, self.0.node(), after)]
            {
                &&& state_taken::<RendererWorld<R>, ForSourceState<R, K>>(before, self.0.node(), taken)
                &&& shows_list::<R, K>(
                    before.node_state::<ForSourceState<R, K>>(self.0.node()),
                    taken,
                    hidden,
                    mid,
                    self.0.node(),
                    after,
                )
            }
    }

    /// The first node of the first built view.
    open spec fn mutable_first_node(&self, world: RendererWorld<R>) -> Option<RendererNodeId<R>> {
        match world.node_state::<ForSourceState<R, K>>(self.0.node()) {
            Some(st) => if st.view_keys@.len() > 0 {
                st.view_keys@[0].view_first_node(world)
            } else {
                None
            },
            None => None,
        }
    }

    open spec fn mutable_state_node(&self) -> Option<RendererNodeId<R>> {
        Some(self.0.node())
    }

    /// Drops the task, removes every built view and, when the state sat on
    /// a data node of its own, that node too.
    fn remove(self, world: &mut RendererWorld<R>) {
        let ghost w0 = *world;
        let ghost node = self.0.node();
        let taken_state = world.take_node_state::<ForSourceState<R, K>>(self.0.state_node_id());
        let ghost taken = *world;
        if let Some(state) = taken_state {
            let ForSourceState { view_keys, task } = state;
            let ghost all = view_keys@;
            let mut keys = view_keys;
            let ghost mut j: int = 0;
            while keys.len() > 0
                invariant
                    0 <= j <= all.len(),
                    keys@ == all.skip(j),
                    removes_in_order::<R, K>(all.take(j), taken, *world),
                decreases keys.len(),
            {
                let ghost mid = *world;
                let key = keys.remove(0);
                key.remove(world);
                proof {
                    assert(all.take(j + 1).drop_last() == all.take(j));
                    assert(all.take(j + 1).last() == key);
                    assert(removes_in_order::<R, K>(all.take(j + 1).drop_last(), taken, mid));
                    lemma_removes_step::<R, K>(all.take(j + 1), taken, mid, *world);
                    j = j + 1;
                    assert(keys@ == all.skip(j));
                }
            }
            assert(all.take(j) == all);
        }
        let ghost mid = *world;
        if let DataOrPlaceholderNodeId::Data(state_node_id) = self.0 {
            world.remove_node(&state_node_id);
        }
        assert(state_taken::<RendererWorld<R>, ForSourceState<R, K>>(w0, node, taken));
        assert(removes_list_then_node::<R, K>(w0.node_state::<ForSourceState<R, K>>(node), taken, mid, self.0, *world));
    }

    fn insert_before(
        &self,
        world: &mut RendererWorld<R>,
        parent: Option<&RendererNodeId<R>>,
        before_node_id: Option<&RendererNodeId<R>>,
    ) {
        let ghost w0 = *world;
        let ghost p = opt_node(parent);
        let ghost b = opt_node(before_node_id);
        let state_node_id = self.0.state_node_id();
        let taken_state = world.take_node_state::<ForSourceState<R, K>>(state_node_id);
        let ghost taken = *world;
        assert(state_taken::<RendererWorld<R>, ForSourceState<R, K>>(w0, self.0.node(), taken));
        if let Some(state) = taken_state {
            let mut j: usize = 0;
            while j < state.view_keys.len()
                invariant
                    j <= state.view_keys@.len(),
                    p == opt_node(parent),
                    b == opt_node(before_node_id),
                    inserts_in_order::<R, K>(state.view_keys@.take(j as int), taken, p, b, *world),
                decreases state.view_keys.len() - j,
            {
                let ghost mid = *world;
                state.view_keys[j].insert_before(world, parent, before_node_id);
                assert(state.view_keys@.take(j + 1).drop_last() == state.view_keys@.take(j as int));
                assert(state.view_keys@.take(j + 1).last() == state.view_keys@[j as int]);
                assert(inserts_in_order::<R, K>(state.view_keys@.take(j + 1).drop_last(), taken, p, b, mid));
                proof { lemma_inserts_step::<R, K>(state.view_keys@.take(j + 1), taken, p, b, mid, *world); }
                j = j + 1;
            }
            assert(state.view_keys@.take(state.view_keys@.len() as int) == state.view_keys@);
            let ghost mid = *world;
            world.set_node_state(state_node_id, state);
            assert(inserts_in_order::<R, K>(state.view_keys@, taken, p, b, mid));
            assert(moves_list::<R, K>(w0.node_state::<ForSourceState<R, K>>(self.0.node()), taken, p, b, mid, self.0.node(), *world));
        } else {
            assert(moves_list::<R, K>(w0.node_state::<ForSourceState<R, K>>(self.0.node()), taken, p, b, taken, self.0.node(), *world));
        }
    }

    fn set_visibility(&self, world: &mut RendererWorld<R>, hidden: bool) {
        let ghost w0 = *world;
        let state_node_id = self.0.state_node_id();
        let taken_state = world.take_node_state::<ForSourceState<R, K>>(state_node_id);
        let ghost taken = *world;
        assert(state_taken::<RendererWorld<R>, ForSourceState<R, K>>(w0, self.0.node(), taken));
        if let Some(state) = taken_state {
            let mut j: usize = 0;
            while j < state.view_keys.len()
                invariant
                    j <= state.view_keys@.len(),
                    sets_visibility_in_order::<R, K>(state.view_keys@.take(j as int), taken, hidden, *world),
                decreases state.view_keys.len() - j,
            {
                let ghost mid = *world;
                state.view_keys[j].set_visibility(world, hidden);
                assert(state.view_keys@.take(j + 1).drop_last() == state.view_keys@.take(j as int));
                assert(state.view_keys@.take(j + 1).last() == state.view_keys@[j as int]);
                assert(sets_visibility_in_order::<R, K>(state.view_keys@.take(j + 1).drop_last(), taken, hidden, mid));
                proof { lemma_sets_visibility_step::<R, K>(state.view_keys@.take(j + 1), taken, hidden, mid, *world); }
                j = j + 1;
            }
            assert(state.view_keys@.take(state.view_keys@.len() as int) == state.view_keys@);
            let ghost mid = *world;
            world.set_node_state(state_node_id, state);
            assert(sets_visibility_in_order::<R, K>(state.view_keys@, taken, hidden, mid));
            assert(shows_list::<R, K>(w0.node_state::<ForSourceState<R, K>>(self.0.node()), taken, hidden, mid, self.0.node(), *world));
        } else {
            assert(shows_list::<R, K>(w0.node_state::<ForSourceState<R, K>>(self.0.node()), taken, hidden, taken, self.0.node(), *world));
        }
    }

    /// The first node of the first built view.
    fn first_node_id(&self, world: &RendererWorld<R>) -> Option<RendererNodeId<R>> {
        match world.get_node_state_ref::<ForSourceState<R, K>>(self.0.state_node_id()) {
            Some(state) => {
                if state.view_keys.len() > 0 {
                    state.view_keys[0].first_node_id(world)
                } else {
                    None
                }
            },
            None => None,
        }
    }

    fn state_node_id(&self) -> (r: Option<RendererNodeId<R>>)
        ensures
            r is Some,
    {
        Some(self.0.state_node_id().clone())
    }
}

} // verus!

verus! {

/// Whether `r` is `s` with the item at `from` taken out and put back at
/// `target`, every other item keeping its order: items outside the stretch
/// between the two positions stay where they were, those inside shift by one
/// toward `from`.
pub open spec fn moved_within<U>(s: Seq<U>, r: Seq<U>, from: int, target: int) -> bool {
    &&& r.len() == s.len()
    &&& r[target] == s[from]
    &&& forall|j: int|
        0 <= j < s.len() && j != target ==> #[trigger] r[j] == if from <= target {
            if from <= j < target {
                s[j + 1]
            } else {
                s[j]
            }
        } else {
            if target < j <= from {
                s[j - 1]
            } else {
                s[j]
            }
        }
}

proof fn lemma_move_elementwise<U>(s: Seq<U>, from: int, to: int)
    requires
        0 <= from < s.len(),
        0 <= to < s.len(),
    ensures
        moved_within(
            s,
            s.remove(from).insert(if from < to { to - 1 } else { to }, s[from]),
            from,
            if from < to { to - 1 } else { to },
        ),
{
    let t = if from < to { to - 1 } else { to };
    let a = s.remove(from);
    let r = a.insert(t, s[from]);
    assert forall|j: int| 0 <= j < s.len() && j != t implies #[trigger] r[j] == if from <= t {
        if from <= j < t {
            s[j + 1]
        } else {
            s[j]
        }
    } else {
        if t < j <= from {
            s[j - 1]
        } else {
            s[j]
        }
    } by {
        if j < t {
            assert(r[j] == a[j]);
        } else {
            assert(r[j] == a[j - 1]);
        }
    }
}

/// What an operation does to a list's data, item by item: a push adds the
/// item at the end, a pop drops the last item (of a non-empty list), an
/// insert puts the item at its position and shifts the rest up, an update
/// replaces the item at its position only, a remove drops the item at its
/// position and shifts the rest down, a clear empties the list, a move takes
/// the item out and puts it back where the move lands, and a patch leaves the
/// data as it is.
pub proof fn data_after_acts_item_by_item<T>(s: Seq<T>, op: VecOperation<T>)
    requires
        op_in_data_range(op, s.len()),
    ensures
        match op {
            VecOperation::Push { item } => {
                &&& data_after(s, op).len() == s.len() + 1
                &&& data_after(s, op)[s.len() as int] == item
                &&& forall|j: int| 0 <= j < s.len() ==> #[trigger] data_after(s, op)[j] == s[j]
            },
            VecOperation::Pop => {
                &&& data_after(s, op).len() == if s.len() > 0 { s.len() - 1 } else { 0 }
                &&& forall|j: int| 0 <= j < data_after(s, op).len() ==> #[trigger] data_after(s, op)[j] == s[j]
            },
            VecOperation::Insert { index, item } => {
                &&& data_after(s, op).len() == s.len() + 1
                &&& data_after(s, op)[index as int] == item
                &&& forall|j: int| 0 <= j < index ==> #[trigger] data_after(s, op)[j] == s[j]
                &&& forall|j: int| index < j <= s.len() ==> #[trigger] data_after(s, op)[j] == s[j - 1]
            },
            VecOperation::Update { index, item } => {
                &&& data_after(s, op).len() == s.len()
                &&& data_after(s, op)[index as int] == item
                &&& forall|j: int| 0 <= j < s.len() && j != index ==> #[trigger] data_after(s, op)[j] == s[j]
            },
            VecOperation::Remove { index } => {
                &&& data_after(s, op).len() == s.len() - 1
                &&& forall|j: int| 0 <= j < index ==> #[trigger] data_after(s, op)[j] == s[j]
                &&& forall|j: int| index <= j < s.len() - 1 ==> #[trigger] data_after(s, op)[j] == s[j + 1]
            },
            VecOperation::Clear => data_after(s, op).len() == 0,
            VecOperation::Move { from, to } => moved_within(
                s,
                data_after(s, op),
                from as int,
                if from < to { to - 1 } else { to as int },
            ),
            VecOperation::Patch { .. } => data_after(s, op) == s,
        },
{
    match op {
        VecOperation::Move { from, to } => {
            lemma_move_elementwise(s, from as int, to as int);
        },
        _ => {},
    }
}

/// What an operation does to a list's built views, view by view, as it does
/// to the data: the new view of a push or an insert is `new_item`, and an
/// update or a patch keeps every view in place (the view is rebuilt on its
/// key).
pub proof fn view_keys_follow_the_operation<T, U>(s: Seq<U>, op: VecOperation<T>, new_item: U)
    requires
        op_in_range(op, s.len()),
    ensures
        match op {
            VecOperation::Push { .. } => {
                &&& op_applied(s, op, new_item).len() == s.len() + 1
                &&& op_applied(s, op, new_item)[s.len() as int] == new_item
                &&& forall|j: int| 0 <= j < s.len() ==> #[trigger] op_applied(s, op, new_item)[j] == s[j]
            },
            VecOperation::Pop => {
                &&& op_applied(s, op, new_item).len() == if s.len() > 0 { s.len() - 1 } else { 0 }
                &&& forall|j: int|
                    0 <= j < op_applied(s, op, new_item).len() ==> #[trigger] op_applied(s, op, new_item)[j] == s[j]
            },
            VecOperation::Insert { index, .. } => {
                &&& op_applied(s, op, new_item).len() == s.len() + 1
                &&& op_applied(s, op, new_item)[index as int] == new_item
                &&& forall|j: int| 0 <= j < index ==> #[trigger] op_applied(s, op, new_item)[j] == s[j]
                &&& forall|j: int| index < j <= s.len() ==> #[trigger] op_applied(s, op, new_item)[j] == s[j - 1]
            },
            VecOperation::Remove { index } => {
                &&& op_applied(s, op, new_item).len() == s.len() - 1
                &&& forall|j: int| 0 <= j < index ==> #[trigger] op_applied(s, op, new_item)[j] == s[j]
                &&& forall|j: int|
                    index <= j < s.len() - 1 ==> #[trigger] op_applied(s, op, new_item)[j] == s[j + 1]
            },
            VecOperation::Clear => op_applied(s, op, new_item).len() == 0,
            VecOperation::Move { from, to } => moved_within(
                s,
                op_applied(s, op, new_item),
                from as int,
                if from < to { to - 1 } else { to as int },
            ),
            _ => op_applied(s, op, new_item) == s,
        },
{
    match op {
        VecOperation::Move { from, to } => {
            lemma_move_elementwise(s, from as int, to as int);
        },
        _ => {},
    }
}

} // verus!
