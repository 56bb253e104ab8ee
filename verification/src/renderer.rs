use vstd::prelude::*;
use std::collections::HashMap;

verus! {

/// The tree of nodes that a renderer builds views into.
///
/// Each node can hold one piece of state per state type; `node_state` is the
/// abstract view of that storage, and `parent_of` / `depth` describe the
/// parent links of the tree (a parent is always strictly shallower than its
/// child, so walking up the tree terminates).
pub trait NodeTree: Sized + 'static {
    type NodeId: Clone + 'static;

    /// The state of type `S` stored on `node_id`, if any.
    spec fn node_state<S>(&self, node_id: Self::NodeId) -> Option<S>;

    /// The parent of `node_id`, if it has one.
    spec fn parent_of(&self, node_id: Self::NodeId) -> Option<Self::NodeId>;

    /// The distance of `node_id` from the root of its tree.
    spec fn depth(&self, node_id: Self::NodeId) -> u64;

    fn get_node_state_ref<S: 'static>(&self, node_id: &Self::NodeId) -> (r: Option<&S>)
        ensures
            match r {
                Some(s) => self.node_state::<S>(*node_id) == Some(*s),
                None => self.node_state::<S>(*node_id) is None,
            },
    ;

    fn take_node_state<S: 'static>(&mut self, node_id: &Self::NodeId) -> (r: Option<S>)
        ensures
            r == old(self).node_state::<S>(*node_id),
            final(self).node_state::<S>(*node_id) is None,
            forall|n: Self::NodeId|
                n != *node_id ==> #[trigger] final(self).node_state::<S>(n) == old(self).node_state::<
                    S,
                >(n),
            forall|n: Self::NodeId| #[trigger] final(self).parent_of(n) == old(self).parent_of(n),
            forall|n: Self::NodeId| #[trigger] final(self).depth(n) == old(self).depth(n),
    ;

    fn set_node_state<S: 'static>(&mut self, node_id: &Self::NodeId, state: S)
        ensures
            final(self).node_state::<S>(*node_id) == Some(state),
            forall|n: Self::NodeId|
                n != *node_id ==> #[trigger] final(self).node_state::<S>(n) == old(self).node_state::<
                    S,
                >(n),
            forall|n: Self::NodeId| #[trigger] final(self).parent_of(n) == old(self).parent_of(n),
            forall|n: Self::NodeId| #[trigger] final(self).depth(n) == old(self).depth(n),
    ;

    fn get_parent(&self, node_id: &Self::NodeId) -> (r: Option<Self::NodeId>)
        ensures
            r == self.parent_of(*node_id),
            r matches Some(p) ==> self.depth(p) < self.depth(*node_id),
    ;

    /// Whether the tree holds `node_id`.
    spec fn has_node(&self, node_id: Self::NodeId) -> bool;

    /// Whether the tree holds `node_id`; asking changes nothing.
    fn exist_node_id(&mut self, node_id: &Self::NodeId) -> (r: bool)
        ensures
            r == old(self).has_node(*node_id),
            *final(self) == *old(self),
    ;

    fn reserve_node_id(&mut self) -> Self::NodeId;

    /// Whether `after` is this tree once a placeholder node named `name` is
    /// spawned under `parent` (on the reserved node, if any), `node_id` being
    /// that node.
    spec fn spawns_placeholder(
        &self,
        name: &'static str,
        parent: Option<Self::NodeId>,
        reserve_node_id: Option<Self::NodeId>,
        after: Self,
        node_id: Self::NodeId,
    ) -> bool;

    fn spawn_placeholder(
        &mut self,
        name: &'static str,
        parent: Option<&Self::NodeId>,
        reserve_node_id: Option<Self::NodeId>,
    ) -> (r: Self::NodeId)
        ensures
            old(self).spawns_placeholder(name, opt_node(parent), reserve_node_id, *final(self), r),
    ;

    fn ensure_spawn(&mut self, reserve_node_id: Self::NodeId);

    fn spawn_empty_node(
        &mut self,
        parent: Option<&Self::NodeId>,
        reserve_node_id: Option<Self::NodeId>,
    ) -> Self::NodeId;

    fn spawn_data_node(&mut self) -> Self::NodeId;

    /// Whether `after` is this tree once `node_id` (and what hangs below it)
    /// is removed.
    spec fn removes_node(&self, node_id: Self::NodeId, after: Self) -> bool;

    /// Whether `after` is this tree once `inserted` are moved, in order, under
    /// `parent` before `before_node_id` (at the end when there is none).
    spec fn inserts_nodes_before(
        &self,
        parent: Option<Self::NodeId>,
        before_node_id: Option<Self::NodeId>,
        inserted: &[Self::NodeId],
        after: Self,
    ) -> bool;

    /// Whether `after` is this tree once `node_id` is hidden (or shown).
    spec fn sets_node_visibility(&self, hidden: bool, node_id: Self::NodeId, after: Self) -> bool;

    /// Whether `after` is this tree once `node_id` is reserved under
    /// `parent`, spawned there at once when `spawn` holds.
    spec fn reserves_node(&self, parent: Self::NodeId, spawn: bool, after: Self, node_id: Self::NodeId) -> bool;

    fn reserve_node_id_or_spawn(&mut self, parent: Self::NodeId, spawn: bool) -> (r: Self::NodeId)
        ensures
            old(self).reserves_node(parent, spawn, *final(self), r),
    ;

    fn remove_node(&mut self, node_id: &Self::NodeId)
        ensures
            old(self).removes_node(*node_id, *final(self)),
    ;

    fn insert_before(
        &mut self,
        parent: Option<&Self::NodeId>,
        before_node_id: Option<&Self::NodeId>,
        inserted_node_ids: &[Self::NodeId],
    )
        ensures
            old(self).inserts_nodes_before(
                opt_node(parent),
                opt_node(before_node_id),
                inserted_node_ids,
                *final(self),
            ),
    ;

    fn set_visibility(&mut self, hidden: bool, node_id: &Self::NodeId)
        ensures
            old(self).sets_node_visibility(hidden, *node_id, *final(self)),
    ;

    fn get_visibility(&self, node_id: &Self::NodeId) -> bool;

    /// Whether `after` is this tree once attribute `attr_index` of `node_id`
    /// is marked as set, `was_set` telling whether it had been set before.
    spec fn prepares_attr(&self, node_id: Self::NodeId, attr_index: u8, after: Self, was_set: bool) -> bool;

    /// Marks attribute `attr_index` of the node as set, telling whether it
    /// had been set before.
    fn prepare_set_attr_and_get_is_init(&mut self, node_id: &Self::NodeId, attr_index: u8) -> (r: bool)
        ensures
            old(self).prepares_attr(*node_id, attr_index, *final(self), r),
    ;
}

/// The node a reference names, if any.
pub open spec fn opt_node<N>(n: Option<&N>) -> Option<N> {
    match n {
        Some(x) => Some(*x),
        None => None,
    }
}

/// `copy` is a clone of `orig` (both absent, or both present).
pub open spec fn same_node<N: Clone>(orig: Option<N>, copy: Option<N>) -> bool {
    match (orig, copy) {
        (Some(a), Some(b)) => cloned::<N>(a, b),
        (None, None) => true,
        _ => false,
    }
}

/// What taking the state of type `S` off `node` promises of the world
/// after: that state is gone, and other nodes' states of that type and the
/// parent links stay as they were.
pub open spec fn state_taken<T: NodeTree, S>(before: T, node: T::NodeId, after: T) -> bool {
    &&& after.node_state::<S>(node) is None
    &&& forall|n: T::NodeId| n != node ==> #[trigger] after.node_state::<S>(n) == before.node_state::<S>(n)
    &&& forall|n: T::NodeId| #[trigger] after.parent_of(n) == before.parent_of(n)
    &&& forall|n: T::NodeId| #[trigger] after.depth(n) == before.depth(n)
}

/// What storing `state` on `node` promises of the world after: `node` holds
/// it, and other nodes' states of that type and the parent links stay as
/// they were.
pub open spec fn state_put<T: NodeTree, S>(before: T, node: T::NodeId, state: S, after: T) -> bool {
    &&& after.node_state::<S>(node) == Some(state)
    &&& forall|n: T::NodeId| n != node ==> #[trigger] after.node_state::<S>(n) == before.node_state::<S>(n)
    &&& forall|n: T::NodeId| #[trigger] after.parent_of(n) == before.parent_of(n)
    &&& forall|n: T::NodeId| #[trigger] after.depth(n) == before.depth(n)
}

/// A rendering backend: it names the node tree that views are built into.
pub trait Renderer: Sized + 'static {
    type NodeTree: NodeTree;

    /// A running task spawned by the renderer.
    type Task;
}

pub type RendererWorld<R> = <R as Renderer>::NodeTree;

pub type RendererNodeId<R> = <<R as Renderer>::NodeTree as NodeTree>::NodeId;

/// What a view needs while it is built: the world and the parent node.
pub struct ViewCtx<'a, R: Renderer> {
    pub world: &'a mut RendererWorld<R>,
    pub parent: RendererNodeId<R>,
}

pub type ViewMemberIndex = u32;

/// What a view member needs while it is built: its index among the members
/// of its node, the world, and the node it belongs to.
pub struct ViewMemberCtx<'a, R: Renderer> {
    pub index: ViewMemberIndex,
    pub world: &'a mut RendererWorld<R>,
    pub node_id: RendererNodeId<R>,
}

} // verus!

verus! {

/// Per-member state of one state type on a node, keyed by member index.
pub struct MemberHashMapState<S>(pub HashMap<ViewMemberIndex, S>);

/// A running task kept alive as long as the state holding it.
pub struct TaskState<R: Renderer>(pub R::Task);

impl<R: Renderer> TaskState<R> {
    pub fn new(task: R::Task) -> (r: Self)
        ensures
            r.0 == task,
    {
        TaskState(task)
    }
}

/// A handle that runs work on the world later, outside the current borrow.
pub trait DeferredNodeTreeScoped<R: Renderer>: Clone + Sized {
    fn scoped<F: FnOnce(&mut RendererWorld<R>)>(&self, f: F);
}

/// The per-member state of type `S` that member `index` keeps on `node_id`.
pub open spec fn member_state<R: Renderer, S>(
    world: RendererWorld<R>,
    node_id: RendererNodeId<R>,
    index: ViewMemberIndex,
) -> Option<S> {
    match world.node_state::<MemberHashMapState<S>>(node_id) {
        Some(m) => if m.0@.contains_key(index) {
            Some(m.0@[index])
        } else {
            None
        },
        None => None,
    }
}

/// The member states of type `S` other than that of member `index` on
/// `node_id` are the same in `after` as in `before`.
pub open spec fn members_kept<R: Renderer, S>(
    before: RendererWorld<R>,
    node_id: RendererNodeId<R>,
    index: ViewMemberIndex,
    after: RendererWorld<R>,
) -> bool {
    forall|n: RendererNodeId<R>, i: ViewMemberIndex|
        (n != node_id || i != index) ==> #[trigger] member_state::<R, S>(after, n, i)
            == member_state::<R, S>(before, n, i)
}

/// Takes out the state of type `S` that member `index` keeps on `node_id`.
pub fn take_member_state<R: Renderer, S: 'static>(
    world: &mut RendererWorld<R>,
    node_id: &RendererNodeId<R>,
    index: ViewMemberIndex,
) -> (r: Option<S>)
    ensures
        r == member_state::<R, S>(*old(world), *node_id, index),
        member_state::<R, S>(*final(world), *node_id, index) is None,
        members_kept::<R, S>(*old(world), *node_id, index, *final(world)),
{
    broadcast use vstd::std_specs::hash::group_hash_axioms;
    match world.take_node_state::<MemberHashMapState<S>>(node_id) {
        Some(mut map) => {
            let r = map.0.remove(&index);
            world.set_node_state(node_id, map);
            r
        },
        None => None,
    }
}

/// Stores `state` as the state of type `S` that member `index` keeps on
/// `node_id`, next to the states of the other members.
pub fn set_member_state<R: Renderer, S: 'static>(
    world: &mut RendererWorld<R>,
    node_id: &RendererNodeId<R>,
    index: ViewMemberIndex,
    state: S,
)
    ensures
        member_state::<R, S>(*final(world), *node_id, index) == Some(state),
        members_kept::<R, S>(*old(world), *node_id, index, *final(world)),
{
    broadcast use vstd::std_specs::hash::group_hash_axioms;
    match world.take_node_state::<MemberHashMapState<S>>(node_id) {
        Some(mut map) => {
            map.0.insert(index, state);
            world.set_node_state(node_id, map);
        },
        None => {
            let mut map: HashMap<ViewMemberIndex, S> = HashMap::new();
            map.insert(index, state);
            world.set_node_state(node_id, MemberHashMapState(map));
        },
    }
}

impl<'a, R: Renderer> ViewMemberCtx<'a, R> {
    /// Takes out the state of type `S` that this member keeps on its node.
    pub fn take_indexed_view_member_state<S: 'static>(&mut self) -> (r: Option<S>)
        ensures
            r == member_state::<R, S>(*old(self).world, old(self).node_id, old(self).index),
            member_state::<R, S>(*final(self).world, final(self).node_id, final(self).index) is None,
            members_kept::<R, S>(*old(self).world, old(self).node_id, old(self).index, *final(self).world),
            final(self).node_id == old(self).node_id,
            final(self).index == old(self).index,
    {
        take_member_state::<R, S>(self.world, &self.node_id, self.index)
    }

    /// Stores `state` as the state of type `S` that this member keeps on its
    /// node, next to the states of the other members.
    pub fn set_indexed_view_member_state<S: 'static>(&mut self, state: S)
        ensures
            member_state::<R, S>(*final(self).world, final(self).node_id, final(self).index) == Some(
                state,
            ),
            members_kept::<R, S>(*old(self).world, old(self).node_id, old(self).index, *final(self).world),
            final(self).node_id == old(self).node_id,
            final(self).index == old(self).index,
    {
        set_member_state::<R, S>(self.world, &self.node_id, self.index, state)
    }
}

} // verus!
