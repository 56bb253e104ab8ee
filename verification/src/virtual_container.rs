use vstd::prelude::*;
use core::marker::PhantomData;
use crate::either::Either;
use crate::renderer::{opt_node, state_put, NodeTree, Renderer, RendererNodeId, RendererWorld, ViewCtx};
use crate::view::{MutableView, MutableViewKey, ViewKey, XView};

verus! {

/// A view that keeps a mutable view behind a placeholder node, so that the
/// mutable view can change its nodes on rebuild without losing its place.
pub struct VirtualContainer<R, V>(pub V, pub &'static str, pub PhantomData<R>);

impl<R: Renderer, V: MutableView<R>> VirtualContainer<R, V> {
    pub fn new(view: V, name: &'static str) -> (r: Self)
        ensures
            r.0 == view,
            r.1 == name,
            r == VirtualContainer::<R, V>(view, name, PhantomData),
    {
        VirtualContainer(view, name, PhantomData)
    }
}

pub fn virtual_container<R: Renderer, V: MutableView<R>>(view: V, name: &'static str) -> (r:
    VirtualContainer<R, V>)
    ensures
        r.0 == view,
        r.1 == name,
        r == VirtualContainer::<R, V>(view, name, PhantomData),
{
    VirtualContainer::new(view, name)
}

/// The key of the mutable view inside a virtual container, as it is stored on
/// the placeholder node.
pub struct VirtualContainerChildrenViewKey<T>(pub T);

/// The key of a virtual container: its placeholder node.
pub struct VirtualContainerNodeId<R: Renderer, VK> {
    pub placeholder_node_id: RendererNodeId<R>,
    pub _marker: PhantomData<VK>,
}

impl<R: Renderer, VK> Clone for VirtualContainerNodeId<R, VK> {
    fn clone(&self) -> Self {
        VirtualContainerNodeId {
            placeholder_node_id: self.placeholder_node_id.clone(),
            _marker: PhantomData,
        }
    }
}

impl<R: Renderer, VK: MutableViewKey<R>> VirtualContainerNodeId<R, VK> {
    pub fn new(node_id: RendererNodeId<R>) -> (r: Self)
        ensures
            r.placeholder_node_id == node_id,
    {
        VirtualContainerNodeId { placeholder_node_id: node_id, _marker: PhantomData }
    }

    /// Stores the inner key on the placeholder node.
    pub fn set_view_key(&self, world: &mut RendererWorld<R>, view_key: VK)
        ensures
            final(world).node_state::<VirtualContainerChildrenViewKey<VK>>(self.placeholder_node_id)
                == Some(VirtualContainerChildrenViewKey(view_key)),
            state_put::<RendererWorld<R>, VirtualContainerChildrenViewKey<VK>>(
                *old(world),
                self.placeholder_node_id,
                VirtualContainerChildrenViewKey(view_key),
                *final(world),
            ),
    {
        world.set_node_state::<VirtualContainerChildrenViewKey<VK>>(
            &self.placeholder_node_id,
            VirtualContainerChildrenViewKey(view_key),
        )
    }

    /// The inner key stored on the placeholder node, if any.
    pub fn get_view_key<'a>(&self, world: &'a RendererWorld<R>) -> (r: Option<&'a VK>)
        ensures
            match world.node_state::<VirtualContainerChildrenViewKey<VK>>(self.placeholder_node_id) {
                Some(k) => r == Some(&k.0),
                None => r is None,
            },
    {
        match world.get_node_state_ref::<VirtualContainerChildrenViewKey<VK>>(
            &self.placeholder_node_id,
        ) {
            Some(n) => Some(&n.0),
            None => None,
        }
    }
}

impl<R: Renderer, VK: MutableViewKey<R>> VirtualContainerNodeId<R, VK> {
    /// The inner key stored on the placeholder node in `world`, if any.
    pub open spec fn stored_key(&self, world: RendererWorld<R>) -> Option<VK> {
        match world.node_state::<VirtualContainerChildrenViewKey<VK>>(self.placeholder_node_id) {
            Some(k) => Some(k.0),
            None => None,
        }
    }
}

impl<R: Renderer, VK: MutableViewKey<R>> ViewKey<R> for VirtualContainerNodeId<R, VK> {
    /// The inner view (when its key is stored) is removed, then the
    /// placeholder.
    open spec fn view_removes(&self, before: RendererWorld<R>, after: RendererWorld<R>) -> bool {
        match self.stored_key(before) {
            Some(k) => exists|k2: VK, mid: RendererWorld<R>|
                #![trigger k2.mutable_removes(before, mid)]
                {
                    &&& cloned::<VK>(k, k2)
                    &&& k2.mutable_removes(before, mid)
                    &&& mid.removes_node(self.placeholder_node_id, after)
                },
            None => before.removes_node(self.placeholder_node_id, after),
        }
    }

    /// The inner view (when its key is stored) is moved, then the placeholder.
    open spec fn view_inserts_before(
        &self,
        before: RendererWorld<R>,
        parent: Option<RendererNodeId<R>>,
        before_node_id: Option<RendererNodeId<R>>,
        after: RendererWorld<R>,
    ) -> bool {
        exists|mid: RendererWorld<R>, ids: &[RendererNodeId<R>]|
            #![trigger mid.inserts_nodes_before(parent, before_node_id, ids, after)]
            {
                &&& match self.stored_key(before) {
                    Some(k) => exists|k2: VK|
                        #![trigger k2.mutable_inserts_before(before, parent, before_node_id, mid)]
                        {
                            &&& cloned::<VK>(k, k2)
                            &&& k2.mutable_inserts_before(before, parent, before_node_id, mid)
                        },
                    None => mid == before,
                }
                &&& ids@.len() == 1
                &&& cloned::<RendererNodeId<R>>(self.placeholder_node_id, ids@[0])
                &&& mid.inserts_nodes_before(parent, before_node_id, ids, after)
            }
    }

    /// The inner view (when its key is stored) is hidden or shown.
    open spec fn view_sets_visibility(&self, before: RendererWorld<R>, hidden: bool, after: RendererWorld<R>) -> bool {
        match self.stored_key(before) {
            Some(k) => exists|k2: VK|
                #![trigger k2.mutable_sets_visibility(before, hidden, after)]
                {
                    &&& cloned::<VK>(k, k2)
                    &&& k2.mutable_sets_visibility(before, hidden, after)
                },
            None => after == before,
        }
    }

    open spec fn view_state_node(&self) -> Option<RendererNodeId<R>> {
        Some(self.placeholder_node_id)
    }

    /// The first node of the inner view, or the placeholder when the inner
    /// view has none.
    open spec fn view_first_node(&self, world: RendererWorld<R>) -> Option<RendererNodeId<R>> {
        match self.stored_key(world) {
            Some(k) => match k.mutable_first_node(world) {
                Some(id) => Some(id),
                None => Some(self.placeholder_node_id),
            },
            None => Some(self.placeholder_node_id),
        }
    }

    /// A placeholder node is reserved (or spawned) under the parent.
    open spec fn view_reserves(
        before: RendererWorld<R>,
        will_rebuild: bool,
        parent: RendererNodeId<R>,
        spawn: bool,
        after: RendererWorld<R>,
        key: Self,
    ) -> bool {
        before.reserves_node(parent, spawn, after, key.placeholder_node_id)
    }

    fn state_node_id(&self) -> (r: Option<RendererNodeId<R>>)
        ensures
            r is Some,
    {
        Some(self.placeholder_node_id.clone())
    }

    /// Removes the inner view (when its key is stored) and the placeholder.
    fn remove(self, world: &mut RendererWorld<R>) {
        let ghost w0 = *world;
        match self.get_view_key(world) {
            Some(view_key) => {
                let view_key = view_key.clone();
                view_key.remove(world);
                let ghost mid = *world;
                world.remove_node(&self.placeholder_node_id);
                assert(view_key.mutable_removes(w0, mid));
            },
            None => {
                world.remove_node(&self.placeholder_node_id);
            },
        }
    }

    fn insert_before(
        &self,
        world: &mut RendererWorld<R>,
        parent: Option<&RendererNodeId<R>>,
        before_node_id: Option<&RendererNodeId<R>>,
    ) {
        let ghost w0 = *world;
        match self.get_view_key(world) {
            Some(view_key) => {
                let view_key = view_key.clone();
                view_key.insert_before(world, parent, before_node_id);
                assert(view_key.mutable_inserts_before(w0, opt_node(parent), opt_node(before_node_id), *world));
            },
            None => {},
        }
        let ghost mid = *world;
        let ids = [self.placeholder_node_id.clone()];
        world.insert_before(parent, before_node_id, &ids);
        assert(mid.inserts_nodes_before(opt_node(parent), opt_node(before_node_id), &ids, *world));
    }

    fn set_visibility(&self, world: &mut RendererWorld<R>, hidden: bool) {
        let ghost w0 = *world;
        match self.get_view_key(world) {
            Some(view_key) => {
                let view_key = view_key.clone();
                view_key.set_visibility(world, hidden);
                assert(view_key.mutable_sets_visibility(w0, hidden, *world));
            },
            None => {},
        }
    }

    fn reserve_key(
        world: &mut RendererWorld<R>,
        will_rebuild: bool,
        parent: RendererNodeId<R>,
        spawn: bool,
    ) -> Self {
        VirtualContainerNodeId::new(world.reserve_node_id_or_spawn(parent, spawn))
    }

    /// The first node of the inner view, or the placeholder when the inner
    /// view has none.
    fn first_node_id(&self, world: &RendererWorld<R>) -> (r: Option<RendererNodeId<R>>)
        ensures
            r is Some,
    {
        match self.get_view_key(world) {
            Some(view_key) => match view_key.first_node_id(world) {
                Some(id) => Some(id),
                None => Some(self.placeholder_node_id.clone()),
            },
            None => Some(self.placeholder_node_id.clone()),
        }
    }
}

impl<LK: MutableViewKey<R>, RK: MutableViewKey<R>, R: Renderer> ViewKey<R> for Either<
    VirtualContainerNodeId<R, LK>,
    RK,
> {
    open spec fn view_removes(&self, before: RendererWorld<R>, after: RendererWorld<R>) -> bool {
        match self {
            Either::Left(n) => n.view_removes(before, after),
            Either::Right(n) => n.mutable_removes(before, after),
        }
    }

    open spec fn view_inserts_before(
        &self,
        before: RendererWorld<R>,
        parent: Option<RendererNodeId<R>>,
        before_node_id: Option<RendererNodeId<R>>,
        after: RendererWorld<R>,
    ) -> bool {
        match self {
            Either::Left(n) => n.view_inserts_before(before, parent, before_node_id, after),
            Either::Right(n) => n.mutable_inserts_before(before, parent, before_node_id, after),
        }
    }

    open spec fn view_sets_visibility(&self, before: RendererWorld<R>, hidden: bool, after: RendererWorld<R>) -> bool {
        match self {
            Either::Left(n) => n.view_sets_visibility(before, hidden, after),
            Either::Right(n) => n.mutable_sets_visibility(before, hidden, after),
        }
    }

    open spec fn view_state_node(&self) -> Option<RendererNodeId<R>> {
        match self {
            Either::Left(n) => n.view_state_node(),
            Either::Right(n) => n.mutable_state_node(),
        }
    }

    open spec fn view_first_node(&self, world: RendererWorld<R>) -> Option<RendererNodeId<R>> {
        match self {
            Either::Left(n) => n.view_first_node(world),
            Either::Right(n) => n.mutable_first_node(world),
        }
    }

    /// A reserved key is a placeholder key.
    open spec fn view_reserves(
        before: RendererWorld<R>,
        will_rebuild: bool,
        parent: RendererNodeId<R>,
        spawn: bool,
        after: RendererWorld<R>,
        key: Self,
    ) -> bool {
        &&& key is Left
        &&& VirtualContainerNodeId::<R, LK>::view_reserves(
            before,
            will_rebuild,
            parent,
            spawn,
            after,
            key->Left_0,
        )
    }

    fn remove(self, world: &mut RendererWorld<R>) {
        match self {
            Either::Left(n) => n.remove(world),
            Either::Right(n) => n.remove(world),
        }
    }

    fn insert_before(
        &self,
        world: &mut RendererWorld<R>,
        parent: Option<&RendererNodeId<R>>,
        before_node_id: Option<&RendererNodeId<R>>,
    ) {
        match self {
            Either::Left(n) => n.insert_before(world, parent, before_node_id),
            Either::Right(n) => n.insert_before(world, parent, before_node_id),
        }
    }

    fn set_visibility(&self, world: &mut RendererWorld<R>, hidden: bool) {
        match self {
            Either::Left(n) => n.set_visibility(world, hidden),
            Either::Right(n) => n.set_visibility(world, hidden),
        }
    }

    fn state_node_id(&self) -> (r: Option<RendererNodeId<R>>)
        ensures
            self is Left ==> r is Some,
    {
        match self {
            Either::Left(n) => n.state_node_id(),
            Either::Right(n) => n.state_node_id(),
        }
    }

    /// A reserved key is always a placeholder key.
    fn reserve_key(
        world: &mut RendererWorld<R>,
        will_rebuild: bool,
        parent: RendererNodeId<R>,
        spawn: bool,
    ) -> (r: Self)
        ensures
            r is Left,
    {
        Either::Left(
            VirtualContainerNodeId::<R, LK>::reserve_key(world, will_rebuild, parent, spawn),
        )
    }

    fn first_node_id(&self, world: &RendererWorld<R>) -> (r: Option<RendererNodeId<R>>)
        ensures
            self is Left ==> r is Some,
    {
        match self {
            Either::Left(n) => n.first_node_id(world),
            Either::Right(n) => n.first_node_id(world),
        }
    }
}

/// Whether `after` is `before` once a placeholder named `name` is spawned
/// under `parent` (on the reserved node, if any) as `placeholder`, `view` is
/// built behind it, the placeholder is appended under `parent`, and the
/// view's key is stored on the placeholder.
pub open spec fn builds_behind_placeholder<R: Renderer, MV: MutableView<R>>(
    view: MV,
    name: &'static str,
    parent: RendererNodeId<R>,
    reserved: Option<RendererNodeId<R>>,
    before: RendererWorld<R>,
    after: RendererWorld<R>,
    placeholder: RendererNodeId<R>,
) -> bool {
    exists|
        spawned: RendererWorld<R>,
        built: RendererWorld<R>,
        appended: RendererWorld<R>,
        p: RendererNodeId<R>,
        ph: RendererNodeId<R>,
        ids: &[RendererNodeId<R>],
        view_key: MV::Key,
    |
        #![trigger view.mutable_builds(p, Some(ph), spawned, built, view_key), built.inserts_nodes_before(Some(parent), None, ids, appended)]
        {
            &&& before.spawns_placeholder(name, Some(parent), reserved, spawned, placeholder)
            &&& cloned::<RendererNodeId<R>>(parent, p)
            &&& cloned::<RendererNodeId<R>>(placeholder, ph)
            &&& view.mutable_builds(p, Some(ph), spawned, built, view_key)
            &&& ids@.len() == 1
            &&& cloned::<RendererNodeId<R>>(placeholder, ids@[0])
            &&& built.inserts_nodes_before(Some(parent), None, ids, appended)
            &&& state_put::<RendererWorld<R>, VirtualContainerChildrenViewKey<MV::Key>>(
                appended,
                placeholder,
                VirtualContainerChildrenViewKey(view_key),
                after,
            )
        }
}

impl<R: Renderer, MV: MutableView<R>> XView<R> for VirtualContainer<R, MV> {
    type Key = Either<VirtualContainerNodeId<R, MV::Key>, MV::Key>;

    /// Without a placeholder, the inner view is built on its own; with one,
    /// the inner key ends up stored on the placeholder (spawning the
    /// placeholder is the node tree's own business, so no more is said).
    open spec fn builds(
        self,
        parent: RendererNodeId<R>,
        reserve_key: Option<Self::Key>,
        will_rebuild: bool,
        before: RendererWorld<R>,
        after: RendererWorld<R>,
        key: Self::Key,
    ) -> bool {
        match key {
            Either::Right(k) => self.0.mutable_builds(parent, None, before, after, k),
            Either::Left(k) => builds_behind_placeholder::<R, MV>(
                self.0,
                self.1,
                parent,
                match reserve_key {
                    Some(Either::Left(n)) => Some(n.placeholder_node_id),
                    _ => None,
                },
                before,
                after,
                k.placeholder_node_id,
            ),
        }
    }

    /// A key without a placeholder is left alone; with one, the inner view is
    /// rebuilt on the stored key when there is one, and the world is left as
    /// it is when there is none.
    open spec fn rebuilds(
        self,
        parent: RendererNodeId<R>,
        key: Self::Key,
        before: RendererWorld<R>,
        after: RendererWorld<R>,
    ) -> bool {
        match key {
            Either::Right(_) => after == before,
            Either::Left(k) => match k.stored_key(before) {
                None => after == before,
                Some(vk) => exists|vk2: MV::Key, ph: RendererNodeId<R>, mid: RendererWorld<R>, inner: Option<MV::Key>|
                    #![trigger self.0.mutable_rebuilds(parent, vk2, ph, before, mid, inner)]
                    {
                        &&& cloned::<MV::Key>(vk, vk2)
                        &&& cloned::<RendererNodeId<R>>(k.placeholder_node_id, ph)
                        &&& self.0.mutable_rebuilds(parent, vk2, ph, before, mid, inner)
                        &&& match inner {
                            Some(nk) => k.stored_key(after) == Some(nk),
                            None => after == mid,
                        }
                    },
            },
        }
    }

    /// A placeholder is spawned (and the inner key stored on it) whenever a
    /// key was reserved, the view will be rebuilt, or the inner view asks for
    /// one; otherwise the inner view is built on its own.
    fn build(self, ctx: ViewCtx<R>, reserve_key: Option<Self::Key>, will_rebuild: bool) -> (r:
        Self::Key)
        ensures
            r is Left <== (will_rebuild || reserve_key is Some),
            (r is Left) == (will_rebuild || reserve_key is Some || !MV::no_placeholder_spec()),
    {
        let ghost this = self;
        let world = ctx.world;
        let parent = ctx.parent;
        let reserved = reserve_key.is_some();
        let reserve_placeholder_node_id = match reserve_key {
            Some(Either::Left(n)) => Some(n.placeholder_node_id),
            _ => None,
        };
        if reserved || will_rebuild || !MV::no_placeholder_when_no_rebuild() {
            let ghost w0 = *world;
            let placeholder_node_id = world.spawn_placeholder(
                self.1,
                Some(&parent),
                reserve_placeholder_node_id,
            );
            let ghost spawned = *world;
            let p = parent.clone();
            let ph = placeholder_node_id.clone();
            let view_key = self.0.build(ViewCtx { world: &mut *world, parent: p }, Some(ph));
            let ghost built = *world;
            let ids = [placeholder_node_id.clone()];
            world.insert_before(Some(&parent), None, &ids);
            let ghost appended = *world;
            let key = VirtualContainerNodeId::<R, MV::Key>::new(placeholder_node_id);
            key.set_view_key(world, view_key);
            assert(this.0.mutable_builds(p, Some(ph), spawned, built, view_key));
            assert(built.inserts_nodes_before(Some(parent), None, &ids, appended));
            assert(builds_behind_placeholder::<R, MV>(
                this.0,
                this.1,
                parent,
                reserve_placeholder_node_id,
                w0,
                *world,
                key.placeholder_node_id,
            ));
            Either::Left(key)
        } else {
            let view_key = self.0.build(ViewCtx { world: &mut *world, parent }, None);
            Either::Right(view_key)
        }
    }

    /// Rebuilds the inner view with the key stored on the placeholder, and
    /// stores the new inner key when it changed.
    fn rebuild(self, ctx: ViewCtx<R>, key: Self::Key) {
        let world = ctx.world;
        let parent = ctx.parent;
        let ghost par = parent;
        if let Either::Left(key) = key {
            let view_key = match key.get_view_key(world) {
                Some(k) => Some(k.clone()),
                None => None,
            };
            if let Some(view_key) = view_key {
                let ghost w0 = *world;
                let ph = key.placeholder_node_id.clone();
                let result = self.0.rebuild(ViewCtx { world: &mut *world, parent }, view_key, ph);
                let ghost mid = *world;
                if let Some(new_view_key) = result {
                    key.set_view_key(world, new_view_key);
                }
                assert(self.0.mutable_rebuilds(par, view_key, ph, w0, mid, result));
            }
        }
    }
}

} // verus!
