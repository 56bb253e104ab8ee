use vstd::prelude::*;
use crate::renderer::{Renderer, RendererNodeId, RendererWorld, ViewCtx};
use crate::view::{MutableView, MutableViewKey, ViewKey, XView, IntoView};

verus! {

/// Wraps a view (or a view key) so that it can stand where a mutable view (or
/// a mutable view key) is expected.
#[derive(Clone, Debug, PartialEq)]
pub struct ToMutableWrapper<T>(pub T);

pub fn to_mutable<T>(t: T) -> (r: ToMutableWrapper<T>)
    ensures
        r.0 == t,
{
    ToMutableWrapper(t)
}

impl<VK: ViewKey<R>, R: Renderer> MutableViewKey<R> for ToMutableWrapper<VK> {
    open spec fn mutable_removes(&self, before: RendererWorld<R>, after: RendererWorld<R>) -> bool {
        self.0.view_removes(before, after)
    }

    open spec fn mutable_inserts_before(
        &self,
        before: RendererWorld<R>,
        parent: Option<RendererNodeId<R>>,
        before_node_id: Option<RendererNodeId<R>>,
        after: RendererWorld<R>,
    ) -> bool {
        self.0.view_inserts_before(before, parent, before_node_id, after)
    }

    open spec fn mutable_sets_visibility(&self, before: RendererWorld<R>, hidden: bool, after: RendererWorld<R>) -> bool {
        self.0.view_sets_visibility(before, hidden, after)
    }

    open spec fn mutable_first_node(&self, world: RendererWorld<R>) -> Option<RendererNodeId<R>> {
        self.0.view_first_node(world)
    }

    open spec fn mutable_state_node(&self) -> Option<RendererNodeId<R>> {
        self.0.view_state_node()
    }

    fn remove(self, world: &mut RendererWorld<R>) {
        self.0.remove(world)
    }

    fn insert_before(
        &self,
        world: &mut RendererWorld<R>,
        parent: Option<&RendererNodeId<R>>,
        before_node_id: Option<&RendererNodeId<R>>,
    ) {
        self.0.insert_before(world, parent, before_node_id)
    }

    fn set_visibility(&self, world: &mut RendererWorld<R>, hidden: bool) {
        self.0.set_visibility(world, hidden)
    }

    fn first_node_id(&self, world: &RendererWorld<R>) -> Option<RendererNodeId<R>> {
        self.0.first_node_id(world)
    }

    fn state_node_id(&self) -> Option<RendererNodeId<R>> {
        self.0.state_node_id()
    }
}

impl<R: Renderer, V: XView<R>> MutableView<R> for ToMutableWrapper<V> {
    type Key = ToMutableWrapper<V::Key>;

    open spec fn no_placeholder_spec() -> bool {
        true
    }

    fn no_placeholder_when_no_rebuild() -> (r: bool)
        ensures
            r,
    {
        true
    }

    /// The plain view is built, to be rebuilt when there is a placeholder.
    open spec fn mutable_builds(
        self,
        parent: RendererNodeId<R>,
        placeholder_node_id: Option<RendererNodeId<R>>,
        before: RendererWorld<R>,
        after: RendererWorld<R>,
        key: Self::Key,
    ) -> bool {
        self.0.builds(parent, None, placeholder_node_id is Some, before, after, key.0)
    }

    /// The plain view is rebuilt on its key, which does not change.
    open spec fn mutable_rebuilds(
        self,
        parent: RendererNodeId<R>,
        key: Self::Key,
        placeholder_node_id: RendererNodeId<R>,
        before: RendererWorld<R>,
        after: RendererWorld<R>,
        r: Option<Self::Key>,
    ) -> bool {
        &&& r is None
        &&& self.0.rebuilds(parent, key.0, before, after)
    }

    fn build(self, ctx: ViewCtx<R>, placeholder_node_id: Option<RendererNodeId<R>>) -> Self::Key {
        ToMutableWrapper(self.0.build(ctx, None, placeholder_node_id.is_some()))
    }

    /// The key of a plain view never changes, so no new key is given back.
    fn rebuild(
        self,
        ctx: ViewCtx<R>,
        key: Self::Key,
        placeholder_node_id: RendererNodeId<R>,
    ) -> (r: Option<Self::Key>)
        ensures
            r is None,
    {
        self.0.rebuild(ctx, key.0);
        None
    }
}

/// Turns a view into something that converts into that very view.
pub struct ToIntoView<T>(pub T);

impl<R: Renderer, T: XView<R>> IntoView<R> for ToIntoView<T> {
    type View = T;

    open spec fn view_of(self) -> T {
        self.0
    }

    fn into_view(self) -> (r: T)
        ensures
            r == self.0,
    {
        self.0
    }
}

pub fn into_view<R: Renderer, V: XView<R>>(view: V) -> (r: ToIntoView<V>)
    ensures
        r.0 == view,
{
    ToIntoView(view)
}

} // verus!
