use vstd::prelude::*;
use core::marker::PhantomData;
use crate::renderer::{state_put, NodeTree, Renderer, RendererNodeId, RendererWorld, ViewCtx, ViewMemberIndex};
use crate::view::{IntoView, XView};
use crate::element_view::{ElementView, SoloView};

verus! {

/// A single-node view with children built under its node.
pub fn view_children<R: Renderer, V: SoloView<R>, CV: IntoView<R>>(view: V, children: CV) -> (r:
    ElementViewChildren<V, CV::View, R>)
    ensures
        r.view == view,
        r.children == children.view_of(),
{
    ElementViewChildren { view, children: children.into_view(), _marker: PhantomData }
}

/// The key of the children, stored on the parent's node.
pub struct ElementViewChildrenState<K> {
    pub children_key: K,
}

impl<K: Clone> Clone for ElementViewChildrenState<K> {
    fn clone(&self) -> Self {
        ElementViewChildrenState { children_key: self.children_key.clone() }
    }
}

/// A single-node view and the children built under its node.
pub struct ElementViewChildren<V, CV, R> {
    pub view: V,
    pub children: CV,
    pub _marker: PhantomData<R>,
}

impl<V: Clone, CV: Clone, R> Clone for ElementViewChildren<V, CV, R> {
    fn clone(&self) -> Self {
        ElementViewChildren {
            view: self.view.clone(),
            children: self.children.clone(),
            _marker: PhantomData,
        }
    }
}

impl<V, CV, R: Renderer> ElementViewChildren<V, CV, R> {
    pub fn new(view: V, children: CV) -> (r: Self)
        ensures
            r.view == view,
            r.children == children,
    {
        ElementViewChildren { view, children, _marker: PhantomData }
    }

    /// Replaces the children.
    pub fn children<CV2>(self, children: CV2) -> (r: ElementViewChildren<V, CV2, R>)
        ensures
            r.view == self.view,
            r.children == children,
    {
        ElementViewChildren { view: self.view, children, _marker: PhantomData }
    }
}

impl<V: SoloView<R>, CV: XView<R>, R: Renderer> SoloView<R> for ElementViewChildren<V, CV, R> {
    open spec fn node_of(key: Self::Key) -> RendererNodeId<R> {
        V::node_of(key)
    }

    fn node_id(key: &Self::Key) -> &RendererNodeId<R> {
        V::node_id(key)
    }
}

impl<V: SoloView<R>, CV: XView<R>, R: Renderer> XView<R> for ElementViewChildren<V, CV, R> {
    type Key = V::Key;

    /// The view is built, then the children under its node; when the view
    /// will be rebuilt, the children's key is stored on that node.
    open spec fn builds(
        self,
        parent: RendererNodeId<R>,
        reserve_key: Option<Self::Key>,
        will_rebuild: bool,
        before: RendererWorld<R>,
        after: RendererWorld<R>,
        key: Self::Key,
    ) -> bool {
        exists|built: RendererWorld<R>, children_built: RendererWorld<R>, p: RendererNodeId<R>, children_key: CV::Key|
            #![trigger self.children.builds(p, None, will_rebuild, built, children_built, children_key)]
            {
                &&& self.view.builds(parent, reserve_key, will_rebuild, before, built, key)
                &&& cloned::<RendererNodeId<R>>(V::node_of(key), p)
                &&& self.children.builds(p, None, will_rebuild, built, children_built, children_key)
                &&& if will_rebuild {
                    state_put::<RendererWorld<R>, ElementViewChildrenState<CV::Key>>(
                        children_built,
                        V::node_of(key),
                        ElementViewChildrenState { children_key },
                        after,
                    )
                } else {
                    after == children_built
                }
            }
    }

    /// The children are rebuilt on the key stored on the view's node (left
    /// as they are when there is none), then the view.
    open spec fn rebuilds(
        self,
        parent: RendererNodeId<R>,
        key: Self::Key,
        before: RendererWorld<R>,
        after: RendererWorld<R>,
    ) -> bool {
        exists|mid: RendererWorld<R>|
            #![trigger self.view.rebuilds(parent, key, mid, after)]
            {
                &&& match before.node_state::<ElementViewChildrenState<CV::Key>>(V::node_of(key)) {
                    Some(st) => exists|children_key: CV::Key, p: RendererNodeId<R>|
                        #![trigger self.children.rebuilds(p, children_key, before, mid)]
                        {
                            &&& cloned::<CV::Key>(st.children_key, children_key)
                            &&& cloned::<RendererNodeId<R>>(V::node_of(key), p)
                            &&& self.children.rebuilds(p, children_key, before, mid)
                        },
                    None => mid == before,
                }
                &&& self.view.rebuilds(parent, key, mid, after)
            }
    }

    /// Builds the view, then the children under its node; when the view will
    /// be rebuilt, the children's key is stored on that node.
    fn build(self, ctx: ViewCtx<R>, reserve_key: Option<Self::Key>, will_rebuild: bool) -> Self::Key {
        let world = ctx.world;
        let key = self.view.build(ViewCtx { world: &mut *world, parent: ctx.parent }, reserve_key, will_rebuild);
        let ghost built = *world;
        let p = V::node_id(&key).clone();
        let children_key = self.children.build(ViewCtx { world: &mut *world, parent: p }, None, will_rebuild);
        let ghost children_built = *world;
        let ghost ck = children_key;
        if will_rebuild {
            world.set_node_state(V::node_id(&key), ElementViewChildrenState { children_key });
        }
        assert(self.children.builds(p, None, will_rebuild, built, children_built, ck));
        key
    }

    /// Rebuilds the children on the key stored on the view's node (when there
    /// is none, the children are left as they are), then the view.
    fn rebuild(self, ctx: ViewCtx<R>, state_key: Self::Key) {
        let world = ctx.world;
        let ghost w0 = *world;
        let children_key = match world.get_node_state_ref::<ElementViewChildrenState<CV::Key>>(
            V::node_id(&state_key),
        ) {
            Some(n) => Some(n.children_key.clone()),
            None => None,
        };
        if let Some(children_key) = children_key {
            let p = V::node_id(&state_key).clone();
            self.children.rebuild(ViewCtx { world: &mut *world, parent: p }, children_key);
            assert(self.children.rebuilds(p, children_key, w0, *world));
        }
        let ghost mid = *world;
        self.view.rebuild(ViewCtx { world, parent: ctx.parent }, state_key);
        assert(self.view.rebuilds(ctx.parent, state_key, mid, *world));
    }
}

impl<V: SoloView<R>, CV: XView<R>, R: Renderer> IntoView<R> for ElementViewChildren<V, CV, R> {
    type View = ElementViewChildren<V, CV, R>;

    open spec fn view_of(self) -> Self::View {
        self
    }

    fn into_view(self) -> (r: Self::View)
        ensures
            r == self,
    {
        self
    }
}

impl<V: ElementView<R>, CV: XView<R>, R: Renderer> ElementView<R> for ElementViewChildren<V, CV, R> {
    fn element_node_id(key: &Self::Key) -> &RendererNodeId<R> {
        V::node_id(key)
    }

    open spec fn member_count_spec(&self) -> ViewMemberIndex {
        self.view.member_count_spec()
    }

    fn member_count(&self) -> ViewMemberIndex {
        self.view.member_count()
    }
}

} // verus!
