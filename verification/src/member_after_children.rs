use vstd::prelude::*;
use core::marker::PhantomData;
use crate::renderer::{Renderer, RendererNodeId, RendererWorld, ViewCtx, ViewMemberCtx, ViewMemberIndex};
use crate::view::{IntoView, XView, ViewMember};
use crate::element_view::{ElementView, SoloView};

verus! {

/// An element view whose extra members are built after the element itself
/// (and so after its children), in the member slots that follow the
/// element's own.
#[derive(Debug)]
pub struct MemberAfterChildren<R, EV, VM> {
    pub element_view: EV,
    pub view_members: VM,
    pub _marker: PhantomData<R>,
}

impl<R, EV: Clone, VM: Clone> Clone for MemberAfterChildren<R, EV, VM> {
    fn clone(&self) -> Self {
        MemberAfterChildren {
            element_view: self.element_view.clone(),
            view_members: self.view_members.clone(),
            _marker: PhantomData,
        }
    }
}

impl<R: Renderer, EV: ElementView<R>, VM: ViewMember<R>> XView<R> for MemberAfterChildren<R, EV, VM> {
    type Key = EV::Key;

    /// The element is built, then the extra members on its node, starting at
    /// the slot after the element's own members.
    open spec fn builds(
        self,
        parent: RendererNodeId<R>,
        reserve_key: Option<Self::Key>,
        will_rebuild: bool,
        before: RendererWorld<R>,
        after: RendererWorld<R>,
        key: Self::Key,
    ) -> bool {
        exists|mid: RendererWorld<R>, n: RendererNodeId<R>|
            #![trigger self.view_members.member_builds(self.element_view.member_count_spec(), n, will_rebuild, mid, after)]
            {
                &&& self.element_view.builds(parent, reserve_key, will_rebuild, before, mid, key)
                &&& cloned::<RendererNodeId<R>>(EV::node_of(key), n)
                &&& self.view_members.member_builds(
                    self.element_view.member_count_spec(),
                    n,
                    will_rebuild,
                    mid,
                    after,
                )
            }
    }

    /// The extra members are rebuilt, then the element.
    open spec fn rebuilds(
        self,
        parent: RendererNodeId<R>,
        key: Self::Key,
        before: RendererWorld<R>,
        after: RendererWorld<R>,
    ) -> bool {
        exists|mid: RendererWorld<R>, n: RendererNodeId<R>|
            #![trigger self.view_members.member_rebuilds(self.element_view.member_count_spec(), n, before, mid)]
            {
                &&& cloned::<RendererNodeId<R>>(EV::node_of(key), n)
                &&& self.view_members.member_rebuilds(self.element_view.member_count_spec(), n, before, mid)
                &&& self.element_view.rebuilds(parent, key, mid, after)
            }
    }

    /// Builds the element, then the extra members on its node, starting at
    /// the slot after the element's own members.
    fn build(self, ctx: ViewCtx<R>, reserve_key: Option<Self::Key>, will_rebuild: bool) -> Self::Key {
        let MemberAfterChildren { element_view, view_members, .. } = self;
        let member_count = element_view.member_count();
        let world = ctx.world;
        let ghost ev = element_view;
        let ghost vm = view_members;
        let key = element_view.build(
            ViewCtx { world: &mut *world, parent: ctx.parent },
            reserve_key,
            will_rebuild,
        );
        let ghost mid = *world;
        let n = EV::element_node_id(&key).clone();
        view_members.build(ViewMemberCtx { index: member_count, world, node_id: n }, will_rebuild);
        assert(vm.member_builds(ev.member_count_spec(), n, will_rebuild, mid, *world));
        key
    }

    /// Rebuilds the extra members, then the element.
    fn rebuild(self, ctx: ViewCtx<R>, key: Self::Key) {
        let MemberAfterChildren { element_view, view_members, .. } = self;
        let member_count = element_view.member_count();
        let world = ctx.world;
        let ghost ev = element_view;
        let ghost vm = view_members;
        let ghost w0 = *world;
        let n = EV::element_node_id(&key).clone();
        view_members.rebuild(ViewMemberCtx { index: member_count, world: &mut *world, node_id: n });
        let ghost mid = *world;
        element_view.rebuild(ViewCtx { world, parent: ctx.parent }, key);
        assert(vm.member_rebuilds(ev.member_count_spec(), n, w0, mid));
    }
}

impl<R: Renderer, EV: ElementView<R>, VM: ViewMember<R>> IntoView<R> for MemberAfterChildren<R, EV, VM> {
    type View = MemberAfterChildren<R, EV, VM>;

    open spec fn view_of(self) -> Self::View {
        self
    }

    fn into_view(self) -> (r: Self::View)
        ensures
            r == self,
    {
        self
    }
}

impl<R: Renderer, EV: ElementView<R>, VM: ViewMember<R>> SoloView<R> for MemberAfterChildren<R, EV, VM> {
    open spec fn node_of(key: Self::Key) -> RendererNodeId<R> {
        EV::node_of(key)
    }

    fn node_id(key: &Self::Key) -> &RendererNodeId<R> {
        EV::node_id(key)
    }
}

impl<R: Renderer, EV: ElementView<R>, VM: ViewMember<R>> ElementView<R> for MemberAfterChildren<
    R,
    EV,
    VM,
> {
    open spec fn member_count_spec(&self) -> ViewMemberIndex {
        self.element_view.member_count_spec()
    }

    /// The slots of the element's own members; the extra members come after.
    fn member_count(&self) -> ViewMemberIndex {
        self.element_view.member_count()
    }
}

/// Adds members that are built after the element's children.
pub trait MemberAfterChildrenExt<R: Renderer>: ElementView<R> {
    fn member_after_children<T: ViewMember<R>>(self, member: T) -> (r: MemberAfterChildren<
        R,
        Self,
        T,
    >)
        ensures
            r.element_view == self,
            r.view_members == member,
    {
        MemberAfterChildren { element_view: self, view_members: member, _marker: PhantomData }
    }
}

impl<R: Renderer, EV: ElementView<R>> MemberAfterChildrenExt<R> for EV {

}

} // verus!
