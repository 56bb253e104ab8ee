use vstd::prelude::*;
use core::marker::PhantomData;
use crate::either::Either;
use crate::renderer::{Renderer, RendererNodeId, RendererWorld, ViewCtx, ViewMemberCtx, ViewMemberIndex};
use crate::to_mutable::{ToMutableWrapper, to_mutable};
use crate::view::{IntoView, MutableView, MutableViewKey, ViewMember};
use crate::virtual_container::{VirtualContainer, virtual_container};

verus! {

/// Whether `after` is `before` once the view of `key` is removed and `view`
/// is built in its place (behind `placeholder_node_id`), `new_key` being its
/// key.
pub open spec fn changes<R: Renderer, K: MutableViewKey<R>, V: MutableView<R>>(
    key: K,
    view: V,
    parent: RendererNodeId<R>,
    placeholder_node_id: RendererNodeId<R>,
    before: RendererWorld<R>,
    after: RendererWorld<R>,
    new_key: V::Key,
) -> bool {
    exists|removed: RendererWorld<R>, built: RendererWorld<R>, p: RendererNodeId<R>, ph: RendererNodeId<R>|
        #![trigger view.mutable_builds(p, Some(ph), removed, built, new_key)]
        {
            &&& key.mutable_removes(before, removed)
            &&& cloned::<RendererNodeId<R>>(parent, p)
            &&& cloned::<RendererNodeId<R>>(placeholder_node_id, ph)
            &&& view.mutable_builds(p, Some(ph), removed, built, new_key)
            &&& new_key.mutable_inserts_before(built, Some(parent), Some(placeholder_node_id), after)
        }
}

/// Replaces the built view of one side by a freshly built view of the other
/// side, put where the placeholder is.
fn change<R: Renderer, K: MutableViewKey<R>, V: MutableView<R>>(
    key: K,
    view: V,
    ctx: ViewCtx<R>,
    state_node_id: RendererNodeId<R>,
) -> (r: V::Key)
    ensures
        changes::<R, K, V>(key, view, ctx.parent, state_node_id, *old(ctx.world), *final(ctx.world), r),
{
    let world = ctx.world;
    let parent = ctx.parent;
    key.remove(world);
    let ghost removed = *world;
    let p = parent.clone();
    let ph = state_node_id.clone();
    let new_key = view.build(ViewCtx { world: &mut *world, parent: p }, Some(ph));
    let ghost built = *world;
    new_key.insert_before(world, Some(&parent), Some(&state_node_id));
    assert(view.mutable_builds(p, Some(ph), removed, built, new_key));
    new_key
}

impl<R: Renderer, LV: MutableView<R>, RV: MutableView<R>> MutableView<R> for Either<LV, RV> {
    type Key = Either<LV::Key, RV::Key>;

    open spec fn no_placeholder_spec() -> bool {
        LV::no_placeholder_spec() && RV::no_placeholder_spec()
    }

    fn no_placeholder_when_no_rebuild() -> bool {
        LV::no_placeholder_when_no_rebuild() && RV::no_placeholder_when_no_rebuild()
    }

    /// The side that is held is built.
    open spec fn mutable_builds(
        self,
        parent: RendererNodeId<R>,
        placeholder_node_id: Option<RendererNodeId<R>>,
        before: RendererWorld<R>,
        after: RendererWorld<R>,
        key: Self::Key,
    ) -> bool {
        match (self, key) {
            (Either::Left(v), Either::Left(k)) => v.mutable_builds(parent, placeholder_node_id, before, after, k),
            (Either::Right(v), Either::Right(k)) => v.mutable_builds(parent, placeholder_node_id, before, after, k),
            _ => false,
        }
    }

    /// The same side is rebuilt in place (giving back its new key, if any,
    /// on that side); a change of side replaces the old view.
    open spec fn mutable_rebuilds(
        self,
        parent: RendererNodeId<R>,
        key: Self::Key,
        placeholder_node_id: RendererNodeId<R>,
        before: RendererWorld<R>,
        after: RendererWorld<R>,
        r: Option<Self::Key>,
    ) -> bool {
        match (key, self) {
            (Either::Left(k), Either::Left(v)) => exists|inner: Option<LV::Key>|
                #![trigger v.mutable_rebuilds(parent, k, placeholder_node_id, before, after, inner)]
                {
                    &&& v.mutable_rebuilds(parent, k, placeholder_node_id, before, after, inner)
                    &&& r == match inner {
                        Some(x) => Some(Either::<LV::Key, RV::Key>::Left(x)),
                        None => None,
                    }
                },
            (Either::Right(k), Either::Right(v)) => exists|inner: Option<RV::Key>|
                #![trigger v.mutable_rebuilds(parent, k, placeholder_node_id, before, after, inner)]
                {
                    &&& v.mutable_rebuilds(parent, k, placeholder_node_id, before, after, inner)
                    &&& r == match inner {
                        Some(x) => Some(Either::<LV::Key, RV::Key>::Right(x)),
                        None => None,
                    }
                },
            (Either::Left(k), Either::Right(v)) => {
                &&& r matches Some(Either::Right(_))
                &&& changes::<R, LV::Key, RV>(k, v, parent, placeholder_node_id, before, after, r->0->Right_0)
            },
            (Either::Right(k), Either::Left(v)) => {
                &&& r matches Some(Either::Left(_))
                &&& changes::<R, RV::Key, LV>(k, v, parent, placeholder_node_id, before, after, r->0->Left_0)
            },
        }
    }

    fn build(self, ctx: ViewCtx<R>, placeholder_node_id: Option<RendererNodeId<R>>) -> (r:
        Self::Key)
        ensures
            (r is Left) == (self is Left),
    {
        match self {
            Either::Left(r) => Either::Left(r.build(ctx, placeholder_node_id)),
            Either::Right(r) => Either::Right(r.build(ctx, placeholder_node_id)),
        }
    }

    /// The same side is rebuilt in place (and gives back a new key only when
    /// its own key changed); a change of side replaces the old view.
    fn rebuild(
        self,
        ctx: ViewCtx<R>,
        key: Self::Key,
        placeholder_node_id: RendererNodeId<R>,
    ) -> (r: Option<Self::Key>)
        ensures
            (key is Left) != (self is Left) ==> r is Some,
            r matches Some(k) ==> (k is Left) == (self is Left),
    {
        match (key, self) {
            (Either::Left(key), Either::Left(view)) => {
                match view.rebuild(ctx, key, placeholder_node_id) {
                    Some(k) => Some(Either::Left(k)),
                    None => None,
                }
            },
            (Either::Right(key), Either::Right(view)) => {
                match view.rebuild(ctx, key, placeholder_node_id) {
                    Some(k) => Some(Either::Right(k)),
                    None => None,
                }
            },
            (Either::Left(key), Either::Right(view)) => {
                Some(Either::Right(change(key, view, ctx, placeholder_node_id)))
            },
            (Either::Right(key), Either::Left(view)) => {
                Some(Either::Left(change(key, view, ctx, placeholder_node_id)))
            },
        }
    }
}

impl<LK: MutableViewKey<R>, RK: MutableViewKey<R>, R: Renderer> MutableViewKey<R> for Either<
    LK,
    RK,
> {
    open spec fn mutable_removes(&self, before: RendererWorld<R>, after: RendererWorld<R>) -> bool {
        match self {
            Either::Left(l) => l.mutable_removes(before, after),
            Either::Right(r) => r.mutable_removes(before, after),
        }
    }

    open spec fn mutable_inserts_before(
        &self,
        before: RendererWorld<R>,
        parent: Option<RendererNodeId<R>>,
        before_node_id: Option<RendererNodeId<R>>,
        after: RendererWorld<R>,
    ) -> bool {
        match self {
            Either::Left(l) => l.mutable_inserts_before(before, parent, before_node_id, after),
            Either::Right(r) => r.mutable_inserts_before(before, parent, before_node_id, after),
        }
    }

    open spec fn mutable_sets_visibility(&self, before: RendererWorld<R>, hidden: bool, after: RendererWorld<R>) -> bool {
        match self {
            Either::Left(l) => l.mutable_sets_visibility(before, hidden, after),
            Either::Right(r) => r.mutable_sets_visibility(before, hidden, after),
        }
    }

    open spec fn mutable_first_node(&self, world: RendererWorld<R>) -> Option<RendererNodeId<R>> {
        match self {
            Either::Left(l) => l.mutable_first_node(world),
            Either::Right(r) => r.mutable_first_node(world),
        }
    }

    open spec fn mutable_state_node(&self) -> Option<RendererNodeId<R>> {
        match self {
            Either::Left(l) => l.mutable_state_node(),
            Either::Right(r) => r.mutable_state_node(),
        }
    }

    fn remove(self, world: &mut RendererWorld<R>) {
        match self {
            Either::Left(l) => l.remove(world),
            Either::Right(r) => r.remove(world),
        }
    }

    fn insert_before(
        &self,
        world: &mut RendererWorld<R>,
        parent: Option<&RendererNodeId<R>>,
        before_node_id: Option<&RendererNodeId<R>>,
    ) {
        match self {
            Either::Left(l) => l.insert_before(world, parent, before_node_id),
            Either::Right(r) => r.insert_before(world, parent, before_node_id),
        }
    }

    fn set_visibility(&self, world: &mut RendererWorld<R>, hidden: bool) {
        match self {
            Either::Left(l) => l.set_visibility(world, hidden),
            Either::Right(r) => r.set_visibility(world, hidden),
        }
    }

    fn first_node_id(&self, world: &RendererWorld<R>) -> Option<RendererNodeId<R>> {
        match self {
            Either::Left(l) => l.first_node_id(world),
            Either::Right(r) => r.first_node_id(world),
        }
    }

    fn state_node_id(&self) -> Option<RendererNodeId<R>> {
        match self {
            Either::Left(l) => l.state_node_id(),
            Either::Right(r) => r.state_node_id(),
        }
    }
}

impl<R: Renderer, LV: IntoView<R>, RV: IntoView<R>> IntoView<R> for Either<LV, RV> {
    type View = VirtualContainer<
        R,
        Either<ToMutableWrapper<LV::View>, ToMutableWrapper<RV::View>>,
    >;

    open spec fn view_of(self) -> Self::View {
        VirtualContainer(
            match self {
                Either::Left(n) => Either::Left(ToMutableWrapper(n.view_of())),
                Either::Right(n) => Either::Right(ToMutableWrapper(n.view_of())),
            },
            "[Either Placeholder]",
            PhantomData,
        )
    }

    fn into_view(self) -> (r: Self::View)
        ensures
            (r.0 is Left) == (self is Left),
    {
        virtual_container(
            match self {
                Either::Left(n) => Either::Left(to_mutable(n.into_view())),
                Either::Right(n) => Either::Right(to_mutable(n.into_view())),
            },
            "[Either Placeholder]",
        )
    }
}

impl<R: Renderer, LVM: ViewMember<R>, RVM: ViewMember<R>> ViewMember<R> for Either<LVM, RVM> {
    /// Twice the member count of the left side (wrapping on overflow).
    open spec fn count_spec() -> ViewMemberIndex {
        vstd::wrapping::u32_specs::wrapping_add(LVM::count_spec(), LVM::count_spec())
    }

    fn count() -> ViewMemberIndex {
        LVM::count().wrapping_add(LVM::count())
    }

    open spec fn unbuilds(
        index: ViewMemberIndex,
        node_id: RendererNodeId<R>,
        view_removed: bool,
        before: RendererWorld<R>,
        after: RendererWorld<R>,
    ) -> bool {
        exists|mid: RendererWorld<R>, first_node: RendererNodeId<R>|
            #![trigger LVM::unbuilds(index, first_node, view_removed, before, mid)]
            {
                &&& cloned::<RendererNodeId<R>>(node_id, first_node)
                &&& LVM::unbuilds(index, first_node, view_removed, before, mid)
                &&& RVM::unbuilds(
                    vstd::wrapping::u32_specs::wrapping_add(index, LVM::count_spec()),
                    node_id,
                    view_removed,
                    mid,
                    after,
                )
            }
    }

    /// Unbuilds both sides: the left at this index, the right after the
    /// left's members.
    fn unbuild(ctx: ViewMemberCtx<R>, view_removed: bool) {
        let world = ctx.world;
        let node_id = ctx.node_id;
        let ghost w0 = *world;
        let first_node = node_id.clone();
        LVM::unbuild(
            ViewMemberCtx { index: ctx.index, world: &mut *world, node_id: first_node },
            view_removed,
        );
        let ghost mid = *world;
        RVM::unbuild(
            ViewMemberCtx { index: ctx.index.wrapping_add(LVM::count()), world, node_id },
            view_removed,
        );
        assert(LVM::unbuilds(ctx.index, first_node, view_removed, w0, mid));
    }

    open spec fn member_builds(
        self,
        index: ViewMemberIndex,
        node_id: RendererNodeId<R>,
        will_rebuild: bool,
        before: RendererWorld<R>,
        after: RendererWorld<R>,
    ) -> bool {
        match self {
            Either::Left(l) => l.member_builds(index, node_id, will_rebuild, before, after),
            Either::Right(r) => r.member_builds(index, node_id, will_rebuild, before, after),
        }
    }

    /// The side that is not held is unbuilt, then the side that is held is
    /// rebuilt.
    open spec fn member_rebuilds(
        self,
        index: ViewMemberIndex,
        node_id: RendererNodeId<R>,
        before: RendererWorld<R>,
        after: RendererWorld<R>,
    ) -> bool {
        exists|mid: RendererWorld<R>, other_node: RendererNodeId<R>|
            #![trigger self.other_side_unbuilds(index, other_node, before, mid)]
            {
                &&& cloned::<RendererNodeId<R>>(node_id, other_node)
                &&& self.other_side_unbuilds(index, other_node, before, mid)
                &&& match self {
                    Either::Left(l) => l.member_rebuilds(index, node_id, mid, after),
                    Either::Right(r) => r.member_rebuilds(index, node_id, mid, after),
                }
            }
    }

    fn build(self, ctx: ViewMemberCtx<R>, will_rebuild: bool) {
        match self {
            Either::Left(l) => l.build(ctx, will_rebuild),
            Either::Right(r) => r.build(ctx, will_rebuild),
        }
    }

    /// Unbuilds the side that is not held, then rebuilds the side that is.
    fn rebuild(self, ctx: ViewMemberCtx<R>) {
        let world = ctx.world;
        let node_id = ctx.node_id;
        let index = ctx.index;
        let ghost w0 = *world;
        let ghost this = self;
        let other_node = node_id.clone();
        match self {
            Either::Left(l) => {
                RVM::unbuild(
                    ViewMemberCtx {
                        index: index.wrapping_add(LVM::count()),
                        world: &mut *world,
                        node_id: other_node,
                    },
                    false,
                );
                let ghost mid = *world;
                l.rebuild(ViewMemberCtx { index, world, node_id });
                assert(this.other_side_unbuilds(index, other_node, w0, mid));
            },
            Either::Right(r) => {
                LVM::unbuild(ViewMemberCtx { index, world: &mut *world, node_id: other_node }, false);
                let ghost mid = *world;
                r.rebuild(ViewMemberCtx { index, world, node_id });
                assert(this.other_side_unbuilds(index, other_node, w0, mid));
            },
        }
    }
}

impl<LVM, RVM> Either<LVM, RVM> {
    /// The side that is not held is unbuilt: the right one after the left
    /// one's members, or the left one at `index`.
    pub open spec fn other_side_unbuilds<R: Renderer>(
        self,
        index: ViewMemberIndex,
        node_id: RendererNodeId<R>,
        before: RendererWorld<R>,
        after: RendererWorld<R>,
    ) -> bool
        where LVM: ViewMember<R>, RVM: ViewMember<R>,
    {
        match self {
            Either::Left(_) => RVM::unbuilds(
                vstd::wrapping::u32_specs::wrapping_add(index, LVM::count_spec()),
                node_id,
                false,
                before,
                after,
            ),
            Either::Right(_) => LVM::unbuilds(index, node_id, false, before, after),
        }
    }
}

impl<R: Renderer, IV: IntoView<R>> IntoView<R> for Option<IV> {
    type View = VirtualContainer<R, Option<ToMutableWrapper<IV::View>>>;

    /// A view that is there or not, behind a placeholder.
    open spec fn view_of(self) -> Self::View {
        VirtualContainer(
            match self {
                Some(n) => Some(ToMutableWrapper(n.view_of())),
                None => None,
            },
            "[Option Placeholder]",
            PhantomData,
        )
    }

    fn into_view(self) -> (r: Self::View)
        ensures
            (r.0 is Some) == (self is Some),
    {
        virtual_container(
            match self {
                Some(n) => Some(to_mutable(n.into_view())),
                None => None,
            },
            "[Option Placeholder]",
        )
    }
}

/// The side of an `Either` that a `Result` holds: `Ok` on the left.
fn result_side<T, E>(r: Result<T, E>) -> (e: Either<T, E>)
    ensures
        e == (match r {
            Ok(t) => Either::<T, E>::Left(t),
            Err(x) => Either::<T, E>::Right(x),
        }),
{
    match r {
        Ok(t) => Either::Left(t),
        Err(x) => Either::Right(x),
    }
}

impl<R: Renderer, T: IntoView<R>, E: IntoView<R>> IntoView<R> for Result<T, E> {
    type View = <Either<T, E> as IntoView<R>>::View;

    open spec fn view_of(self) -> Self::View {
        match self {
            Ok(t) => Either::<T, E>::Left(t).view_of(),
            Err(x) => Either::<T, E>::Right(x).view_of(),
        }
    }

    /// The view of the side that the result holds.
    fn into_view(self) -> Self::View {
        result_side(self).into_view()
    }
}

impl<R: Renderer, T: ViewMember<R>, E: ViewMember<R>> ViewMember<R> for Result<T, E> {
    /// The member counts of both sides together (wrapping on overflow).
    open spec fn count_spec() -> ViewMemberIndex {
        vstd::wrapping::u32_specs::wrapping_add(T::count_spec(), E::count_spec())
    }

    fn count() -> ViewMemberIndex {
        T::count().wrapping_add(E::count())
    }

    open spec fn unbuilds(
        index: ViewMemberIndex,
        node_id: RendererNodeId<R>,
        view_removed: bool,
        before: RendererWorld<R>,
        after: RendererWorld<R>,
    ) -> bool {
        exists|mid: RendererWorld<R>, first_node: RendererNodeId<R>|
            #![trigger T::unbuilds(index, first_node, view_removed, before, mid)]
            {
                &&& cloned::<RendererNodeId<R>>(node_id, first_node)
                &&& T::unbuilds(index, first_node, view_removed, before, mid)
                &&& E::unbuilds(
                    vstd::wrapping::u32_specs::wrapping_add(index, T::count_spec()),
                    node_id,
                    view_removed,
                    mid,
                    after,
                )
            }
    }

    /// Unbuilds both sides: the `Ok` side at this index, the `Err` side after
    /// the `Ok` side's members.
    fn unbuild(ctx: ViewMemberCtx<R>, view_removed: bool) {
        let world = ctx.world;
        let node_id = ctx.node_id;
        let ghost w0 = *world;
        let first_node = node_id.clone();
        T::unbuild(
            ViewMemberCtx { index: ctx.index, world: &mut *world, node_id: first_node },
            view_removed,
        );
        let ghost mid = *world;
        E::unbuild(
            ViewMemberCtx { index: ctx.index.wrapping_add(T::count()), world, node_id },
            view_removed,
        );
        assert(T::unbuilds(ctx.index, first_node, view_removed, w0, mid));
    }

    open spec fn member_builds(
        self,
        index: ViewMemberIndex,
        node_id: RendererNodeId<R>,
        will_rebuild: bool,
        before: RendererWorld<R>,
        after: RendererWorld<R>,
    ) -> bool {
        match self {
            Ok(t) => Either::<T, E>::Left(t).member_builds(index, node_id, will_rebuild, before, after),
            Err(x) => Either::<T, E>::Right(x).member_builds(index, node_id, will_rebuild, before, after),
        }
    }

    open spec fn member_rebuilds(
        self,
        index: ViewMemberIndex,
        node_id: RendererNodeId<R>,
        before: RendererWorld<R>,
        after: RendererWorld<R>,
    ) -> bool {
        match self {
            Ok(t) => Either::<T, E>::Left(t).member_rebuilds(index, node_id, before, after),
            Err(x) => Either::<T, E>::Right(x).member_rebuilds(index, node_id, before, after),
        }
    }

    fn build(self, ctx: ViewMemberCtx<R>, will_rebuild: bool) {
        result_side(self).build(ctx, will_rebuild);
    }

    fn rebuild(self, ctx: ViewMemberCtx<R>) {
        result_side(self).rebuild(ctx);
    }
}

} // verus!
