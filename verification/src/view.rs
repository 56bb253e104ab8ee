use vstd::prelude::*;
use crate::renderer::{opt_node, same_node, Renderer, RendererNodeId, RendererWorld, ViewCtx, ViewMemberCtx, ViewMemberIndex};

verus! {

/// The handle of a built view: what is needed to move, hide or remove it.
pub trait ViewKey<R: Renderer>: Clone + Sized + 'static {
    /// Whether `after` is `before` once the view's nodes are removed.
    spec fn view_removes(&self, before: RendererWorld<R>, after: RendererWorld<R>) -> bool;

    /// Whether `after` is `before` once the view's nodes are moved under
    /// `parent`, before `before_node_id`.
    spec fn view_inserts_before(
        &self,
        before: RendererWorld<R>,
        parent: Option<RendererNodeId<R>>,
        before_node_id: Option<RendererNodeId<R>>,
        after: RendererWorld<R>,
    ) -> bool;

    /// Whether `after` is `before` once the view's nodes are hidden (or shown).
    spec fn view_sets_visibility(&self, before: RendererWorld<R>, hidden: bool, after: RendererWorld<R>) -> bool;

    /// The node that holds the view's state, if any.
    spec fn view_state_node(&self) -> Option<RendererNodeId<R>>;

    /// The first node of the view in `world`, if any.
    spec fn view_first_node(&self, world: RendererWorld<R>) -> Option<RendererNodeId<R>>;

    /// Whether `after` is `before` once `key` is reserved under `parent`.
    spec fn view_reserves(
        before: RendererWorld<R>,
        will_rebuild: bool,
        parent: RendererNodeId<R>,
        spawn: bool,
        after: RendererWorld<R>,
        key: Self,
    ) -> bool;

    fn remove(self, world: &mut RendererWorld<R>)
        ensures
            self.view_removes(*old(world), *final(world)),
    ;

    fn insert_before(
        &self,
        world: &mut RendererWorld<R>,
        parent: Option<&RendererNodeId<R>>,
        before_node_id: Option<&RendererNodeId<R>>,
    )
        ensures
            self.view_inserts_before(*old(world), opt_node(parent), opt_node(before_node_id), *final(world)),
    ;

    fn set_visibility(&self, world: &mut RendererWorld<R>, hidden: bool)
        ensures
            self.view_sets_visibility(*old(world), hidden, *final(world)),
    ;

    fn state_node_id(&self) -> (r: Option<RendererNodeId<R>>)
        ensures
            same_node(self.view_state_node(), r),
    ;

    fn reserve_key(
        world: &mut RendererWorld<R>,
        will_rebuild: bool,
        parent: RendererNodeId<R>,
        spawn: bool,
    ) -> (r: Self)
        ensures
            Self::view_reserves(*old(world), will_rebuild, parent, spawn, *final(world), r),
    ;

    fn first_node_id(&self, world: &RendererWorld<R>) -> (r: Option<RendererNodeId<R>>)
        ensures
            same_node(self.view_first_node(*world), r),
    ;
}

/// Whether `after` is `before` once the views of `keys` are removed, in order.
pub open spec fn removes_in_order<R: Renderer, K: ViewKey<R>>(
    keys: Seq<K>,
    before: RendererWorld<R>,
    after: RendererWorld<R>,
) -> bool
    decreases keys.len(),
{
    if keys.len() == 0 {
        after == before
    } else {
        exists|mid: RendererWorld<R>|
            #![trigger keys.last().view_removes(mid, after)]
            {
                &&& removes_in_order::<R, K>(keys.drop_last(), before, mid)
                &&& keys.last().view_removes(mid, after)
            }
    }
}

/// Whether `after` is `before` once the views of `keys` are moved, in order,
/// under `parent` before `before_node_id`.
pub open spec fn inserts_in_order<R: Renderer, K: ViewKey<R>>(
    keys: Seq<K>,
    before: RendererWorld<R>,
    parent: Option<RendererNodeId<R>>,
    before_node_id: Option<RendererNodeId<R>>,
    after: RendererWorld<R>,
) -> bool
    decreases keys.len(),
{
    if keys.len() == 0 {
        after == before
    } else {
        exists|mid: RendererWorld<R>|
            #![trigger keys.last().view_inserts_before(mid, parent, before_node_id, after)]
            {
                &&& inserts_in_order::<R, K>(keys.drop_last(), before, parent, before_node_id, mid)
                &&& keys.last().view_inserts_before(mid, parent, before_node_id, after)
            }
    }
}

/// Whether `after` is `before` once the views of `keys` are hidden (or
/// shown), in order.
pub open spec fn sets_visibility_in_order<R: Renderer, K: ViewKey<R>>(
    keys: Seq<K>,
    before: RendererWorld<R>,
    hidden: bool,
    after: RendererWorld<R>,
) -> bool
    decreases keys.len(),
{
    if keys.len() == 0 {
        after == before
    } else {
        exists|mid: RendererWorld<R>|
            #![trigger keys.last().view_sets_visibility(mid, hidden, after)]
            {
                &&& sets_visibility_in_order::<R, K>(keys.drop_last(), before, hidden, mid)
                &&& keys.last().view_sets_visibility(mid, hidden, after)
            }
    }
}

/// The first node of the first view at or after position `j` of `keys` that
/// has one.
pub open spec fn first_node_from<R: Renderer, K: ViewKey<R>>(
    keys: Seq<K>,
    j: int,
    world: RendererWorld<R>,
) -> Option<RendererNodeId<R>>
    decreases keys.len() - j,
{
    if j < 0 || j >= keys.len() {
        None
    } else {
        match keys[j].view_first_node(world) {
            Some(id) => Some(id),
            None => first_node_from::<R, K>(keys, j + 1, world),
        }
    }
}

/// One more removal extends a run of removals.
pub proof fn lemma_removes_step<R: Renderer, K: ViewKey<R>>(
    keys: Seq<K>,
    before: RendererWorld<R>,
    mid: RendererWorld<R>,
    after: RendererWorld<R>,
)
    requires
        keys.len() > 0,
        removes_in_order::<R, K>(keys.drop_last(), before, mid),
        keys.last().view_removes(mid, after),
    ensures
        removes_in_order::<R, K>(keys, before, after),
{
}

/// One more move extends a run of moves.
pub proof fn lemma_inserts_step<R: Renderer, K: ViewKey<R>>(
    keys: Seq<K>,
    before: RendererWorld<R>,
    parent: Option<RendererNodeId<R>>,
    before_node_id: Option<RendererNodeId<R>>,
    mid: RendererWorld<R>,
    after: RendererWorld<R>,
)
    requires
        keys.len() > 0,
        inserts_in_order::<R, K>(keys.drop_last(), before, parent, before_node_id, mid),
        keys.last().view_inserts_before(mid, parent, before_node_id, after),
    ensures
        inserts_in_order::<R, K>(keys, before, parent, before_node_id, after),
{
}

/// One more change of visibility extends a run of them.
pub proof fn lemma_sets_visibility_step<R: Renderer, K: ViewKey<R>>(
    keys: Seq<K>,
    before: RendererWorld<R>,
    hidden: bool,
    mid: RendererWorld<R>,
    after: RendererWorld<R>,
)
    requires
        keys.len() > 0,
        sets_visibility_in_order::<R, K>(keys.drop_last(), before, hidden, mid),
        keys.last().view_sets_visibility(mid, hidden, after),
    ensures
        sets_visibility_in_order::<R, K>(keys, before, hidden, after),
{
}

/// Whether `after` is `before` once `view` is built behind the placeholder
/// and its nodes put before it, `key` being its key.
pub open spec fn builds_before_placeholder<R: Renderer, V: MutableView<R>>(
    view: V,
    parent: RendererNodeId<R>,
    placeholder_node_id: RendererNodeId<R>,
    before: RendererWorld<R>,
    after: RendererWorld<R>,
    key: V::Key,
) -> bool {
    exists|mid: RendererWorld<R>, p: RendererNodeId<R>, ph: RendererNodeId<R>|
        #![trigger view.mutable_builds(p, Some(ph), before, mid, key)]
        {
            &&& cloned::<RendererNodeId<R>>(parent, p)
            &&& cloned::<RendererNodeId<R>>(placeholder_node_id, ph)
            &&& view.mutable_builds(p, Some(ph), before, mid, key)
            &&& key.mutable_inserts_before(mid, Some(parent), Some(placeholder_node_id), after)
        }
}

/// A view: built once into the world, then rebuilt in place.
pub trait XView<R: Renderer>: Sized + 'static {
    type Key: ViewKey<R>;

    /// Whether `after` is `before` once the view is built under `parent`
    /// (on the reserved key, if any), `key` being its key.
    spec fn builds(
        self,
        parent: RendererNodeId<R>,
        reserve_key: Option<Self::Key>,
        will_rebuild: bool,
        before: RendererWorld<R>,
        after: RendererWorld<R>,
        key: Self::Key,
    ) -> bool;

    /// Whether `after` is `before` once the view is rebuilt on `key`.
    spec fn rebuilds(
        self,
        parent: RendererNodeId<R>,
        key: Self::Key,
        before: RendererWorld<R>,
        after: RendererWorld<R>,
    ) -> bool;

    fn build(self, ctx: ViewCtx<R>, reserve_key: Option<Self::Key>, will_rebuild: bool) -> (r: Self::Key)
        ensures
            self.builds(ctx.parent, reserve_key, will_rebuild, *old(ctx.world), *final(ctx.world), r),
    ;

    fn rebuild(self, ctx: ViewCtx<R>, key: Self::Key)
        ensures
            self.rebuilds(ctx.parent, key, *old(ctx.world), *final(ctx.world)),
    ;
}

pub trait IntoView<R: Renderer>: Sized + 'static {
    type View: XView<R>;

    /// The view this value converts into.
    spec fn view_of(self) -> Self::View;

    fn into_view(self) -> (r: Self::View)
        ensures
            r == self.view_of(),
    ;
}

/// A view whose key can change on rebuild; it lives behind a placeholder node.
pub trait MutableView<R: Renderer>: Sized + 'static {
    type Key: MutableViewKey<R>;

    /// Whether the view can stand without a placeholder when it will not be
    /// rebuilt.
    spec fn no_placeholder_spec() -> bool;

    fn no_placeholder_when_no_rebuild() -> (r: bool)
        ensures
            r == Self::no_placeholder_spec(),
    ;

    /// Whether `after` is `before` once the view is built under `parent`
    /// (behind the placeholder, if any), `key` being its key.
    spec fn mutable_builds(
        self,
        parent: RendererNodeId<R>,
        placeholder_node_id: Option<RendererNodeId<R>>,
        before: RendererWorld<R>,
        after: RendererWorld<R>,
        key: Self::Key,
    ) -> bool;

    /// Whether `after` is `before` once the view is rebuilt on `key`, `r`
    /// being the new key when the key changed.
    spec fn mutable_rebuilds(
        self,
        parent: RendererNodeId<R>,
        key: Self::Key,
        placeholder_node_id: RendererNodeId<R>,
        before: RendererWorld<R>,
        after: RendererWorld<R>,
        r: Option<Self::Key>,
    ) -> bool;

    fn build(self, ctx: ViewCtx<R>, placeholder_node_id: Option<RendererNodeId<R>>) -> (r: Self::Key)
        ensures
            self.mutable_builds(ctx.parent, placeholder_node_id, *old(ctx.world), *final(ctx.world), r),
    ;

    fn rebuild(
        self,
        ctx: ViewCtx<R>,
        key: Self::Key,
        placeholder_node_id: RendererNodeId<R>,
    ) -> (r: Option<Self::Key>)
        ensures
            self.mutable_rebuilds(
                ctx.parent,
                key,
                placeholder_node_id,
                *old(ctx.world),
                *final(ctx.world),
                r,
            ),
    ;
}

pub trait MutableViewKey<R: Renderer>: Clone + Sized + 'static {
    /// Whether `after` is `before` once the view's nodes are removed.
    spec fn mutable_removes(&self, before: RendererWorld<R>, after: RendererWorld<R>) -> bool;

    /// Whether `after` is `before` once the view's nodes are moved under
    /// `parent`, before `before_node_id`.
    spec fn mutable_inserts_before(
        &self,
        before: RendererWorld<R>,
        parent: Option<RendererNodeId<R>>,
        before_node_id: Option<RendererNodeId<R>>,
        after: RendererWorld<R>,
    ) -> bool;

    /// Whether `after` is `before` once the view's nodes are hidden (or shown).
    spec fn mutable_sets_visibility(&self, before: RendererWorld<R>, hidden: bool, after: RendererWorld<R>) -> bool;

    /// The first node of the view in `world`, if any.
    spec fn mutable_first_node(&self, world: RendererWorld<R>) -> Option<RendererNodeId<R>>;

    /// The node that holds the view's state, if any.
    spec fn mutable_state_node(&self) -> Option<RendererNodeId<R>>;

    fn remove(self, world: &mut RendererWorld<R>)
        ensures
            self.mutable_removes(*old(world), *final(world)),
    ;

    fn insert_before(
        &self,
        world: &mut RendererWorld<R>,
        parent: Option<&RendererNodeId<R>>,
        before_node_id: Option<&RendererNodeId<R>>,
    )
        ensures
            self.mutable_inserts_before(*old(world), opt_node(parent), opt_node(before_node_id), *final(world)),
    ;

    fn set_visibility(&self, world: &mut RendererWorld<R>, hidden: bool)
        ensures
            self.mutable_sets_visibility(*old(world), hidden, *final(world)),
    ;

    fn first_node_id(&self, world: &RendererWorld<R>) -> (r: Option<RendererNodeId<R>>)
        ensures
            same_node(self.mutable_first_node(*world), r),
    ;

    fn state_node_id(&self) -> (r: Option<RendererNodeId<R>>)
        ensures
            same_node(self.mutable_state_node(), r),
    ;
}

/// A member of a view (an attribute, a style, a child list ...).
pub trait ViewMember<R: Renderer>: Sized + 'static {
    /// How many member slots this member takes.
    spec fn count_spec() -> ViewMemberIndex;

    fn count() -> (r: ViewMemberIndex)
        ensures
            r == Self::count_spec(),
    ;

    /// Whether `after` is `before` once the member is unbuilt from slot
    /// `index` of `node_id` (`view_removed`: the whole view is going away).
    spec fn unbuilds(
        index: ViewMemberIndex,
        node_id: RendererNodeId<R>,
        view_removed: bool,
        before: RendererWorld<R>,
        after: RendererWorld<R>,
    ) -> bool;

    fn unbuild(ctx: ViewMemberCtx<R>, view_removed: bool)
        ensures
            Self::unbuilds(ctx.index, ctx.node_id, view_removed, *old(ctx.world), *final(ctx.world)),
    ;

    /// Whether `after` is `before` once the member is built in slot `index`
    /// of `node_id`.
    spec fn member_builds(
        self,
        index: ViewMemberIndex,
        node_id: RendererNodeId<R>,
        will_rebuild: bool,
        before: RendererWorld<R>,
        after: RendererWorld<R>,
    ) -> bool;

    /// Whether `after` is `before` once the member is rebuilt in slot `index`
    /// of `node_id`.
    spec fn member_rebuilds(
        self,
        index: ViewMemberIndex,
        node_id: RendererNodeId<R>,
        before: RendererWorld<R>,
        after: RendererWorld<R>,
    ) -> bool;

    fn build(self, ctx: ViewMemberCtx<R>, will_rebuild: bool)
        ensures
            self.member_builds(ctx.index, ctx.node_id, will_rebuild, *old(ctx.world), *final(ctx.world)),
    ;

    fn rebuild(self, ctx: ViewMemberCtx<R>)
        ensures
            self.member_rebuilds(ctx.index, ctx.node_id, *old(ctx.world), *final(ctx.world)),
    ;
}

impl<R: Renderer, V: MutableView<R>> MutableView<R> for Option<V> {
    type Key = Option<V::Key>;

    open spec fn no_placeholder_spec() -> bool {
        V::no_placeholder_spec()
    }

    fn no_placeholder_when_no_rebuild() -> bool {
        V::no_placeholder_when_no_rebuild()
    }

    /// A view that is there is built; none leaves the world as it is.
    open spec fn mutable_builds(
        self,
        parent: RendererNodeId<R>,
        placeholder_node_id: Option<RendererNodeId<R>>,
        before: RendererWorld<R>,
        after: RendererWorld<R>,
        key: Self::Key,
    ) -> bool {
        match (self, key) {
            (Some(v), Some(k)) => v.mutable_builds(parent, placeholder_node_id, before, after, k),
            (None, None) => after == before,
            _ => false,
        }
    }

    /// Both there: the view is rebuilt in place (no new key); the view gone:
    /// the old one is removed; the view new: it is built and put before the
    /// placeholder.
    open spec fn mutable_rebuilds(
        self,
        parent: RendererNodeId<R>,
        key: Self::Key,
        placeholder_node_id: RendererNodeId<R>,
        before: RendererWorld<R>,
        after: RendererWorld<R>,
        r: Option<Self::Key>,
    ) -> bool {
        match (key, self) {
            (Some(k), Some(v)) => {
                &&& r is None
                &&& exists|inner: Option<V::Key>|
                    #[trigger] v.mutable_rebuilds(parent, k, placeholder_node_id, before, after, inner)
            },
            (k, None) => {
                &&& r == Some(None::<V::Key>)
                &&& k.mutable_removes(before, after)
            },
            (None, Some(v)) => match r {
                Some(Some(new_key)) => builds_before_placeholder::<R, V>(
                    v,
                    parent,
                    placeholder_node_id,
                    before,
                    after,
                    new_key,
                ),
                _ => false,
            },
        }
    }

    fn build(self, ctx: ViewCtx<R>, placeholder_node_id: Option<RendererNodeId<R>>) -> (r: Self::Key)
        ensures
            r is Some <==> self is Some,
    {
        match self {
            Some(n) => Some(n.build(ctx, placeholder_node_id)),
            None => None,
        }
    }

    fn rebuild(
        self,
        ctx: ViewCtx<R>,
        key: Self::Key,
        placeholder_node_id: RendererNodeId<R>,
    ) -> (r: Option<Self::Key>)
        ensures
            r is None <==> (key is Some && self is Some),
            r == Some(None::<V::Key>) <==> self is None,
            r matches Some(Some(_)) <==> (key is None && self is Some),
    {
        match (key, self) {
            (Some(key), Some(new)) => {
                let inner = new.rebuild(ctx, key, placeholder_node_id);
                None
            },
            (key, None) => {
                key.remove(ctx.world);
                Some(None)
            },
            (None, Some(new)) => {
                let parent = ctx.parent;
                let world = ctx.world;
                let p = parent.clone();
                let ph = placeholder_node_id.clone();
                let key = new.build(ViewCtx { world: &mut *world, parent: p }, Some(ph));
                let ghost mid = *world;
                key.insert_before(world, Some(&parent), Some(&placeholder_node_id));
                assert(new.mutable_builds(p, Some(ph), *old(ctx.world), mid, key));
                Some(Some(key))
            },
        }
    }
}

impl<R: Renderer, K: MutableViewKey<R>> MutableViewKey<R> for Option<K> {
    open spec fn mutable_removes(&self, before: RendererWorld<R>, after: RendererWorld<R>) -> bool {
        match self {
            Some(k) => k.mutable_removes(before, after),
            None => after == before,
        }
    }

    open spec fn mutable_inserts_before(
        &self,
        before: RendererWorld<R>,
        parent: Option<RendererNodeId<R>>,
        before_node_id: Option<RendererNodeId<R>>,
        after: RendererWorld<R>,
    ) -> bool {
        match self {
            Some(k) => k.mutable_inserts_before(before, parent, before_node_id, after),
            None => after == before,
        }
    }

    open spec fn mutable_sets_visibility(&self, before: RendererWorld<R>, hidden: bool, after: RendererWorld<R>) -> bool {
        match self {
            Some(k) => k.mutable_sets_visibility(before, hidden, after),
            None => after == before,
        }
    }

    open spec fn mutable_state_node(&self) -> Option<RendererNodeId<R>> {
        match self {
            Some(k) => k.mutable_state_node(),
            None => None,
        }
    }

    open spec fn mutable_first_node(&self, world: RendererWorld<R>) -> Option<RendererNodeId<R>> {
        match self {
            Some(k) => k.mutable_first_node(world),
            None => None,
        }
    }

    fn remove(self, world: &mut RendererWorld<R>) {
        if let Some(n) = self {
            n.remove(world)
        }
    }

    fn insert_before(
        &self,
        world: &mut RendererWorld<R>,
        parent: Option<&RendererNodeId<R>>,
        before_node_id: Option<&RendererNodeId<R>>,
    ) {
        if let Some(n) = self {
            n.insert_before(world, parent, before_node_id)
        }
    }

    fn set_visibility(&self, world: &mut RendererWorld<R>, hidden: bool) {
        if let Some(n) = self {
            n.set_visibility(world, hidden)
        }
    }

    fn first_node_id(&self, world: &RendererWorld<R>) -> (r: Option<RendererNodeId<R>>)
        ensures
            self is None ==> r is None,
    {
        match self {
            Some(n) => n.first_node_id(world),
            None => None,
        }
    }

    fn state_node_id(&self) -> (r: Option<RendererNodeId<R>>)
        ensures
            self is None ==> r is None,
    {
        match self {
            Some(n) => n.state_node_id(),
            None => None,
        }
    }
}

impl<R: Renderer, VM: ViewMember<R>> ViewMember<R> for Option<VM> {
    open spec fn count_spec() -> ViewMemberIndex {
        VM::count_spec()
    }

    fn count() -> ViewMemberIndex {
        VM::count()
    }

    open spec fn unbuilds(
        index: ViewMemberIndex,
        node_id: RendererNodeId<R>,
        view_removed: bool,
        before: RendererWorld<R>,
        after: RendererWorld<R>,
    ) -> bool {
        VM::unbuilds(index, node_id, view_removed, before, after)
    }

    fn unbuild(ctx: ViewMemberCtx<R>, view_removed: bool) {
        VM::unbuild(ctx, view_removed);
    }

    open spec fn member_builds(
        self,
        index: ViewMemberIndex,
        node_id: RendererNodeId<R>,
        will_rebuild: bool,
        before: RendererWorld<R>,
        after: RendererWorld<R>,
    ) -> bool {
        match self {
            Some(vm) => vm.member_builds(index, node_id, will_rebuild, before, after),
            None => after == before,
        }
    }

    open spec fn member_rebuilds(
        self,
        index: ViewMemberIndex,
        node_id: RendererNodeId<R>,
        before: RendererWorld<R>,
        after: RendererWorld<R>,
    ) -> bool {
        match self {
            None => VM::unbuilds(index, node_id, false, before, after),
            Some(vm) => vm.member_builds(index, node_id, true, before, after),
        }
    }

    fn build(self, ctx: ViewMemberCtx<R>, will_rebuild: bool) {
        if let Some(n) = self {
            n.build(ctx, will_rebuild)
        }
    }

    /// `None` unbuilds the member; `Some` builds it again, to be rebuilt.
    fn rebuild(self, ctx: ViewMemberCtx<R>) {
        match self {
            None => {
                VM::unbuild(ctx, false);
            },
            Some(vm) => {
                vm.build(ctx, true);
            },
        }
    }
}

impl<R: Renderer, K: ViewKey<R>> ViewKey<R> for Option<K> {
    open spec fn view_removes(&self, before: RendererWorld<R>, after: RendererWorld<R>) -> bool {
        match self {
            Some(k) => k.view_removes(before, after),
            None => after == before,
        }
    }

    open spec fn view_inserts_before(
        &self,
        before: RendererWorld<R>,
        parent: Option<RendererNodeId<R>>,
        before_node_id: Option<RendererNodeId<R>>,
        after: RendererWorld<R>,
    ) -> bool {
        match self {
            Some(k) => k.view_inserts_before(before, parent, before_node_id, after),
            None => after == before,
        }
    }

    open spec fn view_sets_visibility(&self, before: RendererWorld<R>, hidden: bool, after: RendererWorld<R>) -> bool {
        match self {
            Some(k) => k.view_sets_visibility(before, hidden, after),
            None => after == before,
        }
    }

    open spec fn view_state_node(&self) -> Option<RendererNodeId<R>> {
        match self {
            Some(k) => k.view_state_node(),
            None => None,
        }
    }

    open spec fn view_first_node(&self, world: RendererWorld<R>) -> Option<RendererNodeId<R>> {
        match self {
            Some(k) => k.view_first_node(world),
            None => None,
        }
    }

    open spec fn view_reserves(
        before: RendererWorld<R>,
        will_rebuild: bool,
        parent: RendererNodeId<R>,
        spawn: bool,
        after: RendererWorld<R>,
        key: Self,
    ) -> bool {
        &&& key is Some
        &&& K::view_reserves(before, will_rebuild, parent, spawn, after, key->0)
    }

    fn remove(self, world: &mut RendererWorld<R>) {
        if let Some(n) = self {
            n.remove(world)
        }
    }

    fn insert_before(
        &self,
        world: &mut RendererWorld<R>,
        parent: Option<&RendererNodeId<R>>,
        before_node_id: Option<&RendererNodeId<R>>,
    ) {
        if let Some(n) = self {
            n.insert_before(world, parent, before_node_id)
        }
    }

    fn set_visibility(&self, world: &mut RendererWorld<R>, hidden: bool) {
        if let Some(n) = self {
            n.set_visibility(world, hidden)
        }
    }

    fn state_node_id(&self) -> (r: Option<RendererNodeId<R>>)
        ensures
            self is None ==> r is None,
    {
        match self {
            Some(n) => n.state_node_id(),
            None => None,
        }
    }

    /// A reserved key is always present.
    fn reserve_key(
        world: &mut RendererWorld<R>,
        will_rebuild: bool,
        parent: RendererNodeId<R>,
        spawn: bool,
    ) -> (r: Self)
        ensures
            r is Some,
    {
        Some(K::reserve_key(world, will_rebuild, parent, spawn))
    }

    fn first_node_id(&self, world: &RendererWorld<R>) -> (r: Option<RendererNodeId<R>>)
        ensures
            self is None ==> r is None,
    {
        match self {
            Some(n) => n.first_node_id(world),
            None => None,
        }
    }
}

} // verus!
