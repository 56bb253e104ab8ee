use vstd::prelude::*;
use crate::build_info::{BuildInfo, BuildStatus, member_build_status, ViewMemberBuildExt, node_build_status, node_build_times_increment};
use crate::renderer::{NodeTree, Renderer, RendererNodeId, RendererWorld, ViewCtx, ViewMemberCtx, ViewMemberIndex, member_state, members_kept, set_member_state, take_member_state};
use crate::view::{ViewKey, ViewMember, XView};

verus! {

/// Whether `after` is `before` once one more build of `state_node_id` is
/// counted: the node's count is there, other nodes' counts are as they were.
pub open spec fn counts_node_build<R: Renderer>(
    before: RendererWorld<R>,
    state_node_id: RendererNodeId<R>,
    after: RendererWorld<R>,
) -> bool {
    &&& after.node_state::<BuildInfo>(state_node_id) is Some
    &&& forall|n: RendererNodeId<R>|
        n != state_node_id ==> #[trigger] after.node_state::<BuildInfo>(n) == before.node_state::<
            BuildInfo,
        >(n)
}

/// Whether `after` is `before` once one more build is counted on the state
/// node of a key (a clone of `state_node`), or `before` itself when the key
/// has no state node.
pub open spec fn counts_key_build<R: Renderer>(
    state_node: Option<RendererNodeId<R>>,
    before: RendererWorld<R>,
    after: RendererWorld<R>,
) -> bool {
    match state_node {
        None => after == before,
        Some(s) => exists|id: RendererNodeId<R>|
            #![trigger counts_node_build::<R>(before, id, after)]
            cloned::<RendererNodeId<R>>(s, id) && counts_node_build::<R>(before, id, after),
    }
}

/// Counts one more build of a node; a count at its largest stays there.
fn count_node_build<R: Renderer>(world: &mut RendererWorld<R>, state_node_id: RendererNodeId<R>)
    ensures
        counts_node_build::<R>(*old(world), state_node_id, *final(world)),
{
    let at_most = match world.get_node_state_ref::<BuildInfo>(&state_node_id) {
        Some(info) => info.build_times == usize::MAX,
        None => false,
    };
    if !at_most {
        node_build_times_increment::<R>(world, state_node_id);
    }
}

/// Counts one more build of member `index` of `node_id`; a count at its
/// largest stays there.
fn count_member_build_at<R: Renderer>(
    world: &mut RendererWorld<R>,
    node_id: &RendererNodeId<R>,
    index: ViewMemberIndex,
)
    ensures
        counts_member_build::<R>(*old(world), *node_id, index, *final(world)),
{
    match take_member_state::<R, BuildInfo>(world, node_id, index) {
        Some(info) => {
            if info.build_times == usize::MAX {
                set_member_state::<R, BuildInfo>(world, node_id, index, info);
            } else {
                set_member_state::<R, BuildInfo>(
                    world,
                    node_id,
                    index,
                    BuildInfo { build_times: info.build_times + 1 },
                );
            }
        },
        None => {
            set_member_state::<R, BuildInfo>(world, node_id, index, BuildInfo { build_times: 1 });
        },
    }
}

/// Shows the view that a future resolved to, on the key reserved for it: the
/// view is built on the key when its state node was never built, else it is
/// rebuilt; the build is counted when the view will be rebuilt again.
pub fn show_resolved_view<R: Renderer, V: XView<R>>(
    world: &mut RendererWorld<R>,
    parent: RendererNodeId<R>,
    view: V,
    key: V::Key,
    state_node_id: RendererNodeId<R>,
    will_rebuild: bool,
)
    ensures
        exists|shown: RendererWorld<R>|
            #![trigger built_or_rebuilt::<R, V>(view, parent, key, state_node_id, will_rebuild, *old(world), shown)]
            {
                &&& built_or_rebuilt::<R, V>(view, parent, key, state_node_id, will_rebuild, *old(world), shown)
                &&& if will_rebuild {
                    counts_node_build::<R>(shown, state_node_id, *final(world))
                } else {
                    *final(world) == shown
                }
            },
{
    let ghost w0 = *world;
    let ghost v = view;
    let ghost k = key;
    let ghost par = parent;
    if node_build_status::<R>(world, &state_node_id).is_no_build() {
        let built_key = view.build(ViewCtx { world: &mut *world, parent }, Some(key), will_rebuild);
        assert(v.builds(par, Some(k), will_rebuild, w0, *world, built_key));
    } else {
        view.rebuild(ViewCtx { world: &mut *world, parent }, key);
    }
    assert(built_or_rebuilt::<R, V>(v, par, k, state_node_id, will_rebuild, w0, *world));
    if will_rebuild {
        count_node_build::<R>(world, state_node_id);
    }
}

/// Whether `after` is `before` once `view` is built on `key` (when
/// `state_node_id` was never built) or rebuilt on it (otherwise).
pub open spec fn built_or_rebuilt<R: Renderer, V: XView<R>>(
    view: V,
    parent: RendererNodeId<R>,
    key: V::Key,
    state_node_id: RendererNodeId<R>,
    will_rebuild: bool,
    before: RendererWorld<R>,
    after: RendererWorld<R>,
) -> bool {
    view_shown::<R, V>(
        view,
        parent,
        key,
        before.node_state::<BuildInfo>(state_node_id) is Some,
        will_rebuild,
        before,
        after,
    )
}

/// Whether `after` is `before` once `view` is rebuilt on `key` (when
/// `was_built` holds) or built on it (when it does not).
pub open spec fn view_shown<R: Renderer, V: XView<R>>(
    view: V,
    parent: RendererNodeId<R>,
    key: V::Key,
    was_built: bool,
    will_rebuild: bool,
    before: RendererWorld<R>,
    after: RendererWorld<R>,
) -> bool {
    if was_built {
        view.rebuilds(parent, key, before, after)
    } else {
        exists|built_key: V::Key|
            #![trigger view.builds(parent, Some(key), will_rebuild, before, after, built_key)]
            view.builds(parent, Some(key), will_rebuild, before, after, built_key)
    }
}

/// Shows one view that a stream gave, on the stream's key, as long as the
/// parent node is still there: built when the state node was never built,
/// else rebuilt, and the build counted.
pub fn show_streamed_view<R: Renderer, V: XView<R>>(
    world: &mut RendererWorld<R>,
    parent: RendererNodeId<R>,
    view: V,
    key: V::Key,
    state_node_id: RendererNodeId<R>,
) -> (r: bool)
    ensures
        r == old(world).has_node(parent),
        !r ==> *final(world) == *old(world),
        r ==> final(world).node_state::<BuildInfo>(state_node_id) is Some,
        r ==> exists|shown: RendererWorld<R>|
            #![trigger built_or_rebuilt::<R, V>(view, parent, key, state_node_id, true, *old(world), shown)]
            built_or_rebuilt::<R, V>(view, parent, key, state_node_id, true, *old(world), shown),
{
    if !world.exist_node_id(&parent) {
        return false;
    }
    let ghost w0 = *world;
    let ghost v = view;
    let ghost k = key;
    let ghost par = parent;
    if node_build_status::<R>(world, &state_node_id).is_no_build() {
        let built_key = view.build(ViewCtx { world: &mut *world, parent }, Some(key), true);
        assert(v.builds(par, Some(k), true, w0, *world, built_key));
    } else {
        view.rebuild(ViewCtx { world: &mut *world, parent }, key);
    }
    assert(built_or_rebuilt::<R, V>(v, par, k, state_node_id, true, w0, *world));
    count_node_build::<R>(world, state_node_id);
    true
}

/// Whether `after` is `before` once `view` is built (to be rebuilt), `key`
/// being its key, and the build counted on the key's state node.
pub open spec fn builds_then_counts<R: Renderer, V: XView<R>>(
    view: V,
    parent: RendererNodeId<R>,
    reserve_key: Option<V::Key>,
    before: RendererWorld<R>,
    after: RendererWorld<R>,
    key: V::Key,
) -> bool {
    exists|shown: RendererWorld<R>|
        #![trigger view.builds(parent, reserve_key, true, before, shown, key)]
        {
            &&& view.builds(parent, reserve_key, true, before, shown, key)
            &&& counts_key_build::<R>(key.view_state_node(), shown, after)
        }
}

/// Shows the first view of a stream, given before the stream runs: built on
/// the reserved key, or rebuilt on the built key, and the build counted on
/// the key's state node when it has one.
pub fn show_first_streamed_view<R: Renderer, V: XView<R>>(
    world: &mut RendererWorld<R>,
    parent: RendererNodeId<R>,
    view: V,
    built_key: Option<V::Key>,
    reserve_key: Option<V::Key>,
) -> (r: Option<V::Key>)
    ensures
        (r is Some) == (built_key is None),
        match built_key {
            Some(k) => exists|shown: RendererWorld<R>|
                #![trigger view.rebuilds(parent, k, *old(world), shown)]
                {
                    &&& view.rebuilds(parent, k, *old(world), shown)
                    &&& counts_key_build::<R>(k.view_state_node(), shown, *final(world))
                },
            None => match r {
                Some(k) => builds_then_counts::<R, V>(view, parent, reserve_key, *old(world), *final(world), k),
                None => false,
            },
        },
{
    let ghost w0 = *world;
    let ghost v = view;
    let ghost par = parent;
    match built_key {
        Some(key) => {
            let state_node_id = key.state_node_id();
            view.rebuild(ViewCtx { world: &mut *world, parent }, key);
            let ghost shown = *world;
            if let Some(id) = state_node_id {
                count_node_build::<R>(world, id);
                assert(counts_node_build::<R>(shown, id, *world));
            }
            assert(v.rebuilds(par, key, w0, shown));
            assert(counts_key_build::<R>(key.view_state_node(), shown, *world));
            None
        },
        None => {
            let key = view.build(ViewCtx { world: &mut *world, parent }, reserve_key, true);
            let ghost shown = *world;
            if let Some(id) = key.state_node_id() {
                count_node_build::<R>(world, id);
                assert(counts_node_build::<R>(shown, id, *world));
            }
            assert(v.builds(par, reserve_key, true, w0, shown, key));
            Some(key)
        },
    }
}

/// Shows the member that a future resolved to: built when the member was
/// never built, else rebuilt; the build is counted when the member will be
/// rebuilt again.
pub fn show_resolved_member<R: Renderer, VM: ViewMember<R>>(
    ctx: &mut ViewMemberCtx<R>,
    vm: VM,
    will_rebuild: bool,
)
    ensures
        final(ctx).node_id == old(ctx).node_id,
        final(ctx).index == old(ctx).index,
        exists|shown: RendererWorld<R>, n: RendererNodeId<R>|
            #![trigger member_shown::<R, VM>(vm, old(ctx).index, n, member_state::<R, BuildInfo>(*old(ctx).world, old(ctx).node_id, old(ctx).index) is Some, will_rebuild, *old(ctx).world, shown)]
            {
                &&& cloned::<RendererNodeId<R>>(old(ctx).node_id, n)
                &&& member_shown::<R, VM>(
                    vm,
                    old(ctx).index,
                    n,
                    member_state::<R, BuildInfo>(*old(ctx).world, old(ctx).node_id, old(ctx).index) is Some,
                    will_rebuild,
                    *old(ctx).world,
                    shown,
                )
                &&& if will_rebuild {
                    counts_member_build::<R>(shown, old(ctx).node_id, old(ctx).index, *final(ctx).world)
                } else {
                    *final(ctx).world == shown
                }
            },
{
    let index = ctx.index;
    let ghost w0 = *ctx.world;
    let ghost v = vm;
    let status = member_build_status::<R>(ctx.world, &ctx.node_id, index);
    let n = ctx.node_id.clone();
    if status.is_no_build() {
        vm.build(ViewMemberCtx { index, world: &mut *ctx.world, node_id: n }, will_rebuild);
    } else {
        vm.rebuild(ViewMemberCtx { index, world: &mut *ctx.world, node_id: n });
    }
    let ghost shown = *ctx.world;
    assert(member_shown::<R, VM>(
        v,
        index,
        n,
        member_state::<R, BuildInfo>(w0, ctx.node_id, index) is Some,
        will_rebuild,
        w0,
        shown,
    ));
    if will_rebuild {
        count_member_build_at::<R>(ctx.world, &ctx.node_id, index);
    }
}

/// Whether `after` is `before` once `vm` is built in slot `index` of
/// `node_id` (when `was_built` does not hold) or rebuilt there (when it does).
pub open spec fn member_built_or_rebuilt<R: Renderer, VM: ViewMember<R>>(
    vm: VM,
    index: ViewMemberIndex,
    node_id: RendererNodeId<R>,
    was_built: bool,
    before: RendererWorld<R>,
    after: RendererWorld<R>,
) -> bool {
    member_shown::<R, VM>(vm, index, node_id, was_built, true, before, after)
}

/// Whether `after` is `before` once `vm` is rebuilt in slot `index` of
/// `node_id` (when `was_built` holds) or built there (when it does not).
pub open spec fn member_shown<R: Renderer, VM: ViewMember<R>>(
    vm: VM,
    index: ViewMemberIndex,
    node_id: RendererNodeId<R>,
    was_built: bool,
    will_rebuild: bool,
    before: RendererWorld<R>,
    after: RendererWorld<R>,
) -> bool {
    if was_built {
        vm.member_rebuilds(index, node_id, before, after)
    } else {
        vm.member_builds(index, node_id, will_rebuild, before, after)
    }
}

/// Whether `after` is `before` once one more build of member `index` of
/// `node_id` is counted: its count is there, other members' counts are as
/// they were.
pub open spec fn counts_member_build<R: Renderer>(
    before: RendererWorld<R>,
    node_id: RendererNodeId<R>,
    index: ViewMemberIndex,
    after: RendererWorld<R>,
) -> bool {
    &&& member_state::<R, BuildInfo>(after, node_id, index) is Some
    &&& members_kept::<R, BuildInfo>(before, node_id, index, after)
}

/// Shows one member that a stream gave: the member is left alone while its
/// node exists, otherwise it is built the first time and rebuilt afterwards,
/// and the build counted.
pub fn show_streamed_member<R: Renderer, VM: ViewMember<R>>(
    world: &mut RendererWorld<R>,
    node_id: RendererNodeId<R>,
    index: ViewMemberIndex,
    vm: VM,
)
    ensures
        old(world).has_node(node_id) ==> *final(world) == *old(world),
        !old(world).has_node(node_id) ==> exists|counted: RendererWorld<R>|
            #![trigger member_built_or_rebuilt::<R, VM>(vm, index, node_id, member_state::<R, BuildInfo>(*old(world), node_id, index) is Some, counted, *final(world))]
            {
                &&& member_state::<R, BuildInfo>(counted, node_id, index) is Some
                &&& member_built_or_rebuilt::<R, VM>(
                    vm,
                    index,
                    node_id,
                    member_state::<R, BuildInfo>(*old(world), node_id, index) is Some,
                    counted,
                    *final(world),
                )
            },
{
    if world.exist_node_id(&node_id) {
        return;
    }
    let ghost w0 = *world;
    let status = member_build_status::<R>(world, &node_id, index);
    count_member_build_at::<R>(world, &node_id, index);
    let ghost counted = *world;
    let ghost v = vm;
    vm.build_or_rebuild_by(ViewMemberCtx { index, world: &mut *world, node_id }, status);
    assert(member_built_or_rebuilt::<R, VM>(
        v,
        index,
        node_id,
        member_state::<R, BuildInfo>(w0, node_id, index) is Some,
        counted,
        *world,
    ));
}

/// Shows the first member of a stream, given before the stream runs: built
/// (and its build counted) when it cannot have been built yet, else built the
/// first time and rebuilt afterwards.
pub fn show_first_streamed_member<R: Renderer, VM: ViewMember<R>>(
    ctx: ViewMemberCtx<R>,
    vm: VM,
    maybe_already_build: bool,
)
    ensures
        exists|counted: RendererWorld<R>|
            #![trigger counts_member_build::<R>(*old(ctx.world), ctx.node_id, ctx.index, counted)]
            {
                &&& counts_member_build::<R>(*old(ctx.world), ctx.node_id, ctx.index, counted)
                &&& member_built_or_rebuilt::<R, VM>(
                    vm,
                    ctx.index,
                    ctx.node_id,
                    maybe_already_build && member_state::<R, BuildInfo>(*old(ctx.world), ctx.node_id, ctx.index) is Some,
                    counted,
                    *final(ctx.world),
                )
            },
{
    let world = ctx.world;
    let node_id = ctx.node_id;
    let index = ctx.index;
    let ghost w0 = *world;
    let ghost v = vm;
    let ghost was_built = maybe_already_build && member_state::<R, BuildInfo>(w0, node_id, index) is Some;
    if !maybe_already_build {
        count_member_build_at::<R>(world, &node_id, index);
        let ghost counted = *world;
        vm.build(ViewMemberCtx { index, world: &mut *world, node_id }, true);
        assert(member_built_or_rebuilt::<R, VM>(v, index, node_id, was_built, counted, *world));
    } else {
        let status = member_build_status::<R>(world, &node_id, index);
        count_member_build_at::<R>(world, &node_id, index);
        let ghost counted = *world;
        vm.build_or_rebuild_by(ViewMemberCtx { index, world: &mut *world, node_id }, status);
        assert(member_built_or_rebuilt::<R, VM>(v, index, node_id, was_built, counted, *world));
    }
}

} // verus!

verus! {

/// Shows a member handed to a rebuild function: built the first time (and
/// the flag set), rebuilt every time after.
pub fn build_then_rebuild_member<R: Renderer, VM: ViewMember<R>>(
    ctx: ViewMemberCtx<R>,
    vm: VM,
    is_build: &mut bool,
)
    ensures
        *final(is_build),
        member_built_or_rebuilt::<R, VM>(vm, ctx.index, ctx.node_id, *old(is_build), *old(ctx.world), *final(ctx.world)),
{
    if *is_build {
        vm.rebuild(ctx);
    } else {
        vm.build(ctx, true);
        *is_build = true;
    }
}

/// Shows a view handed to a rebuild function on its key: built the first
/// time (and the flag set), rebuilt every time after.
pub fn build_then_rebuild_view<R: Renderer, V: XView<R>>(
    ctx: ViewCtx<R>,
    view: V,
    key: V::Key,
    is_build: &mut bool,
)
    ensures
        *final(is_build),
        view_shown::<R, V>(view, ctx.parent, key, *old(is_build), true, *old(ctx.world), *final(ctx.world)),
{
    if *is_build {
        view.rebuild(ctx, key);
    } else {
        view.build(ctx, Some(key), true);
        *is_build = true;
    }
}

} // verus!
