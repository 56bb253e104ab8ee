use vstd::prelude::*;
use crate::renderer::{MemberHashMapState, NodeTree, Renderer, RendererNodeId, RendererWorld, ViewMemberCtx, ViewMemberIndex, member_state, members_kept, set_member_state, take_member_state};
use crate::view::ViewMember;

verus! {

/// How many times a node (or a member) has been built; at least one once
/// it is stored.
pub struct BuildInfo {
    pub build_times: usize,
}

pub enum BuildStatus {
    AlreadyBuild,
    NoBuild,
}

impl BuildStatus {
    pub fn is_no_build(&self) -> (r: bool)
        ensures
            r == (*self is NoBuild),
    {
        match self {
            BuildStatus::AlreadyBuild => false,
            BuildStatus::NoBuild => true,
        }
    }
}

/// Whether `after` is the count `before` with one more build: one for the
/// first build, one more than before for a later one.
pub open spec fn build_counted(before: Option<BuildInfo>, after: Option<BuildInfo>) -> bool {
    match before {
        Some(info) => after == Some(BuildInfo { build_times: (info.build_times + 1) as usize }),
        None => after == Some(BuildInfo { build_times: 1 }),
    }
}

/// Whether the count reports no build yet, as the status functions read it.
pub open spec fn reports_no_build(state: Option<BuildInfo>) -> bool {
    state is None
}

/// Once a build is counted, the count reports that there was a build, and
/// it is one more than before (one for the first build).
pub proof fn counted_build_reports_built(before: Option<BuildInfo>, after: Option<BuildInfo>)
    requires
        before matches Some(info) ==> info.build_times < usize::MAX,
        build_counted(before, after),
    ensures
        !reports_no_build(after),
        after->0.build_times == match before {
            Some(info) => info.build_times + 1,
            None => 1,
        },
{
}

/// Counts one more build of a node: the first build stores a count of one
/// and reports `NoBuild`, any later build adds one and reports `AlreadyBuild`.
pub fn node_build_times_increment<R: Renderer>(
    world: &mut RendererWorld<R>,
    state_node_id: RendererNodeId<R>,
) -> (r: BuildStatus)
    requires
        old(world).node_state::<BuildInfo>(state_node_id) matches Some(info) ==> info.build_times
            < usize::MAX,
    ensures
        (r is NoBuild) == reports_no_build(old(world).node_state::<BuildInfo>(state_node_id)),
        build_counted(
            old(world).node_state::<BuildInfo>(state_node_id),
            final(world).node_state::<BuildInfo>(state_node_id),
        ),
        forall|n: RendererNodeId<R>|
            n != state_node_id ==> #[trigger] final(world).node_state::<BuildInfo>(n)
                == old(world).node_state::<BuildInfo>(n),
{
    let times = match world.get_node_state_ref::<BuildInfo>(&state_node_id) {
        Some(build_info) => Some(build_info.build_times),
        None => None,
    };
    match times {
        Some(t) => {
            world.set_node_state(&state_node_id, BuildInfo { build_times: t + 1 });
            BuildStatus::AlreadyBuild
        },
        None => {
            world.set_node_state(&state_node_id, BuildInfo { build_times: 1 });
            BuildStatus::NoBuild
        },
    }
}

/// Whether the node has been built before.
pub fn node_build_status<R: Renderer>(
    world: &RendererWorld<R>,
    state_node_id: &RendererNodeId<R>,
) -> (r: BuildStatus)
    ensures
        (r is NoBuild) == reports_no_build(world.node_state::<BuildInfo>(*state_node_id)),
{
    match world.get_node_state_ref::<BuildInfo>(state_node_id) {
        Some(_) => BuildStatus::AlreadyBuild,
        None => BuildStatus::NoBuild,
    }
}

/// Whether member `index` of `node_id` has been built before.
pub fn member_build_status<R: Renderer>(
    world: &RendererWorld<R>,
    node_id: &RendererNodeId<R>,
    index: ViewMemberIndex,
) -> (r: BuildStatus)
    ensures
        (r is NoBuild) == reports_no_build(member_state::<R, BuildInfo>(*world, *node_id, index)),
{
    broadcast use vstd::std_specs::hash::group_hash_axioms;
    match world.get_node_state_ref::<MemberHashMapState<BuildInfo>>(node_id) {
        Some(m) => if m.0.contains_key(&index) {
            BuildStatus::AlreadyBuild
        } else {
            BuildStatus::NoBuild
        },
        None => BuildStatus::NoBuild,
    }
}

impl<'a, R: Renderer> ViewMemberCtx<'a, R> {
    /// Counts one more build of this member, as `node_build_times_increment`
    /// does for a node.
    pub fn build_times_increment(&mut self) -> (r: BuildStatus)
        requires
            member_state::<R, BuildInfo>(*old(self).world, old(self).node_id, old(self).index) matches Some(
                info,
            ) ==> info.build_times < usize::MAX,
        ensures
            final(self).node_id == old(self).node_id,
            final(self).index == old(self).index,
            (r is NoBuild) == reports_no_build(
                member_state::<R, BuildInfo>(*old(self).world, old(self).node_id, old(self).index),
            ),
            build_counted(
                member_state::<R, BuildInfo>(*old(self).world, old(self).node_id, old(self).index),
                member_state::<R, BuildInfo>(*final(self).world, final(self).node_id, final(self).index),
            ),
            members_kept::<R, BuildInfo>(*old(self).world, old(self).node_id, old(self).index, *final(self).world),
    {
        match self.take_indexed_view_member_state::<BuildInfo>() {
            Some(build_info) => {
                self.set_indexed_view_member_state(
                    BuildInfo { build_times: build_info.build_times + 1 },
                );
                BuildStatus::AlreadyBuild
            },
            None => {
                self.set_indexed_view_member_state(BuildInfo { build_times: 1 });
                BuildStatus::NoBuild
            },
        }
    }

    /// Whether this member has been built before.
    pub fn build_status(&mut self) -> (r: BuildStatus)
        ensures
            (r is NoBuild) == reports_no_build(
                member_state::<R, BuildInfo>(*old(self).world, old(self).node_id, old(self).index),
            ),
            *final(self).world == *old(self).world,
            final(self).node_id == old(self).node_id,
            final(self).index == old(self).index,
    {
        member_build_status::<R>(self.world, &self.node_id, self.index)
    }
}

/// Counts one more build of member `index` of `node_id`, as
/// `node_build_times_increment` does for a node.
pub fn member_build_times_increment<R: Renderer>(
    world: &mut RendererWorld<R>,
    node_id: &RendererNodeId<R>,
    index: ViewMemberIndex,
) -> (r: BuildStatus)
    requires
        member_state::<R, BuildInfo>(*old(world), *node_id, index) matches Some(info) ==> info.build_times
            < usize::MAX,
    ensures
        (r is NoBuild) == reports_no_build(member_state::<R, BuildInfo>(*old(world), *node_id, index)),
        build_counted(
            member_state::<R, BuildInfo>(*old(world), *node_id, index),
            member_state::<R, BuildInfo>(*final(world), *node_id, index),
        ),
        members_kept::<R, BuildInfo>(*old(world), *node_id, index, *final(world)),
{
    match take_member_state::<R, BuildInfo>(world, node_id, index) {
        Some(info) => {
            set_member_state::<R, BuildInfo>(world, node_id, index, BuildInfo { build_times: info.build_times + 1 });
            BuildStatus::AlreadyBuild
        },
        None => {
            set_member_state::<R, BuildInfo>(world, node_id, index, BuildInfo { build_times: 1 });
            BuildStatus::NoBuild
        },
    }
}

/// Builds a member the first time and rebuilds it afterwards.
pub trait ViewMemberBuildExt<R: Renderer>: ViewMember<R> {
    /// Builds the member (to be rebuilt) when `build_status` says it was not
    /// built yet, else rebuilds it.
    fn build_or_rebuild_by(self, ctx: ViewMemberCtx<R>, build_status: BuildStatus)
        ensures
            if build_status is NoBuild {
                self.member_builds(ctx.index, ctx.node_id, true, *old(ctx.world), *final(ctx.world))
            } else {
                self.member_rebuilds(ctx.index, ctx.node_id, *old(ctx.world), *final(ctx.world))
            },
    ;

    /// Counts one more build of the member, then builds it when that was its
    /// first build and rebuilds it otherwise.
    fn build_or_rebuild(self, ctx: ViewMemberCtx<R>)
        requires
            member_state::<R, BuildInfo>(*ctx.world, ctx.node_id, ctx.index) matches Some(info)
                ==> info.build_times < usize::MAX,
        ensures
            exists|counted: RendererWorld<R>|
                #![trigger build_counted(member_state::<R, BuildInfo>(*old(ctx.world), ctx.node_id, ctx.index), member_state::<R, BuildInfo>(counted, ctx.node_id, ctx.index))]
                {
                    &&& build_counted(
                        member_state::<R, BuildInfo>(*old(ctx.world), ctx.node_id, ctx.index),
                        member_state::<R, BuildInfo>(counted, ctx.node_id, ctx.index),
                    )
                    &&& members_kept::<R, BuildInfo>(*old(ctx.world), ctx.node_id, ctx.index, counted)
                    &&& if reports_no_build(member_state::<R, BuildInfo>(*old(ctx.world), ctx.node_id, ctx.index)) {
                        self.member_builds(ctx.index, ctx.node_id, true, counted, *final(ctx.world))
                    } else {
                        self.member_rebuilds(ctx.index, ctx.node_id, counted, *final(ctx.world))
                    }
                },
    {
        let world = ctx.world;
        let node_id = ctx.node_id;
        let index = ctx.index;
        let build_status = member_build_times_increment::<R>(world, &node_id, index);
        self.build_or_rebuild_by(ViewMemberCtx { index, world: &mut *world, node_id }, build_status);
    }
}

impl<R: Renderer, T: ViewMember<R>> ViewMemberBuildExt<R> for T {
    fn build_or_rebuild_by(self, ctx: ViewMemberCtx<R>, build_status: BuildStatus) {
        if build_status.is_no_build() {
            self.build(ctx, true);
        } else {
            self.rebuild(ctx);
        }
    }
}

} // verus!
