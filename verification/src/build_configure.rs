use vstd::prelude::*;
use crate::renderer::{Renderer, RendererNodeId, RendererWorld, ViewCtx};
use crate::view::{IntoView, XView};

verus! {

/// Whether to override the `will_rebuild` flag a view is built with.
#[derive(Debug, Clone, PartialEq, Copy)]
pub enum WillRebuildOverride {
    Nop,
    Value(bool),
}

#[derive(Debug, Clone)]
pub struct BuildConfig {
    pub override_will_rebuild: WillRebuildOverride,
}

/// A view built with a configuration.
#[derive(Debug, Clone)]
pub struct BuildConfigure<T>(pub T, pub BuildConfig);

pub fn build_configure<T>(t: T, config: BuildConfig) -> (r: BuildConfigure<T>)
    ensures
        r.0 == t,
        r.1 == config,
{
    BuildConfigure(t, config)
}

/// The `will_rebuild` flag once the override is applied.
pub open spec fn overridden_will_rebuild(o: WillRebuildOverride, will_rebuild: bool) -> bool {
    match o {
        WillRebuildOverride::Nop => will_rebuild,
        WillRebuildOverride::Value(v) => v,
    }
}

fn apply_override(o: WillRebuildOverride, will_rebuild: bool) -> (r: bool)
    ensures
        r == overridden_will_rebuild(o, will_rebuild),
{
    match o {
        WillRebuildOverride::Nop => will_rebuild,
        WillRebuildOverride::Value(v) => v,
    }
}

impl<R: Renderer, V: XView<R>> XView<R> for BuildConfigure<V> {
    type Key = V::Key;

    /// The inner view is built with the overridden `will_rebuild` flag.
    open spec fn builds(
        self,
        parent: RendererNodeId<R>,
        reserve_key: Option<Self::Key>,
        will_rebuild: bool,
        before: RendererWorld<R>,
        after: RendererWorld<R>,
        key: Self::Key,
    ) -> bool {
        self.0.builds(
            parent,
            reserve_key,
            overridden_will_rebuild(self.1.override_will_rebuild, will_rebuild),
            before,
            after,
            key,
        )
    }

    open spec fn rebuilds(
        self,
        parent: RendererNodeId<R>,
        key: Self::Key,
        before: RendererWorld<R>,
        after: RendererWorld<R>,
    ) -> bool {
        self.0.rebuilds(parent, key, before, after)
    }

    /// Builds the inner view with the overridden `will_rebuild` flag.
    fn build(self, ctx: ViewCtx<R>, reserve_key: Option<Self::Key>, will_rebuild: bool) -> Self::Key {
        let w = apply_override(self.1.override_will_rebuild, will_rebuild);
        self.0.build(ctx, reserve_key, w)
    }

    fn rebuild(self, ctx: ViewCtx<R>, key: Self::Key) {
        self.0.rebuild(ctx, key)
    }
}

impl<R: Renderer, IV: IntoView<R>> IntoView<R> for BuildConfigure<IV> {
    type View = IV::View;

    open spec fn view_of(self) -> Self::View {
        self.0.view_of()
    }

    /// Converts the inner view; the configuration is not kept.
    fn into_view(self) -> Self::View {
        self.0.into_view()
    }
}

} // verus!
