use vstd::prelude::*;
use crate::renderer::{state_put, NodeTree, Renderer, RendererNodeId, RendererWorld, ViewCtx};
use crate::view::MutableView;

verus! {

/// The key of a mutable view, stored on its own state node.
pub struct MutableKeySelfStatedWrapper<T>(pub T);

/// Whether `after` is `before` once `view` is rebuilt on a clone of the
/// stored key (when there is one, `stored`) or built afresh behind a clone of
/// the state node (when there is none), and a new key, if any, is stored on
/// the state node.
pub open spec fn rebuilds_self_stated<R: Renderer, V: MutableView<R>>(
    view: V,
    parent: RendererNodeId<R>,
    state_node_id: RendererNodeId<R>,
    stored: Option<V::Key>,
    before: RendererWorld<R>,
    after: RendererWorld<R>,
) -> bool {
    match stored {
        Some(k) => exists|
            k2: V::Key,
            p: RendererNodeId<R>,
            ph: RendererNodeId<R>,
            mid: RendererWorld<R>,
            new_key: Option<V::Key>,
        |
            #![trigger view.mutable_rebuilds(p, k2, ph, before, mid, new_key)]
            {
                &&& cloned::<V::Key>(k, k2)
                &&& cloned::<RendererNodeId<R>>(parent, p)
                &&& cloned::<RendererNodeId<R>>(state_node_id, ph)
                &&& view.mutable_rebuilds(p, k2, ph, before, mid, new_key)
                &&& match new_key {
                    Some(nk) => state_put::<RendererWorld<R>, MutableKeySelfStatedWrapper<V::Key>>(
                        mid,
                        state_node_id,
                        MutableKeySelfStatedWrapper(nk),
                        after,
                    ),
                    None => after == mid,
                }
            },
        None => exists|p: RendererNodeId<R>, ph: RendererNodeId<R>, mid: RendererWorld<R>, nk: V::Key|
            #![trigger view.mutable_builds(p, Some(ph), before, mid, nk)]
            {
                &&& cloned::<RendererNodeId<R>>(parent, p)
                &&& cloned::<RendererNodeId<R>>(state_node_id, ph)
                &&& view.mutable_builds(p, Some(ph), before, mid, nk)
                &&& state_put::<RendererWorld<R>, MutableKeySelfStatedWrapper<V::Key>>(
                    mid,
                    state_node_id,
                    MutableKeySelfStatedWrapper(nk),
                    after,
                )
            },
    }
}

/// Rebuilds a mutable view whose key is stored on its state node: with a
/// stored key the view is rebuilt on it, else it is built afresh; a new key is
/// stored in place of the old one.
pub fn mutable_view_rebuild<R: Renderer, V: MutableView<R>>(
    view: V,
    ctx: ViewCtx<R>,
    state_node_id: RendererNodeId<R>,
)
    ensures
        old(ctx.world).node_state::<MutableKeySelfStatedWrapper<V::Key>>(state_node_id) is None
            ==> final(ctx.world).node_state::<MutableKeySelfStatedWrapper<V::Key>>(state_node_id) is Some,
        rebuilds_self_stated::<R, V>(
            view,
            ctx.parent,
            state_node_id,
            match old(ctx.world).node_state::<MutableKeySelfStatedWrapper<V::Key>>(state_node_id) {
                Some(w) => Some(w.0),
                None => None,
            },
            *old(ctx.world),
            *final(ctx.world),
        ),
{
    let world = ctx.world;
    let parent = ctx.parent;
    let ghost w0 = *world;
    let ghost v = view;
    let key = match world.get_node_state_ref::<MutableKeySelfStatedWrapper<V::Key>>(&state_node_id) {
        Some(n) => Some(n.0.clone()),
        None => None,
    };
    let p = parent.clone();
    let ph = state_node_id.clone();
    match key {
        Some(key) => {
            let new_key = view.rebuild(ViewCtx { world: &mut *world, parent: p }, key, ph);
            let ghost mid = *world;
            if let Some(new_key) = new_key {
                world.set_node_state(&state_node_id, MutableKeySelfStatedWrapper(new_key));
            }
            assert(v.mutable_rebuilds(p, key, ph, w0, mid, new_key));
        },
        None => {
            let new_key = view.build(ViewCtx { world: &mut *world, parent: p }, Some(ph));
            let ghost mid = *world;
            world.set_node_state(&state_node_id, MutableKeySelfStatedWrapper(new_key));
            assert(v.mutable_builds(p, Some(ph), w0, mid, new_key));
        },
    }
}

} // verus!
