use vstd::prelude::*;
use core::marker::PhantomData;
use crate::renderer::{Renderer, RendererNodeId};

verus! {

/// A view or member computed by `F`, rebuilt whenever what `F` reads changes.
pub struct Reactive<F, T>(pub F, pub PhantomData<T>);

/// Wraps a function as a reactive view or member.
pub fn rx<F: Fn() -> T, T>(f: F) -> (r: Reactive<F, T>)
    ensures
        r.0 == f,
{
    Reactive(f, PhantomData)
}

/// The key of a reactive view: the key of the view it computed, and the node
/// that keeps the effect that recomputes it.
pub struct ReactiveViewKey<R: Renderer, K> {
    pub key: K,
    pub disposer_state_node_id: RendererNodeId<R>,
}

impl<R: Renderer, K: Clone> Clone for ReactiveViewKey<R, K> {
    fn clone(&self) -> Self {
        ReactiveViewKey {
            key: self.key.clone(),
            disposer_state_node_id: self.disposer_state_node_id.clone(),
        }
    }
}

} // verus!
