use vstd::prelude::*;
use core::marker::PhantomData;
use crate::renderer::Renderer;
use crate::view::ViewKey;

verus! {

/// The key of a view whose nodes can be recycled once it is removed.
pub struct RecyclableViewKey<R, K> {
    pub key: K,
    pub _marker: PhantomData<R>,
}

impl<R, K: Clone> Clone for RecyclableViewKey<R, K> {
    fn clone(&self) -> Self {
        RecyclableViewKey { key: self.key.clone(), _marker: PhantomData }
    }
}

impl<R: Renderer, K: ViewKey<R>> RecyclableViewKey<R, K> {
    pub fn new(key: K) -> (r: Self)
        ensures
            r.key == key,
    {
        RecyclableViewKey { key, _marker: PhantomData }
    }
}

} // verus!
