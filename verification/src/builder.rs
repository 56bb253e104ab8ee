use vstd::prelude::*;
use core::marker::PhantomData;
use crate::renderer::Renderer;

verus! {

/// A view or member made by a function at build time; it carries the
/// function (see the README for why it is not built here).
pub struct XBuilder<R, F>(pub F, pub PhantomData<R>);

impl<R, F: Clone> Clone for XBuilder<R, F> {
    fn clone(&self) -> Self {
        XBuilder(self.0.clone(), PhantomData)
    }
}

impl<R, F> XBuilder<R, F> {
    pub fn new(f: F) -> (r: Self)
        ensures
            r.0 == f,
    {
        XBuilder(f, PhantomData)
    }
}

/// How a builder function is called: whether the result will be rebuilt, and
/// whether this call is a rebuild.
#[derive(Debug, Clone, Copy)]
pub struct BuildFlags {
    pub will_rebuild: bool,
    pub is_rebuild: bool,
}

/// A view made by `f`.
pub fn view_builder<R: Renderer, F>(f: F) -> (r: XBuilder<R, F>)
    ensures
        r.0 == f,
{
    XBuilder(f, PhantomData)
}

/// A member made by `f`.
pub fn member_builder<R: Renderer, F>(f: F) -> (r: XBuilder<R, F>)
    ensures
        r.0 == f,
{
    XBuilder(f, PhantomData)
}

/// A style member made by `f`.
pub fn style_builder<R: Renderer, F>(f: F) -> (r: XBuilder<R, F>)
    ensures
        r.0 == f,
{
    XBuilder(f, PhantomData)
}

/// A view or member made by a function of the world at build time.
pub struct XWorld<R, F>(pub F, pub PhantomData<R>);

impl<R, F: Clone> Clone for XWorld<R, F> {
    fn clone(&self) -> Self {
        XWorld(self.0.clone(), PhantomData)
    }
}

impl<R, F> XWorld<R, F> {
    pub fn new(f: F) -> (r: Self)
        ensures
            r.0 == f,
    {
        XWorld(f, PhantomData)
    }
}

pub fn x_world<R: Renderer, F>(f: F) -> (r: XWorld<R, F>)
    ensures
        r.0 == f,
{
    XWorld(f, PhantomData)
}

} // verus!
