use vstd::prelude::*;
use core::marker::PhantomData;
use crate::renderer::Renderer;
use crate::view::ViewMember;

verus! {

/// Wraps a value that converts into a member of type `M`.
pub struct InnerIvmToVm<T, M>(pub T, pub PhantomData<M>);

impl<T: Clone, M> Clone for InnerIvmToVm<T, M> {
    fn clone(&self) -> Self {
        InnerIvmToVm(self.0.clone(), PhantomData)
    }
}

impl<T, M> InnerIvmToVm<T, M> {
    pub fn new(t: T) -> (r: Self)
        ensures
            r.0 == t,
    {
        InnerIvmToVm(t, PhantomData)
    }
}

/// What converts into a view member.
pub trait IntoViewMember<R: Renderer> {
    type Member;

    fn into_member(self) -> Self::Member;
}

impl<R: Renderer> IntoViewMember<R> for () {
    type Member = ();

    fn into_member(self) {
    }
}

/// A member that converts into itself.
#[derive(Clone, Debug, PartialEq, Eq)]
pub struct IntoViewMemberWrapper<T>(pub T);

impl<R: Renderer, VM: ViewMember<R>> IntoViewMember<R> for IntoViewMemberWrapper<VM> {
    type Member = VM;

    fn into_member(self) -> (r: VM)
        ensures
            r == self.0,
    {
        self.0
    }
}

/// A value that can be watched: its inner value, and the same thing over
/// another inner type.
pub trait XNest {
    type Inner;

    fn is_static() -> bool;
}

/// Maps the inner value of a watched value into `U`.
pub trait XNestMapper<U>: XNest {
    type MapInnerTo;
}

/// A plain value, as a watched value that never changes.
#[derive(Clone, Debug, PartialEq, Eq)]
pub struct XValueWrapper<T>(pub T);

/// A plain value mapped to a member of type `M`.
pub struct MapValueWrapper<T, M>(pub T, pub PhantomData<M>);

/// Marks a mapping into an attribute `EA`.
pub struct MapToAttrMarker<EA>(pub PhantomData<EA>);

/// Marks a mapping into style sheets `SS`.
pub struct MapToStyleSheetsMarker<SS>(pub PhantomData<SS>);

} // verus!
