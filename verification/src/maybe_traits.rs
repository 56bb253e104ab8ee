use vstd::prelude::*;

verus! {

/// Reflection, when the renderer uses it; every type qualifies here.
pub trait MaybeReflect {

}

impl<T: ?Sized> MaybeReflect for T {

}

pub trait MaybeFromReflect {

}

impl<T: ?Sized> MaybeFromReflect for T {

}

pub trait MaybeTypePath {

}

impl<T: ?Sized> MaybeTypePath for T {

}

/// Sending across threads, when the renderer needs it; every type qualifies here.
pub trait MaybeSend {

}

impl<T: ?Sized> MaybeSend for T {

}

pub trait MaybeSync {

}

impl<T: ?Sized> MaybeSync for T {

}

} // verus!
