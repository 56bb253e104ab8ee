use vstd::prelude::*;
use core::marker::PhantomData;
use crate::either::Either;
use crate::renderer::Renderer;
use crate::view::IntoView;
use crate::to_mutable::ToMutableWrapper;

verus! {

/// A view shown when a condition holds, with another view (none by default)
/// shown when it does not.
pub struct XIf<R, C, V, V2> {
    pub view: V,
    pub else_view: V2,
    pub condition: C,
    pub _marker: PhantomData<R>,
}

impl<R: Renderer, C, V> XIf<R, C, V, ()> {
    /// Sets the view shown when the condition does not hold.
    pub fn else_view<V2: IntoView<R>>(self, else_view: V2) -> (r: XIf<R, C, V, V2>)
        ensures
            r.view == self.view,
            r.else_view == else_view,
            r.condition == self.condition,
    {
        XIf { view: self.view, else_view, condition: self.condition, _marker: PhantomData }
    }
}

/// Shows `v` when `condition` holds, and nothing otherwise.
pub fn x_if<R: Renderer, IV: IntoView<R>, C>(condition: C, v: IV) -> (r: XIf<R, C, IV, ()>)
    ensures
        r.view == v,
        r.condition == condition,
{
    XIf { view: v, else_view: (), condition, _marker: PhantomData }
}

/// The view shown for a value of the condition: the first view when it
/// holds, the other one when it does not.
pub fn x_if_else<V, EV>(condition: bool, v: V, else_view: EV) -> (r: Either<V, EV>)
    ensures
        r == (if condition {
            Either::<V, EV>::Left(v)
        } else {
            Either::<V, EV>::Right(else_view)
        }),
{
    if condition {
        Either::Left(v)
    } else {
        Either::Right(else_view)
    }
}

impl<R: Renderer, IV: IntoView<R>, EV: IntoView<R>> IntoView<R> for XIf<R, bool, IV, EV> {
    type View = <Either<IV, EV> as IntoView<R>>::View;

    open spec fn view_of(self) -> Self::View {
        (if self.condition {
            Either::<IV, EV>::Left(self.view)
        } else {
            Either::<IV, EV>::Right(self.else_view)
        }).view_of()
    }

    /// The view of the branch that the condition selects.
    fn into_view(self) -> Self::View {
        x_if_else(self.condition, self.view, self.else_view).into_view()
    }
}

} // verus!

verus! {

/// A conditional view shows its first view exactly when its condition
/// holds, and its else view otherwise.
pub proof fn x_if_shows_the_view_its_condition_selects<R: Renderer, IV: IntoView<R>, EV: IntoView<R>>(
    x: XIf<R, bool, IV, EV>,
)
    ensures
        (x.view_of().0 is Left) == x.condition,
        x.condition ==> x.view_of().0 == Either::<ToMutableWrapper<IV::View>, ToMutableWrapper<EV::View>>::Left(
            ToMutableWrapper(x.view.view_of()),
        ),
        !x.condition ==> x.view_of().0 == Either::<ToMutableWrapper<IV::View>, ToMutableWrapper<EV::View>>::Right(
            ToMutableWrapper(x.else_view.view_of()),
        ),
{
}

} // verus!
