use vstd::prelude::*;
use crate::renderer::{Renderer, TaskState};

verus! {

/// A view or member shown once a future resolves.
pub struct XFuture<T>(pub T);

/// Wraps a future as a view or member.
pub fn x_future<T>(f: T) -> (r: XFuture<T>)
    ensures
        r.0 == f,
{
    XFuture(f)
}

/// The task that drives a future view, kept on the view's node.
pub struct XFutureState<R: Renderer>(pub TaskState<R>);

impl<R: Renderer> XFutureState<R> {
    pub fn new(task: R::Task) -> (r: Self)
        ensures
            r.0.0 == task,
    {
        XFutureState(TaskState::new(task))
    }
}

/// The task that drives a stream view, kept on the view's node.
pub struct XStreamState<R: Renderer>(pub TaskState<R>);

impl<R: Renderer> XStreamState<R> {
    pub fn new(task: R::Task) -> (r: Self)
        ensures
            r.0.0 == task,
    {
        XStreamState(TaskState::new(task))
    }
}

} // verus!
