use vstd::prelude::*;
use crate::renderer::{Renderer, RendererNodeId, ViewMemberIndex};
use crate::view::{IntoView, XView};

verus! {

/// A view built as a single node.
pub trait SoloView<R: Renderer>: XView<R> {
    /// The node that a view built with `key` stands as.
    spec fn node_of(key: Self::Key) -> RendererNodeId<R>;

    fn node_id(key: &Self::Key) -> (r: &RendererNodeId<R>)
        ensures
            *r == Self::node_of(*key),
    ;
}

/// A view built as an element node that members can be attached to.
pub trait ElementView<R: Renderer>: SoloView<R> {
    /// The element's node, which is the node the view stands as.
    fn element_node_id(key: &Self::Key) -> (r: &RendererNodeId<R>)
        ensures
            *r == Self::node_of(*key),
    {
        Self::node_id(key)
    }

    /// How many member slots the element's own members take.
    spec fn member_count_spec(&self) -> ViewMemberIndex;

    /// How many member slots the element's own members take.
    fn member_count(&self) -> (r: ViewMemberIndex)
        ensures
            r == self.member_count_spec(),
    ;
}

/// What converts into an element view.
pub trait IntoElementView<R: Renderer> {
    type View: ElementView<R>;

    fn into_element_view(self) -> Self::View;
}

/// What converts into a view that can be cloned.
pub trait IntoCloneableView<R: Renderer> {
    type View: XView<R> + Clone;

    fn into_cloneable_view(self) -> Self::View;
}

} // verus!
