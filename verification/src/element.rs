use vstd::prelude::*;
use core::marker::PhantomData;
use crate::element_view::{ElementView, SoloView};
use crate::element_children::{ElementViewChildren, view_children};
use crate::renderer::{opt_node, NodeTree, Renderer, RendererNodeId, RendererWorld, ViewCtx, ViewMemberCtx, ViewMemberIndex, member_state, set_member_state, take_member_state};
use crate::view::{IntoView, ViewKey, ViewMember, XView};

verus! {

pub type AttrIndex = u8;

/// A value an attribute can take.
pub trait AttrValue: Sized + 'static {
    /// The value an unset attribute takes.
    spec fn default_spec() -> Self;

    fn default_value() -> (r: Self)
        ensures
            r == Self::default_spec(),
    ;

    /// Whether two values are the same value.
    spec fn same_value(&self, other: &Self) -> bool;

    fn eq(&self, other: &Self) -> (r: bool)
        ensures
            r == self.same_value(other),
    ;
}

impl AttrValue for u8 {
    open spec fn default_spec() -> Self {
        0
    }

    fn default_value() -> (r: Self)
        ensures
            r == 0,
    {
        0
    }

    open spec fn same_value(&self, other: &Self) -> bool {
        *self == *other
    }

    fn eq(&self, other: &Self) -> bool {
        *self == *other
    }
}

impl AttrValue for u16 {
    open spec fn default_spec() -> Self {
        0
    }

    fn default_value() -> (r: Self)
        ensures
            r == 0,
    {
        0
    }

    open spec fn same_value(&self, other: &Self) -> bool {
        *self == *other
    }

    fn eq(&self, other: &Self) -> bool {
        *self == *other
    }
}

impl AttrValue for u32 {
    open spec fn default_spec() -> Self {
        0
    }

    fn default_value() -> (r: Self)
        ensures
            r == 0,
    {
        0
    }

    open spec fn same_value(&self, other: &Self) -> bool {
        *self == *other
    }

    fn eq(&self, other: &Self) -> bool {
        *self == *other
    }
}

impl AttrValue for u64 {
    open spec fn default_spec() -> Self {
        0
    }

    fn default_value() -> (r: Self)
        ensures
            r == 0,
    {
        0
    }

    open spec fn same_value(&self, other: &Self) -> bool {
        *self == *other
    }

    fn eq(&self, other: &Self) -> bool {
        *self == *other
    }
}

impl AttrValue for i32 {
    open spec fn default_spec() -> Self {
        0
    }

    fn default_value() -> (r: Self)
        ensures
            r == 0,
    {
        0
    }

    open spec fn same_value(&self, other: &Self) -> bool {
        *self == *other
    }

    fn eq(&self, other: &Self) -> bool {
        *self == *other
    }
}

impl AttrValue for i64 {
    open spec fn default_spec() -> Self {
        0
    }

    fn default_value() -> (r: Self)
        ensures
            r == 0,
    {
        0
    }

    open spec fn same_value(&self, other: &Self) -> bool {
        *self == *other
    }

    fn eq(&self, other: &Self) -> bool {
        *self == *other
    }
}

impl AttrValue for usize {
    open spec fn default_spec() -> Self {
        0
    }

    fn default_value() -> (r: Self)
        ensures
            r == 0,
    {
        0
    }

    open spec fn same_value(&self, other: &Self) -> bool {
        *self == *other
    }

    fn eq(&self, other: &Self) -> bool {
        *self == *other
    }
}

impl AttrValue for bool {
    open spec fn default_spec() -> Self {
        false
    }

    fn default_value() -> (r: Self)
        ensures
            r == false,
    {
        false
    }

    open spec fn same_value(&self, other: &Self) -> bool {
        *self == *other
    }

    fn eq(&self, other: &Self) -> bool {
        *self == *other
    }
}

/// The index of an attribute among the attributes of its element.
pub trait HasIndex {
    spec fn index_spec() -> AttrIndex;

    fn index() -> (r: AttrIndex)
        ensures
            r == Self::index_spec(),
    ;
}

/// An attribute of an element, with the type of its value.
pub trait ElementAttrType<R: Renderer>: HasIndex + Sized + 'static {
    type Value: AttrValue + Clone;

    /// The attribute's name.
    spec fn name_spec() -> &'static str;

    fn name() -> (r: &'static str)
        ensures
            r == Self::name_spec(),
    ;

    /// Whether `after` is `before` once `value` is written into the node.
    spec fn updates(
        before: RendererWorld<R>,
        node_id: RendererNodeId<R>,
        value: Self::Value,
        after: RendererWorld<R>,
    ) -> bool;

    /// Writes a value into the node.
    fn update_value(world: &mut RendererWorld<R>, node_id: RendererNodeId<R>, value: Self::Value)
        ensures
            Self::updates(*old(world), node_id, value, *final(world)),
    ;

    /// Writes the first value into the node.
    fn first_set_value(world: &mut RendererWorld<R>, node_id: RendererNodeId<R>, value: Self::Value)
        default_ensures
            Self::updates(*old(world), node_id, value, *final(world)),
    {
        Self::update_value(world, node_id, value)
    }

    /// Writes a value (the default value for `None`) into the node, as a
    /// first value when the attribute was not set before (what a first value
    /// does is up to `first_set_value`, which an attribute may override).
    fn set_value(world: &mut RendererWorld<R>, node_id: RendererNodeId<R>, value: Option<Self::Value>)
        ensures
            exists|mid: RendererWorld<R>, was_set: bool|
                #![trigger old(world).prepares_attr(node_id, Self::index_spec(), mid, was_set)]
                {
                    &&& old(world).prepares_attr(node_id, Self::index_spec(), mid, was_set)
                    &&& was_set ==> Self::updates(
                        mid,
                        node_id,
                        value_or_default::<Self::Value>(value),
                        *final(world),
                    )
                },
    {
        let ghost asked = value;
        let value = match value {
            Some(v) => v,
            None => Self::Value::default_value(),
        };
        assert(value == value_or_default::<Self::Value>(asked));
        let was_set = world.prepare_set_attr_and_get_is_init(&node_id, Self::index());
        let ghost mid = *world;
        if was_set {
            Self::update_value(world, node_id, value);
        } else {
            Self::first_set_value(world, node_id, value);
        }
        assert(old(world).prepares_attr(node_id, Self::index_spec(), mid, was_set));
    }

    /// Writes the default value into the node.
    fn set_default_value(world: &mut RendererWorld<R>, node_id: RendererNodeId<R>)
        ensures
            Self::updates(*old(world), node_id, <Self::Value as AttrValue>::default_spec(), *final(world)),
    {
        Self::update_value(world, node_id, Self::Value::default_value())
    }
}

/// The value itself, or the default value for `None`.
pub open spec fn value_or_default<V: AttrValue>(value: Option<V>) -> V {
    match value {
        Some(v) => v,
        None => V::default_spec(),
    }
}

/// Whether `after` is `before` once `value` (the default value for `None`) is
/// set as attribute `EA` of the node: the attribute is marked as set, then,
/// when it had been set before, the value is written over it (a first value
/// is written as `EA` chooses).
pub open spec fn value_sets<R: Renderer, EA: ElementAttrType<R>>(
    before: RendererWorld<R>,
    node_id: RendererNodeId<R>,
    value: Option<EA::Value>,
    after: RendererWorld<R>,
) -> bool {
    exists|mid: RendererWorld<R>, was_set: bool|
        #![trigger before.prepares_attr(node_id, EA::index_spec(), mid, was_set)]
        {
            &&& before.prepares_attr(node_id, EA::index_spec(), mid, was_set)
            &&& was_set ==> EA::updates(mid, node_id, value_or_default::<EA::Value>(value), after)
        }
}

/// Whether `after` is `before` once `value` is kept in the member's slot
/// (when it will be rebuilt) and then set as the attribute.
pub open spec fn attr_kept_then_set<R: Renderer, EA: ElementAttrType<R>>(
    value: EA::Value,
    index: ViewMemberIndex,
    node_id: RendererNodeId<R>,
    will_rebuild: bool,
    before: RendererWorld<R>,
    after: RendererWorld<R>,
) -> bool {
    exists|mid: RendererWorld<R>|
        #![trigger value_sets::<R, EA>(mid, node_id, Some(value), after)]
        {
            &&& (!will_rebuild ==> mid == before)
            &&& (will_rebuild ==> (member_state::<R, ElementAttrValue<EA::Value>>(mid, node_id, index) matches Some(
                kept,
            ) && cloned::<EA::Value>(value, kept.0)))
            &&& value_sets::<R, EA>(mid, node_id, Some(value), after)
        }
}

/// Whether `after` is some world once `value` is set as the attribute.
pub open spec fn attr_set_later<R: Renderer, EA: ElementAttrType<R>>(
    value: EA::Value,
    node_id: RendererNodeId<R>,
    after: RendererWorld<R>,
) -> bool {
    exists|mid: RendererWorld<R>|
        #![trigger value_sets::<R, EA>(mid, node_id, Some(value), after)]
        value_sets::<R, EA>(mid, node_id, Some(value), after)
}

/// An attribute whose value type is not known statically.
pub trait ElementAttrUntyped<R: Renderer> {
    fn attr_name(&self) -> &'static str;

    fn index(&self) -> u8;
}

impl<R: Renderer, T: ElementAttrType<R>> ElementAttrUntyped<R> for T {
    fn attr_name(&self) -> (r: &'static str)
        ensures
            r == T::name_spec(),
    {
        T::name()
    }

    fn index(&self) -> (r: u8)
        ensures
            r == T::index_spec(),
    {
        T::index()
    }
}

/// An element type: its tag and how to spawn a node of it.
pub trait ElementType<R: Renderer>: 'static {
    /// The element's tag.
    spec fn tag_name_spec() -> &'static str;

    /// Whether `after` is `before` once a node of this element is spawned
    /// under `parent` (on the reserved node, if any), `node_id` being that
    /// node.
    spec fn spawns(
        before: RendererWorld<R>,
        parent: Option<RendererNodeId<R>>,
        reserve_node_id: Option<RendererNodeId<R>>,
        after: RendererWorld<R>,
        node_id: RendererNodeId<R>,
    ) -> bool;

    fn tag_name() -> (r: &'static str)
        ensures
            r == Self::tag_name_spec(),
    ;

    fn spawn(
        world: &mut RendererWorld<R>,
        parent: Option<&RendererNodeId<R>>,
        reserve_node_id: Option<RendererNodeId<R>>,
    ) -> (r: RendererNodeId<R>)
        ensures
            Self::spawns(*old(world), opt_node(parent), reserve_node_id, *final(world), r),
    ;
}

/// An element type whose type is not known statically.
pub trait ElementTypeUnTyped<R: Renderer> {
    fn tag_name(&self) -> &'static str;

    fn spawn(
        &self,
        world: &mut RendererWorld<R>,
        parent: Option<&RendererNodeId<R>>,
        reserve_node_id: Option<RendererNodeId<R>>,
    ) -> RendererNodeId<R>;
}

impl<R: Renderer, T: ElementType<R>> ElementTypeUnTyped<R> for T {
    fn tag_name(&self) -> (r: &'static str)
        ensures
            r == T::tag_name_spec(),
    {
        T::tag_name()
    }

    fn spawn(
        &self,
        world: &mut RendererWorld<R>,
        parent: Option<&RendererNodeId<R>>,
        reserve_node_id: Option<RendererNodeId<R>>,
    ) -> (r: RendererNodeId<R>)
        ensures
            T::spawns(*old(world), opt_node(parent), reserve_node_id, *final(world), r),
    {
        T::spawn(world, parent, reserve_node_id)
    }
}

/// An element type as the renderer knows it.
pub trait RendererElementType<R: Renderer> {
    fn name() -> &'static str;

    fn spawn(
        world: &mut RendererWorld<R>,
        parent: Option<RendererNodeId<R>>,
        reserve_node_id: Option<RendererNodeId<R>>,
    ) -> RendererNodeId<R>;
}

/// A member that sets attribute `EA`.
pub trait ElementAttrMember<R: Renderer, EA: ElementAttrType<R>>: ViewMember<R> {

}

/// The last value an attribute member set, kept to skip unchanged rebuilds.
pub struct ElementAttrValue<V>(pub V);

/// A member that sets attribute `EA` to a value and keeps it up to date.
pub struct ElementAttr<R: Renderer, EA: ElementAttrType<R>>(pub EA::Value, pub PhantomData<R>);

impl<R: Renderer, EA: ElementAttrType<R>> ElementAttr<R, EA> {
    pub fn new(value: EA::Value) -> (r: Self)
        ensures
            r.0 == value,
    {
        ElementAttr(value, PhantomData)
    }
}

impl<R: Renderer, EA: ElementAttrType<R>> ElementAttrMember<R, EA> for ElementAttr<R, EA> {

}

impl<R: Renderer, EA: ElementAttrType<R>> ViewMember<R> for ElementAttr<R, EA> {
    open spec fn count_spec() -> ViewMemberIndex {
        1
    }

    fn count() -> ViewMemberIndex {
        1
    }

    /// Unbuilding leaves the world as it is when the whole view is removed,
    /// and resets the attribute to its default value otherwise.
    open spec fn unbuilds(
        index: ViewMemberIndex,
        node_id: RendererNodeId<R>,
        view_removed: bool,
        before: RendererWorld<R>,
        after: RendererWorld<R>,
    ) -> bool {
        if view_removed {
            after == before
        } else {
            EA::updates(before, node_id, <EA::Value as AttrValue>::default_spec(), after)
        }
    }

    /// Resets the attribute, unless the whole view is being removed.
    fn unbuild(ctx: ViewMemberCtx<R>, view_removed: bool) {
        if view_removed {
            return;
        }
        EA::set_default_value(ctx.world, ctx.node_id);
    }

    /// The attribute is set to the value (after the value is kept in the
    /// member's slot, when it will be rebuilt).
    open spec fn member_builds(
        self,
        index: ViewMemberIndex,
        node_id: RendererNodeId<R>,
        will_rebuild: bool,
        before: RendererWorld<R>,
        after: RendererWorld<R>,
    ) -> bool {
        attr_kept_then_set::<R, EA>(self.0, index, node_id, will_rebuild, before, after)
    }

    /// The attribute is left as it is when the kept value is the same value;
    /// otherwise the new value is kept and the attribute set to it.
    open spec fn member_rebuilds(
        self,
        index: ViewMemberIndex,
        node_id: RendererNodeId<R>,
        before: RendererWorld<R>,
        after: RendererWorld<R>,
    ) -> bool {
        match member_state::<R, ElementAttrValue<EA::Value>>(before, node_id, index) {
            Some(last) => if last.0.same_value(&self.0) {
                member_state::<R, ElementAttrValue<EA::Value>>(after, node_id, index) == Some(last)
            } else {
                attr_kept_then_set::<R, EA>(self.0, index, node_id, true, before, after)
            },
            None => attr_set_later::<R, EA>(self.0, node_id, after),
        }
    }

    /// Sets the attribute, keeping the value when it will be rebuilt.
    fn build(self, ctx: ViewMemberCtx<R>, will_rebuild: bool) {
        let world = ctx.world;
        let node_id = ctx.node_id;
        if will_rebuild {
            set_member_state::<R, ElementAttrValue<EA::Value>>(
                &mut *world,
                &node_id,
                ctx.index,
                ElementAttrValue(self.0.clone()),
            );
        }
        let ghost mid = *world;
        let ghost value = self.0;
        EA::set_value(&mut *world, node_id, Some(self.0));
        assert(value_sets::<R, EA>(mid, ctx.node_id, Some(value), *world));
    }

    /// Sets the attribute again unless it keeps the value it was last set to.
    fn rebuild(self, ctx: ViewMemberCtx<R>) {
        let world = ctx.world;
        let node_id = ctx.node_id;
        let index = ctx.index;
        match take_member_state::<R, ElementAttrValue<EA::Value>>(&mut *world, &node_id, index) {
            Some(last) => {
                if last.0.eq(&self.0) {
                    set_member_state::<R, ElementAttrValue<EA::Value>>(&mut *world, &node_id, index, last);
                    return ;
                } else {
                    set_member_state::<R, ElementAttrValue<EA::Value>>(
                        &mut *world,
                        &node_id,
                        index,
                        ElementAttrValue(self.0.clone()),
                    );
                }
            },
            None => {},
        }
        let ghost mid = *world;
        let ghost value = self.0;
        EA::set_value(&mut *world, node_id, Some(self.0));
        assert(value_sets::<R, EA>(mid, ctx.node_id, Some(value), *world));
    }
}

/// A member that sets attribute `EA` once.
pub struct StaticElementAttr<R: Renderer, EA: ElementAttrType<R>>(pub EA::Value, pub PhantomData<R>);

impl<R: Renderer, EA: ElementAttrType<R>> StaticElementAttr<R, EA> {
    pub fn new(value: EA::Value) -> (r: Self)
        ensures
            r.0 == value,
    {
        StaticElementAttr(value, PhantomData)
    }
}

impl<R: Renderer, EA: ElementAttrType<R>> ViewMember<R> for StaticElementAttr<R, EA> {
    open spec fn count_spec() -> ViewMemberIndex {
        1
    }

    fn count() -> ViewMemberIndex {
        1
    }

    /// Unbuilding leaves the world as it is when the whole view is removed,
    /// and resets the attribute to its default value otherwise.
    open spec fn unbuilds(
        index: ViewMemberIndex,
        node_id: RendererNodeId<R>,
        view_removed: bool,
        before: RendererWorld<R>,
        after: RendererWorld<R>,
    ) -> bool {
        if view_removed {
            after == before
        } else {
            EA::updates(before, node_id, <EA::Value as AttrValue>::default_spec(), after)
        }
    }

    fn unbuild(ctx: ViewMemberCtx<R>, view_removed: bool) {
        if view_removed {
            return;
        }
        EA::set_default_value(ctx.world, ctx.node_id);
    }

    /// Set as a member that will not be rebuilt.
    open spec fn member_builds(
        self,
        index: ViewMemberIndex,
        node_id: RendererNodeId<R>,
        will_rebuild: bool,
        before: RendererWorld<R>,
        after: RendererWorld<R>,
    ) -> bool {
        ElementAttr::<R, EA>(self.0, PhantomData).member_builds(index, node_id, false, before, after)
    }

    /// A static attribute does not change.
    open spec fn member_rebuilds(
        self,
        index: ViewMemberIndex,
        node_id: RendererNodeId<R>,
        before: RendererWorld<R>,
        after: RendererWorld<R>,
    ) -> bool {
        after == before
    }

    /// Sets the attribute as a member that will not be rebuilt.
    fn build(self, ctx: ViewMemberCtx<R>, will_rebuild: bool) {
        ElementAttr::<R, EA>::new(self.0).build(ctx, false);
    }

    /// A static attribute does not change.
    fn rebuild(self, ctx: ViewMemberCtx<R>) {
    }
}

/// An attribute member carried by another value (such as a future that
/// gives the member), re-targeted at the attribute `M`.
pub struct ElementAttrMemberWrapper<T, M>(pub T, pub PhantomData<M>);

impl<T, M> ElementAttrMemberWrapper<T, M> {
    pub fn new(value: T) -> (r: Self)
        ensures
            r.0 == value,
    {
        ElementAttrMemberWrapper(value, PhantomData)
    }
}

/// An element of type `E` with members `VM`.
pub struct Element<R, E, VM> {
    pub members: VM,
    pub _marker: PhantomData<(R, E)>,
}

impl<R: Renderer, E: ElementType<R>, VM: ViewMember<R>> Element<R, E, VM> {
    pub fn new(members: VM) -> (r: Self)
        ensures
            r.members == members,
    {
        Element { members, _marker: PhantomData }
    }

    /// This element with children built under its node.
    pub fn children<CV: IntoView<R>>(self, children: CV) -> (r: ElementViewChildren<
        Element<R, E, VM>,
        CV::View,
        R,
    >)
        ensures
            r.view == self,
            r.children == children.view_of(),
    {
        view_children(self, children)
    }
}

/// The key of an element: its node.
pub struct ElementViewKey<R: Renderer, VM>(pub RendererNodeId<R>, pub PhantomData<VM>);

impl<R: Renderer, VM> Clone for ElementViewKey<R, VM> {
    fn clone(&self) -> Self {
        ElementViewKey(self.0.clone(), PhantomData)
    }
}

impl<R: Renderer, VM: ViewMember<R>> ViewKey<R> for ElementViewKey<R, VM> {
    /// The members are unbuilt (the view is going away), then the node is
    /// removed.
    open spec fn view_removes(&self, before: RendererWorld<R>, after: RendererWorld<R>) -> bool {
        exists|mid: RendererWorld<R>, n: RendererNodeId<R>|
            #![trigger VM::unbuilds(0, n, true, before, mid)]
            {
                &&& cloned::<RendererNodeId<R>>(self.0, n)
                &&& VM::unbuilds(0, n, true, before, mid)
                &&& mid.removes_node(self.0, after)
            }
    }

    /// The node alone is moved.
    open spec fn view_inserts_before(
        &self,
        before: RendererWorld<R>,
        parent: Option<RendererNodeId<R>>,
        before_node_id: Option<RendererNodeId<R>>,
        after: RendererWorld<R>,
    ) -> bool {
        exists|ids: &[RendererNodeId<R>]|
            #![trigger before.inserts_nodes_before(parent, before_node_id, ids, after)]
            {
                &&& ids@.len() == 1
                &&& cloned::<RendererNodeId<R>>(self.0, ids@[0])
                &&& before.inserts_nodes_before(parent, before_node_id, ids, after)
            }
    }

    open spec fn view_sets_visibility(&self, before: RendererWorld<R>, hidden: bool, after: RendererWorld<R>) -> bool {
        before.sets_node_visibility(hidden, self.0, after)
    }

    open spec fn view_state_node(&self) -> Option<RendererNodeId<R>> {
        Some(self.0)
    }

    open spec fn view_first_node(&self, world: RendererWorld<R>) -> Option<RendererNodeId<R>> {
        Some(self.0)
    }

    /// A node is reserved (or spawned) under the parent.
    open spec fn view_reserves(
        before: RendererWorld<R>,
        will_rebuild: bool,
        parent: RendererNodeId<R>,
        spawn: bool,
        after: RendererWorld<R>,
        key: Self,
    ) -> bool {
        before.reserves_node(parent, spawn, after, key.0)
    }

    /// Unbuilds the members (the view is going away) and removes the node.
    fn remove(self, world: &mut RendererWorld<R>) {
        let ghost w0 = *world;
        let n = self.0.clone();
        VM::unbuild(ViewMemberCtx { index: 0, world: &mut *world, node_id: n }, true);
        let ghost mid = *world;
        world.remove_node(&self.0);
        assert(VM::unbuilds(0, n, true, w0, mid));
    }

    fn insert_before(
        &self,
        world: &mut RendererWorld<R>,
        parent: Option<&RendererNodeId<R>>,
        before_node_id: Option<&RendererNodeId<R>>,
    ) {
        let ghost w0 = *world;
        let ids = [self.0.clone()];
        world.insert_before(parent, before_node_id, &ids);
        assert(w0.inserts_nodes_before(opt_node(parent), opt_node(before_node_id), &ids, *world));
    }

    fn set_visibility(&self, world: &mut RendererWorld<R>, hidden: bool) {
        world.set_visibility(hidden, &self.0);
    }

    fn state_node_id(&self) -> (r: Option<RendererNodeId<R>>)
        ensures
            r is Some,
    {
        Some(self.0.clone())
    }

    fn reserve_key(
        world: &mut RendererWorld<R>,
        will_rebuild: bool,
        parent: RendererNodeId<R>,
        spawn: bool,
    ) -> Self {
        ElementViewKey(world.reserve_node_id_or_spawn(parent, spawn), PhantomData)
    }

    /// The element's node.
    fn first_node_id(&self, world: &RendererWorld<R>) -> (r: Option<RendererNodeId<R>>)
        ensures
            r is Some,
    {
        Some(self.0.clone())
    }
}

impl<R: Renderer, E: ElementType<R>, VM: ViewMember<R>> XView<R> for Element<R, E, VM> {
    type Key = ElementViewKey<R, VM>;

    /// The element's node is spawned (on the reserved node, if any), then its
    /// members are built on it.
    open spec fn builds(
        self,
        parent: RendererNodeId<R>,
        reserve_key: Option<Self::Key>,
        will_rebuild: bool,
        before: RendererWorld<R>,
        after: RendererWorld<R>,
        key: Self::Key,
    ) -> bool {
        exists|mid: RendererWorld<R>, n: RendererNodeId<R>|
            #![trigger self.members.member_builds(0, n, will_rebuild, mid, after)]
            {
                &&& E::spawns(
                    before,
                    Some(parent),
                    match reserve_key {
                        Some(k) => Some(k.0),
                        None => None,
                    },
                    mid,
                    key.0,
                )
                &&& cloned::<RendererNodeId<R>>(key.0, n)
                &&& self.members.member_builds(0, n, will_rebuild, mid, after)
            }
    }

    /// The members are rebuilt on the element's node.
    open spec fn rebuilds(
        self,
        parent: RendererNodeId<R>,
        key: Self::Key,
        before: RendererWorld<R>,
        after: RendererWorld<R>,
    ) -> bool {
        self.members.member_rebuilds(0, key.0, before, after)
    }

    /// Spawns the element's node (on the reserved node, if any), then builds
    /// its members on it.
    fn build(self, ctx: ViewCtx<R>, reserve_key: Option<Self::Key>, will_rebuild: bool) -> Self::Key {
        let world = ctx.world;
        let parent = ctx.parent;
        let reserved = match reserve_key {
            Some(k) => Some(k.0),
            None => None,
        };
        let spawned_node_id = E::spawn(world, Some(&parent), reserved);
        let ghost mid = *world;
        let n = spawned_node_id.clone();
        self.members.build(ViewMemberCtx { index: 0, world: &mut *world, node_id: n }, will_rebuild);
        assert(self.members.member_builds(0, n, will_rebuild, mid, *world));
        ElementViewKey(spawned_node_id, PhantomData)
    }

    fn rebuild(self, ctx: ViewCtx<R>, state_key: Self::Key) {
        self.members.rebuild(ViewMemberCtx { index: 0, world: ctx.world, node_id: state_key.0 });
    }
}

impl<R: Renderer, E: ElementType<R>, VM: ViewMember<R>> IntoView<R> for Element<R, E, VM> {
    type View = Element<R, E, VM>;

    open spec fn view_of(self) -> Self::View {
        self
    }

    fn into_view(self) -> (r: Self::View)
        ensures
            r == self,
    {
        self
    }
}

impl<R: Renderer, E: ElementType<R>, VM: ViewMember<R>> SoloView<R> for Element<R, E, VM> {
    open spec fn node_of(key: Self::Key) -> RendererNodeId<R> {
        key.0
    }

    fn node_id(key: &Self::Key) -> &RendererNodeId<R> {
        &key.0
    }
}

impl<R: Renderer, E: ElementType<R>, VM: ViewMember<R>> ElementView<R> for Element<R, E, VM> {
    fn element_node_id(key: &Self::Key) -> &RendererNodeId<R> {
        &key.0
    }

    open spec fn member_count_spec(&self) -> ViewMemberIndex {
        VM::count_spec()
    }

    fn member_count(&self) -> (r: ViewMemberIndex)
        ensures
            r == VM::count_spec(),
    {
        VM::count()
    }
}

} // verus!

verus! {

/// Two attribute values of the plain types are the same value exactly when
/// they are equal, so a rebuild skips the write only for an equal value; an
/// unset attribute of a plain type takes the type's zero (or `false`).
pub proof fn attr_values_are_the_same_exactly_when_equal()
    ensures
        <u8 as AttrValue>::default_spec() == 0 && <u16 as AttrValue>::default_spec() == 0
            && <u32 as AttrValue>::default_spec() == 0 && <u64 as AttrValue>::default_spec() == 0
            && <i32 as AttrValue>::default_spec() == 0 && <i64 as AttrValue>::default_spec() == 0
            && <usize as AttrValue>::default_spec() == 0 && !<bool as AttrValue>::default_spec(),
        forall|a: u8, b: u8| #[trigger] a.same_value(&b) <==> a == b,
        forall|a: u16, b: u16| #[trigger] a.same_value(&b) <==> a == b,
        forall|a: u32, b: u32| #[trigger] a.same_value(&b) <==> a == b,
        forall|a: u64, b: u64| #[trigger] a.same_value(&b) <==> a == b,
        forall|a: i32, b: i32| #[trigger] a.same_value(&b) <==> a == b,
        forall|a: i64, b: i64| #[trigger] a.same_value(&b) <==> a == b,
        forall|a: usize, b: usize| #[trigger] a.same_value(&b) <==> a == b,
        forall|a: bool, b: bool| #[trigger] a.same_value(&b) <==> a == b,
{
}

/// Rebuilding an attribute member whose kept value is `last`: when the new
/// value equals `last`, the kept value stays and nothing is written; when it
/// differs, a clone of the new value is kept and the new value is set on the
/// node. (This holds for every value type whose sameness is equality, as it
/// is for the plain types.)
pub proof fn rebuilt_attr_writes_a_changed_value<R: Renderer, EA: ElementAttrType<R>>(
    member: ElementAttr<R, EA>,
    index: ViewMemberIndex,
    node_id: RendererNodeId<R>,
    before: RendererWorld<R>,
    after: RendererWorld<R>,
    last: EA::Value,
)
    requires
        forall|a: EA::Value, b: EA::Value| #[trigger] a.same_value(&b) <==> a == b,
        member_state::<R, ElementAttrValue<EA::Value>>(before, node_id, index) == Some(ElementAttrValue(last)),
        member.member_rebuilds(index, node_id, before, after),
    ensures
        last == member.0 ==> member_state::<R, ElementAttrValue<EA::Value>>(after, node_id, index) == Some(
            ElementAttrValue(last),
        ),
        last != member.0 ==> exists|mid: RendererWorld<R>|
            #![trigger value_sets::<R, EA>(mid, node_id, Some(member.0), after)]
            {
                &&& member_state::<R, ElementAttrValue<EA::Value>>(mid, node_id, index) matches Some(kept)
                    && cloned::<EA::Value>(member.0, kept.0)
                &&& value_sets::<R, EA>(mid, node_id, Some(member.0), after)
            },
{
    assert(last.same_value(&member.0) <==> last == member.0);
}

/// Rebuilding a `u32` attribute with a value other than the kept one keeps
/// the new value and sets it on the node; with the kept value, it keeps it
/// and writes nothing.
pub proof fn rebuilt_u32_attr_writes_a_changed_value<R: Renderer, EA: ElementAttrType<R, Value = u32>>(
    member: ElementAttr<R, EA>,
    index: ViewMemberIndex,
    node_id: RendererNodeId<R>,
    before: RendererWorld<R>,
    after: RendererWorld<R>,
    last: u32,
)
    requires
        member_state::<R, ElementAttrValue<u32>>(before, node_id, index) == Some(ElementAttrValue(last)),
        member.member_rebuilds(index, node_id, before, after),
    ensures
        last == member.0 ==> member_state::<R, ElementAttrValue<u32>>(after, node_id, index) == Some(
            ElementAttrValue(last),
        ),
        last != member.0 ==> exists|mid: RendererWorld<R>|
            #![trigger value_sets::<R, EA>(mid, node_id, Some(member.0), after)]
            {
                &&& member_state::<R, ElementAttrValue<u32>>(mid, node_id, index) == Some(ElementAttrValue(member.0))
                &&& value_sets::<R, EA>(mid, node_id, Some(member.0), after)
            },
{
    attr_values_are_the_same_exactly_when_equal();
    rebuilt_attr_writes_a_changed_value::<R, EA>(member, index, node_id, before, after, last);
}

} // verus!
