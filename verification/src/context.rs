use vstd::prelude::*;
use core::marker::PhantomData;
use crate::element_view::{ElementView, SoloView};
use crate::renderer::{state_put, state_taken, NodeTree, Renderer, RendererNodeId, RendererWorld, ViewCtx};
use crate::view::{IntoView, ViewKey, XView};

verus! {

/// A value provided to every view built under a node.
#[derive(Clone, Debug)]
pub struct Context<T>(pub T);

/// The context of type `T` seen from `node`: the one stored on the node
/// itself, else the one seen from its parent.
pub open spec fn context_of<W: NodeTree, T>(world: W, node: W::NodeId) -> Option<T>
    decreases world.depth(node),
{
    match world.node_state::<Context<T>>(node) {
        Some(c) => Some(c.0),
        None => match world.parent_of(node) {
            Some(p) => if world.depth(p) < world.depth(node) {
                context_of::<W, T>(world, p)
            } else {
                None
            },
            None => None,
        },
    }
}

/// The node whose context of type `T` is seen from `node`: the node itself
/// when it holds one, else the one seen from its parent.
pub open spec fn context_node_of<W: NodeTree, T>(world: W, node: W::NodeId) -> Option<W::NodeId>
    decreases world.depth(node),
{
    match world.node_state::<Context<T>>(node) {
        Some(_) => Some(node),
        None => match world.parent_of(node) {
            Some(p) => if world.depth(p) < world.depth(node) {
                context_node_of::<W, T>(world, p)
            } else {
                None
            },
            None => None,
        },
    }
}

/// The context seen from a node is the one stored on the node that
/// `context_node_of` names.
pub proof fn lemma_context_node<W: NodeTree, T>(world: W, node: W::NodeId)
    ensures
        match context_node_of::<W, T>(world, node) {
            Some(c) => world.node_state::<Context<T>>(c) matches Some(cc) && context_of::<W, T>(
                world,
                node,
            ) == Some(cc.0),
            None => context_of::<W, T>(world, node) is None,
        },
    decreases world.depth(node),
{
    match world.node_state::<Context<T>>(node) {
        Some(_) => {},
        None => match world.parent_of(node) {
            Some(p) => if world.depth(p) < world.depth(node) {
                lemma_context_node::<W, T>(world, p);
            },
            None => {},
        },
    }
}

/// Once `t` is stored as the context of type `T` on `node`, every node that
/// finds its nearest such context on `node` (the node itself among them)
/// sees `t`.
pub proof fn provided_context_is_seen<W: NodeTree, T>(
    before: W,
    node: W::NodeId,
    t: T,
    after: W,
    n: W::NodeId,
)
    requires
        state_put::<W, Context<T>>(before, node, Context(t), after),
        context_node_of::<W, T>(after, n) == Some(node),
    ensures
        context_of::<W, T>(after, n) == Some(t),
        context_of::<W, T>(after, node) == Some(t),
{
    lemma_context_node::<W, T>(after, n);
}

impl<'a, R: Renderer> ViewCtx<'a, R> {
    /// The context of type `T` seen from the parent node, if there is one.
    pub fn get_context_ref<T: 'static>(&self) -> (r: Option<&T>)
        ensures
            match context_of::<RendererWorld<R>, T>(*old(self.world), self.parent) {
                Some(c) => r == Some(&c),
                None => r is None,
            },
    {
        let world: &RendererWorld<R> = &*self.world;
        let mut current_owned: Option<RendererNodeId<R>> = None;
        loop
            invariant
                context_of::<RendererWorld<R>, T>(*world, self.parent) == context_of::<
                    RendererWorld<R>,
                    T,
                >(
                    *world,
                    match current_owned {
                        Some(c) => c,
                        None => self.parent,
                    },
                ),
                *world == *old(self.world),
            decreases world.depth(
                match current_owned {
                    Some(c) => c,
                    None => self.parent,
                },
            ),
        {
            let current: &RendererNodeId<R> = match &current_owned {
                Some(c) => c,
                None => &self.parent,
            };
            if let Some(context) = world.get_node_state_ref::<Context<T>>(current) {
                return Some(&context.0);
            }
            match world.get_parent(current) {
                Some(parent) => {
                    current_owned = Some(parent);
                },
                None => {
                    return None;
                },
            }
        }
    }

    /// A clone of the context of type `T` seen from the parent node, if there
    /// is one.
    pub fn get_context<T: Clone + 'static>(&self) -> (r: Option<T>)
        ensures
            (r is Some) == (context_of::<RendererWorld<R>, T>(*old(self.world), self.parent) is Some),
            r matches Some(v) ==> cloned::<T>(
                context_of::<RendererWorld<R>, T>(*old(self.world), self.parent)->0,
                v,
            ),
    {
        match self.get_context_ref::<T>() {
            Some(c) => Some(c.clone()),
            None => None,
        }
    }

    /// The context of type `T` seen from the parent node; it must have been
    /// provided.
    pub fn context_ref<T: 'static>(&self) -> (r: &T)
        requires
            context_of::<RendererWorld<R>, T>(*old(self.world), self.parent) is Some,
        ensures
            context_of::<RendererWorld<R>, T>(*old(self.world), self.parent) == Some(*r),
    {
        self.get_context_ref::<T>().unwrap()
    }

    /// A clone of the context of type `T` seen from the parent node; it must
    /// have been provided.
    pub fn context<T: Clone + 'static>(&self) -> (r: T)
        requires
            context_of::<RendererWorld<R>, T>(*old(self.world), self.parent) is Some,
        ensures
            cloned::<T>(context_of::<RendererWorld<R>, T>(*old(self.world), self.parent)->0, r),
    {
        self.context_ref::<T>().clone()
    }

    /// Lets `f` change the context of type `T` seen from the parent node, in
    /// place; tells whether there was one.
    pub fn context_scoped<T: 'static, F: FnOnce(&mut T)>(&mut self, f: F) -> (r: bool)
        requires
            forall|x: &mut T| #[trigger] f.requires((x,)),
        ensures
            r == (context_of::<RendererWorld<R>, T>(*old(self).world, old(self).parent) is Some),
            final(self).parent == old(self).parent,
            !r ==> *final(self).world == *old(self).world,
            r ==> exists|x: &mut T, taken: RendererWorld<R>, node: RendererNodeId<R>|
                #![trigger f.ensures((x,), ()), state_taken::<RendererWorld<R>, Context<T>>(*old(self).world, node, taken)]
                {
                    &&& context_node_of::<RendererWorld<R>, T>(*old(self).world, old(self).parent)
                        == Some(node)
                    &&& old(self).world.node_state::<Context<T>>(node) matches Some(c) && *x == c.0
                    &&& state_taken::<RendererWorld<R>, Context<T>>(*old(self).world, node, taken)
                    &&& f.ensures((x,), ())
                    &&& state_put::<RendererWorld<R>, Context<T>>(
                        taken,
                        node,
                        Context(*final(x)),
                        *final(self).world,
                    )
                },
    {
        let ghost w0 = *self.world;
        let mut current_owned: Option<RendererNodeId<R>> = None;
        loop
            invariant
                *self.world == w0,
                self.parent == old(self).parent,
                w0 == *old(self).world,
                context_of::<RendererWorld<R>, T>(w0, self.parent) == context_of::<
                    RendererWorld<R>,
                    T,
                >(
                    w0,
                    match current_owned {
                        Some(c) => c,
                        None => self.parent,
                    },
                ),
                context_node_of::<RendererWorld<R>, T>(w0, self.parent) == context_node_of::<
                    RendererWorld<R>,
                    T,
                >(
                    w0,
                    match current_owned {
                        Some(c) => c,
                        None => self.parent,
                    },
                ),
                forall|x: &mut T| #[trigger] f.requires((x,)),
            decreases w0.depth(
                match current_owned {
                    Some(c) => c,
                    None => self.parent,
                },
            ),
        {
            let current: &RendererNodeId<R> = match &current_owned {
                Some(c) => c,
                None => &self.parent,
            };
            if self.world.get_node_state_ref::<Context<T>>(current).is_some() {
                let ghost node = *current;
                if let Some(mut context) = self.world.take_node_state::<Context<T>>(current) {
                    let ghost taken = *self.world;
                    let x = &mut context.0;
                    let ghost x0 = *x;
                    f(x);
                    assert(state_taken::<RendererWorld<R>, Context<T>>(w0, node, taken));
                    self.world.set_node_state(current, context);
                }
                return true;
            }
            match self.world.get_parent(current) {
                Some(parent) => {
                    current_owned = Some(parent);
                },
                None => {
                    return false;
                },
            }
        }
    }
}

/// A view that provides a context to itself and the views under it.
pub struct ProvideContext<R, T, V> {
    pub provide_context: T,
    pub view: V,
    pub _marker: PhantomData<R>,
}

pub fn provide_context<R: Renderer, T, IV: IntoView<R>>(context: T, view: IV) -> (r:
    ProvideContext<R, T, IV::View>)
    ensures
        r.provide_context == context,
        r.view == view.view_of(),
{
    ProvideContext { provide_context: context, view: view.into_view(), _marker: PhantomData }
}

impl<R: Renderer, T: 'static, V: ElementView<R>> XView<R> for ProvideContext<R, T, V> {
    type Key = V::Key;

    /// The element's key is reserved when none was given, the context stored
    /// on the element's node, then the element built on that key.
    open spec fn builds(
        self,
        parent: RendererNodeId<R>,
        reserve_key: Option<Self::Key>,
        will_rebuild: bool,
        before: RendererWorld<R>,
        after: RendererWorld<R>,
        key: Self::Key,
    ) -> bool {
        exists|reserved: RendererWorld<R>, stored: RendererWorld<R>, k: V::Key|
            #![trigger state_put::<RendererWorld<R>, Context<T>>(reserved, V::node_of(k), Context(self.provide_context), stored), self.view.builds(parent, Some(k), will_rebuild, stored, after, key)]
            {
                &&& match reserve_key {
                    Some(given) => k == given && reserved == before,
                    None => exists|p: RendererNodeId<R>|
                        #![trigger V::Key::view_reserves(before, will_rebuild, p, true, reserved, k)]
                        {
                            &&& cloned::<RendererNodeId<R>>(parent, p)
                            &&& V::Key::view_reserves(before, will_rebuild, p, true, reserved, k)
                        },
                }
                &&& state_put::<RendererWorld<R>, Context<T>>(
                    reserved,
                    V::node_of(k),
                    Context(self.provide_context),
                    stored,
                )
                &&& self.view.builds(parent, Some(k), will_rebuild, stored, after, key)
            }
    }

    /// The new context is stored on the element's node, then the element
    /// rebuilt.
    open spec fn rebuilds(
        self,
        parent: RendererNodeId<R>,
        key: Self::Key,
        before: RendererWorld<R>,
        after: RendererWorld<R>,
    ) -> bool {
        exists|stored: RendererWorld<R>|
            #![trigger self.view.rebuilds(parent, key, stored, after)]
            {
                &&& state_put::<RendererWorld<R>, Context<T>>(
                    before,
                    V::node_of(key),
                    Context(self.provide_context),
                    stored,
                )
                &&& self.view.rebuilds(parent, key, stored, after)
            }
    }

    /// Reserves the element's key when none was given, stores the context on
    /// the element's node, then builds the element.
    fn build(self, ctx: ViewCtx<R>, reserve_key: Option<Self::Key>, will_rebuild: bool) -> Self::Key {
        let world = ctx.world;
        let parent = ctx.parent;
        let ghost w0 = *world;
        let ghost given = reserve_key;
        let reserve_key = match reserve_key {
            Some(k) => k,
            None => {
                let p = parent.clone();
                let k = V::Key::reserve_key(world, will_rebuild, p, true);
                assert(V::Key::view_reserves(w0, will_rebuild, p, true, *world, k));
                k
            },
        };
        let ghost reserved = *world;
        let node_id = V::element_node_id(&reserve_key);
        world.set_node_state::<Context<T>>(node_id, Context(self.provide_context));
        let ghost stored = *world;
        let ghost k = reserve_key;
        let ghost this = self;
        let key = self.view.build(ViewCtx { world, parent }, Some(reserve_key), will_rebuild);
        assert(state_put::<RendererWorld<R>, Context<T>>(reserved, V::node_of(k), Context(this.provide_context), stored));
        assert(this.view.builds(parent, Some(k), will_rebuild, stored, *world, key));
        key
    }

    /// Stores the new context on the element's node, then rebuilds it.
    fn rebuild(self, ctx: ViewCtx<R>, key: Self::Key) {
        let world = ctx.world;
        let parent = ctx.parent;
        let node_id = V::element_node_id(&key);
        world.set_node_state::<Context<T>>(node_id, Context(self.provide_context));
        let ghost stored = *world;
        let ghost this = self;
        self.view.rebuild(ViewCtx { world, parent }, key);
        assert(this.view.rebuilds(parent, key, stored, *world));
    }
}

impl<R: Renderer, T: 'static, V: ElementView<R>> IntoView<R> for ProvideContext<R, T, V> {
    type View = ProvideContext<R, T, V>;

    open spec fn view_of(self) -> Self::View {
        self
    }

    fn into_view(self) -> (r: Self::View)
        ensures
            r == self,
    {
        self
    }
}

impl<R: Renderer, T: 'static, V: ElementView<R>> SoloView<R> for ProvideContext<R, T, V> {
    open spec fn node_of(key: Self::Key) -> RendererNodeId<R> {
        V::node_of(key)
    }

    fn node_id(key: &Self::Key) -> &RendererNodeId<R> {
        V::element_node_id(key)
    }
}

impl<R: Renderer, T: 'static, V: ElementView<R>> ElementView<R> for ProvideContext<R, T, V> {
    fn element_node_id(key: &Self::Key) -> &RendererNodeId<R> {
        V::element_node_id(key)
    }

    open spec fn member_count_spec(&self) -> u32 {
        self.view.member_count_spec()
    }

    fn member_count(&self) -> u32 {
        self.view.member_count()
    }
}

} // verus!
