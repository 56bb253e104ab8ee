use std::any::{Any, TypeId};
use std::collections::HashMap;

use rxy_core::build_info::{member_build_status, member_build_times_increment, node_build_status, node_build_times_increment, BuildInfo};
use rxy_core::context::{provide_context, Context};
use rxy_core::data_keyed::for_keyed;
use rxy_core::keyed_list::{x_iter, x_iter_keyed, Keyed};
use rxy_core::list_source::{apply_op, apply_source_op, build_source_items, count_after_op, move_target_has_node, op_fits, op_fits_data, source_state_node, store_source_state, DataOrPlaceholderNodeId, ForSourceState, VecOperation};
use rxy_core::renderer::{NodeTree, Renderer, ViewCtx};
use rxy_core::view::{IntoView, MutableView, ViewKey, XView};
use rxy_core::x_if::x_if;
use rxy_core::element_children::view_children;
use rxy_core::element_view::SoloView;
use rxy_core::mutable_view::mutable_view_rebuild;
use rxy_core::resolved::{build_then_rebuild_view, show_first_streamed_view, show_resolved_view, show_streamed_view};
use rxy_core::to_mutable::to_mutable;

/// A tree of numbered nodes, each with a label, an ordered list of children,
/// and typed states.
#[derive(Default)]
struct Tree {
    next: u64,
    parent: HashMap<u64, u64>,
    children: HashMap<u64, Vec<u64>>,
    labels: HashMap<u64, u64>,
    states: HashMap<(u64, TypeId), Box<dyn Any>>,
    hidden: HashMap<u64, bool>,
}

impl Tree {
    fn new_id(&mut self) -> u64 {
        self.next += 1;
        self.next
    }

    fn attach(&mut self, id: u64, parent: Option<&u64>) {
        if let Some(old) = self.parent.remove(&id) {
            if let Some(list) = self.children.get_mut(&old) {
                list.retain(|c| *c != id);
            }
        }
        if let Some(p) = parent {
            self.parent.insert(id, *p);
            self.children.entry(*p).or_default().push(id);
        }
    }

    fn kids(&self, id: u64) -> Vec<u64> {
        self.children.get(&id).cloned().unwrap_or_default()
    }

    fn label(&self, id: u64) -> Option<u64> {
        self.labels.get(&id).copied()
    }
}

impl NodeTree for Tree {
    type NodeId = u64;

    // The three functions below describe the tree to the verifier; the
    // library never calls them when it runs.
    fn node_state<S>(&self, _node_id: u64) -> Option<S> {
        None
    }

    fn parent_of(&self, node_id: u64) -> Option<u64> {
        self.parent.get(&node_id).copied()
    }

    fn depth(&self, node_id: u64) -> u64 {
        match self.parent.get(&node_id) {
            Some(p) => self.depth(*p) + 1,
            None => 0,
        }
    }

    fn removes_node(&self, node_id: u64, after: Tree) -> bool {
        after.parent_of(node_id).is_none()
    }

    fn spawns_placeholder(&self, _name: &'static str, parent: Option<u64>, _reserve_node_id: Option<u64>, after: Tree, node_id: u64) -> bool {
        parent.is_none() || after.parent_of(node_id) == parent
    }

    fn inserts_nodes_before(&self, parent: Option<u64>, _before_node_id: Option<u64>, inserted: &[u64], after: Tree) -> bool {
        inserted.iter().all(|id| parent.is_none() || after.parent_of(*id) == parent)
    }

    fn sets_node_visibility(&self, hidden: bool, node_id: u64, after: Tree) -> bool {
        after.get_visibility(&node_id) == hidden
    }

    fn reserves_node(&self, _parent: u64, _spawn: bool, _after: Tree, node_id: u64) -> bool {
        node_id > self.next
    }

    fn prepares_attr(&self, _node_id: u64, _attr_index: u8, _after: Tree, was_set: bool) -> bool {
        !was_set
    }

    fn has_node(&self, node_id: u64) -> bool {
        node_id <= self.next
    }

    fn get_node_state_ref<S: 'static>(&self, node_id: &u64) -> Option<&S> {
        self.states.get(&(*node_id, TypeId::of::<S>())).and_then(|b| b.downcast_ref::<S>())
    }

    fn take_node_state<S: 'static>(&mut self, node_id: &u64) -> Option<S> {
        self.states
            .remove(&(*node_id, TypeId::of::<S>()))
            .and_then(|b| b.downcast::<S>().ok())
            .map(|b| *b)
    }

    fn set_node_state<S: 'static>(&mut self, node_id: &u64, state: S) {
        self.states.insert((*node_id, TypeId::of::<S>()), Box::new(state));
    }

    fn get_parent(&self, node_id: &u64) -> Option<u64> {
        self.parent.get(node_id).copied()
    }

    fn exist_node_id(&mut self, node_id: &u64) -> bool {
        *node_id <= self.next
    }

    fn reserve_node_id(&mut self) -> u64 {
        self.new_id()
    }

    fn spawn_placeholder(&mut self, _name: &'static str, parent: Option<&u64>, reserve_node_id: Option<u64>) -> u64 {
        self.spawn_empty_node(parent, reserve_node_id)
    }

    fn ensure_spawn(&mut self, _reserve_node_id: u64) {}

    fn spawn_empty_node(&mut self, parent: Option<&u64>, reserve_node_id: Option<u64>) -> u64 {
        let id = match reserve_node_id {
            Some(id) => id,
            None => self.new_id(),
        };
        self.attach(id, parent);
        id
    }

    fn spawn_data_node(&mut self) -> u64 {
        self.new_id()
    }

    fn reserve_node_id_or_spawn(&mut self, parent: u64, spawn: bool) -> u64 {
        if spawn {
            self.spawn_empty_node(Some(&parent), None)
        } else {
            self.new_id()
        }
    }

    fn remove_node(&mut self, node_id: &u64) {
        self.attach(*node_id, None);
        self.labels.remove(node_id);
    }

    fn insert_before(&mut self, parent: Option<&u64>, before_node_id: Option<&u64>, inserted_node_ids: &[u64]) {
        let Some(parent) = parent else { return };
        for id in inserted_node_ids {
            self.attach(*id, None);
            let list = self.children.entry(*parent).or_default();
            let at = before_node_id.and_then(|b| list.iter().position(|c| c == b)).unwrap_or(list.len());
            list.insert(at, *id);
            self.parent.insert(*id, *parent);
        }
    }

    fn set_visibility(&mut self, hidden: bool, node_id: &u64) {
        self.hidden.insert(*node_id, hidden);
    }

    fn get_visibility(&self, node_id: &u64) -> bool {
        self.hidden.get(node_id).copied().unwrap_or(false)
    }

    fn prepare_set_attr_and_get_is_init(&mut self, _node_id: &u64, _attr_index: u8) -> bool {
        false
    }
}

struct Mock;

impl Renderer for Mock {
    type NodeTree = Tree;
    type Task = ();
}

/// A view of one labelled node.
#[derive(Clone, Copy, Debug)]
struct Text(u64);

#[derive(Clone, Copy, Debug, PartialEq, Eq)]
struct TextKey(u64);

impl ViewKey<Mock> for TextKey {
    fn view_removes(&self, before: Tree, after: Tree) -> bool {
        before.removes_node(self.0, after)
    }

    fn view_inserts_before(&self, before: Tree, parent: Option<u64>, before_node_id: Option<u64>, after: Tree) -> bool {
        before.inserts_nodes_before(parent, before_node_id, &[self.0], after)
    }

    fn view_sets_visibility(&self, before: Tree, hidden: bool, after: Tree) -> bool {
        before.sets_node_visibility(hidden, self.0, after)
    }

    fn view_state_node(&self) -> Option<u64> {
        Some(self.0)
    }

    fn view_first_node(&self, _world: Tree) -> Option<u64> {
        Some(self.0)
    }

    fn view_reserves(before: Tree, _will_rebuild: bool, parent: u64, spawn: bool, after: Tree, key: Self) -> bool {
        before.reserves_node(parent, spawn, after, key.0)
    }

    fn remove(self, world: &mut Tree) {
        world.remove_node(&self.0);
    }

    fn insert_before(&self, world: &mut Tree, parent: Option<&u64>, before_node_id: Option<&u64>) {
        world.insert_before(parent, before_node_id, &[self.0]);
    }

    fn set_visibility(&self, world: &mut Tree, hidden: bool) {
        world.set_visibility(hidden, &self.0);
    }

    fn state_node_id(&self) -> Option<u64> {
        Some(self.0)
    }

    fn reserve_key(world: &mut Tree, _will_rebuild: bool, _parent: u64, _spawn: bool) -> Self {
        TextKey(world.reserve_node_id())
    }

    fn first_node_id(&self, _world: &Tree) -> Option<u64> {
        Some(self.0)
    }
}

impl XView<Mock> for Text {
    type Key = TextKey;

    fn builds(
        self,
        _parent: u64,
        _reserve_key: Option<TextKey>,
        _will_rebuild: bool,
        _before: Tree,
        after: Tree,
        key: TextKey,
    ) -> bool {
        after.label(key.0) == Some(self.0)
    }

    fn rebuilds(self, _parent: u64, key: TextKey, _before: Tree, after: Tree) -> bool {
        after.label(key.0) == Some(self.0)
    }

    fn build(self, ctx: ViewCtx<Mock>, reserve_key: Option<TextKey>, _will_rebuild: bool) -> TextKey {
        let id = ctx.world.spawn_empty_node(Some(&ctx.parent), reserve_key.map(|k| k.0));
        ctx.world.labels.insert(id, self.0);
        TextKey(id)
    }

    fn rebuild(self, ctx: ViewCtx<Mock>, key: TextKey) {
        ctx.world.labels.insert(key.0, self.0);
    }
}

impl SoloView<Mock> for Text {
    fn node_of(key: TextKey) -> u64 {
        key.0
    }

    fn node_id(key: &TextKey) -> &u64 {
        &key.0
    }
}

impl IntoView<Mock> for Text {
    type View = Text;

    fn view_of(self) -> Text {
        self
    }

    fn into_view(self) -> Text {
        self
    }
}

fn labels_under(world: &Tree, parent: u64) -> Vec<Option<u64>> {
    world.kids(parent).into_iter().map(|id| world.label(id)).collect()
}

/// A root node and a placeholder under it, as a virtual container makes them.
fn root_and_placeholder(world: &mut Tree) -> (u64, u64) {
    let root = world.spawn_empty_node(None, None);
    let placeholder = world.spawn_placeholder("list", Some(&root), None);
    (root, placeholder)
}

fn keyed(items: &[(u64, u64)]) -> Vec<Keyed<u64, Text>> {
    items.iter().map(|(k, label)| Keyed(*k, Text(*label))).collect()
}

#[test]
fn keyed_list_rebuild_keeps_moves_and_adds_in_order() {
    let mut world = Tree::default();
    let (root, placeholder) = root_and_placeholder(&mut world);
    let keys = MutableView::<Mock>::build(
        x_iter_keyed::<Text, Mock>(keyed(&[(1, 10), (2, 20), (3, 30)])),
        ViewCtx { world: &mut world, parent: root },
        Some(placeholder),
    );
    world.insert_before(Some(&root), None, &[placeholder]);
    assert_eq!(labels_under(&world, root), vec![Some(10), Some(20), Some(30), None]);
    let old: Vec<u64> = keys.iter().map(|k| k.unwrap().0).collect();

    let new_keys = MutableView::<Mock>::rebuild(
        x_iter_keyed::<Text, Mock>(keyed(&[(3, 31), (1, 11), (4, 40)])),
        ViewCtx { world: &mut world, parent: root },
        keys,
        placeholder,
    )
    .unwrap();
    let new: Vec<u64> = new_keys.iter().map(|k| k.unwrap().0).collect();
    assert_eq!(new.len(), 3);
    // the kept items keep their nodes, in the new order
    assert_eq!(new[0], old[2]);
    assert_eq!(new[1], old[0]);
    assert_eq!(world.kids(root), vec![new[0], new[1], new[2], placeholder]);
    // moved views are rebuilt, the removed node is gone
    assert_eq!(labels_under(&world, root), vec![Some(31), Some(11), Some(40), None]);
    assert_eq!(world.label(old[1]), None);
}

#[test]
fn keyed_list_rebuild_with_unchanged_keys_rebuilds_in_place() {
    let mut world = Tree::default();
    let (root, placeholder) = root_and_placeholder(&mut world);
    let keys = MutableView::<Mock>::build(
        x_iter_keyed::<Text, Mock>(keyed(&[(1, 10), (2, 20)])),
        ViewCtx { world: &mut world, parent: root },
        Some(placeholder),
    );
    let old: Vec<u64> = keys.iter().map(|k| k.unwrap().0).collect();
    let new_keys = MutableView::<Mock>::rebuild(
        x_iter_keyed::<Text, Mock>(keyed(&[(1, 12), (2, 22)])),
        ViewCtx { world: &mut world, parent: root },
        keys,
        placeholder,
    )
    .unwrap();
    let new: Vec<u64> = new_keys.iter().map(|k| k.unwrap().0).collect();
    assert_eq!(new, old);
    assert_eq!(world.label(old[0]), Some(12));
    assert_eq!(world.label(old[1]), Some(22));
}

#[test]
fn keyed_list_rebuild_to_nothing_removes_every_item() {
    let mut world = Tree::default();
    let (root, placeholder) = root_and_placeholder(&mut world);
    let keys = MutableView::<Mock>::build(
        x_iter_keyed::<Text, Mock>(keyed(&[(1, 10), (2, 20)])),
        ViewCtx { world: &mut world, parent: root },
        Some(placeholder),
    );
    let new_keys = MutableView::<Mock>::rebuild(
        x_iter_keyed::<Text, Mock>(vec![]),
        ViewCtx { world: &mut world, parent: root },
        keys,
        placeholder,
    )
    .unwrap();
    assert!(new_keys.is_empty());
    assert_eq!(world.kids(root), vec![placeholder]);
}

#[test]
fn keyed_list_with_repeated_keys_is_built_afresh() {
    let mut world = Tree::default();
    let (root, placeholder) = root_and_placeholder(&mut world);
    let keys = MutableView::<Mock>::build(
        x_iter_keyed::<Text, Mock>(keyed(&[(1, 10)])),
        ViewCtx { world: &mut world, parent: root },
        Some(placeholder),
    );
    let new_keys = MutableView::<Mock>::rebuild(
        x_iter_keyed::<Text, Mock>(keyed(&[(5, 50), (5, 51)])),
        ViewCtx { world: &mut world, parent: root },
        keys,
        placeholder,
    )
    .unwrap();
    assert_eq!(new_keys.len(), 2);
    assert!(new_keys.iter().all(|k| k.is_some()));
}

#[test]
fn x_iter_keys_items_by_position() {
    let list = x_iter::<Text, Mock>(vec![Text(7), Text(8), Text(9)]);
    let keys: Vec<u64> = list.items.iter().map(|k| k.0).collect();
    assert_eq!(keys, vec![0, 1, 2]);
    let labels: Vec<u64> = list.items.iter().map(|k| k.1 .0).collect();
    assert_eq!(labels, vec![7, 8, 9]);
}

#[test]
fn a_move_needs_a_node_at_its_target() {
    let mut world = Tree::default();
    let (root, placeholder) = root_and_placeholder(&mut world);
    let view_f = |x: &u64| Text(*x);
    let vec: Vec<u64> = vec![1, 2];
    let keys = build_source_items::<Mock, u64, Text, _>(&mut world, &root, &view_f, &vec);
    let op: VecOperation<u64> = VecOperation::Move { from: 1, to: 0 };
    assert!(move_target_has_node(&op, &keys, &world));
    assert!(move_target_has_node(&VecOperation::<u64>::Pop, &keys, &world));
    let state = source_state_node::<Mock>(&mut world, Some(placeholder));
    assert!(matches!(state, DataOrPlaceholderNodeId::Placeholder(id) if id == placeholder));
    store_source_state::<Mock, _>(&mut world, &state, keys, ());
    assert!(world.get_node_state_ref::<ForSourceState<Mock, TextKey>>(&placeholder).is_some());
}

#[test]
fn data_keyed_rebuild_keeps_nodes_without_rebuilding_them() {
    let mut world = Tree::default();
    let (root, placeholder) = root_and_placeholder(&mut world);
    let view = for_keyed::<(u64, u64), _, _, Text, Mock>(vec![(1, 10), (2, 20), (3, 30)], |x: &(u64, u64)| x.0, |x: (u64, u64)| Text(x.1));
    let keys = MutableView::<Mock>::build(view, ViewCtx { world: &mut world, parent: root }, Some(placeholder));
    world.insert_before(Some(&root), None, &[placeholder]);
    let old: Vec<u64> = keys.iter().map(|k| k.unwrap().0).collect();

    let view = for_keyed::<(u64, u64), _, _, Text, Mock>(vec![(3, 31), (1, 11), (4, 40)], |x: &(u64, u64)| x.0, |x: (u64, u64)| Text(x.1));
    let new_keys = MutableView::<Mock>::rebuild(view, ViewCtx { world: &mut world, parent: root }, keys, placeholder).unwrap();
    let new: Vec<u64> = new_keys.iter().map(|k| k.unwrap().0).collect();
    assert_eq!(new[0], old[2]);
    assert_eq!(new[1], old[0]);
    assert_eq!(world.kids(root), vec![new[0], new[1], new[2], placeholder]);
    // items that stay are not rebuilt: they keep their old labels
    assert_eq!(labels_under(&world, root), vec![Some(30), Some(10), Some(40), None]);
}

#[test]
fn data_keyed_rebuild_with_the_same_items_keeps_every_key() {
    let mut world = Tree::default();
    let (root, placeholder) = root_and_placeholder(&mut world);
    let view = for_keyed::<(u64, u64), _, _, Text, Mock>(vec![(1, 10), (2, 20), (3, 30)], |x: &(u64, u64)| x.0, |x: (u64, u64)| Text(x.1));
    let keys = MutableView::<Mock>::build(view, ViewCtx { world: &mut world, parent: root }, Some(placeholder));
    world.insert_before(Some(&root), None, &[placeholder]);
    let old: Vec<u64> = keys.iter().map(|k| k.unwrap().0).collect();
    let view = for_keyed::<(u64, u64), _, _, Text, Mock>(vec![(1, 10), (2, 20), (3, 30)], |x: &(u64, u64)| x.0, |x: (u64, u64)| Text(x.1));
    let new_keys = MutableView::<Mock>::rebuild(view, ViewCtx { world: &mut world, parent: root }, keys, placeholder).unwrap();
    let new: Vec<u64> = new_keys.iter().map(|k| k.unwrap().0).collect();
    assert_eq!(new, old);
    assert_eq!(world.kids(root), vec![old[0], old[1], old[2], placeholder]);
}

#[test]
fn data_keyed_rebuild_from_nothing_appends_after_the_placeholder() {
    let mut world = Tree::default();
    let (root, placeholder) = root_and_placeholder(&mut world);
    let view = for_keyed::<(u64, u64), _, _, Text, Mock>(vec![], |x: &(u64, u64)| x.0, |x: (u64, u64)| Text(x.1));
    let keys = MutableView::<Mock>::build(view, ViewCtx { world: &mut world, parent: root }, Some(placeholder));
    assert!(keys.is_empty());
    let view = for_keyed::<(u64, u64), _, _, Text, Mock>(vec![(5, 50), (6, 60)], |x: &(u64, u64)| x.0, |x: (u64, u64)| Text(x.1));
    let new_keys = MutableView::<Mock>::rebuild(view, ViewCtx { world: &mut world, parent: root }, keys, placeholder).unwrap();
    assert_eq!(new_keys.len(), 2);
    assert_eq!(labels_under(&world, root), vec![None, Some(50), Some(60)]);
}

#[test]
fn data_keyed_rebuild_to_nothing_clears_the_list() {
    let mut world = Tree::default();
    let (root, placeholder) = root_and_placeholder(&mut world);
    let view = for_keyed::<(u64, u64), _, _, Text, Mock>(vec![(1, 10), (2, 20)], |x: &(u64, u64)| x.0, |x: (u64, u64)| Text(x.1));
    let keys = MutableView::<Mock>::build(view, ViewCtx { world: &mut world, parent: root }, Some(placeholder));
    let view = for_keyed::<(u64, u64), _, _, Text, Mock>(vec![], |x: &(u64, u64)| x.0, |x: (u64, u64)| Text(x.1));
    let new_keys = MutableView::<Mock>::rebuild(view, ViewCtx { world: &mut world, parent: root }, keys, placeholder).unwrap();
    assert!(new_keys.is_empty());
    assert_eq!(world.kids(root), vec![placeholder]);
}

#[test]
fn member_build_times_count_up_per_index() {
    let mut world = Tree::default();
    let node = world.spawn_empty_node(None, None);
    assert!(member_build_status::<Mock>(&world, &node, 0).is_no_build());
    assert!(member_build_times_increment::<Mock>(&mut world, &node, 0).is_no_build());
    assert!(!member_build_times_increment::<Mock>(&mut world, &node, 0).is_no_build());
    assert!(!member_build_status::<Mock>(&world, &node, 0).is_no_build());
    assert!(member_build_status::<Mock>(&world, &node, 1).is_no_build());
}

#[test]
fn build_times_count_up_per_node() {
    let mut world = Tree::default();
    let node = world.spawn_empty_node(None, None);
    assert!(node_build_status::<Mock>(&world, &node).is_no_build());
    assert!(node_build_times_increment::<Mock>(&mut world, node).is_no_build());
    assert_eq!(world.get_node_state_ref::<BuildInfo>(&node).unwrap().build_times, 1);
    assert!(!node_build_times_increment::<Mock>(&mut world, node).is_no_build());
    assert_eq!(world.get_node_state_ref::<BuildInfo>(&node).unwrap().build_times, 2);
    assert!(!node_build_status::<Mock>(&world, &node).is_no_build());
}

#[test]
fn context_is_found_on_an_ancestor_and_changed_in_place() {
    let mut world = Tree::default();
    let root = world.spawn_empty_node(None, None);
    let child = world.spawn_empty_node(Some(&root), None);
    let leaf = world.spawn_empty_node(Some(&child), None);
    world.set_node_state(&root, Context(5u32));
    let mut ctx = ViewCtx::<Mock> { world: &mut world, parent: leaf };
    assert_eq!(ctx.get_context_ref::<u32>(), Some(&5));
    assert_eq!(ctx.get_context::<u64>(), None);
    assert!(ctx.context_scoped::<u32, _>(|c: &mut u32| *c += 1));
    assert_eq!(ctx.context::<u32>(), 6);
    assert!(!ctx.context_scoped::<u64, _>(|c: &mut u64| *c += 1));
    let _ = provide_context::<Mock, u32, Text>(1, Text(1));
}

#[test]
fn list_operations_change_the_data() {
    let mut v = vec![1, 2, 3];
    apply_op(&mut v, VecOperation::Push { item: 4 });
    assert_eq!(v, vec![1, 2, 3, 4]);
    apply_op(&mut v, VecOperation::Move { from: 0, to: 3 });
    assert_eq!(v, vec![2, 3, 1, 4]);
    apply_op(&mut v, VecOperation::Move { from: 3, to: 0 });
    assert_eq!(v, vec![4, 2, 3, 1]);
    apply_op(&mut v, VecOperation::Insert { index: 1, item: 9 });
    assert_eq!(v, vec![4, 9, 2, 3, 1]);
    apply_op(&mut v, VecOperation::Update { index: 0, item: 8 });
    assert_eq!(v, vec![8, 9, 2, 3, 1]);
    apply_op(&mut v, VecOperation::Remove { index: 2 });
    assert_eq!(v, vec![8, 9, 3, 1]);
    apply_op(&mut v, VecOperation::Pop);
    assert_eq!(v, vec![8, 9, 3]);
    apply_op(&mut v, VecOperation::Patch { index: 1 });
    assert_eq!(v, vec![8, 9, 3]);
    apply_op(&mut v, VecOperation::Clear);
    assert!(v.is_empty());
    apply_op(&mut v, VecOperation::Pop);
    assert!(v.is_empty());
}

#[test]
fn x_if_builds_the_selected_view() {
    let v = x_if::<Mock, Text, bool>(false, Text(1));
    assert!(!v.condition);
    assert_eq!(v.view.0, 1);
    let v = v.else_view(Text(2));
    assert_eq!(v.else_view.0, 2);
    let mut world = Tree::default();
    let root = world.spawn_empty_node(None, None);
    let _key = XView::<Mock>::build(IntoView::<Mock>::into_view(v), ViewCtx { world: &mut world, parent: root }, None, false);
    let labels = labels_under(&world, root);
    assert!(labels.contains(&Some(2)));
    assert!(!labels.contains(&Some(1)));
}

#[test]
fn source_list_ops_keep_views_in_line_with_the_data() {
    let mut world = Tree::default();
    let (root, placeholder) = root_and_placeholder(&mut world);
    let mut vec: Vec<u64> = vec![1, 2];
    let view_f = |x: &u64| Text(*x);
    let mut keys = build_source_items::<Mock, u64, Text, _>(&mut world, &root, &view_f, &vec);
    world.insert_before(Some(&root), None, &[placeholder]);
    assert_eq!(labels_under(&world, root), vec![Some(1), Some(2), None]);
    let state = DataOrPlaceholderNodeId::<Mock>::Placeholder(placeholder);
    let ops = vec![
        VecOperation::Push { item: 3 },
        VecOperation::Insert { index: 0, item: 0 },
        VecOperation::Move { from: 3, to: 0 },
        VecOperation::Remove { index: 1 },
        VecOperation::Update { index: 0, item: 9 },
        VecOperation::Move { from: 0, to: 2 },
        VecOperation::Patch { index: 1 },
    ];
    for op in ops {
        assert!(op_fits(&op, vec.len()));
        apply_source_op::<Mock, u64, Text, _>(&mut world, root, &view_f, op, &state, &mut keys, &mut vec);
        assert_eq!(keys.len(), vec.len());
        let mut expected: Vec<Option<u64>> = vec.iter().map(|x| Some(*x)).collect();
        expected.push(None);
        assert_eq!(labels_under(&world, root), expected);
    }
    assert_eq!(vec, vec![1, 9, 2]);
    apply_source_op::<Mock, u64, Text, _>(&mut world, root, &view_f, VecOperation::Pop, &state, &mut keys, &mut vec);
    assert_eq!(labels_under(&world, root), vec![Some(1), Some(9), None]);
    apply_source_op::<Mock, u64, Text, _>(&mut world, root, &view_f, VecOperation::Clear, &state, &mut keys, &mut vec);
    assert!(keys.is_empty() && vec.is_empty());
    assert_eq!(world.kids(root), vec![placeholder]);
}

#[test]
fn an_item_can_be_inserted_at_the_end_of_the_data() {
    let mut vec: Vec<u64> = vec![1, 2];
    let op = VecOperation::Insert { index: 2, item: 3 };
    assert!(op_fits_data(&op, vec.len()));
    assert!(!op_fits(&op, vec.len()));
    apply_op(&mut vec, op);
    assert_eq!(vec, vec![1, 2, 3]);
    assert!(!op_fits_data(&VecOperation::Insert { index: 4, item: 0u64 }, vec.len()));
}

#[test]
fn op_fits_checks_the_named_positions() {
    assert!(op_fits(&VecOperation::<u8>::Remove { index: 1 }, 2));
    assert!(!op_fits(&VecOperation::<u8>::Remove { index: 2 }, 2));
    assert!(!op_fits(&VecOperation::<u8>::Move { from: 0, to: 2 }, 2));
    assert!(op_fits(&VecOperation::<u8>::Push { item: 1 }, 0));
    assert!(op_fits(&VecOperation::<u8>::Pop, 0));
}

#[test]
fn a_resolved_view_is_built_once_then_rebuilt_and_counted() {
    let mut world = Tree::default();
    let root = world.spawn_empty_node(None, None);
    let key = TextKey(world.reserve_node_id());
    show_resolved_view::<Mock, Text>(&mut world, root, Text(1), key, key.0, true);
    assert_eq!(world.label(key.0), Some(1));
    assert_eq!(world.kids(root), vec![key.0]);
    assert_eq!(world.get_node_state_ref::<BuildInfo>(&key.0).unwrap().build_times, 1);
    show_resolved_view::<Mock, Text>(&mut world, root, Text(2), key, key.0, true);
    assert_eq!(world.label(key.0), Some(2));
    assert_eq!(world.kids(root), vec![key.0]);
    assert_eq!(world.get_node_state_ref::<BuildInfo>(&key.0).unwrap().build_times, 2);
}

#[test]
fn a_resolved_view_that_will_not_be_rebuilt_is_not_counted() {
    let mut world = Tree::default();
    let root = world.spawn_empty_node(None, None);
    let key = TextKey(world.reserve_node_id());
    show_resolved_view::<Mock, Text>(&mut world, root, Text(1), key, key.0, false);
    assert_eq!(world.label(key.0), Some(1));
    assert!(world.get_node_state_ref::<BuildInfo>(&key.0).is_none());
}

#[test]
fn a_streamed_view_needs_its_parent() {
    let mut world = Tree::default();
    let root = world.spawn_empty_node(None, None);
    let key = TextKey(world.reserve_node_id());
    assert!(!show_streamed_view::<Mock, Text>(&mut world, 99, Text(1), key, key.0));
    assert_eq!(world.label(key.0), None);
    assert!(show_streamed_view::<Mock, Text>(&mut world, root, Text(1), key, key.0));
    assert!(show_streamed_view::<Mock, Text>(&mut world, root, Text(3), key, key.0));
    assert_eq!(world.label(key.0), Some(3));
    assert_eq!(world.get_node_state_ref::<BuildInfo>(&key.0).unwrap().build_times, 2);
}

#[test]
fn the_first_streamed_view_is_built_or_rebuilt() {
    let mut world = Tree::default();
    let root = world.spawn_empty_node(None, None);
    let key = show_first_streamed_view::<Mock, Text>(&mut world, root, Text(4), None, None).unwrap();
    assert_eq!(world.label(key.0), Some(4));
    assert_eq!(world.get_node_state_ref::<BuildInfo>(&key.0).unwrap().build_times, 1);
    assert!(show_first_streamed_view::<Mock, Text>(&mut world, root, Text(5), Some(key), None).is_none());
    assert_eq!(world.label(key.0), Some(5));
    assert_eq!(world.get_node_state_ref::<BuildInfo>(&key.0).unwrap().build_times, 2);
}

#[test]
fn a_rebuild_function_builds_first_and_rebuilds_after() {
    let mut world = Tree::default();
    let root = world.spawn_empty_node(None, None);
    let key = TextKey(world.reserve_node_id());
    let mut is_build = false;
    build_then_rebuild_view::<Mock, Text>(ViewCtx { world: &mut world, parent: root }, Text(1), key, &mut is_build);
    assert!(is_build);
    assert_eq!(world.kids(root), vec![key.0]);
    build_then_rebuild_view::<Mock, Text>(ViewCtx { world: &mut world, parent: root }, Text(2), key, &mut is_build);
    assert_eq!(world.kids(root), vec![key.0]);
    assert_eq!(world.label(key.0), Some(2));
}

#[test]
fn a_self_stated_mutable_view_is_built_then_rebuilt() {
    let mut world = Tree::default();
    let root = world.spawn_empty_node(None, None);
    let state = world.spawn_data_node();
    mutable_view_rebuild::<Mock, _>(to_mutable(Text(1)), ViewCtx { world: &mut world, parent: root }, state);
    assert_eq!(labels_under(&world, root), vec![Some(1)]);
    mutable_view_rebuild::<Mock, _>(to_mutable(Text(2)), ViewCtx { world: &mut world, parent: root }, state);
    assert_eq!(labels_under(&world, root), vec![Some(2)]);
}

#[test]
fn children_are_built_under_their_view() {
    let mut world = Tree::default();
    let root = world.spawn_empty_node(None, None);
    let view = view_children::<Mock, Text, Text>(Text(1), Text(2));
    let key = XView::<Mock>::build(view, ViewCtx { world: &mut world, parent: root }, None, true);
    assert_eq!(world.kids(root), vec![key.0]);
    assert_eq!(labels_under(&world, key.0), vec![Some(2)]);
    let view = view_children::<Mock, Text, Text>(Text(3), Text(4));
    XView::<Mock>::rebuild(view, ViewCtx { world: &mut world, parent: root }, key);
    assert_eq!(world.label(key.0), Some(3));
    assert_eq!(labels_under(&world, key.0), vec![Some(4)]);
}

#[test]
fn list_count_follows_the_operations() {
    assert_eq!(count_after_op(2, &VecOperation::<u8>::Push { item: 1 }), 3);
    assert_eq!(count_after_op(2, &VecOperation::<u8>::Insert { index: 0, item: 1 }), 3);
    assert_eq!(count_after_op(2, &VecOperation::<u8>::Pop), 3);
    assert_eq!(count_after_op(2, &VecOperation::<u8>::Remove { index: 0 }), 3);
    assert_eq!(count_after_op(2, &VecOperation::<u8>::Clear), 0);
    assert_eq!(count_after_op(2, &VecOperation::<u8>::Move { from: 0, to: 1 }), 2);
    assert_eq!(count_after_op(2, &VecOperation::<u8>::Update { index: 0, item: 1 }), 2);
}
