# rxy_core

The core of a retained-mode UI framework: views are built into a node tree
once and rebuilt in place afterwards; members (attributes, styles, callbacks)
are built on the nodes of elements; lists of views are kept in line with
changing data, either by diffing the old and the new keys of the items or by
applying list operations one at a time.

`src/` is the library, verified with Verus:

- `renderer`, `view`, `element_view`: the node tree a renderer provides (with
  an abstract model of the state stored on its nodes and of its parent links)
  and the view, key and member traits.
- `diff`, `keyed_list`: the diff of two ordered key sets and its application
  to the built views of a keyed list; every item that stays keeps its built
  key, in the new order.
- `data_keyed`: a keyed list whose keys and views are computed from its items,
  with its own grouped diff and the unpacking of grouped moves.
- `list_source`: list operations and what each one does to the data and to the
  built views.
- `either`, `either_view`, `x_if`, `to_mutable`, `virtual_container`,
  `mutable_view`: views that change shape, kept behind a placeholder node.
- `element`, `element_children`, `member_after_children`, `context`,
  `build_info`, `build_configure`, `builder`, `resolved`, and the smaller
  modules: elements and their attributes, children, contexts provided to
  descendants, build counting, and the decisions taken when a view arrives
  from a future or a stream.
- `key_set`: the ordered key set of `indexmap`, used behind a few trusted
  wrappers.

`app/` holds what Verus does not check: the channels and tasks that feed
lists with operations, the futures and streams that produce views later, and
the boxed rebuild functions. `tests/` runs the library, partly against a small
in-memory node tree.

Some parts of the framework are not here:

- Reactive views and members (`Reactive`, `rx`) are declared with their
  keys, but they do not become views: building one runs an effect of the
  `xy_reactive` crate, which is not available to build against.
- Builders (`XBuilder`, `XWorld`) carry their function but are not built:
  building one calls the function with a context that holds the world by
  mutable reference, a call the verifier does not take (it stops on it).
- Dynamic and erased views (`view_to_dynamic`, `DynamicMutableViewKey`,
  `DynamicElement`, the erasure view functions), `CommonRenderer`,
  `MemberOwner`, `ViewRemoveOnDrop`, the building of `RecyclableView`, and
  `ViewMemberCtx::indexed_view_member_state_mut`: they rest on boxed
  functions, function pointers, `dyn Any` or handing out a mutable reference
  into the world, none of which the verified library can hold.
