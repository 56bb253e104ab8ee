//! The core of a retained-mode UI framework: views built into a node tree
//! and rebuilt in place, their members, and the lists of views that are kept
//! in line with changing data, keyed (by diffing the old and the new keys)
//! or fed by list operations.

pub mod build_configure;
pub mod build_info;
pub mod builder;
pub mod clone_to;
pub mod context;
pub mod data_keyed;
pub mod diff;
pub mod either;
pub mod either_view;
pub mod element;
pub mod element_children;
pub mod element_view;
pub mod future;
pub mod into_view_member;
pub mod key_set;
pub mod keyed_list;
pub mod list_source;
pub mod maybe_traits;
pub mod member_after_children;
pub mod mutable_view;
pub mod reactive;
pub mod recyclable;
pub mod renderer;
pub mod resolved;
pub mod to_mutable;
pub mod view;
pub mod virtual_container;
pub mod x_if;
