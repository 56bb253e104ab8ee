use std::hash::BuildHasherDefault;

use ahash::AHasher;
use indexmap::IndexSet;
use rxy_core::data_keyed::{checked_data_diff, data_diff_keys, diff, unpack_moves, Diff, DiffOpAdd, DiffOpAddMode, DiffOpMove, DiffOpRemove};
use rxy_core::key_set::FxIndexSet;

fn keys(items: &[u64]) -> FxIndexSet<u64> {
    let mut set: FxIndexSet<u64> = IndexSet::with_hasher(BuildHasherDefault::<AHasher>::default());
    for item in items {
        set.insert(*item);
    }
    set
}

fn mv(from: usize, len: usize, to: usize, move_in_dom: bool) -> DiffOpMove {
    DiffOpMove { from, len, to, move_in_dom }
}

fn add(at: usize, mode: DiffOpAddMode) -> DiffOpAdd {
    DiffOpAdd { at, mode }
}

#[test]
fn data_diff_of_two_empty_lists_is_empty() {
    assert_eq!(diff(&keys(&[]), &keys(&[])), Diff::default());
}

#[test]
fn data_diff_to_an_empty_list_clears() {
    let d = diff(&keys(&[1, 2, 3]), &keys(&[]));
    assert!(d.clear);
    assert!(d.removed.is_empty() && d.moved.is_empty() && d.added.is_empty());
    assert_eq!(d.items_to_move, 0);
}

#[test]
fn data_diff_from_an_empty_list_appends_every_item() {
    let d = diff(&keys(&[]), &keys(&[9, 8, 7]));
    assert!(!d.clear);
    assert_eq!(
        d.added,
        vec![add(0, DiffOpAddMode::Append), add(1, DiffOpAddMode::Append), add(2, DiffOpAddMode::Append)]
    );
    assert!(d.removed.is_empty() && d.moved.is_empty());
}

#[test]
fn data_diff_groups_adjacent_moves() {
    // from `[2, 3, 5, 6]` to `[1, 2, 3, 4, 5, 6]`: one move for `2, 3` and one for `5, 6`
    let d = diff(&keys(&[2, 3, 5, 6]), &keys(&[1, 2, 3, 4, 5, 6]));
    assert_eq!(
        d,
        Diff {
            removed: vec![],
            moved: vec![mv(0, 2, 1, false), mv(2, 2, 4, true)],
            items_to_move: 4,
            added: vec![add(0, DiffOpAddMode::Normal), add(3, DiffOpAddMode::Normal)],
            clear: false,
        }
    );
}

#[test]
fn data_diff_finds_removals_and_moves() {
    let d = diff(&keys(&[1, 2, 3]), &keys(&[3, 1, 4]));
    assert_eq!(
        d,
        Diff {
            removed: vec![DiffOpRemove { at: 1 }],
            moved: vec![mv(0, 1, 1, true), mv(2, 1, 0, true)],
            items_to_move: 2,
            added: vec![add(2, DiffOpAddMode::Normal)],
            clear: false,
        }
    );
}

#[test]
fn data_diff_of_the_same_keys_is_empty() {
    let d = diff(&keys(&[5, 6, 7]), &keys(&[5, 6, 7]));
    assert_eq!(d, Diff::default());
}

#[test]
fn data_unpack_moves_splits_groups() {
    let d = diff(&keys(&[2, 3, 5, 6]), &keys(&[1, 2, 3, 4, 5, 6]));
    let (moves, adds) = unpack_moves(&d);
    assert_eq!(
        moves,
        vec![mv(0, 1, 1, false), mv(1, 1, 2, false), mv(2, 1, 4, true), mv(3, 1, 5, true)]
    );
    assert_eq!(adds, vec![add(0, DiffOpAddMode::Normal), add(3, DiffOpAddMode::Normal)]);
}

#[test]
fn data_unpack_moves_skips_removals() {
    let d = diff(&keys(&[1, 2, 3]), &keys(&[3, 1, 4]));
    let (moves, adds) = unpack_moves(&d);
    assert_eq!(moves, vec![mv(0, 1, 1, true), mv(2, 1, 0, true)]);
    assert_eq!(adds, vec![add(2, DiffOpAddMode::Normal)]);
}

#[test]
fn data_diff_defaults() {
    assert_eq!(DiffOpMove::default(), mv(0, 1, 0, true));
    assert_eq!(DiffOpAdd::default(), add(0, DiffOpAddMode::Normal));
    assert_eq!(DiffOpAddMode::default(), DiffOpAddMode::Normal);
}

#[test]
fn data_diff_keys_compares_the_first_occurrences() {
    let from = vec![5u64, 6, 5];
    let to = vec![6u64, 7];
    assert_eq!(data_diff_keys(&from, &to), Some(diff(&keys(&[5, 6]), &keys(&[6, 7]))));
    assert_eq!(checked_data_diff(&keys(&[]), &keys(&[])), Some(diff(&keys(&[]), &keys(&[]))));
}
