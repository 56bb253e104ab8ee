use std::hash::BuildHasherDefault;

use ahash::AHasher;
use indexmap::IndexSet;
use rxy_core::diff::{checked_diff, diff, diff_keys, key_set_of, Diff, DiffOpMove};
use rxy_core::key_set::FxIndexSet;

fn keys(items: &[u64]) -> FxIndexSet<u64> {
    let mut set: FxIndexSet<u64> = IndexSet::with_hasher(BuildHasherDefault::<AHasher>::default());
    for item in items {
        set.insert(*item);
    }
    set
}

fn mv(from: usize, to: usize, len: usize, can_ignored: bool) -> DiffOpMove {
    DiffOpMove { from, to, len, can_ignored }
}

#[test]
fn diff_of_two_empty_lists_is_no_change() {
    assert_eq!(diff(&keys(&[]), &keys(&[])), Diff::NoChanged);
}

#[test]
fn diff_to_an_empty_list_clears() {
    assert_eq!(diff(&keys(&[1, 2]), &keys(&[])), Diff::Cleared);
}

#[test]
fn diff_from_an_empty_list_replaces() {
    assert_eq!(diff(&keys(&[]), &keys(&[7, 8])), Diff::Replaced);
}

#[test]
fn diff_of_the_same_keys_keeps_every_position() {
    let d = diff(&keys(&[4, 5, 6]), &keys(&[4, 5, 6]));
    assert_eq!(
        d,
        Diff::PartDiff {
            removed: vec![],
            moved: vec![],
            moved_sum_count: 0,
            added: vec![],
            no_changed: vec![0, 1, 2],
        }
    );
}

#[test]
fn diff_finds_removed_added_moved_and_unchanged_positions() {
    let d = diff(&keys(&[1, 2, 3]), &keys(&[1, 3, 4]));
    assert_eq!(
        d,
        Diff::PartDiff {
            removed: vec![1],
            moved: vec![mv(2, 1, 1, false)],
            moved_sum_count: 1,
            added: vec![2],
            no_changed: vec![0],
        }
    );
}

#[test]
fn diff_marks_moves_that_keep_their_relative_place() {
    let d = diff(&keys(&[2, 3, 5, 6]), &keys(&[1, 2, 3, 4, 5, 6]));
    assert_eq!(
        d,
        Diff::PartDiff {
            removed: vec![],
            moved: vec![mv(0, 1, 1, true), mv(1, 2, 1, true), mv(2, 4, 1, false), mv(3, 5, 1, true)],
            moved_sum_count: 4,
            added: vec![0, 3],
            no_changed: vec![],
        }
    );
}

#[test]
fn combine_move_groups_adjacent_moves() {
    // from `[2, 3, 5, 6]` to `[1, 2, 3, 4, 5, 6]`: one move for `2, 3` and one for `5, 6`
    let mut d = diff(&keys(&[2, 3, 5, 6]), &keys(&[1, 2, 3, 4, 5, 6]));
    d.combine_move();
    assert_eq!(
        d,
        Diff::PartDiff {
            removed: vec![],
            moved: vec![mv(0, 1, 2, true), mv(2, 4, 2, false)],
            moved_sum_count: 4,
            added: vec![0, 3],
            no_changed: vec![],
        }
    );
}

#[test]
fn combine_move_leaves_other_diffs_alone() {
    let mut d = Diff::Cleared;
    d.combine_move();
    assert_eq!(d, Diff::Cleared);
}

#[test]
fn unpack_moves_splits_groups_and_orders_additions() {
    let mut d = diff(&keys(&[2, 3, 5, 6]), &keys(&[1, 2, 3, 4, 5, 6]));
    d.combine_move();
    let (moves, adds) = d.unpack_moves();
    assert_eq!(moves, vec![mv(0, 1, 1, true), mv(1, 2, 1, true), mv(2, 4, 1, false), mv(3, 5, 1, false)]);
    assert_eq!(adds, vec![0, 3]);
}

#[test]
fn unpack_moves_skips_removals() {
    let d = diff(&keys(&[1, 2, 3]), &keys(&[3, 1, 4]));
    let (moves, adds) = d.unpack_moves();
    assert_eq!(moves, vec![mv(0, 1, 1, false), mv(2, 0, 1, false)]);
    assert_eq!(adds, vec![2]);
}

#[test]
fn unpack_moves_of_a_whole_diff_is_empty() {
    let (moves, adds) = Diff::Replaced.unpack_moves();
    assert!(moves.is_empty());
    assert!(adds.is_empty());
}

#[test]
fn diff_op_move_default_is_a_single_ignorable_move() {
    assert_eq!(DiffOpMove::default(), mv(0, 0, 1, true));
    assert_eq!(Diff::default(), Diff::NoChanged);
}

#[test]
fn diff_keys_compares_the_first_occurrences() {
    let from = vec![1u64, 2, 3, 2];
    let to = vec![3u64, 1, 4];
    let set = key_set_of(&from);
    assert_eq!(set.iter().copied().collect::<Vec<u64>>(), vec![1, 2, 3]);
    assert_eq!(diff_keys(&from, &to), Some(diff(&keys(&[1, 2, 3]), &keys(&[3, 1, 4]))));
    assert_eq!(checked_diff(&keys(&[1, 2]), &keys(&[])), Some(Diff::Cleared));
}

#[test]
fn combining_moves_twice_changes_nothing() {
    let mut d = Diff::PartDiff {
        removed: vec![],
        moved: vec![mv(0, 1, 1, false), mv(1, 2, 1, false), mv(3, 0, 1, false)],
        moved_sum_count: 3,
        added: vec![],
        no_changed: vec![],
    };
    d.combine_move();
    let once = Diff::PartDiff {
        removed: vec![],
        moved: vec![mv(0, 1, 2, false), mv(3, 0, 1, false)],
        moved_sum_count: 3,
        added: vec![],
        no_changed: vec![],
    };
    assert_eq!(d, once);
    d.combine_move();
    assert_eq!(d, once);
}
