use vstd::prelude::*;
use crate::diff::{
    longest_len, removed_upto, added_upto, moved_upto, move_at, group_moves, moves_fit,
    lemma_upto_len, is_unchanged, is_removed, is_added, is_moved, is_target, source_of,
    moved_froms, bound_at, lemma_positions, lemma_positions_step, lemma_moved_froms,
    lemma_target_source, lemma_moved_target, lemma_new_position_kinds, lemma_old_position_kinds,
    lemma_new_len_bound,
};
use crate::keyed_list::{
    take_slot, base_slot, get_next_some_node_id, drain_none, removes_at, key_removed,
    lemma_removes_at_step, first_occurrences, next_anchor,
};
use crate::renderer::{same_node, state_put, NodeTree, Renderer, RendererNodeId, RendererWorld, ViewCtx};
use crate::view::{XView, ViewKey, IntoView, MutableView, MutableViewKey, removes_in_order, lemma_removes_step, first_node_from};
use crate::list_source::placed_before;
use crate::key_set::{
    FxIndexSet, key_set_items, key_set_new, key_set_insert, key_set_is_empty, key_set_len,
    key_set_get_index, key_set_contains, key_set_get_full,
};
use crate::virtual_container::{VirtualContainer, virtual_container};
use core::marker::PhantomData;

verus! {

/// A move of `len` consecutive items from position `from` of the old list to
/// position `to` of the new list. `move_in_dom` is set when the item changes
/// its place relative to its neighbours, so that its nodes must be moved too.
#[derive(Clone, Copy, Debug, PartialEq, Eq)]
pub struct DiffOpMove {
    pub from: usize,
    pub len: usize,
    pub to: usize,
    pub move_in_dom: bool,
}

impl Default for DiffOpMove {
    fn default() -> (r: Self)
        ensures
            r == (DiffOpMove { from: 0, to: 0, len: 1, move_in_dom: true }),
    {
        DiffOpMove { from: 0, to: 0, len: 1, move_in_dom: true }
    }
}

/// Where an added item goes: before the next built item (`Normal`), or at
/// the end of the list (`Append`).
#[derive(Clone, Copy, Debug, PartialEq, Eq)]
pub enum DiffOpAddMode {
    Normal,
    Append,
}

impl Default for DiffOpAddMode {
    fn default() -> (r: Self)
        ensures
            r == DiffOpAddMode::Normal,
    {
        DiffOpAddMode::Normal
    }
}

/// An item added at position `at` of the new list.
#[derive(Clone, Copy, Debug, PartialEq, Eq)]
pub struct DiffOpAdd {
    pub at: usize,
    pub mode: DiffOpAddMode,
}

impl Default for DiffOpAdd {
    fn default() -> (r: Self)
        ensures
            r == (DiffOpAdd { at: 0, mode: DiffOpAddMode::Normal }),
    {
        DiffOpAdd { at: 0, mode: DiffOpAddMode::Normal }
    }
}

/// An item removed from position `at` of the old list.
#[derive(Debug, PartialEq, Eq)]
pub struct DiffOpRemove {
    pub at: usize,
}

/// The difference between an old and a new ordered set of keys: the removed
/// items, the moved runs of items, how many items they move, the added items,
/// and whether the whole list is cleared.
#[derive(Debug, PartialEq, Eq)]
pub struct Diff {
    pub removed: Vec<DiffOpRemove>,
    pub moved: Vec<DiffOpMove>,
    pub items_to_move: usize,
    pub added: Vec<DiffOpAdd>,
    pub clear: bool,
}

impl Default for Diff {
    fn default() -> (r: Self)
        ensures
            r.removed@.len() == 0,
            r.moved@.len() == 0,
            r.items_to_move == 0,
            r.added@.len() == 0,
            !r.clear,
    {
        Diff { removed: Vec::new(), moved: Vec::new(), items_to_move: 0, added: Vec::new(), clear: false }
    }
}

/// The same move, in the form of `crate::diff`, whose `can_ignored` is the
/// opposite of `move_in_dom`.
pub open spec fn plain_move(m: DiffOpMove) -> crate::diff::DiffOpMove {
    crate::diff::DiffOpMove { from: m.from, to: m.to, len: m.len, can_ignored: !m.move_in_dom }
}

pub open spec fn plain_moves(s: Seq<DiffOpMove>) -> Seq<crate::diff::DiffOpMove> {
    s.map_values(|m: DiffOpMove| plain_move(m))
}

/// The positions of the removals.
pub open spec fn removed_ats(s: Seq<DiffOpRemove>) -> Seq<usize> {
    s.map_values(|r: DiffOpRemove| r.at)
}

/// The positions of the additions.
pub open spec fn added_ats(s: Seq<DiffOpAdd>) -> Seq<usize> {
    s.map_values(|a: DiffOpAdd| a.at)
}

/// Additions at the given positions, all in the given mode.
pub open spec fn adds_in_mode(ats: Seq<usize>, mode: DiffOpAddMode) -> Seq<DiffOpAdd> {
    ats.map_values(|at: usize| DiffOpAdd { at, mode })
}

/// What `diff` gives back for the old keys `f` and the new keys `t`: nothing
/// when both are empty; a cleared list when only the new one is; every new
/// item appended when only the old one is; otherwise, position by position,
/// the removed old items, the added new items, and the moved old items, runs
/// of adjacent moves grouped into one.
pub open spec fn is_data_diff_of(f: Seq<u64>, t: Seq<u64>, d: Diff) -> bool {
    let n = longest_len(f, t);
    if f.len() == 0 && t.len() == 0 {
        &&& d.removed@.len() == 0
        &&& d.moved@.len() == 0
        &&& d.items_to_move == 0
        &&& d.added@.len() == 0
        &&& !d.clear
    } else if t.len() == 0 {
        &&& d.removed@.len() == 0
        &&& d.moved@.len() == 0
        &&& d.items_to_move == 0
        &&& d.added@.len() == 0
        &&& d.clear
    } else if f.len() == 0 {
        &&& d.removed@.len() == 0
        &&& d.moved@.len() == 0
        &&& d.items_to_move == 0
        &&& d.added@ == adds_in_mode(
            Seq::new(t.len(), |i: int| i as usize),
            DiffOpAddMode::Append,
        )
        &&& !d.clear
    } else {
        &&& removed_ats(d.removed@) == removed_upto(f, t, n)
        &&& plain_moves(d.moved@) == group_moves(moved_upto(f, t, n))
        &&& d.items_to_move == moved_upto(f, t, n).len()
        &&& d.added@ == adds_in_mode(added_upto(f, t, n), DiffOpAddMode::Normal)
        &&& !d.clear
    }
}

} // verus!

verus! {

/// Group adjacent items that are being moved as a group.
/// For example from `[2, 3, 5, 6]` to `[1, 2, 3, 4, 5, 6]` should result
/// in a move for `2,3` and `5,6` rather than 4 individual moves.
fn group_adjacent_moves(moved: Vec<DiffOpMove>) -> (r: Vec<DiffOpMove>)
    requires
        moves_fit(plain_moves(moved@)),
    ensures
        plain_moves(r@) == group_moves(plain_moves(moved@)),
{
    let ghost pm = plain_moves(moved@);
    let mut prev: Option<DiffOpMove> = None;
    let mut new_moved: Vec<DiffOpMove> = Vec::new();
    let mut i: usize = 0;
    while i < moved.len()
        invariant
            i <= moved.len(),
            pm == plain_moves(moved@),
            moves_fit(pm),
            prev is None <==> i == 0,
            group_moves(pm.take(i as int)) == (match prev {
                Some(p) => plain_moves(new_moved@).push(plain_move(p)),
                None => plain_moves(new_moved@),
            }),
            prev matches Some(p) ==> p.from + p.len <= usize::MAX && p.to + p.len <= usize::MAX,
        decreases moved.len() - i,
    {
        let m = moved[i];
        assert(pm[i as int] == plain_move(m));
        assert(pm.take(i + 1).drop_last() =~= pm.take(i as int));
        assert(pm.take(i + 1).last() == plain_move(m));
        assert(m.from + m.len < usize::MAX && m.to + m.len < usize::MAX);
        match prev {
            Some(p) => {
                if m.from == p.from + p.len && m.to == p.to + p.len {
                    let q = DiffOpMove { len: p.len + 1, ..p };
                    assert(plain_move(q) == crate::diff::DiffOpMove {
                        len: (plain_move(p).len + 1) as usize,
                        ..plain_move(p)
                    });
                    assert(plain_moves(new_moved@).push(plain_move(p)).update(
                        plain_moves(new_moved@).len() as int,
                        plain_move(q),
                    ) =~= plain_moves(new_moved@).push(plain_move(q)));
                    prev = Some(q);
                } else {
                    new_moved.push(p);
                    assert(plain_moves(new_moved@) =~= plain_moves(new_moved@.drop_last()).push(
                        plain_move(p),
                    ));
                    prev = Some(m);
                }
            },
            None => {
                prev = Some(m);
            },
        }
        i = i + 1;
    }
    assert(pm.take(moved.len() as int) =~= pm);
    if let Some(p) = prev {
        new_moved.push(p);
        assert(plain_moves(new_moved@) =~= plain_moves(new_moved@.drop_last()).push(plain_move(p)));
    }
    new_moved
}

} // verus!

verus! {

/// Compares the old and the new keys position by position: a key that is gone
/// is removed, a key that was not there is added, and a key that is elsewhere
/// in the new list is moved there; adjacent moves are then grouped. An empty
/// new list clears the old one, and an empty old list takes every new item
/// appended.
pub fn diff(from: &FxIndexSet<u64>, to: &FxIndexSet<u64>) -> (r: Diff)
    requires
        key_set_items(*from).len() <= i32::MAX,
        key_set_items(*to).len() <= i32::MAX,
    ensures
        is_data_diff_of(key_set_items(*from), key_set_items(*to), r),
{
    let ghost f = key_set_items(*from);
    let ghost t = key_set_items(*to);
    if key_set_is_empty(from) && key_set_is_empty(to) {
        return Diff::default();
    } else if key_set_is_empty(to) {
        return Diff {
            removed: Vec::new(),
            moved: Vec::new(),
            items_to_move: 0,
            added: Vec::new(),
            clear: true,
        };
    } else if key_set_is_empty(from) {
        let to_len = key_set_len(to);
        let mut added: Vec<DiffOpAdd> = Vec::new();
        let mut at: usize = 0;
        while at < to_len
            invariant
                to_len == t.len(),
                at <= to_len,
                added@ == adds_in_mode(Seq::new(at as nat, |i: int| i as usize), DiffOpAddMode::Append),
            decreases to_len - at,
        {
            added.push(DiffOpAdd { at, mode: DiffOpAddMode::Append });
            assert(adds_in_mode(Seq::new((at + 1) as nat, |i: int| i as usize), DiffOpAddMode::Append)
                =~= adds_in_mode(Seq::new(at as nat, |i: int| i as usize), DiffOpAddMode::Append).push(
                DiffOpAdd { at, mode: DiffOpAddMode::Append },
            ));
            at = at + 1;
        }
        return Diff { removed: Vec::new(), moved: Vec::new(), items_to_move: 0, added, clear: false };
    }
    let mut removed: Vec<DiffOpRemove> = Vec::new();
    let mut moved: Vec<DiffOpMove> = Vec::new();
    let mut added: Vec<DiffOpAdd> = Vec::new();
    let from_len = key_set_len(from);
    let to_len = key_set_len(to);
    let max_len = if from_len >= to_len {
        from_len
    } else {
        to_len
    };
    let mut index: usize = 0;
    while index < max_len
        invariant
            f == key_set_items(*from),
            t == key_set_items(*to),
            f.len() == from_len,
            t.len() == to_len,
            from_len <= i32::MAX,
            to_len <= i32::MAX,
            max_len == longest_len(f, t),
            index <= max_len,
            removed_ats(removed@) == removed_upto(f, t, index as nat),
            plain_moves(moved@) == moved_upto(f, t, index as nat),
            added@ == adds_in_mode(added_upto(f, t, index as nat), DiffOpAddMode::Normal),
        decreases max_len - index,
    {
        proof {
            lemma_upto_len(f, t, index as nat);
        }
        let from_item = key_set_get_index(from, index);
        let to_item = key_set_get_index(to, index);
        let same = match (from_item, to_item) {
            (Some(a), Some(b)) => a == b,
            (None, None) => true,
            _ => false,
        };
        if !same {
            if let Some(from_key) = from_item {
                if !key_set_contains(to, &from_key) {
                    removed.push(DiffOpRemove { at: index });
                    assert(removed_ats(removed@) =~= removed_ats(removed@.drop_last()).push(index));
                }
            }
            if let Some(to_key) = to_item {
                if !key_set_contains(from, &to_key) {
                    added.push(DiffOpAdd { at: index, mode: DiffOpAddMode::Normal });
                    assert(added@ =~= adds_in_mode(added_upto(f, t, index as nat), DiffOpAddMode::Normal).push(
                        DiffOpAdd { at: index, mode: DiffOpAddMode::Normal },
                    ));
                }
            }
            if let Some(from_key) = from_item {
                if let Some(to_index) = key_set_get_full(to, &from_key) {
                    let moves_forward_by: i32 = (to_index as i32) - (index as i32);
                    let move_in_dom = moves_forward_by != (added.len() as i32) - (removed.len() as i32);
                    let op = DiffOpMove { from: index, len: 1, to: to_index, move_in_dom };
                    moved.push(op);
                    assert(plain_moves(moved@) =~= plain_moves(moved@.drop_last()).push(plain_move(op)));
                    assert(plain_move(op) == move_at(f, t, index as int));
                }
            }
        }
        proof {
            let n1 = (index + 1) as nat;
            assert(removed_upto(f, t, n1) =~= removed_ats(removed@));
            assert(adds_in_mode(added_upto(f, t, n1), DiffOpAddMode::Normal) =~= added@);
            assert(moved_upto(f, t, n1) =~= plain_moves(moved@));
        }
        index = index + 1;
    }
    proof {
        crate::diff::lemma_moved_upto_single(f, t, max_len as nat);
        lemma_upto_len(f, t, max_len as nat);
    }
    let ghost ungrouped = moved_upto(f, t, max_len as nat);
    let moved = group_adjacent_moves(moved);
    proof {
        crate::diff::lemma_group_units(ungrouped, max_len as int);
        crate::diff::lemma_moved_len(f, t, max_len as nat);
    }
    let ghost pm = plain_moves(moved@);
    let mut items_to_move: usize = 0;
    let mut i: usize = 0;
    while i < moved.len()
        invariant
            pm == plain_moves(moved@),
            crate::diff::move_units(pm) == ungrouped.len(),
            ungrouped.len() <= max_len,
            max_len <= i32::MAX,
            i <= moved.len(),
            items_to_move == crate::diff::move_units(pm.take(i as int)),
        decreases moved.len() - i,
    {
        proof {
            assert(pm.take(i + 1) =~= pm.take(i as int).push(pm[i as int]));
            crate::diff::lemma_move_units_push(pm.take(i as int), pm[i as int]);
            crate::diff::lemma_units_prefix(pm, i + 1);
        }
        items_to_move = items_to_move + moved[i].len;
        i = i + 1;
    }
    assert(pm.take(moved.len() as int) =~= pm);
    Diff { removed, moved, items_to_move, added, clear: false }
}

} // verus!

verus! {

/// The number of steps `unpack_moves` takes.
pub open spec fn data_unpack_steps(d: Diff) -> int {
    d.items_to_move + d.added@.len() + d.removed@.len()
}

/// The counters of `unpack_moves` stay in range: the step count fits in a
/// `usize`, and every move has at least one item and ends within `usize`.
pub open spec fn data_unpack_fits(d: Diff) -> bool {
    &&& data_unpack_steps(d) <= usize::MAX
    &&& crate::diff::moves_nonempty_fit(plain_moves(d.moved@))
}

/// Where `unpack_moves` stands after all its steps, in the terms of the
/// unpacking of `crate::diff`.
pub open spec fn data_unpacked(d: Diff) -> crate::diff::UnpackState {
    crate::diff::unpack_run(
        removed_ats(d.removed@),
        added_ats(d.added@),
        plain_moves(d.moved@),
        data_unpack_steps(d) as nat,
    )
}

pub open spec fn plain_opt(m: Option<DiffOpMove>) -> Option<crate::diff::DiffOpMove> {
    match m {
        Some(c) => Some(plain_move(c)),
        None => None,
    }
}

/// Splits the moves into single-item moves and puts them and the additions
/// in the order in which they apply, skipping the removals.
pub fn unpack_moves(diff: &Diff) -> (r: (Vec<DiffOpMove>, Vec<DiffOpAdd>))
    requires
        data_unpack_fits(*diff),
    ensures
        plain_moves(r.0@) == data_unpacked(*diff).moves,
        r.1@ == diff.added@.take(data_unpacked(*diff).adds_at as int),
        crate::diff::move_units(plain_moves(diff.moved@)) <= diff.items_to_move ==> plain_moves(r.0@)
            == crate::diff::expand_moves(plain_moves(diff.moved@)) && r.1@ == diff.added@,
{
    proof {
        if crate::diff::move_units(plain_moves(diff.moved@)) <= diff.items_to_move {
            crate::diff::lemma_unpack_all(
                removed_ats(diff.removed@),
                added_ats(diff.added@),
                plain_moves(diff.moved@),
                data_unpack_steps(*diff) as nat,
            );
            assert(diff.added@.take(diff.added@.len() as int) == diff.added@);
        }
    }
    let removed = &diff.removed;
    let added = &diff.added;
    let moved = &diff.moved;
    let total = diff.items_to_move + added.len() + removed.len();
    let ghost rem = removed_ats(removed@);
    let ghost add = added_ats(added@);
    let ghost mov = plain_moves(moved@);
    let mut moves: Vec<DiffOpMove> = Vec::new();
    let mut adds: Vec<DiffOpAdd> = Vec::new();
    let mut ri: usize = 0;
    let mut ai: usize = 0;
    let mut mi: usize = 0;
    let mut cur: Option<DiffOpMove> = None;
    if moved.len() > 0 {
        cur = Some(moved[0]);
        assert(mov[0] == plain_move(moved@[0]));
        mi = 1;
    }
    let mut stopped = false;
    let mut i: usize = 0;
    assert(plain_moves(moves@) =~= seq![]);
    assert(added_ats(adds@) =~= seq![]);
    assert(added@.take(0) =~= adds@);
    while i < total && !stopped
        invariant
            rem == removed_ats(removed@),
            add == added_ats(added@),
            mov == plain_moves(moved@),
            total == data_unpack_steps(*diff),
            crate::diff::moves_nonempty_fit(mov),
            i <= total,
            ri <= removed.len(),
            ai <= added.len(),
            mi <= moved.len(),
            adds@ == added@.take(ai as int),
            cur matches Some(c) ==> c.len >= 1 && c.from + c.len <= usize::MAX && c.to + c.len
                <= usize::MAX,
            crate::diff::unpack_run(rem, add, mov, i as nat) == (crate::diff::UnpackState {
                removes: ri as nat,
                adds_at: ai as nat,
                next_move: mi as nat,
                current: plain_opt(cur),
                moves: plain_moves(moves@),
                adds: added_ats(adds@),
                stopped,
            }),
        decreases total - i,
    {
        proof {
            if ri < removed.len() {
                assert(rem[ri as int] == removed@[ri as int].at);
            }
            if ai < added.len() {
                assert(add[ai as int] == added@[ai as int].at);
            }
        }

        if ri < removed.len() && removed[ri].at == i {
            ri = ri + 1;
        } else {
            let add_next: Option<usize> = if ai < added.len() {
                Some(added[ai].at)
            } else {
                None
            };
            let take_add = match (add_next, cur) {
                (Some(a), Some(_)) => a == i,
                (Some(_), None) => true,
                _ => false,
            };
            if take_add {
                let ghost adds0 = adds@;
                adds.push(added[ai]);
                assert(added@.take(ai + 1) =~= added@.take(ai as int).push(added@[ai as int]));
                assert(added_ats(adds@) =~= added_ats(adds0).push(add[ai as int]));
                ai = ai + 1;
            } else {
                match cur {
                    Some(m) => {
                        let one = DiffOpMove { len: 1, ..m };
                        let ghost moves0 = moves@;
                        moves.push(one);
                        assert(plain_moves(moves@) =~= plain_moves(moves0).push(
                            crate::diff::single(plain_move(m)),
                        ));
                        let rest = DiffOpMove { len: m.len - 1, from: m.from + 1, to: m.to + 1, ..m };
                        assert(plain_move(rest) == crate::diff::advance(plain_move(m)));
                        if rest.len == 0 {
                            if mi < moved.len() {
                                cur = Some(moved[mi]);
                                assert(mov[mi as int] == plain_move(moved@[mi as int]));
                                mi = mi + 1;
                            } else {
                                cur = None;
                            }
                        } else {
                            cur = Some(rest);
                        }
                    },
                    None => {
                        stopped = true;
                    },
                }
            }
        }

        i = i + 1;
    }
    proof {
        if i < total {
            crate::diff::lemma_unpack_stopped_stays(rem, add, mov, i as nat, total as nat);
        }
    }
    (moves, adds)
}

} // verus!

verus! {

/// For the diff of two key lists of which the new one is not empty,
/// `unpack_moves` gives out every addition of the diff, and one single-item
/// move per moved old item, in the order of the old positions, each from the
/// item's old position to the position of its key in the new list; the
/// removals and additions are those of the positions that are removed and
/// added.
pub proof fn unpacked_moves_follow_items(f: Seq<u64>, t: Seq<u64>, d: Diff)
    requires
        t.len() > 0,
        f.len() <= i32::MAX,
        t.len() <= i32::MAX,
        is_data_diff_of(f, t, d),
    ensures
        !d.clear,
        removed_ats(d.removed@) == removed_upto(f, t, longest_len(f, t)),
        added_ats(d.added@) == added_upto(f, t, longest_len(f, t)),
        data_unpack_fits(d),
        data_unpacked(d).adds_at == d.added@.len(),
        data_unpacked(d).moves.len() == moved_upto(f, t, longest_len(f, t)).len(),
        forall|k: int|
            #![trigger data_unpacked(d).moves[k]]
            0 <= k < data_unpacked(d).moves.len() ==> data_unpacked(d).moves[k].from == moved_upto(
                f,
                t,
                longest_len(f, t),
            )[k].from && data_unpacked(d).moves[k].to == moved_upto(f, t, longest_len(f, t))[k].to
                && data_unpacked(d).moves[k].len == 1,
{
    let n = longest_len(f, t);
    let mu = moved_upto(f, t, n);
    if f.len() == 0 {
        crate::diff::lemma_from_empty(f, t, n);
        assert(added_ats(d.added@) =~= added_upto(f, t, n));
        assert(removed_ats(d.removed@) =~= removed_upto(f, t, n));
        assert(plain_moves(d.moved@) =~= Seq::<crate::diff::DiffOpMove>::empty());
        assert(crate::diff::move_units(plain_moves(d.moved@)) == 0);
        crate::diff::lemma_unpack_all(
            removed_ats(d.removed@),
            added_ats(d.added@),
            plain_moves(d.moved@),
            data_unpack_steps(d) as nat,
        );
        assert(crate::diff::expand_moves(plain_moves(d.moved@)) =~= Seq::<crate::diff::DiffOpMove>::empty());
    } else {
        crate::diff::lemma_moved_upto_single(f, t, n);
        crate::diff::lemma_group_units(mu, n as int);
        crate::diff::lemma_old_kinds_len(f, t, n);
        crate::diff::lemma_added_len(f, t, n);
        let g = group_moves(mu);
        assert(crate::diff::moves_nonempty_fit(plain_moves(d.moved@))) by {
            assert forall|k: int| 0 <= k < g.len() implies #[trigger] g[k].len >= 1 && g[k].from
                + g[k].len <= usize::MAX && g[k].to + g[k].len <= usize::MAX by {}
        }
        assert(added_ats(d.added@) =~= added_upto(f, t, n));
        assert(removed_ats(d.removed@).len() == removed_upto(f, t, n).len());
        crate::diff::lemma_unpack_all(
            removed_ats(d.removed@),
            added_ats(d.added@),
            plain_moves(d.moved@),
            data_unpack_steps(d) as nat,
        );
        crate::diff::grouped_moves_keep_routes(mu);
    }
}

} // verus!

verus! {

/// The index, among the moved old positions, of the old position whose key
/// goes to new position `p`.
pub open spec fn route_index(f: Seq<u64>, t: Seq<u64>, p: int) -> int {
    moved_froms(f, t, longest_len(f, t)).index_of(source_of(f, t, p) as usize)
}

/// The moves are, one by one, the moves of the moved old items: same old
/// position, same new position.
pub open spec fn routes_match(cmds: Seq<DiffOpMove>, mu: Seq<crate::diff::DiffOpMove>) -> bool {
    &&& cmds.len() == mu.len()
    &&& forall|a: int|
        #![trigger cmds[a]]
        0 <= a < cmds.len() ==> cmds[a].from == mu[a].from && cmds[a].to == mu[a].to
}

/// The two key lists hold no key twice and their lengths fit in an `i32`.
pub open spec fn keys_fit(f: Seq<u64>, t: Seq<u64>) -> bool {
    &&& f.no_duplicates()
    &&& t.no_duplicates()
    &&& f.len() <= i32::MAX
    &&& t.len() <= i32::MAX
}

proof fn lemma_froms_unique(f: Seq<u64>, t: Seq<u64>, a: int)
    requires
        keys_fit(f, t),
        0 <= a < moved_froms(f, t, longest_len(f, t)).len(),
    ensures
        moved_froms(f, t, longest_len(f, t)).index_of(moved_froms(f, t, longest_len(f, t))[a]) == a,
{
    let n = longest_len(f, t);
    let froms = moved_froms(f, t, n);
    lemma_positions(n, |i: int| is_moved(f, t, i));
    assert(froms.contains(froms[a]));
    let k = froms.index_of(froms[a]);
    if k < a {
        assert(froms[k] < froms[a]);
    } else if k > a {
        assert(froms[a] < froms[k]);
    }
}

/// A new position that receives a moved key is reached by exactly one move.
proof fn lemma_route_index(f: Seq<u64>, t: Seq<u64>, p: int)
    requires
        keys_fit(f, t),
        is_target(f, t, p),
    ensures
        0 <= route_index(f, t, p) < moved_upto(f, t, longest_len(f, t)).len(),
        moved_upto(f, t, longest_len(f, t))[route_index(f, t, p)].from == source_of(f, t, p),
        moved_upto(f, t, longest_len(f, t))[route_index(f, t, p)].to == p,
{
    let n = longest_len(f, t);
    let pm = |i: int| is_moved(f, t, i);
    let froms = moved_froms(f, t, n);
    lemma_target_source(f, t, p);
    let j = source_of(f, t, p);
    lemma_positions(n, pm);
    lemma_moved_froms(f, t, n);
    assert(pm(j));
    assert(froms.contains(j as usize));
    let a = froms.index_of(j as usize);
    assert(0 <= a < froms.len() && froms[a] == j as usize);
}

/// The move at index `a` brings the key of its old position to its new
/// position, which is reached by that move alone.
proof fn lemma_index_route(f: Seq<u64>, t: Seq<u64>, a: int)
    requires
        keys_fit(f, t),
        0 <= a < moved_upto(f, t, longest_len(f, t)).len(),
    ensures
        is_target(f, t, moved_upto(f, t, longest_len(f, t))[a].to as int),
        route_index(f, t, moved_upto(f, t, longest_len(f, t))[a].to as int) == a,
        source_of(f, t, moved_upto(f, t, longest_len(f, t))[a].to as int) == moved_upto(
            f,
            t,
            longest_len(f, t),
        )[a].from,
        moved_upto(f, t, longest_len(f, t))[a].from < f.len(),
{
    let n = longest_len(f, t);
    let pm = |i: int| is_moved(f, t, i);
    let froms = moved_froms(f, t, n);
    lemma_positions(n, pm);
    lemma_moved_froms(f, t, n);
    let j = froms[a] as int;
    assert(pm(j));
    lemma_moved_target(f, t, j);
    lemma_froms_unique(f, t, a);
}

fn remove_removed_ops<R: Renderer, K: ViewKey<R>>(
    world: &mut RendererWorld<R>,
    removed: &Vec<DiffOpRemove>,
    children_keys: &mut Vec<Option<K>>,
    Ghost(f): Ghost<Seq<u64>>,
    Ghost(t): Ghost<Seq<u64>>,
)
    requires
        keys_fit(f, t),
        old(children_keys)@.len() == f.len(),
        forall|j: int| 0 <= j < f.len() ==> #[trigger] old(children_keys)@[j] is Some,
        removed_ats(removed@) == removed_upto(f, t, longest_len(f, t)),
    ensures
        final(children_keys)@.len() == f.len(),
        forall|j: int|
            0 <= j < f.len() ==> #[trigger] final(children_keys)@[j] == if is_removed(f, t, j) {
                None
            } else {
                old(children_keys)@[j]
            },
        removes_at::<R, K>(old(children_keys)@, removed_ats(removed@), *old(world), *final(world)),
{
    let ghost n = longest_len(f, t);
    let ghost k0 = children_keys@;
    let ghost w0 = *world;
    let ghost pr = |i: int| is_removed(f, t, i);
    let ghost ats = removed_ats(removed@);
    proof {
        lemma_positions(n, pr);
        assert forall|j: int| 0 <= j < f.len() && is_removed(f, t, j) implies bound_at(ats, 0, n)
            <= j by {
            assert(pr(j));
            crate::diff::lemma_positions_first(n, pr, j);
        }
    }
    let mut k: usize = 0;
    while k < removed.len()
        invariant
            keys_fit(f, t),
            n == longest_len(f, t),
            pr == (|i: int| is_removed(f, t, i)),
            ats == removed_ats(removed@),
            ats == crate::diff::positions_upto(n, pr),
            k <= removed.len(),
            children_keys@.len() == f.len(),
            forall|j: int| 0 <= j < f.len() ==> #[trigger] k0[j] is Some,
            forall|j: int|
                0 <= j < f.len() ==> #[trigger] children_keys@[j] == if is_removed(f, t, j) && j
                    < bound_at(ats, k as int, n) {
                    None
                } else {
                    k0[j]
                },
            removes_at::<R, K>(k0, ats.take(k as int), w0, *world),
        decreases removed.len() - k,
    {
        proof {
            lemma_positions(n, pr);
        }
        let at = removed[k].at;
        assert(at == ats[k as int]);
        assert(pr(at as int));
        let ghost mid = *world;
        let slot = take_slot(children_keys, at);
        if let Some(key) = slot {
            key.remove(world);
        }
        proof {
            assert(ats.take(k + 1).drop_last() == ats.take(k as int));
            assert(ats.take(k + 1).last() == at);
            assert(slot == k0[at as int]);
            assert(key_removed::<R, K>(k0[at as int], mid, *world));
            lemma_removes_at_step::<R, K>(k0, ats.take(k + 1), w0, mid, *world);
        }
        proof {
            assert forall|j: int| 0 <= j < f.len() implies #[trigger] children_keys@[j] == if is_removed(
                f,
                t,
                j,
            ) && j < bound_at(ats, k + 1, n) {
                None
            } else {
                k0[j]
            } by {
                if is_removed(f, t, j) && at <= j < bound_at(ats, k + 1, n) {
                    lemma_positions_step(n, pr, k as int, j);
                }
                if k + 1 < removed.len() {
                    assert(ats[k as int] < ats[k + 1]);
                }
            }
        }
        k = k + 1;
    }
    assert(ats.take(ats.len() as int) == ats);
}

fn take_moved_cmds<K>(
    cmds: &Vec<DiffOpMove>,
    children_keys: &mut Vec<Option<K>>,
    Ghost(f): Ghost<Seq<u64>>,
    Ghost(t): Ghost<Seq<u64>>,
    Ghost(old_keys): Ghost<Seq<Option<K>>>,
) -> (moved_children: Vec<Option<K>>)
    requires
        keys_fit(f, t),
        old_keys.len() == f.len(),
        old(children_keys)@.len() == f.len(),
        forall|j: int|
            0 <= j < f.len() ==> #[trigger] old(children_keys)@[j] == if is_removed(f, t, j) {
                None
            } else {
                old_keys[j]
            },
        routes_match(cmds@, moved_upto(f, t, longest_len(f, t))),
    ensures
        final(children_keys)@.len() == f.len(),
        forall|j: int|
            0 <= j < f.len() ==> #[trigger] final(children_keys)@[j] == base_slot(f, t, old_keys, j),
        moved_children@.len() == cmds@.len(),
        forall|a: int|
            0 <= a < cmds@.len() ==> #[trigger] moved_children@[a] == old_keys[cmds@[a].from as int],
{
    let ghost n = longest_len(f, t);
    let ghost pm = |i: int| is_moved(f, t, i);
    let ghost froms = moved_froms(f, t, n);
    let ghost mu = moved_upto(f, t, n);
    proof {
        lemma_positions(n, pm);
        lemma_moved_froms(f, t, n);
        assert forall|j: int| 0 <= j < f.len() && is_moved(f, t, j) implies bound_at(froms, 0, n)
            <= j by {
            assert(pm(j));
            crate::diff::lemma_positions_first(n, pm, j);
        }
    }
    let mut moved_children: Vec<Option<K>> = Vec::new();
    let mut i: usize = 0;
    while i < cmds.len()
        invariant
            keys_fit(f, t),
            n == longest_len(f, t),
            pm == (|i: int| is_moved(f, t, i)),
            froms == crate::diff::positions_upto(n, pm),
            mu == moved_upto(f, t, n),
            routes_match(cmds@, mu),
            mu.len() == froms.len(),
            forall|a: int| 0 <= a < mu.len() ==> #[trigger] mu[a].from == froms[a],
            i <= cmds.len(),
            old_keys.len() == f.len(),
            children_keys@.len() == f.len(),
            moved_children@.len() == i,
            forall|a: int|
                0 <= a < i ==> #[trigger] moved_children@[a] == old_keys[cmds@[a].from as int],
            forall|j: int|
                0 <= j < f.len() ==> #[trigger] children_keys@[j] == if is_removed(f, t, j) || (
                is_moved(f, t, j) && j < bound_at(froms, i as int, n)) {
                    None
                } else {
                    old_keys[j]
                },
        decreases cmds.len() - i,
    {
        proof {
            lemma_positions(n, pm);
        }
        let from = cmds[i].from;
        assert(from == mu[i as int].from);
        assert(from == froms[i as int]);
        assert(pm(from as int));
        let child = take_slot(children_keys, from);
        moved_children.push(child);
        proof {
            assert forall|j: int| 0 <= j < f.len() implies #[trigger] children_keys@[j] == if is_removed(
                f,
                t,
                j,
            ) || (is_moved(f, t, j) && j < bound_at(froms, i + 1, n)) {
                None
            } else {
                old_keys[j]
            } by {
                if is_moved(f, t, j) && from <= j < bound_at(froms, i + 1, n) {
                    lemma_positions_step(n, pm, i as int, j);
                }
                if i + 1 < cmds.len() {
                    assert(froms[i as int] < froms[i + 1]);
                }
            }
        }
        i = i + 1;
    }
    proof {
        assert forall|j: int| 0 <= j < f.len() implies #[trigger] children_keys@[j] == base_slot(
            f,
            t,
            old_keys,
            j,
        ) by {
            lemma_old_position_kinds(f, t, j);
        }
    }
    moved_children
}

} // verus!

verus! {

/// The moves in the form of this list, whose `move_in_dom` is the opposite
/// of `can_ignored`.
pub open spec fn data_moves(s: Seq<crate::diff::DiffOpMove>) -> Seq<DiffOpMove> {
    s.map_values(
        |m: crate::diff::DiffOpMove| DiffOpMove { from: m.from, len: m.len, to: m.to, move_in_dom: !m.can_ignored },
    )
}

/// The `len` slots of the list once the moves in storage and the first `i`
/// moves in the node tree are done.
pub open spec fn dom_slots<K>(
    f: Seq<u64>,
    t: Seq<u64>,
    cmds: Seq<DiffOpMove>,
    old_keys: Seq<Option<K>>,
    len: int,
    i: int,
) -> Seq<Option<K>> {
    Seq::new(
        len as nat,
        |p: int|
            if is_target(f, t, p) && 0 <= route_index(f, t, p) < i && cmds[route_index(f, t, p)].move_in_dom {
                old_keys[source_of(f, t, p)]
            } else {
                after_storage_moves(f, t, cmds, old_keys, p)
            },
    )
}

/// Whether `after` is `before` once, for each of the first `i` moves in turn
/// that changes the order of the items, the view of the moved key is put
/// under `parent` before the first node of the next view in the list (or
/// before the placeholder when no view after it has a node).
pub open spec fn dom_moves<R: Renderer, K: ViewKey<R>>(
    f: Seq<u64>,
    t: Seq<u64>,
    cmds: Seq<DiffOpMove>,
    old_keys: Seq<Option<K>>,
    len: int,
    parent: RendererNodeId<R>,
    placeholder: RendererNodeId<R>,
    i: int,
    before: RendererWorld<R>,
    after: RendererWorld<R>,
) -> bool
    decreases i,
{
    if i <= 0 {
        after == before
    } else if !cmds[i - 1].move_in_dom {
        dom_moves::<R, K>(f, t, cmds, old_keys, len, parent, placeholder, i - 1, before, after)
    } else {
        exists|mid: RendererWorld<R>|
            #![trigger placed_before::<R, K>(old_keys[cmds[i - 1].from as int]->0, parent, next_anchor::<R, K>(dom_slots(f, t, cmds, old_keys, len, i - 1), cmds[i - 1].to as int, mid, placeholder), mid, after)]
            {
                &&& dom_moves::<R, K>(f, t, cmds, old_keys, len, parent, placeholder, i - 1, before, mid)
                &&& placed_before::<R, K>(
                    old_keys[cmds[i - 1].from as int]->0,
                    parent,
                    next_anchor::<R, K>(
                        dom_slots(f, t, cmds, old_keys, len, i - 1),
                        cmds[i - 1].to as int,
                        mid,
                        placeholder,
                    ),
                    mid,
                    after,
                )
            }
    }
}

/// The slots `slots` once the first `k` additions have put the keys of
/// `built` at their positions.
pub open spec fn add_slots<K>(slots: Seq<Option<K>>, adds: Seq<DiffOpAdd>, built: Seq<K>, k: int) -> Seq<
    Option<K>,
>
    decreases k,
{
    if k <= 0 {
        slots
    } else {
        add_slots(slots, adds, built, k - 1).update(adds[k - 1].at as int, Some(built[k - 1]))
    }
}

/// The node the nodes of an addition go before: for a normal addition at
/// `at`, the first node of the first view at or after `at` in `slots` (else
/// the placeholder); for an appended one, none (the end of the parent).
pub open spec fn add_anchor<R: Renderer, K: ViewKey<R>>(
    mode: DiffOpAddMode,
    slots: Seq<Option<K>>,
    at: int,
    world: RendererWorld<R>,
    placeholder: RendererNodeId<R>,
) -> Option<RendererNodeId<R>> {
    match mode {
        DiffOpAddMode::Normal => next_anchor::<R, K>(slots, at, world, placeholder),
        DiffOpAddMode::Append => None,
    }
}

/// Whether `after` is `before` once the view that `view_fn` makes of `item`
/// is built (to be rebuilt) under a clone of `parent` as `key`, and its nodes
/// put under `parent` before the anchor of the addition `add` in `slots`.
pub open spec fn item_built_and_placed<T, IV: IntoView<R>, R: Renderer, VF: Fn(T) -> IV>(
    view_fn: VF,
    item: T,
    add: DiffOpAdd,
    slots: Seq<Option<<IV::View as XView<R>>::Key>>,
    placeholder: RendererNodeId<R>,
    key: <IV::View as XView<R>>::Key,
    parent: RendererNodeId<R>,
    before: RendererWorld<R>,
    after: RendererWorld<R>,
) -> bool {
    exists|iv: IV, p: RendererNodeId<R>, built: RendererWorld<R>, n: Option<RendererNodeId<R>>|
        #![trigger iv.view_of().builds(p, None, true, before, built, key), key.view_inserts_before(built, Some(parent), n, after)]
        {
            &&& view_fn.ensures((item,), iv)
            &&& cloned::<RendererNodeId<R>>(parent, p)
            &&& iv.view_of().builds(p, None, true, before, built, key)
            &&& same_node(
                add_anchor::<R, <IV::View as XView<R>>::Key>(add.mode, slots, add.at as int, built, placeholder),
                n,
            )
            &&& key.view_inserts_before(built, Some(parent), n, after)
        }
}

/// Whether `after` is `before` once, for each of the first `k` additions in
/// turn, the view of the item at its position is built as the matching key
/// of `built` and put in place among the slots, which start as `slots`.
pub open spec fn data_builds_upto<T, IV: IntoView<R>, R: Renderer, VF: Fn(T) -> IV>(
    view_fn: VF,
    items: Seq<Option<T>>,
    adds: Seq<DiffOpAdd>,
    built: Seq<<IV::View as XView<R>>::Key>,
    slots: Seq<Option<<IV::View as XView<R>>::Key>>,
    parent: RendererNodeId<R>,
    placeholder: RendererNodeId<R>,
    k: int,
    before: RendererWorld<R>,
    after: RendererWorld<R>,
) -> bool
    decreases k,
{
    if k <= 0 {
        after == before
    } else {
        exists|mid: RendererWorld<R>|
            #![trigger item_built_and_placed::<T, IV, R, VF>(view_fn, items[adds[k - 1].at as int]->0, adds[k - 1], add_slots(slots, adds, built, k - 1), placeholder, built[k - 1], parent, mid, after)]
            {
                &&& data_builds_upto::<T, IV, R, VF>(
                    view_fn,
                    items,
                    adds,
                    built,
                    slots,
                    parent,
                    placeholder,
                    k - 1,
                    before,
                    mid,
                )
                &&& item_built_and_placed::<T, IV, R, VF>(
                    view_fn,
                    items[adds[k - 1].at as int]->0,
                    adds[k - 1],
                    add_slots(slots, adds, built, k - 1),
                    placeholder,
                    built[k - 1],
                    parent,
                    mid,
                    after,
                )
            }
    }
}

/// Whether `after` is `before` once the additions are built in turn into the
/// slots `slots`, the keys they get standing at their positions of `keys`.
pub open spec fn data_builds_into<T, IV: IntoView<R>, R: Renderer, VF: Fn(T) -> IV>(
    view_fn: VF,
    items: Seq<Option<T>>,
    adds: Seq<DiffOpAdd>,
    slots: Seq<Option<<IV::View as XView<R>>::Key>>,
    keys: Seq<Option<<IV::View as XView<R>>::Key>>,
    parent: RendererNodeId<R>,
    placeholder: RendererNodeId<R>,
    before: RendererWorld<R>,
    after: RendererWorld<R>,
) -> bool {
    exists|built: Seq<<IV::View as XView<R>>::Key>|
        #![trigger data_builds_upto::<T, IV, R, VF>(view_fn, items, adds, built, slots, parent, placeholder, adds.len() as int, before, after)]
        {
            &&& built.len() == adds.len()
            &&& forall|a: int| 0 <= a < adds.len() ==> #[trigger] keys[adds[a].at as int] == Some(built[a])
            &&& data_builds_upto::<T, IV, R, VF>(
                view_fn,
                items,
                adds,
                built,
                slots,
                parent,
                placeholder,
                adds.len() as int,
                before,
                after,
            )
        }
}

proof fn lemma_add_slots_prefix<K>(slots: Seq<Option<K>>, adds: Seq<DiffOpAdd>, built: Seq<K>, x: K, k: int)
    requires
        0 <= k <= built.len(),
    ensures
        add_slots(slots, adds, built.push(x), k) == add_slots(slots, adds, built, k),
    decreases k,
{
    if k > 0 {
        lemma_add_slots_prefix(slots, adds, built, x, k - 1);
        assert(built.push(x)[k - 1] == built[k - 1]);
    }
}

proof fn lemma_builds_upto_prefix<T, IV: IntoView<R>, R: Renderer, VF: Fn(T) -> IV>(
    view_fn: VF,
    items: Seq<Option<T>>,
    adds: Seq<DiffOpAdd>,
    built: Seq<<IV::View as XView<R>>::Key>,
    x: <IV::View as XView<R>>::Key,
    slots: Seq<Option<<IV::View as XView<R>>::Key>>,
    parent: RendererNodeId<R>,
    placeholder: RendererNodeId<R>,
    k: int,
    before: RendererWorld<R>,
    after: RendererWorld<R>,
)
    requires
        0 <= k <= built.len(),
        data_builds_upto::<T, IV, R, VF>(view_fn, items, adds, built, slots, parent, placeholder, k, before, after),
    ensures
        data_builds_upto::<T, IV, R, VF>(view_fn, items, adds, built.push(x), slots, parent, placeholder, k, before, after),
    decreases k,
{
    if k > 0 {
        assert(exists|mid: RendererWorld<R>|
            #![trigger item_built_and_placed::<T, IV, R, VF>(view_fn, items[adds[k - 1].at as int]->0, adds[k - 1], add_slots(slots, adds, built, k - 1), placeholder, built[k - 1], parent, mid, after)]
            {
                &&& data_builds_upto::<T, IV, R, VF>(view_fn, items, adds, built, slots, parent, placeholder, k - 1, before, mid)
                &&& item_built_and_placed::<T, IV, R, VF>(
                    view_fn,
                    items[adds[k - 1].at as int]->0,
                    adds[k - 1],
                    add_slots(slots, adds, built, k - 1),
                    placeholder,
                    built[k - 1],
                    parent,
                    mid,
                    after,
                )
            });
        let mid = choose|mid: RendererWorld<R>|
            #![trigger item_built_and_placed::<T, IV, R, VF>(view_fn, items[adds[k - 1].at as int]->0, adds[k - 1], add_slots(slots, adds, built, k - 1), placeholder, built[k - 1], parent, mid, after)]
            {
                &&& data_builds_upto::<T, IV, R, VF>(view_fn, items, adds, built, slots, parent, placeholder, k - 1, before, mid)
                &&& item_built_and_placed::<T, IV, R, VF>(
                    view_fn,
                    items[adds[k - 1].at as int]->0,
                    adds[k - 1],
                    add_slots(slots, adds, built, k - 1),
                    placeholder,
                    built[k - 1],
                    parent,
                    mid,
                    after,
                )
            };
        lemma_builds_upto_prefix::<T, IV, R, VF>(view_fn, items, adds, built, x, slots, parent, placeholder, k - 1, before, mid);
        lemma_add_slots_prefix(slots, adds, built, x, k - 1);
        assert(built.push(x)[k - 1] == built[k - 1]);
    }
}

/// The slots once every move is done: `len` of them, each holding what
/// `after_moves` puts there.
pub open spec fn moved_slots<K>(f: Seq<u64>, t: Seq<u64>, old_keys: Seq<Option<K>>, len: int) -> Seq<Option<K>> {
    Seq::new(len as nat, |p: int| after_moves(f, t, old_keys, p))
}

/// What applying a diff of the data keys does to the node tree: every old
/// view removed, in order, when the list is cleared; otherwise the removed
/// views removed, the views whose order changes moved, and the added items'
/// views built and put in place, their keys standing at their positions of
/// `result`.
pub open spec fn data_diff_applied<T, IV: IntoView<R>, R: Renderer, VF: Fn(T) -> IV>(
    f: Seq<u64>,
    t: Seq<u64>,
    diff: Diff,
    view_fn: VF,
    items: Seq<Option<T>>,
    old_keys: Seq<Option<<IV::View as XView<R>>::Key>>,
    parent: RendererNodeId<R>,
    placeholder: RendererNodeId<R>,
    before: RendererWorld<R>,
    after: RendererWorld<R>,
    result: Seq<Option<<IV::View as XView<R>>::Key>>,
) -> bool {
    let cmds = data_moves(data_unpacked(diff).moves);
    if diff.clear {
        removes_in_order::<R, Option<<IV::View as XView<R>>::Key>>(old_keys, before, after)
    } else {
        exists|removed_w: RendererWorld<R>, moved_w: RendererWorld<R>|
            #![trigger removes_at::<R, <IV::View as XView<R>>::Key>(old_keys, removed_ats(diff.removed@), before, removed_w), dom_moves::<R, <IV::View as XView<R>>::Key>(f, t, cmds, old_keys, (f.len() + diff.added@.len()) as int, parent, placeholder, cmds.len() as int, removed_w, moved_w)]
            {
                &&& removes_at::<R, <IV::View as XView<R>>::Key>(
                    old_keys,
                    removed_ats(diff.removed@),
                    before,
                    removed_w,
                )
                &&& dom_moves::<R, <IV::View as XView<R>>::Key>(
                    f,
                    t,
                    cmds,
                    old_keys,
                    (f.len() + diff.added@.len()) as int,
                    parent,
                    placeholder,
                    cmds.len() as int,
                    removed_w,
                    moved_w,
                )
                &&& data_builds_into::<T, IV, R, VF>(
                    view_fn,
                    items,
                    diff.added@,
                    moved_slots(f, t, old_keys, (f.len() + diff.added@.len()) as int),
                    result,
                    parent,
                    placeholder,
                    moved_w,
                    after,
                )
            }
    }
}

/// The key that new position `p` holds once the moves in storage are done.
pub open spec fn after_storage_moves<K>(
    f: Seq<u64>,
    t: Seq<u64>,
    cmds: Seq<DiffOpMove>,
    old_keys: Seq<Option<K>>,
    p: int,
) -> Option<K> {
    if is_target(f, t, p) && !cmds[route_index(f, t, p)].move_in_dom {
        old_keys[source_of(f, t, p)]
    } else {
        base_slot(f, t, old_keys, p)
    }
}

/// The key that new position `p` holds once every move is done.
pub open spec fn after_moves<K>(f: Seq<u64>, t: Seq<u64>, old_keys: Seq<Option<K>>, p: int) -> Option<K> {
    if is_target(f, t, p) {
        old_keys[source_of(f, t, p)]
    } else {
        base_slot(f, t, old_keys, p)
    }
}

fn place_in_storage<K>(
    cmds: &Vec<DiffOpMove>,
    moved_children: &mut Vec<Option<K>>,
    children_keys: &mut Vec<Option<K>>,
    Ghost(f): Ghost<Seq<u64>>,
    Ghost(t): Ghost<Seq<u64>>,
    Ghost(old_keys): Ghost<Seq<Option<K>>>,
)
    requires
        keys_fit(f, t),
        old_keys.len() == f.len(),
        t.len() <= old(children_keys)@.len(),
        forall|p: int|
            0 <= p < old(children_keys)@.len() ==> #[trigger] old(children_keys)@[p] == base_slot(
                f,
                t,
                old_keys,
                p,
            ),
        routes_match(cmds@, moved_upto(f, t, longest_len(f, t))),
        old(moved_children)@.len() == cmds@.len(),
        forall|a: int|
            0 <= a < cmds@.len() ==> #[trigger] old(moved_children)@[a] == old_keys[cmds@[a].from as int],
    ensures
        final(children_keys)@.len() == old(children_keys)@.len(),
        forall|p: int|
            0 <= p < final(children_keys)@.len() ==> #[trigger] final(children_keys)@[p]
                == after_storage_moves(f, t, cmds@, old_keys, p),
        final(moved_children)@.len() == cmds@.len(),
        forall|a: int|
            0 <= a < cmds@.len() ==> #[trigger] final(moved_children)@[a] == if cmds@[a].move_in_dom {
                old_keys[cmds@[a].from as int]
            } else {
                None
            },
{
    let ghost mu = moved_upto(f, t, longest_len(f, t));
    let ghost len = children_keys@.len();
    let ghost c0 = children_keys@;
    let mut i: usize = 0;
    while i < cmds.len()
        invariant
            keys_fit(f, t),
            old_keys.len() == f.len(),
            mu == moved_upto(f, t, longest_len(f, t)),
            routes_match(cmds@, mu),
            t.len() <= len,
            children_keys@.len() == len,
            i <= cmds.len(),
            moved_children@.len() == cmds@.len(),
            forall|a: int|
                0 <= a < cmds@.len() ==> #[trigger] moved_children@[a] == if a < i
                    && !cmds@[a].move_in_dom {
                    None
                } else {
                    old_keys[cmds@[a].from as int]
                },
            forall|p: int|
                0 <= p < len ==> #[trigger] children_keys@[p] == if is_target(f, t, p) && 0 <= route_index(
                    f,
                    t,
                    p,
                ) < i && !cmds@[route_index(f, t, p)].move_in_dom {
                    old_keys[source_of(f, t, p)]
                } else {
                    base_slot(f, t, old_keys, p)
                },
        decreases cmds.len() - i,
    {
        if !cmds[i].move_in_dom {
            let to = cmds[i].to;
            proof {
                lemma_index_route(f, t, i as int);
                lemma_target_source(f, t, to as int);
            }
            let ghost ck = children_keys@;
            let child = take_slot(moved_children, i);
            children_keys.set(to, child);
            proof {
                assert forall|p: int| 0 <= p < len implies #[trigger] children_keys@[p] == if is_target(
                    f,
                    t,
                    p,
                ) && 0 <= route_index(f, t, p) < i + 1 && !cmds@[route_index(f, t, p)].move_in_dom {
                    old_keys[source_of(f, t, p)]
                } else {
                    base_slot(f, t, old_keys, p)
                } by {
                    if is_target(f, t, p) {
                        lemma_route_index(f, t, p);
                        if route_index(f, t, p) == i {
                            assert(p == to);
                        }
                    }
                    if p == to {
                        assert(route_index(f, t, p) == i);
                    } else {
                        assert(children_keys@[p] == ck[p]);
                    }
                }
            }
        } else {
            proof {
                assert forall|p: int| 0 <= p < len implies #[trigger] children_keys@[p] == if is_target(
                    f,
                    t,
                    p,
                ) && 0 <= route_index(f, t, p) < i + 1 && !cmds@[route_index(f, t, p)].move_in_dom {
                    old_keys[source_of(f, t, p)]
                } else {
                    base_slot(f, t, old_keys, p)
                } by {}
            }
        }
        i = i + 1;
    }
    proof {
        assert forall|p: int| 0 <= p < len implies #[trigger] children_keys@[p] == after_storage_moves(
            f,
            t,
            cmds@,
            old_keys,
            p,
        ) by {
            if is_target(f, t, p) {
                lemma_route_index(f, t, p);
            }
        }
    }
}

} // verus!

verus! {

fn place_in_dom<R: Renderer, K: ViewKey<R>>(
    world: &mut RendererWorld<R>,
    parent: &RendererNodeId<R>,
    placeholder_id: &RendererNodeId<R>,
    cmds: &Vec<DiffOpMove>,
    moved_children: &mut Vec<Option<K>>,
    children_keys: &mut Vec<Option<K>>,
    Ghost(f): Ghost<Seq<u64>>,
    Ghost(t): Ghost<Seq<u64>>,
    Ghost(old_keys): Ghost<Seq<Option<K>>>,
)
    requires
        keys_fit(f, t),
        old_keys.len() == f.len(),
        forall|j: int| 0 <= j < f.len() ==> #[trigger] old_keys[j] is Some,
        t.len() <= old(children_keys)@.len(),
        forall|p: int|
            0 <= p < old(children_keys)@.len() ==> #[trigger] old(children_keys)@[p]
                == after_storage_moves(f, t, cmds@, old_keys, p),
        routes_match(cmds@, moved_upto(f, t, longest_len(f, t))),
        old(moved_children)@.len() == cmds@.len(),
        forall|a: int|
            0 <= a < cmds@.len() && cmds@[a].move_in_dom ==> #[trigger] old(moved_children)@[a]
                == old_keys[cmds@[a].from as int],
    ensures
        final(children_keys)@.len() == old(children_keys)@.len(),
        forall|p: int|
            0 <= p < final(children_keys)@.len() ==> #[trigger] final(children_keys)@[p] == after_moves(
                f,
                t,
                old_keys,
                p,
            ),
        dom_moves::<R, K>(
            f,
            t,
            cmds@,
            old_keys,
            old(children_keys)@.len() as int,
            *parent,
            *placeholder_id,
            cmds@.len() as int,
            *old(world),
            *final(world),
        ),
{
    let ghost mu = moved_upto(f, t, longest_len(f, t));
    let ghost len = children_keys@.len();
    let ghost w0 = *world;
    let mut i: usize = 0;
    while i < cmds.len()
        invariant
            keys_fit(f, t),
            old_keys.len() == f.len(),
            forall|j: int| 0 <= j < f.len() ==> #[trigger] old_keys[j] is Some,
            mu == moved_upto(f, t, longest_len(f, t)),
            routes_match(cmds@, mu),
            t.len() <= len,
            children_keys@.len() == len,
            i <= cmds.len(),
            moved_children@.len() == cmds@.len(),
            forall|a: int|
                i <= a < cmds@.len() && cmds@[a].move_in_dom ==> #[trigger] moved_children@[a]
                    == old_keys[cmds@[a].from as int],
            forall|p: int|
                0 <= p < len ==> #[trigger] children_keys@[p] == if is_target(f, t, p) && 0
                    <= route_index(f, t, p) < i && cmds@[route_index(f, t, p)].move_in_dom {
                    old_keys[source_of(f, t, p)]
                } else {
                    after_storage_moves(f, t, cmds@, old_keys, p)
                },
            dom_moves::<R, K>(f, t, cmds@, old_keys, len as int, *parent, *placeholder_id, i as int, w0, *world),
        decreases cmds.len() - i,
    {
        let ghost mid = *world;
        proof {
            lemma_index_route(f, t, i as int);
            assert(children_keys@ =~= dom_slots(f, t, cmds@, old_keys, len as int, i as int));
        }
        if cmds[i].move_in_dom {
            let to = cmds[i].to;
            proof {
                lemma_index_route(f, t, i as int);
                lemma_target_source(f, t, to as int);
            }
            let ghost ck = children_keys@;
            let child = take_slot(moved_children, i);
            if let Some(moved_key) = child {
                let before_node_id = get_next_some_node_id::<R, K>(
                    world,
                    children_keys,
                    to,
                    placeholder_id,
                );
                moved_key.insert_before(world, Some(parent), before_node_id.as_ref());
                proof {
                    assert(moved_key.view_inserts_before(mid, Some(*parent), Some(before_node_id->0), *world));
                    assert(placed_before::<R, K>(
                        moved_key,
                        *parent,
                        next_anchor::<R, K>(ck, to as int, mid, *placeholder_id),
                        mid,
                        *world,
                    ));
                }
                children_keys.set(to, Some(moved_key));
            }
            proof {
                assert(child == old_keys[cmds@[i as int].from as int]);
                assert(child is Some);
                assert(ck == dom_slots(f, t, cmds@, old_keys, len as int, i as int));
                assert(dom_moves::<R, K>(f, t, cmds@, old_keys, len as int, *parent, *placeholder_id, i + 1, w0, *world));
            }
            proof {
                assert forall|p: int| 0 <= p < len implies #[trigger] children_keys@[p] == if is_target(
                    f,
                    t,
                    p,
                ) && 0 <= route_index(f, t, p) < i + 1 && cmds@[route_index(f, t, p)].move_in_dom {
                    old_keys[source_of(f, t, p)]
                } else {
                    after_storage_moves(f, t, cmds@, old_keys, p)
                } by {
                    if is_target(f, t, p) {
                        lemma_route_index(f, t, p);
                        if route_index(f, t, p) == i {
                            assert(p == to);
                        }
                    }
                    if p == to {
                        assert(route_index(f, t, p) == i);
                    } else {
                        assert(children_keys@[p] == ck[p]);
                    }
                }
            }
        }
        if !cmds[i].move_in_dom {
            proof {
                assert(dom_moves::<R, K>(f, t, cmds@, old_keys, len as int, *parent, *placeholder_id, i + 1, w0, *world));
            }
        }
        i = i + 1;
    }
    proof {
        assert forall|p: int| 0 <= p < len implies #[trigger] children_keys@[p] == after_moves(
            f,
            t,
            old_keys,
            p,
        ) by {
            if is_target(f, t, p) {
                lemma_route_index(f, t, p);
            }
        }
    }
}

} // verus!

verus! {

fn build_adds<T, IV: IntoView<R>, R: Renderer, VF: Fn(T) -> IV>(
    world: &mut RendererWorld<R>,
    parent: &RendererNodeId<R>,
    placeholder_id: &RendererNodeId<R>,
    adds: &Vec<DiffOpAdd>,
    children_keys: &mut Vec<Option<<IV::View as XView<R>>::Key>>,
    view_fn: &VF,
    items: &mut Vec<Option<T>>,
    Ghost(f): Ghost<Seq<u64>>,
    Ghost(t): Ghost<Seq<u64>>,
)
    requires
        keys_fit(f, t),
        t.len() <= old(children_keys)@.len(),
        added_ats(adds@) == added_upto(f, t, longest_len(f, t)),
        old(items)@.len() == t.len(),
        forall|p: int| 0 <= p < t.len() && is_added(f, t, p) ==> #[trigger] old(items)@[p] is Some,
        forall|x: T| #[trigger] view_fn.requires((x,)),
    ensures
        final(children_keys)@.len() == old(children_keys)@.len(),
        forall|p: int|
            #![trigger final(children_keys)@[p]]
            0 <= p < final(children_keys)@.len() ==> if is_added(f, t, p) {
                final(children_keys)@[p] is Some
            } else {
                final(children_keys)@[p] == old(children_keys)@[p]
            },
        data_builds_into::<T, IV, R, VF>(
            *view_fn,
            old(items)@,
            adds@,
            old(children_keys)@,
            final(children_keys)@,
            *parent,
            *placeholder_id,
            *old(world),
            *final(world),
        ),
{
    let ghost n = longest_len(f, t);
    let ghost pa = |i: int| is_added(f, t, i);
    let ghost k0 = children_keys@;
    let ghost i0 = items@;
    let ghost w0 = *world;
    let ghost mut built: Seq<<IV::View as XView<R>>::Key> = Seq::empty();
    let ghost ats = added_ats(adds@);
    proof {
        lemma_positions(n, pa);
        assert forall|p: int| 0 <= p < t.len() && is_added(f, t, p) implies bound_at(ats, 0, n) <= p by {
            assert(pa(p));
            crate::diff::lemma_positions_first(n, pa, p);
        }
    }
    let mut k: usize = 0;
    while k < adds.len()
        invariant
            keys_fit(f, t),
            n == longest_len(f, t),
            pa == (|i: int| is_added(f, t, i)),
            ats == added_ats(adds@),
            ats == crate::diff::positions_upto(n, pa),
            forall|x: T| #[trigger] view_fn.requires((x,)),
            k <= adds.len(),
            children_keys@.len() == k0.len(),
            t.len() <= k0.len(),
            forall|p: int|
                #![trigger children_keys@[p]]
                0 <= p < k0.len() ==> if is_added(f, t, p) && p < bound_at(ats, k as int, n) {
                    children_keys@[p] is Some
                } else {
                    children_keys@[p] == k0[p]
                },
            items@.len() == t.len(),
            i0.len() == t.len(),
            forall|p: int| 0 <= p < t.len() && is_added(f, t, p) ==> #[trigger] i0[p] is Some,
            forall|p: int|
                0 <= p < t.len() && is_added(f, t, p) && p >= bound_at(ats, k as int, n)
                    ==> #[trigger] items@[p] == i0[p],
            built.len() == k,
            forall|a: int| 0 <= a < k ==> #[trigger] children_keys@[adds@[a].at as int] == Some(built[a]),
            children_keys@ == add_slots(k0, adds@, built, k as int),
            data_builds_upto::<T, IV, R, VF>(*view_fn, i0, adds@, built, k0, *parent, *placeholder_id, k as int, w0, *world),
        decreases adds.len() - k,
    {
        proof {
            lemma_positions(n, pa);
        }
        let add = adds[k];
        let at = add.at;
        assert(at == ats[k as int]);
        assert(pa(at as int));
        let ghost ck_before = children_keys@;
        let ghost mid = *world;
        proof {
            assert(adds@[k as int].at == at);
            assert(at < t.len());
            assert(items@[at as int] == i0[at as int]);
        }
        if let Some(item) = take_slot(items, at) {
            let iv = view_fn(item);
            let ghost made = iv;
            let view = iv.into_view();
            let p = parent.clone();
            let key = view.build(ViewCtx { world: &mut *world, parent: p }, None, true);
            let ghost bw = *world;
            let before_node_id = match add.mode {
                DiffOpAddMode::Normal => get_next_some_node_id::<R, <IV::View as XView<R>>::Key>(
                    world,
                    children_keys,
                    at,
                    placeholder_id,
                ),
                DiffOpAddMode::Append => None,
            };
            key.insert_before(world, Some(parent), before_node_id.as_ref());
            proof {
                let slots = add_slots(k0, adds@, built, k as int);
                assert(made.view_of().builds(p, None, true, mid, bw, key));
                assert(key.view_inserts_before(bw, Some(*parent), before_node_id, *world));
                assert(same_node(
                    add_anchor::<R, <IV::View as XView<R>>::Key>(add.mode, slots, at as int, bw, *placeholder_id),
                    before_node_id,
                ));
                assert(item_built_and_placed::<T, IV, R, VF>(
                    *view_fn,
                    i0[at as int]->0,
                    add,
                    slots,
                    *placeholder_id,
                    key,
                    *parent,
                    mid,
                    *world,
                ));
                lemma_builds_upto_prefix::<T, IV, R, VF>(*view_fn, i0, adds@, built, key, k0, *parent, *placeholder_id, k as int, w0, mid);
                lemma_add_slots_prefix(k0, adds@, built, key, k as int);
                built = built.push(key);
                assert(built[k as int] == key);
                assert(data_builds_upto::<T, IV, R, VF>(*view_fn, i0, adds@, built, k0, *parent, *placeholder_id, k + 1, w0, *world));
            }
            children_keys.set(at, Some(key));
            proof {
                assert(children_keys@ == add_slots(k0, adds@, built, k + 1));
            }
        }
        proof {
            assert forall|a: int| 0 <= a < k + 1 implies #[trigger] children_keys@[adds@[a].at as int] == Some(built[a]) by {
                if a < k {
                    assert(ats[a] < ats[k as int]);
                    assert(adds@[a].at == ats[a]);
                }
            }
            assert forall|p: int|
                #![trigger children_keys@[p]]
                0 <= p < k0.len() implies if is_added(f, t, p) && p < bound_at(ats, k + 1, n) {
                children_keys@[p] is Some
            } else {
                children_keys@[p] == k0[p]
            } by {
                if is_added(f, t, p) && at <= p < bound_at(ats, k + 1, n) {
                    assert(pa(p));
                    lemma_positions_step(n, pa, k as int, p);
                }
                if k + 1 < adds.len() {
                    assert(ats[k as int] < ats[k + 1]);
                }
                assert(at < n);
                if p != at {
                    assert(children_keys@[p] == ck_before[p]);
                }
            }
            assert forall|p: int|
                0 <= p < t.len() && is_added(f, t, p) && p >= bound_at(ats, k + 1, n)
                    implies #[trigger] items@[p] == i0[p] by {
                if k + 1 < adds.len() {
                    assert(ats[k as int] < ats[k + 1]);
                }
            }
        }
        k = k + 1;
    }
}

} // verus!

verus! {

/// Brings the built keys of the list from the old keys `f` to the new keys
/// `t`: removed items are removed, moved ones are carried to their new place
/// (and moved in the node tree when their order changes), and added ones are
/// built from their items and inserted. The result holds one key per new
/// item, in the order of the new items, and every item that stays keeps its
/// key.
fn apply_diff<T, IV: IntoView<R>, R: Renderer, VF: Fn(T) -> IV>(
    ctx: ViewCtx<R>,
    placeholder_id: &RendererNodeId<R>,
    diff: Diff,
    children_keys: Vec<Option<<IV::View as XView<R>>::Key>>,
    view_fn: &VF,
    items: Vec<Option<T>>,
    Ghost(f): Ghost<Seq<u64>>,
    Ghost(t): Ghost<Seq<u64>>,
) -> (r: Vec<Option<<IV::View as XView<R>>::Key>>)
    requires
        keys_fit(f, t),
        children_keys@.len() == f.len(),
        forall|j: int| 0 <= j < f.len() ==> #[trigger] children_keys@[j] is Some,
        items@.len() == t.len(),
        forall|p: int| 0 <= p < t.len() ==> #[trigger] items@[p] is Some,
        is_data_diff_of(f, t, diff),
        forall|x: T| #[trigger] view_fn.requires((x,)),
    ensures
        r@.len() == t.len(),
        forall|p: int| 0 <= p < t.len() ==> #[trigger] r@[p] is Some,
        forall|p: int|
            0 <= p < t.len() && is_unchanged(f, t, p) ==> #[trigger] r@[p] == children_keys@[p],
        forall|p: int| is_target(f, t, p) ==> #[trigger] r@[p] == children_keys@[source_of(f, t, p)],
        data_diff_applied::<T, IV, R, VF>(
            f,
            t,
            diff,
            *view_fn,
            items@,
            children_keys@,
            ctx.parent,
            *placeholder_id,
            *old(ctx.world),
            *final(ctx.world),
            r@,
        ),
{
    let ghost old_keys = children_keys@;
    let ghost i0 = items@;
    let ghost n = longest_len(f, t);
    let mut children_keys = children_keys;
    let mut items = items;
    let world = ctx.world;
    let parent = ctx.parent;
    let ghost w0 = *world;
    if diff.clear {
        let mut j: usize = 0;
        while j < children_keys.len()
            invariant
                children_keys@.len() == old_keys.len(),
                j <= old_keys.len(),
                forall|p: int| j <= p < old_keys.len() ==> #[trigger] children_keys@[p] == old_keys[p],
                removes_in_order::<R, Option<<IV::View as XView<R>>::Key>>(old_keys.take(j as int), w0, *world),
            decreases children_keys.len() - j,
        {
            let ghost mid = *world;
            let slot = take_slot(&mut children_keys, j);
            if let Some(key) = slot {
                key.remove(world);
            }
            proof {
                assert(old_keys.take(j + 1).drop_last() == old_keys.take(j as int));
                assert(old_keys.take(j + 1).last() == slot);
                lemma_removes_step::<R, Option<<IV::View as XView<R>>::Key>>(old_keys.take(j + 1), w0, mid, *world);
            }
            j = j + 1;
        }
        assert(old_keys.take(old_keys.len() as int) == old_keys);
        children_keys = Vec::new();
        if diff.added.len() == 0 {
            return children_keys;
        }
    }
    proof {
        if t.len() > 0 {
            unpacked_moves_follow_items(f, t, diff);
        } else {
            assert(removed_ats(diff.removed@) =~= removed_upto(f, t, n));
            assert(added_ats(diff.added@) =~= added_upto(f, t, n));
            assert(plain_moves(diff.moved@) =~= Seq::<crate::diff::DiffOpMove>::empty());
            assert(diff.added@.take(0) =~= diff.added@);
        }
    }
    remove_removed_ops::<R, <IV::View as XView<R>>::Key>(
        world,
        &diff.removed,
        &mut children_keys,
        Ghost(f),
        Ghost(t),
    );
    let ghost removed_w = *world;
    let (move_cmds, add_cmds) = unpack_moves(&diff);
    proof {
        let mu = moved_upto(f, t, n);
        let s = data_unpacked(diff);
        assert(plain_moves(move_cmds@) == s.moves);
        if t.len() == 0 {
            assert(mu =~= Seq::<crate::diff::DiffOpMove>::empty()) by {
                crate::diff::lemma_from_empty(f, t, 0);
            }
        }
        assert forall|a: int| 0 <= a < move_cmds@.len() implies #[trigger] move_cmds@[a].from
            == mu[a].from && move_cmds@[a].to == mu[a].to by {
            assert(s.moves[a] == plain_move(move_cmds@[a]));
        }
        assert(routes_match(move_cmds@, mu));
        assert(add_cmds@ =~= diff.added@);
    }
    let mut moved_children = take_moved_cmds(
        &move_cmds,
        &mut children_keys,
        Ghost(f),
        Ghost(t),
        Ghost(old_keys),
    );
    proof {
        lemma_new_len_bound(f, t);
        lemma_upto_len(f, t, n);
    }
    let target_len = children_keys.len() + diff.added.len();
    while children_keys.len() < target_len
        invariant
            f.len() <= children_keys@.len() <= target_len,
            forall|p: int|
                0 <= p < children_keys@.len() ==> #[trigger] children_keys@[p] == base_slot(
                    f,
                    t,
                    old_keys,
                    p,
                ),
        decreases target_len - children_keys.len(),
    {
        children_keys.push(None);
    }
    let ghost len_at = children_keys@.len();
    place_in_storage(
        &move_cmds,
        &mut moved_children,
        &mut children_keys,
        Ghost(f),
        Ghost(t),
        Ghost(old_keys),
    );
    place_in_dom::<R, <IV::View as XView<R>>::Key>(
        world,
        &parent,
        placeholder_id,
        &move_cmds,
        &mut moved_children,
        &mut children_keys,
        Ghost(f),
        Ghost(t),
        Ghost(old_keys),
    );
    let ghost placed = children_keys@;
    let ghost moved_w = *world;
    build_adds::<T, IV, R, VF>(
        world,
        &parent,
        placeholder_id,
        &add_cmds,
        &mut children_keys,
        view_fn,
        &mut items,
        Ghost(f),
        Ghost(t),
    );
    proof {
        assert forall|p: int| 0 <= p < t.len() implies #[trigger] children_keys@[p] is Some by {
            lemma_new_position_kinds(f, t, p);
            if is_target(f, t, p) {
                lemma_target_source(f, t, p);
            }
        }
        assert forall|p: int|
            t.len() <= p < children_keys@.len() implies #[trigger] children_keys@[p] is None by {
            assert(!is_added(f, t, p));
            assert(!is_target(f, t, p));
            assert(!is_unchanged(f, t, p));
        }
        assert forall|p: int|
            0 <= p < t.len() && is_unchanged(f, t, p) implies #[trigger] children_keys@[p]
                == old_keys[p] by {
            lemma_new_position_kinds(f, t, p);
        }
        assert forall|p: int| is_target(f, t, p) implies #[trigger] children_keys@[p]
            == old_keys[source_of(f, t, p)] by {
            lemma_new_position_kinds(f, t, p);
        }
    }
    let r = drain_none(children_keys, Ghost(t.len()));
    proof {
        let s = data_unpacked(diff);
        assert(plain_moves(move_cmds@) == s.moves);
        assert(data_moves(s.moves) =~= move_cmds@);
        assert(len_at == f.len() + diff.added@.len());
        assert(placed =~= moved_slots(f, t, old_keys, (f.len() + diff.added@.len()) as int));
        let built = choose|built: Seq<<IV::View as XView<R>>::Key>| {
            &&& built.len() == add_cmds@.len()
            &&& forall|a: int| 0 <= a < add_cmds@.len() ==> #[trigger] children_keys@[add_cmds@[a].at as int] == Some(built[a])
            &&& data_builds_upto::<T, IV, R, VF>(*view_fn, i0, add_cmds@, built, placed, parent, *placeholder_id, add_cmds@.len() as int, moved_w, *world)
        };
        assert forall|a: int| 0 <= a < diff.added@.len() implies #[trigger] r@[diff.added@[a].at as int] == Some(built[a]) by {
            let at = diff.added@[a].at as int;
            let pa = |i: int| is_added(f, t, i);
            lemma_positions(n, pa);
            assert(added_ats(diff.added@)[a] == at);
            assert(pa(at));
            assert(children_keys@[at] is Some);
        }
        assert(data_builds_upto::<T, IV, R, VF>(*view_fn, i0, diff.added@, built, placed, parent, *placeholder_id, diff.added@.len() as int, moved_w, *world));
        assert(data_builds_into::<T, IV, R, VF>(*view_fn, i0, diff.added@, placed, r@, parent, *placeholder_id, moved_w, *world));
    }
    r
}

} // verus!

verus! {

/// A list of items, each identified across rebuilds by the key that `key_fn`
/// gives it and shown by the view that `view_fn` makes of it.
#[verifier::reject_recursive_types(T)]
#[verifier::reject_recursive_types(IV)]
pub struct Keyed<T, KF: Fn(&T) -> u64, VF: Fn(T) -> IV, IV, R> {
    items: Vec<T>,
    key_fn: KF,
    view_fn: VF,
    _marker: PhantomData<(IV, R)>,
}

/// The keys of the items, as last built, stored on the list's placeholder.
pub struct KeyedState {
    pub data_keys: FxIndexSet<u64>,
}

impl<T, KF: Fn(&T) -> u64, VF: Fn(T) -> IV, IV, R> Keyed<T, KF, VF, IV, R> {
    /// Both functions can be called on every item.
    #[verifier::type_invariant]
    spec fn callable(self) -> bool {
        &&& forall|x: &T| #[trigger] self.key_fn.requires((x,))
        &&& forall|x: T| #[trigger] self.view_fn.requires((x,))
    }

    pub closed spec fn items_spec(self) -> Seq<T> {
        self.items@
    }

    pub closed spec fn key_fn_spec(self) -> KF {
        self.key_fn
    }

    pub closed spec fn view_fn_spec(self) -> VF {
        self.view_fn
    }
}

pub fn for_keyed<T, KF: Fn(&T) -> u64, VF: Fn(T) -> IV, IV: IntoView<R>, R: Renderer>(
    items: Vec<T>,
    key_fn: KF,
    view_fn: VF,
) -> (r: Keyed<T, KF, VF, IV, R>)
    requires
        forall|x: &T| #[trigger] key_fn.requires((x,)),
        forall|x: T| #[trigger] view_fn.requires((x,)),
    ensures
        r.items_spec() == items@,
        r.key_fn_spec() == key_fn,
        r.view_fn_spec() == view_fn,
{
    Keyed { items, key_fn, view_fn, _marker: PhantomData }
}

/// `t` holds, item by item, a key that `key_fn` gives for the item.
pub open spec fn keys_given<T, KF: Fn(&T) -> u64>(key_fn: KF, items: Seq<T>, t: Seq<u64>) -> bool {
    &&& t.len() == items.len()
    &&& forall|i: int| 0 <= i < t.len() ==> key_fn.ensures((&items[i],), #[trigger] t[i])
}

/// When the stored keys `f` fit the built children, the rebuilt children `r`
/// hold one key per new key of `t`, and every item that stays keeps its built
/// key: in place when its position is unchanged, else carried from its old
/// position.
pub open spec fn keeps_items_in_place<K>(
    f: Seq<u64>,
    t: Seq<u64>,
    children: Seq<Option<K>>,
    r: Seq<Option<K>>,
) -> bool {
    crate::keyed_list::stored_keys_fit(f, t, children) ==> {
        &&& r.len() == t.len()
        &&& forall|p: int| 0 <= p < t.len() && is_unchanged(f, t, p) ==> #[trigger] r[p] == children[p]
        &&& forall|p: int| is_target(f, t, p) ==> #[trigger] r[p] == children[source_of(f, t, p)]
    }
}

/// The items, each wrapped in `Some`.
pub open spec fn some_items<T>(items: Seq<T>) -> Seq<Option<T>> {
    items.map_values(|x: T| Some(x))
}

/// Whether `after` is `before` once the view that `view_fn` makes of `item`
/// is built under `parent`, `key` holding its key.
pub open spec fn item_builds<T, IV: IntoView<R>, R: Renderer, VF: Fn(T) -> IV>(
    view_fn: VF,
    item: T,
    will_rebuild: bool,
    parent: RendererNodeId<R>,
    before: RendererWorld<R>,
    after: RendererWorld<R>,
    key: Option<<IV::View as XView<R>>::Key>,
) -> bool {
    exists|iv: IV|
        #![trigger iv.view_of().builds(parent, None, will_rebuild, before, after, key->0)]
        {
            &&& view_fn.ensures((item,), iv)
            &&& key is Some
            &&& iv.view_of().builds(parent, None, will_rebuild, before, after, key->0)
        }
}

/// Whether `after` is `before` once the views of the items that are there are
/// built in order under clones of `parent`, `keys` holding their keys in that
/// order.
pub open spec fn items_build_in_order<T, IV: IntoView<R>, R: Renderer, VF: Fn(T) -> IV>(
    view_fn: VF,
    items: Seq<Option<T>>,
    will_rebuild: bool,
    parent: RendererNodeId<R>,
    before: RendererWorld<R>,
    after: RendererWorld<R>,
    keys: Seq<Option<<IV::View as XView<R>>::Key>>,
) -> bool
    decreases items.len(),
{
    if items.len() == 0 {
        &&& after == before
        &&& keys.len() == 0
    } else if items.last() is None {
        items_build_in_order::<T, IV, R, VF>(view_fn, items.drop_last(), will_rebuild, parent, before, after, keys)
    } else {
        exists|mid: RendererWorld<R>, p: RendererNodeId<R>|
            #![trigger item_builds::<T, IV, R, VF>(view_fn, items.last()->0, will_rebuild, p, mid, after, keys.last())]
            {
                &&& keys.len() > 0
                &&& cloned::<RendererNodeId<R>>(parent, p)
                &&& item_builds::<T, IV, R, VF>(view_fn, items.last()->0, will_rebuild, p, mid, after, keys.last())
                &&& items_build_in_order::<T, IV, R, VF>(
                    view_fn,
                    items.drop_last(),
                    will_rebuild,
                    parent,
                    before,
                    mid,
                    keys.drop_last(),
                )
            }
    }
}

/// Whether `after` is `before` once the keys of the items, `t` (each once),
/// are stored on `node` as the list's keys.
pub open spec fn stores_data_keys<R: Renderer>(
    before: RendererWorld<R>,
    node: RendererNodeId<R>,
    t: Seq<u64>,
    after: RendererWorld<R>,
) -> bool {
    exists|s: KeyedState|
        #![trigger state_put::<RendererWorld<R>, KeyedState>(before, node, s, after)]
        {
            &&& key_set_items(s.data_keys) == first_occurrences(t)
            &&& state_put::<RendererWorld<R>, KeyedState>(before, node, s, after)
        }
}

/// What a rebuild of the list does to the node tree before storing the new
/// keys `t`: with stored keys that line up with the built children and new
/// keys that are all distinct, the diff of the stored keys and the new ones
/// is applied to the children; otherwise every child is removed and every
/// item's view built afresh.
pub open spec fn keyed_data_rebuilt<T, IV: IntoView<R>, R: Renderer, VF: Fn(T) -> IV>(
    view_fn: VF,
    items: Seq<T>,
    t: Seq<u64>,
    children: Vec<Option<<IV::View as XView<R>>::Key>>,
    parent: RendererNodeId<R>,
    placeholder_node_id: RendererNodeId<R>,
    before: RendererWorld<R>,
    after: RendererWorld<R>,
    result: Seq<Option<<IV::View as XView<R>>::Key>>,
) -> bool {
    let stored = before.node_state::<KeyedState>(placeholder_node_id);
    if stored is Some && crate::keyed_list::stored_keys_fit(key_set_items(stored->0.data_keys), t, children@) {
        exists|d: Diff|
            #![trigger data_diff_applied::<T, IV, R, VF>(key_set_items(stored->0.data_keys), t, d, view_fn, some_items(items), children@, parent, placeholder_node_id, before, after, result)]
            {
                &&& is_data_diff_of(key_set_items(stored->0.data_keys), t, d)
                &&& data_diff_applied::<T, IV, R, VF>(
                    key_set_items(stored->0.data_keys),
                    t,
                    d,
                    view_fn,
                    some_items(items),
                    children@,
                    parent,
                    placeholder_node_id,
                    before,
                    after,
                    result,
                )
            }
    } else {
        exists|removed: RendererWorld<R>|
            #![trigger items_build_in_order::<T, IV, R, VF>(view_fn, some_items(items), true, parent, removed, after, result)]
            {
                &&& children.mutable_removes(before, removed)
                &&& items_build_in_order::<T, IV, R, VF>(view_fn, some_items(items), true, parent, removed, after, result)
            }
    }
}

/// Removes every built child and builds every item afresh.
fn rebuild_all_items<T, IV: IntoView<R>, R: Renderer, VF: Fn(T) -> IV>(
    ctx: ViewCtx<R>,
    children_keys: Vec<Option<<IV::View as XView<R>>::Key>>,
    view_fn: &VF,
    items: Vec<Option<T>>,
) -> (r: Vec<Option<<IV::View as XView<R>>::Key>>)
    requires
        forall|x: T| #[trigger] view_fn.requires((x,)),
    ensures
        forall|p: int| 0 <= p < r@.len() ==> #[trigger] r@[p] is Some,
        exists|removed: RendererWorld<R>|
            #![trigger items_build_in_order::<T, IV, R, VF>(*view_fn, items@, true, ctx.parent, removed, *final(ctx.world), r@)]
            {
                &&& children_keys.mutable_removes(*old(ctx.world), removed)
                &&& items_build_in_order::<T, IV, R, VF>(*view_fn, items@, true, ctx.parent, removed, *final(ctx.world), r@)
            },
{
    let world = ctx.world;
    let parent = ctx.parent;
    children_keys.remove(world);
    let ghost removed = *world;
    let ghost all = items@;
    let mut items = items;
    let mut keys: Vec<Option<<IV::View as XView<R>>::Key>> = Vec::new();
    let mut j: usize = 0;
    while j < items.len()
        invariant
            forall|x: T| #[trigger] view_fn.requires((x,)),
            forall|p: int| 0 <= p < keys@.len() ==> #[trigger] keys@[p] is Some,
            items@.len() == all.len(),
            j <= all.len(),
            forall|k: int| j <= k < all.len() ==> #[trigger] items@[k] == all[k],
            items_build_in_order::<T, IV, R, VF>(*view_fn, all.take(j as int), true, parent, removed, *world, keys@),
        decreases items.len() - j,
    {
        let ghost mid = *world;
        let ghost keys0 = keys@;
        assert(all.take(j + 1).drop_last() == all.take(j as int));
        let slot = take_slot(&mut items, j);
        if let Some(item) = slot {
            let iv = view_fn(item);
            let ghost made = iv;
            let view = iv.into_view();
            let p = parent.clone();
            let key = view.build(ViewCtx { world: &mut *world, parent: p }, None, true);
            keys.push(Some(key));
            proof {
                assert(keys@.drop_last() == keys0);
                assert(made.view_of().builds(p, None, true, mid, *world, key));
                assert(keys@.last() == Some(key));
                assert(made.view_of().builds(p, None, true, mid, *world, keys@.last()->0));
                assert(item_builds::<T, IV, R, VF>(*view_fn, item, true, p, mid, *world, keys@.last()));
                assert(all.take(j + 1).last() == Some(item));
            }
        } else {
            assert(all.take(j + 1).last() is None);
        }
        j = j + 1;
    }
    assert(all.take(all.len() as int) == all);
    keys
}

impl<
    T: 'static,
    KF: Fn(&T) -> u64 + 'static,
    VF: Fn(T) -> IV + 'static,
    IV: IntoView<R>,
    R: Renderer,
> MutableView<R> for Keyed<T, KF, VF, IV, R> {
    type Key = Vec<Option<<IV::View as XView<R>>::Key>>;

    open spec fn no_placeholder_spec() -> bool {
        true
    }

    fn no_placeholder_when_no_rebuild() -> (r: bool)
        ensures
            r,
    {
        true
    }

    /// Builds the view of every item in order; when the list will be rebuilt
    /// (it has a placeholder) the keys of the items are stored on the
    /// placeholder.
    open spec fn mutable_builds(
        self,
        parent: RendererNodeId<R>,
        placeholder_node_id: Option<RendererNodeId<R>>,
        before: RendererWorld<R>,
        after: RendererWorld<R>,
        key: Self::Key,
    ) -> bool {
        &&& key@.len() == self.items_spec().len()
        &&& forall|p: int| 0 <= p < key@.len() ==> #[trigger] key@[p] is Some
        &&& exists|built: RendererWorld<R>|
            #![trigger items_build_in_order::<T, IV, R, VF>(self.view_fn_spec(), some_items(self.items_spec()), placeholder_node_id is Some, parent, before, built, key@)]
            {
                &&& items_build_in_order::<T, IV, R, VF>(
                    self.view_fn_spec(),
                    some_items(self.items_spec()),
                    placeholder_node_id is Some,
                    parent,
                    before,
                    built,
                    key@,
                )
                &&& match placeholder_node_id {
                    Some(id) => exists|t: Seq<u64>|
                        #![trigger stores_data_keys::<R>(built, id, t, after)]
                        {
                            &&& keys_given(self.key_fn_spec(), self.items_spec(), t)
                            &&& stores_data_keys::<R>(built, id, t, after)
                        },
                    None => after == built,
                }
            }
    }

    /// What a rebuild gives: a new key list, every key built, each item that
    /// stays keeping its key.
    open spec fn mutable_rebuilds(
        self,
        parent: RendererNodeId<R>,
        key: Self::Key,
        placeholder_node_id: RendererNodeId<R>,
        before: RendererWorld<R>,
        after: RendererWorld<R>,
        r: Option<Self::Key>,
    ) -> bool {
        &&& r matches Some(keys) && forall|p: int| 0 <= p < keys@.len() ==> #[trigger] keys@[p] is Some
        &&& match before.node_state::<KeyedState>(placeholder_node_id) {
            Some(state) => exists|t: Seq<u64>|
                keys_given(self.key_fn_spec(), self.items_spec(), t) && #[trigger] keeps_items_in_place(
                    key_set_items(state.data_keys),
                    t,
                    key@,
                    r->0@,
                ),
            None => true,
        }
        &&& exists|t: Seq<u64>, p: RendererNodeId<R>, applied: RendererWorld<R>|
            #![trigger keyed_data_rebuilt::<T, IV, R, VF>(self.view_fn_spec(), self.items_spec(), t, key, p, placeholder_node_id, before, applied, r->0@)]
            {
                &&& keys_given(self.key_fn_spec(), self.items_spec(), t)
                &&& cloned::<RendererNodeId<R>>(parent, p)
                &&& keyed_data_rebuilt::<T, IV, R, VF>(
                    self.view_fn_spec(),
                    self.items_spec(),
                    t,
                    key,
                    p,
                    placeholder_node_id,
                    before,
                    applied,
                    r->0@,
                )
                &&& stores_data_keys::<R>(applied, placeholder_node_id, t, after)
            }
    }

    fn build(self, ctx: ViewCtx<R>, placeholder_node_id: Option<RendererNodeId<R>>) -> (r:
        Self::Key)
        ensures
            r@.len() == self.items_spec().len(),
            forall|p: int| 0 <= p < r@.len() ==> #[trigger] r@[p] is Some,
    {
        proof {
            use_type_invariant(&self);
        }
        let ghost items0 = self.items@;
        let world = ctx.world;
        let parent = ctx.parent;
        let ghost w0 = *world;
        let will_rebuild = placeholder_node_id.is_some();
        let Keyed { items, key_fn, view_fn, .. } = self;
        let mut data_keys = key_set_new();
        let mut view_keys: Vec<Option<<IV::View as XView<R>>::Key>> = Vec::new();
        let ghost mut ks: Seq<u64> = Seq::empty();
        for item in it: items
            invariant
                forall|x: &T| #[trigger] key_fn.requires((x,)),
                forall|x: T| #[trigger] view_fn.requires((x,)),
                items0 == it.seq(),
                will_rebuild == placeholder_node_id is Some,
                view_keys@.len() == it.index(),
                forall|p: int| 0 <= p < view_keys@.len() ==> #[trigger] view_keys@[p] is Some,
                will_rebuild ==> ks.len() == it.index(),
                will_rebuild ==> forall|i: int| 0 <= i < ks.len() ==> key_fn.ensures((&items0[i],), #[trigger] ks[i]),
                will_rebuild ==> key_set_items(data_keys) == first_occurrences(ks),
                items_build_in_order::<T, IV, R, VF>(
                    view_fn,
                    some_items(items0.take(it.index() as int)),
                    will_rebuild,
                    parent,
                    w0,
                    *world,
                    view_keys@,
                ),
        {
            let ghost i = it.index();
            let ghost mid = *world;
            let ghost keys0 = view_keys@;
            proof {
                assert(items0[i as int] == item);
                assert(some_items(items0.take(i + 1)).drop_last() =~= some_items(items0.take(i as int)));
                assert(some_items(items0.take(i + 1)).last() == Some(item));
            }
            if will_rebuild {
                let k = key_fn(&item);
                key_set_insert(&mut data_keys, k);
                proof {
                    assert(ks.push(k).drop_last() == ks);
                    ks = ks.push(k);
                }
            }
            let iv = view_fn(item);
            let ghost made = iv;
            let view = iv.into_view();
            let p = parent.clone();
            let key = view.build(ViewCtx { world: &mut *world, parent: p }, None, will_rebuild);
            view_keys.push(Some(key));
            proof {
                assert(view_keys@.drop_last() == keys0);
                assert(view_keys@.last() == Some(key));
                assert(made.view_of().builds(p, None, will_rebuild, mid, *world, view_keys@.last()->0));
                assert(item_builds::<T, IV, R, VF>(view_fn, item, will_rebuild, p, mid, *world, view_keys@.last()));
            }
        }
        proof {
            assert(items0.take(items0.len() as int) =~= items0);
            assert(items_build_in_order::<T, IV, R, VF>(view_fn, some_items(items0), placeholder_node_id is Some, parent, w0, *world, view_keys@));
        }
        let ghost built = *world;
        if let Some(state_node_id) = placeholder_node_id {
            let ghost st = KeyedState { data_keys };
            world.set_node_state(&state_node_id, KeyedState { data_keys });
            proof {
                assert(state_put::<RendererWorld<R>, KeyedState>(built, state_node_id, st, *world));
                assert(stores_data_keys::<R>(built, state_node_id, ks, *world));
                assert(keys_given(key_fn, items0, ks));
            }
        }
        proof {
            assert(self.view_fn_spec() == view_fn);
            assert(self.key_fn_spec() == key_fn);
            assert(self.items_spec() == items0);
            assert(match placeholder_node_id {
                Some(id) => exists|t: Seq<u64>|
                    #![trigger stores_data_keys::<R>(built, id, t, *world)]
                    {
                        &&& keys_given(self.key_fn_spec(), self.items_spec(), t)
                        &&& stores_data_keys::<R>(built, id, t, *world)
                    },
                None => *world == built,
            });
            assert(self.mutable_builds(parent, placeholder_node_id, w0, *world, view_keys));
        }
        view_keys
    }

    /// Diffs the stored keys against the keys of the new items and applies
    /// the diff to the built children (see `apply_diff`), then stores the new
    /// keys. Children that do not line up with the stored keys, or items that
    /// share a key, are all rebuilt afresh.
    fn rebuild(
        self,
        ctx: ViewCtx<R>,
        key: Self::Key,
        placeholder_node_id: RendererNodeId<R>,
    ) -> (r: Option<Self::Key>)
        ensures
            r matches Some(keys) && forall|p: int| 0 <= p < keys@.len() ==> #[trigger] keys@[p] is Some,
            match old(ctx.world).node_state::<KeyedState>(placeholder_node_id) {
                Some(state) => exists|t: Seq<u64>|
                    keys_given(self.key_fn_spec(), self.items_spec(), t) && #[trigger] keeps_items_in_place(
                        key_set_items(state.data_keys),
                        t,
                        key@,
                        r->0@,
                    ),
                None => true,
            },
    {
        proof {
            use_type_invariant(&self);
        }
        let ghost items0 = self.items@;
        let world = ctx.world;
        let parent = ctx.parent;
        let Keyed { items, key_fn, view_fn, .. } = self;
        let mut new_data_keys = key_set_new();
        let mut new_items: Vec<Option<T>> = Vec::new();
        let ghost mut ks: Seq<u64> = Seq::empty();
        let ghost mut all_new: bool = true;
        for item in it: items
            invariant
                forall|x: &T| #[trigger] key_fn.requires((x,)),
                items0 == it.seq(),
                ks.len() == it.index(),
                new_items@.len() == it.index(),
                forall|p: int| 0 <= p < new_items@.len() ==> #[trigger] new_items@[p] is Some,
                forall|i: int| 0 <= i < ks.len() ==> key_fn.ensures((&items0[i],), #[trigger] ks[i]),
                key_set_items(new_data_keys).len() <= it.index(),
                key_set_items(new_data_keys).no_duplicates(),
                all_new ==> key_set_items(new_data_keys) == ks,
                !all_new ==> key_set_items(new_data_keys).len() < it.index(),
                !all_new ==> !ks.no_duplicates(),
                key_set_items(new_data_keys) == first_occurrences(ks),
                new_items@ == some_items(items0.take(it.index() as int)),
        {
            let ghost i = it.index();
            let ghost before = ks;
            let ghost ni0 = new_items@;
            let k = key_fn(&item);
            let inserted = key_set_insert(&mut new_data_keys, k);
            proof {
                ks = ks.push(k);
                assert(items0[i as int] == item);
                if !all_new {
                    let (a, b) = choose|a: int, b: int|
                        0 <= a < before.len() && 0 <= b < before.len() && a != b && before[a] == before[b];
                    assert(ks[a] == before[a] && ks[b] == before[b]);
                } else if !inserted {
                    let a = choose|a: int| 0 <= a < before.len() && before[a] == k;
                    assert(ks[a] == k && ks[before.len() as int] == k);
                }
                if !inserted {
                    all_new = false;
                }
                assert(ks.drop_last() == before);
            }
            new_items.push(Some(item));
            proof {
                assert(new_items@ == ni0.push(Some(item)));
                assert(some_items(items0.take(i + 1)) =~= some_items(items0.take(i as int)).push(Some(item)));
            }
        }
        proof {
            assert(items0.take(items0.len() as int) =~= items0);
        }
        let ghost w0 = *world;
        let ghost children = key@;
        let ghost children_vec = key;
        let mut old_items: Ghost<Seq<u64>> = Ghost(Seq::empty());
        let planned = match world.get_node_state_ref::<KeyedState>(&placeholder_node_id) {
            Some(state) => {
                if crate::keyed_list::keyed_lists_check(
                    &state.data_keys,
                    &new_data_keys,
                    &key,
                    &new_items,
                ) {
                    old_items = Ghost(key_set_items(state.data_keys));
                    proof {
                        if !all_new {
                            assert(key_set_items(new_data_keys).len() < items0.len());
                        }
                        assert(key_set_items(new_data_keys) == ks);
                    }
                    Some(diff(&state.data_keys, &new_data_keys))
                } else {
                    proof {
                        let f = key_set_items(state.data_keys);
                        if crate::keyed_list::stored_keys_fit(f, ks, children) {
                            assert(all_new);
                            assert(crate::keyed_list::keyed_lists_fit(f, ks, children, new_items@));
                        }
                    }
                    None
                }
            },
            None => None,
        };
        let p = parent.clone();
        let ghost pp = p;
        let ghost ni = new_items@;
        proof {
            assert(ni == some_items(items0));
        }
        let new_view_keys = match planned {
            Some(d) => {
                let r = apply_diff::<T, IV, R, VF>(
                    ViewCtx { world: &mut *world, parent: p },
                    &placeholder_node_id,
                    d,
                    key,
                    &view_fn,
                    new_items,
                    old_items,
                    Ghost(key_set_items(new_data_keys)),
                );
                proof {
                    let st = w0.node_state::<KeyedState>(placeholder_node_id);
                    assert(st is Some);
                    assert(old_items@ == key_set_items(st->0.data_keys));
                    assert(crate::keyed_list::stored_keys_fit(old_items@, ks, children));
                    assert(data_diff_applied::<T, IV, R, VF>(old_items@, ks, d, view_fn, some_items(items0), children, pp, placeholder_node_id, w0, *world, r@));
                    assert(keyed_data_rebuilt::<T, IV, R, VF>(view_fn, items0, ks, children_vec, pp, placeholder_node_id, w0, *world, r@));
                }
                r
            },
            None => {
                let r = rebuild_all_items::<T, IV, R, VF>(
                    ViewCtx { world: &mut *world, parent: p },
                    key,
                    &view_fn,
                    new_items,
                );
                proof {
                    let st = w0.node_state::<KeyedState>(placeholder_node_id);
                    if st is Some {
                        assert(!crate::keyed_list::stored_keys_fit(key_set_items(st->0.data_keys), ks, children));
                    }
                    assert(keyed_data_rebuilt::<T, IV, R, VF>(view_fn, items0, ks, children_vec, pp, placeholder_node_id, w0, *world, r@));
                }
                r
            },
        };
        proof {
            assert(keys_given(key_fn, items0, ks));
            assert(match old(ctx.world).node_state::<KeyedState>(placeholder_node_id) {
                Some(st) => keeps_items_in_place(key_set_items(st.data_keys), ks, children, new_view_keys@),
                None => true,
            });
        }
        let ghost applied = *world;
        let ghost st = KeyedState { data_keys: new_data_keys };
        world.set_node_state(&placeholder_node_id, KeyedState { data_keys: new_data_keys });
        proof {
            assert(state_put::<RendererWorld<R>, KeyedState>(applied, placeholder_node_id, st, *world));
            assert(stores_data_keys::<R>(applied, placeholder_node_id, ks, *world));
            assert(cloned::<RendererNodeId<R>>(parent, pp));
            assert(self.view_fn_spec() == view_fn);
            assert(self.key_fn_spec() == key_fn);
            assert(self.items_spec() == items0);
            assert(w0 == *old(ctx.world));
            assert(keyed_data_rebuilt::<T, IV, R, VF>(self.view_fn_spec(), self.items_spec(), ks, children_vec, pp, placeholder_node_id, *old(ctx.world), applied, new_view_keys@));
        }
        Some(new_view_keys)
    }
}

impl<
    T: 'static,
    KF: Fn(&T) -> u64 + 'static,
    VF: Fn(T) -> IV + 'static,
    IV: IntoView<R>,
    R: Renderer,
> IntoView<R> for Keyed<T, KF, VF, IV, R> {
    type View = VirtualContainer<R, Keyed<T, KF, VF, IV, R>>;

    open spec fn view_of(self) -> Self::View {
        VirtualContainer(self, "[Keyed Placeholder]", PhantomData)
    }

    fn into_view(self) -> (r: Self::View)
        ensures
            r.0 == self,
    {
        virtual_container(self, "[Keyed Placeholder]")
    }
}

} // verus!

verus! {

/// Comparing a list of keys with itself finds no change: nothing removed,
/// moved or added, and the list is not cleared.
pub proof fn same_keys_have_no_data_changes(f: Seq<u64>, d: Diff)
    requires
        is_data_diff_of(f, f, d),
    ensures
        d.removed@.len() == 0,
        d.moved@.len() == 0,
        d.added@.len() == 0,
        d.items_to_move == 0,
        !d.clear,
{
    if f.len() > 0 {
        crate::diff::same_keys_have_no_changes_upto(f);
        assert(group_moves(moved_upto(f, f, f.len())) =~= Seq::<crate::diff::DiffOpMove>::empty());
    }
}

} // verus!

verus! {

/// A keyed list rebuilt with the keys it was built with keeps every built
/// key, in place.
pub proof fn same_data_keys_keep_every_key<K>(f: Seq<u64>, children: Seq<Option<K>>, r: Seq<Option<K>>)
    requires
        crate::keyed_list::stored_keys_fit(f, f, children),
        keeps_items_in_place(f, f, children, r),
    ensures
        r == children,
{
    assert forall|p: int| 0 <= p < r.len() implies r[p] == children[p] by {
        assert(is_unchanged(f, f, p));
    }
    assert(r =~= children);
}

} // verus!

verus! {

/// A keyed list whose items get distinct keys, the same on every call of
/// `key_fn`, built behind a placeholder and then rebuilt with the same items,
/// gives back every key it was built with, in place.
pub proof fn rebuild_after_build_keeps_every_data_key<
    T,
    KF: Fn(&T) -> u64,
    VF: Fn(T) -> IV,
    IV: IntoView<R>,
    R: Renderer,
>(
    list: Keyed<T, KF, VF, IV, R>,
    t: Seq<u64>,
    parent: RendererNodeId<R>,
    rebuild_parent: RendererNodeId<R>,
    placeholder_node_id: RendererNodeId<R>,
    start: RendererWorld<R>,
    built_world: RendererWorld<R>,
    rebuilt_world: RendererWorld<R>,
    built: Vec<Option<<IV::View as XView<R>>::Key>>,
    rebuilt: Option<Vec<Option<<IV::View as XView<R>>::Key>>>,
)
    requires
        keys_given(list.key_fn_spec(), list.items_spec(), t),
        forall|i: int, k: u64|
            0 <= i < t.len() && list.key_fn_spec().ensures((&list.items_spec()[i],), k) ==> k == t[i],
        t.no_duplicates(),
        t.len() <= i32::MAX,
        list.mutable_builds(parent, Some(placeholder_node_id), start, built_world, built),
        list.mutable_rebuilds(rebuild_parent, built, placeholder_node_id, built_world, rebuilt_world, rebuilt),
    ensures
        rebuilt is Some,
        rebuilt->0@ == built@,
{
    let items = some_items(list.items_spec());
    let b = choose|b: RendererWorld<R>|
        {
            &&& items_build_in_order::<T, IV, R, VF>(
                list.view_fn_spec(),
                items,
                true,
                parent,
                start,
                b,
                built@,
            )
            &&& exists|t1: Seq<u64>|
                #![trigger stores_data_keys::<R>(b, placeholder_node_id, t1, built_world)]
                {
                    &&& keys_given(list.key_fn_spec(), list.items_spec(), t1)
                    &&& stores_data_keys::<R>(b, placeholder_node_id, t1, built_world)
                }
        };
    let t1 = choose|t1: Seq<u64>|
        {
            &&& keys_given(list.key_fn_spec(), list.items_spec(), t1)
            &&& stores_data_keys::<R>(b, placeholder_node_id, t1, built_world)
        };
    assert(t1 =~= t);
    let s = choose|s: KeyedState|
        {
            &&& key_set_items(s.data_keys) == first_occurrences(t)
            &&& state_put::<RendererWorld<R>, KeyedState>(b, placeholder_node_id, s, built_world)
        };
    assert(built_world.node_state::<KeyedState>(placeholder_node_id) == Some(s));
    crate::keyed_list::lemma_first_occurrences_distinct(t);
    let t2 = choose|t2: Seq<u64>|
        keys_given(list.key_fn_spec(), list.items_spec(), t2) && #[trigger] keeps_items_in_place(
            key_set_items(s.data_keys),
            t2,
            built@,
            rebuilt->0@,
        );
    assert(t2 =~= t);
    assert(crate::keyed_list::stored_keys_fit(t, t, built@));
    same_data_keys_keep_every_key(t, built@, rebuilt->0@);
}

} // verus!

verus! {

/// Compares two key sets as `diff` does, when each holds at most `i32::MAX`
/// keys; `None` otherwise.
pub fn checked_data_diff(from: &FxIndexSet<u64>, to: &FxIndexSet<u64>) -> (r: Option<Diff>)
    ensures
        (r is Some) == (key_set_items(*from).len() <= i32::MAX && key_set_items(*to).len() <= i32::MAX),
        r matches Some(d) ==> is_data_diff_of(key_set_items(*from), key_set_items(*to), d),
{
    if key_set_len(from) <= 0x7fff_ffff && key_set_len(to) <= 0x7fff_ffff {
        Some(diff(from, to))
    } else {
        None
    }
}

/// Compares the keys of two lists, each key taken at its first occurrence,
/// as `diff` does; `None` when either list holds more than `i32::MAX`
/// distinct keys.
pub fn data_diff_keys(from: &Vec<u64>, to: &Vec<u64>) -> (r: Option<Diff>)
    ensures
        (r is Some) == (first_occurrences(from@).len() <= i32::MAX && first_occurrences(to@).len() <= i32::MAX),
        r matches Some(d) ==> is_data_diff_of(first_occurrences(from@), first_occurrences(to@), d),
{
    let f = crate::diff::key_set_of(from);
    let t = crate::diff::key_set_of(to);
    checked_data_diff(&f, &t)
}

} // verus!
