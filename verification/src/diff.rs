use vstd::prelude::*;
use vstd::set_lib::set_int_range;
use crate::key_set::{
    FxIndexSet, key_set_items, key_set_is_empty, key_set_len, key_set_get_index,
    key_set_contains, key_set_get_full, key_set_new, key_set_insert,
};
use crate::keyed_list::first_occurrences;

verus! {

/// A move of `len` consecutive items from position `from` of the old list to
/// position `to` of the new list. `can_ignored` is set when the item keeps its
/// place relative to its neighbours once the removals and additions before it
/// are done, so that the move needs no work in the node tree.
#[derive(Clone, Copy, Debug, PartialEq, Eq)]
pub struct DiffOpMove {
    pub from: usize,
    pub to: usize,
    pub len: usize,
    pub can_ignored: bool,
}

impl Default for DiffOpMove {
    fn default() -> (r: Self)
        ensures
            r == (DiffOpMove { from: 0, to: 0, len: 1, can_ignored: true }),
    {
        DiffOpMove { from: 0, to: 0, len: 1, can_ignored: true }
    }
}

/// The difference between an old and a new ordered set of keys.
#[derive(Debug, PartialEq, Eq)]
pub enum Diff {
    NoChanged,
    Cleared,
    Replaced,
    PartDiff {
        removed: Vec<usize>,
        moved: Vec<DiffOpMove>,
        moved_sum_count: usize,
        added: Vec<usize>,
        no_changed: Vec<usize>,
    },
}

impl Default for Diff {
    fn default() -> (r: Self)
        ensures
            r is NoChanged,
    {
        Diff::NoChanged
    }
}

/// The item at position `i`, if there is one.
pub open spec fn item_at(s: Seq<u64>, i: int) -> Option<u64> {
    if 0 <= i < s.len() {
        Some(s[i])
    } else {
        None
    }
}

/// Position `i` holds the same key in both lists.
pub open spec fn is_unchanged(f: Seq<u64>, t: Seq<u64>, i: int) -> bool {
    &&& item_at(f, i) is Some
    &&& item_at(f, i) == item_at(t, i)
}

/// The old key at position `i` is gone from the new list.
pub open spec fn is_removed(f: Seq<u64>, t: Seq<u64>, i: int) -> bool {
    &&& 0 <= i < f.len()
    &&& item_at(f, i) != item_at(t, i)
    &&& !t.contains(f[i])
}

/// The new key at position `i` was not in the old list.
pub open spec fn is_added(f: Seq<u64>, t: Seq<u64>, i: int) -> bool {
    &&& 0 <= i < t.len()
    &&& item_at(f, i) != item_at(t, i)
    &&& !f.contains(t[i])
}

/// The old key at position `i` is still in the new list, at another position.
pub open spec fn is_moved(f: Seq<u64>, t: Seq<u64>, i: int) -> bool {
    &&& 0 <= i < f.len()
    &&& item_at(f, i) != item_at(t, i)
    &&& t.contains(f[i])
}

/// The positions below `n` that satisfy `p`, in increasing order.
pub open spec fn positions_upto(n: nat, p: spec_fn(int) -> bool) -> Seq<usize>
    decreases n,
{
    if n == 0 {
        seq![]
    } else {
        positions_upto((n - 1) as nat, p) + if p(n - 1) {
            seq![(n - 1) as usize]
        } else {
            seq![]
        }
    }
}

/// The positions below `n` that are unchanged, in increasing order.
pub open spec fn unchanged_upto(f: Seq<u64>, t: Seq<u64>, n: nat) -> Seq<usize> {
    positions_upto(n, |i: int| is_unchanged(f, t, i))
}

/// The positions below `n` whose old key is removed, in increasing order.
pub open spec fn removed_upto(f: Seq<u64>, t: Seq<u64>, n: nat) -> Seq<usize> {
    positions_upto(n, |i: int| is_removed(f, t, i))
}

/// The positions below `n` whose new key is added, in increasing order.
pub open spec fn added_upto(f: Seq<u64>, t: Seq<u64>, n: nat) -> Seq<usize> {
    positions_upto(n, |i: int| is_added(f, t, i))
}

/// The single-item move of the old key at position `i`: it goes where the new
/// list holds that key, and it needs no work when it has moved forward by as
/// many places as there were additions minus removals up to and including `i`.
pub open spec fn move_at(f: Seq<u64>, t: Seq<u64>, i: int) -> DiffOpMove {
    let to = t.index_of(f[i]);
    DiffOpMove {
        from: i as usize,
        to: to as usize,
        len: 1,
        can_ignored: to - i == added_upto(f, t, (i + 1) as nat).len() - removed_upto(
            f,
            t,
            (i + 1) as nat,
        ).len(),
    }
}

/// The moves of the old keys below `n` that are moved, in increasing order.
pub open spec fn moved_upto(f: Seq<u64>, t: Seq<u64>, n: nat) -> Seq<DiffOpMove>
    decreases n,
{
    if n == 0 {
        seq![]
    } else {
        moved_upto(f, t, (n - 1) as nat) + if is_moved(f, t, n - 1) {
            seq![move_at(f, t, n - 1)]
        } else {
            seq![]
        }
    }
}

pub open spec fn longest_len(f: Seq<u64>, t: Seq<u64>) -> nat {
    if f.len() >= t.len() {
        f.len()
    } else {
        t.len()
    }
}

/// What `diff` gives back for the old keys `f` and the new keys `t`.
pub open spec fn is_diff_of(f: Seq<u64>, t: Seq<u64>, d: Diff) -> bool {
    let n = longest_len(f, t);
    &&& (d is NoChanged <==> (f.len() == 0 && t.len() == 0))
    &&& (d is Cleared <==> (f.len() != 0 && t.len() == 0))
    &&& (d is Replaced <==> (f.len() == 0 && t.len() != 0))
    &&& (d matches Diff::PartDiff { removed, moved, moved_sum_count, added, no_changed } ==> {
        &&& removed@ == removed_upto(f, t, n)
        &&& moved@ == moved_upto(f, t, n)
        &&& moved_sum_count == moved@.len()
        &&& added@ == added_upto(f, t, n)
        &&& no_changed@ == unchanged_upto(f, t, n)
    })
}

proof fn lemma_positions_len(n: nat, p: spec_fn(int) -> bool)
    ensures
        positions_upto(n, p).len() <= n,
    decreases n,
{
    if n > 0 {
        lemma_positions_len((n - 1) as nat, p);
    }
}

pub(crate) proof fn lemma_moved_len(f: Seq<u64>, t: Seq<u64>, n: nat)
    ensures
        moved_upto(f, t, n).len() <= n,
    decreases n,
{
    if n > 0 {
        lemma_moved_len(f, t, (n - 1) as nat);
    }
}

pub(crate) proof fn lemma_upto_len(f: Seq<u64>, t: Seq<u64>, n: nat)
    ensures
        removed_upto(f, t, n).len() <= n,
        added_upto(f, t, n).len() <= n,
        unchanged_upto(f, t, n).len() <= n,
        moved_upto(f, t, n).len() <= n,
{
    lemma_positions_len(n, |i: int| is_removed(f, t, i));
    lemma_positions_len(n, |i: int| is_added(f, t, i));
    lemma_positions_len(n, |i: int| is_unchanged(f, t, i));
    lemma_moved_len(f, t, n);
}

/// Compares the old and the new keys position by position: a position whose
/// key is the same in both is unchanged, an old key that is gone is removed, a
/// new key that was not there is added, and an old key that is elsewhere in
/// the new list is moved there.
pub fn diff(from: &FxIndexSet<u64>, to: &FxIndexSet<u64>) -> (r: Diff)
    requires
        key_set_items(*from).len() <= i32::MAX,
        key_set_items(*to).len() <= i32::MAX,
    ensures
        is_diff_of(key_set_items(*from), key_set_items(*to), r),
{
    let ghost f = key_set_items(*from);
    let ghost t = key_set_items(*to);
    if key_set_is_empty(from) && key_set_is_empty(to) {
        return Diff::NoChanged;
    }
    if key_set_is_empty(to) {
        return Diff::Cleared;
    }
    if key_set_is_empty(from) {
        return Diff::Replaced;
    }
    let mut removed: Vec<usize> = Vec::new();
    let mut moved: Vec<DiffOpMove> = Vec::new();
    let mut added: Vec<usize> = Vec::new();
    let mut no_changed: Vec<usize> = Vec::new();
    let from_len = key_set_len(from);
    let to_len = key_set_len(to);
    let max_len = if from_len >= to_len {
        from_len
    } else {
        to_len
    };
    let mut index: usize = 0;
    while index < max_len
        invariant
            f == key_set_items(*from),
            t == key_set_items(*to),
            f.len() == from_len,
            t.len() == to_len,
            from_len <= i32::MAX,
            to_len <= i32::MAX,
            max_len == longest_len(f, t),
            index <= max_len,
            removed@ == removed_upto(f, t, index as nat),
            moved@ == moved_upto(f, t, index as nat),
            added@ == added_upto(f, t, index as nat),
            no_changed@ == unchanged_upto(f, t, index as nat),
        decreases max_len - index,
    {
        proof {
            lemma_upto_len(f, t, index as nat);
        }
        let from_item = key_set_get_index(from, index);
        let to_item = key_set_get_index(to, index);
        let same = match (from_item, to_item) {
            (Some(a), Some(b)) => a == b,
            (None, None) => true,
            _ => false,
        };
        if same {
            if from_item.is_some() {
                no_changed.push(index);
            }
            index = index + 1;
            continue;
        }
        if let Some(from_key) = from_item {
            if !key_set_contains(to, &from_key) {
                removed.push(index);
            }
        }
        if let Some(to_key) = to_item {
            if !key_set_contains(from, &to_key) {
                added.push(index);
            }
        }
        if let Some(from_key) = from_item {
            if let Some(to_index) = key_set_get_full(to, &from_key) {
                let moves_forward_by: i32 = (to_index as i32) - (index as i32);
                let net_added: i32 = (added.len() as i32) - (removed.len() as i32);
                moved.push(
                    DiffOpMove {
                        from: index,
                        len: 1,
                        to: to_index,
                        can_ignored: moves_forward_by == net_added,
                    },
                );
            }
        }
        index = index + 1;
    }
    let moved_sum_count = moved.len();
    Diff::PartDiff { removed, moved_sum_count, moved, added, no_changed }
}

} // verus!

verus! {

/// Two moves can be merged when the second one continues the first one, both
/// in the old and in the new list.
pub open spec fn can_merge(p: DiffOpMove, m: DiffOpMove) -> bool {
    &&& m.from == p.from + p.len
    &&& m.to == p.to + p.len
}

/// The moves with each run of adjacent moves merged into the first move of
/// the run, whose length grows by one for every move merged into it.
pub open spec fn group_moves(s: Seq<DiffOpMove>) -> Seq<DiffOpMove>
    decreases s.len(),
{
    if s.len() == 0 {
        seq![]
    } else {
        let g = group_moves(s.drop_last());
        let m = s.last();
        if g.len() > 0 && can_merge(g.last(), m) {
            g.update(
                g.len() - 1,
                DiffOpMove { len: (g.last().len + 1) as usize, ..g.last() },
            )
        } else {
            g.push(m)
        }
    }
}

/// Every move ends before the largest `usize` in both lists.
pub open spec fn moves_fit(s: Seq<DiffOpMove>) -> bool {
    forall|k: int|
        #![trigger s[k]]
        0 <= k < s.len() ==> s[k].from + s[k].len < usize::MAX && s[k].to + s[k].len < usize::MAX
}

fn group_adjacent(moved: &Vec<DiffOpMove>) -> (r: Vec<DiffOpMove>)
    requires
        moves_fit(moved@),
    ensures
        r@ == group_moves(moved@),
{
    let mut prev: Option<DiffOpMove> = None;
    let mut new_moved: Vec<DiffOpMove> = Vec::new();
    let mut i: usize = 0;
    while i < moved.len()
        invariant
            i <= moved.len(),
            moves_fit(moved@),
            prev is None <==> i == 0,
            group_moves(moved@.take(i as int)) == (match prev {
                Some(p) => new_moved@.push(p),
                None => new_moved@,
            }),
            prev matches Some(p) ==> p.from + p.len <= usize::MAX && p.to + p.len <= usize::MAX,
        decreases moved.len() - i,
    {
        let m = moved[i];
        assert(moved@.take(i + 1).drop_last() =~= moved@.take(i as int));
        assert(moved@.take(i + 1).last() == m);
        assert(m.from + m.len < usize::MAX && m.to + m.len < usize::MAX) by {
            assert(moved@[i as int] == m);
        }
        match prev {
            Some(p) => {
                if m.from == p.from + p.len && m.to == p.to + p.len {
                    prev = Some(DiffOpMove { len: p.len + 1, ..p });
                } else {
                    new_moved.push(p);
                    prev = Some(m);
                }
            },
            None => {
                prev = Some(m);
            },
        }
        i = i + 1;
    }
    assert(moved@.take(moved.len() as int) =~= moved@);
    if let Some(p) = prev {
        new_moved.push(p);
    }
    new_moved
}

impl Diff {
    /// Group adjacent items that are being moved as a group.
    /// For example from `[2, 3, 5, 6]` to `[1, 2, 3, 4, 5, 6]` should result
    /// in a move for `2,3` and `5,6` rather than 4 individual moves.
    pub fn combine_move(&mut self)
        requires
            *old(self) matches Diff::PartDiff { moved, .. } ==> moves_fit(moved@),
        ensures
            match *old(self) {
                Diff::PartDiff { removed, moved, moved_sum_count, added, no_changed } => {
                    &&& *final(self) matches Diff::PartDiff {
                        removed: removed2,
                        moved: moved2,
                        moved_sum_count: count2,
                        added: added2,
                        no_changed: no_changed2,
                    }
                    &&& removed2 == removed
                    &&& moved2@ == group_moves(moved@)
                    &&& count2 == moved_sum_count
                    &&& added2 == added
                    &&& no_changed2 == no_changed
                },
                _ => *final(self) == *old(self),
            },
    {
        match self {
            Diff::PartDiff { moved, .. } => {
                let grouped = group_adjacent(moved);
                *moved = grouped;
            },
            _ => {},
        }
    }
}

} // verus!

verus! {

/// A move of the first item of `m` alone.
pub open spec fn single(m: DiffOpMove) -> DiffOpMove {
    DiffOpMove { len: 1, ..m }
}

/// `m` without its first item.
pub open spec fn advance(m: DiffOpMove) -> DiffOpMove {
    DiffOpMove {
        from: (m.from + 1) as usize,
        to: (m.to + 1) as usize,
        len: (m.len - 1) as usize,
        can_ignored: m.can_ignored,
    }
}

/// How far `unpack_moves` has got: how many removals, additions and moves it
/// has consumed, the rest of the move it is splitting, what it has given out
/// so far, and whether it has run out of work.
pub ghost struct UnpackState {
    pub removes: nat,
    pub adds_at: nat,
    pub next_move: nat,
    pub current: Option<DiffOpMove>,
    pub moves: Seq<DiffOpMove>,
    pub adds: Seq<usize>,
    pub stopped: bool,
}

pub open spec fn unpack_start(moved: Seq<DiffOpMove>) -> UnpackState {
    UnpackState {
        removes: 0,
        adds_at: 0,
        next_move: if moved.len() > 0 {
            1
        } else {
            0
        },
        current: if moved.len() > 0 {
            Some(moved[0])
        } else {
            None
        },
        moves: seq![],
        adds: seq![],
        stopped: false,
    }
}

/// Gives out one single-item move from the move being split, and goes on to
/// the next move once this one is used up.
pub open spec fn unpack_take_move(moved: Seq<DiffOpMove>, s: UnpackState, m: DiffOpMove) -> UnpackState {
    let rest = advance(m);
    let s2 = UnpackState { moves: s.moves.push(single(m)), ..s };
    if rest.len == 0 {
        if s.next_move < moved.len() {
            UnpackState { current: Some(moved[s.next_move as int]), next_move: s.next_move + 1, ..s2 }
        } else {
            UnpackState { current: None, ..s2 }
        }
    } else {
        UnpackState { current: Some(rest), ..s2 }
    }
}

pub open spec fn unpack_take_add(added: Seq<usize>, s: UnpackState) -> UnpackState {
    UnpackState { adds: s.adds.push(added[s.adds_at as int]), adds_at: s.adds_at + 1, ..s }
}

/// Step `i` of `unpack_moves`: a removal at `i` is skipped; otherwise an
/// addition at `i` is given out, else the next single-item move, else the
/// work is done.
pub open spec fn unpack_step(
    removed: Seq<usize>,
    added: Seq<usize>,
    moved: Seq<DiffOpMove>,
    i: nat,
    s: UnpackState,
) -> UnpackState {
    if s.stopped {
        s
    } else if s.removes < removed.len() && removed[s.removes as int] == i {
        UnpackState { removes: s.removes + 1, ..s }
    } else {
        let has_add = s.adds_at < added.len();
        match s.current {
            Some(m) => if has_add && added[s.adds_at as int] == i {
                unpack_take_add(added, s)
            } else {
                unpack_take_move(moved, s, m)
            },
            None => if has_add {
                unpack_take_add(added, s)
            } else {
                UnpackState { stopped: true, ..s }
            },
        }
    }
}

/// The state of `unpack_moves` after its first `n` steps.
pub open spec fn unpack_run(
    removed: Seq<usize>,
    added: Seq<usize>,
    moved: Seq<DiffOpMove>,
    n: nat,
) -> UnpackState
    decreases n,
{
    if n == 0 {
        unpack_start(moved)
    } else {
        unpack_step(removed, added, moved, (n - 1) as nat, unpack_run(removed, added, moved, (n - 1) as nat))
    }
}

/// The number of steps `unpack_moves` takes.
pub open spec fn unpack_steps(d: Diff) -> int {
    match d {
        Diff::PartDiff { removed, moved, moved_sum_count, added, .. } => moved_sum_count + added.len()
            + removed.len(),
        _ => 0,
    }
}

/// The counters of `unpack_moves` stay in range: the step count fits in a
/// `usize`, and every move has at least one item and ends within `usize`.
pub open spec fn unpack_fits(d: Diff) -> bool {
    match d {
        Diff::PartDiff { moved, .. } => {
            &&& unpack_steps(d) <= usize::MAX
            &&& moves_nonempty_fit(moved@)
        },
        _ => true,
    }
}

/// Every move has at least one item and ends within `usize` in both lists.
pub open spec fn moves_nonempty_fit(s: Seq<DiffOpMove>) -> bool {
    forall|k: int|
        #![trigger s[k]]
        0 <= k < s.len() ==> s[k].len >= 1 && s[k].from + s[k].len <= usize::MAX && s[k].to
            + s[k].len <= usize::MAX
}

pub(crate) proof fn lemma_unpack_stopped_stays(
    removed: Seq<usize>,
    added: Seq<usize>,
    moved: Seq<DiffOpMove>,
    m: nat,
    n: nat,
)
    requires
        m <= n,
        unpack_run(removed, added, moved, m).stopped,
    ensures
        unpack_run(removed, added, moved, n) == unpack_run(removed, added, moved, m),
    decreases n,
{
    if n > m {
        lemma_unpack_stopped_stays(removed, added, moved, m, (n - 1) as nat);
    }
}

/// A partial diff counts at least as many moved items as its moves hold.
pub open spec fn moves_counted(d: Diff) -> bool {
    match d {
        Diff::PartDiff { moved, moved_sum_count, .. } => move_units(moved@) <= moved_sum_count,
        _ => true,
    }
}

impl Diff {
    /// Splits the moves of a partial diff into single-item moves and puts them
    /// and the additions in the order in which they apply, skipping removals;
    /// any other diff gives two empty lists.
    pub fn unpack_moves(&self) -> (r: (Vec<DiffOpMove>, Vec<usize>))
        requires
            unpack_fits(*self),
        ensures
            match *self {
                Diff::PartDiff { removed, moved, added, .. } => {
                    let s = unpack_run(removed@, added@, moved@, unpack_steps(*self) as nat);
                    r.0@ == s.moves && r.1@ == s.adds
                },
                _ => r.0@.len() == 0 && r.1@.len() == 0,
            },
            match *self {
                Diff::PartDiff { moved, moved_sum_count, added, .. } => move_units(moved@)
                    <= moved_sum_count ==> r.0@ == expand_moves(moved@) && r.1@ == added@,
                _ => true,
            },
    {
        proof {
            if moves_counted(*self) {
                unpack_moves_gives_everything(*self);
            }
        }
        match self {
            Diff::PartDiff { removed, moved, moved_sum_count, added, .. } => {
                let total = *moved_sum_count + added.len() + removed.len();
                let ghost rem = removed@;
                let ghost add = added@;
                let ghost mov = moved@;
                let mut moves: Vec<DiffOpMove> = Vec::new();
                let mut adds: Vec<usize> = Vec::new();
                let mut ri: usize = 0;
                let mut ai: usize = 0;
                let mut mi: usize = 0;
                let mut cur: Option<DiffOpMove> = None;
                if moved.len() > 0 {
                    cur = Some(moved[0]);
                    mi = 1;
                }
                let mut stopped = false;
                let mut i: usize = 0;
                while i < total && !stopped
                    invariant
                        rem == removed@,
                        add == added@,
                        mov == moved@,
                        total == unpack_steps(*self),
                        moves_nonempty_fit(mov),
                        i <= total,
                        ri <= removed.len(),
                        ai <= added.len(),
                        mi <= moved.len(),
                        cur matches Some(c) ==> c.len >= 1 && c.from + c.len <= usize::MAX && c.to
                            + c.len <= usize::MAX,
                        unpack_run(rem, add, mov, i as nat) == (UnpackState {
                            removes: ri as nat,
                            adds_at: ai as nat,
                            next_move: mi as nat,
                            current: cur,
                            moves: moves@,
                            adds: adds@,
                            stopped,
                        }),
                    decreases total - i,
                {
                    if ri < removed.len() && removed[ri] == i {
                        ri = ri + 1;
                    } else {
                        let add_next: Option<usize> = if ai < added.len() {
                            Some(added[ai])
                        } else {
                            None
                        };
                        let take_add = match (add_next, cur) {
                            (Some(a), Some(_)) => a == i,
                            (Some(_), None) => true,
                            _ => false,
                        };
                        if take_add {
                            adds.push(added[ai]);
                            ai = ai + 1;
                        } else {
                            match cur {
                                Some(m) => {
                                    moves.push(DiffOpMove { len: 1, ..m });
                                    let rest = DiffOpMove {
                                        len: m.len - 1,
                                        from: m.from + 1,
                                        to: m.to + 1,
                                        ..m
                                    };
                                    if rest.len == 0 {
                                        if mi < moved.len() {
                                            cur = Some(moved[mi]);
                                            assert(mov[mi as int] == moved[mi as int]);
                                            mi = mi + 1;
                                        } else {
                                            cur = None;
                                        }
                                    } else {
                                        cur = Some(rest);
                                    }
                                },
                                None => {
                                    stopped = true;
                                },
                            }
                        }
                    }
                    i = i + 1;
                }
                proof {
                    if i < total {
                        lemma_unpack_stopped_stays(rem, add, mov, i as nat, total as nat);
                    }
                }
                (moves, adds)
            },
            _ => (Vec::new(), Vec::new()),
        }
    }
}

} // verus!

verus! {

/// The single-item moves that a move stands for, in order.
pub open spec fn expand_move(m: DiffOpMove) -> Seq<DiffOpMove>
    decreases m.len,
{
    if m.len == 0 {
        seq![]
    } else {
        seq![single(m)] + expand_move(advance(m))
    }
}

/// The single-item moves that a list of moves stands for, in order.
pub open spec fn expand_moves(s: Seq<DiffOpMove>) -> Seq<DiffOpMove>
    decreases s.len(),
{
    if s.len() == 0 {
        seq![]
    } else {
        expand_move(s[0]) + expand_moves(s.drop_first())
    }
}

/// The number of items that a list of moves moves.
pub open spec fn move_units(s: Seq<DiffOpMove>) -> nat
    decreases s.len(),
{
    if s.len() == 0 {
        0
    } else {
        (s[0].len + move_units(s.drop_first())) as nat
    }
}

proof fn lemma_expand_move_len(m: DiffOpMove)
    ensures
        expand_move(m).len() == m.len,
    decreases m.len,
{
    if m.len > 0 {
        lemma_expand_move_len(advance(m));
    }
}

pub(crate) proof fn lemma_expand_moves_len(s: Seq<DiffOpMove>)
    ensures
        expand_moves(s).len() == move_units(s),
    decreases s.len(),
{
    if s.len() > 0 {
        lemma_expand_move_len(s[0]);
        lemma_expand_moves_len(s.drop_first());
    }
}

proof fn lemma_expand_skip(s: Seq<DiffOpMove>, k: int)
    requires
        0 <= k < s.len(),
    ensures
        expand_moves(s.skip(k)) == expand_move(s[k]) + expand_moves(s.skip(k + 1)),
{
    assert(s.skip(k).drop_first() =~= s.skip(k + 1));
    assert(s.skip(k)[0] == s[k]);
}

/// What is left for `unpack_moves` to give out of the moves.
pub open spec fn unpack_remaining(moved: Seq<DiffOpMove>, s: UnpackState) -> Seq<DiffOpMove> {
    (match s.current {
        Some(c) => expand_move(c),
        None => seq![],
    }) + expand_moves(moved.skip(s.next_move as int))
}

pub open spec fn unpack_progress(
    removed: Seq<usize>,
    added: Seq<usize>,
    moved: Seq<DiffOpMove>,
    n: nat,
    s: UnpackState,
) -> bool {
    &&& s.moves + unpack_remaining(moved, s) == expand_moves(moved)
    &&& s.adds_at <= added.len()
    &&& s.adds == added.take(s.adds_at as int)
    &&& s.removes <= removed.len()
    &&& s.next_move <= moved.len()
    &&& (s.current is None ==> s.next_move == moved.len())
    &&& (s.current matches Some(c) ==> c.len >= 1)
    &&& (s.stopped ==> s.current is None && s.adds_at == added.len())
    &&& (!s.stopped ==> n == s.removes + s.moves.len() + s.adds_at)
}

pub(crate) proof fn lemma_unpack_progress(
    removed: Seq<usize>,
    added: Seq<usize>,
    moved: Seq<DiffOpMove>,
    n: nat,
)
    requires
        moves_nonempty_fit(moved),
    ensures
        unpack_progress(removed, added, moved, n, unpack_run(removed, added, moved, n)),
    decreases n,
{
    if n == 0 {
        let s = unpack_start(moved);
        if moved.len() > 0 {
            lemma_expand_skip(moved, 0);
            assert(moved.skip(0) =~= moved);
        } else {
            assert(moved.skip(0) =~= moved);
        }
        assert(s.moves + unpack_remaining(moved, s) =~= unpack_remaining(moved, s));
        assert(added.take(0) =~= seq![]);
    } else {
        let k = (n - 1) as nat;
        lemma_unpack_progress(removed, added, moved, k);
        let s = unpack_run(removed, added, moved, k);
        let s2 = unpack_run(removed, added, moved, n);
        assert(s2 == unpack_step(removed, added, moved, k, s));
        if s.stopped {
        } else if s.removes < removed.len() && removed[s.removes as int] == k {
        } else {
            let has_add = s.adds_at < added.len();
            match s.current {
                Some(m) => {
                    if has_add && added[s.adds_at as int] == k {
                        assert(added.take(s.adds_at + 1int) =~= added.take(s.adds_at as int).push(
                            added[s.adds_at as int],
                        ));
                    } else {
                        let rest = advance(m);
                        assert(expand_move(m) == seq![single(m)] + expand_move(rest));
                        if rest.len == 0 {
                            if s.next_move < moved.len() {
                                lemma_expand_skip(moved, s.next_move as int);
                                assert(s2.moves + unpack_remaining(moved, s2) =~= s.moves
                                    + unpack_remaining(moved, s));
                            } else {
                                assert(s2.moves + unpack_remaining(moved, s2) =~= s.moves
                                    + unpack_remaining(moved, s));
                            }
                        } else {
                            assert(s2.moves + unpack_remaining(moved, s2) =~= s.moves
                                + unpack_remaining(moved, s));
                        }
                    }
                },
                None => {
                    if has_add {
                        assert(added.take(s.adds_at + 1int) =~= added.take(s.adds_at as int).push(
                            added[s.adds_at as int],
                        ));
                    }
                },
            }
        }
    }
}

/// Once a partial diff counts at least as many moved items as its moves hold
/// (as `diff` and `combine_move` leave it), `unpack_moves` gives out every
/// addition, in order, and every moved item as a move of its own, in order.
pub proof fn unpack_moves_gives_everything(d: Diff)
    requires
        unpack_fits(d),
        d matches Diff::PartDiff { moved, moved_sum_count, .. } ==> move_units(moved@)
            <= moved_sum_count,
    ensures
        d matches Diff::PartDiff { removed, moved, added, .. } ==> {
            let s = unpack_run(removed@, added@, moved@, unpack_steps(d) as nat);
            &&& s.moves == expand_moves(moved@)
            &&& s.adds == added@
        },
{
    match d {
        Diff::PartDiff { removed, moved, added, .. } => {
            lemma_unpack_all(removed@, added@, moved@, unpack_steps(d) as nat);
        },
        _ => {},
    }
}

/// Given at least as many steps as there are moved items, additions and
/// removals, the unpacking gives out every addition and every moved item.
pub(crate) proof fn lemma_unpack_all(
    removed: Seq<usize>,
    added: Seq<usize>,
    moved: Seq<DiffOpMove>,
    n: nat,
)
    requires
        moves_nonempty_fit(moved),
        move_units(moved) + added.len() + removed.len() <= n,
    ensures
        unpack_run(removed, added, moved, n).moves == expand_moves(moved),
        unpack_run(removed, added, moved, n).adds == added,
        unpack_run(removed, added, moved, n).adds_at == added.len(),
{
    lemma_unpack_progress(removed, added, moved, n);
    lemma_expand_moves_len(moved);
    let s = unpack_run(removed, added, moved, n);
    let rest = unpack_remaining(moved, s);
    if s.stopped {
        assert(moved.skip(moved.len() as int) =~= seq![]);
        assert(rest =~= seq![]);
        assert(s.moves =~= s.moves + rest);
    } else {
        assert(s.moves.len() + rest.len() == move_units(moved));
        assert(rest.len() == 0);
        assert(s.moves =~= s.moves + rest);
    }
    assert(added.take(added.len() as int) =~= added);
}
} // verus!

verus! {

/// Where the `k`-th listed position starts, or `n` past the end of the list.
pub open spec fn bound_at(s: Seq<usize>, k: int, n: nat) -> int {
    if 0 <= k < s.len() {
        s[k] as int
    } else {
        n as int
    }
}

/// The positions of the old keys that are moved, in increasing order.
pub open spec fn moved_froms(f: Seq<u64>, t: Seq<u64>, n: nat) -> Seq<usize> {
    positions_upto(n, |i: int| is_moved(f, t, i))
}

pub(crate) proof fn lemma_positions(n: nat, p: spec_fn(int) -> bool)
    requires
        n <= usize::MAX + 1,
    ensures
        forall|a: int|
            0 <= a < positions_upto(n, p).len() ==> #[trigger] positions_upto(n, p)[a] < n && p(
                positions_upto(n, p)[a] as int,
            ),
        forall|a: int, b: int|
            0 <= a < b < positions_upto(n, p).len() ==> #[trigger] positions_upto(n, p)[a]
                < #[trigger] positions_upto(n, p)[b],
        forall|i: int| 0 <= i < n && #[trigger] p(i) ==> positions_upto(n, p).contains(i as usize),
    decreases n,
{
    if n > 0 {
        let m = (n - 1) as nat;
        lemma_positions(m, p);
        let s = positions_upto(m, p);
        let s2 = positions_upto(n, p);
        if p(m as int) {
            assert(s2 == s.push(m as usize));
            assert forall|i: int| 0 <= i < n && #[trigger] p(i) implies s2.contains(i as usize) by {
                if i < m {
                    let a = choose|a: int| 0 <= a < s.len() && s[a] == i as usize;
                    assert(s2[a] == i as usize);
                } else {
                    assert(s2[s.len() as int] == i as usize);
                }
            }
        } else {
            assert(s2 =~= s);
        }
    }
}

/// A listed position is the only position with the property between it and
/// the next listed position.
pub(crate) proof fn lemma_positions_step(n: nat, p: spec_fn(int) -> bool, k: int, j: int)
    requires
        n <= usize::MAX + 1,
        0 <= k < positions_upto(n, p).len(),
        0 <= j,
        p(j),
        positions_upto(n, p)[k] <= j < bound_at(positions_upto(n, p), k + 1, n),
    ensures
        j == positions_upto(n, p)[k],
{
    lemma_positions(n, p);
    let s = positions_upto(n, p);
    assert(s.contains(j as usize));
    let a = choose|a: int| 0 <= a < s.len() && s[a] == j as usize;
    if a < k {
        assert(s[a] < s[k]);
    } else if a > k {
        if k + 1 < a {
            assert(s[k + 1] < s[a]);
        }
    }
}

pub(crate) proof fn lemma_moved_froms(f: Seq<u64>, t: Seq<u64>, n: nat)
    requires
        n <= usize::MAX + 1,
    ensures
        moved_upto(f, t, n).len() == moved_froms(f, t, n).len(),
        forall|a: int|
            0 <= a < moved_upto(f, t, n).len() ==> #[trigger] moved_upto(f, t, n)[a] == move_at(
                f,
                t,
                moved_froms(f, t, n)[a] as int,
            ) && moved_upto(f, t, n)[a].from == moved_froms(f, t, n)[a],
    decreases n,
{
    if n > 0 {
        let m = (n - 1) as nat;
        lemma_moved_froms(f, t, m);
        if is_moved(f, t, m as int) {
            assert(moved_froms(f, t, n) == moved_froms(f, t, m).push(m as usize));
            assert(moved_upto(f, t, n) == moved_upto(f, t, m).push(move_at(f, t, m as int)));
        } else {
            assert(moved_froms(f, t, n) =~= moved_froms(f, t, m));
            assert(moved_upto(f, t, n) =~= moved_upto(f, t, m));
        }
    }
}

} // verus!

verus! {

/// New position `p` receives an old key that is moved there.
pub open spec fn is_target(f: Seq<u64>, t: Seq<u64>, p: int) -> bool {
    &&& 0 <= p < t.len()
    &&& !is_unchanged(f, t, p)
    &&& f.contains(t[p])
}

/// The old position of the key at new position `p`.
pub open spec fn source_of(f: Seq<u64>, t: Seq<u64>, p: int) -> int {
    f.index_of(t[p])
}

pub(crate) proof fn lemma_index_of_unique(s: Seq<u64>, i: int)
    requires
        s.no_duplicates(),
        0 <= i < s.len(),
    ensures
        s.index_of(s[i]) == i,
{
    assert(s.contains(s[i]));
    let k = s.index_of(s[i]);
    assert(0 <= k < s.len() && s[k] == s[i]);
}

pub(crate) proof fn lemma_target_source(f: Seq<u64>, t: Seq<u64>, p: int)
    requires
        f.no_duplicates(),
        t.no_duplicates(),
        t.len() <= usize::MAX,
        is_target(f, t, p),
    ensures
        0 <= source_of(f, t, p) < f.len(),
        f[source_of(f, t, p)] == t[p],
        is_moved(f, t, source_of(f, t, p)),
        move_at(f, t, source_of(f, t, p)).to == p,
{
    let j = source_of(f, t, p);
    assert(0 <= j < f.len() && f[j] == t[p]);
    if j < t.len() && j != p {
        assert(t[j] != t[p]);
    }
    assert(t.contains(f[j]));
    lemma_index_of_unique(t, p);
}

pub(crate) proof fn lemma_moved_target(f: Seq<u64>, t: Seq<u64>, j: int)
    requires
        f.no_duplicates(),
        t.no_duplicates(),
        t.len() <= usize::MAX,
        is_moved(f, t, j),
    ensures
        is_target(f, t, t.index_of(f[j])),
        source_of(f, t, t.index_of(f[j])) == j,
        move_at(f, t, j).to == t.index_of(f[j]),
{
    let p = t.index_of(f[j]);
    assert(0 <= p < t.len() && t[p] == f[j]);
    lemma_index_of_unique(f, j);
    if p < f.len() && f[p] == t[p] {
        assert(p == j);
    }
    assert(f.contains(t[p]));
}

/// Every new position is unchanged, added, or the target of a move.
pub(crate) proof fn lemma_new_position_kinds(f: Seq<u64>, t: Seq<u64>, p: int)
    requires
        0 <= p < t.len(),
    ensures
        is_unchanged(f, t, p) || is_added(f, t, p) || is_target(f, t, p),
        !(is_added(f, t, p) && is_target(f, t, p)),
        !(is_unchanged(f, t, p) && is_added(f, t, p)),
        !(is_unchanged(f, t, p) && is_target(f, t, p)),
{
    if !is_unchanged(f, t, p) && !f.contains(t[p]) {
        assert(item_at(f, p) != item_at(t, p));
    }
    if is_unchanged(f, t, p) {
        assert(f[p] == t[p]);
        assert(f.contains(t[p]));
    }
}

/// Every old position is unchanged, removed, or moved.
pub(crate) proof fn lemma_old_position_kinds(f: Seq<u64>, t: Seq<u64>, j: int)
    requires
        0 <= j < f.len(),
    ensures
        is_unchanged(f, t, j) || is_removed(f, t, j) || is_moved(f, t, j),
        !(is_unchanged(f, t, j) && is_removed(f, t, j)),
        !(is_unchanged(f, t, j) && is_moved(f, t, j)),
        !(is_removed(f, t, j) && is_moved(f, t, j)),
{
}

/// The new list is at most as long as the old one plus its additions.
pub(crate) proof fn lemma_new_len_bound(f: Seq<u64>, t: Seq<u64>)
    requires
        f.no_duplicates(),
        t.no_duplicates(),
        longest_len(f, t) <= usize::MAX + 1,
    ensures
        t.len() <= f.len() + added_upto(f, t, longest_len(f, t)).len(),
{
    let n = longest_len(f, t);
    let ad = added_upto(f, t, n);
    let pa = |i: int| is_added(f, t, i);
    lemma_positions(n, pa);
    let na = Set::new(|i: int| 0 <= i < t.len() && !is_added(f, t, i));
    let ads = Set::new(|i: int| 0 <= i < t.len() && is_added(f, t, i));
    let all = set_int_range(0, t.len() as int);
    vstd::set_lib::lemma_int_range(0, t.len() as int);
    assert(na.union(ads) =~= all);
    assert(na.subset_of(all));
    assert(ads.subset_of(all));
    vstd::set_lib::lemma_len_subset(na, all);
    vstd::set_lib::lemma_len_subset(ads, all);
    assert(na.disjoint(ads));
    vstd::set_lib::lemma_set_disjoint_lens(na, ads);
    // the keys kept in the new list go one to one to old positions
    let g = |i: int| f.index_of(t[i]);
    assert forall|i: int| na.contains(i) implies 0 <= #[trigger] g(i) < f.len() && f[g(i)] == t[i] by {
        lemma_new_position_kinds(f, t, i);
        if is_unchanged(f, t, i) {
            assert(f[i] == t[i]);
            assert(f.contains(t[i]));
        }
    }
    assert(vstd::relations::injective_on(g, na)) by {
        assert forall|x: int, y: int| na.contains(x) && na.contains(y) && #[trigger] g(x) == #[trigger] g(
            y,
        ) implies x == y by {
            assert(t[x] == t[y]);
        }
    }
    let img = na.map(g);
    vstd::set_lib::lemma_map_size(na, img, g);
    let fr = set_int_range(0, f.len() as int);
    vstd::set_lib::lemma_int_range(0, f.len() as int);
    assert(img.subset_of(fr));
    vstd::set_lib::lemma_len_subset(img, fr);
    // the listed additions are exactly the added positions
    let adi = ad.map_values(|x: usize| x as int);
    assert(adi.no_duplicates()) by {
        assert forall|a: int, b: int| 0 <= a < adi.len() && 0 <= b < adi.len() && a != b implies adi[a]
            != adi[b] by {
            if a < b {
                assert(ad[a] < ad[b]);
            } else {
                assert(ad[b] < ad[a]);
            }
        }
    }
    assert(adi.to_set() =~= ads) by {
        assert forall|i: int| ads.contains(i) implies adi.to_set().contains(i) by {
            assert(pa(i));
            assert(ad.contains(i as usize));
            let a = choose|a: int| 0 <= a < ad.len() && ad[a] == i as usize;
            assert(adi[a] == i);
        }
        assert forall|i: int| adi.to_set().contains(i) implies ads.contains(i) by {
            let a = choose|a: int| 0 <= a < adi.len() && adi[a] == i;
            assert(ad[a] < n && pa(ad[a] as int));
        }
    }
    adi.unique_seq_to_set();
}

} // verus!

verus! {

/// No position with the property lies before the first listed one.
pub(crate) proof fn lemma_positions_first(n: nat, p: spec_fn(int) -> bool, j: int)
    requires
        n <= usize::MAX + 1,
        0 <= j < n,
        p(j),
    ensures
        bound_at(positions_upto(n, p), 0, n) <= j,
{
    lemma_positions(n, p);
    let s = positions_upto(n, p);
    assert(s.contains(j as usize));
    let a = choose|a: int| 0 <= a < s.len() && s[a] == j as usize;
    if a > 0 {
        assert(s[0] < s[a]);
    }
}

} // verus!

verus! {

/// Every move of the list moves a single item.
pub open spec fn all_single(s: Seq<DiffOpMove>) -> bool {
    forall|k: int| 0 <= k < s.len() ==> (#[trigger] s[k]).len == 1
}

/// Every move of the list starts and lands below `b` once its items are counted.
pub open spec fn moves_within(s: Seq<DiffOpMove>, b: int) -> bool {
    forall|k: int|
        #![trigger s[k]]
        0 <= k < s.len() ==> s[k].len >= 1 && s[k].from + s[k].len <= b && s[k].to + s[k].len <= b
}

pub(crate) proof fn lemma_move_units_push(s: Seq<DiffOpMove>, m: DiffOpMove)
    ensures
        move_units(s.push(m)) == move_units(s) + m.len,
    decreases s.len(),
{
    if s.len() == 0 {
        assert(s.push(m).drop_first() =~= s);
        assert(s.push(m)[0] == m);
        assert(move_units(s) == 0);
    } else {
        lemma_move_units_push(s.drop_first(), m);
        assert(s.push(m).drop_first() =~= s.drop_first().push(m));
    }
}

pub(crate) proof fn lemma_expand_moves_push(s: Seq<DiffOpMove>, m: DiffOpMove)
    ensures
        expand_moves(s.push(m)) == expand_moves(s) + expand_move(m),
    decreases s.len(),
{
    if s.len() == 0 {
        assert(s.push(m).drop_first() =~= s);
        assert(s.push(m)[0] == m);
        assert(expand_moves(s) == Seq::<DiffOpMove>::empty());
        assert(expand_moves(s.push(m)) =~= expand_move(m));
        assert(expand_moves(s) + expand_move(m) =~= expand_move(m));
    } else {
        lemma_expand_moves_push(s.drop_first(), m);
        assert(s.push(m).drop_first() =~= s.drop_first().push(m));
        assert(expand_moves(s.push(m)) =~= expand_moves(s) + expand_move(m));
    }
}

/// The `k`-th single move of a move starts `k` items further in both lists.
pub(crate) proof fn lemma_expand_move_index(m: DiffOpMove)
    requires
        m.from + m.len <= usize::MAX,
        m.to + m.len <= usize::MAX,
    ensures
        expand_move(m).len() == m.len,
        forall|k: int|
            0 <= k < m.len ==> #[trigger] expand_move(m)[k] == (DiffOpMove {
                from: (m.from + k) as usize,
                to: (m.to + k) as usize,
                len: 1,
                can_ignored: m.can_ignored,
            }),
    decreases m.len,
{
    lemma_expand_move_len(m);
    if m.len > 0 {
        let a = advance(m);
        lemma_expand_move_index(a);
        assert forall|k: int| 0 <= k < m.len implies #[trigger] expand_move(m)[k] == (DiffOpMove {
            from: (m.from + k) as usize,
            to: (m.to + k) as usize,
            len: 1,
            can_ignored: m.can_ignored,
        }) by {
            if k > 0 {
                assert(expand_move(m)[k] == expand_move(a)[k - 1]);
            }
        }
    }
}

pub(crate) proof fn lemma_expand_moves_bounded(s: Seq<DiffOpMove>)
    requires
        moves_within(s, usize::MAX as int),
    ensures
        forall|k: int|
            0 <= k < expand_moves(s).len() ==> (#[trigger] expand_moves(s)[k]).len == 1,
    decreases s.len(),
{
    if s.len() > 0 {
        lemma_expand_move_index(s[0]);
        assert(moves_within(s.drop_first(), usize::MAX as int)) by {
            assert forall|k: int| 0 <= k < s.drop_first().len() implies #[trigger] s.drop_first()[k]
                == s[k + 1] by {}
        }
        lemma_expand_moves_bounded(s.drop_first());
        let e0 = expand_move(s[0]);
        let er = expand_moves(s.drop_first());
        assert forall|k: int| 0 <= k < expand_moves(s).len() implies (#[trigger] expand_moves(
            s,
        )[k]).len == 1 by {
            if k < e0.len() {
                assert(expand_moves(s)[k] == e0[k]);
            } else {
                assert(expand_moves(s)[k] == er[k - e0.len()]);
            }
        }
    }
}

/// Grouping single-item moves keeps the moved items, and the groups stay
/// within the bound of the moves they are made of.
pub(crate) proof fn lemma_group_units(s: Seq<DiffOpMove>, b: int)
    requires
        all_single(s),
        moves_within(s, b),
        b <= usize::MAX,
    ensures
        move_units(group_moves(s)) == s.len(),
        moves_within(group_moves(s), b),
        group_moves(s).len() <= s.len(),
    decreases s.len(),
{
    if s.len() > 0 {
        let d = s.drop_last();
        let m = s.last();
        assert(all_single(d) && moves_within(d, b)) by {
            assert forall|k: int| 0 <= k < d.len() implies #[trigger] d[k] == s[k] by {}
        }
        lemma_group_units(d, b);
        let g = group_moves(d);
        assert(m == s[s.len() - 1]);
        if g.len() > 0 && can_merge(g.last(), m) {
            let p = g.last();
            let q = DiffOpMove { len: (p.len + 1) as usize, ..p };
            assert(g[g.len() - 1] == p);
            assert(g.drop_last().push(p) =~= g);
            assert(g.update(g.len() - 1, q) =~= g.drop_last().push(q));
            lemma_move_units_push(g.drop_last(), p);
            lemma_move_units_push(g.drop_last(), q);
            let g2 = g.update(g.len() - 1, q);
            assert forall|k: int| 0 <= k < g2.len() implies #[trigger] g2[k].len >= 1 && g2[k].from
                + g2[k].len <= b && g2[k].to + g2[k].len <= b by {
                if k < g.len() - 1 {
                    assert(g2[k] == g[k]);
                }
            }
        } else {
            lemma_move_units_push(g, m);
            let g2 = g.push(m);
            assert forall|k: int| 0 <= k < g2.len() implies #[trigger] g2[k].len >= 1 && g2[k].from
                + g2[k].len <= b && g2[k].to + g2[k].len <= b by {
                if k < g.len() {
                    assert(g2[k] == g[k]);
                }
            }
        }
    }
}

/// Grouping adjacent single-item moves (as `combine_move` does) and splitting
/// the groups again (as `unpack_moves` does) gives back as many single-item
/// moves, each from the same old position to the same new position.
#[verifier::spinoff_prover]
#[verifier::rlimit(30)]
pub proof fn grouped_moves_keep_routes(s: Seq<DiffOpMove>)
    requires
        all_single(s),
        moves_within(s, usize::MAX as int),
    ensures
        expand_moves(group_moves(s)).len() == s.len(),
        forall|k: int|
            #![trigger expand_moves(group_moves(s))[k]]
            0 <= k < s.len() ==> expand_moves(group_moves(s))[k].from == s[k].from
                && expand_moves(group_moves(s))[k].to == s[k].to
                && expand_moves(group_moves(s))[k].len == 1,
    decreases s.len(),
{
    lemma_group_units(s, usize::MAX as int);
    lemma_expand_moves_len(group_moves(s));
    if s.len() > 0 {
        let d = s.drop_last();
        let m = s.last();
        assert(all_single(d) && moves_within(d, usize::MAX as int)) by {
            assert forall|k: int| 0 <= k < d.len() implies #[trigger] d[k] == s[k] by {}
        }
        grouped_moves_keep_routes(d);
        lemma_group_units(d, usize::MAX as int);
        let g = group_moves(d);
        let e = expand_moves(g);
        let e2 = expand_moves(group_moves(s));
        assert(m == s[s.len() - 1]);
        if g.len() > 0 && can_merge(g.last(), m) {
            let p = g.last();
            let q = DiffOpMove { len: (p.len + 1) as usize, ..p };
            assert(group_moves(s) == g.update(g.len() - 1, q));
            assert(g[g.len() - 1] == p);
            assert(g.drop_last().push(p) =~= g);
            assert(g.update(g.len() - 1, q) =~= g.drop_last().push(q));
            lemma_expand_moves_push(g.drop_last(), p);
            lemma_expand_moves_push(g.drop_last(), q);
            lemma_expand_move_index(p);
            lemma_group_units(s, usize::MAX as int);
            assert(group_moves(s)[g.len() - 1] == q);
            lemma_expand_move_index(q);
            let pre = expand_moves(g.drop_last());
            assert forall|k: int| 0 <= k < s.len() implies #[trigger] e2[k].from == s[k].from && e2[k].to
                == s[k].to && e2[k].len == 1 by {
                if k < pre.len() {
                    assert(e2[k] == e[k]);
                } else if k < e.len() {
                    assert(e2[k] == expand_move(q)[k - pre.len()]);
                    assert(e[k] == expand_move(p)[k - pre.len()]);
                } else {
                    assert(k == e.len());
                    assert(e2[k] == expand_move(q)[k - pre.len()]);
                    assert(k - pre.len() == p.len);
                }
            }
        } else {
            assert(group_moves(s) == g.push(m));
            lemma_expand_moves_push(g, m);
            lemma_expand_move_index(m);
            assert forall|k: int| 0 <= k < s.len() implies #[trigger] e2[k].from == s[k].from && e2[k].to
                == s[k].to && e2[k].len == 1 by {
                if k < e.len() {
                    assert(e2[k] == e[k]);
                } else {
                    assert(e2[k] == expand_move(m)[0]);
                }
            }
        }
    }
}

} // verus!

verus! {

/// The moves of the moved old keys each move one item, from an old position
/// below `n` to a position of the new list.
pub(crate) proof fn lemma_moved_upto_single(f: Seq<u64>, t: Seq<u64>, n: nat)
    ensures
        all_single(moved_upto(f, t, n)),
        forall|k: int|
            #![trigger moved_upto(f, t, n)[k]]
            0 <= k < moved_upto(f, t, n).len() ==> moved_upto(f, t, n)[k].from < n
                && moved_upto(f, t, n)[k].to < t.len() && moved_upto(f, t, n)[k].from < f.len(),
    decreases n,
{
    if n > 0 {
        let m = (n - 1) as nat;
        lemma_moved_upto_single(f, t, m);
        if is_moved(f, t, m as int) {
            let s = moved_upto(f, t, m);
            let x = move_at(f, t, m as int);
            assert(moved_upto(f, t, n) == s.push(x));
            assert(t.contains(f[m as int]));
            assert(0 <= t.index_of(f[m as int]) < t.len());
            assert forall|k: int| 0 <= k < s.push(x).len() implies (#[trigger] s.push(x)[k]).len == 1 by {
                if k < s.len() {
                    assert(s.push(x)[k] == s[k]);
                }
            }
        } else {
            assert(moved_upto(f, t, n) =~= moved_upto(f, t, m));
        }
    }
}

pub(crate) proof fn lemma_units_prefix(s: Seq<DiffOpMove>, i: int)
    requires
        0 <= i <= s.len(),
    ensures
        move_units(s.take(i)) <= move_units(s),
    decreases s.len() - i,
{
    if i < s.len() {
        lemma_units_prefix(s, i + 1);
        assert(s.take(i + 1) =~= s.take(i).push(s[i]));
        lemma_move_units_push(s.take(i), s[i]);
    } else {
        assert(s.take(i) =~= s);
    }
}

} // verus!

verus! {

/// An old position is removed or moved, never both, and only below the length
/// of the old list.
pub(crate) proof fn lemma_old_kinds_len(f: Seq<u64>, t: Seq<u64>, n: nat)
    ensures
        removed_upto(f, t, n).len() + moved_upto(f, t, n).len() <= f.len(),
        removed_upto(f, t, n).len() + moved_upto(f, t, n).len() <= n,
    decreases n,
{
    if n > 0 {
        let m = (n - 1) as nat;
        lemma_old_kinds_len(f, t, m);
        lemma_old_kinds_len_step(f, t, m);
    }
}

proof fn lemma_old_kinds_len_step(f: Seq<u64>, t: Seq<u64>, m: nat)
    ensures
        removed_upto(f, t, m + 1).len() + moved_upto(f, t, m + 1).len() <= removed_upto(f, t, m).len()
            + moved_upto(f, t, m).len() + if m < f.len() {
            1int
        } else {
            0int
        },
{
    let n = m + 1;
    assert(removed_upto(f, t, n).len() == removed_upto(f, t, m).len() + if is_removed(f, t, m as int) {
        1int
    } else {
        0int
    });
    assert(moved_upto(f, t, n).len() == moved_upto(f, t, m).len() + if is_moved(f, t, m as int) {
        1int
    } else {
        0int
    });
}

/// A new position is added only below the length of the new list.
pub(crate) proof fn lemma_added_len(f: Seq<u64>, t: Seq<u64>, n: nat)
    ensures
        added_upto(f, t, n).len() <= t.len(),
        added_upto(f, t, n).len() <= n,
    decreases n,
{
    if n > 0 {
        let m = (n - 1) as nat;
        lemma_added_len(f, t, m);
        assert(added_upto(f, t, n).len() == added_upto(f, t, m).len() + if is_added(f, t, m as int) {
            1int
        } else {
            0int
        });
        if m >= t.len() {
            assert(!is_added(f, t, m as int));
        }
    }
}

} // verus!

verus! {

/// With no old keys, nothing is removed or moved and every new position below
/// `n` is added.
pub(crate) proof fn lemma_from_empty(f: Seq<u64>, t: Seq<u64>, n: nat)
    requires
        f.len() == 0,
        n <= t.len(),
    ensures
        removed_upto(f, t, n) == Seq::<usize>::empty(),
        moved_upto(f, t, n) == Seq::<DiffOpMove>::empty(),
        added_upto(f, t, n) == Seq::new(n, |i: int| i as usize),
    decreases n,
{
    if n > 0 {
        let m = (n - 1) as nat;
        lemma_from_empty(f, t, m);
        assert(!f.contains(t[m as int]));
        assert(is_added(f, t, m as int));
        assert(added_upto(f, t, n) =~= Seq::new(n, |i: int| i as usize));
        assert(removed_upto(f, t, n) =~= Seq::<usize>::empty());
        assert(moved_upto(f, t, n) =~= Seq::<DiffOpMove>::empty());
    }
}

} // verus!

verus! {

proof fn lemma_same_keys_upto(f: Seq<u64>, n: nat)
    requires
        n <= f.len(),
    ensures
        removed_upto(f, f, n).len() == 0,
        added_upto(f, f, n).len() == 0,
        moved_upto(f, f, n).len() == 0,
        unchanged_upto(f, f, n) == Seq::new(n, |i: int| i as usize),
    decreases n,
{
    if n > 0 {
        let m = (n - 1) as nat;
        lemma_same_keys_upto(f, m);
        assert(is_unchanged(f, f, m as int));
        assert(unchanged_upto(f, f, n) =~= Seq::new(n, |i: int| i as usize));
    }
}

/// Comparing a list of keys with itself finds no change: no removal, no
/// addition, no move, and every position unchanged.
pub proof fn same_keys_have_no_changes(f: Seq<u64>, d: Diff)
    requires
        is_diff_of(f, f, d),
    ensures
        f.len() == 0 ==> d is NoChanged,
        f.len() > 0 ==> (d matches Diff::PartDiff { removed, moved, added, no_changed, .. }
            && removed@.len() == 0 && moved@.len() == 0 && added@.len() == 0 && no_changed@
            == Seq::new(f.len(), |i: int| i as usize)),
{
    lemma_same_keys_upto(f, f.len());
}

pub(crate) proof fn same_keys_have_no_changes_upto(f: Seq<u64>)
    ensures
        removed_upto(f, f, f.len()).len() == 0,
        added_upto(f, f, f.len()).len() == 0,
        moved_upto(f, f, f.len()).len() == 0,
{
    lemma_same_keys_upto(f, f.len());
}

} // verus!

verus! {

/// No two neighbouring moves of the list can be merged.
pub open spec fn none_mergeable(g: Seq<DiffOpMove>) -> bool {
    forall|i: int| 0 <= i < g.len() - 1 ==> !can_merge(#[trigger] g[i], g[i + 1])
}

proof fn lemma_grouped_none_mergeable(s: Seq<DiffOpMove>)
    ensures
        none_mergeable(group_moves(s)),
    decreases s.len(),
{
    if s.len() > 0 {
        lemma_grouped_none_mergeable(s.drop_last());
        let g = group_moves(s.drop_last());
        let m = s.last();
        let r = group_moves(s);
        if g.len() > 0 && can_merge(g.last(), m) {
            assert forall|i: int| 0 <= i < r.len() - 1 implies !can_merge(#[trigger] r[i], r[i + 1]) by {
                assert(r[i] == g[i]);
                if i + 1 < g.len() - 1 {
                    assert(r[i + 1] == g[i + 1]);
                } else {
                    assert(r[i + 1].from == g[i + 1].from && r[i + 1].to == g[i + 1].to);
                }
            }
        } else {
            assert forall|i: int| 0 <= i < r.len() - 1 implies !can_merge(#[trigger] r[i], r[i + 1]) by {
                assert(r[i] == g[i]);
                if i + 1 < g.len() {
                    assert(r[i + 1] == g[i + 1]);
                }
            }
        }
    }
}

proof fn lemma_group_none_mergeable_is_identity(g: Seq<DiffOpMove>)
    requires
        none_mergeable(g),
    ensures
        group_moves(g) == g,
    decreases g.len(),
{
    if g.len() > 0 {
        let d = g.drop_last();
        assert forall|i: int| 0 <= i < d.len() - 1 implies !can_merge(#[trigger] d[i], d[i + 1]) by {
            assert(d[i] == g[i] && d[i + 1] == g[i + 1]);
        }
        lemma_group_none_mergeable_is_identity(d);
        if d.len() > 0 {
            assert(d.last() == g[g.len() - 2]);
            assert(!can_merge(g[g.len() - 2], g[g.len() - 1]));
        }
        assert(d.push(g.last()) =~= g);
    }
}

/// Combining single-item moves (as `diff` makes them) keeps every moved item:
/// the groups count as many items as there were moves and, split again, give
/// back each move's old and new position, in order; and combining the
/// grouped moves again changes nothing.
pub proof fn combine_move_keeps_every_move(s: Seq<DiffOpMove>)
    requires
        all_single(s),
        moves_within(s, usize::MAX as int),
    ensures
        move_units(group_moves(s)) == s.len(),
        expand_moves(group_moves(s)).len() == s.len(),
        forall|k: int|
            #![trigger expand_moves(group_moves(s))[k]]
            0 <= k < s.len() ==> expand_moves(group_moves(s))[k].from == s[k].from
                && expand_moves(group_moves(s))[k].to == s[k].to,
        group_moves(group_moves(s)) == group_moves(s),
{
    lemma_group_units(s, usize::MAX as int);
    grouped_moves_keep_routes(s);
    lemma_grouped_none_mergeable(s);
    lemma_group_none_mergeable_is_identity(group_moves(s));
}

} // verus!

verus! {

/// The key set holding the keys of `keys`, each once, in the order in which
/// they first occur.
pub fn key_set_of(keys: &Vec<u64>) -> (r: FxIndexSet<u64>)
    ensures
        key_set_items(r) == first_occurrences(keys@),
{
    let mut set = key_set_new();
    let mut i: usize = 0;
    while i < keys.len()
        invariant
            i <= keys@.len(),
            key_set_items(set) == first_occurrences(keys@.take(i as int)),
        decreases keys.len() - i,
    {
        key_set_insert(&mut set, keys[i]);
        assert(keys@.take(i + 1).drop_last() == keys@.take(i as int));
        assert(keys@.take(i + 1).last() == keys@[i as int]);
        i = i + 1;
    }
    assert(keys@.take(keys@.len() as int) == keys@);
    set
}

/// Compares two key sets as `diff` does, when each holds at most `i32::MAX`
/// keys; `None` otherwise.
pub fn checked_diff(from: &FxIndexSet<u64>, to: &FxIndexSet<u64>) -> (r: Option<Diff>)
    ensures
        (r is Some) == (key_set_items(*from).len() <= i32::MAX && key_set_items(*to).len() <= i32::MAX),
        r matches Some(d) ==> is_diff_of(key_set_items(*from), key_set_items(*to), d),
{
    if key_set_len(from) <= 0x7fff_ffff && key_set_len(to) <= 0x7fff_ffff {
        Some(diff(from, to))
    } else {
        None
    }
}

/// Compares the keys of two lists, each key taken at its first occurrence,
/// as `diff` does; `None` when either list holds more than `i32::MAX`
/// distinct keys.
pub fn diff_keys(from: &Vec<u64>, to: &Vec<u64>) -> (r: Option<Diff>)
    ensures
        (r is Some) == (first_occurrences(from@).len() <= i32::MAX && first_occurrences(to@).len() <= i32::MAX),
        r matches Some(d) ==> is_diff_of(first_occurrences(from@), first_occurrences(to@), d),
{
    let f = key_set_of(from);
    let t = key_set_of(to);
    checked_diff(&f, &t)
}

} // verus!
