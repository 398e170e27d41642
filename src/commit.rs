use vstd::prelude::*;
use crate::cell::Cell;
use crate::species::Species;
use crate::universe::{Move, count_of, lemma_count_update};
use crate::utils::{random_below, RANDOM_BOUND_MAX};

verus! {

broadcast use vstd::seq_lib::group_to_multiset_ensures;

/// A move into slot `m.0` may go ahead: that slot holds nothing, or water.
pub open spec fn enterable(cells: Seq<Cell>, m: Move) -> bool {
    cells[m.0 as int].specie == Species::Empty || cells[m.0 as int].specie == Species::Water
}

pub open spec fn enterable_in(cells: Seq<Cell>) -> spec_fn(Move) -> bool {
    |m: Move| enterable(cells, m)
}

/// The staged moves that survive the first step of a commit, in staging order.
pub open spec fn admitted(cells: Seq<Cell>, moves: Seq<Move>) -> Seq<Move> {
    moves.filter(enterable_in(cells))
}

pub open spec fn sorted_by_destination(s: Seq<Move>) -> bool {
    forall|a: int, b: int| 0 <= a < b < s.len() ==> s[a].0 <= s[b].0
}

/// Some move of `w` goes to slot `d`.
pub open spec fn has_destination(w: Seq<Move>, d: usize) -> bool {
    exists|k: int| 0 <= k < w.len() && w[k].0 == d
}

/// `w` keeps exactly one of the candidate moves for each destination that
/// some candidate names, in ascending order of destination.
pub open spec fn is_selection(cands: Seq<Move>, w: Seq<Move>) -> bool {
    &&& forall|k: int| 0 <= k < w.len() ==> cands.contains(#[trigger] w[k])
    &&& forall|a: int, b: int| 0 <= a < b < w.len() ==> w[a].0 < w[b].0
    &&& forall|i: int| 0 <= i < cands.len() ==> #[trigger] has_destination(w, cands[i].0)
}

/// Carrying out move `m`: the contents of its two slots are swapped.
pub open spec fn apply_move(cells: Seq<Cell>, m: Move) -> Seq<Cell> {
    cells.update(m.1 as int, cells[m.0 as int]).update(m.0 as int, cells[m.1 as int])
}

/// Carrying out the moves of `w` in order.
pub open spec fn apply_moves(cells: Seq<Cell>, w: Seq<Move>) -> Seq<Cell>
    decreases w.len(),
{
    if w.len() == 0 {
        cells
    } else {
        apply_move(apply_moves(cells, w.drop_last()), w.last())
    }
}

pub proof fn lemma_apply_move_counts(cells: Seq<Cell>, m: Move, s: Species)
    requires
        m.0 < cells.len(),
        m.1 < cells.len(),
    ensures
        count_of(apply_move(cells, m), s) == count_of(cells, s),
{
    let c1 = cells.update(m.1 as int, cells[m.0 as int]);
    lemma_count_update(cells, m.1 as int, cells[m.0 as int], s);
    lemma_count_update(c1, m.0 as int, cells[m.1 as int], s);
}

/// A swap rearranges the cells: it creates and erases none.
pub proof fn lemma_apply_move_permutes(cells: Seq<Cell>, m: Move)
    requires
        m.0 < cells.len(),
        m.1 < cells.len(),
    ensures
        apply_move(cells, m).to_multiset() == cells.to_multiset(),
{
    broadcast use vstd::multiset::group_multiset_axioms;

    let c1 = cells.update(m.1 as int, cells[m.0 as int]);
    assert(c1.to_multiset() == cells.to_multiset().insert(cells[m.0 as int]).remove(cells[m.1 as int]));
    assert(apply_move(cells, m).to_multiset() == c1.to_multiset().insert(cells[m.1 as int]).remove(
        c1[m.0 as int],
    ));
    assert(apply_move(cells, m).to_multiset() =~= cells.to_multiset());
}

/// The staged moves whose destination may be entered, in staging order.
pub fn admitted_moves(cells: &Vec<Cell>, moves: &Vec<Move>) -> (r: Vec<Move>)
    requires
        forall|k: int| 0 <= k < moves@.len() ==> (#[trigger] moves@[k]).0 < cells@.len(),
    ensures
        r@ == admitted(cells@, moves@),
{
    let mut r: Vec<Move> = Vec::new();
    let mut i: usize = 0;
    while i < moves.len()
        invariant
            i <= moves.len(),
            forall|k: int| 0 <= k < moves@.len() ==> (#[trigger] moves@[k]).0 < cells@.len(),
            r@ == moves@.take(i as int).filter(enterable_in(cells@)),
        decreases moves.len() - i,
    {
        let m = moves[i];
        proof {
            assert(moves@.take(i + 1) =~= moves@.take(i as int).push(m));
            moves@.take(i as int).lemma_filter_push(m, enterable_in(cells@));
        }
        let s = cells[m.0].specie;
        if s == Species::Empty || s == Species::Water {
            r.push(m);
        }
        i += 1;
    }
    assert(moves@.take(moves.len() as int) =~= moves@);
    r
}

/// The moves of `v` in ascending order of destination.
pub fn sort_by_destination(v: &Vec<Move>) -> (r: Vec<Move>)
    ensures
        sorted_by_destination(r@),
        r@.to_multiset() == v@.to_multiset(),
{
    let mut r: Vec<Move> = Vec::new();
    let mut i: usize = 0;
    while i < v.len()
        invariant
            i <= v.len(),
            sorted_by_destination(r@),
            r@.to_multiset() == v@.take(i as int).to_multiset(),
        decreases v.len() - i,
    {
        let e = v[i];
        let mut p: usize = 0;
        while p < r.len() && r[p].0 <= e.0
            invariant
                p <= r.len(),
                forall|k: int| 0 <= k < p ==> (#[trigger] r@[k]).0 <= e.0,
            decreases r.len() - p,
        {
            p += 1;
        }
        let ghost before = r@;
        r.insert(p, e);
        proof {
            assert(forall|k: int| p <= k < before.len() ==> (#[trigger] before[k]).0 > e.0) by {
                assert forall|k: int| p <= k < before.len() implies (#[trigger] before[k]).0 > e.0 by {
                    assert(before[p as int].0 > e.0);
                    assert(before[p as int].0 <= before[k].0);
                }
            }
            assert forall|k: int| 0 <= k < r@.len() implies #[trigger] r@[k] == if k < p {
                before[k]
            } else if k == p {
                e
            } else {
                before[k - 1]
            } by {}
            assert(v@.take(i + 1) =~= v@.take(i as int).push(e));
        }
        i += 1;
    }
    assert(v@.take(v.len() as int) =~= v@);
    r
}

/// One move for each destination named in `sorted`, drawn uniformly at
/// random among the moves to that destination.
pub fn pick_winners(sorted: &Vec<Move>) -> (w: Vec<Move>)
    requires
        sorted_by_destination(sorted@),
    ensures
        is_selection(sorted@, w@),
{
    let n = sorted.len();
    let mut w: Vec<Move> = Vec::new();
    let mut start: usize = 0;
    while start < n
        invariant
            start <= n,
            n == sorted.len(),
            sorted_by_destination(sorted@),
            forall|k: int| 0 <= k < w.len() ==> sorted@.contains(#[trigger] w@[k]),
            forall|a: int, b: int| 0 <= a < b < w.len() ==> w@[a].0 < w@[b].0,
            forall|i: int| 0 <= i < start ==> #[trigger] has_destination(w@, sorted@[i].0),
            start > 0 ==> w.len() > 0 && w@.last().0 == sorted@[start - 1].0,
            start == 0 ==> w.len() == 0,
            0 < start < n ==> sorted@[start - 1].0 != sorted@[start as int].0,
        decreases n - start,
    {
        let d = sorted[start].0;
        let mut end: usize = start + 1;
        while end < n && sorted[end].0 == d
            invariant
                start < end <= n,
                n == sorted.len(),
                d == sorted@[start as int].0,
                forall|i: int| start <= i < end ==> (#[trigger] sorted@[i]).0 == d,
            decreases n - end,
        {
            end += 1;
        }
        let k = end - start;
        let bound = if k < RANDOM_BOUND_MAX {
            k
        } else {
            RANDOM_BOUND_MAX
        };
        let p = start + random_below(bound);
        let ghost before = w@;
        w.push(sorted[p]);
        proof {
            if start > 0 {
                assert(sorted@[start - 1].0 <= sorted@[start as int].0);
            }
            assert(w@[w.len() - 1] == sorted@[p as int]);
            assert(sorted@.contains(sorted@[p as int]));
            assert forall|i: int| 0 <= i < end implies #[trigger] has_destination(w@, sorted@[i].0) by {
                if i < start {
                    assert(has_destination(before, sorted@[i].0));
                    let k0 = choose|k: int| 0 <= k < before.len() && before[k].0 == sorted@[i].0;
                    assert(w@[k0] == before[k0]);
                } else {
                    assert(w@[w.len() - 1].0 == sorted@[i].0);
                }
            }
            if end < n {
                assert(sorted@[end - 1].0 == d);
            }
        }
        start = end;
    }
    w
}

/// A selection among `s` is one among any `f` with the same moves.
pub proof fn lemma_selection_same_moves(s: Seq<Move>, f: Seq<Move>, w: Seq<Move>)
    requires
        is_selection(s, w),
        s.to_multiset() == f.to_multiset(),
    ensures
        is_selection(f, w),
{
    assert forall|k: int| 0 <= k < w.len() implies f.contains(#[trigger] w[k]) by {
        assert(s.contains(w[k]));
        assert(s.to_multiset().count(w[k]) > 0);
        assert(f.to_multiset().count(w[k]) > 0);
    }
    assert forall|i: int| 0 <= i < f.len() implies #[trigger] has_destination(w, f[i].0) by {
        assert(f.contains(f[i]));
        assert(f.to_multiset().count(f[i]) > 0);
        assert(s.to_multiset().count(f[i]) > 0);
        assert(s.contains(f[i]));
        let j = choose|j: int| 0 <= j < s.len() && s[j] == f[i];
        assert(s[j].0 == f[i].0);
        assert(has_destination(w, s[j].0));
    }
}

/// Of two moves of different cells into one slot that may be entered, a
/// commit carries out exactly one: the outcome is that move alone, and the
/// other mover's cell is left as it was.
pub proof fn lemma_commit_fairness(
    cells: Seq<Cell>,
    d: usize,
    s1: usize,
    s2: usize,
    w: Seq<Move>,
)
    requires
        d < cells.len(),
        s1 < cells.len(),
        s2 < cells.len(),
        s1 != s2,
        d != s1,
        d != s2,
        enterable(cells, (d, s1)),
        is_selection(admitted(cells, seq![(d, s1), (d, s2)]), w),
    ensures
        ({
            let out = apply_moves(cells, w);
            ||| out[d as int] == cells[s1 as int] && out[s1 as int] == cells[d as int] && out[s2 as int]
                == cells[s2 as int] && out == apply_move(cells, (d, s1))
            ||| out[d as int] == cells[s2 as int] && out[s2 as int] == cells[d as int] && out[s1 as int]
                == cells[s1 as int] && out == apply_move(cells, (d, s2))
        }),
{
    let a: Move = (d, s1);
    let b: Move = (d, s2);
    let p = enterable_in(cells);
    assert(seq![a, b] =~= Seq::<Move>::empty().push(a).push(b));
    Seq::<Move>::empty().lemma_filter_push(a, p);
    Seq::<Move>::empty().push(a).lemma_filter_push(b, p);
    assert(Seq::<Move>::empty().filter(p) =~= Seq::<Move>::empty()) by {
        reveal(Seq::filter);
    }
    let f = admitted(cells, seq![a, b]);
    assert(f =~= seq![a, b]);
    assert(has_destination(w, f[0].0));
    assert(w.len() >= 1);
    if w.len() > 1 {
        assert(f.contains(w[0]));
        assert(f.contains(w[1]));
        assert(w[0].0 < w[1].0);
    }
    assert(w.len() == 1);
    assert(f.contains(w[0]));
    assert(w.drop_last() =~= Seq::<Move>::empty());
    assert(apply_moves(cells, w.drop_last()) == cells);
    assert(w.last() == w[0]);
    assert(apply_moves(cells, w) == apply_move(cells, w[0]));
}

} // verus!
