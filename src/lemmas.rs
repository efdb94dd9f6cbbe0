//! Facts about the board-wise view of the thread sequence.

use vstd::prelude::*;
use crate::model::{
    before, board_threads, ids_unique, has_thread, last_index_on, moved, sorted_by_activity,
    thread_index, thread_of, ThreadSpec,
};

verus! {

pub proof fn lemma_board_threads_concat(a: Seq<ThreadSpec>, b: Seq<ThreadSpec>, c: Seq<char>)
    ensures
        board_threads(a + b, c) == board_threads(a, c) + board_threads(b, c),
    decreases b.len(),
{
    if b.len() == 0 {
        assert(a + b =~= a);
        assert(board_threads(a, c) + board_threads(b, c) =~= board_threads(a, c));
    } else {
        assert((a + b).drop_last() =~= a + b.drop_last());
        lemma_board_threads_concat(a, b.drop_last(), c);
        assert((a + b).last() == b.last());
        if b.last().row.board == c {
            assert(board_threads(a, c) + board_threads(b.drop_last(), c).push(b.last())
                =~= (board_threads(a, c) + board_threads(b.drop_last(), c)).push(b.last()));
        }
    }
}

pub proof fn lemma_board_threads_single(t: ThreadSpec, c: Seq<char>)
    ensures
        board_threads(seq![t], c) == (if t.row.board == c {
            seq![t]
        } else {
            Seq::<ThreadSpec>::empty()
        }),
{
    assert(seq![t].drop_last() =~= Seq::<ThreadSpec>::empty());
    assert(board_threads(Seq::<ThreadSpec>::empty(), c) =~= Seq::<ThreadSpec>::empty());
    assert(seq![t].last() == t);
    assert(Seq::<ThreadSpec>::empty().push(t) =~= seq![t]);
}

pub proof fn lemma_board_threads_take(ts: Seq<ThreadSpec>, i: int, c: Seq<char>)
    requires
        0 <= i < ts.len(),
    ensures
        board_threads(ts.take(i + 1), c) == (if ts[i].row.board == c {
            board_threads(ts.take(i), c).push(ts[i])
        } else {
            board_threads(ts.take(i), c)
        }),
{
    assert(ts.take(i + 1).drop_last() =~= ts.take(i));
    assert(ts.take(i + 1).last() == ts[i]);
}

/// Elements of the board-wise view lie on the board and come from the sequence.
pub proof fn lemma_board_threads_members(ts: Seq<ThreadSpec>, c: Seq<char>)
    ensures
        board_threads(ts, c).len() <= ts.len(),
        forall|k: int|
            0 <= k < board_threads(ts, c).len() ==> (#[trigger] board_threads(ts, c)[k]).row.board
                == c && ts.contains(board_threads(ts, c)[k]),
    decreases ts.len(),
{
    if ts.len() > 0 {
        lemma_board_threads_members(ts.drop_last(), c);
        let r = board_threads(ts.drop_last(), c);
        assert forall|k: int| 0 <= k < board_threads(ts, c).len() implies (
        #[trigger] board_threads(ts, c)[k]).row.board == c && ts.contains(
            board_threads(ts, c)[k],
        ) by {
            if k < r.len() {
                assert(board_threads(ts, c)[k] == r[k]);
                let j = choose|j: int| 0 <= j < ts.drop_last().len() && ts.drop_last()[j] == r[k];
                assert(ts[j] == r[k]);
            } else {
                assert(board_threads(ts, c)[k] == ts.last());
                assert(ts[ts.len() - 1] == ts.last());
            }
        }
    }
}

/// No element on the board: the board-wise view is empty.
pub proof fn lemma_board_threads_none(ts: Seq<ThreadSpec>, c: Seq<char>)
    requires
        forall|k: int| 0 <= k < ts.len() ==> (#[trigger] ts[k]).row.board != c,
    ensures
        board_threads(ts, c) == Seq::<ThreadSpec>::empty(),
    decreases ts.len(),
{
    if ts.len() > 0 {
        lemma_board_threads_none(ts.drop_last(), c);
        assert(ts[ts.len() - 1] == ts.last());
    }
}

/// The board-wise view of a sorted sequence is sorted.
pub proof fn lemma_board_threads_sorted(ts: Seq<ThreadSpec>, c: Seq<char>)
    requires
        sorted_by_activity(ts),
    ensures
        sorted_by_activity(board_threads(ts, c)),
    decreases ts.len(),
{
    if ts.len() > 0 {
        let d = ts.drop_last();
        assert(sorted_by_activity(d)) by {
            assert forall|i: int, j: int| 0 <= i < j < d.len() implies before(
                #[trigger] d[i].row,
                #[trigger] d[j].row,
            ) by {
                assert(d[i] == ts[i] && d[j] == ts[j]);
            }
        }
        lemma_board_threads_sorted(d, c);
        lemma_board_threads_members(d, c);
        let r = board_threads(d, c);
        if ts.last().row.board == c {
            let s = r.push(ts.last());
            assert forall|i: int, j: int| 0 <= i < j < s.len() implies before(
                #[trigger] s[i].row,
                #[trigger] s[j].row,
            ) by {
                if j < r.len() {
                    assert(s[i] == r[i] && s[j] == r[j]);
                } else {
                    assert(s[i] == r[i]);
                    assert(d.contains(r[i]));
                    let k = choose|k: int| 0 <= k < d.len() && d[k] == r[i];
                    assert(ts[k] == d[k]);
                    assert(ts[ts.len() - 1] == ts.last());
                }
            }
        }
    }
}

/// Inserting `t` changes the count of its own board by one and no other board.
pub proof fn lemma_board_threads_insert(ts: Seq<ThreadSpec>, p: int, t: ThreadSpec, c: Seq<char>)
    requires
        0 <= p <= ts.len(),
    ensures
        board_threads(ts.insert(p, t), c).len() == board_threads(ts, c).len() + (if t.row.board
            == c {
            1int
        } else {
            0int
        }),
        t.row.board != c ==> board_threads(ts.insert(p, t), c) == board_threads(ts, c),
{
    let a = ts.take(p);
    let b = ts.skip(p);
    assert(ts =~= a + b);
    assert(ts.insert(p, t) =~= (a + seq![t]) + b);
    lemma_board_threads_concat(a, b, c);
    lemma_board_threads_concat(a + seq![t], b, c);
    lemma_board_threads_concat(a, seq![t], c);
    lemma_board_threads_single(t, c);
    if t.row.board != c {
        assert(board_threads(a, c) + Seq::<ThreadSpec>::empty() =~= board_threads(a, c));
    }
}

/// Removing the element at `p` changes the count of its board by one and no other board.
pub proof fn lemma_board_threads_remove(ts: Seq<ThreadSpec>, p: int, c: Seq<char>)
    requires
        0 <= p < ts.len(),
    ensures
        board_threads(ts.remove(p), c).len() + (if ts[p].row.board == c {
            1int
        } else {
            0int
        }) == board_threads(ts, c).len(),
        ts[p].row.board != c ==> board_threads(ts.remove(p), c) == board_threads(ts, c),
{
    let a = ts.take(p);
    let b = ts.skip(p + 1);
    assert(ts.remove(p) =~= a + b);
    assert(ts =~= (a + seq![ts[p]]) + b);
    lemma_board_threads_concat(a, b, c);
    lemma_board_threads_concat(a + seq![ts[p]], b, c);
    lemma_board_threads_concat(a, seq![ts[p]], c);
    lemma_board_threads_single(ts[p], c);
    if ts[p].row.board != c {
        assert(board_threads(a, c) + Seq::<ThreadSpec>::empty() =~= board_threads(a, c));
    }
}

/// Removing an element and putting another back in its place keeps every board's view
/// but the boards of the two.
pub proof fn lemma_board_threads_replace(
    ts: Seq<ThreadSpec>,
    i: int,
    p: int,
    t: ThreadSpec,
    c: Seq<char>,
)
    requires
        0 <= i < ts.len(),
        0 <= p < ts.len(),
        t.row.board == ts[i].row.board,
    ensures
        board_threads(ts.remove(i).insert(p, t), c).len() == board_threads(ts, c).len(),
        t.row.board != c ==> board_threads(ts.remove(i).insert(p, t), c) == board_threads(ts, c),
{
    lemma_board_threads_remove(ts, i, c);
    lemma_board_threads_insert(ts.remove(i), p, t, c);
}

/// Where the last thread of a board stands.
pub proof fn lemma_last_index_on(ts: Seq<ThreadSpec>, c: Seq<char>)
    ensures
        -1 <= last_index_on(ts, c) < ts.len(),
        (last_index_on(ts, c) == -1) == (board_threads(ts, c).len() == 0),
        last_index_on(ts, c) >= 0 ==> {
            let p = last_index_on(ts, c);
            &&& ts[p].row.board == c
            &&& board_threads(ts, c).last() == ts[p]
            &&& board_threads(ts.remove(p), c) == board_threads(ts, c).drop_last()
        },
        forall|q: int| last_index_on(ts, c) < q < ts.len() ==> (#[trigger] ts[q]).row.board != c,
    decreases ts.len(),
{
    if ts.len() > 0 {
        let d = ts.drop_last();
        lemma_last_index_on(d, c);
        let p = last_index_on(ts, c);
        if ts.last().row.board == c {
            assert(ts.remove(p) =~= d);
            assert(ts[ts.len() - 1] == ts.last());
        } else {
            assert(ts[ts.len() - 1] == ts.last());
            if p >= 0 {
                assert(d[p] == ts[p]);
                assert(ts.remove(p).drop_last() =~= d.remove(p));
                assert(ts.remove(p).last() == ts.last());
            }
        }
        assert forall|q: int| last_index_on(ts, c) < q < ts.len() implies (
        #[trigger] ts[q]).row.board != c by {
            if q < ts.len() - 1 {
                assert(d[q] == ts[q]);
            }
        }
    }
}

/// With unique ids, the chosen index of an id is the one that holds it.
pub proof fn lemma_thread_index(ts: Seq<ThreadSpec>, i: int)
    requires
        ids_unique(ts),
        0 <= i < ts.len(),
    ensures
        has_thread(ts, ts[i].row.msgid),
        thread_index(ts, ts[i].row.msgid) == i,
{
    assert(has_thread(ts, ts[i].row.msgid));
    let j = thread_index(ts, ts[i].row.msgid);
    assert(ts[j].row.msgid == ts[i].row.msgid);
}


/// After a thread is taken out and put back changed, a lookup of its id finds the
/// changed thread and a lookup of any other id finds what it found before.
pub proof fn lemma_moved_lookup(old: Seq<ThreadSpec>, new: Seq<ThreadSpec>, i: int, t: ThreadSpec)
    requires
        ids_unique(old),
        ids_unique(new),
        0 <= i < old.len(),
        old[i].row.msgid == t.row.msgid,
        moved(old, new, i, t),
    ensures
        has_thread(new, t.row.msgid),
        thread_of(new, t.row.msgid) == t,
        new.len() == old.len(),
        forall|id: int|
            id != t.row.msgid ==> (#[trigger] has_thread(new, id) == has_thread(old, id)),
        forall|id: int|
            id != t.row.msgid && has_thread(old, id) ==> #[trigger] thread_of(new, id) == thread_of(
                old,
                id,
            ),
{
    let p = choose|p: int| 0 <= p < old.len() && new == old.remove(i).insert(p, t);
    let r = old.remove(i);
    assert(new[p] == t);
    lemma_thread_index(new, p);
    assert forall|id: int| id != t.row.msgid implies (#[trigger] has_thread(new, id) == has_thread(
        old,
        id,
    )) by {
        if has_thread(new, id) {
            let j = choose|j: int| 0 <= j < new.len() && new[j].row.msgid == id;
            let rj = if j < p { j } else { j - 1 };
            let oj = if rj < i { rj } else { rj + 1 };
            assert(new[j] == old[oj]);
        }
        if has_thread(old, id) {
            let oj = choose|j: int| 0 <= j < old.len() && old[j].row.msgid == id;
            assert(oj != i);
            let rj = if oj < i { oj } else { oj - 1 };
            let j = if rj < p { rj } else { rj + 1 };
            assert(new[j] == old[oj]);
        }
    }
    assert forall|id: int| id != t.row.msgid && has_thread(old, id) implies #[trigger] thread_of(
        new,
        id,
    ) == thread_of(old, id) by {
        let oj = thread_index(old, id);
        assert(oj != i);
        let rj = if oj < i { oj } else { oj - 1 };
        let j = if rj < p { rj } else { rj + 1 };
        assert(new[j] == old[oj]);
        lemma_thread_index(new, j);
        lemma_thread_index(old, oj);
    }
}

} // verus!
