//! Properties of the store that relate several operations or hold of every state.

use vstd::prelude::*;
use crate::lemmas::lemma_board_threads_sorted;
use crate::model::{
    before, board_threads, has_thread, replies_of, thread_index, thread_of, thread_wf,
    valid_post, PostError, StoreSpec, ThreadSpec,
};
use crate::posting::{replied, reply_verdict};
use crate::rows::SubmessageSpec;

verus! {

proof fn lemma_ordinal_floor(rs: Seq<SubmessageSpec>, k: int)
    requires
        0 <= k < rs.len(),
        forall|j: int| 0 <= j < rs.len() ==> 1 <= #[trigger] rs[j].submsg_id,
        forall|a: int, b: int| 0 <= a < b < rs.len() ==> (#[trigger] rs[a]).submsg_id < (#[trigger] rs[b]).submsg_id,
    ensures
        rs[k].submsg_id >= k + 1,
    decreases k,
{
    if k > 0 {
        lemma_ordinal_floor(rs, k - 1);
    }
}

proof fn lemma_ordinal_ceiling(rs: Seq<SubmessageSpec>, k: int, n: int)
    requires
        0 <= k < rs.len(),
        forall|j: int| 0 <= j < rs.len() ==> #[trigger] rs[j].submsg_id <= n,
        forall|a: int, b: int| 0 <= a < b < rs.len() ==> (#[trigger] rs[a]).submsg_id < (#[trigger] rs[b]).submsg_id,
    ensures
        rs[k].submsg_id <= n - (rs.len() - 1 - k),
    decreases rs.len() - k,
{
    if k < rs.len() - 1 {
        lemma_ordinal_ceiling(rs, k + 1, n);
    }
}

/// Reply ordinals have no gaps: while no reply of a thread has been purged, its
/// replies carry exactly the ordinals `1..N`, in order, where `N` is the number of
/// replies it accepted.
pub proof fn reply_ordinals_are_contiguous(s: StoreSpec, id: int)
    requires
        s.wf(),
        has_thread(s.threads, id),
        replies_of(s.threads, id).len() == thread_of(s.threads, id).accepted,
    ensures
        forall|k: int|
            0 <= k < replies_of(s.threads, id).len() ==> #[trigger] replies_of(s.threads, id)[k].submsg_id
                == k + 1,
{
    let i = thread_index(s.threads, id);
    let t = s.threads[i];
    assert(thread_wf(t));
    let rs = t.replies;
    assert forall|k: int| 0 <= k < rs.len() implies #[trigger] rs[k].submsg_id == k + 1 by {
        lemma_ordinal_floor(rs, k);
        lemma_ordinal_ceiling(rs, k, t.accepted);
    }
}

/// A reply bumps its thread exactly when the thread then has at most `bumplimit`
/// replies and the reply is not silent: the activity time then rises strictly to
/// the reply's time, which is later than the thread's activity; otherwise it stays.
pub proof fn bump_follows_reply_count(
    t: ThreadSpec,
    bumplimit: int,
    silent: bool,
    now: int,
    author: Seq<char>,
    msg: Seq<char>,
    image: Seq<char>,
)
    requires
        now > t.row.latest_submsg,
    ensures
        ({
            let after = replied(t, bumplimit, silent, now, author, msg, image);
            &&& t.replies.len() + 1 <= bumplimit && !silent ==> after.row.latest_submsg == now
                && after.row.latest_submsg > t.row.latest_submsg
            &&& !(t.replies.len() + 1 <= bumplimit && !silent) ==> after.row.latest_submsg
                == t.row.latest_submsg
        }),
{
}

/// Posting the same reply body twice in a row to a thread: the first is accepted,
/// the second refused as a duplicate, and a different body after that is accepted
/// (as long as the thread's ordinals are not used up).
pub proof fn repeated_reply_is_refused(
    s1: StoreSpec,
    s2: StoreSpec,
    parent: int,
    bumplimit: int,
    silent: bool,
    now: int,
    author: Seq<char>,
    author_len: int,
    body: Seq<char>,
    body_len: int,
    image: Seq<char>,
    other_body: Seq<char>,
    other_len: int,
)
    requires
        s1.wf(),
        s2.wf(),
        reply_verdict(s1, parent, author_len, body, body_len) is None,
        has_thread(s2.threads, parent),
        thread_of(s2.threads, parent) == replied(
            thread_of(s1.threads, parent),
            bumplimit,
            silent,
            now,
            author,
            body,
            image,
        ),
        other_body != body,
        valid_post(author_len, other_len),
        thread_of(s1.threads, parent).accepted + 1 < i64::MAX,
    ensures
        reply_verdict(s2, parent, author_len, body, body_len) == Some(PostError::DuplicatePost),
        reply_verdict(s2, parent, author_len, other_body, other_len) is None,
{
    let t2 = thread_of(s2.threads, parent);
    assert(replies_of(s2.threads, parent) == t2.replies);
    assert(t2.replies.last().submsg == body);
}

/// Purging a thread removes it with all its replies, so that a second purge of the
/// same id finds nothing.
pub proof fn purge_is_final(s1: StoreSpec, s2: StoreSpec, id: int)
    requires
        s1.wf(),
        has_thread(s1.threads, id),
        s2.threads == s1.threads.remove(thread_index(s1.threads, id)),
    ensures
        !has_thread(s2.threads, id),
        replies_of(s2.threads, id).len() == 0,
{
    let i = thread_index(s1.threads, id);
    if has_thread(s2.threads, id) {
        let j = choose|j: int| 0 <= j < s2.threads.len() && s2.threads[j].row.msgid == id;
        let oj = if j < i { j } else { j + 1 };
        assert(s2.threads[j] == s1.threads[oj]);
        assert(s1.threads[i].row.msgid == id);
    }
}

/// The thread that eviction removes from a board, its last in activity order, is
/// the least active one: every other thread of the board was active later, or at
/// the same time with a higher id.
pub proof fn evicted_thread_is_least_active(s: StoreSpec, b: Seq<char>)
    requires
        s.wf(),
        board_threads(s.threads, b).len() > 0,
    ensures
        forall|k: int|
            0 <= k < board_threads(s.threads, b).len() - 1 ==> before(
                #[trigger] board_threads(s.threads, b)[k].row,
                board_threads(s.threads, b).last().row,
            ),
{
    lemma_board_threads_sorted(s.threads, b);
}

} // verus!
