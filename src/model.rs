//! Mathematical model of the store: threads in activity order, each owning its
//! replies, and the flag ledger.

use vstd::prelude::*;
use crate::rows::{FlagKind, FlaggedSpec, MessageSpec, SubmessageSpec};
use crate::text::contains_chars;

verus! {

/// Longest accepted author name, in bytes.
pub const MAX_AUTHOR_LENGTH: usize = 250;

/// Longest accepted post body, in bytes.
pub const MAX_MESSAGE_LENGTH: usize = 4000;

/// Model of a thread together with the replies it owns. `accepted` counts
/// every reply ever accepted on it, so the next ordinal is `accepted + 1`.
pub ghost struct ThreadSpec {
    pub row: MessageSpec,
    pub replies: Seq<SubmessageSpec>,
    pub accepted: int,
}

/// Model of the whole store.
pub ghost struct StoreSpec {
    pub threads: Seq<ThreadSpec>,
    pub flagged: Seq<FlaggedSpec>,
    pub next_msgid: int,
    pub next_entry: int,
}

/// `a` is listed before `b`: more recent activity first, then higher id.
pub open spec fn before(a: MessageSpec, b: MessageSpec) -> bool {
    a.latest_submsg > b.latest_submsg || (a.latest_submsg == b.latest_submsg && a.msgid > b.msgid)
}

pub open spec fn sorted_by_activity(ts: Seq<ThreadSpec>) -> bool {
    forall|i: int, j: int| 0 <= i < j < ts.len() ==> before(#[trigger] ts[i].row, #[trigger] ts[j].row)
}

pub open spec fn ids_unique(ts: Seq<ThreadSpec>) -> bool {
    forall|i: int, j: int|
        0 <= i < ts.len() && 0 <= j < ts.len() && i != j ==> #[trigger] ts[i].row.msgid
            != #[trigger] ts[j].row.msgid
}

/// A post is acceptable when its body is non-empty and both lengths are in bounds.
pub open spec fn valid_post(author_len: int, body_len: int) -> bool {
    author_len <= MAX_AUTHOR_LENGTH && 0 < body_len <= MAX_MESSAGE_LENGTH
}

/// Each reply belongs to its thread; ordinals rise strictly and never pass `accepted`.
pub open spec fn thread_wf(t: ThreadSpec) -> bool {
    &&& 0 <= t.accepted <= i64::MAX
    &&& t.row.time <= t.row.latest_submsg
    &&& forall|k: int|
        0 <= k < t.replies.len() ==> {
            &&& (#[trigger] t.replies[k]).parent_msg == t.row.msgid
            &&& t.replies[k].board == t.row.board
            &&& 1 <= t.replies[k].submsg_id <= t.accepted
        }
    &&& forall|i: int, j: int|
        0 <= i < j < t.replies.len() ==> (#[trigger] t.replies[i]).submsg_id
            < (#[trigger] t.replies[j]).submsg_id
}

pub open spec fn flag_wf(f: FlaggedSpec) -> bool {
    (f.msg_type == FlagKind::Submessage) == f.submsg_index.is_some()
}

impl StoreSpec {
    pub open spec fn wf(&self) -> bool {
        &&& sorted_by_activity(self.threads)
        &&& ids_unique(self.threads)
        &&& 1 <= self.next_msgid <= i64::MAX
        &&& 1 <= self.next_entry <= i64::MAX
        &&& forall|i: int|
            0 <= i < self.threads.len() ==> {
                &&& 1 <= (#[trigger] self.threads[i]).row.msgid < self.next_msgid
                &&& thread_wf(self.threads[i])
            }
        &&& forall|k: int|
            0 <= k < self.flagged.len() ==> {
                &&& 1 <= (#[trigger] self.flagged[k]).entry_id < self.next_entry
                &&& flag_wf(self.flagged[k])
            }
    }
}

/// The threads of board `b`, in store order.
pub open spec fn board_threads(ts: Seq<ThreadSpec>, b: Seq<char>) -> Seq<ThreadSpec>
    decreases ts.len(),
{
    if ts.len() == 0 {
        Seq::empty()
    } else {
        let rest = board_threads(ts.drop_last(), b);
        if ts.last().row.board == b {
            rest.push(ts.last())
        } else {
            rest
        }
    }
}

/// The threads of board `b` whose body contains `needle`, in store order.
pub open spec fn search_threads(ts: Seq<ThreadSpec>, b: Seq<char>, needle: Seq<char>) -> Seq<
    ThreadSpec,
>
    decreases ts.len(),
{
    if ts.len() == 0 {
        Seq::empty()
    } else {
        let rest = search_threads(ts.drop_last(), b, needle);
        if ts.last().row.board == b && contains_chars(ts.last().row.msg, needle) {
            rest.push(ts.last())
        } else {
            rest
        }
    }
}

/// Offset of a 1-based page of `limit` items; page 0 counts as page 1.
pub open spec fn page_offset(page: int, limit: int) -> int {
    if page <= 1 {
        0
    } else {
        (page - 1) * limit
    }
}

/// Index of the last thread of board `b`, or -1.
pub open spec fn last_index_on(ts: Seq<ThreadSpec>, b: Seq<char>) -> int
    decreases ts.len(),
{
    if ts.len() == 0 {
        -1
    } else if ts.last().row.board == b {
        ts.len() - 1
    } else {
        last_index_on(ts.drop_last(), b)
    }
}

pub open spec fn thread_rows(ts: Seq<ThreadSpec>) -> Seq<MessageSpec> {
    ts.map_values(|t: ThreadSpec| t.row)
}

/// The part of `s` that starts at `offset` and holds at most `limit` items.
pub open spec fn window<A>(s: Seq<A>, offset: int, limit: int) -> Seq<A> {
    let lo = if offset < s.len() { offset } else { s.len() as int };
    let hi = if offset + limit < s.len() { offset + limit } else { s.len() as int };
    s.subrange(lo, hi)
}

pub open spec fn has_thread(ts: Seq<ThreadSpec>, id: int) -> bool {
    exists|i: int| 0 <= i < ts.len() && ts[i].row.msgid == id
}

pub open spec fn thread_index(ts: Seq<ThreadSpec>, id: int) -> int {
    choose|i: int| 0 <= i < ts.len() && ts[i].row.msgid == id
}

pub open spec fn thread_of(ts: Seq<ThreadSpec>, id: int) -> ThreadSpec {
    ts[thread_index(ts, id)]
}

/// The replies of thread `id`, empty when there is no such thread.
pub open spec fn replies_of(ts: Seq<ThreadSpec>, id: int) -> Seq<SubmessageSpec> {
    if has_thread(ts, id) {
        thread_of(ts, id).replies
    } else {
        Seq::empty()
    }
}

pub open spec fn has_reply(t: ThreadSpec, ord: int) -> bool {
    exists|k: int| 0 <= k < t.replies.len() && t.replies[k].submsg_id == ord
}

pub open spec fn reply_index(t: ThreadSpec, ord: int) -> int {
    choose|k: int| 0 <= k < t.replies.len() && t.replies[k].submsg_id == ord
}

/// Number of replies over all threads of a sequence.
pub open spec fn reply_total(ts: Seq<ThreadSpec>) -> int
    decreases ts.len(),
{
    if ts.len() == 0 {
        0
    } else {
        reply_total(ts.drop_last()) + ts.last().replies.len()
    }
}

/// Replies of `rs` created strictly after `since`.
pub open spec fn replies_after(rs: Seq<SubmessageSpec>, since: int) -> int
    decreases rs.len(),
{
    if rs.len() == 0 {
        0
    } else {
        replies_after(rs.drop_last(), since) + (if rs.last().time > since {
            1int
        } else {
            0int
        })
    }
}

/// Posts (threads and replies) of `ts` created strictly after `since`.
pub open spec fn posts_after(ts: Seq<ThreadSpec>, since: int) -> int
    decreases ts.len(),
{
    if ts.len() == 0 {
        0
    } else {
        let t = ts.last();
        posts_after(ts.drop_last(), since) + (if t.row.time > since {
            1int
        } else {
            0int
        }) + replies_after(t.replies, since)
    }
}

/// A count as a `u64` reports it: capped at `u64::MAX`.
pub open spec fn saturate(n: int) -> int {
    if n > u64::MAX {
        u64::MAX as int
    } else {
        n
    }
}

/// Why a store operation was refused.
#[derive(Clone, Copy, Debug, PartialEq, Eq, Structural)]
pub enum PostError {
    /// Empty or over-long body, or over-long author.
    ValidationError,
    /// The body repeats the most recent post it is compared with.
    DuplicatePost,
    /// The thread or reply does not exist.
    NotFound,
    /// The store cannot take the row: its ids are used up.
    StoreError,
}

/// A thread as created at time `now`, with no replies yet.
pub open spec fn new_thread(
    id: int,
    board: Seq<char>,
    now: int,
    author: Seq<char>,
    msg: Seq<char>,
    image: Seq<char>,
) -> ThreadSpec {
    ThreadSpec {
        row: MessageSpec {
            msgid: id,
            board,
            time: now,
            author,
            msg,
            image,
            latest_submsg: now,
        },
        replies: Seq::empty(),
        accepted: 0,
    }
}

/// Thread `t` with one more reply accepted at time `now`.
pub open spec fn with_reply(
    t: ThreadSpec,
    now: int,
    author: Seq<char>,
    msg: Seq<char>,
    image: Seq<char>,
) -> ThreadSpec {
    ThreadSpec {
        replies: t.replies.push(
            SubmessageSpec {
                parent_msg: t.row.msgid,
                submsg_id: t.accepted + 1,
                board: t.row.board,
                time: now,
                author,
                submsg: msg,
                image,
            },
        ),
        accepted: t.accepted + 1,
        ..t
    }
}

/// Thread `t` after activity at time `now`; its activity time never moves back.
pub open spec fn touched(t: ThreadSpec, now: int) -> ThreadSpec {
    if now > t.row.latest_submsg {
        ThreadSpec { row: MessageSpec { latest_submsg: now, ..t.row }, ..t }
    } else {
        t
    }
}

/// `new` is `old` with the element at `i` taken out and `t` put back at some place.
pub open spec fn moved(old: Seq<ThreadSpec>, new: Seq<ThreadSpec>, i: int, t: ThreadSpec) -> bool {
    exists|p: int| 0 <= p < old.len() && new == old.remove(i).insert(p, t)
}

/// The media fields of a thread and of its replies, thread first.
pub open spec fn media_of(t: ThreadSpec) -> Seq<Seq<char>> {
    seq![t.row.image] + t.replies.map_values(|r: SubmessageSpec| r.image)
}

/// The threads that the ledger flags, in ledger order, dangling entries left out.
pub open spec fn flagged_threads(fs: Seq<FlaggedSpec>, ts: Seq<ThreadSpec>) -> Seq<MessageSpec>
    decreases fs.len(),
{
    if fs.len() == 0 {
        Seq::empty()
    } else {
        let rest = flagged_threads(fs.drop_last(), ts);
        let f = fs.last();
        if f.msg_type == FlagKind::Message && has_thread(ts, f.msgid) {
            rest.push(thread_of(ts, f.msgid).row)
        } else {
            rest
        }
    }
}

/// The replies that the ledger flags, in ledger order, dangling entries left out.
pub open spec fn flagged_replies(fs: Seq<FlaggedSpec>, ts: Seq<ThreadSpec>) -> Seq<SubmessageSpec>
    decreases fs.len(),
{
    if fs.len() == 0 {
        Seq::empty()
    } else {
        let rest = flagged_replies(fs.drop_last(), ts);
        let f = fs.last();
        if f.msg_type == FlagKind::Submessage && f.submsg_index.is_some() && has_thread(
            ts,
            f.msgid,
        ) && has_reply(thread_of(ts, f.msgid), f.submsg_index.unwrap()) {
            let t = thread_of(ts, f.msgid);
            rest.push(t.replies[reply_index(t, f.submsg_index.unwrap())])
        } else {
            rest
        }
    }
}

} // verus!
