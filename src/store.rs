//! The post store: threads kept in activity order, each owning its replies,
//! and the append-only flag ledger.

use vstd::prelude::*;
use crate::lemmas::{
    lemma_board_threads_concat, lemma_board_threads_members, lemma_board_threads_none,
    lemma_board_threads_single, lemma_board_threads_take, lemma_last_index_on, lemma_thread_index,
};
use crate::model::{
    before, board_threads, flagged_replies, flagged_threads, has_reply, has_thread,
    last_index_on, media_of, moved, new_thread, page_offset, posts_after, replies_after,
    replies_of, reply_index, reply_total, saturate, search_threads, sorted_by_activity,
    thread_index, thread_of, thread_rows, thread_wf, touched, valid_post, window, with_reply,
    PostError, StoreSpec, ThreadSpec, MAX_AUTHOR_LENGTH, MAX_MESSAGE_LENGTH,
};
use crate::rows::{
    FlagKind, FlaggedRow, FlaggedSpec, MessageRow, MessageSpec, SubmessageRow, SubmessageSpec,
};
use crate::text::str_contains;

verus! {

/// A thread and the replies it owns.
struct ThreadEntry {
    row: MessageRow,
    replies: Vec<SubmessageRow>,
    accepted: i64,
}

impl View for ThreadEntry {
    type V = ThreadSpec;

    closed spec fn view(&self) -> ThreadSpec {
        ThreadSpec { row: self.row@, replies: reply_views(self.replies@), accepted: self.accepted as int }
    }
}

pub open spec fn reply_views(v: Seq<SubmessageRow>) -> Seq<SubmessageSpec> {
    v.map_values(|r: SubmessageRow| r@)
}

pub open spec fn message_views(v: Seq<MessageRow>) -> Seq<MessageSpec> {
    v.map_values(|r: MessageRow| r@)
}

pub open spec fn string_views(v: Seq<String>) -> Seq<Seq<char>> {
    v.map_values(|s: String| s@)
}

/// The media fields of a thread and of its replies, thread first.
fn media_list(e: &ThreadEntry) -> (r: Vec<String>)
    ensures
        string_views(r@) == media_of(e@),
{
    let mut r: Vec<String> = Vec::new();
    r.push(e.row.image.clone());
    let mut k: usize = 0;
    while k < e.replies.len()
        invariant
            k <= e.replies@.len(),
            string_views(r@) == seq![e@.row.image] + e@.replies.take(k as int).map_values(
                |x: SubmessageSpec| x.image,
            ),
        decreases e.replies@.len() - k,
    {
        let ghost prev = r@;
        r.push(e.replies[k].image.clone());
        proof {
            assert(e@.replies[k as int] == e.replies@[k as int]@);
            assert(e@.replies.take(k as int + 1).map_values(|x: SubmessageSpec| x.image)
                =~= e@.replies.take(k as int).map_values(|x: SubmessageSpec| x.image).push(
                e@.replies[k as int].image,
            ));
            assert(string_views(r@) =~= string_views(prev).push(e.replies@[k as int].image@));
            assert(string_views(r@) =~= seq![e@.row.image] + e@.replies.take(
                k as int + 1,
            ).map_values(|x: SubmessageSpec| x.image));
        }
        k = k + 1;
    }
    proof {
        assert(e@.replies.take(k as int) =~= e@.replies);
    }
    r
}

/// Index of the reply with ordinal `ord`.
fn find_reply(e: &ThreadEntry, ord: i64) -> (r: Option<usize>)
    requires
        thread_wf(e@),
    ensures
        match r {
            Some(k) => {
                &&& k < e@.replies.len()
                &&& has_reply(e@, ord as int)
                &&& reply_index(e@, ord as int) == k
            },
            None => !has_reply(e@, ord as int),
        },
{
    let ghost t = e@;
    let mut k: usize = 0;
    while k < e.replies.len()
        invariant
            t == e@,
            thread_wf(t),
            k <= t.replies.len(),
            t.replies.len() == e.replies@.len(),
            forall|q: int| 0 <= q < k ==> (#[trigger] t.replies[q]).submsg_id != ord,
        decreases t.replies.len() - k,
    {
        assert(t.replies[k as int] == e.replies@[k as int]@);
        if e.replies[k].submsg_id == ord {
            proof {
                assert(has_reply(t, ord as int));
                let j = reply_index(t, ord as int);
                if j < k {
                    assert(t.replies[j].submsg_id != ord);
                }
                if j > k {
                    assert(t.replies[k as int].submsg_id < t.replies[j].submsg_id);
                }
            }
            return Some(k);
        }
        k = k + 1;
    }
    None
}

spec fn entry_views(v: Seq<ThreadEntry>) -> Seq<ThreadSpec> {
    v.map_values(|e: ThreadEntry| e@)
}

/// In-memory post store. Every operation that changes it takes `&mut self`,
/// so a compound post (check, insert, bump, evict) runs as one unit.
pub struct DatabaseWrapper {
    threads: Vec<ThreadEntry>,
    flagged: Vec<FlaggedRow>,
    next_msgid: i64,
    next_entry: i64,
}

impl View for DatabaseWrapper {
    type V = StoreSpec;

    closed spec fn view(&self) -> StoreSpec {
        StoreSpec {
            threads: entry_views(self.threads@),
            flagged: self.flagged@.map_values(|f: FlaggedRow| f@),
            next_msgid: self.next_msgid as int,
            next_entry: self.next_entry as int,
        }
    }
}

/// Places `e` in the activity order and returns its index.
fn insert_sorted(v: &mut Vec<ThreadEntry>, e: ThreadEntry) -> (p: usize)
    requires
        sorted_by_activity(entry_views(old(v)@)),
        forall|k: int| 0 <= k < old(v)@.len() ==> (#[trigger] old(v)@[k]@).row.msgid != e@.row.msgid,
    ensures
        p <= old(v)@.len(),
        entry_views(final(v)@) == entry_views(old(v)@).insert(p as int, e@),
        sorted_by_activity(entry_views(final(v)@)),
{
    let ghost ts = entry_views(v@);
    let ghost t = e@;
    let mut p: usize = 0;
    while p < v.len() && (v[p].row.latest_submsg > e.row.latest_submsg || (v[p].row.latest_submsg
        == e.row.latest_submsg && v[p].row.msgid > e.row.msgid))
        invariant
            p <= v@.len(),
            v@ == old(v)@,
            ts == entry_views(v@),
            t == e@,
            forall|k: int| 0 <= k < p ==> before(#[trigger] ts[k].row, t.row),
        decreases v@.len() - p,
    {
        p = p + 1;
    }
    proof {
        assert forall|q: int| p <= q < ts.len() implies before(t.row, #[trigger] ts[q].row) by {
            assert(ts[p as int] == old(v)@[p as int]@);
            assert(ts[q] == old(v)@[q]@);
            if q > p {
                assert(before(ts[p as int].row, ts[q].row));
            }
        }
    }
    v.insert(p, e);
    proof {
        let ns = entry_views(v@);
        assert(ns =~= ts.insert(p as int, t));
        assert forall|i: int, j: int| 0 <= i < j < ns.len() implies before(
            #[trigger] ns[i].row,
            #[trigger] ns[j].row,
        ) by {
            if j < p {
                assert(ns[i] == ts[i] && ns[j] == ts[j]);
            } else if j == p {
                assert(ns[i] == ts[i]);
            } else if i < p {
                assert(ns[i] == ts[i] && ns[j] == ts[j - 1]);
                assert(before(ts[i].row, t.row));
                assert(before(t.row, ts[j - 1].row));
            } else if i == p {
                assert(ns[j] == ts[j - 1]);
            } else {
                assert(ns[i] == ts[i - 1] && ns[j] == ts[j - 1]);
            }
        }
    }
    p
}

impl DatabaseWrapper {
    pub open spec fn wf(&self) -> bool {
        self@.wf()
    }

    /// An empty store.
    pub fn new() -> (r: DatabaseWrapper)
        ensures
            r.wf(),
            r@.threads.len() == 0,
            r@.flagged.len() == 0,
            r@.next_msgid == 1,
            r@.next_entry == 1,
    {
        let r = DatabaseWrapper {
            threads: Vec::new(),
            flagged: Vec::new(),
            next_msgid: 1,
            next_entry: 1,
        };
        proof {
            assert(r@.threads =~= Seq::<ThreadSpec>::empty());
            assert(r@.flagged =~= Seq::<FlaggedSpec>::empty());
        }
        r
    }

    /// Index of the thread with this id.
    fn find_thread(&self, msgid: i64) -> (r: Option<usize>)
        requires
            self.wf(),
        ensures
            match r {
                Some(i) => {
                    &&& i < self@.threads.len()
                    &&& self@.threads[i as int].row.msgid == msgid
                    &&& has_thread(self@.threads, msgid as int)
                    &&& thread_index(self@.threads, msgid as int) == i
                },
                None => !has_thread(self@.threads, msgid as int),
            },
    {
        let ghost ts = self@.threads;
        let mut i: usize = 0;
        while i < self.threads.len()
            invariant
                self.wf(),
                i <= self.threads@.len(),
                ts == self@.threads,
                ts.len() == self.threads@.len(),
                forall|k: int| 0 <= k < i ==> (#[trigger] ts[k]).row.msgid != msgid,
            decreases self.threads@.len() - i,
        {
            assert(ts[i as int] == self.threads@[i as int]@);
            if self.threads[i].row.msgid == msgid {
                proof {
                    lemma_thread_index(ts, i as int);
                }
                return Some(i);
            }
            i = i + 1;
        }
        None
    }

    /// Number of threads on a board.
    pub fn count_messages(&self, board: &str) -> (r: usize)
        requires
            self.wf(),
        ensures
            r == board_threads(self@.threads, board@).len(),
    {
        let b = board.to_owned();
        let ghost ts = self@.threads;
        let mut n: usize = 0;
        let mut i: usize = 0;
        while i < self.threads.len()
            invariant
                self.wf(),
                i <= self.threads@.len(),
                ts == self@.threads,
                ts.len() == self.threads@.len(),
                b@ == board@,
                n == board_threads(ts.take(i as int), board@).len(),
                n <= i,
            decreases self.threads@.len() - i,
        {
            proof {
                lemma_board_threads_take(ts, i as int, board@);
            }
            assert(ts[i as int] == self.threads@[i as int]@);
            if self.threads[i].row.board == b {
                n = n + 1;
            }
            i = i + 1;
        }
        assert(ts.take(i as int) =~= ts);
        n
    }

    /// Threads of a board in activity order, from `offset`, at most `limit` of them.
    pub fn list_threads(&self, board: &str, offset: usize, limit: usize) -> (r: Vec<MessageRow>)
        requires
            self.wf(),
        ensures
            message_views(r@) == window(
                thread_rows(board_threads(self@.threads, board@)),
                offset as int,
                limit as int,
            ),
    {
        let b = board.to_owned();
        let ghost ts = self@.threads;
        let mut res: Vec<MessageRow> = Vec::new();
        let mut seen: usize = 0;
        let mut i: usize = 0;
        while i < self.threads.len()
            invariant
                self.wf(),
                i <= self.threads@.len(),
                ts == self@.threads,
                ts.len() == self.threads@.len(),
                b@ == board@,
                seen == board_threads(ts.take(i as int), board@).len(),
                seen <= i,
                message_views(res@) == window(
                    thread_rows(board_threads(ts.take(i as int), board@)),
                    offset as int,
                    limit as int,
                ),
            decreases self.threads@.len() - i,
        {
            proof {
                lemma_board_threads_take(ts, i as int, board@);
            }
            assert(ts[i as int] == self.threads@[i as int]@);
            if self.threads[i].row.board == b {
                let ghost before_rows = thread_rows(board_threads(ts.take(i as int), board@));
                let ghost after_rows = thread_rows(board_threads(ts.take(i as int + 1), board@));
                assert(after_rows =~= before_rows.push(ts[i as int].row));
                if seen >= offset && seen - offset < limit {
                    let row = self.threads[i].row.duplicate();
                    let ghost prev = res@;
                    res.push(row);
                    assert(message_views(res@) =~= message_views(prev).push(ts[i as int].row));
                    assert(before_rows.len() == seen);
                    assert(message_views(res@) =~= window(after_rows, offset as int, limit as int));
                } else {
                    assert(window(before_rows, offset as int, limit as int) =~= window(
                        after_rows,
                        offset as int,
                        limit as int,
                    ));
                }
                seen = seen + 1;
            }
            i = i + 1;
        }
        assert(ts.take(i as int) =~= ts);
        res
    }

    /// Stores a new thread on `board`, created and active at `now`; returns its id.
    /// Nothing else is checked here: see `create_thread` for the full posting rules.
    pub fn insert_to_messages(
        &mut self,
        board: &str,
        author: &str,
        msg: &str,
        image: &str,
        now: i64,
    ) -> (r: Result<i64, PostError>)
        requires
            old(self).wf(),
        ensures
            final(self).wf(),
            !valid_post(author.len() as int, msg.len() as int) ==> r == Err::<i64, PostError>(
                PostError::ValidationError,
            ),
            valid_post(author.len() as int, msg.len() as int) && old(self)@.next_msgid == i64::MAX
                ==> r == Err::<i64, PostError>(PostError::StoreError),
            valid_post(author.len() as int, msg.len() as int) && old(self)@.next_msgid < i64::MAX
                ==> r == Ok::<i64, PostError>(old(self)@.next_msgid as i64),
            r.is_err() ==> final(self)@ == old(self)@,
            r.is_ok() ==> {
                &&& final(self)@.next_msgid == old(self)@.next_msgid + 1
                &&& final(self)@.next_entry == old(self)@.next_entry
                &&& final(self)@.flagged == old(self)@.flagged
                &&& exists|p: int|
                    0 <= p <= old(self)@.threads.len() && final(self)@.threads == old(
                        self,
                    )@.threads.insert(
                        p,
                        new_thread(old(self)@.next_msgid, board@, now as int, author@, msg@, image@),
                    )
            },
    {
        if author.len() > MAX_AUTHOR_LENGTH || msg.len() == 0 || msg.len() > MAX_MESSAGE_LENGTH {
            return Err(PostError::ValidationError);
        }
        if self.next_msgid == i64::MAX {
            return Err(PostError::StoreError);
        }
        let id = self.next_msgid;
        let row = MessageRow {
            msgid: id,
            board: board.to_owned(),
            time: now,
            author: author.to_owned(),
            msg: msg.to_owned(),
            image: image.to_owned(),
            latest_submsg: now,
        };
        let e = ThreadEntry { row, replies: Vec::new(), accepted: 0 };
        let ghost t = new_thread(id as int, board@, now as int, author@, msg@, image@);
        assert(e@ =~= t) by {
            assert(reply_views(e.replies@) =~= Seq::<SubmessageSpec>::empty());
        }
        let ghost old_ts = self@.threads;
        proof {
            assert forall|k: int| 0 <= k < self.threads@.len() implies (
            #[trigger] self.threads@[k]@).row.msgid != e@.row.msgid by {
                assert(old_ts[k] == self.threads@[k]@);
            }
        }
        let p = insert_sorted(&mut self.threads, e);
        self.next_msgid = id + 1;
        proof {
            let ts = self@.threads;
            assert(ts == old_ts.insert(p as int, t));
            assert forall|i: int, j: int|
                0 <= i < ts.len() && 0 <= j < ts.len() && i != j implies #[trigger] ts[i].row.msgid
                != #[trigger] ts[j].row.msgid by {
                if i != p && j != p {
                    let oi = if i < p { i } else { i - 1 };
                    let oj = if j < p { j } else { j - 1 };
                    assert(ts[i] == old_ts[oi] && ts[j] == old_ts[oj]);
                } else if i == p {
                    let oj = if j < p { j } else { j - 1 };
                    assert(ts[j] == old_ts[oj]);
                } else {
                    let oi = if i < p { i } else { i - 1 };
                    assert(ts[i] == old_ts[oi]);
                }
            }
            assert forall|i: int| 0 <= i < ts.len() implies {
                &&& 1 <= (#[trigger] ts[i]).row.msgid < self@.next_msgid
                &&& thread_wf(ts[i])
            } by {
                if i < p {
                    assert(ts[i] == old_ts[i]);
                } else if i > p {
                    assert(ts[i] == old_ts[i - 1]);
                }
            }
        }
        Ok(id)
    }

    /// Takes the thread at index `i` out of the store.
    fn take_thread(&mut self, i: usize) -> (e: ThreadEntry)
        requires
            old(self).wf(),
            i < old(self)@.threads.len(),
        ensures
            final(self).wf(),
            e@ == old(self)@.threads[i as int],
            final(self)@.threads == old(self)@.threads.remove(i as int),
            final(self)@.flagged == old(self)@.flagged,
            final(self)@.next_msgid == old(self)@.next_msgid,
            final(self)@.next_entry == old(self)@.next_entry,
            forall|k: int|
                0 <= k < final(self)@.threads.len() ==> (#[trigger] final(self)@.threads[k]).row.msgid
                    != e@.row.msgid,
    {
        let ghost ots = self@.threads;
        let e = self.threads.remove(i);
        proof {
            let ts = self@.threads;
            assert(ts =~= ots.remove(i as int));
            assert forall|a: int, b: int| 0 <= a < b < ts.len() implies before(
                #[trigger] ts[a].row,
                #[trigger] ts[b].row,
            ) by {
                let oa = if a < i { a } else { a + 1 };
                let ob = if b < i { b } else { b + 1 };
                assert(ts[a] == ots[oa] && ts[b] == ots[ob]);
            }
            assert forall|a: int, b: int|
                0 <= a < ts.len() && 0 <= b < ts.len() && a != b implies #[trigger] ts[a].row.msgid
                != #[trigger] ts[b].row.msgid by {
                let oa = if a < i { a } else { a + 1 };
                let ob = if b < i { b } else { b + 1 };
                assert(ts[a] == ots[oa] && ts[b] == ots[ob]);
            }
            assert forall|a: int| 0 <= a < ts.len() implies {
                &&& 1 <= (#[trigger] ts[a]).row.msgid < self@.next_msgid
                &&& thread_wf(ts[a])
            } by {
                let oa = if a < i { a } else { a + 1 };
                assert(ts[a] == ots[oa]);
            }
            assert forall|k: int| 0 <= k < ts.len() implies (#[trigger] ts[k]).row.msgid
                != e@.row.msgid by {
                let ok = if k < i { k } else { k + 1 };
                assert(ts[k] == ots[ok]);
                assert(ots[i as int] == e@);
            }
        }
        e
    }

    /// Puts a thread whose id the store does not hold back in its place.
    fn put_thread(&mut self, e: ThreadEntry) -> (p: usize)
        requires
            old(self).wf(),
            thread_wf(e@),
            1 <= e@.row.msgid < old(self)@.next_msgid,
            forall|k: int|
                0 <= k < old(self)@.threads.len() ==> (#[trigger] old(self)@.threads[k]).row.msgid
                    != e@.row.msgid,
        ensures
            final(self).wf(),
            p <= old(self)@.threads.len(),
            final(self)@.threads == old(self)@.threads.insert(p as int, e@),
            final(self)@.flagged == old(self)@.flagged,
            final(self)@.next_msgid == old(self)@.next_msgid,
            final(self)@.next_entry == old(self)@.next_entry,
    {
        let ghost ots = self@.threads;
        let ghost t = e@;
        proof {
            assert forall|k: int| 0 <= k < self.threads@.len() implies (
            #[trigger] self.threads@[k]@).row.msgid != e@.row.msgid by {
                assert(ots[k] == self.threads@[k]@);
            }
        }
        let p = insert_sorted(&mut self.threads, e);
        proof {
            let ts = self@.threads;
            assert forall|a: int, b: int|
                0 <= a < ts.len() && 0 <= b < ts.len() && a != b implies #[trigger] ts[a].row.msgid
                != #[trigger] ts[b].row.msgid by {
                if a != p && b != p {
                    let oa = if a < p { a } else { a - 1 };
                    let ob = if b < p { b } else { b - 1 };
                    assert(ts[a] == ots[oa] && ts[b] == ots[ob]);
                } else if a == p {
                    let ob = if b < p { b } else { b - 1 };
                    assert(ts[b] == ots[ob]);
                } else {
                    let oa = if a < p { a } else { a - 1 };
                    assert(ts[a] == ots[oa]);
                }
            }
            assert forall|a: int| 0 <= a < ts.len() implies {
                &&& 1 <= (#[trigger] ts[a]).row.msgid < self@.next_msgid
                &&& thread_wf(ts[a])
            } by {
                if a < p {
                    assert(ts[a] == ots[a]);
                } else if a > p {
                    assert(ts[a] == ots[a - 1]);
                }
            }
        }
        p
    }

    /// Stores a reply to thread `parent` with the next ordinal of that thread and
    /// returns the ordinal. The thread's activity time is left as it is.
    pub fn insert_to_submessages(
        &mut self,
        parent: i64,
        author: &str,
        msg: &str,
        image: &str,
        now: i64,
    ) -> (r: Result<i64, PostError>)
        requires
            old(self).wf(),
        ensures
            final(self).wf(),
            ({
                let s = old(self)@;
                let ok = valid_post(author.len() as int, msg.len() as int);
                &&& !ok ==> r == Err::<i64, PostError>(PostError::ValidationError)
                &&& ok && !has_thread(s.threads, parent as int) ==> r == Err::<i64, PostError>(
                    PostError::NotFound,
                )
                &&& ok && has_thread(s.threads, parent as int) && thread_of(
                    s.threads,
                    parent as int,
                ).accepted == i64::MAX ==> r == Err::<i64, PostError>(PostError::StoreError)
                &&& ok && has_thread(s.threads, parent as int) && thread_of(
                    s.threads,
                    parent as int,
                ).accepted < i64::MAX ==> r == Ok::<i64, PostError>(
                    (thread_of(s.threads, parent as int).accepted + 1) as i64,
                )
            }),
            r.is_err() ==> final(self)@ == old(self)@,
            r.is_ok() ==> {
                let s = old(self)@;
                let i = thread_index(s.threads, parent as int);
                &&& final(self)@.flagged == s.flagged
                &&& final(self)@.next_msgid == s.next_msgid
                &&& final(self)@.next_entry == s.next_entry
                &&& moved(
                    s.threads,
                    final(self)@.threads,
                    i,
                    with_reply(s.threads[i], now as int, author@, msg@, image@),
                )
            },
    {
        if author.len() > MAX_AUTHOR_LENGTH || msg.len() == 0 || msg.len() > MAX_MESSAGE_LENGTH {
            return Err(PostError::ValidationError);
        }
        let i = match self.find_thread(parent) {
            Some(i) => i,
            None => {
                return Err(PostError::NotFound);
            },
        };
        assert(self@.threads[i as int] == self.threads@[i as int]@);
        if self.threads[i].accepted == i64::MAX {
            return Err(PostError::StoreError);
        }
        let ghost s = self@;
        let mut e = self.take_thread(i);
        let ghost t = e@;
        let ord = e.accepted + 1;
        let reply = SubmessageRow {
            parent_msg: e.row.msgid,
            submsg_id: ord,
            board: e.row.board.clone(),
            time: now,
            author: author.to_owned(),
            submsg: msg.to_owned(),
            image: image.to_owned(),
        };
        e.replies.push(reply);
        e.accepted = ord;
        let ghost nt = with_reply(t, now as int, author@, msg@, image@);
        proof {
            assert(reply_views(e.replies@) =~= nt.replies);
            assert(e@ =~= nt);
            assert forall|k: int| 0 <= k < nt.replies.len() implies {
                &&& (#[trigger] nt.replies[k]).parent_msg == nt.row.msgid
                &&& nt.replies[k].board == nt.row.board
                &&& 1 <= nt.replies[k].submsg_id <= nt.accepted
            } by {
                if k < t.replies.len() {
                    assert(nt.replies[k] == t.replies[k]);
                }
            }
            assert forall|a: int, b: int| 0 <= a < b < nt.replies.len() implies (
            #[trigger] nt.replies[a]).submsg_id < (#[trigger] nt.replies[b]).submsg_id by {
                assert(nt.replies[a] == t.replies[a]);
                if b < t.replies.len() {
                    assert(nt.replies[b] == t.replies[b]);
                }
            }
            assert(thread_wf(nt));
        }
        let p = self.put_thread(e);
        proof {
            assert(p < s.threads.len());
            assert(self@.threads == s.threads.remove(i as int).insert(p as int, nt));
        }
        Ok(ord)
    }

    /// Records activity on thread `msgid` at time `now`: its activity time becomes
    /// `now` unless it is already later.
    pub fn update_message_activity(&mut self, msgid: i64, now: i64) -> (r: Result<(), PostError>)
        requires
            old(self).wf(),
        ensures
            final(self).wf(),
            r.is_ok() == has_thread(old(self)@.threads, msgid as int),
            r.is_err() ==> r == Err::<(), PostError>(PostError::NotFound) && final(self)@ == old(
                self,
            )@,
            r.is_ok() ==> {
                let s = old(self)@;
                let i = thread_index(s.threads, msgid as int);
                &&& final(self)@.flagged == s.flagged
                &&& final(self)@.next_msgid == s.next_msgid
                &&& final(self)@.next_entry == s.next_entry
                &&& moved(s.threads, final(self)@.threads, i, touched(s.threads[i], now as int))
            },
    {
        let i = match self.find_thread(msgid) {
            Some(i) => i,
            None => {
                return Err(PostError::NotFound);
            },
        };
        let ghost s = self@;
        let mut e = self.take_thread(i);
        let ghost t = e@;
        if now > e.row.latest_submsg {
            e.row.latest_submsg = now;
        }
        proof {
            assert(e@ =~= touched(t, now as int));
        }
        let p = self.put_thread(e);
        proof {
            assert(p < s.threads.len());
        }
        Ok(())
    }

    /// Evicts the least active thread of `board`: the one with the earliest activity
    /// time, the lowest id among equals. Returns the media fields it held, or `None`
    /// when the board has no thread.
    pub fn delete_least_active(&mut self, board: &str) -> (r: Option<Vec<String>>)
        requires
            old(self).wf(),
        ensures
            final(self).wf(),
            r.is_none() == (board_threads(old(self)@.threads, board@).len() == 0),
            r.is_none() ==> final(self)@ == old(self)@,
            r.is_some() ==> {
                let s = old(self)@;
                let p = last_index_on(s.threads, board@);
                &&& 0 <= p < s.threads.len()
                &&& s.threads[p] == board_threads(s.threads, board@).last()
                &&& final(self)@.threads == s.threads.remove(p)
                &&& board_threads(final(self)@.threads, board@) == board_threads(
                    s.threads,
                    board@,
                ).drop_last()
                &&& string_views(r.unwrap()@) == media_of(s.threads[p])
                &&& final(self)@.flagged == s.flagged
                &&& final(self)@.next_msgid == s.next_msgid
                &&& final(self)@.next_entry == s.next_entry
            },
    {
        let b = board.to_owned();
        let ghost ts = self@.threads;
        proof {
            lemma_last_index_on(ts, board@);
        }
        let mut i: usize = self.threads.len();
        while i > 0
            invariant
                i <= self.threads@.len(),
                ts == self@.threads,
                ts.len() == self.threads@.len(),
                b@ == board@,
                forall|q: int| i <= q < ts.len() ==> (#[trigger] ts[q]).row.board != board@,
            ensures
                i <= self.threads@.len(),
                forall|q: int| i <= q < ts.len() ==> (#[trigger] ts[q]).row.board != board@,
                i > 0 ==> ts[i - 1].row.board == board@,
            decreases i,
        {
            assert(ts[i - 1] == self.threads@[i - 1]@);
            if self.threads[i - 1].row.board == b {
                break;
            }
            i = i - 1;
        }
        if i == 0 {
            proof {
                lemma_board_threads_none(ts, board@);
            }
            return None;
        }
        let p = i - 1;
        proof {
            assert(ts[p as int] == self.threads@[p as int]@);
            let lp = last_index_on(ts, board@);
            if lp > p {
                assert(ts[lp].row.board == board@);
            }
            if lp < p {
                assert(ts[p as int].row.board == board@);
            }
            assert(lp == p);
        }
        let e = self.take_thread(p);
        Some(media_list(&e))
    }

    /// Purges thread `msgid` with all its replies; returns the media fields they held.
    pub fn delete_msg(&mut self, msgid: i64) -> (r: Result<Vec<String>, PostError>)
        requires
            old(self).wf(),
        ensures
            final(self).wf(),
            r.is_ok() == has_thread(old(self)@.threads, msgid as int),
            r.is_err() ==> r == Err::<Vec<String>, PostError>(PostError::NotFound) && final(self)@
                == old(self)@,
            r.is_ok() ==> {
                let s = old(self)@;
                let i = thread_index(s.threads, msgid as int);
                &&& final(self)@.threads == s.threads.remove(i)
                &&& string_views(r.unwrap()@) == media_of(s.threads[i])
                &&& final(self)@.flagged == s.flagged
                &&& final(self)@.next_msgid == s.next_msgid
                &&& final(self)@.next_entry == s.next_entry
            },
    {
        match self.find_thread(msgid) {
            Some(i) => {
                let e = self.take_thread(i);
                Ok(media_list(&e))
            },
            None => Err(PostError::NotFound),
        }
    }

    /// Purges reply `submsgid` of thread `msgid`; returns the media field it held.
    pub fn delete_submsg(&mut self, msgid: i64, submsgid: i64) -> (r: Result<String, PostError>)
        requires
            old(self).wf(),
        ensures
            final(self).wf(),
            ({
                let s = old(self)@;
                r.is_ok() == (has_thread(s.threads, msgid as int) && has_reply(
                    thread_of(s.threads, msgid as int),
                    submsgid as int,
                ))
            }),
            r.is_err() ==> r == Err::<String, PostError>(PostError::NotFound) && final(self)@ == old(
                self,
            )@,
            r.is_ok() ==> {
                let s = old(self)@;
                let i = thread_index(s.threads, msgid as int);
                let t = s.threads[i];
                let k = reply_index(t, submsgid as int);
                &&& r.unwrap()@ == t.replies[k].image
                &&& moved(s.threads, final(self)@.threads, i, ThreadSpec { replies: t.replies.remove(k), ..t })
                &&& final(self)@.flagged == s.flagged
                &&& final(self)@.next_msgid == s.next_msgid
                &&& final(self)@.next_entry == s.next_entry
            },
    {
        let i = match self.find_thread(msgid) {
            Some(i) => i,
            None => {
                return Err(PostError::NotFound);
            },
        };
        let ghost s = self@;
        let ghost t = s.threads[i as int];
        assert(t == self.threads@[i as int]@);
        let mut k: usize = 0;
        while k < self.threads[i].replies.len()
            invariant
                i < self.threads@.len(),
                t == self.threads@[i as int]@,
                k <= t.replies.len(),
                t.replies.len() == self.threads@[i as int].replies@.len(),
                forall|q: int| 0 <= q < k ==> (#[trigger] t.replies[q]).submsg_id != submsgid,
            ensures
                k <= t.replies.len(),
                forall|q: int| 0 <= q < k ==> (#[trigger] t.replies[q]).submsg_id != submsgid,
                k < t.replies.len() ==> t.replies[k as int].submsg_id == submsgid,
            decreases t.replies.len() - k,
        {
            assert(t.replies[k as int] == self.threads@[i as int].replies@[k as int]@);
            if self.threads[i].replies[k].submsg_id == submsgid {
                break;
            }
            k = k + 1;
        }
        if k == self.threads[i].replies.len() {
            return Err(PostError::NotFound);
        }
        proof {
            assert(t.replies[k as int] == self.threads@[i as int].replies@[k as int]@);
            assert(has_reply(t, submsgid as int));
            let j = reply_index(t, submsgid as int);
            if j < k {
                assert(t.replies[j].submsg_id != submsgid);
            }
            if j > k {
                assert(t.replies[k as int].submsg_id < t.replies[j].submsg_id);
            }
            assert(j == k);
        }
        let mut e = self.take_thread(i);
        let gone = e.replies.remove(k);
        let ghost nt = ThreadSpec { replies: t.replies.remove(k as int), ..t };
        proof {
            assert(reply_views(e.replies@) =~= t.replies.remove(k as int));
            assert(e@ =~= nt);
            assert forall|a: int, b: int| 0 <= a < b < nt.replies.len() implies (
            #[trigger] nt.replies[a]).submsg_id < (#[trigger] nt.replies[b]).submsg_id by {
                let oa = if a < k { a } else { a + 1 };
                let ob = if b < k { b } else { b + 1 };
                assert(nt.replies[a] == t.replies[oa] && nt.replies[b] == t.replies[ob]);
            }
            assert forall|q: int| 0 <= q < nt.replies.len() implies {
                &&& (#[trigger] nt.replies[q]).parent_msg == nt.row.msgid
                &&& nt.replies[q].board == nt.row.board
                &&& 1 <= nt.replies[q].submsg_id <= nt.accepted
            } by {
                let oq = if q < k { q } else { q + 1 };
                assert(nt.replies[q] == t.replies[oq]);
            }
        }
        let p = self.put_thread(e);
        proof {
            assert(p < s.threads.len());
        }
        Ok(gone.image)
    }

    /// Threads of a board on 1-based page `page` of `limit` threads each; page 0
    /// counts as page 1.
    pub fn get_messages(&self, board: &str, page: usize, limit: usize) -> (r: Vec<MessageRow>)
        requires
            self.wf(),
        ensures
            message_views(r@) == window(
                thread_rows(board_threads(self@.threads, board@)),
                page_offset(page as int, limit as int),
                limit as int,
            ),
    {
        let before_pages: usize = if page <= 1 { 0 } else { page - 1 };
        match before_pages.checked_mul(limit) {
            Some(offset) => self.list_threads(board, offset, limit),
            None => {
                proof {
                    lemma_board_threads_members(self@.threads, board@);
                    let rows = thread_rows(board_threads(self@.threads, board@));
                    let off = page_offset(page as int, limit as int);
                    assert(off > usize::MAX);
                    assert(rows.len() == board_threads(self@.threads, board@).len());
                    assert(self@.threads.len() == self.threads@.len());
                    assert(self.threads@.len() <= usize::MAX) by {
                        let n = self.threads.len();
                    }
                    assert(rows.len() <= self.threads@.len());
                    assert(window(rows, off, limit as int) =~= Seq::<MessageSpec>::empty());
                }
                let r: Vec<MessageRow> = Vec::new();
                assert(message_views(r@) =~= Seq::<MessageSpec>::empty());
                r
            },
        }
    }

    /// Threads of a board whose body contains `substring` (case-sensitive), in
    /// activity order, from `offset`, at most `limit` of them.
    pub fn search_messages(&self, board: &str, offset: usize, limit: usize, substring: &str) -> (r:
        Vec<MessageRow>)
        requires
            self.wf(),
        ensures
            message_views(r@) == window(
                thread_rows(search_threads(self@.threads, board@, substring@)),
                offset as int,
                limit as int,
            ),
    {
        let b = board.to_owned();
        let ghost ts = self@.threads;
        let mut res: Vec<MessageRow> = Vec::new();
        let mut seen: usize = 0;
        let mut i: usize = 0;
        while i < self.threads.len()
            invariant
                self.wf(),
                i <= self.threads@.len(),
                ts == self@.threads,
                ts.len() == self.threads@.len(),
                b@ == board@,
                seen == search_threads(ts.take(i as int), board@, substring@).len(),
                seen <= i,
                message_views(res@) == window(
                    thread_rows(search_threads(ts.take(i as int), board@, substring@)),
                    offset as int,
                    limit as int,
                ),
            decreases self.threads@.len() - i,
        {
            proof {
                assert(ts.take(i as int + 1).drop_last() =~= ts.take(i as int));
                assert(ts.take(i as int + 1).last() == ts[i as int]);
            }
            assert(ts[i as int] == self.threads@[i as int]@);
            if self.threads[i].row.board == b && str_contains(
                self.threads[i].row.msg.as_str(),
                substring,
            ) {
                let ghost before_rows = thread_rows(
                    search_threads(ts.take(i as int), board@, substring@),
                );
                let ghost after_rows = thread_rows(
                    search_threads(ts.take(i as int + 1), board@, substring@),
                );
                assert(after_rows =~= before_rows.push(ts[i as int].row));
                if seen >= offset && seen - offset < limit {
                    let row = self.threads[i].row.duplicate();
                    let ghost prev = res@;
                    res.push(row);
                    assert(message_views(res@) =~= message_views(prev).push(ts[i as int].row));
                    assert(before_rows.len() == seen);
                    assert(message_views(res@) =~= window(after_rows, offset as int, limit as int));
                } else {
                    assert(window(before_rows, offset as int, limit as int) =~= window(
                        after_rows,
                        offset as int,
                        limit as int,
                    ));
                }
                seen = seen + 1;
            }
            i = i + 1;
        }
        assert(ts.take(i as int) =~= ts);
        res
    }

    /// The most recently active thread of a board.
    pub fn get_last_message(&self, board: &str) -> (r: Option<MessageRow>)
        requires
            self.wf(),
        ensures
            r.is_none() == (board_threads(self@.threads, board@).len() == 0),
            r.is_some() ==> r.unwrap()@ == board_threads(self@.threads, board@)[0].row,
    {
        let b = board.to_owned();
        let ghost ts = self@.threads;
        let mut i: usize = 0;
        while i < self.threads.len()
            invariant
                i <= self.threads@.len(),
                ts == self@.threads,
                ts.len() == self.threads@.len(),
                b@ == board@,
                forall|q: int| 0 <= q < i ==> (#[trigger] ts[q]).row.board != board@,
            decreases self.threads@.len() - i,
        {
            assert(ts[i as int] == self.threads@[i as int]@);
            if self.threads[i].row.board == b {
                proof {
                    let a = ts.take(i as int);
                    let c = ts.skip(i as int + 1);
                    assert(ts =~= (a + seq![ts[i as int]]) + c);
                    lemma_board_threads_none(a, board@);
                    lemma_board_threads_concat(a + seq![ts[i as int]], c, board@);
                    lemma_board_threads_concat(a, seq![ts[i as int]], board@);
                    lemma_board_threads_single(ts[i as int], board@);
                    assert(board_threads(ts, board@)[0] == ts[i as int]);
                }
                return Some(self.threads[i].row.duplicate());
            }
            i = i + 1;
        }
        proof {
            assert(ts.take(i as int) =~= ts);
            lemma_board_threads_none(ts, board@);
        }
        None
    }

    /// The thread with this id.
    pub fn get_single_message(&self, msgid: i64) -> (r: Result<MessageRow, PostError>)
        requires
            self.wf(),
        ensures
            r.is_ok() == has_thread(self@.threads, msgid as int),
            r.is_err() ==> r == Err::<MessageRow, PostError>(PostError::NotFound),
            r.is_ok() ==> r.unwrap()@ == thread_of(self@.threads, msgid as int).row,
    {
        match self.find_thread(msgid) {
            Some(i) => {
                assert(self@.threads[i as int] == self.threads@[i as int]@);
                Ok(self.threads[i].row.duplicate())
            },
            None => Err(PostError::NotFound),
        }
    }

    /// The replies of thread `msgid` in ordinal order; empty when there is no such thread.
    pub fn get_submessages(&self, msgid: i64) -> (r: Vec<SubmessageRow>)
        requires
            self.wf(),
        ensures
            reply_views(r@) == replies_of(self@.threads, msgid as int),
    {
        let mut r: Vec<SubmessageRow> = Vec::new();
        match self.find_thread(msgid) {
            Some(i) => {
                let ghost t = self@.threads[i as int];
                assert(t == self.threads@[i as int]@);
                let mut k: usize = 0;
                while k < self.threads[i].replies.len()
                    invariant
                        i < self.threads@.len(),
                        t == self.threads@[i as int]@,
                        k <= t.replies.len(),
                        t.replies.len() == self.threads@[i as int].replies@.len(),
                        reply_views(r@) == t.replies.take(k as int),
                    decreases t.replies.len() - k,
                {
                    assert(t.replies[k as int] == self.threads@[i as int].replies@[k as int]@);
                    let ghost prev = r@;
                    r.push(self.threads[i].replies[k].duplicate());
                    assert(reply_views(r@) =~= reply_views(prev).push(t.replies[k as int]));
                    assert(t.replies.take(k as int + 1) =~= t.replies.take(k as int).push(
                        t.replies[k as int],
                    ));
                    k = k + 1;
                }
                assert(t.replies.take(k as int) =~= t.replies);
            },
            None => {
                assert(reply_views(r@) =~= Seq::<SubmessageSpec>::empty());
            },
        }
        r
    }

    /// Number of live replies of thread `msgid`; 0 when there is no such thread.
    pub fn count_submessages(&self, msgid: i64) -> (r: usize)
        requires
            self.wf(),
        ensures
            r == replies_of(self@.threads, msgid as int).len(),
    {
        match self.find_thread(msgid) {
            Some(i) => {
                assert(self@.threads[i as int] == self.threads@[i as int]@);
                self.threads[i].replies.len()
            },
            None => 0,
        }
    }

    /// The most recent reply of thread `msgid`.
    pub fn get_last_submessage(&self, msgid: i64) -> (r: Option<SubmessageRow>)
        requires
            self.wf(),
        ensures
            r.is_none() == (replies_of(self@.threads, msgid as int).len() == 0),
            r.is_some() ==> r.unwrap()@ == replies_of(self@.threads, msgid as int).last(),
    {
        match self.find_thread(msgid) {
            Some(i) => {
                assert(self@.threads[i as int] == self.threads@[i as int]@);
                let n = self.threads[i].replies.len();
                if n == 0 {
                    None
                } else {
                    Some(self.threads[i].replies[n - 1].duplicate())
                }
            },
            None => None,
        }
    }

    /// Reply `submsgid` of thread `msgid`.
    pub fn get_single_submessage(&self, msgid: i64, submsgid: i64) -> (r: Result<
        SubmessageRow,
        PostError,
    >)
        requires
            self.wf(),
        ensures
            ({
                let ts = self@.threads;
                &&& r.is_ok() == (has_thread(ts, msgid as int) && has_reply(
                    thread_of(ts, msgid as int),
                    submsgid as int,
                ))
                &&& r.is_err() ==> r == Err::<SubmessageRow, PostError>(PostError::NotFound)
                &&& r.is_ok() ==> r.unwrap()@ == thread_of(ts, msgid as int).replies[reply_index(
                    thread_of(ts, msgid as int),
                    submsgid as int,
                )]
            }),
    {
        match self.find_thread(msgid) {
            Some(i) => {
                assert(self@.threads[i as int] == self.threads@[i as int]@);
                match find_reply(&self.threads[i], submsgid) {
                    Some(k) => Ok(self.threads[i].replies[k].duplicate()),
                    None => Err(PostError::NotFound),
                }
            },
            None => Err(PostError::NotFound),
        }
    }

    /// Number of live replies over all threads of a board, capped at `u64::MAX`.
    pub fn count_board_submessages(&self, board: &str) -> (r: u64)
        requires
            self.wf(),
        ensures
            r == saturate(reply_total(board_threads(self@.threads, board@))),
    {
        let b = board.to_owned();
        let ghost ts = self@.threads;
        let mut n: u64 = 0;
        let mut i: usize = 0;
        while i < self.threads.len()
            invariant
                i <= self.threads@.len(),
                ts == self@.threads,
                ts.len() == self.threads@.len(),
                b@ == board@,
                reply_total(board_threads(ts.take(i as int), board@)) >= 0,
                n == saturate(reply_total(board_threads(ts.take(i as int), board@))),
            decreases self.threads@.len() - i,
        {
            proof {
                lemma_board_threads_take(ts, i as int, board@);
            }
            assert(ts[i as int] == self.threads@[i as int]@);
            if self.threads[i].row.board == b {
                let ghost prev = board_threads(ts.take(i as int), board@);
                assert(prev.push(ts[i as int]).drop_last() =~= prev);
                n = n.saturating_add(self.threads[i].replies.len() as u64);
            }
            i = i + 1;
        }
        assert(ts.take(i as int) =~= ts);
        n
    }

    /// Number of posts (threads and replies) on a board created strictly after
    /// `now - period`, capped at `u64::MAX`.
    pub fn get_posting_rate(&self, board: &str, period: i64, now: i64) -> (r: u64)
        requires
            self.wf(),
        ensures
            r == saturate(
                posts_after(board_threads(self@.threads, board@), now as int - period as int),
            ),
    {
        let b = board.to_owned();
        let since: i128 = now as i128 - period as i128;
        let ghost ts = self@.threads;
        let mut n: u64 = 0;
        let mut i: usize = 0;
        while i < self.threads.len()
            invariant
                i <= self.threads@.len(),
                ts == self@.threads,
                ts.len() == self.threads@.len(),
                b@ == board@,
                since == now as int - period as int,
                posts_after(board_threads(ts.take(i as int), board@), since as int) >= 0,
                n == saturate(posts_after(board_threads(ts.take(i as int), board@), since as int)),
            decreases self.threads@.len() - i,
        {
            proof {
                lemma_board_threads_take(ts, i as int, board@);
            }
            let ghost t = ts[i as int];
            assert(t == self.threads@[i as int]@);
            if self.threads[i].row.board == b {
                let ghost prev = board_threads(ts.take(i as int), board@);
                assert(prev.push(t).drop_last() =~= prev);
                if self.threads[i].row.time as i128 > since {
                    n = n.saturating_add(1);
                }
                let mut k: usize = 0;
                while k < self.threads[i].replies.len()
                    invariant
                        i < self.threads@.len(),
                        t == self.threads@[i as int]@,
                        k <= t.replies.len(),
                        t.replies.len() == self.threads@[i as int].replies@.len(),
                        since == now as int - period as int,
                        posts_after(prev, since as int) >= 0,
                        replies_after(t.replies.take(k as int), since as int) >= 0,
                        n == saturate(
                            posts_after(prev, since as int) + (if t.row.time > since {
                                1int
                            } else {
                                0int
                            }) + replies_after(t.replies.take(k as int), since as int),
                        ),
                    decreases t.replies.len() - k,
                {
                    assert(t.replies[k as int] == self.threads@[i as int].replies@[k as int]@);
                    assert(t.replies.take(k as int + 1).drop_last() =~= t.replies.take(k as int));
                    if self.threads[i].replies[k].time as i128 > since {
                        n = n.saturating_add(1);
                    }
                    k = k + 1;
                }
                assert(t.replies.take(k as int) =~= t.replies);
            }
            i = i + 1;
        }
        assert(ts.take(i as int) =~= ts);
        n
    }

    /// Adds a ledger entry flagging thread `msgid`, or its reply `submsgid` when
    /// one is given; returns the entry's id. The target is not looked up.
    pub fn insert_to_flagged(&mut self, msgid: i64, submsgid: Option<i64>) -> (r: Result<i64, PostError>)
        requires
            old(self).wf(),
        ensures
            final(self).wf(),
            old(self)@.next_entry == i64::MAX ==> r == Err::<i64, PostError>(PostError::StoreError)
                && final(self)@ == old(self)@,
            old(self)@.next_entry < i64::MAX ==> {
                let s = old(self)@;
                &&& r == Ok::<i64, PostError>(s.next_entry as i64)
                &&& final(self)@.threads == s.threads
                &&& final(self)@.next_msgid == s.next_msgid
                &&& final(self)@.next_entry == s.next_entry + 1
                &&& final(self)@.flagged == s.flagged.push(
                    FlaggedSpec {
                        entry_id: s.next_entry,
                        msg_type: if submsgid.is_some() {
                            FlagKind::Submessage
                        } else {
                            FlagKind::Message
                        },
                        msgid: msgid as int,
                        submsg_index: match submsgid {
                            Some(k) => Some(k as int),
                            None => None,
                        },
                    },
                )
            },
    {
        if self.next_entry == i64::MAX {
            return Err(PostError::StoreError);
        }
        let id = self.next_entry;
        let kind = match submsgid {
            Some(_) => FlagKind::Submessage,
            None => FlagKind::Message,
        };
        let ghost old_flags = self@.flagged;
        self.flagged.push(FlaggedRow { entry_id: id, msg_type: kind, msgid, submsg_index: submsgid });
        self.next_entry = id + 1;
        proof {
            let fs = self@.flagged;
            assert(fs.len() == old_flags.len() + 1);
            assert forall|k: int| 0 <= k < fs.len() implies {
                &&& 1 <= (#[trigger] fs[k]).entry_id < self@.next_entry
                &&& crate::model::flag_wf(fs[k])
            } by {
                if k < old_flags.len() {
                    assert(fs[k] == old_flags[k]);
                }
            }
        }
        Ok(id)
    }

    /// The flagged threads that still exist, in ledger order; a thread flagged
    /// twice comes twice.
    pub fn get_flagged_messages(&self) -> (r: Vec<MessageRow>)
        requires
            self.wf(),
        ensures
            message_views(r@) == flagged_threads(self@.flagged, self@.threads),
    {
        let ghost fs = self@.flagged;
        let mut r: Vec<MessageRow> = Vec::new();
        let mut k: usize = 0;
        while k < self.flagged.len()
            invariant
                self.wf(),
                fs == self@.flagged,
                k <= fs.len(),
                fs.len() == self.flagged@.len(),
                message_views(r@) == flagged_threads(fs.take(k as int), self@.threads),
            decreases fs.len() - k,
        {
            assert(fs[k as int] == self.flagged@[k as int]@);
            assert(fs.take(k as int + 1).drop_last() =~= fs.take(k as int));
            assert(fs.take(k as int + 1).last() == fs[k as int]);
            if self.flagged[k].msg_type == FlagKind::Message {
                match self.find_thread(self.flagged[k].msgid) {
                    Some(i) => {
                        assert(self@.threads[i as int] == self.threads@[i as int]@);
                        let ghost prev = r@;
                        r.push(self.threads[i].row.duplicate());
                        assert(message_views(r@) =~= message_views(prev).push(
                            self@.threads[i as int].row,
                        ));
                    },
                    None => {},
                }
            }
            k = k + 1;
        }
        assert(fs.take(k as int) =~= fs);
        r
    }

    /// The flagged replies that still exist, in ledger order.
    pub fn get_flagged_submessages(&self) -> (r: Vec<SubmessageRow>)
        requires
            self.wf(),
        ensures
            reply_views(r@) == flagged_replies(self@.flagged, self@.threads),
    {
        let ghost fs = self@.flagged;
        let mut r: Vec<SubmessageRow> = Vec::new();
        let mut k: usize = 0;
        while k < self.flagged.len()
            invariant
                self.wf(),
                fs == self@.flagged,
                k <= fs.len(),
                fs.len() == self.flagged@.len(),
                reply_views(r@) == flagged_replies(fs.take(k as int), self@.threads),
            decreases fs.len() - k,
        {
            assert(fs[k as int] == self.flagged@[k as int]@);
            assert(fs.take(k as int + 1).drop_last() =~= fs.take(k as int));
            assert(fs.take(k as int + 1).last() == fs[k as int]);
            if self.flagged[k].msg_type == FlagKind::Submessage {
                match self.flagged[k].submsg_index {
                    Some(ord) => {
                        match self.find_thread(self.flagged[k].msgid) {
                            Some(i) => {
                                assert(self@.threads[i as int] == self.threads@[i as int]@);
                                match find_reply(&self.threads[i], ord) {
                                    Some(j) => {
                                        let ghost prev = r@;
                                        r.push(self.threads[i].replies[j].duplicate());
                                        assert(reply_views(r@) =~= reply_views(prev).push(
                                            self@.threads[i as int].replies[j as int],
                                        ));
                                    },
                                    None => {},
                                }
                            },
                            None => {},
                        }
                    },
                    None => {},
                }
            }
            k = k + 1;
        }
        assert(fs.take(k as int) =~= fs);
        r
    }
}

} // verus!
