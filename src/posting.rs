//! The posting rules: validation, the duplicate-post guard, insertion, bumping
//! and capacity eviction, each post handled as one unit.

use vstd::prelude::*;
use crate::lemmas::{lemma_board_threads_insert, lemma_board_threads_replace, lemma_moved_lookup};
use crate::model::{
    board_threads, has_thread, media_of, moved, new_thread, replies_of, thread_index,
    thread_of, touched, valid_post, with_reply, PostError, StoreSpec, ThreadSpec,
};
use crate::store::{string_views, DatabaseWrapper};

verus! {

/// Board limits that the posting rules apply.
#[derive(Clone, Copy, Debug, PartialEq, Eq, Structural)]
pub struct BoardLimits {
    /// Replies up to this count bump their thread; it is the same for every board.
    pub bumplimit: u16,
    /// Most threads a board keeps.
    pub hard_limit: u16,
    /// Threads on one page of a board.
    pub page_limit: u16,
}

/// A thread that was accepted, and the media fields of the threads evicted to
/// make room for it, most stale first.
#[derive(Debug)]
pub struct NewThread {
    pub msgid: i64,
    pub evicted_media: Vec<String>,
}

/// The error a new thread on `board` meets, if any.
pub open spec fn thread_verdict(
    s: StoreSpec,
    board: Seq<char>,
    author_len: int,
    body: Seq<char>,
    body_len: int,
) -> Option<PostError> {
    if !valid_post(author_len, body_len) {
        Some(PostError::ValidationError)
    } else if board_threads(s.threads, board).len() > 0 && board_threads(s.threads, board)[0].row.msg
        == body {
        Some(PostError::DuplicatePost)
    } else if s.next_msgid == i64::MAX {
        Some(PostError::StoreError)
    } else {
        None
    }
}

/// The error a new reply to thread `parent` meets, if any.
pub open spec fn reply_verdict(
    s: StoreSpec,
    parent: int,
    author_len: int,
    body: Seq<char>,
    body_len: int,
) -> Option<PostError> {
    if !valid_post(author_len, body_len) {
        Some(PostError::ValidationError)
    } else if !has_thread(s.threads, parent) {
        Some(PostError::NotFound)
    } else if replies_of(s.threads, parent).len() > 0 && replies_of(s.threads, parent).last().submsg
        == body {
        Some(PostError::DuplicatePost)
    } else if thread_of(s.threads, parent).accepted == i64::MAX {
        Some(PostError::StoreError)
    } else {
        None
    }
}

/// Thread `t` after a reply at `now`: the reply is added, and the thread is bumped
/// when it now has at most `bumplimit` replies and the reply is not silent.
pub open spec fn replied(
    t: ThreadSpec,
    bumplimit: int,
    silent: bool,
    now: int,
    author: Seq<char>,
    msg: Seq<char>,
    image: Seq<char>,
) -> ThreadSpec {
    let t2 = with_reply(t, now, author, msg, image);
    if t2.replies.len() <= bumplimit && !silent {
        touched(t2, now)
    } else {
        t2
    }
}

/// No board holds more than `hard` threads.
pub open spec fn within_capacity(s: StoreSpec, hard: int) -> bool {
    forall|c: Seq<char>| #[trigger] board_threads(s.threads, c).len() <= hard
}

/// Media fields of `ts`, last thread first.
pub open spec fn media_last_first(ts: Seq<ThreadSpec>) -> Seq<Seq<char>>
    decreases ts.len(),
{
    if ts.len() == 0 {
        Seq::empty()
    } else {
        media_last_first(ts.subrange(1, ts.len() as int)) + media_of(ts[0])
    }
}

impl DatabaseWrapper {
    /// Accepts a new thread on `board` at time `now`. A body equal to that of the
    /// board's most recently active thread is refused. After the insert, while the
    /// board holds more than `hard_limit` threads, its least active thread is evicted.
    pub fn create_thread(
        &mut self,
        limits: &BoardLimits,
        board: &str,
        author: &str,
        body: &str,
        image: &str,
        now: i64,
    ) -> (r: Result<NewThread, PostError>)
        requires
            old(self).wf(),
        ensures
            final(self).wf(),
            ({
                let v = thread_verdict(
                    old(self)@,
                    board@,
                    author.len() as int,
                    body@,
                    body.len() as int,
                );
                &&& r.is_err() == v.is_some()
                &&& r.is_err() ==> r == Err::<NewThread, PostError>(v.unwrap()) && final(self)@
                    == old(self)@
            }),
            within_capacity(old(self)@, limits.hard_limit as int) ==> within_capacity(
                final(self)@,
                limits.hard_limit as int,
            ),
            r.is_ok() ==> {
                let s = old(self)@;
                let n = r.unwrap();
                let t = new_thread(s.next_msgid, board@, now as int, author@, body@, image@);
                let hard = limits.hard_limit as int;
                &&& n.msgid == s.next_msgid
                &&& final(self)@.next_msgid == s.next_msgid + 1
                &&& final(self)@.next_entry == s.next_entry
                &&& final(self)@.flagged == s.flagged
                &&& board_threads(final(self)@.threads, board@).len() == (if board_threads(
                    s.threads,
                    board@,
                ).len() + 1 <= hard {
                    board_threads(s.threads, board@).len() + 1int
                } else {
                    hard
                })
                &&& board_threads(s.threads, board@).len() + 1 <= hard ==> {
                    &&& has_thread(final(self)@.threads, n.msgid as int)
                    &&& thread_of(final(self)@.threads, n.msgid as int) == t
                }
                &&& exists|p: int|
                    #![trigger s.threads.insert(p, t)]
                    {
                        let mid = board_threads(s.threads.insert(p, t), board@);
                        let kept = if mid.len() <= hard {
                            mid.len() as int
                        } else {
                            hard
                        };
                        &&& 0 <= p <= s.threads.len()
                        &&& board_threads(final(self)@.threads, board@) == mid.take(kept)
                        &&& string_views(n.evicted_media@) == media_last_first(
                            mid.subrange(kept, mid.len() as int),
                        )
                    }
                &&& forall|c: Seq<char>|
                    c != board@ ==> #[trigger] board_threads(final(self)@.threads, c)
                        == board_threads(s.threads, c)
            },
    {
        if author.len() > crate::model::MAX_AUTHOR_LENGTH || body.len() == 0 || body.len()
            > crate::model::MAX_MESSAGE_LENGTH {
            return Err(PostError::ValidationError);
        }
        let body_text = body.to_owned();
        match self.get_last_message(board) {
            Some(last) => {
                if last.msg == body_text {
                    return Err(PostError::DuplicatePost);
                }
            },
            None => {},
        }
        let ghost s = self@;
        let id = match self.insert_to_messages(board, author, body, image, now) {
            Ok(id) => id,
            Err(e) => {
                return Err(e);
            },
        };
        let ghost t = new_thread(s.next_msgid, board@, now as int, author@, body@, image@);
        let ghost p = choose|p: int|
            0 <= p <= s.threads.len() && self@.threads == s.threads.insert(p, t);
        let ghost mid = board_threads(self@.threads, board@);
        let ghost mid_state = self@;
        proof {
            assert forall|c: Seq<char>| c != board@ implies #[trigger] board_threads(
                self@.threads,
                c,
            ) == board_threads(s.threads, c) by {
                lemma_board_threads_insert(s.threads, p, t, c);
            }
            lemma_board_threads_insert(s.threads, p, t, board@);
        }
        let hard = limits.hard_limit as usize;
        let mut evicted: Vec<String> = Vec::new();
        let mut count = self.count_messages(board);
        assert(mid.take(count as int) =~= mid);
        assert(mid.subrange(count as int, mid.len() as int) =~= Seq::<ThreadSpec>::empty());
        assert(string_views(evicted@) =~= Seq::<Seq<char>>::empty());
        while count > hard
            invariant
                self.wf(),
                count == board_threads(self@.threads, board@).len(),
                count <= mid.len(),
                count == mid.len() || count >= hard,
                mid == board_threads(s.threads.insert(p, t), board@),
                mid.len() == board_threads(s.threads, board@).len() + 1,
                mid.len() <= hard ==> self@.threads == s.threads.insert(p, t),
                0 <= p <= s.threads.len(),
                board_threads(self@.threads, board@) == mid.take(count as int),
                string_views(evicted@) == media_last_first(mid.subrange(count as int, mid.len() as int)),
                self@.next_msgid == s.next_msgid + 1,
                self@.next_entry == s.next_entry,
                self@.flagged == s.flagged,
                forall|c: Seq<char>|
                    c != board@ ==> #[trigger] board_threads(self@.threads, c) == board_threads(
                        s.threads,
                        c,
                    ),
            decreases count,
        {
            let ghost before_state = self@;
            let gone = self.delete_least_active(board);
            match gone {
                Some(mut media) => {
                    proof {
                        let q = crate::model::last_index_on(before_state.threads, board@);
                        crate::lemmas::lemma_last_index_on(before_state.threads, board@);
                        assert forall|c: Seq<char>| c != board@ implies #[trigger] board_threads(
                            self@.threads,
                            c,
                        ) == board_threads(s.threads, c) by {
                            crate::lemmas::lemma_board_threads_remove(before_state.threads, q, c);
                        }
                        let cur = mid.take(count as int);
                        assert(cur.drop_last() =~= mid.take(count as int - 1));
                        assert(cur.last() == mid[count as int - 1]);
                        let tail = mid.subrange(count as int - 1, mid.len() as int);
                        assert(tail.subrange(1, tail.len() as int) =~= mid.subrange(
                            count as int,
                            mid.len() as int,
                        ));
                        assert(tail[0] == mid[count as int - 1]);
                    }
                    let ghost prev = evicted@;
                    let ghost m = media@;
                    evicted.append(&mut media);
                    proof {
                        assert(evicted@ =~= prev + m);
                        assert(string_views(evicted@) =~= string_views(prev) + string_views(m));
                    }
                },
                None => {},
            }
            count = count - 1;
        }
        proof {
            let kept = if mid.len() <= hard { mid.len() as int } else { hard as int };
            assert(kept == count);
            assert(board_threads(s.threads.insert(p, t), board@) == mid);
            if mid.len() <= hard {
                assert(self@.threads[p] == t);
                crate::lemmas::lemma_thread_index(self@.threads, p);
            }
        }
        proof {
            assert forall|c: Seq<char>|
                #![trigger board_threads(self@.threads, c)]
                within_capacity(s, hard as int) && c != board@ implies board_threads(
                self@.threads,
                c,
            ).len() <= hard by {
                assert(board_threads(s.threads, c).len() <= hard);
            }
        }
        Ok(NewThread { msgid: id, evicted_media: evicted })
    }

    /// Accepts a reply to thread `parent` at time `now` and returns its ordinal,
    /// one past the number of replies the thread has accepted. A body equal to the
    /// thread's most recent reply is refused. The thread is bumped to `now` when it
    /// then has at most `bumplimit` replies and the reply is not silent.
    pub fn append_reply(
        &mut self,
        limits: &BoardLimits,
        parent: i64,
        author: &str,
        body: &str,
        image: &str,
        now: i64,
        silent: bool,
    ) -> (r: Result<i64, PostError>)
        requires
            old(self).wf(),
        ensures
            final(self).wf(),
            ({
                let v = reply_verdict(
                    old(self)@,
                    parent as int,
                    author.len() as int,
                    body@,
                    body.len() as int,
                );
                &&& r.is_err() == v.is_some()
                &&& r.is_err() ==> r == Err::<i64, PostError>(v.unwrap()) && final(self)@ == old(
                    self,
                )@
            }),
            r.is_ok() ==> {
                let s = old(self)@;
                let i = thread_index(s.threads, parent as int);
                let t = replied(
                    s.threads[i],
                    limits.bumplimit as int,
                    silent,
                    now as int,
                    author@,
                    body@,
                    image@,
                );
                &&& r == Ok::<i64, PostError>((s.threads[i].accepted + 1) as i64)
                &&& moved(s.threads, final(self)@.threads, i, t)
                &&& has_thread(final(self)@.threads, parent as int)
                &&& thread_of(final(self)@.threads, parent as int) == t
                &&& forall|c: Seq<char>|
                    #[trigger] board_threads(final(self)@.threads, c).len() == board_threads(
                        s.threads,
                        c,
                    ).len()
                &&& final(self)@.flagged == s.flagged
                &&& final(self)@.next_msgid == s.next_msgid
                &&& final(self)@.next_entry == s.next_entry
            },
    {
        if author.len() > crate::model::MAX_AUTHOR_LENGTH || body.len() == 0 || body.len()
            > crate::model::MAX_MESSAGE_LENGTH {
            return Err(PostError::ValidationError);
        }
        let body_text = body.to_owned();
        match self.get_last_submessage(parent) {
            Some(last) => {
                if last.submsg == body_text {
                    return Err(PostError::DuplicatePost);
                }
            },
            None => {},
        }
        let ghost s = self@;
        let ord = match self.insert_to_submessages(parent, author, body, image, now) {
            Ok(ord) => ord,
            Err(e) => {
                return Err(e);
            },
        };
        let ghost i = thread_index(s.threads, parent as int);
        let ghost t2 = with_reply(s.threads[i], now as int, author@, body@, image@);
        proof {
            lemma_moved_lookup(s.threads, self@.threads, i, t2);
        }
        let n = self.count_submessages(parent);
        if n <= limits.bumplimit as usize && !silent {
            let ghost mid = self@;
            let _ = self.update_message_activity(parent, now);
            proof {
                let j = thread_index(mid.threads, parent as int);
                let t3 = touched(t2, now as int);
                lemma_moved_lookup(mid.threads, self@.threads, j, t3);
                let p = choose|p: int| 0 <= p < s.threads.len() && mid.threads == s.threads.remove(i).insert(p, t2);
                let p2 = choose|p2: int|
                    0 <= p2 < mid.threads.len() && self@.threads == mid.threads.remove(j).insert(p2, t3);
                assert(mid.threads[p] == t2);
                crate::lemmas::lemma_thread_index(mid.threads, p);
                assert(j == p);
                assert(mid.threads.remove(j) =~= s.threads.remove(i));
                assert(self@.threads == s.threads.remove(i).insert(p2, t3));
                assert(p2 < s.threads.len());
            }
        }
        proof {
            let t = replied(
                s.threads[i],
                limits.bumplimit as int,
                silent,
                now as int,
                author@,
                body@,
                image@,
            );
            let p = choose|p: int| 0 <= p < s.threads.len() && self@.threads == s.threads.remove(i).insert(p, t);
            assert forall|c: Seq<char>|
                #[trigger] board_threads(self@.threads, c).len() == board_threads(s.threads, c).len() by {
                lemma_board_threads_replace(s.threads, i, p, t, c);
            }
        }
        Ok(ord)
    }

    /// One tick of the periodic sweep: when `board` holds more than `soft_limit`
    /// threads, its least active thread is evicted and the media fields it held are
    /// returned.
    pub fn sweep_soft_limit(&mut self, board: &str, soft_limit: u16) -> (r: Option<Vec<String>>)
        requires
            old(self).wf(),
        ensures
            final(self).wf(),
            r.is_some() == (board_threads(old(self)@.threads, board@).len() > soft_limit),
            r.is_none() ==> final(self)@ == old(self)@,
            r.is_some() ==> {
                let s = old(self)@;
                let p = crate::model::last_index_on(s.threads, board@);
                &&& final(self)@.threads == s.threads.remove(p)
                &&& board_threads(final(self)@.threads, board@) == board_threads(
                    s.threads,
                    board@,
                ).drop_last()
                &&& string_views(r.unwrap()@) == media_of(s.threads[p])
                &&& final(self)@.flagged == s.flagged
            },
    {
        if self.count_messages(board) > soft_limit as usize {
            self.delete_least_active(board)
        } else {
            None
        }
    }
}

} // verus!
