//! Per-board figures for the moderation dashboard.

use vstd::prelude::*;
use crate::model::{board_threads, posts_after, reply_total, saturate};
use crate::store::DatabaseWrapper;

verus! {

/// Counts shown for one board.
#[derive(Clone, Copy, Debug, PartialEq, Eq, Structural)]
pub struct BoardStats {
    pub thread_count: u64,
    pub reply_count: u64,
    /// Threads and replies together.
    pub post_count: u64,
    /// Posts created within the chosen period.
    pub posting_rate: u64,
}

impl DatabaseWrapper {
    /// Thread, reply and post counts of a board, and how many posts it received in
    /// the `period` seconds before `now`. Each count stops at `u64::MAX`.
    pub fn board_statistics(&self, board: &str, period: i64, now: i64) -> (r: BoardStats)
        requires
            self.wf(),
        ensures
            r.thread_count == saturate(board_threads(self@.threads, board@).len() as int),
            r.reply_count == saturate(reply_total(board_threads(self@.threads, board@))),
            r.post_count == saturate(r.thread_count + r.reply_count),
            r.posting_rate == saturate(
                posts_after(board_threads(self@.threads, board@), now as int - period as int),
            ),
    {
        let threads = self.count_messages(board);
        let thread_count: u64 = if threads as u128 > u64::MAX as u128 {
            u64::MAX
        } else {
            threads as u64
        };
        let reply_count = self.count_board_submessages(board);
        let post_count = thread_count.saturating_add(reply_count);
        let posting_rate = self.get_posting_rate(board, period, now);
        BoardStats { thread_count, reply_count, post_count, posting_rate }
    }
}

} // verus!
