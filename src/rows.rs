//! Rows kept by the store and their mathematical models.

use vstd::prelude::*;

verus! {

/// Model of a thread row.
pub ghost struct MessageSpec {
    pub msgid: int,
    pub board: Seq<char>,
    pub time: int,
    pub author: Seq<char>,
    pub msg: Seq<char>,
    pub image: Seq<char>,
    pub latest_submsg: int,
}

/// Model of a reply row.
pub ghost struct SubmessageSpec {
    pub parent_msg: int,
    pub submsg_id: int,
    pub board: Seq<char>,
    pub time: int,
    pub author: Seq<char>,
    pub submsg: Seq<char>,
    pub image: Seq<char>,
}

/// What a ledger entry points at.
#[derive(Clone, Copy, Debug, PartialEq, Eq, Structural)]
pub enum FlagKind {
    Message,
    Submessage,
}

/// Model of a ledger entry.
pub ghost struct FlaggedSpec {
    pub entry_id: int,
    pub msg_type: FlagKind,
    pub msgid: int,
    pub submsg_index: Option<int>,
}

/// A thread: `latest_submsg` is the time of its last activity, and `image`
/// holds its media paths, each followed by `;`.
#[derive(Debug)]
pub struct MessageRow {
    pub msgid: i64,
    pub board: String,
    pub time: i64,
    pub author: String,
    pub msg: String,
    pub image: String,
    pub latest_submsg: i64,
}

/// A reply, keyed by its thread and its ordinal `submsg_id`.
#[derive(Debug)]
pub struct SubmessageRow {
    pub parent_msg: i64,
    pub submsg_id: i64,
    pub board: String,
    pub time: i64,
    pub author: String,
    pub submsg: String,
    pub image: String,
}

/// A moderation flag: a weak reference to a thread, or to one of its replies.
#[derive(Debug)]
pub struct FlaggedRow {
    pub entry_id: i64,
    pub msg_type: FlagKind,
    pub msgid: i64,
    pub submsg_index: Option<i64>,
}

impl View for MessageRow {
    type V = MessageSpec;

    open spec fn view(&self) -> MessageSpec {
        MessageSpec {
            msgid: self.msgid as int,
            board: self.board@,
            time: self.time as int,
            author: self.author@,
            msg: self.msg@,
            image: self.image@,
            latest_submsg: self.latest_submsg as int,
        }
    }
}

impl View for SubmessageRow {
    type V = SubmessageSpec;

    open spec fn view(&self) -> SubmessageSpec {
        SubmessageSpec {
            parent_msg: self.parent_msg as int,
            submsg_id: self.submsg_id as int,
            board: self.board@,
            time: self.time as int,
            author: self.author@,
            submsg: self.submsg@,
            image: self.image@,
        }
    }
}

impl View for FlaggedRow {
    type V = FlaggedSpec;

    open spec fn view(&self) -> FlaggedSpec {
        FlaggedSpec {
            entry_id: self.entry_id as int,
            msg_type: self.msg_type,
            msgid: self.msgid as int,
            submsg_index: match self.submsg_index {
                Some(k) => Some(k as int),
                None => None,
            },
        }
    }
}

impl MessageRow {
    /// A copy of the row.
    pub fn duplicate(&self) -> (r: MessageRow)
        ensures
            r@ == self@,
    {
        MessageRow {
            msgid: self.msgid,
            board: self.board.clone(),
            time: self.time,
            author: self.author.clone(),
            msg: self.msg.clone(),
            image: self.image.clone(),
            latest_submsg: self.latest_submsg,
        }
    }
}

impl SubmessageRow {
    /// A copy of the row.
    pub fn duplicate(&self) -> (r: SubmessageRow)
        ensures
            r@ == self@,
    {
        SubmessageRow {
            parent_msg: self.parent_msg,
            submsg_id: self.submsg_id,
            board: self.board.clone(),
            time: self.time,
            author: self.author.clone(),
            submsg: self.submsg.clone(),
            image: self.image.clone(),
        }
    }
}

} // verus!
