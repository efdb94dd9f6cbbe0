//! Post store of a small imageboard: threads and replies on named boards,
//! ordered by activity, bumped by replies, evicted at a per-board capacity,
//! guarded against immediate repeats, and moderated through a flag ledger.

pub mod clock;
pub mod dashboard;
pub mod laws;
pub mod lemmas;
pub mod media;
pub mod model;
pub mod posting;
pub mod query;
pub mod rows;
pub mod store;
pub mod text;
