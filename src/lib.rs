//! Detection of a user posting the same message across many channels of a
//! chat server within a short time, and the moderation actions that follow.

pub mod record;
pub mod equivalence;
pub mod window;
pub mod counter;
pub mod policy;
pub mod guard;
pub mod dispatch;
