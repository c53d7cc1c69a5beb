//! What the coordinator owns and the messages it exchanges with sessions.

pub mod messages;
pub mod state;
pub mod user;
