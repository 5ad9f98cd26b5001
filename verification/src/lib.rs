//! A terminal planner's core: time stamps taken from an SNTP reply, the plan
//! record with its line encoding, the line-per-record store, and the session
//! state machine that browses and deletes records.

pub mod clock;
pub mod json;
pub mod layout;
pub mod plan;
pub mod session;
pub mod store;
pub mod text;
