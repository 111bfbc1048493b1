//! An in-memory key-value and list store that speaks a line-oriented
//! request/response protocol.

mod clock;
pub mod error;
pub mod handlers;
pub mod laws;
pub mod lines;
pub mod lists;
pub mod parse;
pub mod reply;
pub mod store;
pub mod text;
