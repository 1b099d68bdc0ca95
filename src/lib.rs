//! An in-memory todo list with soft deletion, stable ids and cursor-based
//! pagination, with each operation's behaviour stated and proved.

pub mod todo;
pub mod records;
pub mod store;
pub mod laws;
