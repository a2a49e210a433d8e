//! An in-memory key/value store with scalar, list, set and sorted-set
//! values, and the reader of its line-oriented command protocol.

pub mod clock;
pub mod command;
pub mod database;
pub mod laws;
pub mod table;
pub mod text;
