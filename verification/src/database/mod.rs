//! The store: the value types, and the keyed collections that hold them.

pub mod data_structure;
pub mod db;
