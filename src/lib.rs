//! Per-entity component storage with borrows tracked at run time.

pub mod borrow_cell;
pub mod entity;
pub mod query;
pub mod world;
pub mod asset;
pub mod input;
