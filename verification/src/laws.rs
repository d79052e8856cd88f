//! What the operations of the library are for, stated of their inputs and results.
pub mod building;
pub mod format;
pub mod order;
pub mod search;
pub mod walking;
