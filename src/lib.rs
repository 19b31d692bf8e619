//! Declare a tree of directories and files as plain data, and turn it into
//! the ordered, fail-fast sequence of storage calls that materialises it.

pub mod tree;
pub mod walk;
pub mod memory;
pub mod laws;
