//! A single task of a todo.txt list: the record, its text grammar, its
//! renderings and the orders by which tasks are sorted.

pub mod text;
pub mod date;
pub mod tags;
pub mod task;
pub mod order;
pub mod line;
pub mod render;
pub mod laws;
