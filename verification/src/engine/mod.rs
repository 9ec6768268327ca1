//! The engine: packed records, the operand relation, and the scene compiler.
pub mod buffer;
pub mod counts;
pub mod hierarchy;
pub mod layout;
pub mod math;
pub mod modifier;
pub mod object;
pub mod op;
pub mod pack;
pub mod prepare;
pub mod shape;
pub mod traversal;
