//! Small shared value types.

pub mod point;
pub mod text;
