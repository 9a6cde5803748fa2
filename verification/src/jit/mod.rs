//! Translation of hot guest code.

pub mod ir;
pub mod lower;
pub mod block;
pub mod engine;
