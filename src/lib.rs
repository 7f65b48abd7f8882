//! Order-preserving parallel map over a vector, with a numeric demo
//! transformation that exercises it.

pub mod executor;
pub mod processor;
mod workers;
