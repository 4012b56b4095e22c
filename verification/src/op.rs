//! Operators that stand at the end of a pipeline.

pub mod offramp;
