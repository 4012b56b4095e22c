//! Operators that hand events to the outside.

pub mod stdout;
