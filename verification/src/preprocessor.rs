//! Preprocessors turn chunks of a byte stream into whole messages.

pub mod syslog;
