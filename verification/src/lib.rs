//! Core of an in-process event-stream engine: framing of inbound byte streams,
//! the value model, the script language with its constant folding and its
//! interpreter, the executable graph, and the pipeline actor with its routing
//! and circuit-breaker protocol.

pub mod ast;
pub mod binding;
pub mod codec;
pub mod comprehension;
pub mod errors;
pub mod event;
pub mod graph;
pub mod interpreter;
pub mod matching;
pub mod meaning;
pub mod merge;
pub mod offramp;
pub mod op;
pub mod patch;
pub mod pipeline;
pub mod pos;
pub mod preprocessor;
pub mod registry;
pub mod script;
pub mod sink;
pub mod table;
pub mod text;
pub mod tilde;
pub mod url;
pub mod value;
