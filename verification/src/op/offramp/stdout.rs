//! The operator that writes events to the standard output, each behind a
//! prefix.

use vstd::prelude::*;
use vstd::utf8::{decode_utf8, valid_utf8};
use crate::text::{read_text, utf8_error_text};
use crate::value::{Data, Value};

verus! {

/// The configuration of the operator.
#[derive(Debug, PartialEq, Eq)]
pub struct Config {
    /// What is written before each message (default: nothing)
    pub prefix: Option<String>,
}

/// Why a configuration cannot be used.
#[derive(Clone, Copy, Debug, PartialEq, Eq, Structural)]
pub enum ConfigError {
    /// The configuration is no record.
    NotARecord,
    /// The prefix is no string.
    BadPrefix,
}

/// An operator that writes to the standard output.
#[derive(Debug, PartialEq, Eq)]
pub struct Offramp {
    pub config: Config,
}

/// The prefix that a configuration names, if it names one.
pub open spec fn configured(opts: Data) -> Result<Option<Seq<char>>, ConfigError> {
    match opts {
        Data::Null => Ok(None),
        Data::Object(_) => match opts.field("prefix"@) {
            None => Ok(None),
            Some(Data::Null) => Ok(None),
            Some(Data::String(p)) => Ok(Some(p)),
            Some(_) => Err(ConfigError::BadPrefix),
        },
        _ => Err(ConfigError::NotARecord),
    }
}

/// A prefix as data.
pub open spec fn prefix_view(prefix: Option<String>) -> Option<Seq<char>> {
    match prefix {
        Some(p) => Some(p@),
        None => None,
    }
}

/// The prefix for one event: the string that the event's variable `prefix`
/// holds, else the configured prefix, else nothing.
pub open spec fn prefix_for(vars: Data, configured: Option<Seq<char>>) -> Seq<char> {
    match vars.field("prefix"@) {
        Some(Data::String(p)) => p,
        _ => match configured {
            Some(p) => p,
            None => Seq::empty(),
        },
    }
}

/// The line that is written for the raw message `raw`: the prefix, then the
/// message if it is text, else what `{:?}` shows of the error that says why it
/// is none.
pub open spec fn line(prefix: Seq<char>, raw: Seq<u8>) -> Seq<char> {
    if valid_utf8(raw) {
        prefix + decode_utf8(raw)
    } else {
        prefix + utf8_error_text(raw)
    }
}

impl Offramp {
    /// The operator with the configuration `opts`: null for the default, else
    /// a record that may name a `prefix`.
    pub fn new(opts: &Value) -> (r: Result<Offramp, ConfigError>)
        ensures
            match r {
                Ok(o) => configured(opts@) == Ok::<Option<Seq<char>>, ConfigError>(
                    prefix_view(o.config.prefix),
                ),
                Err(e) => configured(opts@) == Err::<Option<Seq<char>>, ConfigError>(e),
            },
    {
        match opts {
            Value::Null => Ok(Offramp { config: Config { prefix: None } }),
            Value::Object(_) => match opts.get("prefix") {
                None => Ok(Offramp { config: Config { prefix: None } }),
                Some(Value::Null) => Ok(Offramp { config: Config { prefix: None } }),
                Some(Value::String(p)) => Ok(Offramp { config: Config { prefix: Some(p.clone()) } }),
                Some(_) => Err(ConfigError::BadPrefix),
            },
            _ => Err(ConfigError::NotARecord),
        }
    }

    /// The line to write for an event with the raw message `raw` and the
    /// variables `vars`.
    pub fn exec(&mut self, raw: Vec<u8>, vars: &Value) -> (r: String)
        ensures
            *final(self) == *old(self),
            r@ == line(prefix_for(vars@, prefix_view(old(self).config.prefix)), raw@),
    {
        let mut pfx = match vars.get("prefix") {
            Some(Value::String(p)) => p.clone(),
            _ => match &self.config.prefix {
                Some(p) => p.clone(),
                None => String::new(),
            },
        };
        match read_text(raw) {
            Ok(s) => {
                pfx.append(s.as_str());
            },
            Err(e) => {
                pfx.append(e.as_str());
            },
        }
        pfx
    }
}

} // verus!
