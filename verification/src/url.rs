//! Addresses of the engine's parts, in the shape `scheme://instance/port`.

use vstd::prelude::*;

verus! {

/// An address as data: which kind of part, which instance of it, and the port
/// on that instance, if the address names one.
pub struct Address {
    pub scheme: Seq<char>,
    pub instance: Seq<char>,
    pub port: Option<Seq<char>>,
}

/// The address of a pipeline, a source or a sink, or of one port of it.
#[derive(Debug, PartialEq, Eq, Hash)]
pub struct TremorUrl {
    pub scheme: String,
    pub instance: String,
    pub port: Option<String>,
}

/// The address by which a running part is known.
pub type ServantId = TremorUrl;

impl View for TremorUrl {
    type V = Address;

    open spec fn view(&self) -> Address {
        Address {
            scheme: self.scheme@,
            instance: self.instance@,
            port: match self.port {
                Some(p) => Some(p@),
                None => None,
            },
        }
    }
}

impl Clone for TremorUrl {
    fn clone(&self) -> (r: Self)
        ensures
            r@ == self@,
    {
        TremorUrl {
            scheme: self.scheme.clone(),
            instance: self.instance.clone(),
            port: match &self.port {
                Some(p) => Some(p.clone()),
                None => None,
            },
        }
    }
}

impl Address {
    /// The same address without its port.
    pub open spec fn instance_only(self) -> Address {
        Address { scheme: self.scheme, instance: self.instance, port: None }
    }

    /// The address written out: the scheme, `://`, the instance and, if the
    /// address names a port, `/` and the port.
    pub open spec fn text(self) -> Seq<char> {
        self.scheme + "://"@ + self.instance + (match self.port {
            Some(p) => "/"@ + p,
            None => Seq::empty(),
        })
    }
}

impl TremorUrl {
    /// The address of `instance` among the parts of kind `scheme`, with no port.
    pub fn new(scheme: &str, instance: &str) -> (r: Self)
        ensures
            r@ == (Address { scheme: scheme@, instance: instance@, port: None }),
    {
        TremorUrl { scheme: scheme.to_string(), instance: instance.to_string(), port: None }
    }

    /// The address of the port `port` of `instance`.
    pub fn with_port(scheme: &str, instance: &str, port: &str) -> (r: Self)
        ensures
            r@ == (Address { scheme: scheme@, instance: instance@, port: Some(port@) }),
    {
        TremorUrl {
            scheme: scheme.to_string(),
            instance: instance.to_string(),
            port: Some(port.to_string()),
        }
    }

    /// The port that the address names, if it names one.
    pub fn instance_port(&self) -> (r: Option<&str>)
        ensures
            match r {
                Some(p) => self@.port == Some(p@),
                None => self@.port.is_none(),
            },
    {
        match &self.port {
            Some(p) => Some(p.as_str()),
            None => None,
        }
    }

    /// Drops the port, so that the address names the instance as a whole.
    pub fn trim_to_instance(&mut self)
        ensures
            final(self)@ == old(self)@.instance_only(),
    {
        self.port = None;
    }

    /// The address written out.
    pub fn to_string(&self) -> (r: String)
        ensures
            r@ == self@.text(),
    {
        let mut r = self.scheme.clone();
        r.append("://");
        r.append(self.instance.as_str());
        match &self.port {
            Some(p) => {
                r.append("/");
                r.append(p.as_str());
                assert(r@ =~= self@.text());
            },
            None => {
                assert(r@ =~= self@.text());
            },
        }
        r
    }

    /// Whether two addresses name the same thing.
    pub fn equals(&self, other: &TremorUrl) -> (r: bool)
        ensures
            r == (self@ == other@),
    {
        let ports = match (&self.port, &other.port) {
            (Some(a), Some(b)) => *a == *b,
            (None, None) => true,
            _ => false,
        };
        ports && self.scheme == other.scheme && self.instance == other.instance
    }
}

} // verus!
