//! The side table of source places: nodes of the tree carry an index into it
//! in place of the places themselves.

use vstd::prelude::*;
use crate::pos::{Location, Range};

verus! {

/// One file of a script's source.
#[derive(Debug, PartialEq, Eq)]
pub struct CompilationUnit {
    pub file_path: String,
}

/// Where a node stands in the source, and what it is called, if anything.
#[derive(Debug, PartialEq, Eq)]
pub struct NodeMeta {
    pub start: Location,
    pub end: Location,
    pub name: Option<String>,
    /// Index of the compilation unit that the node stands in.
    pub cu: usize,
    pub terminal: bool,
}

/// A table entry as data.
pub struct NodeMetaView {
    pub start: Location,
    pub end: Location,
    pub name: Option<Seq<char>>,
    pub cu: usize,
    pub terminal: bool,
}

impl View for NodeMeta {
    type V = NodeMetaView;

    open spec fn view(&self) -> NodeMetaView {
        NodeMetaView {
            start: self.start,
            end: self.end,
            name: match self.name {
                Some(n) => Some(n@),
                None => None,
            },
            cu: self.cu,
            terminal: self.terminal,
        }
    }
}

/// The table of node places of one compilation. The index of an entry is the
/// `mid` that nodes carry.
#[derive(Debug, PartialEq, Eq)]
pub struct NodeMetas {
    pub nodes: Vec<NodeMeta>,
    pub cus: Vec<CompilationUnit>,
}

/// The entry for a node without a name that stands from `start` to `end` in
/// the unit `cu`.
pub open spec fn unnamed(start: Location, end: Location, cu: usize) -> NodeMetaView {
    NodeMetaView { start, end, name: None, cu, terminal: false }
}

impl NodeMeta {
    /// The entry for a node without a name.
    pub fn from(span: (Location, Location, usize)) -> (r: NodeMeta)
        ensures
            r@ == unnamed(span.0, span.1, span.2),
    {
        let (start, end, cu) = span;
        NodeMeta { start, end, name: None, cu, terminal: false }
    }
}

impl NodeMetas {
    /// The entries as data.
    pub open spec fn entries(&self) -> Seq<NodeMetaView> {
        Seq::new(self.nodes@.len(), |i: int| self.nodes@[i]@)
    }

    /// Where the node `idx` starts, if the table has it.
    pub open spec fn start_of(&self, idx: usize) -> Option<Location> {
        if idx < self.nodes@.len() {
            Some(self.nodes@[idx as int].start)
        } else {
            None
        }
    }

    /// Where the node `idx` ends, if the table has it.
    pub open spec fn end_of(&self, idx: usize) -> Option<Location> {
        if idx < self.nodes@.len() {
            Some(self.nodes@[idx as int].end)
        } else {
            None
        }
    }

    /// The stretch of source that the node `idx` covers; the empty stretch at
    /// the start of the text for a node that the table does not have.
    pub open spec fn extent_of(&self, idx: usize) -> Range {
        Range {
            start: match self.start_of(idx) {
                Some(l) => l,
                None => Location::origin(),
            },
            end: match self.end_of(idx) {
                Some(l) => l,
                None => Location::origin(),
            },
        }
    }

    /// The name of the node `idx`, if the table has the node and it has a
    /// name.
    pub open spec fn name_of(&self, idx: usize) -> Option<Seq<char>> {
        if idx < self.nodes@.len() {
            self.nodes@[idx as int]@.name
        } else {
            None
        }
    }

    /// An empty table for the given compilation units.
    pub fn new(cus: Vec<CompilationUnit>) -> (r: NodeMetas)
        ensures
            r.nodes@.len() == 0,
            r.cus == cus,
    {
        NodeMetas { nodes: Vec::new(), cus }
    }

    /// Adds an entry without a name and returns its index.
    pub fn add_meta(&mut self, start: Location, end: Location, cu: usize) -> (mid: usize)
        ensures
            mid == old(self).nodes@.len(),
            final(self).cus == old(self).cus,
            final(self).entries() == old(self).entries().push(
                unnamed(start.in_unit(cu), end.in_unit(cu), cu),
            ),
    {
        let ghost before = self.entries();
        let mut start = start;
        let mut end = end;
        let mid = self.nodes.len();
        start.set_cu(cu);
        end.set_cu(cu);
        self.nodes.push(NodeMeta::from((start, end, cu)));
        assert(self.entries() =~= before.push(unnamed(start, end, cu)));
        mid
    }

    /// Adds an entry with a name and returns its index.
    pub fn add_meta_w_name(&mut self, start: Location, end: Location, name: &str, cu: usize) -> (mid: usize)
        ensures
            mid == old(self).nodes@.len(),
            final(self).cus == old(self).cus,
            final(self).entries() == old(self).entries().push(
                NodeMetaView {
                    name: Some(name@),
                    ..unnamed(start.in_unit(cu), end.in_unit(cu), cu)
                },
            ),
    {
        let ghost before = self.entries();
        let mut start = start;
        let mut end = end;
        start.set_cu(cu);
        end.set_cu(cu);
        let mid = self.nodes.len();
        self.nodes.push(NodeMeta { start, end, cu, name: Some(name.to_string()), terminal: false });
        assert(self.entries() =~= before.push(
            NodeMetaView { name: Some(name@), ..unnamed(start, end, cu) },
        ));
        mid
    }

    pub fn start(&self, idx: usize) -> (r: Option<Location>)
        ensures
            r == self.start_of(idx),
    {
        if idx < self.nodes.len() {
            Some(self.nodes[idx].start)
        } else {
            None
        }
    }

    pub fn end(&self, idx: usize) -> (r: Option<Location>)
        ensures
            r == self.end_of(idx),
    {
        if idx < self.nodes.len() {
            Some(self.nodes[idx].end)
        } else {
            None
        }
    }

    /// The stretch of source that the node `idx` covers.
    pub fn extent(&self, idx: usize) -> (r: Range)
        ensures
            r == self.extent_of(idx),
    {
        Range {
            start: match self.start(idx) {
                Some(l) => l,
                None => Location::default(),
            },
            end: match self.end(idx) {
                Some(l) => l,
                None => Location::default(),
            },
        }
    }

    pub fn name(&self, idx: usize) -> (r: Option<&String>)
        ensures
            match r {
                Some(n) => self.name_of(idx) == Some(n@),
                None => self.name_of(idx).is_none(),
            },
    {
        if idx < self.nodes.len() {
            match &self.nodes[idx].name {
                Some(n) => Some(n),
                None => None,
            }
        } else {
            None
        }
    }

    /// The file of the compilation unit that the node `idx` stands in, if the
    /// table has the node and the unit.
    pub fn cu(&self, idx: usize) -> (r: Option<&str>)
        ensures
            match r {
                Some(path) => idx < self.nodes@.len() && self.nodes@[idx as int].cu < self.cus@.len()
                    && path@ == self.cus@[self.nodes@[idx as int].cu as int].file_path@,
                None => !(idx < self.nodes@.len() && self.nodes@[idx as int].cu < self.cus@.len()),
            },
    {
        if idx < self.nodes.len() {
            let cu = self.nodes[idx].cu;
            if cu < self.cus.len() {
                Some(self.cus[cu].file_path.as_str())
            } else {
                None
            }
        } else {
            None
        }
    }

    /// The name of the node `idx`, or `<UNKNOWN>` where it has none.
    pub fn name_dflt(&self, idx: usize) -> (r: String)
        ensures
            r@ == (match self.name_of(idx) {
                Some(n) => n,
                None => "<UNKNOWN>"@,
            }),
    {
        match self.name(idx) {
            Some(n) => n.clone(),
            None => "<UNKNOWN>".to_string(),
        }
    }
}

} // verus!
