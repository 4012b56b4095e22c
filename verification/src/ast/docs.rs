//! Documentation that a script carries for its constants, functions and
//! module, and its rendering as text.

use vstd::prelude::*;
use crate::value::ValueType;

verus! {

/// Documentation of a constant.
#[derive(Debug, PartialEq, Eq)]
pub struct ConstDoc {
    /// Constant name
    pub name: String,
    /// Constant documentation
    pub doc: Option<String>,
    /// Constant value type
    pub value_type: ValueType,
}

/// Documentation of a function.
#[derive(Debug, PartialEq, Eq)]
pub struct FnDoc {
    /// Function name
    pub name: String,
    /// Function arguments
    pub args: Vec<String>,
    /// Function documentation
    pub doc: Option<String>,
    /// Whether the function takes more arguments than it names
    pub open: bool,
}

/// Documentation of a module.
#[derive(Debug, PartialEq, Eq)]
pub struct ModDoc {
    /// Module name
    pub name: String,
    /// Module documentation
    pub doc: Option<String>,
}

/// The documentation of a script.
#[derive(Debug, PartialEq, Eq)]
pub struct Docs {
    /// Constants
    pub consts: Vec<ConstDoc>,
    /// Functions
    pub fns: Vec<FnDoc>,
    /// Module level documentation
    pub module: Option<ModDoc>,
}

/// The name of a type, as documentation shows it.
pub open spec fn kind_label(t: ValueType) -> Seq<char> {
    match t {
        ValueType::Null => "Null"@,
        ValueType::Bool => "Bool"@,
        ValueType::I64 => "I64"@,
        ValueType::String => "String"@,
        ValueType::Array => "Array"@,
        ValueType::Object => "Object"@,
    }
}

/// The text of a documentation comment; nothing where there is none.
pub open spec fn doc_text(doc: Option<String>) -> Seq<char> {
    match doc {
        Some(d) => d@,
        None => Seq::empty(),
    }
}

/// The first `upto` names with `, ` between them.
pub open spec fn listed(names: Seq<String>, upto: int) -> Seq<char>
    decreases upto,
{
    if upto <= 0 || upto > names.len() {
        Seq::empty()
    } else if upto == 1 {
        names[0]@
    } else {
        listed(names, upto - 1) + ", "@ + names[upto - 1]@
    }
}

/// The section that documents a constant.
pub open spec fn const_section(name: Seq<char>, t: ValueType, doc: Seq<char>) -> Seq<char> {
    "\n### "@ + name + "\n\n*type*: "@ + kind_label(t) + "\n\n"@ + doc + "\n        "@
}

/// The section that documents a function.
pub open spec fn fn_section(name: Seq<char>, args: Seq<char>, doc: Seq<char>) -> Seq<char> {
    "\n### "@ + name + "("@ + args + ")\n\n"@ + doc + "\n        "@
}

/// The heading that documents a module.
pub open spec fn mod_section(name: Seq<char>, doc: Seq<char>) -> Seq<char> {
    "\n# "@ + name + "\n\n\n"@ + doc + "\n        "@
}

/// Appends a documentation comment, if there is one.
fn push_doc(out: &mut String, doc: &Option<String>)
    ensures
        final(out)@ == old(out)@ + doc_text(*doc),
{
    match doc {
        Some(d) => {
            out.append(d.as_str());
        },
        None => {
            assert(out@ + Seq::<char>::empty() =~= out@);
        },
    }
}

impl ConstDoc {
    /// The section that documents the constant.
    pub fn to_string(&self) -> (r: String)
        ensures
            r@ == const_section(self.name@, self.value_type, doc_text(self.doc)),
    {
        let mut r = "\n### ".to_string();
        r.append(self.name.as_str());
        r.append("\n\n*type*: ");
        r.append(
            match self.value_type {
                ValueType::Null => "Null",
                ValueType::Bool => "Bool",
                ValueType::I64 => "I64",
                ValueType::String => "String",
                ValueType::Array => "Array",
                ValueType::Object => "Object",
            },
        );
        r.append("\n\n");
        push_doc(&mut r, &self.doc);
        r.append("\n        ");
        r
    }
}

impl ModDoc {
    /// The heading that documents the module, under the name `name`.
    pub fn print_with_name(&self, name: &str) -> (r: String)
        ensures
            r@ == mod_section(name@, doc_text(self.doc)),
    {
        let mut r = "\n# ".to_string();
        r.append(name);
        r.append("\n\n\n");
        push_doc(&mut r, &self.doc);
        r.append("\n        ");
        r
    }
}

impl FnDoc {
    /// The section that documents the function.
    pub fn to_string(&self) -> (r: String)
        ensures
            r@ == fn_section(self.name@, listed(self.args@, self.args@.len() as int), doc_text(self.doc)),
    {
        let mut args = String::new();
        let mut i: usize = 0;
        while i < self.args.len()
            invariant
                i <= self.args.len(),
                args@ == listed(self.args@, i as int),
            decreases self.args.len() - i,
        {
            if i > 0 {
                args.append(", ");
            }
            args.append(self.args[i].as_str());
            assert(args@ =~= listed(self.args@, i + 1));
            i += 1;
        }
        let mut r = "\n### ".to_string();
        r.append(self.name.as_str());
        r.append("(");
        r.append(args.as_str());
        r.append(")\n\n");
        push_doc(&mut r, &self.doc);
        r.append("\n        ");
        r
    }
}

impl Default for Docs {
    fn default() -> (r: Docs)
        ensures
            r.consts@.len() == 0,
            r.fns@.len() == 0,
            r.module.is_none(),
    {
        Docs { consts: Vec::new(), fns: Vec::new(), module: None }
    }
}

} // verus!
