//! What the compiler keeps while it walks a script: the table of source
//! places, the constants, and which slot each variable has.

use vstd::prelude::*;
use crate::ast::docs::{ConstDoc, Docs};
use crate::ast::meta::{CompilationUnit, NodeMetas};
use crate::ast::InvokeAggrFn;
use crate::errors::{Error, ErrorKind};
use crate::pos::{Location, Range};
use crate::registry::{CustomFn, Registry};
use crate::value::{str_eq, Value, ValueType};

verus! {

/// The slot of the constant `window`.
pub const WINDOW_CONST_ID: usize = 0;

/// The slot of the constant `group`.
pub const GROUP_CONST_ID: usize = 1;

/// The slot of the constant `args`.
pub const ARGS_CONST_ID: usize = 2;

/// The last slot that is kept for the constants that every script has.
pub const LAST_RESERVED_CONST: usize = 2;

/// From the name of a local variable to its slot.
pub type Locals = halfbrown::HashMap<String, usize>;

/// From a name with its module path to a slot.
pub type Index = halfbrown::HashMap<Vec<String>, usize>;

/// The slots that the map holds, by variable name.
pub uninterp spec fn slots(m: Locals) -> Map<Seq<char>, usize>;

/// The slots that the map holds, by module path and name.
pub uninterp spec fn entries(m: Index) -> Map<Seq<Seq<char>>, usize>;

pub open spec fn no_slots() -> Map<Seq<char>, usize> {
    Map::empty()
}

pub open spec fn no_entries() -> Map<Seq<Seq<char>>, usize> {
    Map::empty()
}

/// The texts of the parts of a name.
pub open spec fn name_view(name: Seq<String>) -> Seq<Seq<char>> {
    Seq::new(name.len(), |i: int| name[i]@)
}

/// `halfbrown::HashMap::new`: a map that holds nothing.
#[verifier::external_body]
pub(crate) fn locals_new() -> (m: Locals)
    ensures
        slots(m) == no_slots(),
{
    halfbrown::HashMap::new()
}

/// `halfbrown::HashMap::get`: the slot stored under `name`, if there is one.
#[verifier::external_body]
pub(crate) fn locals_get(m: &Locals, name: &str) -> (r: Option<usize>)
    ensures
        match r {
            Some(slot) => slots(*m).contains_key(name@) && slot == slots(*m)[name@],
            None => !slots(*m).contains_key(name@),
        },
{
    m.get(name).copied()
}

/// `halfbrown::HashMap::insert`: stores `slot` under `name` in place of what
/// was there, and leaves the other names as they are.
#[verifier::external_body]
pub(crate) fn locals_insert(m: &mut Locals, name: String, slot: usize)
    ensures
        slots(*final(m)) == slots(*old(m)).insert(name@, slot),
{
    m.insert(name, slot);
}

/// `halfbrown::HashMap::is_empty`: whether the map holds nothing.
#[verifier::external_body]
pub(crate) fn locals_is_empty(m: &Locals) -> (r: bool)
    ensures
        r == (slots(*m).dom() == Set::<Seq<char>>::empty()),
{
    m.is_empty()
}

/// `halfbrown::HashMap::new`: a map that holds nothing.
#[verifier::external_body]
pub(crate) fn index_new() -> (m: Index)
    ensures
        entries(m) == no_entries(),
{
    halfbrown::HashMap::new()
}

/// `halfbrown::HashMap::get`: the slot stored under `name`, if there is one.
#[verifier::external_body]
pub(crate) fn index_get<'a>(m: &'a Index, name: &Vec<String>) -> (r: Option<&'a usize>)
    ensures
        match r {
            Some(slot) => entries(*m).contains_key(name_view(name@)) && *slot == entries(
                *m,
            )[name_view(name@)],
            None => !entries(*m).contains_key(name_view(name@)),
        },
{
    m.get(name)
}

/// `halfbrown::HashMap::insert`: stores `slot` under `name` in place of what
/// was there, leaves the other names as they are, and returns what was there.
#[verifier::external_body]
pub(crate) fn index_insert(m: &mut Index, name: Vec<String>, slot: usize) -> (r: Option<usize>)
    ensures
        entries(*final(m)) == entries(*old(m)).insert(name_view(name@), slot),
        match r {
            Some(was) => entries(*old(m)).contains_key(name_view(name@)) && was == entries(
                *old(m),
            )[name_view(name@)],
            None => !entries(*old(m)).contains_key(name_view(name@)),
        },
{
    m.insert(name, slot)
}

/// A warning that came up while a script was read.
#[derive(Debug, PartialEq, Eq)]
pub struct Warning {
    /// Outer span of the warning
    pub outer: Range,
    /// Inner span of the warning
    pub inner: Range,
    /// Warning message
    pub msg: String,
}

/// What the compiler keeps while it walks a script.
pub struct Helper<'registry> {
    pub reg: &'registry Registry,
    pub can_emit: bool,
    pub is_in_aggr: bool,
    pub aggregates: Vec<InvokeAggrFn>,
    pub warnings: Vec<Warning>,
    /// The names that are shadowed at this point, innermost last.
    pub shadowed_vars: Vec<String>,
    /// The slot kept for each level of shadowing.
    pub shadow_slots: Vec<usize>,
    /// How many slots are taken.
    pub slot_count: usize,
    pub func_vec: Vec<CustomFn>,
    pub locals: Locals,
    pub functions: Index,
    pub consts: Index,
    pub streams: Index,
    pub meta: NodeMetas,
    pub const_values: Vec<Value>,
    pub docs: Docs,
    pub module: Vec<String>,
    pub possible_leaf: bool,
    pub fn_argc: usize,
    pub is_open: bool,
    pub file_offset: Location,
    pub cu: usize,
    /// How deep expressions may be nested when constants are computed.
    pub recursion_limit: u32,
}

/// How deep expressions may be nested unless a script is loaded with another
/// limit.
pub const DEFAULT_RECURSION_LIMIT: u32 = 1024;

/// The innermost level at which `id` is shadowed, among the first `upto`
/// levels.
pub open spec fn shadow_level(shadowed: Seq<String>, id: Seq<char>, upto: int) -> Option<int>
    decreases upto,
{
    if upto <= 0 || upto > shadowed.len() {
        None
    } else if shadowed[upto - 1]@ == id {
        Some(upto - 1)
    } else {
        shadow_level(shadowed, id, upto - 1)
    }
}

/// A line without the white space at its ends, as `str::trim` gives it.
pub uninterp spec fn trimmed(line: Seq<char>) -> Seq<char>;

/// `str::trim`: the line without the white space at its ends.
#[verifier::external_body]
pub(crate) fn trim(line: &str) -> (r: String)
    ensures
        r@ == trimmed(line@),
{
    line.trim().to_string()
}

/// The first `upto` lines, each trimmed, with line breaks between them.
pub open spec fn doc_lines(lines: Seq<String>, upto: int) -> Seq<char>
    decreases upto,
{
    if upto <= 0 || upto > lines.len() {
        Seq::empty()
    } else if upto == 1 {
        trimmed(lines[0]@)
    } else {
        doc_lines(lines, upto - 1) + "\n"@ + trimmed(lines[upto - 1]@)
    }
}

impl<'registry> Helper<'registry> {
    /// The slots are sound: every named variable and every level of shadowing
    /// has a slot below the count, no two share one, and every level that is
    /// shadowed has its slot.
    pub open spec fn wf(&self) -> bool {
        &&& self.shadowed_vars@.len() <= self.shadow_slots@.len()
        &&& forall|name: Seq<char>| #[trigger]
            slots(self.locals).contains_key(name) ==> slots(self.locals)[name] < self.slot_count
        &&& forall|a: Seq<char>, b: Seq<char>|
            slots(self.locals).contains_key(a) && slots(self.locals).contains_key(b) && a != b
                ==> #[trigger] slots(self.locals)[a] != #[trigger] slots(self.locals)[b]
        &&& forall|i: int|
            0 <= i < self.shadow_slots@.len() ==> (#[trigger] self.shadow_slots@[i]) < self.slot_count
        &&& forall|i: int, j: int|
            0 <= i < j < self.shadow_slots@.len() ==> (#[trigger] self.shadow_slots@[i]) != (
            #[trigger] self.shadow_slots@[j])
        &&& forall|name: Seq<char>, i: int|
            slots(self.locals).contains_key(name) && 0 <= i < self.shadow_slots@.len() ==> (
            #[trigger] slots(self.locals)[name]) != (#[trigger] self.shadow_slots@[i])
    }

    /// The slot that the name `id` stands for: that of the innermost level at
    /// which it is shadowed, else that of the variable of this name, if the
    /// script has one.
    pub open spec fn slot_of(&self, id: Seq<char>) -> Option<usize> {
        match shadow_level(self.shadowed_vars@, id, self.shadowed_vars@.len() as int) {
            Some(level) => Some(self.shadow_slots@[level]),
            None => if slots(self.locals).contains_key(id) {
                Some(slots(self.locals)[id])
            } else {
                None
            },
        }
    }

    /// A helper for a script made of the given compilation units, with the
    /// functions of `reg`.
    pub fn new(reg: &'registry Registry, cus: Vec<CompilationUnit>) -> (r: Self)
        ensures
            r.wf(),
            r.reg == reg,
            r.can_emit,
            !r.is_in_aggr,
            r.slot_count == 0,
            slots(r.locals) == no_slots(),
            entries(r.consts) == no_entries(),
            entries(r.functions) == no_entries(),
            entries(r.streams) == no_entries(),
            r.shadowed_vars@.len() == 0,
            r.shadow_slots@.len() == 0,
            r.func_vec@.len() == 0,
            r.const_values@.len() == 0,
            r.meta.nodes@.len() == 0,
            r.meta.cus == cus,
            r.module@.len() == 0,
            r.file_offset == Location::origin(),
            r.cu == 0,
            r.recursion_limit == DEFAULT_RECURSION_LIMIT,
            r.aggregates@.len() == 0,
            r.warnings@.len() == 0,
            r.docs.consts@.len() == 0,
            r.docs.fns@.len() == 0,
            r.docs.module.is_none(),
            !r.possible_leaf,
            r.fn_argc == 0,
            !r.is_open,
    {
        Helper {
            reg,
            can_emit: true,
            is_in_aggr: false,
            aggregates: Vec::new(),
            warnings: Vec::new(),
            locals: locals_new(),
            consts: index_new(),
            streams: index_new(),
            functions: index_new(),
            func_vec: Vec::new(),
            shadowed_vars: Vec::new(),
            shadow_slots: Vec::new(),
            slot_count: 0,
            meta: NodeMetas::new(cus),
            docs: Docs::default(),
            module: Vec::new(),
            possible_leaf: false,
            fn_argc: 0,
            is_open: false,
            const_values: Vec::new(),
            file_offset: Location::default(),
            cu: 0,
            recursion_limit: DEFAULT_RECURSION_LIMIT,
        }
    }

    /// Sets up the constants that every script has: `window`, `group` and
    /// `args`, in the first three slots, each null until the engine fills it.
    pub fn init_consts(&mut self)
        ensures
            entries(final(self).consts) == entries(old(self).consts).insert(
                seq!["window"@],
                WINDOW_CONST_ID,
            ).insert(seq!["group"@], GROUP_CONST_ID).insert(seq!["args"@], ARGS_CONST_ID),
            final(self).const_values@.len() == 3,
            forall|i: int| 0 <= i < 3 ==> (#[trigger] final(self).const_values@[i])@ == crate::value::Data::Null,
            final(self).locals == old(self).locals,
            final(self).shadowed_vars == old(self).shadowed_vars,
            final(self).shadow_slots == old(self).shadow_slots,
            final(self).slot_count == old(self).slot_count,
            final(self).meta == old(self).meta,
    {
        let mut window: Vec<String> = Vec::new();
        window.push("window".to_string());
        assert(name_view(window@) =~= seq!["window"@]);
        index_insert(&mut self.consts, window, WINDOW_CONST_ID);
        let mut group: Vec<String> = Vec::new();
        group.push("group".to_string());
        assert(name_view(group@) =~= seq!["group"@]);
        index_insert(&mut self.consts, group, GROUP_CONST_ID);
        let mut args: Vec<String> = Vec::new();
        args.push("args".to_string());
        assert(name_view(args@) =~= seq!["args"@]);
        index_insert(&mut self.consts, args, ARGS_CONST_ID);
        let mut values: Vec<Value> = Vec::new();
        values.push(Value::null());
        values.push(Value::null());
        values.push(Value::null());
        self.const_values = values;
    }

    /// Adds the place of a node that stands from `start` to `end` in the
    /// source, counted from the start of the file at hand, and returns its
    /// index.
    pub fn add_meta(&mut self, start: Location, end: Location) -> (mid: usize)
        ensures
            mid == old(self).meta.nodes@.len(),
            final(self).meta.cus == old(self).meta.cus,
            final(self).meta.entries() == old(self).meta.entries().push(
                crate::ast::meta::unnamed(
                    start.relative_to(old(self).file_offset).in_unit(old(self).cu),
                    end.relative_to(old(self).file_offset).in_unit(old(self).cu),
                    old(self).cu,
                ),
            ),
            final(self).locals == old(self).locals,
            final(self).shadowed_vars == old(self).shadowed_vars,
            final(self).shadow_slots == old(self).shadow_slots,
            final(self).slot_count == old(self).slot_count,
            final(self).const_values == old(self).const_values,
    {
        let offset = self.file_offset;
        let cu = self.cu;
        self.meta.add_meta(start.minus(offset), end.minus(offset), cu)
    }

    /// Adds the place of a node with a name and returns its index.
    pub fn add_meta_w_name(&mut self, start: Location, end: Location, name: &str) -> (mid: usize)
        ensures
            mid == old(self).meta.nodes@.len(),
            final(self).meta.cus == old(self).meta.cus,
            final(self).meta.entries() == old(self).meta.entries().push(
                crate::ast::meta::NodeMetaView {
                    name: Some(name@),
                    ..crate::ast::meta::unnamed(
                        start.relative_to(old(self).file_offset).in_unit(old(self).cu),
                        end.relative_to(old(self).file_offset).in_unit(old(self).cu),
                        old(self).cu,
                    )
                },
            ),
            final(self).locals == old(self).locals,
            final(self).shadowed_vars == old(self).shadowed_vars,
            final(self).shadow_slots == old(self).shadow_slots,
            final(self).slot_count == old(self).slot_count,
            final(self).const_values == old(self).const_values,
    {
        let offset = self.file_offset;
        let cu = self.cu;
        self.meta.add_meta_w_name(start.minus(offset), end.minus(offset), name, cu)
    }

    /// Whether the script has a variable that it names itself. The slots kept
    /// for shadowing do not count.
    pub fn has_locals(&self) -> (r: bool)
        ensures
            r == exists|name: Seq<char>| slots(self.locals).contains_key(name),
    {
        let empty = locals_is_empty(&self.locals);
        proof {
            if empty {
                assert forall|name: Seq<char>| !slots(self.locals).contains_key(name) by {
                    assert(!Set::<Seq<char>>::empty().contains(name));
                }
            } else {
                if forall|name: Seq<char>| !slots(self.locals).contains_key(name) {
                    assert(slots(self.locals).dom() =~= Set::<Seq<char>>::empty());
                }
            }
        }
        !empty
    }

    /// Checks that the part of the script at hand names no variable of its
    /// own, as a module may not: it fails with `NoLocals`, at the place of the
    /// node `mid`, if there is one.
    pub fn forbid_locals(&self, mid: usize) -> (r: Result<(), Error>)
        ensures
            match r {
                Ok(()) => !(exists|name: Seq<char>| slots(self.locals).contains_key(name)),
                Err(e) => (exists|name: Seq<char>| slots(self.locals).contains_key(name)) && e
                    == Error::at(self.meta.extent_of(mid), ErrorKind::NoLocals),
            },
    {
        if self.has_locals() {
            Err(Error::new(self.meta.extent(mid), ErrorKind::NoLocals))
        } else {
            Ok(())
        }
    }

    /// The slot of the constant called `id`; it fails with `NoConsts`, at the
    /// place of the node `mid`, if no constant of this name is declared.
    pub fn require_const(&self, id: &Vec<String>, mid: usize) -> (r: Result<usize, Error>)
        ensures
            match r {
                Ok(slot) => entries(self.consts).contains_key(name_view(id@)) && slot == entries(
                    self.consts,
                )[name_view(id@)],
                Err(e) => !entries(self.consts).contains_key(name_view(id@)) && e == Error::at(
                    self.meta.extent_of(mid),
                    ErrorKind::NoConsts,
                ),
            },
    {
        match self.is_const(id) {
            Some(slot) => Ok(*slot),
            None => Err(Error::new(self.meta.extent(mid), ErrorKind::NoConsts)),
        }
    }

    /// Exchanges the aggregates, constants and variables at hand for the given
    /// ones.
    pub fn swap(&mut self, aggregates: &mut Vec<InvokeAggrFn>, consts: &mut Index, locals: &mut Locals)
        ensures
            final(self).aggregates == *old(aggregates),
            *final(aggregates) == old(self).aggregates,
            final(self).consts == *old(consts),
            *final(consts) == old(self).consts,
            final(self).locals == *old(locals),
            *final(locals) == old(self).locals,
            final(self).meta == old(self).meta,
            final(self).const_values == old(self).const_values,
            final(self).shadowed_vars == old(self).shadowed_vars,
            final(self).shadow_slots == old(self).shadow_slots,
            final(self).slot_count == old(self).slot_count,
    {
        std::mem::swap(&mut self.aggregates, aggregates);
        std::mem::swap(&mut self.consts, consts);
        std::mem::swap(&mut self.locals, locals);
    }

    /// Exchanges the aggregates and variables at hand for the given ones.
    pub fn swap2(&mut self, aggregates: &mut Vec<InvokeAggrFn>, locals: &mut Locals)
        ensures
            final(self).aggregates == *old(aggregates),
            *final(aggregates) == old(self).aggregates,
            final(self).consts == old(self).consts,
            final(self).locals == *old(locals),
            *final(locals) == old(self).locals,
            final(self).meta == old(self).meta,
            final(self).const_values == old(self).const_values,
            final(self).shadowed_vars == old(self).shadowed_vars,
            final(self).shadow_slots == old(self).shadow_slots,
            final(self).slot_count == old(self).slot_count,
    {
        std::mem::swap(&mut self.aggregates, aggregates);
        std::mem::swap(&mut self.locals, locals);
    }

    /// The innermost level at which `id` is shadowed.
    pub fn find_shadow_var(&self, id: &str) -> (r: Option<usize>)
        ensures
            match r {
                Some(level) => shadow_level(
                    self.shadowed_vars@,
                    id@,
                    self.shadowed_vars@.len() as int,
                ) == Some(level as int) && level < self.shadowed_vars@.len(),
                None => shadow_level(
                    self.shadowed_vars@,
                    id@,
                    self.shadowed_vars@.len() as int,
                ).is_none(),
            },
    {
        let mut r: Option<usize> = None;
        let mut i: usize = 0;
        while i < self.shadowed_vars.len()
            invariant
                i <= self.shadowed_vars.len(),
                match r {
                    Some(level) => shadow_level(self.shadowed_vars@, id@, i as int) == Some(
                        level as int,
                    ) && level < i,
                    None => shadow_level(self.shadowed_vars@, id@, i as int).is_none(),
                },
            decreases self.shadowed_vars.len() - i,
        {
            if str_eq(self.shadowed_vars[i].as_str(), id) {
                r = Some(i);
            }
            i += 1;
        }
        r
    }

    /// Whether the name `id` is a constant, and its slot if it is.
    pub fn is_const(&self, id: &Vec<String>) -> (r: Option<&usize>)
        ensures
            match r {
                Some(slot) => entries(self.consts).contains_key(name_view(id@)) && *slot == entries(
                    self.consts,
                )[name_view(id@)],
                None => !entries(self.consts).contains_key(name_view(id@)),
            },
    {
        index_get(&self.consts, id)
    }

    /// Records the documentation of a constant: its lines are trimmed and
    /// joined by line breaks.
    pub fn add_const_doc(&mut self, name: String, doc: Option<Vec<String>>, value_type: ValueType)
        ensures
            final(self).docs.consts@.len() == old(self).docs.consts@.len() + 1,
            forall|i: int|
                0 <= i < old(self).docs.consts@.len() ==> final(self).docs.consts@[i] == old(self).docs.consts@[i],
            final(self).docs.consts@.last().name@ == name@,
            final(self).docs.consts@.last().value_type == value_type,
            match doc {
                Some(lines) => final(self).docs.consts@.last().doc.is_some() && final(self).docs.consts@.last().doc.unwrap()@ == doc_lines(lines@, lines@.len() as int),
                None => final(self).docs.consts@.last().doc.is_none(),
            },
            final(self).docs.fns == old(self).docs.fns,
            final(self).docs.module == old(self).docs.module,
            final(self).locals == old(self).locals,
            final(self).consts == old(self).consts,
            final(self).meta == old(self).meta,
            final(self).const_values == old(self).const_values,
            final(self).shadowed_vars == old(self).shadowed_vars,
            final(self).shadow_slots == old(self).shadow_slots,
            final(self).slot_count == old(self).slot_count,
    {
        let doc = match doc {
            None => None,
            Some(lines) => {
                let mut text = String::new();
                let mut i: usize = 0;
                while i < lines.len()
                    invariant
                        i <= lines.len(),
                        text@ == doc_lines(lines@, i as int),
                    decreases lines.len() - i,
                {
                    if i > 0 {
                        text.append("\n");
                    }
                    let line = trim(lines[i].as_str());
                    text.append(line.as_str());
                    assert(text@ =~= doc_lines(lines@, i + 1));
                    i += 1;
                }
                Some(text)
            },
        };
        self.docs.consts.push(ConstDoc { name, doc, value_type });
    }

    /// Registers a function that the script defines, under the module at hand,
    /// and returns its index. A second function of the same name is an error
    /// and is not kept.
    pub fn register_fun(&mut self, f: CustomFn) -> (r: Result<usize, Error>)
        ensures
            ({
                let been = entries(old(self).functions).contains_key(
                    name_view(old(self).module@.push(f.name)),
                );
                &&& entries(final(self).functions) == entries(old(self).functions).insert(
                    name_view(old(self).module@.push(f.name)),
                    old(self).func_vec@.len() as usize,
                )
                &&& match r {
                    Ok(i) => !been && i == old(self).func_vec@.len() && final(self).func_vec@
                        == old(self).func_vec@.push(f),
                    Err(e) => been && e == Error::at(
                        Range { start: Location::origin(), end: Location::origin() },
                        ErrorKind::DoubleDefinition,
                    ) && final(self).func_vec == old(self).func_vec,
                }
            }),
            final(self).locals == old(self).locals,
            final(self).consts == old(self).consts,
            final(self).meta == old(self).meta,
            final(self).module == old(self).module,
    {
        let i = self.func_vec.len();
        let mut mf: Vec<String> = Vec::new();
        let mut k: usize = 0;
        while k < self.module.len()
            invariant
                k <= self.module.len(),
                mf@.len() == k,
                forall|j: int| 0 <= j < k ==> (#[trigger] mf@[j])@ == self.module@[j]@,
            decreases self.module.len() - k,
        {
            mf.push(self.module[k].clone());
            k += 1;
        }
        mf.push(f.name.clone());
        assert(name_view(mf@) =~= name_view(self.module@.push(f.name)));
        match index_insert(&mut self.functions, mf, i) {
            None => {
                self.func_vec.push(f);
                Ok(i)
            },
            Some(_) => {
                let extent = Range { start: Location::default(), end: Location::default() };
                Err(Error::new(extent, ErrorKind::DoubleDefinition))
            },
        }
    }

    /// The slot kept for the next level of shadowing; it is taken now if no
    /// slot is kept for that level yet.
    pub fn reserve_shadow(&mut self) -> (slot: usize)
        requires
            old(self).wf(),
            old(self).slot_count < usize::MAX,
        ensures
            final(self).wf(),
            final(self).shadowed_vars == old(self).shadowed_vars,
            final(self).locals == old(self).locals,
            final(self).meta == old(self).meta,
            final(self).shadow_slots@.len() > final(self).shadowed_vars@.len(),
            slot == final(self).shadow_slots@[final(self).shadowed_vars@.len() as int],
            if old(self).shadow_slots@.len() > old(self).shadowed_vars@.len() {
                final(self).shadow_slots == old(self).shadow_slots && final(self).slot_count == old(self).slot_count
            } else {
                final(self).shadow_slots@ == old(self).shadow_slots@.push(old(self).slot_count)
                    && final(self).slot_count == old(self).slot_count + 1
            },
    {
        let level = self.shadowed_vars.len();
        if level < self.shadow_slots.len() {
            self.shadow_slots[level]
        } else {
            let slot = self.slot_count;
            self.shadow_slots.push(slot);
            self.slot_count = slot + 1;
            slot
        }
    }

    /// The slots kept for the next two levels of shadowing.
    pub fn reserve_2_shadow(&mut self) -> (r: (usize, usize))
        requires
            old(self).wf(),
            old(self).slot_count < usize::MAX - 1,
        ensures
            final(self).wf(),
            final(self).shadowed_vars == old(self).shadowed_vars,
            final(self).locals == old(self).locals,
            final(self).meta == old(self).meta,
            final(self).shadow_slots@.len() > final(self).shadowed_vars@.len() + 1,
            r.0 == final(self).shadow_slots@[final(self).shadowed_vars@.len() as int],
            r.1 == final(self).shadow_slots@[final(self).shadowed_vars@.len() as int + 1],
            r.0 != r.1,
            old(self).shadow_slots@.len() <= final(self).shadow_slots@.len(),
            forall|i: int|
                0 <= i < old(self).shadow_slots@.len() ==> final(self).shadow_slots@[i] == old(self).shadow_slots@[i],
    {
        let level = self.shadowed_vars.len();
        let first = self.reserve_shadow();
        let kept = self.shadow_slots.len();
        let second = if level < kept - 1 {
            self.shadow_slots[level + 1]
        } else {
            let slot = self.slot_count;
            self.shadow_slots.push(slot);
            self.slot_count = slot + 1;
            slot
        };
        (first, second)
    }

    /// Opens a level of shadowing for the name `id` and returns its slot. Until
    /// the level is closed the name stands for this slot.
    pub fn register_shadow_var(&mut self, id: &str) -> (slot: usize)
        requires
            old(self).wf(),
            old(self).slot_count < usize::MAX,
        ensures
            final(self).wf(),
            final(self).shadowed_vars@.len() == old(self).shadowed_vars@.len() + 1,
            final(self).shadowed_vars@.last()@ == id@,
            forall|i: int|
                0 <= i < old(self).shadowed_vars@.len() ==> final(self).shadowed_vars@[i] == old(self).shadowed_vars@[i],
            final(self).locals == old(self).locals,
            final(self).meta == old(self).meta,
            final(self).slot_of(id@) == Some(slot),
    {
        let r = self.reserve_shadow();
        self.shadowed_vars.push(id.to_string());
        r
    }

    /// Closes the innermost level of shadowing.
    pub fn end_shadow_var(&mut self)
        requires
            old(self).wf(),
        ensures
            final(self).wf(),
            final(self).shadowed_vars@ == old(self).shadowed_vars@.take(
                if old(self).shadowed_vars@.len() > 0 {
                    old(self).shadowed_vars@.len() - 1
                } else {
                    0
                },
            ),
            final(self).shadow_slots == old(self).shadow_slots,
            final(self).slot_count == old(self).slot_count,
            final(self).locals == old(self).locals,
            final(self).meta == old(self).meta,
    {
        let ghost before = self.shadowed_vars@;
        self.shadowed_vars.pop();
        assert(self.shadowed_vars@ =~= before.take(
            if before.len() > 0 {
                before.len() - 1
            } else {
                0
            },
        ));
    }

    /// The slot that the name `id` stands for. A name that is neither shadowed
    /// nor known gets the next free slot.
    pub fn var_id(&mut self, id: &str) -> (slot: usize)
        requires
            old(self).wf(),
            old(self).slot_count < usize::MAX,
        ensures
            final(self).wf(),
            final(self).slot_of(id@) == Some(slot),
            final(self).shadowed_vars == old(self).shadowed_vars,
            final(self).shadow_slots == old(self).shadow_slots,
            final(self).meta == old(self).meta,
            match old(self).slot_of(id@) {
                Some(known) => slot == known && final(self).locals == old(self).locals && final(self).slot_count == old(self).slot_count,
                None => slot == old(self).slot_count && slots(final(self).locals) == slots(
                    old(self).locals,
                ).insert(id@, slot) && final(self).slot_count == old(self).slot_count + 1,
            },
    {
        match self.find_shadow_var(id) {
            Some(level) => self.shadow_slots[level],
            None => match locals_get(&self.locals, id) {
                Some(slot) => slot,
                None => {
                    let slot = self.slot_count;
                    locals_insert(&mut self.locals, id.to_string(), slot);
                    self.slot_count = slot + 1;
                    slot
                },
            },
        }
    }
}

} // verus!
