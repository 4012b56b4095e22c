//! Constant folding: an operation whose operands are all literals is computed
//! when the script is loaded and replaced by the literal that it gives.

use vstd::prelude::*;
use crate::ast::helper::{Helper, LAST_RESERVED_CONST};
use crate::ast::{
    BinExpr, Field, ImutExpr, ImutExprInt, Invocable, Invoke, List, Literal, LocalPath, Path, Record,
    UnaryExpr,
};
use crate::errors::{Error, ErrorKind};
use crate::interpreter::{
    binary_at, call, call_fn, cx_of, eval_fields, exec_binary, exec_unary, gives,
    lemma_fields_stick, unary_at, Cx, Env, EventContext, LocalStack,
};
use crate::pos::Range;
use crate::value::ValueType;
use crate::value::{items_view, lemma_array_view, Data, Value};

verus! {

/// What a constant expression can read: the constants and the table of source
/// places of the compilation at hand, and nothing of any event.
pub open spec fn const_cx(helper: Helper) -> Cx {
    Cx {
        event: Data::Null,
        state: Data::Null,
        meta: Data::Null,
        locals: Seq::empty(),
        consts: items_view(helper.const_values@),
        metas: helper.meta,
        at: 0,
        limit: helper.recursion_limit as nat,
    }
}

/// Whether an expression is a literal.
pub fn is_lit(e: &ImutExprInt) -> (r: bool)
    ensures
        r == (e is Literal),
{
    match e {
        ImutExprInt::Literal(_) => true,
        _ => false,
    }
}

/// Whether every expression of a list is a literal.
pub open spec fn all_literal(exprs: Seq<ImutExpr>) -> bool {
    forall|i: int| 0 <= i < exprs.len() ==> (#[trigger] exprs[i]).0 is Literal
}

/// Whether the name and the value of every field are literals.
pub open spec fn all_literal_fields(fields: Seq<Field>) -> bool {
    forall|i: int|
        0 <= i < fields.len() ==> (#[trigger] fields[i]).name is Literal && fields[i].value is Literal
}

/// The values of a list of literals.
pub open spec fn literal_values(exprs: Seq<ImutExpr>) -> Seq<Data> {
    Seq::new(exprs.len(), |i: int| exprs[i].0->Literal_0.value@)
}

/// The value of a literal; an error for any other expression.
pub fn reduce2(expr: ImutExprInt, helper: &Helper) -> (r: Result<Value, Error>)
    ensures
        match expr {
            ImutExprInt::Literal(l) => r == Ok::<Value, Error>(l.value),
            _ => r == Err::<Value, Error>(
                Error::at(helper.meta.extent_of(expr.mid_of()), ErrorKind::NotConstant),
            ),
        },
{
    match expr {
        ImutExprInt::Literal(l) => Ok(l.value),
        other => Err(Error::new(helper.meta.extent(other.mid()), ErrorKind::NotConstant)),
    }
}

/// Whether every expression of `exprs` is a literal.
fn all_lit(exprs: &Vec<ImutExpr>) -> (r: bool)
    ensures
        r == all_literal(exprs@),
{
    let mut i: usize = 0;
    while i < exprs.len()
        invariant
            i <= exprs.len(),
            forall|j: int| 0 <= j < i ==> (#[trigger] exprs@[j]).0 is Literal,
        decreases exprs.len() - i,
    {
        if !is_lit(&exprs[i].0) {
            return false;
        }
        i += 1;
    }
    true
}

/// The values of a list of literals.
fn take_values(exprs: Vec<ImutExpr>, helper: &Helper) -> (r: Vec<Value>)
    requires
        all_literal(exprs@),
    ensures
        items_view(r@) == literal_values(exprs@),
{
    let ghost all = exprs@;
    let mut values: Vec<Value> = Vec::new();
    for e in it: exprs
        invariant
            all == it.seq(),
            all_literal(all),
            values@.len() == it.index(),
            forall|j: int| 0 <= j < it.index() ==> (#[trigger] values@[j])@ == literal_values(all)[j],
    {
        assert(all[it.index() as int].0 is Literal);
        match reduce2(e.0, helper) {
            Ok(v) => {
                values.push(v);
            },
            Err(_) => {
                assert(false);
            },
        }
    }
    assert(items_view(values@) =~= literal_values(all));
    values
}

impl BinExpr {
    /// Folds the operation if both operands are literals: the result is the
    /// literal that the operator gives for them, or the error with which it
    /// fails. Any other operation is handed back as it is.
    pub fn try_reduce(self, helper: &Helper) -> (r: Result<ImutExprInt, Error>)
        ensures
            match (self.lhs, self.rhs) {
                (ImutExprInt::Literal(l), ImutExprInt::Literal(rhs)) => match binary_at(
                    helper.meta.extent_of(self.mid),
                    helper.meta.extent_of(self.mid),
                    self.kind,
                    l.value@,
                    rhs.value@,
                ) {
                    Ok(v) => r matches Ok(ImutExprInt::Literal(lit)) && lit.mid == self.mid
                        && lit.value@ == v,
                    Err(e) => r == Err::<ImutExprInt, Error>(e),
                },
                _ => r == Ok::<ImutExprInt, Error>(ImutExprInt::Binary(Box::new(self))),
            },
    {
        if is_lit(&self.lhs) && is_lit(&self.rhs) {
            let BinExpr { mid, kind, lhs, rhs } = self;
            let lhs = match reduce2(lhs, helper) {
                Ok(v) => v,
                Err(e) => {
                    return Err(e);
                },
            };
            let rhs = match reduce2(rhs, helper) {
                Ok(v) => v,
                Err(e) => {
                    return Err(e);
                },
            };
            let extent = helper.meta.extent(mid);
            match exec_binary(extent, extent, kind, &lhs, &rhs) {
                Ok(value) => Ok(ImutExprInt::Literal(Literal { mid, value })),
                Err(e) => Err(e),
            }
        } else {
            Ok(ImutExprInt::Binary(Box::new(self)))
        }
    }
}

impl UnaryExpr {
    /// Folds the operation if its operand is a literal: the result is the
    /// literal that the operator gives for it, or the error with which it
    /// fails. Any other operation is handed back as it is.
    pub fn try_reduce(self, helper: &Helper) -> (r: Result<ImutExprInt, Error>)
        ensures
            match self.expr {
                ImutExprInt::Literal(l) => match unary_at(
                    helper.meta.extent_of(self.mid),
                    self.kind,
                    l.value@,
                ) {
                    Ok(v) => r matches Ok(ImutExprInt::Literal(lit)) && lit.mid == self.mid
                        && lit.value@ == v,
                    Err(e) => r == Err::<ImutExprInt, Error>(e),
                },
                _ => r == Ok::<ImutExprInt, Error>(ImutExprInt::Unary(Box::new(self))),
            },
    {
        if is_lit(&self.expr) {
            let UnaryExpr { mid, kind, expr } = self;
            let expr = match reduce2(expr, helper) {
                Ok(v) => v,
                Err(e) => {
                    return Err(e);
                },
            };
            match exec_unary(kind, &expr) {
                Some(value) => Ok(ImutExprInt::Literal(Literal { mid, value })),
                None => {
                    let ex = helper.meta.extent(mid);
                    Err(
                        Error {
                            outer: ex.expand_lines(2),
                            inner: ex,
                            kind: ErrorKind::InvalidUnary(kind, expr.value_type()),
                        },
                    )
                },
            }
        } else {
            Ok(ImutExprInt::Unary(Box::new(self)))
        }
    }
}

impl List {
    /// Folds the list if all its elements are literals: the result is the
    /// literal array of their values. Any other list is handed back as it is.
    pub fn try_reduce(self, helper: &Helper) -> (r: Result<ImutExprInt, Error>)
        ensures
            if all_literal(self.exprs@) {
                r matches Ok(ImutExprInt::Literal(lit)) && lit.mid == self.mid && lit.value@
                    == Data::Array(literal_values(self.exprs@))
            } else {
                r == Ok::<ImutExprInt, Error>(ImutExprInt::List(self))
            },
    {
        if all_lit(&self.exprs) {
            let List { mid, exprs } = self;
            let elements = take_values(exprs, helper);
            proof {
                lemma_array_view(elements);
            }
            Ok(ImutExprInt::Literal(Literal { mid, value: Value::Array(elements) }))
        } else {
            Ok(ImutExprInt::List(self))
        }
    }
}

impl Path {
    /// Folds a reference to a constant of the script into the literal of its
    /// value. A reference to a constant that the script does not have is an
    /// error. The constants that the engine fills in, paths with steps, and
    /// all other paths are handed back as they are.
    pub fn try_reduce(self, helper: &Helper) -> (r: Result<ImutExprInt, Error>)
        ensures
            match self {
                Path::Const(lp) => if lp.is_const && lp.segments@.len() == 0 && lp.idx
                    > LAST_RESERVED_CONST {
                    if lp.idx < helper.const_values@.len() {
                        r matches Ok(ImutExprInt::Literal(lit)) && lit.mid == lp.mid && lit.value@
                            == helper.const_values@[lp.idx as int]@
                    } else {
                        r == Err::<ImutExprInt, Error>(
                            Error::at(helper.meta.extent_of(lp.mid), ErrorKind::InvalidConst),
                        )
                    }
                } else {
                    r == Ok::<ImutExprInt, Error>(ImutExprInt::Path(self))
                },
                _ => r == Ok::<ImutExprInt, Error>(ImutExprInt::Path(self)),
            },
    {
        let folds = match &self {
            Path::Const(lp) => lp.is_const && lp.segments.len() == 0 && lp.idx > LAST_RESERVED_CONST,
            _ => false,
        };
        if !folds {
            return Ok(ImutExprInt::Path(self));
        }
        match self {
            Path::Const(LocalPath { is_const, segments, idx, mid }) => {
                if idx < helper.const_values.len() {
                    let lit = Literal { mid, value: helper.const_values[idx].clone() };
                    Ok(ImutExprInt::Literal(lit))
                } else {
                    Err(Error::new(helper.meta.extent(mid), ErrorKind::InvalidConst))
                }
            },
            other => Ok(ImutExprInt::Path(other)),
        }
    }
}

impl Record {
    /// Folds the record if the names and values of all its fields are
    /// literals: the result is the literal record that they build, or the
    /// error for a name that is no string. Any other record is handed back as
    /// it is.
    pub fn try_reduce(self, helper: &Helper) -> (r: Result<ImutExprInt, Error>)
        ensures
            if all_literal_fields(self.fields@) {
                match eval_fields(self.fields@, const_cx(*helper), 0, self.fields@.len() as int) {
                    Ok(v) => r matches Ok(ImutExprInt::Literal(lit)) && lit.mid == self.mid
                        && lit.value@ == v,
                    Err(e) => r == Err::<ImutExprInt, Error>(e),
                }
            } else {
                r == Ok::<ImutExprInt, Error>(ImutExprInt::Record(self))
            },
    {
        let mut i: usize = 0;
        while i < self.fields.len()
            invariant
                i <= self.fields.len(),
                forall|j: int|
                    0 <= j < i ==> (#[trigger] self.fields@[j]).name is Literal
                        && self.fields@[j].value is Literal,
            decreases self.fields.len() - i,
        {
            if !(is_lit(&self.fields[i].name) && is_lit(&self.fields[i].value)) {
                return Ok(ImutExprInt::Record(self));
            }
            i += 1;
        }
        let Record { mid, fields } = self;
        let ghost all = fields@;
        let ghost cx = const_cx(*helper);
        let mut obj = Value::object();
        for f in it: fields
            invariant
                all == it.seq(),
                all == self.fields@,
                all_literal_fields(all),
                cx == const_cx(*helper),
                eval_fields(all, cx, 0, it.index() as int) == Ok::<Data, Error>(obj@),
        {
            let ghost k = it.index() as int;
            assert(all[k].name is Literal && all[k].value is Literal);
            assert(f == all[k]);
            assert(crate::interpreter::eval(all[k].name, cx, 0) == Ok::<Data, Error>(
                all[k].name->Literal_0.value@,
            ));
            assert(crate::interpreter::eval(all[k].value, cx, 0) == Ok::<Data, Error>(
                all[k].value->Literal_0.value@,
            ));
            let name_mid = f.name.mid();
            let name = match reduce2(f.name, helper) {
                Ok(v) => v,
                Err(e) => {
                    assert(false);
                    return Err(e);
                },
            };
            let key = match name {
                Value::String(key) => key,
                other => {
                    let e = Error::new(
                        helper.meta.extent(name_mid),
                        ErrorKind::TypeError(ValueType::String, other.value_type()),
                    );
                    proof {
                        assert(eval_fields(all, cx, 0, k + 1) == Err::<Data, Error>(e));
                        lemma_fields_stick(all, cx, 0, k + 1, all.len() as int);
                    }
                    return Err(e);
                },
            };
            let value = match reduce2(f.value, helper) {
                Ok(v) => v,
                Err(e) => {
                    assert(false);
                    return Err(e);
                },
            };
            obj.insert(key, value);
        }
        Ok(ImutExprInt::Literal(Literal { mid, value: obj }))
    }
}

/// The error for a call that cannot be replaced by the body of its function.
/// It stands for no place in the source.
pub open spec fn cannot_inline() -> Error {
    Error::at(
        Range { start: crate::pos::Location::origin(), end: crate::pos::Location::origin() },
        ErrorKind::BadArguments,
    )
}

impl Invocable {
    /// Whether a call with constant arguments can be computed when the script
    /// is loaded.
    pub open spec fn pure(self) -> bool {
        match self {
            Invocable::Intrinsic(f) => f.fun.pure(),
            Invocable::Tremor(f) => f.is_const,
        }
    }

    /// The expression that can stand in place of a call of the function: the
    /// one expression of the body of a function of the script that can be
    /// inlined. Functions of the engine cannot be inlined.
    pub fn inline(self, args: Vec<ImutExpr>, mid: usize) -> (r: Result<ImutExprInt, Error>)
        ensures
            match self {
                Invocable::Tremor(f) => if f.inlines() && args@.len() == 0 {
                    r == Ok::<ImutExprInt, Error>(f.body@[0].0)
                } else {
                    r == Err::<ImutExprInt, Error>(cannot_inline())
                },
                Invocable::Intrinsic(_) => r == Err::<ImutExprInt, Error>(cannot_inline()),
            },
    {
        let nowhere = Range {
            start: crate::pos::Location::new(0, 0, 0),
            end: crate::pos::Location::new(0, 0, 0),
        };
        match self {
            Invocable::Intrinsic(_f) => Err(Error::new(nowhere, ErrorKind::BadArguments)),
            Invocable::Tremor(f) => {
                if f.can_inline() && args.len() == 0 {
                    let mut body = f.body;
                    match body.pop() {
                        Some(e) => Ok(e.0),
                        None => Err(Error::new(nowhere, ErrorKind::BadArguments)),
                    }
                } else {
                    Err(Error::new(nowhere, ErrorKind::BadArguments))
                }
            },
        }
    }

    /// Whether a call of the function can be replaced by its body.
    pub fn can_inline(&self) -> (r: bool)
        ensures
            r == (self matches Invocable::Tremor(f) && f.inlines()),
    {
        match self {
            Invocable::Intrinsic(_f) => false,
            Invocable::Tremor(f) => f.can_inline(),
        }
    }

    pub fn is_const(&self) -> (r: bool)
        ensures
            r == self.pure(),
    {
        match self {
            Invocable::Intrinsic(f) => f.is_const(),
            Invocable::Tremor(f) => f.is_const(),
        }
    }

    /// Calls the function with the values `args`, at the place `extent` of
    /// the source, one level down. A function of the script sees the event,
    /// the state and the metadata, and local variables of its own.
    pub fn invoke(
        &self,
        env: &Env,
        event: &Value,
        state: &Value,
        meta: &Value,
        args: Vec<Value>,
        extent: Range,
    ) -> (r: Result<Value, Error>)
        ensures
            gives(
                r,
                call(
                    *self,
                    items_view(args@),
                    cx_of(*env, event@, state@, meta@, Seq::empty()),
                    1,
                    extent,
                ),
            ),
    {
        let local = LocalStack { values: Vec::new() };
        assert(local@ =~= Seq::<Option<Data>>::empty());
        call_fn(self, args, env, event, state, meta, &local, 1, extent)
    }
}

/// How a call stands in the tree: by the number of its arguments.
pub open spec fn call_node(i: Invoke) -> ImutExprInt {
    if i.args@.len() == 1 {
        ImutExprInt::Invoke1(i)
    } else if i.args@.len() == 2 {
        ImutExprInt::Invoke2(i)
    } else if i.args@.len() == 3 {
        ImutExprInt::Invoke3(i)
    } else {
        ImutExprInt::Invoke(i)
    }
}

impl Invoke {
    /// The expression that can stand in place of the call.
    pub fn inline(self) -> (r: Result<ImutExprInt, Error>)
        ensures
            match self.invocable {
                Invocable::Tremor(f) => if f.inlines() && self.args@.len() == 0 {
                    r == Ok::<ImutExprInt, Error>(f.body@[0].0)
                } else {
                    r == Err::<ImutExprInt, Error>(cannot_inline())
                },
                Invocable::Intrinsic(_) => r == Err::<ImutExprInt, Error>(cannot_inline()),
            },
    {
        self.invocable.inline(self.args, self.mid)
    }

    /// Whether the call can be replaced by the body of its function.
    pub fn can_inline(&self) -> (r: bool)
        ensures
            r == (self.invocable matches Invocable::Tremor(f) && f.inlines()),
    {
        self.invocable.can_inline()
    }

    /// Folds the call if its function is constant and all its arguments are
    /// literals: the result is the literal that the function gives for them,
    /// or the error with which the call fails. Any other call is handed back,
    /// as the node for its number of arguments.
    pub fn try_reduce(self, helper: &Helper) -> (r: Result<ImutExprInt, Error>)
        ensures
            if self.invocable.pure() && all_literal(self.args@) {
                match call(
                    self.invocable,
                    literal_values(self.args@),
                    const_cx(*helper),
                    1,
                    helper.meta.extent_of(self.mid),
                ) {
                    Ok(v) => r matches Ok(ImutExprInt::Literal(lit)) && lit.mid == self.mid
                        && lit.value@ == v,
                    Err(e) => r == Err::<ImutExprInt, Error>(e),
                }
            } else {
                r == Ok::<ImutExprInt, Error>(call_node(self))
            },
    {
        if self.invocable.is_const() && all_lit(&self.args) {
            let ex = helper.meta.extent(self.mid);
            let Invoke { mid, module, fun, invocable, args } = self;
            let args = take_values(args, helper);
            let context = EventContext { at: 0, origin_uri: None };
            let env = Env {
                context: &context,
                consts: &helper.const_values,
                meta: &helper.meta,
                recursion_limit: helper.recursion_limit,
            };
            let nothing = Value::null();
            assert(cx_of(env, nothing@, nothing@, nothing@, Seq::empty()) == const_cx(*helper));
            match invocable.invoke(&env, &nothing, &nothing, &nothing, args, ex) {
                Ok(value) => Ok(ImutExprInt::Literal(Literal { value, mid })),
                Err(e) => Err(e),
            }
        } else {
            Ok(
                match self.args.len() {
                    1 => ImutExprInt::Invoke1(self),
                    2 => ImutExprInt::Invoke2(self),
                    3 => ImutExprInt::Invoke3(self),
                    _ => ImutExprInt::Invoke(self),
                },
            )
        }
    }
}

} // verus!
