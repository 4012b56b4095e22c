//! What expressions mean, and the evaluator that computes it.

use vstd::prelude::*;
use crate::ast::meta::NodeMetas;
use crate::ast::{
    ArrayPredicatePattern, BinExpr, EmitExpr, Expr, Field, ImutExpr, ImutExprInt, ImutMatch,
    ImutPredicateClause, Invocable, Invoke, List, LocalPath, Match, Merge, Path, Pattern,
    PredicateClause,
    PredicatePattern, Record, Segment, UnaryExpr,
};
use crate::comprehension::{comprehension_expr, eval_comprehension};
use crate::merge::{merge_values, merged};
use crate::patch::steps::{eval_patch, patch_expr};
use crate::registry::FunctionError;
use crate::errors::{BinOpKind, Error, ErrorKind, UnaryOpKind};
use crate::pos::Range;
use crate::url::TremorUrl;
use crate::value::{items_view, lemma_array_view, Data, Value};

verus! {

/// The value of an operator with one operand; nothing where the operator does
/// not take the operand or the result does not fit.
pub open spec fn unary(kind: UnaryOpKind, v: Data) -> Option<Data> {
    match (kind, v) {
        (UnaryOpKind::Plus, Data::I64(x)) => Some(Data::I64(x)),
        (UnaryOpKind::Minus, Data::I64(x)) => if -x <= i64::MAX {
            Some(Data::I64(-x))
        } else {
            None
        },
        (UnaryOpKind::BitNot, Data::I64(x)) => Some(Data::I64((!(x as i64)) as int)),
        (UnaryOpKind::Not, Data::Bool(b)) => Some(Data::Bool(!b)),
        _ => None,
    }
}

/// An integer result, where it fits.
pub open spec fn fits(x: int) -> Option<Data> {
    if i64::MIN <= x <= i64::MAX {
        Some(Data::I64(x))
    } else {
        None
    }
}

/// The size of an integer without its sign.
pub open spec fn magnitude(a: int) -> int {
    if a < 0 {
        -a
    } else {
        a
    }
}

/// The quotient of two integers, rounded toward zero.
pub open spec fn quotient(a: int, b: int) -> int {
    let q = magnitude(a) / magnitude(b);
    if (a < 0) != (b < 0) {
        -q
    } else {
        q
    }
}

/// What is left of `a` after division by `b`; it has the sign of `a`.
pub open spec fn remainder(a: int, b: int) -> int {
    let r = magnitude(a) % magnitude(b);
    if a < 0 {
        -r
    } else {
        r
    }
}

/// The value of an operator on two integers.
pub open spec fn arith(kind: BinOpKind, a: int, b: int) -> Option<Data> {
    match kind {
        BinOpKind::Add => fits(a + b),
        BinOpKind::Sub => fits(a - b),
        BinOpKind::Mul => fits(a * b),
        BinOpKind::Div => if b != 0 {
            fits(quotient(a, b))
        } else {
            None
        },
        BinOpKind::Mod => if b != 0 {
            Some(Data::I64(remainder(a, b)))
        } else {
            None
        },
        BinOpKind::LBitShift => if 0 <= b < 64 {
            Some(Data::I64(((a as i64) << (b as i64)) as int))
        } else {
            None
        },
        BinOpKind::RBitShiftSigned => if 0 <= b < 64 {
            Some(Data::I64(((a as i64) >> (b as i64)) as int))
        } else {
            None
        },
        BinOpKind::RBitShiftUnsigned => if 0 <= b < 64 {
            Some(Data::I64((((a as i64) as u64 >> (b as u64)) as i64) as int))
        } else {
            None
        },
        BinOpKind::BitAnd => Some(Data::I64(((a as i64) & (b as i64)) as int)),
        BinOpKind::BitOr => Some(Data::I64(((a as i64) | (b as i64)) as int)),
        BinOpKind::BitXor => Some(Data::I64(((a as i64) ^ (b as i64)) as int)),
        BinOpKind::Gt => Some(Data::Bool(a > b)),
        BinOpKind::Gte => Some(Data::Bool(a >= b)),
        BinOpKind::Lt => Some(Data::Bool(a < b)),
        BinOpKind::Lte => Some(Data::Bool(a <= b)),
        _ => None,
    }
}

/// The value of an operator on two booleans.
pub open spec fn logic(kind: BinOpKind, a: bool, b: bool) -> Option<Data> {
    match kind {
        BinOpKind::And => Some(Data::Bool(a && b)),
        BinOpKind::Or => Some(Data::Bool(a || b)),
        BinOpKind::Xor => Some(Data::Bool(a != b)),
        _ => None,
    }
}

/// The value of an operator with two operands; nothing where the operator does
/// not take the operands or the result does not fit. Equality takes any two
/// values and compares records by their names, whatever the order of their
/// fields; `+` joins two strings.
pub open spec fn binary(kind: BinOpKind, l: Data, r: Data) -> Option<Data> {
    match kind {
        BinOpKind::Eq => Some(Data::Bool(l.same(r))),
        BinOpKind::NotEq => Some(Data::Bool(!l.same(r))),
        _ => match (l, r) {
            (Data::I64(a), Data::I64(b)) => arith(kind, a, b),
            (Data::Bool(a), Data::Bool(b)) => logic(kind, a, b),
            (Data::String(a), Data::String(b)) => if kind == BinOpKind::Add {
                Some(Data::String(a + b))
            } else {
                None
            },
            _ => None,
        },
    }
}

/// What a binary operator gives at the place `outer`/`inner`: its value, or
/// the error that names the operator and the types it was given.
pub open spec fn binary_at(outer: Range, inner: Range, kind: BinOpKind, l: Data, r: Data) -> Result<
    Data,
    Error,
> {
    match binary(kind, l, r) {
        Some(v) => Ok(v),
        None => Err(
            Error {
                outer: outer.widened(2),
                inner,
                kind: ErrorKind::InvalidBinary(kind, l.value_type(), r.value_type()),
            },
        ),
    }
}

/// What a unary operator gives at the place `extent`.
pub open spec fn unary_at(extent: Range, kind: UnaryOpKind, v: Data) -> Result<Data, Error> {
    match unary(kind, v) {
        Some(r) => Ok(r),
        None => Err(Error::at(extent, ErrorKind::InvalidUnary(kind, v.value_type()))),
    }
}

fn bit_not(a: i64) -> (r: i64)
    ensures
        r == !a,
{
    !a
}

fn bit_and(a: i64, b: i64) -> (r: i64)
    ensures
        r == a & b,
{
    a & b
}

fn bit_or(a: i64, b: i64) -> (r: i64)
    ensures
        r == a | b,
{
    a | b
}

fn bit_xor(a: i64, b: i64) -> (r: i64)
    ensures
        r == a ^ b,
{
    a ^ b
}

fn shift_left(a: i64, b: i64) -> (r: i64)
    requires
        0 <= b < 64,
    ensures
        r == a << b,
{
    a << b
}

fn shift_right(a: i64, b: i64) -> (r: i64)
    requires
        0 <= b < 64,
    ensures
        r == a >> b,
{
    a >> b
}

fn shift_right_unsigned(a: i64, b: i64) -> (r: i64)
    requires
        0 <= b < 64,
    ensures
        r == ((a as u64) >> (b as u64)) as i64,
{
    #[verifier::truncate]
    (((#[verifier::truncate]
    (a as u64)) >> (b as u64)) as i64)
}

/// Applies an operator to one operand.
pub fn exec_unary(kind: UnaryOpKind, v: &Value) -> (r: Option<Value>)
    ensures
        match r {
            Some(x) => unary(kind, v@) == Some(x@),
            None => unary(kind, v@).is_none(),
        },
{
    match (kind, v) {
        (UnaryOpKind::Plus, Value::I64(x)) => Some(Value::I64(*x)),
        (UnaryOpKind::Minus, Value::I64(x)) => if *x == i64::MIN {
            None
        } else {
            Some(Value::I64(-*x))
        },
        (UnaryOpKind::BitNot, Value::I64(x)) => Some(Value::I64(bit_not(*x))),
        (UnaryOpKind::Not, Value::Bool(b)) => Some(Value::Bool(!*b)),
        _ => None,
    }
}

/// The size of an integer without its sign.
fn mag(a: i64) -> (r: u64)
    ensures
        r as int == magnitude(a as int),
{
    if a < 0 {
        ((-(a + 1)) as u64) + 1
    } else {
        a as u64
    }
}

/// The quotient of two integers, rounded toward zero.
fn divide(a: i64, b: i64) -> (r: i64)
    requires
        b != 0,
        !(a == i64::MIN && b == -1),
    ensures
        r as int == quotient(a as int, b as int),
{
    let ma = mag(a);
    let mb = mag(b);
    let q = ma / mb;
    assert(q <= ma) by (nonlinear_arith)
        requires
            mb >= 1,
            q == ma / mb,
    ;
    assert(mb >= 2 ==> 2 * q <= ma) by (nonlinear_arith)
        requires
            mb >= 1,
            q == ma / mb,
    ;
    if (a < 0) != (b < 0) {
        if q == 0x8000_0000_0000_0000u64 {
            i64::MIN
        } else {
            -(q as i64)
        }
    } else {
        q as i64
    }
}

/// What is left of `a` after division by `b`.
fn modulo(a: i64, b: i64) -> (r: i64)
    requires
        b != 0,
    ensures
        r as int == remainder(a as int, b as int),
{
    let m = mag(a) % mag(b);
    if a < 0 {
        -(m as i64)
    } else {
        m as i64
    }
}

/// Applies an operator to two integers.
fn exec_arith(kind: BinOpKind, a: i64, b: i64) -> (r: Option<Value>)
    ensures
        match r {
            Some(x) => arith(kind, a as int, b as int) == Some(x@),
            None => arith(kind, a as int, b as int).is_none(),
        },
{
    match kind {
        BinOpKind::Add => match a.checked_add(b) {
            Some(x) => Some(Value::I64(x)),
            None => None,
        },
        BinOpKind::Sub => match a.checked_sub(b) {
            Some(x) => Some(Value::I64(x)),
            None => None,
        },
        BinOpKind::Mul => match a.checked_mul(b) {
            Some(x) => Some(Value::I64(x)),
            None => None,
        },
        BinOpKind::Div => if b != 0 && !(a == i64::MIN && b == -1) {
            Some(Value::I64(divide(a, b)))
        } else {
            assert(b != 0 ==> quotient(a as int, b as int) > i64::MAX);
            None
        },
        BinOpKind::Mod => if b != 0 {
            Some(Value::I64(modulo(a, b)))
        } else {
            None
        },
        BinOpKind::LBitShift => if 0 <= b && b < 64 {
            Some(Value::I64(shift_left(a, b)))
        } else {
            None
        },
        BinOpKind::RBitShiftSigned => if 0 <= b && b < 64 {
            Some(Value::I64(shift_right(a, b)))
        } else {
            None
        },
        BinOpKind::RBitShiftUnsigned => if 0 <= b && b < 64 {
            Some(Value::I64(shift_right_unsigned(a, b)))
        } else {
            None
        },
        BinOpKind::BitAnd => Some(Value::I64(bit_and(a, b))),
        BinOpKind::BitOr => Some(Value::I64(bit_or(a, b))),
        BinOpKind::BitXor => Some(Value::I64(bit_xor(a, b))),
        BinOpKind::Gt => Some(Value::Bool(a > b)),
        BinOpKind::Gte => Some(Value::Bool(a >= b)),
        BinOpKind::Lt => Some(Value::Bool(a < b)),
        BinOpKind::Lte => Some(Value::Bool(a <= b)),
        _ => None,
    }
}

/// Applies an operator to two booleans.
fn exec_logic(kind: BinOpKind, a: bool, b: bool) -> (r: Option<Value>)
    ensures
        match r {
            Some(x) => logic(kind, a, b) == Some(x@),
            None => logic(kind, a, b).is_none(),
        },
{
    match kind {
        BinOpKind::And => Some(Value::Bool(a && b)),
        BinOpKind::Or => Some(Value::Bool(a || b)),
        BinOpKind::Xor => Some(Value::Bool(a != b)),
        _ => None,
    }
}

/// Applies an operator to two operands. `outer` and `inner` say where the
/// operation stands in the source, for the error.
pub fn exec_binary(outer: Range, inner: Range, kind: BinOpKind, lhs: &Value, rhs: &Value) -> (r: Result<
    Value,
    Error,
>)
    ensures
        match r {
            Ok(x) => binary_at(outer, inner, kind, lhs@, rhs@) == Ok::<Data, Error>(x@),
            Err(e) => binary_at(outer, inner, kind, lhs@, rhs@) == Err::<Data, Error>(e),
        },
{
    let value = match kind {
        BinOpKind::Eq => Some(Value::Bool(lhs.equals(rhs))),
        BinOpKind::NotEq => Some(Value::Bool(!lhs.equals(rhs))),
        _ => match (lhs, rhs) {
            (Value::I64(a), Value::I64(b)) => exec_arith(kind, *a, *b),
            (Value::Bool(a), Value::Bool(b)) => exec_logic(kind, *a, *b),
            (Value::String(a), Value::String(b)) => match kind {
                BinOpKind::Add => {
                    let mut s = a.clone();
                    s.append(b.as_str());
                    Some(Value::String(s))
                },
                _ => None,
            },
            _ => None,
        },
    };
    match value {
        Some(v) => Ok(v),
        None => Err(
            Error {
                outer: outer.expand_lines(2),
                inner,
                kind: ErrorKind::InvalidBinary(kind, lhs.value_type(), rhs.value_type()),
            },
        ),
    }
}

/// What a script sees of the event it runs on, besides the event itself.
#[derive(Debug, PartialEq, Eq)]
pub struct EventContext {
    /// When the event came in, in nanoseconds.
    pub at: u64,
    /// Where the event came from.
    pub origin_uri: Option<TremorUrl>,
}

/// What stays the same while a script runs.
pub struct Env<'a> {
    pub context: &'a EventContext,
    pub consts: &'a Vec<Value>,
    pub meta: &'a NodeMetas,
    /// How deep expressions may be nested.
    pub recursion_limit: u32,
}

/// The local variables of one run; a variable holds nothing until it is
/// assigned.
#[derive(Debug, PartialEq, Eq)]
pub struct LocalStack {
    pub values: Vec<Option<Value>>,
}

/// All that an expression can read.
pub struct Cx {
    pub event: Data,
    pub state: Data,
    pub meta: Data,
    pub locals: Seq<Option<Data>>,
    pub consts: Seq<Data>,
    pub metas: NodeMetas,
    pub at: u64,
    pub limit: nat,
}

/// What one local variable holds.
pub open spec fn slot_view(slot: Option<Value>) -> Option<Data> {
    match slot {
        Some(v) => Some(v@),
        None => None,
    }
}

/// What the local variables hold.
pub open spec fn locals_view(values: Seq<Option<Value>>) -> Seq<Option<Data>> {
    Seq::new(values.len(), |i: int| slot_view(values[i]))
}

impl View for LocalStack {
    type V = Seq<Option<Data>>;

    open spec fn view(&self) -> Seq<Option<Data>> {
        locals_view(self.values@)
    }
}

/// What an expression can read in the given surroundings.
pub open spec fn cx_of(env: Env, event: Data, state: Data, meta: Data, locals: Seq<Option<Data>>) -> Cx {
    Cx {
        event,
        state,
        meta,
        locals,
        consts: items_view(env.consts@),
        metas: *env.meta,
        at: env.context.at,
        limit: env.recursion_limit as nat,
    }
}

impl LocalStack {
    /// `size` variables that hold nothing.
    pub fn with_size(size: usize) -> (r: LocalStack)
        ensures
            r@.len() == size,
            forall|i: int| 0 <= i < size ==> (#[trigger] r@[i]).is_none(),
    {
        let mut values: Vec<Option<Value>> = Vec::new();
        let mut i: usize = 0;
        while i < size
            invariant
                i <= size,
                values@.len() == i,
                forall|j: int| 0 <= j < i ==> (#[trigger] values@[j]).is_none(),
            decreases size - i,
        {
            values.push(None);
            i += 1;
        }
        LocalStack { values }
    }
}

impl Path {
    /// The index of the path's place in the source.
    pub open spec fn mid_of(self) -> usize {
        match self {
            Path::Const(p) => p.mid,
            Path::Local(p) => p.mid,
            Path::Event(p) => p.mid,
            Path::State(p) => p.mid,
            Path::Meta(p) => p.mid,
        }
    }

    /// The steps of the path.
    pub open spec fn steps(self) -> Seq<Segment> {
        match self {
            Path::Const(p) => p.segments@,
            Path::Local(p) => p.segments@,
            Path::Event(p) => p.segments@,
            Path::State(p) => p.segments@,
            Path::Meta(p) => p.segments@,
        }
    }
}

impl ImutExprInt {
    /// The index of the expression's place in the source.
    pub open spec fn mid_of(self) -> usize {
        match self {
            ImutExprInt::Record(r) => r.mid,
            ImutExprInt::List(l) => l.mid,
            ImutExprInt::Binary(b) => b.mid,
            ImutExprInt::Unary(u) => u.mid,
            ImutExprInt::Match(m) => m.mid,
            ImutExprInt::Merge(m) => m.mid,
            ImutExprInt::Patch(p) => p.mid,
            ImutExprInt::Comprehension(c) => c.mid,
            ImutExprInt::Path(p) => p.mid_of(),
            ImutExprInt::Local { mid, .. } => mid,
            ImutExprInt::Literal(l) => l.mid,
            ImutExprInt::Present { mid, .. } => mid,
            ImutExprInt::Invoke1(i) => i.mid,
            ImutExprInt::Invoke2(i) => i.mid,
            ImutExprInt::Invoke3(i) => i.mid,
            ImutExprInt::Invoke(i) => i.mid,
        }
    }
}

/// The value that a path starts at.
pub open spec fn path_base(p: Path, cx: Cx) -> Result<Data, Error> {
    match p {
        Path::Event(_) => Ok(cx.event),
        Path::State(_) => Ok(cx.state),
        Path::Meta(_) => Ok(cx.meta),
        Path::Local(lp) => read_local(lp.idx, lp.mid, cx),
        Path::Const(lp) => read_const(lp.idx, lp.mid, cx),
    }
}

/// What the local variable `idx` holds; an error if it holds nothing.
pub open spec fn read_local(idx: usize, mid: usize, cx: Cx) -> Result<Data, Error> {
    if idx < cx.locals.len() && cx.locals[idx as int].is_some() {
        Ok(cx.locals[idx as int].unwrap())
    } else {
        Err(Error::at(cx.metas.extent_of(mid), ErrorKind::UnsetLocal))
    }
}

/// The constant `idx`; an error if the script has none.
pub open spec fn read_const(idx: usize, mid: usize, cx: Cx) -> Result<Data, Error> {
    if idx < cx.consts.len() {
        Ok(cx.consts[idx as int])
    } else {
        Err(Error::at(cx.metas.extent_of(mid), ErrorKind::InvalidConst))
    }
}

/// Where the steps from `from` on lead, starting at `v`.
pub open spec fn walk(v: Data, steps: Seq<Segment>, metas: NodeMetas, from: int) -> Result<Data, Error>
    decreases steps.len() - from,
{
    if from < 0 || from >= steps.len() {
        Ok(v)
    } else {
        match steps[from] {
            Segment::Id { key, mid } => match v.field(key@) {
                Some(x) => walk(x, steps, metas, from + 1),
                None => Err(Error::at(metas.extent_of(mid), ErrorKind::BadAccess)),
            },
            Segment::Idx { idx, mid } => match v.element(idx as int) {
                Some(x) => walk(x, steps, metas, from + 1),
                None => Err(Error::at(metas.extent_of(mid), ErrorKind::BadAccess)),
            },
        }
    }
}

/// The value that a path leads to.
pub open spec fn resolve(p: Path, cx: Cx) -> Result<Data, Error> {
    match path_base(p, cx) {
        Ok(v) => walk(v, p.steps(), cx.metas, 0),
        Err(e) => Err(e),
    }
}

/// The values of the first `upto` expressions, in order; the first error wins.
pub open spec fn eval_list(exprs: Seq<ImutExpr>, cx: Cx, depth: nat, upto: int) -> Result<Seq<Data>, Error>
    decreases exprs, upto,
{
    if upto <= 0 || upto > exprs.len() {
        Ok(Seq::empty())
    } else {
        match eval_list(exprs, cx, depth, upto - 1) {
            Err(e) => Err(e),
            Ok(items) => match eval(exprs[upto - 1].0, cx, depth) {
                Err(e) => Err(e),
                Ok(v) => Ok(items.push(v)),
            },
        }
    }
}

/// The record built from the first `upto` fields, in order: each field's name
/// is evaluated, then its value, and the value is set under the name. A name
/// must be a string.
pub open spec fn eval_fields(fields: Seq<Field>, cx: Cx, depth: nat, upto: int) -> Result<Data, Error>
    decreases fields, upto,
{
    if upto <= 0 || upto > fields.len() {
        Ok(Data::Object(Seq::empty()))
    } else {
        match eval_fields(fields, cx, depth, upto - 1) {
            Err(e) => Err(e),
            Ok(record) => match eval(fields[upto - 1].name, cx, depth) {
                Err(e) => Err(e),
                Ok(name) => match name {
                    Data::String(key) => match eval(fields[upto - 1].value, cx, depth) {
                        Err(e) => Err(e),
                        Ok(v) => Ok(record.with_field(key, v)),
                    },
                    other => Err(
                        Error::at(
                            cx.metas.extent_of(fields[upto - 1].name.mid_of()),
                            ErrorKind::TypeError(crate::value::ValueType::String, other.value_type()),
                        ),
                    ),
                },
            },
        }
    }
}

/// A value where a record is needed: the value itself if it is a record,
/// else the error about the expression at `inner`, shown inside the one at
/// `outer`.
pub open spec fn record_at(metas: NodeMetas, outer: usize, inner: usize, v: Data) -> Result<Data, Error> {
    if v is Object {
        Ok(v)
    } else {
        Err(
            Error {
                outer: metas.extent_of(outer).widened(2),
                inner: metas.extent_of(inner),
                kind: ErrorKind::TypeError(crate::value::ValueType::Object, v.value_type()),
            },
        )
    }
}

/// The value of an expression that is evaluated `depth` levels down.
pub open spec fn eval(e: ImutExprInt, cx: Cx, depth: nat) -> Result<Data, Error>
    decreases e, 0int,
{
    if depth > cx.limit {
        Err(Error::at(cx.metas.extent_of(e.mid_of()), ErrorKind::RecursionLimit))
    } else {
        match e {
            ImutExprInt::Literal(l) => Ok(l.value@),
            ImutExprInt::Local { idx, mid, is_const } => if is_const {
                read_const(idx, mid, cx)
            } else {
                read_local(idx, mid, cx)
            },
            ImutExprInt::Path(p) => resolve(p, cx),
            ImutExprInt::Present { path, mid } => Ok(Data::Bool(resolve(path, cx).is_ok())),
            ImutExprInt::Unary(u) => match eval(u.expr, cx, depth + 1) {
                Ok(v) => unary_at(cx.metas.extent_of(u.mid), u.kind, v),
                Err(e) => Err(e),
            },
            ImutExprInt::Binary(b) => match eval(b.lhs, cx, depth + 1) {
                Err(e) => Err(e),
                Ok(l) => match eval(b.rhs, cx, depth + 1) {
                    Err(e) => Err(e),
                    Ok(r) => binary_at(
                        cx.metas.extent_of(b.mid),
                        cx.metas.extent_of(b.mid),
                        b.kind,
                        l,
                        r,
                    ),
                },
            },
            ImutExprInt::List(l) => match eval_list(l.exprs@, cx, depth + 1, l.exprs@.len() as int) {
                Ok(items) => Ok(Data::Array(items)),
                Err(e) => Err(e),
            },
            ImutExprInt::Record(r) => eval_fields(r.fields@, cx, depth + 1, r.fields@.len() as int),
            ImutExprInt::Match(m) => match eval(m.target, cx, depth + 1) {
                Err(e) => Err(e),
                Ok(target) => select_imut(m.patterns@, target, cx, depth + 1, 0, m.mid),
            },
            ImutExprInt::Merge(m) => eval_merge(*m, cx, depth),
            ImutExprInt::Patch(p) => eval_patch(*p, cx, depth),
            ImutExprInt::Comprehension(c) => eval_comprehension(*c, cx, depth),
            ImutExprInt::Invoke1(i) => eval_invoke(i, cx, depth),
            ImutExprInt::Invoke2(i) => eval_invoke(i, cx, depth),
            ImutExprInt::Invoke3(i) => eval_invoke(i, cx, depth),
            ImutExprInt::Invoke(i) => eval_invoke(i, cx, depth),
        }
    }
}

/// The value of a `merge`: the target is evaluated and must give a record,
/// then the other expression is evaluated and must give a record, and the
/// second is merged into the first.
pub open spec fn eval_merge(m: Merge, cx: Cx, depth: nat) -> Result<Data, Error>
    decreases m, 1int,
{
    match eval(m.target, cx, depth + 1) {
        Err(e) => Err(e),
        Ok(target) => match record_at(cx.metas, m.mid, m.target.mid_of(), target) {
            Err(e) => Err(e),
            Ok(target) => match eval(m.expr, cx, depth + 1) {
                Err(e) => Err(e),
                Ok(with) => match record_at(cx.metas, m.mid, m.expr.mid_of(), with) {
                    Err(e) => Err(e),
                    Ok(with) => Ok(merged(target, with)),
                },
            },
        },
    }
}

/// The value of a call: the arguments are evaluated in order, then the
/// function is called with their values.
pub open spec fn eval_invoke(i: Invoke, cx: Cx, depth: nat) -> Result<Data, Error>
    decreases i, 1int,
{
    match eval_list(i.args@, cx, depth + 1, i.args@.len() as int) {
        Err(e) => Err(e),
        Ok(args) => call(i.invocable, args, cx, depth + 1, cx.metas.extent_of(i.mid)),
    }
}

/// The local variables of a call: the arguments in the first places, nothing
/// in the others.
pub open spec fn frame(size: nat, args: Seq<Data>) -> Seq<Option<Data>> {
    Seq::new(
        if size >= args.len() {
            size
        } else {
            args.len()
        },
        |k: int|
            if 0 <= k < args.len() {
                Some(args[k])
            } else {
                None
            },
    )
}

/// The value of the last of `values`; null if there is none.
pub open spec fn last_value(values: Seq<Data>) -> Data {
    if values.len() == 0 {
        Data::Null
    } else {
        values.last()
    }
}

/// What a function gives for the argument values `args`. A function of the
/// engine is applied; one of the script has its body evaluated, on local
/// variables of its own that start with the arguments.
pub open spec fn call(inv: Invocable, args: Seq<Data>, cx: Cx, depth: nat, extent: Range) -> Result<
    Data,
    Error,
>
    decreases inv, 0int,
{
    match inv {
        Invocable::Intrinsic(f) => match f.fun.apply(args, cx.at) {
            Ok(v) => Ok(v),
            Err(_) => Err(Error::at(extent, ErrorKind::BadArguments)),
        },
        Invocable::Tremor(f) => if args.len() != f.args@.len() {
            Err(Error::at(extent, ErrorKind::BadArguments))
        } else {
            match eval_list(
                f.body@,
                Cx { locals: frame(f.locals as nat, args), ..cx },
                depth,
                f.body@.len() as int,
            ) {
                Err(e) => Err(e),
                Ok(values) => Ok(last_value(values)),
            }
        },
    }
}

/// The local variables with `v` bound to the variable `idx`; unchanged if
/// there is no such variable.
pub open spec fn bind(locals: Seq<Option<Data>>, idx: usize, v: Data) -> Seq<Option<Data>> {
    if idx < locals.len() {
        locals.update(idx as int, Some(v))
    } else {
        locals
    }
}

/// Whether an element of an array passes a test.
pub open spec fn fits_element(t: ArrayPredicatePattern, item: Data, cx: Cx, depth: nat) -> Result<
    bool,
    Error,
>
    decreases t, 0int,
{
    match t {
        ArrayPredicatePattern::Ignore => Ok(true),
        ArrayPredicatePattern::Tilde(test) => Ok(test.extractor.extracts(item).is_some()),
        ArrayPredicatePattern::Expr(e) => match eval(e, cx, depth) {
            Err(e) => Err(e),
            Ok(v) => Ok(v.same(item)),
        },
        ArrayPredicatePattern::Record(rp) => if item is Object {
            fits_record(rp.fields@, item, cx, depth, rp.fields@.len() as int)
        } else {
            Ok(false)
        },
    }
}

/// Whether the first `upto` elements pass their tests, taken in order: the
/// first test that fails or cannot be evaluated decides.
pub open spec fn fits_elements(
    tests: Seq<ArrayPredicatePattern>,
    items: Seq<Data>,
    cx: Cx,
    depth: nat,
    upto: int,
) -> Result<bool, Error>
    decreases tests, upto,
{
    if upto <= 0 || upto > tests.len() || upto > items.len() {
        Ok(true)
    } else {
        match fits_elements(tests, items, cx, depth, upto - 1) {
            Err(e) => Err(e),
            Ok(false) => Ok(false),
            Ok(true) => fits_element(tests[upto - 1], items[upto - 1], cx, depth),
        }
    }
}

/// Whether a record passes a test on one of its fields.
pub open spec fn fits_field(t: PredicatePattern, target: Data, cx: Cx, depth: nat) -> Result<bool, Error>
    decreases t, 0int,
{
    match t {
        PredicatePattern::FieldPresent { key, .. } => Ok(target.field(key@).is_some()),
        PredicatePattern::FieldAbsent { key, .. } => Ok(target.field(key@).is_none()),
        PredicatePattern::TildeEq { key, test, .. } => Ok(
            match target.field(key@) {
                Some(v) => test.extractor.extracts(v).is_some(),
                None => false,
            },
        ),
        PredicatePattern::Bin { key, rhs, kind, .. } => match target.field(key@) {
            None => Ok(false),
            Some(v) => match eval(rhs, cx, depth) {
                Err(e) => Err(e),
                Ok(r) => match binary_at(
                    cx.metas.extent_of(rhs.mid_of()),
                    cx.metas.extent_of(rhs.mid_of()),
                    kind,
                    v,
                    r,
                ) {
                    Err(e) => Err(e),
                    Ok(b) => Ok(b == Data::Bool(true)),
                },
            },
        },
        PredicatePattern::RecordPatternEq { key, pattern, .. } => match target.field(key@) {
            None => Ok(false),
            Some(v) => if v is Object {
                fits_record(pattern.fields@, v, cx, depth, pattern.fields@.len() as int)
            } else {
                Ok(false)
            },
        },
        PredicatePattern::ArrayPatternEq { key, pattern, .. } => match target.field(key@) {
            None => Ok(false),
            Some(v) => match v {
                Data::Array(items) => if items.len() == pattern.exprs@.len() {
                    fits_elements(pattern.exprs@, items, cx, depth, pattern.exprs@.len() as int)
                } else {
                    Ok(false)
                },
                _ => Ok(false),
            },
        },
    }
}

/// Whether a record passes the first `upto` tests on its fields, taken in
/// order: the first test that fails or cannot be evaluated decides.
pub open spec fn fits_record(
    tests: Seq<PredicatePattern>,
    target: Data,
    cx: Cx,
    depth: nat,
    upto: int,
) -> Result<bool, Error>
    decreases tests, upto,
{
    if upto <= 0 || upto > tests.len() {
        Ok(true)
    } else {
        match fits_record(tests, target, cx, depth, upto - 1) {
            Err(e) => Err(e),
            Ok(false) => Ok(false),
            Ok(true) => fits_field(tests[upto - 1], target, cx, depth),
        }
    }
}

/// Holds a value against a pattern. Where it fits, the result is the local
/// variables with what the pattern binds; where it does not, nothing.
pub open spec fn fits_pattern(p: Pattern, target: Data, cx: Cx, depth: nat) -> Result<
    Option<Seq<Option<Data>>>,
    Error,
>
    decreases p, 0int,
{
    match p {
        Pattern::Default => Ok(Some(cx.locals)),
        Pattern::DoNotCare => Ok(Some(cx.locals)),
        Pattern::Expr(e) => match eval(e, cx, depth) {
            Err(e) => Err(e),
            Ok(v) => Ok(
                if v.same(target) {
                    Some(cx.locals)
                } else {
                    None
                },
            ),
        },
        Pattern::Assign(a) => match fits_pattern(*a.pattern, target, cx, depth) {
            Err(e) => Err(e),
            Ok(None) => Ok(None),
            Ok(Some(locals)) => Ok(Some(bind(locals, a.idx, target))),
        },
        Pattern::Record(rp) => if target is Object {
            match fits_record(rp.fields@, target, cx, depth, rp.fields@.len() as int) {
                Err(e) => Err(e),
                Ok(true) => Ok(
                    Some(
                        crate::binding::record_bindings(
                            rp.fields@,
                            target,
                            cx.locals,
                            rp.fields@.len() as int,
                        ),
                    ),
                ),
                Ok(false) => Ok(None),
            }
        } else {
            Ok(None)
        },
        Pattern::Array(ap) => match target {
            Data::Array(items) => if items.len() == ap.exprs@.len() {
                match fits_elements(ap.exprs@, items, cx, depth, ap.exprs@.len() as int) {
                    Err(e) => Err(e),
                    Ok(true) => Ok(
                        Some(
                            crate::binding::element_bindings(
                                ap.exprs@,
                                items,
                                cx.locals,
                                ap.exprs@.len() as int,
                            ),
                        ),
                    ),
                    Ok(false) => Ok(None),
                }
            } else {
                Ok(None)
            },
            _ => Ok(None),
        },
        Pattern::Tuple(tp) => match target {
            Data::Array(items) => if items.len() == tp.exprs@.len() || (tp.open && items.len()
                > tp.exprs@.len()) {
                match fits_elements(tp.exprs@, items, cx, depth, tp.exprs@.len() as int) {
                    Err(e) => Err(e),
                    Ok(true) => Ok(
                        Some(
                            crate::binding::element_bindings(
                                tp.exprs@,
                                items,
                                cx.locals,
                                tp.exprs@.len() as int,
                            ),
                        ),
                    ),
                    Ok(false) => Ok(None),
                }
            } else {
                Ok(None)
            },
            _ => Ok(None),
        },
    }
}

/// Whether a guard lets a clause through: there is none, or its value is the
/// boolean true.
pub open spec fn guard_passes(guard: Option<ImutExprInt>, cx: Cx, depth: nat) -> Result<bool, Error>
    decreases guard, 0int,
{
    match guard {
        None => Ok(true),
        Some(g) => match eval(g, cx, depth) {
            Err(e) => Err(e),
            Ok(v) => Ok(v == Data::Bool(true)),
        },
    }
}

/// What one clause of a `match` expression makes of `target`: nothing if the
/// clause is not hit; else the value of its body, evaluated with what its
/// pattern binds, or the error that came up on the way.
pub closed spec fn try_imut_clause(c: ImutPredicateClause, target: Data, cx: Cx, depth: nat) -> Option<
    Result<Data, Error>,
>
    decreases c, 0int,
{
    match fits_pattern(c.pattern, target, cx, depth) {
        Err(e) => Some(Err(e)),
        Ok(None) => None,
        Ok(Some(locals)) => match guard_passes(c.guard, Cx { locals, ..cx }, depth) {
            Err(e) => Some(Err(e)),
            Ok(false) => None,
            Ok(true) => match eval_list(c.exprs@, Cx { locals, ..cx }, depth, c.exprs@.len() as int) {
                Err(e) => Some(Err(e)),
                Ok(values) => Some(Ok(last_value(values))),
            },
        },
    }
}

/// The value of a `match` expression from the clause `from` on: what the
/// first clause that is hit makes of the target; an error where no clause is
/// hit.
pub open spec fn select_imut(
    clauses: Seq<ImutPredicateClause>,
    target: Data,
    cx: Cx,
    depth: nat,
    from: int,
    mid: usize,
) -> Result<Data, Error>
    decreases clauses, clauses.len() - from,
{
    if from < 0 || from >= clauses.len() {
        Err(Error::at(cx.metas.extent_of(mid), ErrorKind::NoClauseHit))
    } else {
        match try_imut_clause(clauses[from], target, cx, depth) {
            Some(r) => r,
            None => select_imut(clauses, target, cx, depth, from + 1, mid),
        }
    }
}

/// Once an expression of a list fails, the list fails with that error however
/// many more expressions are taken.
pub proof fn lemma_list_sticks(exprs: Seq<ImutExpr>, cx: Cx, depth: nat, i: int, n: int)
    requires
        0 <= i <= n <= exprs.len(),
        eval_list(exprs, cx, depth, i) is Err,
    ensures
        eval_list(exprs, cx, depth, n) == eval_list(exprs, cx, depth, i),
    decreases n - i,
{
    if i < n {
        lemma_list_sticks(exprs, cx, depth, i, n - 1);
    }
}

/// Once a field of a record constructor fails, the constructor fails with
/// that error however many more fields are taken.
pub proof fn lemma_fields_stick(fields: Seq<Field>, cx: Cx, depth: nat, i: int, n: int)
    requires
        0 <= i <= n <= fields.len(),
        eval_fields(fields, cx, depth, i) is Err,
    ensures
        eval_fields(fields, cx, depth, n) == eval_fields(fields, cx, depth, i),
    decreases n - i,
{
    if i < n {
        lemma_fields_stick(fields, cx, depth, i, n - 1);
    }
}

/// Once a test on a field fails or cannot be evaluated, the pattern has that
/// outcome however many more tests are taken.
pub proof fn lemma_record_sticks(
    tests: Seq<PredicatePattern>,
    target: Data,
    cx: Cx,
    depth: nat,
    i: int,
    n: int,
)
    requires
        0 <= i <= n <= tests.len(),
        fits_record(tests, target, cx, depth, i) != Ok::<bool, Error>(true),
    ensures
        fits_record(tests, target, cx, depth, n) == fits_record(tests, target, cx, depth, i),
    decreases n - i,
{
    if i < n {
        lemma_record_sticks(tests, target, cx, depth, i, n - 1);
    }
}

/// Once a test on an element fails or cannot be evaluated, the pattern has
/// that outcome however many more tests are taken.
pub proof fn lemma_elements_stick(
    tests: Seq<ArrayPredicatePattern>,
    items: Seq<Data>,
    cx: Cx,
    depth: nat,
    i: int,
    n: int,
)
    requires
        0 <= i <= n <= tests.len(),
        n <= items.len(),
        fits_elements(tests, items, cx, depth, i) != Ok::<bool, Error>(true),
    ensures
        fits_elements(tests, items, cx, depth, n) == fits_elements(tests, items, cx, depth, i),
    decreases n - i,
{
    if i < n {
        lemma_elements_stick(tests, items, cx, depth, i, n - 1);
    }
}

/// Whether `r` is the outcome `spec`, value for value.
pub open spec fn gives(r: Result<Value, Error>, spec: Result<Data, Error>) -> bool {
    match r {
        Ok(v) => spec == Ok::<Data, Error>(v@),
        Err(e) => spec == Err::<Data, Error>(e),
    }
}

/// What a pattern made of a value: it does not fit, it fits and binds
/// nothing, or it fits and leaves these local variables.
pub enum Fit {
    No,
    Same,
    Bound(LocalStack),
}

impl Fit {
    /// The outcome as the local variables to go on with, if the value fits.
    pub open spec fn outcome(self, locals: Seq<Option<Data>>) -> Option<Seq<Option<Data>>> {
        match self {
            Fit::No => None,
            Fit::Same => Some(locals),
            Fit::Bound(l) => Some(l@),
        }
    }
}

impl Clone for LocalStack {
    fn clone(&self) -> (r: Self)
        ensures
            r@ == self@,
    {
        let mut values: Vec<Option<Value>> = Vec::new();
        let mut i: usize = 0;
        while i < self.values.len()
            invariant
                i <= self.values.len(),
                values@.len() == i,
                forall|j: int| 0 <= j < i ==> slot_view(#[trigger] values@[j]) == slot_view(self.values@[j]),
            decreases self.values.len() - i,
        {
            let v = match &self.values[i] {
                Some(v) => Some(v.clone()),
                None => None,
            };
            values.push(v);
            i += 1;
        }
        assert(locals_view(values@) =~= locals_view(self.values@));
        LocalStack { values }
    }
}

impl Path {
    /// The steps of the path.
    pub fn segments(&self) -> (r: &Vec<Segment>)
        ensures
            r@ == self.steps(),
    {
        match self {
            Path::Const(path) => &path.segments,
            Path::Local(path) => &path.segments,
            Path::Meta(path) => &path.segments,
            Path::Event(path) => &path.segments,
            Path::State(path) => &path.segments,
        }
    }

    /// The index of the path's place in the source.
    pub fn mid(&self) -> (r: usize)
        ensures
            r == self.mid_of(),
    {
        match self {
            Path::Const(p) => p.mid,
            Path::Local(p) => p.mid,
            Path::Event(p) => p.mid,
            Path::State(p) => p.mid,
            Path::Meta(p) => p.mid,
        }
    }
}

impl ImutExprInt {
    /// The index of the expression's place in the source.
    pub fn mid(&self) -> (r: usize)
        ensures
            r == self.mid_of(),
    {
        match self {
            ImutExprInt::Record(r) => r.mid,
            ImutExprInt::List(l) => l.mid,
            ImutExprInt::Binary(b) => b.mid,
            ImutExprInt::Unary(u) => u.mid,
            ImutExprInt::Match(m) => m.mid,
            ImutExprInt::Merge(m) => m.mid,
            ImutExprInt::Patch(p) => p.mid,
            ImutExprInt::Comprehension(c) => c.mid,
            ImutExprInt::Path(p) => p.mid(),
            ImutExprInt::Local { mid, .. } => *mid,
            ImutExprInt::Literal(l) => l.mid,
            ImutExprInt::Present { mid, .. } => *mid,
            ImutExprInt::Invoke1(i) => i.mid,
            ImutExprInt::Invoke2(i) => i.mid,
            ImutExprInt::Invoke3(i) => i.mid,
            ImutExprInt::Invoke(i) => i.mid,
        }
    }
}

/// Reads the local variable `idx`.
fn local_value<'a>(idx: usize, mid: usize, env: &Env, local: &'a LocalStack, Ghost(cx): Ghost<Cx>) -> (r:
    Result<&'a Value, Error>)
    requires
        cx.locals == local@,
        cx.metas == *env.meta,
    ensures
        match r {
            Ok(v) => read_local(idx, mid, cx) == Ok::<Data, Error>(v@),
            Err(e) => read_local(idx, mid, cx) == Err::<Data, Error>(e),
        },
{
    if idx < local.values.len() {
        match &local.values[idx] {
            Some(v) => {
                return Ok(v);
            },
            None => {},
        }
    }
    Err(Error::new(env.meta.extent(mid), ErrorKind::UnsetLocal))
}

/// Reads the constant `idx`.
fn const_value<'a>(idx: usize, mid: usize, env: &Env<'a>, Ghost(cx): Ghost<Cx>) -> (r: Result<
    &'a Value,
    Error,
>)
    requires
        cx.consts == items_view(env.consts@),
        cx.metas == *env.meta,
    ensures
        match r {
            Ok(v) => read_const(idx, mid, cx) == Ok::<Data, Error>(v@),
            Err(e) => read_const(idx, mid, cx) == Err::<Data, Error>(e),
        },
{
    if idx < env.consts.len() {
        Ok(&env.consts[idx])
    } else {
        Err(Error::new(env.meta.extent(mid), ErrorKind::InvalidConst))
    }
}

/// Follows the steps of a path from `v` on.
fn follow<'a>(v: &'a Value, steps: &Vec<Segment>, metas: &NodeMetas) -> (r: Result<&'a Value, Error>)
    ensures
        match r {
            Ok(x) => walk(v@, steps@, *metas, 0) == Ok::<Data, Error>(x@),
            Err(e) => walk(v@, steps@, *metas, 0) == Err::<Data, Error>(e),
        },
{
    let mut cur: &Value = v;
    let mut i: usize = 0;
    while i < steps.len()
        invariant
            i <= steps.len(),
            walk(v@, steps@, *metas, 0) == walk(cur@, steps@, *metas, i as int),
        decreases steps.len() - i,
    {
        match &steps[i] {
            Segment::Id { key, mid } => match cur.get(key.as_str()) {
                Some(x) => {
                    cur = x;
                },
                None => {
                    return Err(Error::new(metas.extent(*mid), ErrorKind::BadAccess));
                },
            },
            Segment::Idx { idx, mid } => match cur.get_idx(*idx) {
                Some(x) => {
                    cur = x;
                },
                None => {
                    return Err(Error::new(metas.extent(*mid), ErrorKind::BadAccess));
                },
            },
        }
        i += 1;
    }
    Ok(cur)
}

/// The value that a path leads to.
pub fn resolve_path(
    p: &Path,
    env: &Env,
    event: &Value,
    state: &Value,
    meta: &Value,
    local: &LocalStack,
) -> (r: Result<Value, Error>)
    ensures
        gives(r, resolve(*p, cx_of(*env, event@, state@, meta@, local@))),
{
    let ghost cx = cx_of(*env, event@, state@, meta@, local@);
    let base: &Value = match p {
        Path::Event(_) => event,
        Path::State(_) => state,
        Path::Meta(_) => meta,
        Path::Local(lp) => match local_value(lp.idx, lp.mid, env, local, Ghost(cx)) {
            Ok(v) => v,
            Err(e) => {
                return Err(e);
            },
        },
        Path::Const(lp) => match const_value(lp.idx, lp.mid, env, Ghost(cx)) {
            Ok(v) => v,
            Err(e) => {
                return Err(e);
            },
        },
    };
    match follow(base, p.segments(), env.meta) {
        Ok(v) => Ok(v.clone()),
        Err(e) => Err(e),
    }
}

/// Hands on a record, and fails on any other value.
pub fn need_record(metas: &NodeMetas, outer: usize, inner: usize, v: Value) -> (r: Result<Value, Error>)
    ensures
        gives(r, record_at(*metas, outer, inner, v@)),
{
    if matches!(v, Value::Object(_)) {
        Ok(v)
    } else {
        Err(
            Error {
                outer: metas.extent(outer).expand_lines(2),
                inner: metas.extent(inner),
                kind: ErrorKind::TypeError(crate::value::ValueType::Object, v.value_type()),
            },
        )
    }
}

/// Evaluates an expression that stands `depth` levels down.
pub fn eval_expr(
    e: &ImutExprInt,
    env: &Env,
    event: &Value,
    state: &Value,
    meta: &Value,
    local: &LocalStack,
    depth: u64,
) -> (r: Result<Value, Error>)
    requires
        depth <= env.recursion_limit + 1,
    ensures
        gives(r, eval(*e, cx_of(*env, event@, state@, meta@, local@), depth as nat)),
    decreases *e, 0int,
{
    let ghost cx = cx_of(*env, event@, state@, meta@, local@);
    if depth > env.recursion_limit as u64 {
        return Err(Error::new(env.meta.extent(e.mid()), ErrorKind::RecursionLimit));
    }
    match e {
        ImutExprInt::Literal(l) => Ok(l.value.clone()),
        ImutExprInt::Local { idx, mid, is_const } => {
            if *is_const {
                match const_value(*idx, *mid, env, Ghost(cx)) {
                    Ok(v) => Ok(v.clone()),
                    Err(e) => Err(e),
                }
            } else {
                match local_value(*idx, *mid, env, local, Ghost(cx)) {
                    Ok(v) => Ok(v.clone()),
                    Err(e) => Err(e),
                }
            }
        },
        ImutExprInt::Path(p) => resolve_path(p, env, event, state, meta, local),
        ImutExprInt::Present { path, mid } => {
            let found = resolve_path(path, env, event, state, meta, local).is_ok();
            Ok(Value::Bool(found))
        },
        ImutExprInt::Unary(u) => {
            let v = match eval_expr(&u.expr, env, event, state, meta, local, depth + 1) {
                Ok(v) => v,
                Err(e) => {
                    return Err(e);
                },
            };
            match exec_unary(u.kind, &v) {
                Some(r) => Ok(r),
                None => Err(
                    Error::new(env.meta.extent(u.mid), ErrorKind::InvalidUnary(u.kind, v.value_type())),
                ),
            }
        },
        ImutExprInt::Binary(b) => {
            let l = match eval_expr(&b.lhs, env, event, state, meta, local, depth + 1) {
                Ok(v) => v,
                Err(e) => {
                    return Err(e);
                },
            };
            let r = match eval_expr(&b.rhs, env, event, state, meta, local, depth + 1) {
                Ok(v) => v,
                Err(e) => {
                    return Err(e);
                },
            };
            let extent = env.meta.extent(b.mid);
            exec_binary(extent, extent, b.kind, &l, &r)
        },
        ImutExprInt::List(l) => {
            match eval_exprs(&l.exprs, env, event, state, meta, local, depth + 1) {
                Ok(items) => {
                    proof {
                        lemma_array_view(items);
                    }
                    Ok(Value::Array(items))
                },
                Err(e) => Err(e),
            }
        },
        ImutExprInt::Record(r) => eval_record(&r.fields, env, event, state, meta, local, depth + 1),
        ImutExprInt::Match(m) => {
            let target = match eval_expr(&m.target, env, event, state, meta, local, depth + 1) {
                Ok(v) => v,
                Err(e) => {
                    return Err(e);
                },
            };
            select_clause(&m.patterns, &target, env, event, state, meta, local, depth + 1, m.mid)
        },
        ImutExprInt::Merge(m) => merge_expr(m, env, event, state, meta, local, depth),
        ImutExprInt::Patch(p) => patch_expr(p, env, event, state, meta, local, depth),
        ImutExprInt::Comprehension(c) => comprehension_expr(c, env, event, state, meta, local, depth),
        ImutExprInt::Invoke1(i) => invoke(i, env, event, state, meta, local, depth),
        ImutExprInt::Invoke2(i) => invoke(i, env, event, state, meta, local, depth),
        ImutExprInt::Invoke3(i) => invoke(i, env, event, state, meta, local, depth),
        ImutExprInt::Invoke(i) => invoke(i, env, event, state, meta, local, depth),
    }
}

/// Evaluates a `merge` that stands `depth` levels down.
pub fn merge_expr(
    m: &Merge,
    env: &Env,
    event: &Value,
    state: &Value,
    meta: &Value,
    local: &LocalStack,
    depth: u64,
) -> (r: Result<Value, Error>)
    requires
        depth <= env.recursion_limit,
    ensures
        gives(r, eval_merge(*m, cx_of(*env, event@, state@, meta@, local@), depth as nat)),
    decreases *m, 1int,
{
    let target = match eval_expr(&m.target, env, event, state, meta, local, depth + 1) {
        Ok(v) => v,
        Err(e) => {
            return Err(e);
        },
    };
    let target = match need_record(env.meta, m.mid, m.target.mid(), target) {
        Ok(v) => v,
        Err(e) => {
            return Err(e);
        },
    };
    let with = match eval_expr(&m.expr, env, event, state, meta, local, depth + 1) {
        Ok(v) => v,
        Err(e) => {
            return Err(e);
        },
    };
    match need_record(env.meta, m.mid, m.expr.mid(), with) {
        Ok(with) => Ok(merge_values(target, &with)),
        Err(e) => Err(e),
    }
}

/// Evaluates expressions in order and returns their values.
pub fn eval_exprs(
    exprs: &Vec<ImutExpr>,
    env: &Env,
    event: &Value,
    state: &Value,
    meta: &Value,
    local: &LocalStack,
    depth: u64,
) -> (r: Result<Vec<Value>, Error>)
    requires
        depth <= env.recursion_limit + 1,
    ensures
        match r {
            Ok(items) => eval_list(
                exprs@,
                cx_of(*env, event@, state@, meta@, local@),
                depth as nat,
                exprs@.len() as int,
            ) == Ok::<Seq<Data>, Error>(items_view(items@)),
            Err(e) => eval_list(
                exprs@,
                cx_of(*env, event@, state@, meta@, local@),
                depth as nat,
                exprs@.len() as int,
            ) == Err::<Seq<Data>, Error>(e),
        },
    decreases exprs@, exprs@.len(),
{
    let ghost cx = cx_of(*env, event@, state@, meta@, local@);
    let mut items: Vec<Value> = Vec::new();
    let mut i: usize = 0;
    assert(items_view(items@) =~= Seq::<Data>::empty());
    while i < exprs.len()
        invariant
            i <= exprs.len(),
            depth <= env.recursion_limit + 1,
            cx == cx_of(*env, event@, state@, meta@, local@),
            eval_list(exprs@, cx, depth as nat, i as int) == Ok::<Seq<Data>, Error>(
                items_view(items@),
            ),
        decreases exprs.len() - i,
    {
        let ghost before = items_view(items@);
        match eval_expr(&exprs[i].0, env, event, state, meta, local, depth) {
            Ok(v) => {
                items.push(v);
                assert(items_view(items@) =~= before.push(v@));
            },
            Err(e) => {
                proof {
                    assert(eval_list(exprs@, cx, depth as nat, i + 1) == Err::<Seq<Data>, Error>(e));
                    lemma_list_sticks(exprs@, cx, depth as nat, i + 1, exprs@.len() as int);
                }
                return Err(e);
            },
        }
        i += 1;
    }
    Ok(items)
}

/// Builds a record from the fields of a record constructor.
pub fn eval_record(
    fields: &Vec<Field>,
    env: &Env,
    event: &Value,
    state: &Value,
    meta: &Value,
    local: &LocalStack,
    depth: u64,
) -> (r: Result<Value, Error>)
    requires
        depth <= env.recursion_limit + 1,
    ensures
        gives(
            r,
            eval_fields(
                fields@,
                cx_of(*env, event@, state@, meta@, local@),
                depth as nat,
                fields@.len() as int,
            ),
        ),
    decreases fields@, fields@.len(),
{
    let ghost cx = cx_of(*env, event@, state@, meta@, local@);
    let mut record = Value::object();
    let mut i: usize = 0;
    while i < fields.len()
        invariant
            i <= fields.len(),
            depth <= env.recursion_limit + 1,
            cx == cx_of(*env, event@, state@, meta@, local@),
            eval_fields(fields@, cx, depth as nat, i as int) == Ok::<Data, Error>(record@),
        decreases fields.len() - i,
    {
        let name = match eval_expr(&fields[i].name, env, event, state, meta, local, depth) {
            Ok(v) => v,
            Err(e) => {
                proof {
                    assert(eval_fields(fields@, cx, depth as nat, i + 1) == Err::<Data, Error>(e));
                    lemma_fields_stick(fields@, cx, depth as nat, i + 1, fields@.len() as int);
                }
                return Err(e);
            },
        };
        let key = match name {
            Value::String(key) => key,
            other => {
                let e = Error::new(
                    env.meta.extent(fields[i].name.mid()),
                    ErrorKind::TypeError(crate::value::ValueType::String, other.value_type()),
                );
                proof {
                    assert(eval_fields(fields@, cx, depth as nat, i + 1) == Err::<Data, Error>(e));
                    lemma_fields_stick(fields@, cx, depth as nat, i + 1, fields@.len() as int);
                }
                return Err(e);
            },
        };
        let v = match eval_expr(&fields[i].value, env, event, state, meta, local, depth) {
            Ok(v) => v,
            Err(e) => {
                proof {
                    assert(eval_fields(fields@, cx, depth as nat, i + 1) == Err::<Data, Error>(e));
                    lemma_fields_stick(fields@, cx, depth as nat, i + 1, fields@.len() as int);
                }
                return Err(e);
            },
        };
        record.insert(key, v);
        i += 1;
    }
    Ok(record)
}

/// The value of the last of `values`; null if there is none.
pub fn take_last(values: Vec<Value>) -> (r: Value)
    ensures
        r@ == last_value(items_view(values@)),
{
    let mut values = values;
    match values.pop() {
        Some(v) => v,
        None => Value::Null,
    }
}

/// The local variables for a call: the arguments in the first places.
fn new_frame(size: usize, args: Vec<Value>) -> (r: LocalStack)
    ensures
        r@ == frame(size as nat, items_view(args@)),
{
    let ghost given = items_view(args@);
    let mut values: Vec<Option<Value>> = Vec::new();
    for v in it: args
        invariant
            given == items_view(it.seq()),
            values@.len() == it.index(),
            forall|j: int| 0 <= j < it.index() ==> slot_view(#[trigger] values@[j]) == Some(given[j]),
    {
        values.push(Some(v));
    }
    while values.len() < size
        invariant
            values@.len() >= given.len(),
            values@.len() == given.len() || values@.len() <= size,
            forall|j: int| 0 <= j < given.len() ==> slot_view(#[trigger] values@[j]) == Some(given[j]),
            forall|j: int| given.len() <= j < values@.len() ==> slot_view(#[trigger] values@[j]).is_none(),
        decreases size - values.len(),
    {
        values.push(None);
    }
    let r = LocalStack { values };
    assert(r@ =~= frame(size as nat, given));
    r
}

/// Evaluates the arguments of a call and calls the function.
pub fn invoke(
    i: &Invoke,
    env: &Env,
    event: &Value,
    state: &Value,
    meta: &Value,
    local: &LocalStack,
    depth: u64,
) -> (r: Result<Value, Error>)
    requires
        depth <= env.recursion_limit,
    ensures
        gives(r, eval_invoke(*i, cx_of(*env, event@, state@, meta@, local@), depth as nat)),
    decreases *i, 1int,
{
    let args = match eval_exprs(&i.args, env, event, state, meta, local, depth + 1) {
        Ok(args) => args,
        Err(e) => {
            return Err(e);
        },
    };
    call_fn(&i.invocable, args, env, event, state, meta, local, depth + 1, env.meta.extent(i.mid))
}

/// Calls a function with the values of its arguments.
pub fn call_fn(
    inv: &Invocable,
    args: Vec<Value>,
    env: &Env,
    event: &Value,
    state: &Value,
    meta: &Value,
    local: &LocalStack,
    depth: u64,
    extent: Range,
) -> (r: Result<Value, Error>)
    requires
        depth <= env.recursion_limit + 1,
    ensures
        gives(
            r,
            call(
                *inv,
                items_view(args@),
                cx_of(*env, event@, state@, meta@, local@),
                depth as nat,
                extent,
            ),
        ),
    decreases *inv, 0int,
{
    match inv {
        Invocable::Intrinsic(f) => match f.invoke(env.context.at, &args) {
            Ok(v) => Ok(v),
            Err(_) => Err(Error::new(extent, ErrorKind::BadArguments)),
        },
        Invocable::Tremor(f) => {
            if args.len() != f.args.len() {
                return Err(Error::new(extent, ErrorKind::BadArguments));
            }
            let inner = new_frame(f.locals, args);
            match eval_exprs(&f.body, env, event, state, meta, &inner, depth) {
                Ok(values) => Ok(take_last(values)),
                Err(e) => Err(e),
            }
        },
    }
}

/// Holds one element of an array against its test.
pub fn test_element(
    t: &ArrayPredicatePattern,
    item: &Value,
    env: &Env,
    event: &Value,
    state: &Value,
    meta: &Value,
    local: &LocalStack,
    depth: u64,
) -> (r: Result<bool, Error>)
    requires
        depth <= env.recursion_limit + 1,
    ensures
        r == fits_element(*t, item@, cx_of(*env, event@, state@, meta@, local@), depth as nat),
    decreases *t, 0int,
{
    match t {
        ArrayPredicatePattern::Ignore => Ok(true),
        ArrayPredicatePattern::Tilde(test) => Ok(test.extractor.extract(item).is_some()),
        ArrayPredicatePattern::Expr(e) => match eval_expr(e, env, event, state, meta, local, depth) {
            Ok(v) => Ok(v.equals(item)),
            Err(e) => Err(e),
        },
        ArrayPredicatePattern::Record(rp) => match item {
            Value::Object(_) => test_record(&rp.fields, item, env, event, state, meta, local, depth),
            _ => Ok(false),
        },
    }
}

/// Holds the first elements of an array against the tests, in order.
pub fn test_elements(
    tests: &Vec<ArrayPredicatePattern>,
    items: &Vec<Value>,
    env: &Env,
    event: &Value,
    state: &Value,
    meta: &Value,
    local: &LocalStack,
    depth: u64,
) -> (r: Result<bool, Error>)
    requires
        depth <= env.recursion_limit + 1,
        tests@.len() <= items@.len(),
    ensures
        r == fits_elements(
            tests@,
            items_view(items@),
            cx_of(*env, event@, state@, meta@, local@),
            depth as nat,
            tests@.len() as int,
        ),
    decreases tests@, tests@.len(),
{
    let ghost cx = cx_of(*env, event@, state@, meta@, local@);
    let mut i: usize = 0;
    while i < tests.len()
        invariant
            i <= tests.len(),
            tests@.len() <= items@.len(),
            depth <= env.recursion_limit + 1,
            cx == cx_of(*env, event@, state@, meta@, local@),
            fits_elements(tests@, items_view(items@), cx, depth as nat, i as int) == Ok::<
                bool,
                Error,
            >(true),
        decreases tests.len() - i,
    {
        let one = test_element(&tests[i], &items[i], env, event, state, meta, local, depth);
        match one {
            Ok(true) => {},
            other => {
                proof {
                    assert(fits_elements(tests@, items_view(items@), cx, depth as nat, i + 1)
                        == other);
                    lemma_elements_stick(
                        tests@,
                        items_view(items@),
                        cx,
                        depth as nat,
                        i + 1,
                        tests@.len() as int,
                    );
                }
                return other;
            },
        }
        i += 1;
    }
    Ok(true)
}

/// Holds a record against one test on a field.
pub fn test_field(
    t: &PredicatePattern,
    target: &Value,
    env: &Env,
    event: &Value,
    state: &Value,
    meta: &Value,
    local: &LocalStack,
    depth: u64,
) -> (r: Result<bool, Error>)
    requires
        depth <= env.recursion_limit + 1,
    ensures
        r == fits_field(*t, target@, cx_of(*env, event@, state@, meta@, local@), depth as nat),
    decreases *t, 0int,
{
    match t {
        PredicatePattern::FieldPresent { key, .. } => Ok(target.get(key.as_str()).is_some()),
        PredicatePattern::FieldAbsent { key, .. } => Ok(target.get(key.as_str()).is_none()),
        PredicatePattern::TildeEq { key, test, .. } => Ok(
            match target.get(key.as_str()) {
                Some(v) => test.extractor.extract(v).is_some(),
                None => false,
            },
        ),
        PredicatePattern::Bin { key, rhs, kind, .. } => match target.get(key.as_str()) {
            None => Ok(false),
            Some(v) => {
                let r = match eval_expr(rhs, env, event, state, meta, local, depth) {
                    Ok(r) => r,
                    Err(e) => {
                        return Err(e);
                    },
                };
                let extent = env.meta.extent(rhs.mid());
                match exec_binary(extent, extent, *kind, v, &r) {
                    Ok(b) => Ok(
                        match b {
                            Value::Bool(true) => true,
                            _ => false,
                        },
                    ),
                    Err(e) => Err(e),
                }
            },
        },
        PredicatePattern::RecordPatternEq { key, pattern, .. } => match target.get(key.as_str()) {
            None => Ok(false),
            Some(v) => match v {
                Value::Object(_) => test_record(
                    &pattern.fields,
                    v,
                    env,
                    event,
                    state,
                    meta,
                    local,
                    depth,
                ),
                _ => Ok(false),
            },
        },
        PredicatePattern::ArrayPatternEq { key, pattern, .. } => match target.get(key.as_str()) {
            None => Ok(false),
            Some(v) => match v {
                Value::Array(items) => {
                    proof {
                        lemma_array_view(*items);
                    }
                    if items.len() == pattern.exprs.len() {
                        test_elements(&pattern.exprs, items, env, event, state, meta, local, depth)
                    } else {
                        Ok(false)
                    }
                },
                _ => Ok(false),
            },
        },
    }
}

/// Holds a record against the tests on its fields, in order.
pub fn test_record(
    tests: &Vec<PredicatePattern>,
    target: &Value,
    env: &Env,
    event: &Value,
    state: &Value,
    meta: &Value,
    local: &LocalStack,
    depth: u64,
) -> (r: Result<bool, Error>)
    requires
        depth <= env.recursion_limit + 1,
    ensures
        r == fits_record(
            tests@,
            target@,
            cx_of(*env, event@, state@, meta@, local@),
            depth as nat,
            tests@.len() as int,
        ),
    decreases tests@, tests@.len(),
{
    let ghost cx = cx_of(*env, event@, state@, meta@, local@);
    let mut i: usize = 0;
    while i < tests.len()
        invariant
            i <= tests.len(),
            depth <= env.recursion_limit + 1,
            cx == cx_of(*env, event@, state@, meta@, local@),
            fits_record(tests@, target@, cx, depth as nat, i as int) == Ok::<bool, Error>(true),
        decreases tests.len() - i,
    {
        let one = test_field(&tests[i], target, env, event, state, meta, local, depth);
        match one {
            Ok(true) => {},
            other => {
                proof {
                    assert(fits_record(tests@, target@, cx, depth as nat, i + 1) == other);
                    lemma_record_sticks(tests@, target@, cx, depth as nat, i + 1, tests@.len() as int);
                }
                return other;
            },
        }
        i += 1;
    }
    Ok(true)
}

/// Sets the local variable `idx` to `v`, if there is such a variable.
pub fn bind_local(local: &mut LocalStack, idx: usize, v: Value)
    ensures
        final(local)@ == bind(old(local)@, idx, v@),
{
    if idx < local.values.len() {
        let ghost before = local@;
        local.values.set(idx, Some(v));
        assert(local@ =~= before.update(idx as int, Some(v@)));
    }
}

/// Holds a value against a pattern.
pub fn test_pattern(
    p: &Pattern,
    target: &Value,
    env: &Env,
    event: &Value,
    state: &Value,
    meta: &Value,
    local: &LocalStack,
    depth: u64,
) -> (r: Result<Fit, Error>)
    requires
        depth <= env.recursion_limit + 1,
    ensures
        match r {
            Ok(fit) => fits_pattern(
                *p,
                target@,
                cx_of(*env, event@, state@, meta@, local@),
                depth as nat,
            ) == Ok::<Option<Seq<Option<Data>>>, Error>(fit.outcome(local@)),
            Err(e) => fits_pattern(
                *p,
                target@,
                cx_of(*env, event@, state@, meta@, local@),
                depth as nat,
            ) == Err::<Option<Seq<Option<Data>>>, Error>(e),
        },
    decreases *p, 0int,
{
    match p {
        Pattern::Default => Ok(Fit::Same),
        Pattern::DoNotCare => Ok(Fit::Same),
        Pattern::Expr(e) => match eval_expr(e, env, event, state, meta, local, depth) {
            Ok(v) => Ok(
                if v.equals(target) {
                    Fit::Same
                } else {
                    Fit::No
                },
            ),
            Err(e) => Err(e),
        },
        Pattern::Assign(a) => match test_pattern(
            &a.pattern,
            target,
            env,
            event,
            state,
            meta,
            local,
            depth,
        ) {
            Err(e) => Err(e),
            Ok(Fit::No) => Ok(Fit::No),
            Ok(Fit::Same) => {
                let mut bound = local.clone();
                bind_local(&mut bound, a.idx, target.clone());
                Ok(Fit::Bound(bound))
            },
            Ok(Fit::Bound(bound)) => {
                let mut bound = bound;
                bind_local(&mut bound, a.idx, target.clone());
                Ok(Fit::Bound(bound))
            },
        },
        Pattern::Record(rp) => match target {
            Value::Object(_) => match test_record(
                &rp.fields,
                target,
                env,
                event,
                state,
                meta,
                local,
                depth,
            ) {
                Ok(true) => Ok(crate::binding::bound_by_record(&rp.fields, target, local)),
                Ok(false) => Ok(Fit::No),
                Err(e) => Err(e),
            },
            _ => Ok(Fit::No),
        },
        Pattern::Array(ap) => match target {
            Value::Array(items) => {
                proof {
                    lemma_array_view(*items);
                }
                if items.len() == ap.exprs.len() {
                    match test_elements(&ap.exprs, items, env, event, state, meta, local, depth) {
                        Ok(true) => Ok(crate::binding::bound_by_elements(&ap.exprs, items, local)),
                        Ok(false) => Ok(Fit::No),
                        Err(e) => Err(e),
                    }
                } else {
                    Ok(Fit::No)
                }
            },
            _ => Ok(Fit::No),
        },
        Pattern::Tuple(tp) => match target {
            Value::Array(items) => {
                proof {
                    lemma_array_view(*items);
                }
                if items.len() == tp.exprs.len() || (tp.open && items.len() > tp.exprs.len()) {
                    match test_elements(&tp.exprs, items, env, event, state, meta, local, depth) {
                        Ok(true) => Ok(crate::binding::bound_by_elements(&tp.exprs, items, local)),
                        Ok(false) => Ok(Fit::No),
                        Err(e) => Err(e),
                    }
                } else {
                    Ok(Fit::No)
                }
            },
            _ => Ok(Fit::No),
        },
    }
}

/// Evaluates the guard of a clause.
pub fn test_guard(
    guard: &Option<ImutExprInt>,
    env: &Env,
    event: &Value,
    state: &Value,
    meta: &Value,
    local: &LocalStack,
    depth: u64,
) -> (r: Result<bool, Error>)
    requires
        depth <= env.recursion_limit + 1,
    ensures
        r == guard_passes(*guard, cx_of(*env, event@, state@, meta@, local@), depth as nat),
    decreases *guard, 0int,
{
    match guard {
        None => Ok(true),
        Some(g) => match eval_expr(g, env, event, state, meta, local, depth) {
            Ok(v) => Ok(
                match v {
                    Value::Bool(true) => true,
                    _ => false,
                },
            ),
            Err(e) => Err(e),
        },
    }
}

/// Tries one clause of a `match` expression on the value `target`.
pub fn try_imut(
    clause: &ImutPredicateClause,
    target: &Value,
    env: &Env,
    event: &Value,
    state: &Value,
    meta: &Value,
    local: &LocalStack,
    depth: u64,
) -> (r: Option<Result<Value, Error>>)
    requires
        depth <= env.recursion_limit + 1,
    ensures
        match r {
            None => try_imut_clause(
                *clause,
                target@,
                cx_of(*env, event@, state@, meta@, local@),
                depth as nat,
            ).is_none(),
            Some(x) => try_imut_clause(
                *clause,
                target@,
                cx_of(*env, event@, state@, meta@, local@),
                depth as nat,
            ).is_some() && gives(
                x,
                try_imut_clause(
                    *clause,
                    target@,
                    cx_of(*env, event@, state@, meta@, local@),
                    depth as nat,
                ).unwrap(),
            ),
        },
    decreases *clause, 0int,
{
    let fit = match test_pattern(&clause.pattern, target, env, event, state, meta, local, depth) {
        Ok(fit) => fit,
        Err(e) => {
            return Some(Err(e));
        },
    };
    let inner: LocalStack = match fit {
        Fit::No => {
            return None;
        },
        Fit::Same => local.clone(),
        Fit::Bound(bound) => bound,
    };
    match test_guard(&clause.guard, env, event, state, meta, &inner, depth) {
        Err(e) => Some(Err(e)),
        Ok(false) => None,
        Ok(true) => match eval_exprs(&clause.exprs, env, event, state, meta, &inner, depth) {
            Ok(values) => Some(Ok(take_last(values))),
            Err(e) => Some(Err(e)),
        },
    }
}

/// Evaluates a `match` expression on the value `target`.
pub fn select_clause(
    clauses: &Vec<ImutPredicateClause>,
    target: &Value,
    env: &Env,
    event: &Value,
    state: &Value,
    meta: &Value,
    local: &LocalStack,
    depth: u64,
    mid: usize,
) -> (r: Result<Value, Error>)
    requires
        depth <= env.recursion_limit + 1,
    ensures
        gives(
            r,
            select_imut(
                clauses@,
                target@,
                cx_of(*env, event@, state@, meta@, local@),
                depth as nat,
                0,
                mid,
            ),
        ),
    decreases clauses@, clauses@.len(),
{
    let ghost cx = cx_of(*env, event@, state@, meta@, local@);
    let mut i: usize = 0;
    while i < clauses.len()
        invariant
            i <= clauses.len(),
            depth <= env.recursion_limit + 1,
            cx == cx_of(*env, event@, state@, meta@, local@),
            select_imut(clauses@, target@, cx, depth as nat, 0, mid) == select_imut(
                clauses@,
                target@,
                cx,
                depth as nat,
                i as int,
                mid,
            ),
        decreases clauses.len() - i,
    {
        match try_imut(&clauses[i], target, env, event, state, meta, local, depth) {
            Some(r) => {
                return r;
            },
            None => {},
        }
        i += 1;
    }
    Err(Error::new(env.meta.extent(mid), ErrorKind::NoClauseHit))
}

/// How a statement ends.
#[derive(Debug, PartialEq, Eq)]
pub enum Cont {
    /// With a value; the script goes on.
    Cont(Value),
    /// The script ends and sends this value on, to the port if one is named.
    Emit(Value, Option<String>),
    /// The script ends and the event is dropped.
    Drop,
    /// The script ends and sends the event on as it is.
    EmitEvent(Option<String>),
}

/// How a statement ends, as data.
pub enum ContView {
    Cont(Data),
    Emit(Data, Option<Seq<char>>),
    Drop,
    EmitEvent(Option<Seq<char>>),
}

/// A port name as data.
pub open spec fn port_view(port: Option<String>) -> Option<Seq<char>> {
    match port {
        Some(p) => Some(p@),
        None => None,
    }
}

impl View for Cont {
    type V = ContView;

    open spec fn view(&self) -> ContView {
        match self {
            Cont::Cont(v) => ContView::Cont(v@),
            Cont::Emit(v, port) => ContView::Emit(v@, port_view(*port)),
            Cont::Drop => ContView::Drop,
            Cont::EmitEvent(port) => ContView::EmitEvent(port_view(*port)),
        }
    }
}

/// What running a statement leaves: what the script can read afterwards, and
/// how the statement ended.
pub struct Ran {
    pub cx: Cx,
    pub out: Result<ContView, Error>,
}

impl Expr {
    /// The index of the statement's place in the source.
    pub open spec fn mid_of(self) -> usize {
        match self {
            Expr::Match(m) => m.mid,
            Expr::Assign { mid, .. } => mid,
            Expr::AssignMoveLocal { mid, .. } => mid,
            Expr::Drop { mid } => mid,
            Expr::Emit(e) => e.mid,
            Expr::PatchInPlace(p) => p.mid,
            Expr::MergeInPlace(m) => m.mid,
            Expr::Imut(i) => i.mid_of(),
        }
    }

    /// The index of the statement's place in the source.
    pub fn mid(&self) -> (r: usize)
        ensures
            r == self.mid_of(),
    {
        match self {
            Expr::Match(m) => m.mid,
            Expr::Assign { mid, .. } => *mid,
            Expr::AssignMoveLocal { mid, .. } => *mid,
            Expr::Drop { mid } => *mid,
            Expr::Emit(e) => e.mid,
            Expr::PatchInPlace(p) => p.mid,
            Expr::MergeInPlace(m) => m.mid,
            Expr::Imut(i) => i.mid(),
        }
    }
}

/// The value `base` with `v` put where the steps from `from` on lead. Every
/// step but the last must lead into a record that is there; the last names the
/// field to set. Steps into arrays cannot be assigned to.
pub open spec fn set_in(base: Data, steps: Seq<Segment>, metas: NodeMetas, from: int, v: Data) -> Result<
    Data,
    Error,
>
    decreases steps.len() - from,
{
    if from < 0 || from >= steps.len() {
        Ok(v)
    } else {
        match steps[from] {
            Segment::Idx { idx, mid } => Err(Error::at(metas.extent_of(mid), ErrorKind::BadAccess)),
            Segment::Id { key, mid } => if !(base is Object) {
                Err(
                    Error::at(
                        metas.extent_of(mid),
                        ErrorKind::TypeError(crate::value::ValueType::Object, base.value_type()),
                    ),
                )
            } else if from == steps.len() - 1 {
                Ok(base.with_field(key@, v))
            } else {
                match base.field(key@) {
                    None => Err(Error::at(metas.extent_of(mid), ErrorKind::BadAccess)),
                    Some(child) => match set_in(child, steps, metas, from + 1, v) {
                        Ok(c) => Ok(base.with_field(key@, c)),
                        Err(e) => Err(e),
                    },
                }
            },
        }
    }
}

/// What the script can read after `v` was assigned to `path`.
pub open spec fn assign(path: Path, v: Data, cx: Cx) -> Result<Cx, Error> {
    match path {
        Path::Const(lp) => Err(Error::at(cx.metas.extent_of(lp.mid), ErrorKind::InvalidConst)),
        Path::Local(lp) => if lp.idx >= cx.locals.len() {
            Err(Error::at(cx.metas.extent_of(lp.mid), ErrorKind::UnsetLocal))
        } else if lp.segments@.len() == 0 {
            Ok(Cx { locals: cx.locals.update(lp.idx as int, Some(v)), ..cx })
        } else {
            match cx.locals[lp.idx as int] {
                None => Err(Error::at(cx.metas.extent_of(lp.mid), ErrorKind::UnsetLocal)),
                Some(base) => match set_in(base, lp.segments@, cx.metas, 0, v) {
                    Ok(b) => Ok(Cx { locals: cx.locals.update(lp.idx as int, Some(b)), ..cx }),
                    Err(e) => Err(e),
                },
            }
        },
        Path::Event(ep) => match set_in(cx.event, ep.segments@, cx.metas, 0, v) {
            Ok(b) => Ok(Cx { event: b, ..cx }),
            Err(e) => Err(e),
        },
        Path::State(sp) => match set_in(cx.state, sp.segments@, cx.metas, 0, v) {
            Ok(b) => Ok(Cx { state: b, ..cx }),
            Err(e) => Err(e),
        },
        Path::Meta(mp) => match set_in(cx.meta, mp.segments@, cx.metas, 0, v) {
            Ok(b) => Ok(Cx { meta: b, ..cx }),
            Err(e) => Err(e),
        },
    }
}

/// Whether an expression is the bare event.
pub open spec fn is_bare_event(e: ImutExprInt) -> bool {
    e matches ImutExprInt::Path(Path::Event(ep)) && ep.segments@.len() == 0
}

/// The port that an `emit` names: none, or the string that its port
/// expression gives.
pub open spec fn emit_port(port: Option<ImutExprInt>, cx: Cx, depth: nat) -> Result<Option<Seq<char>>, Error> {
    match port {
        None => Ok(None),
        Some(pe) => match eval(pe, cx, depth) {
            Err(e) => Err(e),
            Ok(Data::String(s)) => Ok(Some(s)),
            Ok(other) => Err(
                Error::at(
                    cx.metas.extent_of(pe.mid_of()),
                    ErrorKind::TypeError(crate::value::ValueType::String, other.value_type()),
                ),
            ),
        },
    }
}

/// How an `emit` ends: the port is evaluated first; an `emit` of the bare
/// event sends the event on as it is, any other sends the value of its
/// expression.
pub open spec fn emit(em: EmitExpr, cx: Cx, depth: nat) -> Result<ContView, Error> {
    match emit_port(em.port, cx, depth) {
        Err(e) => Err(e),
        Ok(port) => if is_bare_event(em.expr) {
            Ok(ContView::EmitEvent(port))
        } else {
            match eval(em.expr, cx, depth) {
                Err(e) => Err(e),
                Ok(v) => Ok(ContView::Emit(v, port)),
            }
        },
    }
}

/// What running the statements from `from` on leaves. A statement that ends
/// with a value lets the next one run; the last statement's end, or the first
/// end that is an error, an emit or a drop, is the end of the run. No
/// statement ends with null.
pub open spec fn run_body(exprs: Seq<Expr>, cx: Cx, depth: nat, from: int) -> Ran
    decreases exprs, exprs.len() - from,
{
    if from < 0 || from >= exprs.len() {
        Ran { cx, out: Ok(ContView::Cont(Data::Null)) }
    } else {
        let r = run_expr(exprs[from], cx, depth);
        if from == exprs.len() - 1 || !(r.out matches Ok(ContView::Cont(_))) {
            r
        } else {
            run_body(exprs, r.cx, depth, from + 1)
        }
    }
}

/// What one clause of a `match` statement makes of `target`: nothing if the
/// clause is not hit; else what running its statements leaves, with what its
/// pattern binds, or the error that came up before they could run.
pub closed spec fn try_clause(c: PredicateClause, target: Data, cx: Cx, depth: nat) -> Option<Ran>
    decreases c, 0int,
{
    match fits_pattern(c.pattern, target, cx, depth) {
        Err(e) => Some(Ran { cx, out: Err(e) }),
        Ok(None) => None,
        Ok(Some(locals)) => match guard_passes(c.guard, Cx { locals, ..cx }, depth) {
            Err(e) => Some(Ran { cx, out: Err(e) }),
            Ok(false) => None,
            Ok(true) => Some(run_body(c.exprs@, Cx { locals, ..cx }, depth, 0)),
        },
    }
}

/// What running a `match` statement on `target` leaves, from the clause
/// `from` on: what the first clause that is hit makes of it; an error where no
/// clause is hit.
pub open spec fn select(
    clauses: Seq<PredicateClause>,
    target: Data,
    cx: Cx,
    depth: nat,
    from: int,
    mid: usize,
) -> Ran
    decreases clauses, clauses.len() - from,
{
    if from < 0 || from >= clauses.len() {
        Ran { cx, out: Err(Error::at(cx.metas.extent_of(mid), ErrorKind::NoClauseHit)) }
    } else {
        match try_clause(clauses[from], target, cx, depth) {
            Some(r) => r,
            None => select(clauses, target, cx, depth, from + 1, mid),
        }
    }
}

/// What a `patch` or a `merge` in place leaves: where it gave a value and
/// its target is a path, the value is assigned to the path; where it failed,
/// nothing is changed.
pub open spec fn put_back(target: ImutExprInt, r: Result<Data, Error>, cx: Cx) -> Ran {
    match r {
        Err(e) => Ran { cx, out: Err(e) },
        Ok(v) => match target {
            ImutExprInt::Path(path) => match assign(path, v, cx) {
                Ok(after) => Ran { cx: after, out: Ok(ContView::Cont(v)) },
                Err(e) => Ran { cx, out: Err(e) },
            },
            _ => Ran { cx, out: Ok(ContView::Cont(v)) },
        },
    }
}

/// What running a statement `depth` levels down leaves.
pub open spec fn run_expr(e: Expr, cx: Cx, depth: nat) -> Ran
    decreases e, 0int,
{
    if depth > cx.limit {
        Ran { cx, out: Err(Error::at(cx.metas.extent_of(e.mid_of()), ErrorKind::RecursionLimit)) }
    } else {
        match e {
            Expr::Imut(i) => Ran {
                cx,
                out: match eval(i, cx, depth) {
                    Ok(v) => Ok(ContView::Cont(v)),
                    Err(e) => Err(e),
                },
            },
            Expr::Drop { mid } => Ran { cx, out: Ok(ContView::Drop) },
            Expr::Emit(em) => Ran { cx, out: emit(*em, cx, depth + 1) },
            Expr::PatchInPlace(p) => put_back(p.target, eval_patch(*p, cx, depth), cx),
            Expr::MergeInPlace(m) => put_back(m.target, eval_merge(*m, cx, depth), cx),
            Expr::Assign { mid, path, expr } => {
                let r = run_expr(*expr, cx, depth + 1);
                match r.out {
                    Ok(ContView::Cont(v)) => match assign(path, v, r.cx) {
                        Ok(after) => Ran { cx: after, out: Ok(ContView::Cont(v)) },
                        Err(e) => Ran { cx: r.cx, out: Err(e) },
                    },
                    _ => r,
                }
            },
            Expr::AssignMoveLocal { mid, path, idx } => match read_local(idx, mid, cx) {
                Err(e) => Ran { cx, out: Err(e) },
                Ok(v) => match assign(
                    path,
                    v,
                    Cx { locals: cx.locals.update(idx as int, None), ..cx },
                ) {
                    Ok(after) => Ran { cx: after, out: Ok(ContView::Cont(v)) },
                    Err(e) => Ran { cx, out: Err(e) },
                },
            },
            Expr::Match(m) => match eval(m.target, cx, depth + 1) {
                Err(e) => Ran { cx, out: Err(e) },
                Ok(target) => select(m.patterns@, target, cx, depth + 1, 0, m.mid),
            },
        }
    }
}

/// Whether `r` is the end that `spec` names.
pub open spec fn ends(r: Result<Cont, Error>, spec: Result<ContView, Error>) -> bool {
    match r {
        Ok(c) => spec == Ok::<ContView, Error>(c@),
        Err(e) => spec == Err::<ContView, Error>(e),
    }
}

/// Puts `v` where the steps from `from` on lead inside `base`. Where that
/// cannot be done `base` stays as it is.
fn set_path(base: &mut Value, steps: &Vec<Segment>, metas: &NodeMetas, from: usize, v: Value) -> (r:
    Result<(), Error>)
    ensures
        match r {
            Ok(()) => set_in(old(base)@, steps@, *metas, from as int, v@) == Ok::<Data, Error>(
                final(base)@,
            ),
            Err(e) => set_in(old(base)@, steps@, *metas, from as int, v@) == Err::<Data, Error>(e)
                && final(base)@ == old(base)@,
        },
    decreases steps.len() - from,
{
    if from >= steps.len() {
        *base = v;
        return Ok(());
    }
    match &steps[from] {
        Segment::Idx { idx, mid } => Err(Error::new(metas.extent(*mid), ErrorKind::BadAccess)),
        Segment::Id { key, mid } => {
            let is_record = match &*base {
                Value::Object(_) => true,
                _ => false,
            };
            if !is_record {
                return Err(
                    Error::new(
                        metas.extent(*mid),
                        ErrorKind::TypeError(crate::value::ValueType::Object, base.value_type()),
                    ),
                );
            }
            if from == steps.len() - 1 {
                base.insert(key.clone(), v);
                return Ok(());
            }
            let mut child = match base.get(key.as_str()) {
                Some(c) => c.clone(),
                None => {
                    return Err(Error::new(metas.extent(*mid), ErrorKind::BadAccess));
                },
            };
            match set_path(&mut child, steps, metas, from + 1, v) {
                Ok(()) => {
                    base.insert(key.clone(), child);
                    Ok(())
                },
                Err(e) => Err(e),
            }
        },
    }
}

/// Assigns `v` to `path`. Where that cannot be done everything stays as it
/// is.
fn assign_path(
    path: &Path,
    v: Value,
    env: &Env,
    event: &mut Value,
    state: &mut Value,
    meta: &mut Value,
    local: &mut LocalStack,
) -> (r: Result<(), Error>)
    ensures
        match r {
            Ok(()) => assign(
                *path,
                v@,
                cx_of(*env, old(event)@, old(state)@, old(meta)@, old(local)@),
            ) == Ok::<Cx, Error>(
                cx_of(*env, final(event)@, final(state)@, final(meta)@, final(local)@),
            ),
            Err(e) => assign(
                *path,
                v@,
                cx_of(*env, old(event)@, old(state)@, old(meta)@, old(local)@),
            ) == Err::<Cx, Error>(e) && final(event)@ == old(event)@ && final(state)@ == old(
                state,
            )@ && final(meta)@ == old(meta)@ && final(local)@ == old(local)@,
        },
{
    match path {
        Path::Const(lp) => Err(Error::new(env.meta.extent(lp.mid), ErrorKind::InvalidConst)),
        Path::Local(lp) => {
            if lp.idx >= local.values.len() {
                return Err(Error::new(env.meta.extent(lp.mid), ErrorKind::UnsetLocal));
            }
            let ghost before = local@;
            if lp.segments.len() == 0 {
                local.values.set(lp.idx, Some(v));
                assert(local@ =~= before.update(lp.idx as int, Some(v@)));
                return Ok(());
            }
            let mut slot: Option<Value> = None;
            std::mem::swap(&mut local.values[lp.idx], &mut slot);
            match slot {
                None => {
                    assert(local@ =~= before);
                    Err(Error::new(env.meta.extent(lp.mid), ErrorKind::UnsetLocal))
                },
                Some(base) => {
                    let mut base = base;
                    let r = set_path(&mut base, &lp.segments, env.meta, 0, v);
                    local.values.set(lp.idx, Some(base));
                    proof {
                        if r.is_ok() {
                            assert(local@ =~= before.update(lp.idx as int, Some(base@)));
                        } else {
                            assert(local@ =~= before);
                        }
                    }
                    r
                },
            }
        },
        Path::Event(ep) => set_path(event, &ep.segments, env.meta, 0, v),
        Path::State(sp) => set_path(state, &sp.segments, env.meta, 0, v),
        Path::Meta(mp) => set_path(meta, &mp.segments, env.meta, 0, v),
    }
}

/// Evaluates the port of an `emit`.
fn port_of(
    port: &Option<ImutExprInt>,
    env: &Env,
    event: &Value,
    state: &Value,
    meta: &Value,
    local: &LocalStack,
    depth: u64,
) -> (r: Result<Option<String>, Error>)
    requires
        depth <= env.recursion_limit + 1,
    ensures
        match r {
            Ok(p) => emit_port(*port, cx_of(*env, event@, state@, meta@, local@), depth as nat)
                == Ok::<Option<Seq<char>>, Error>(port_view(p)),
            Err(e) => emit_port(*port, cx_of(*env, event@, state@, meta@, local@), depth as nat)
                == Err::<Option<Seq<char>>, Error>(e),
        },
{
    match port {
        None => Ok(None),
        Some(pe) => match eval_expr(pe, env, event, state, meta, local, depth) {
            Err(e) => Err(e),
            Ok(Value::String(s)) => Ok(Some(s)),
            Ok(other) => Err(
                Error::new(
                    env.meta.extent(pe.mid()),
                    ErrorKind::TypeError(crate::value::ValueType::String, other.value_type()),
                ),
            ),
        },
    }
}

/// Runs an `emit`.
fn run_emit(
    em: &EmitExpr,
    env: &Env,
    event: &Value,
    state: &Value,
    meta: &Value,
    local: &LocalStack,
    depth: u64,
) -> (r: Result<Cont, Error>)
    requires
        depth <= env.recursion_limit + 1,
    ensures
        ends(r, emit(*em, cx_of(*env, event@, state@, meta@, local@), depth as nat)),
{
    let port = match port_of(&em.port, env, event, state, meta, local, depth) {
        Ok(p) => p,
        Err(e) => {
            return Err(e);
        },
    };
    let bare = match &em.expr {
        ImutExprInt::Path(Path::Event(ep)) => ep.segments.len() == 0,
        _ => false,
    };
    if bare {
        Ok(Cont::EmitEvent(port))
    } else {
        match eval_expr(&em.expr, env, event, state, meta, local, depth) {
            Ok(v) => Ok(Cont::Emit(v, port)),
            Err(e) => Err(e),
        }
    }
}

/// Whether a run ended as `ran` says and left what `ran` says.
pub open spec fn left(r: Result<Cont, Error>, after: Cx, ran: Ran) -> bool {
    ends(r, ran.out) && after == ran.cx
}

/// Runs an assignment of the local variable `idx` to `path`, which takes the
/// value out of the variable.
fn run_move(
    mid: usize,
    path: &Path,
    idx: usize,
    env: &Env,
    event: &mut Value,
    state: &mut Value,
    meta: &mut Value,
    local: &mut LocalStack,
) -> (r: Result<Cont, Error>)
    ensures
        ({
            let cx = cx_of(*env, old(event)@, old(state)@, old(meta)@, old(local)@);
            left(
                r,
                cx_of(*env, final(event)@, final(state)@, final(meta)@, final(local)@),
                match read_local(idx, mid, cx) {
                    Err(e) => Ran { cx, out: Err(e) },
                    Ok(v) => match assign(
                        *path,
                        v,
                        Cx { locals: cx.locals.update(idx as int, None), ..cx },
                    ) {
                        Ok(after) => Ran { cx: after, out: Ok(ContView::Cont(v)) },
                        Err(e) => Ran { cx, out: Err(e) },
                    },
                },
            )
        }),
{
    let ghost cx = cx_of(*env, event@, state@, meta@, local@);
    let v = match local_value(idx, mid, env, local, Ghost(cx)) {
        Ok(v) => v.clone(),
        Err(e) => {
            return Err(e);
        },
    };
    let ghost before = local@;
    let mut slot: Option<Value> = None;
    std::mem::swap(&mut local.values[idx], &mut slot);
    assert(local@ =~= before.update(idx as int, None));
    assert(slot_view(slot) == before[idx as int]);
    let ghost emptied = local@;
    match assign_path(path, v.clone(), env, event, state, meta, local) {
        Ok(()) => Ok(Cont::Cont(v)),
        Err(e) => {
            assert(local@ == emptied);
            local.values.set(idx, slot);
            assert(local@ =~= emptied.update(idx as int, slot_view(slot)));
            assert(local@ =~= before);
            Err(e)
        },
    }
}

/// Puts the value of a `patch` or a `merge` in place where its target
/// stands.
fn store_back(
    target: &ImutExprInt,
    r: Result<Value, Error>,
    env: &Env,
    event: &mut Value,
    state: &mut Value,
    meta: &mut Value,
    local: &mut LocalStack,
) -> (res: Result<Cont, Error>)
    ensures
        forall|spec: Result<Data, Error>|
            gives(r, spec) ==> left(
                res,
                cx_of(*env, final(event)@, final(state)@, final(meta)@, final(local)@),
                put_back(*target, spec, cx_of(*env, old(event)@, old(state)@, old(meta)@, old(local)@)),
            ),
{
    match r {
        Err(e) => Err(e),
        Ok(v) => match target {
            ImutExprInt::Path(path) => {
                match assign_path(path, v.clone(), env, event, state, meta, local) {
                    Ok(()) => Ok(Cont::Cont(v)),
                    Err(e) => Err(e),
                }
            },
            _ => Ok(Cont::Cont(v)),
        },
    }
}

/// Runs a statement that stands `depth` levels down.
pub fn run_stmt(
    e: &Expr,
    env: &Env,
    event: &mut Value,
    state: &mut Value,
    meta: &mut Value,
    local: &mut LocalStack,
    depth: u64,
) -> (r: Result<Cont, Error>)
    requires
        depth <= env.recursion_limit + 1,
    ensures
        left(
            r,
            cx_of(*env, final(event)@, final(state)@, final(meta)@, final(local)@),
            run_expr(
                *e,
                cx_of(*env, old(event)@, old(state)@, old(meta)@, old(local)@),
                depth as nat,
            ),
        ),
    decreases *e, 0int,
{
    if depth > env.recursion_limit as u64 {
        return Err(Error::new(env.meta.extent(e.mid()), ErrorKind::RecursionLimit));
    }
    match e {
        Expr::Imut(i) => match eval_expr(i, env, event, state, meta, local, depth) {
            Ok(v) => Ok(Cont::Cont(v)),
            Err(e) => Err(e),
        },
        Expr::Drop { mid } => Ok(Cont::Drop),
        Expr::Emit(em) => run_emit(em, env, event, state, meta, local, depth + 1),
        Expr::PatchInPlace(p) => {
            let r = patch_expr(p, env, event, state, meta, local, depth);
            store_back(&p.target, r, env, event, state, meta, local)
        },
        Expr::MergeInPlace(m) => {
            let r = merge_expr(m, env, event, state, meta, local, depth);
            store_back(&m.target, r, env, event, state, meta, local)
        },
        Expr::Assign { mid, path, expr } => {
            match run_stmt(expr, env, event, state, meta, local, depth + 1) {
                Ok(Cont::Cont(v)) => {
                    match assign_path(path, v.clone(), env, event, state, meta, local) {
                        Ok(()) => Ok(Cont::Cont(v)),
                        Err(e) => Err(e),
                    }
                },
                other => other,
            }
        },
        Expr::AssignMoveLocal { mid, path, idx } => run_move(
            *mid,
            path,
            *idx,
            env,
            event,
            state,
            meta,
            local,
        ),
        Expr::Match(m) => {
            let target = match eval_expr(&m.target, env, event, state, meta, local, depth + 1) {
                Ok(v) => v,
                Err(e) => {
                    return Err(e);
                },
            };
            run_match(&m.patterns, &target, env, event, state, meta, local, depth + 1, m.mid)
        },
    }
}

/// Runs statements in order.
pub fn run_stmts(
    exprs: &Vec<Expr>,
    env: &Env,
    event: &mut Value,
    state: &mut Value,
    meta: &mut Value,
    local: &mut LocalStack,
    depth: u64,
) -> (r: Result<Cont, Error>)
    requires
        depth <= env.recursion_limit + 1,
    ensures
        left(
            r,
            cx_of(*env, final(event)@, final(state)@, final(meta)@, final(local)@),
            run_body(
                exprs@,
                cx_of(*env, old(event)@, old(state)@, old(meta)@, old(local)@),
                depth as nat,
                0,
            ),
        ),
    decreases exprs@, exprs@.len(),
{
    let mut i: usize = 0;
    while i < exprs.len()
        invariant
            i <= exprs.len(),
            depth <= env.recursion_limit + 1,
            run_body(
                exprs@,
                cx_of(*env, old(event)@, old(state)@, old(meta)@, old(local)@),
                depth as nat,
                0,
            ) == run_body(
                exprs@,
                cx_of(*env, event@, state@, meta@, local@),
                depth as nat,
                i as int,
            ),
        decreases exprs.len() - i,
    {
        let r = run_stmt(&exprs[i], env, event, state, meta, local, depth);
        let goes_on = match &r {
            Ok(Cont::Cont(_)) => i + 1 < exprs.len(),
            _ => false,
        };
        if !goes_on {
            return r;
        }
        i += 1;
    }
    Ok(Cont::Cont(Value::Null))
}

/// Tries one clause of a `match` statement on the value `target`.
pub fn try_stmt_clause(
    clause: &PredicateClause,
    target: &Value,
    env: &Env,
    event: &mut Value,
    state: &mut Value,
    meta: &mut Value,
    local: &mut LocalStack,
    depth: u64,
) -> (r: Option<Result<Cont, Error>>)
    requires
        depth <= env.recursion_limit + 1,
    ensures
        ({
            let cx = cx_of(*env, old(event)@, old(state)@, old(meta)@, old(local)@);
            let after = cx_of(*env, final(event)@, final(state)@, final(meta)@, final(local)@);
            match r {
                None => try_clause(*clause, target@, cx, depth as nat).is_none() && after == cx,
                Some(x) => try_clause(*clause, target@, cx, depth as nat).is_some() && left(
                    x,
                    after,
                    try_clause(*clause, target@, cx, depth as nat).unwrap(),
                ),
            }
        }),
    decreases *clause, 0int,
{
    let fit = match test_pattern(&clause.pattern, target, env, event, state, meta, local, depth) {
        Ok(fit) => fit,
        Err(e) => {
            return Some(Err(e));
        },
    };
    match fit {
        Fit::No => None,
        Fit::Same => match test_guard(&clause.guard, env, event, state, meta, local, depth) {
            Err(e) => Some(Err(e)),
            Ok(false) => None,
            Ok(true) => Some(run_stmts(&clause.exprs, env, event, state, meta, local, depth)),
        },
        Fit::Bound(bound) => match test_guard(&clause.guard, env, event, state, meta, &bound, depth) {
            Err(e) => Some(Err(e)),
            Ok(false) => None,
            Ok(true) => {
                *local = bound;
                Some(run_stmts(&clause.exprs, env, event, state, meta, local, depth))
            },
        },
    }
}

/// Runs a `match` statement on the value `target`.
pub fn run_match(
    clauses: &Vec<PredicateClause>,
    target: &Value,
    env: &Env,
    event: &mut Value,
    state: &mut Value,
    meta: &mut Value,
    local: &mut LocalStack,
    depth: u64,
    mid: usize,
) -> (r: Result<Cont, Error>)
    requires
        depth <= env.recursion_limit + 1,
    ensures
        left(
            r,
            cx_of(*env, final(event)@, final(state)@, final(meta)@, final(local)@),
            select(
                clauses@,
                target@,
                cx_of(*env, old(event)@, old(state)@, old(meta)@, old(local)@),
                depth as nat,
                0,
                mid,
            ),
        ),
    decreases clauses@, clauses@.len(),
{
    let mut i: usize = 0;
    while i < clauses.len()
        invariant
            i <= clauses.len(),
            depth <= env.recursion_limit + 1,
            cx_of(*env, event@, state@, meta@, local@) == cx_of(
                *env,
                old(event)@,
                old(state)@,
                old(meta)@,
                old(local)@,
            ),
            select(
                clauses@,
                target@,
                cx_of(*env, old(event)@, old(state)@, old(meta)@, old(local)@),
                depth as nat,
                0,
                mid,
            ) == select(
                clauses@,
                target@,
                cx_of(*env, old(event)@, old(state)@, old(meta)@, old(local)@),
                depth as nat,
                i as int,
                mid,
            ),
        decreases clauses.len() - i,
    {
        match try_stmt_clause(&clauses[i], target, env, event, state, meta, local, depth) {
            Some(r) => {
                return r;
            },
            None => {},
        }
        i += 1;
    }
    Err(Error::new(env.meta.extent(mid), ErrorKind::NoClauseHit))
}

/// What trying a clause of a `match` statement means, spelled out: the
/// pattern is held against the value; where it fits, the guard is evaluated
/// with what the pattern binds; where the guard lets the clause through, its
/// statements run.
pub proof fn clause_meaning(c: PredicateClause, target: Data, cx: Cx, depth: nat)
    ensures
        try_clause(c, target, cx, depth) == (match fits_pattern(c.pattern, target, cx, depth) {
            Err(e) => Some(Ran { cx, out: Err(e) }),
            Ok(None) => None,
            Ok(Some(locals)) => match guard_passes(c.guard, Cx { locals, ..cx }, depth) {
                Err(e) => Some(Ran { cx, out: Err(e) }),
                Ok(false) => None,
                Ok(true) => Some(run_body(c.exprs@, Cx { locals, ..cx }, depth, 0)),
            },
        }),
{
}

/// What trying a clause of a `match` expression means, spelled out.
pub proof fn imut_clause_meaning(c: ImutPredicateClause, target: Data, cx: Cx, depth: nat)
    ensures
        try_imut_clause(c, target, cx, depth) == (match fits_pattern(c.pattern, target, cx, depth) {
            Err(e) => Some(Err::<Data, Error>(e)),
            Ok(None) => None,
            Ok(Some(locals)) => match guard_passes(c.guard, Cx { locals, ..cx }, depth) {
                Err(e) => Some(Err::<Data, Error>(e)),
                Ok(false) => None,
                Ok(true) => match eval_list(
                    c.exprs@,
                    Cx { locals, ..cx },
                    depth,
                    c.exprs@.len() as int,
                ) {
                    Err(e) => Some(Err::<Data, Error>(e)),
                    Ok(values) => Some(Ok::<Data, Error>(last_value(values))),
                },
            },
        }),
{
}

} // verus!
