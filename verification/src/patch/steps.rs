//! The operations of a `patch` expression: how their names and values are
//! worked out, and how they are made one after the other.

use vstd::prelude::*;
use crate::ast::meta::NodeMetas;
use crate::ast::{ImutExprInt, Patch, PatchOperation};
use crate::errors::{Error, ErrorKind};
use crate::interpreter::{cx_of, eval, eval_expr, gives, need_record, record_at, Cx, Env, LocalStack};
use crate::patch::{apply_change, changed, Change, ChangeView};
use crate::value::{Data, Value, ValueType};

verus! {

/// The expression of an operation that is evaluated first: the name that it
/// is about, or the record that it merges in.
pub open spec fn first_of(op: PatchOperation) -> ImutExprInt {
    match op {
        PatchOperation::Insert { ident, .. } => ident,
        PatchOperation::Upsert { ident, .. } => ident,
        PatchOperation::Update { ident, .. } => ident,
        PatchOperation::Erase { ident } => ident,
        PatchOperation::Copy { from, .. } => from,
        PatchOperation::Move { from, .. } => from,
        PatchOperation::Merge { ident, .. } => ident,
        PatchOperation::TupleMerge { expr } => expr,
    }
}

/// The expression that is evaluated second, where the operation has two:
/// the new value, or the new name.
pub open spec fn second_of(op: PatchOperation) -> Option<ImutExprInt> {
    match op {
        PatchOperation::Insert { expr, .. } => Some(expr),
        PatchOperation::Upsert { expr, .. } => Some(expr),
        PatchOperation::Update { expr, .. } => Some(expr),
        PatchOperation::Erase { .. } => None,
        PatchOperation::Copy { to, .. } => Some(to),
        PatchOperation::Move { to, .. } => Some(to),
        PatchOperation::Merge { expr, .. } => Some(expr),
        PatchOperation::TupleMerge { .. } => None,
    }
}

/// Whether the first expression of the operation gives a name.
pub open spec fn names_first(op: PatchOperation) -> bool {
    !(op is TupleMerge)
}

/// Whether the second expression of the operation gives a name.
pub open spec fn names_second(op: PatchOperation) -> bool {
    op is Copy || op is Move
}

/// The place in the source that a refused change is reported at: the name
/// that it sets, or the record that it merges in.
pub open spec fn place_of(op: PatchOperation) -> usize {
    if names_second(op) {
        match second_of(op) {
            Some(to) => to.mid_of(),
            None => first_of(op).mid_of(),
        }
    } else {
        first_of(op).mid_of()
    }
}

/// The text of a string; no text for any other value.
pub open spec fn text_of(v: Data) -> Seq<char> {
    match v {
        Data::String(s) => s,
        _ => Seq::empty(),
    }
}

/// The change that an operation asks for, given the values of its two
/// expressions.
pub open spec fn change_from(op: PatchOperation, one: Data, two: Data) -> ChangeView {
    match op {
        PatchOperation::Insert { .. } => ChangeView::Insert { key: text_of(one), value: two },
        PatchOperation::Upsert { .. } => ChangeView::Upsert { key: text_of(one), value: two },
        PatchOperation::Update { .. } => ChangeView::Update { key: text_of(one), value: two },
        PatchOperation::Erase { .. } => ChangeView::Erase { key: text_of(one) },
        PatchOperation::Copy { .. } => ChangeView::Copy { from: text_of(one), to: text_of(two) },
        PatchOperation::Move { .. } => ChangeView::Move { from: text_of(one), to: text_of(two) },
        PatchOperation::Merge { .. } => ChangeView::Merge { key: text_of(one), value: two },
        PatchOperation::TupleMerge { .. } => ChangeView::TupleMerge { value: one },
    }
}

/// A value where a name is needed: the value itself if it is a string, or
/// if no name is `wanted`; else the error about the expression at `mid`.
pub open spec fn name_at(metas: NodeMetas, mid: usize, wanted: bool, v: Data) -> Result<Data, Error> {
    if !wanted || v is String {
        Ok(v)
    } else {
        Err(Error::at(metas.extent_of(mid), ErrorKind::TypeError(ValueType::String, v.value_type())))
    }
}

/// What the operation makes of the record `record`, given what its two
/// expressions gave: a failure of the first expression comes first, then a
/// first value that is no name, then the same for the second, then the
/// refusal of the change.
pub open spec fn stepped(
    op: PatchOperation,
    metas: NodeMetas,
    outer: usize,
    record: Data,
    one: Result<Data, Error>,
    two: Result<Data, Error>,
) -> Result<Data, Error> {
    match one {
        Err(e) => Err(e),
        Ok(one) => match name_at(metas, first_of(op).mid_of(), names_first(op), one) {
            Err(e) => Err(e),
            Ok(one) => match two {
                Err(e) => Err(e),
                Ok(two) => match name_at(metas, place_of(op), names_second(op), two) {
                    Err(e) => Err(e),
                    Ok(two) => match changed(record, change_from(op, one, two)) {
                        Ok(v) => Ok(v),
                        Err(kind) => Err(
                            Error {
                                outer: metas.extent_of(outer).widened(2),
                                inner: metas.extent_of(place_of(op)),
                                kind,
                            },
                        ),
                    },
                },
            },
        },
    }
}

/// What the second expression of an operation gives; null where the
/// operation has one expression only.
pub open spec fn second_value(op: PatchOperation, cx: Cx, depth: nat) -> Result<Data, Error>
    decreases op, 0int,
{
    match second_of(op) {
        Some(e) => eval(e, cx, depth + 1),
        None => Ok(Data::Null),
    }
}

/// What the first `upto` operations make of the value `start`. Before each
/// operation the value must be a record; then the expressions of the
/// operation are evaluated in the order in which they are written, and the
/// change is made. The first failure ends the patch.
pub open spec fn patched_upto(
    ops: Seq<PatchOperation>,
    outer: usize,
    inner: usize,
    start: Data,
    cx: Cx,
    depth: nat,
    upto: int,
) -> Result<Data, Error>
    decreases ops, upto,
{
    if upto <= 0 || upto > ops.len() {
        Ok(start)
    } else {
        match patched_upto(ops, outer, inner, start, cx, depth, upto - 1) {
            Err(e) => Err(e),
            Ok(sofar) => match record_at(cx.metas, outer, inner, sofar) {
                Err(e) => Err(e),
                Ok(record) => stepped(
                    ops[upto - 1],
                    cx.metas,
                    outer,
                    record,
                    eval(first_of(ops[upto - 1]), cx, depth + 1),
                    second_value(ops[upto - 1], cx, depth),
                ),
            },
        }
    }
}

/// The value of a `patch`: the target is evaluated, then the operations are
/// made on its value in order.
pub open spec fn eval_patch(p: Patch, cx: Cx, depth: nat) -> Result<Data, Error>
    decreases p, 1int,
{
    match eval(p.target, cx, depth + 1) {
        Err(e) => Err(e),
        Ok(start) => patched_upto(
            p.operations@,
            p.mid,
            p.target.mid_of(),
            start,
            cx,
            depth,
            p.operations@.len() as int,
        ),
    }
}

/// A patch that has failed after `i` operations has failed after `n`.
pub proof fn lemma_patch_sticks(
    ops: Seq<PatchOperation>,
    outer: usize,
    inner: usize,
    start: Data,
    cx: Cx,
    depth: nat,
    i: int,
    n: int,
)
    requires
        0 <= i <= n <= ops.len(),
        patched_upto(ops, outer, inner, start, cx, depth, i) is Err,
    ensures
        patched_upto(ops, outer, inner, start, cx, depth, n) == patched_upto(
            ops,
            outer,
            inner,
            start,
            cx,
            depth,
            i,
        ),
    decreases n - i,
{
    if i < n {
        lemma_patch_sticks(ops, outer, inner, start, cx, depth, i, n - 1);
    }
}

/// The expression of an operation that is evaluated first.
pub fn first(op: &PatchOperation) -> (r: &ImutExprInt)
    ensures
        *r == first_of(*op),
{
    match op {
        PatchOperation::Insert { ident, .. } => ident,
        PatchOperation::Upsert { ident, .. } => ident,
        PatchOperation::Update { ident, .. } => ident,
        PatchOperation::Erase { ident } => ident,
        PatchOperation::Copy { from, .. } => from,
        PatchOperation::Move { from, .. } => from,
        PatchOperation::Merge { ident, .. } => ident,
        PatchOperation::TupleMerge { expr } => expr,
    }
}

/// The expression of an operation that is evaluated second, if it has two.
pub fn second(op: &PatchOperation) -> (r: Option<&ImutExprInt>)
    ensures
        match r {
            Some(e) => second_of(*op) == Some(*e),
            None => second_of(*op).is_none(),
        },
{
    match op {
        PatchOperation::Insert { expr, .. } => Some(expr),
        PatchOperation::Upsert { expr, .. } => Some(expr),
        PatchOperation::Update { expr, .. } => Some(expr),
        PatchOperation::Erase { .. } => None,
        PatchOperation::Copy { to, .. } => Some(to),
        PatchOperation::Move { to, .. } => Some(to),
        PatchOperation::Merge { expr, .. } => Some(expr),
        PatchOperation::TupleMerge { .. } => None,
    }
}

/// Whether the first expression of the operation gives a name.
pub fn wants_first(op: &PatchOperation) -> (r: bool)
    ensures
        r == names_first(*op),
{
    !matches!(op, PatchOperation::TupleMerge { .. })
}

/// Whether the second expression of the operation gives a name.
pub fn wants_second(op: &PatchOperation) -> (r: bool)
    ensures
        r == names_second(*op),
{
    matches!(op, PatchOperation::Copy { .. }) || matches!(op, PatchOperation::Move { .. })
}

/// The place in the source that a refused change is reported at.
pub fn place(op: &PatchOperation) -> (r: usize)
    ensures
        r == place_of(*op),
{
    if wants_second(op) {
        match second(op) {
            Some(to) => to.mid(),
            None => first(op).mid(),
        }
    } else {
        first(op).mid()
    }
}

/// Hands on a name, and fails on any other value where a name is wanted.
pub fn need_name(metas: &NodeMetas, mid: usize, wanted: bool, v: Value) -> (r: Result<Value, Error>)
    ensures
        gives(r, name_at(*metas, mid, wanted, v@)),
{
    if !wanted || matches!(v, Value::String(_)) {
        Ok(v)
    } else {
        Err(Error::new(metas.extent(mid), ErrorKind::TypeError(ValueType::String, v.value_type())))
    }
}

/// The text of a string; no text for any other value.
fn text(v: Value) -> (r: String)
    ensures
        r@ == text_of(v@),
{
    match v {
        Value::String(s) => s,
        _ => String::new(),
    }
}

/// The change that an operation asks for, given the values of its two
/// expressions.
pub fn build(op: &PatchOperation, one: Value, two: Value) -> (r: Change)
    ensures
        r@ == change_from(*op, one@, two@),
{
    match op {
        PatchOperation::Insert { .. } => Change::Insert { key: text(one), value: two },
        PatchOperation::Upsert { .. } => Change::Upsert { key: text(one), value: two },
        PatchOperation::Update { .. } => Change::Update { key: text(one), value: two },
        PatchOperation::Erase { .. } => Change::Erase { key: text(one) },
        PatchOperation::Copy { .. } => Change::Copy { from: text(one), to: text(two) },
        PatchOperation::Move { .. } => Change::Move { from: text(one), to: text(two) },
        PatchOperation::Merge { .. } => Change::Merge { key: text(one), value: two },
        PatchOperation::TupleMerge { .. } => Change::TupleMerge { value: one },
    }
}

/// Makes the change that the operation asks for, given the values of its
/// two expressions.
pub fn finish(op: &PatchOperation, metas: &NodeMetas, outer: usize, record: Value, one: Value, two: Value) -> (r:
    Result<Value, Error>)
    requires
        name_at(*metas, first_of(*op).mid_of(), names_first(*op), one@) is Ok,
        name_at(*metas, place_of(*op), names_second(*op), two@) is Ok,
    ensures
        gives(
            r,
            stepped(*op, *metas, outer, record@, Ok::<Data, Error>(one@), Ok::<Data, Error>(two@)),
        ),
{
    let at = place(op);
    match apply_change(record, build(op, one, two)) {
        Ok(v) => Ok(v),
        Err(kind) => Err(
            Error { outer: metas.extent(outer).expand_lines(2), inner: metas.extent(at), kind },
        ),
    }
}

/// Makes one operation of a patch on the record `record`.
pub fn patch_step(
    op: &PatchOperation,
    outer: usize,
    record: Value,
    env: &Env,
    event: &Value,
    state: &Value,
    meta: &Value,
    local: &LocalStack,
    depth: u64,
) -> (r: Result<Value, Error>)
    requires
        depth <= env.recursion_limit,
    ensures
        gives(
            r,
            stepped(
                *op,
                cx_of(*env, event@, state@, meta@, local@).metas,
                outer,
                record@,
                eval(first_of(*op), cx_of(*env, event@, state@, meta@, local@), depth as nat + 1),
                second_value(*op, cx_of(*env, event@, state@, meta@, local@), depth as nat),
            ),
        ),
    decreases *op, 0int,
{
    let one = match eval_expr(first(op), env, event, state, meta, local, depth + 1) {
        Ok(v) => v,
        Err(e) => {
            return Err(e);
        },
    };
    let one = match need_name(env.meta, first(op).mid(), wants_first(op), one) {
        Ok(v) => v,
        Err(e) => {
            return Err(e);
        },
    };
    let two = match second(op) {
        Some(e) => match eval_expr(e, env, event, state, meta, local, depth + 1) {
            Ok(v) => v,
            Err(e) => {
                return Err(e);
            },
        },
        None => Value::Null,
    };
    let two = match need_name(env.meta, place(op), wants_second(op), two) {
        Ok(v) => v,
        Err(e) => {
            return Err(e);
        },
    };
    finish(op, env.meta, outer, record, one, two)
}

/// Evaluates a `patch` that stands `depth` levels down.
pub fn patch_expr(
    p: &Patch,
    env: &Env,
    event: &Value,
    state: &Value,
    meta: &Value,
    local: &LocalStack,
    depth: u64,
) -> (r: Result<Value, Error>)
    requires
        depth <= env.recursion_limit,
    ensures
        gives(r, eval_patch(*p, cx_of(*env, event@, state@, meta@, local@), depth as nat)),
    decreases *p, 1int,
{
    let ghost cx = cx_of(*env, event@, state@, meta@, local@);
    let start = match eval_expr(&p.target, env, event, state, meta, local, depth + 1) {
        Ok(v) => v,
        Err(e) => {
            return Err(e);
        },
    };
    let ghost first = start@;
    let inner = p.target.mid();
    let mut value = start;
    let mut i: usize = 0;
    while i < p.operations.len()
        invariant
            i <= p.operations.len(),
            depth <= env.recursion_limit,
            inner == p.target.mid_of(),
            cx == cx_of(*env, event@, state@, meta@, local@),
            patched_upto(p.operations@, p.mid, inner, first, cx, depth as nat, i as int) == Ok::<
                Data,
                Error,
            >(value@),
            eval(p.target, cx, depth as nat + 1) == Ok::<Data, Error>(first),
        decreases p.operations.len() - i,
    {
        assert(decreases_to!(p.operations => p.operations@[i as int]));
        let stepped = match need_record(env.meta, p.mid, inner, value) {
            Ok(record) => patch_step(&p.operations[i], p.mid, record, env, event, state, meta, local, depth),
            Err(e) => Err(e),
        };
        match stepped {
            Ok(v) => {
                value = v;
            },
            Err(e) => {
                proof {
                    assert(patched_upto(p.operations@, p.mid, inner, first, cx, depth as nat, i + 1)
                        == Err::<Data, Error>(e));
                    lemma_patch_sticks(
                        p.operations@,
                        p.mid,
                        inner,
                        first,
                        cx,
                        depth as nat,
                        i + 1,
                        p.operations@.len() as int,
                    );
                }
                return Err(e);
            },
        }
        i += 1;
    }
    Ok(value)
}

} // verus!
