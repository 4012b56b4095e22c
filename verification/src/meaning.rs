//! The value of an expression, node by node: what evaluation does at an
//! operator, a literal or a reference to a constant, without what it does
//! anywhere else.

use vstd::prelude::*;
use crate::ast::{Field, ImutExpr, ImutExprInt, Invocable, Invoke, Path};
use crate::errors::{Error, ErrorKind};
use crate::ast::meta::NodeMetas;
use crate::interpreter::{
    binary_at, eval, eval_fields, eval_list, read_const, record_at, unary_at, Cx,
};
use crate::comprehension::{gathered, items_of};
use crate::merge::merged;
use crate::patch::steps::patched_upto;
use crate::value::{Data, ValueType};

verus! {

/// The value of an expression that is evaluated `depth` levels down: the same
/// as `eval`, under a name that does not unfold by itself.
pub closed spec fn value_of(e: ImutExprInt, cx: Cx, depth: nat) -> Result<Data, Error> {
    eval(e, cx, depth)
}

/// `value_of` is `eval`.
pub proof fn value_of_is_eval(e: ImutExprInt, cx: Cx, depth: nat)
    ensures
        value_of(e, cx, depth) == eval(e, cx, depth),
{
}

/// The error for an expression that stands deeper than the limit allows.
pub open spec fn too_deep(e: ImutExprInt, cx: Cx) -> Error {
    Error::at(cx.metas.extent_of(e.mid_of()), ErrorKind::RecursionLimit)
}

/// A literal gives its value.
pub proof fn value_of_literal(e: ImutExprInt, cx: Cx, depth: nat)
    requires
        e is Literal,
    ensures
        value_of(e, cx, depth) == if depth > cx.limit {
            Err::<Data, Error>(too_deep(e, cx))
        } else {
            Ok::<Data, Error>(e->Literal_0.value@)
        },
{
}

/// A unary operation gives what its operator makes of the operand's value.
pub proof fn value_of_unary(e: ImutExprInt, cx: Cx, depth: nat)
    requires
        e is Unary,
    ensures
        value_of(e, cx, depth) == if depth > cx.limit {
            Err::<Data, Error>(too_deep(e, cx))
        } else {
            match value_of(e->Unary_0.expr, cx, depth + 1) {
                Ok(v) => unary_at(cx.metas.extent_of(e->Unary_0.mid), e->Unary_0.kind, v),
                Err(x) => Err::<Data, Error>(x),
            }
        },
{
}

/// A binary operation gives what its operator makes of the operands' values,
/// the left one evaluated first.
pub proof fn value_of_binary(e: ImutExprInt, cx: Cx, depth: nat)
    requires
        e is Binary,
    ensures
        value_of(e, cx, depth) == if depth > cx.limit {
            Err::<Data, Error>(too_deep(e, cx))
        } else {
            match value_of(e->Binary_0.lhs, cx, depth + 1) {
                Err(x) => Err::<Data, Error>(x),
                Ok(l) => match value_of(e->Binary_0.rhs, cx, depth + 1) {
                    Err(x) => Err::<Data, Error>(x),
                    Ok(r) => binary_at(
                        cx.metas.extent_of(e->Binary_0.mid),
                        cx.metas.extent_of(e->Binary_0.mid),
                        e->Binary_0.kind,
                        l,
                        r,
                    ),
                },
            }
        },
{
}

/// What a merge makes of what its two expressions gave: both must be
/// records, the target's is looked at first, and the second is merged into
/// the first.
pub open spec fn merge_of(
    metas: NodeMetas,
    outer: usize,
    first: usize,
    second: usize,
    target: Result<Data, Error>,
    with: Result<Data, Error>,
) -> Result<Data, Error> {
    match target {
        Err(x) => Err(x),
        Ok(target) => match record_at(metas, outer, first, target) {
            Err(x) => Err(x),
            Ok(target) => match with {
                Err(x) => Err(x),
                Ok(with) => match record_at(metas, outer, second, with) {
                    Err(x) => Err(x),
                    Ok(with) => Ok(merged(target, with)),
                },
            },
        },
    }
}

/// A merge gives what merging makes of the values of its two expressions.
pub proof fn value_of_merge(e: ImutExprInt, cx: Cx, depth: nat)
    requires
        e is Merge,
    ensures
        value_of(e, cx, depth) == if depth > cx.limit {
            Err::<Data, Error>(too_deep(e, cx))
        } else {
            merge_of(
                cx.metas,
                e->Merge_0.mid,
                e->Merge_0.target.mid_of(),
                e->Merge_0.expr.mid_of(),
                value_of(e->Merge_0.target, cx, depth + 1),
                value_of(e->Merge_0.expr, cx, depth + 1),
            )
        },
{
    reveal_with_fuel(eval, 2);
}

/// A patch gives what its operations make of the value of its target.
pub proof fn value_of_patch(e: ImutExprInt, cx: Cx, depth: nat)
    requires
        e is Patch,
    ensures
        value_of(e, cx, depth) == if depth > cx.limit {
            Err::<Data, Error>(too_deep(e, cx))
        } else {
            match value_of(e->Patch_0.target, cx, depth + 1) {
                Err(x) => Err::<Data, Error>(x),
                Ok(start) => patched_upto(
                    e->Patch_0.operations@,
                    e->Patch_0.mid,
                    e->Patch_0.target.mid_of(),
                    start,
                    cx,
                    depth,
                    e->Patch_0.operations@.len() as int,
                ),
            }
        },
{
    reveal_with_fuel(eval, 2);
}

/// A `for` gives the array of what the items of its target's value give.
pub proof fn value_of_for(e: ImutExprInt, cx: Cx, depth: nat)
    requires
        e is Comprehension,
    ensures
        value_of(e, cx, depth) == if depth > cx.limit {
            Err::<Data, Error>(too_deep(e, cx))
        } else {
            match value_of(e->Comprehension_0.target, cx, depth + 1) {
                Err(x) => Err::<Data, Error>(x),
                Ok(target) => match gathered(
                    e->Comprehension_0.cases@,
                    e->Comprehension_0.key_id,
                    e->Comprehension_0.val_id,
                    items_of(target),
                    cx,
                    depth + 1,
                    items_of(target).len() as int,
                ) {
                    Err(x) => Err::<Data, Error>(x),
                    Ok(values) => Ok::<Data, Error>(Data::Array(values)),
                },
            }
        },
{
    reveal_with_fuel(eval, 2);
}

/// A reference to a constant, without steps, gives the constant.
pub proof fn value_of_const(e: ImutExprInt, cx: Cx, depth: nat)
    requires
        e matches ImutExprInt::Path(Path::Const(lp)) && lp.segments@.len() == 0,
    ensures
        value_of(e, cx, depth) == if depth > cx.limit {
            Err::<Data, Error>(too_deep(e, cx))
        } else {
            read_const(e->Path_0->Const_0.idx, e->Path_0->Const_0.mid, cx)
        },
{
    reveal_with_fuel(crate::interpreter::walk, 2);
}

/// The values of the first `upto` expressions of a list: the same as
/// `eval_list`, under a name that does not unfold by itself.
pub closed spec fn values_of(exprs: Seq<ImutExpr>, cx: Cx, depth: nat, upto: int) -> Result<
    Seq<Data>,
    Error,
> {
    eval_list(exprs, cx, depth, upto)
}

/// `values_of` is `eval_list`.
pub proof fn values_of_is_eval_list(exprs: Seq<ImutExpr>, cx: Cx, depth: nat, upto: int)
    ensures
        values_of(exprs, cx, depth, upto) == eval_list(exprs, cx, depth, upto),
{
}

/// The values of a list are those of its expressions, taken in order; the
/// first error wins.
pub proof fn values_of_step(exprs: Seq<ImutExpr>, cx: Cx, depth: nat, upto: int)
    ensures
        values_of(exprs, cx, depth, upto) == if upto <= 0 || upto > exprs.len() {
            Ok::<Seq<Data>, Error>(Seq::empty())
        } else {
            match values_of(exprs, cx, depth, upto - 1) {
                Err(e) => Err::<Seq<Data>, Error>(e),
                Ok(items) => match value_of(exprs[upto - 1].0, cx, depth) {
                    Err(e) => Err::<Seq<Data>, Error>(e),
                    Ok(v) => Ok::<Seq<Data>, Error>(items.push(v)),
                },
            }
        },
{
}

/// The record built from the first `upto` fields of a record constructor: the
/// same as `eval_fields`, under a name that does not unfold by itself.
pub closed spec fn record_of(fields: Seq<Field>, cx: Cx, depth: nat, upto: int) -> Result<Data, Error> {
    eval_fields(fields, cx, depth, upto)
}

/// `record_of` is `eval_fields`.
pub proof fn record_of_is_eval_fields(fields: Seq<Field>, cx: Cx, depth: nat, upto: int)
    ensures
        record_of(fields, cx, depth, upto) == eval_fields(fields, cx, depth, upto),
{
}

/// A record is built field by field: the name is evaluated, then the value,
/// and the value is set under the name, which must be a string.
pub proof fn record_of_step(fields: Seq<Field>, cx: Cx, depth: nat, upto: int)
    ensures
        record_of(fields, cx, depth, upto) == if upto <= 0 || upto > fields.len() {
            Ok::<Data, Error>(Data::Object(Seq::empty()))
        } else {
            match record_of(fields, cx, depth, upto - 1) {
                Err(e) => Err::<Data, Error>(e),
                Ok(record) => match value_of(fields[upto - 1].name, cx, depth) {
                    Err(e) => Err::<Data, Error>(e),
                    Ok(name) => match name {
                        Data::String(key) => match value_of(fields[upto - 1].value, cx, depth) {
                            Err(e) => Err::<Data, Error>(e),
                            Ok(v) => Ok::<Data, Error>(record.with_field(key, v)),
                        },
                        other => Err::<Data, Error>(
                            Error::at(
                                cx.metas.extent_of(fields[upto - 1].name.mid_of()),
                                ErrorKind::TypeError(ValueType::String, other.value_type()),
                            ),
                        ),
                    },
                },
            }
        },
{
}

/// A list constructor gives the array of the values of its expressions.
pub proof fn value_of_list(e: ImutExprInt, cx: Cx, depth: nat)
    requires
        e is List,
    ensures
        value_of(e, cx, depth) == if depth > cx.limit {
            Err::<Data, Error>(too_deep(e, cx))
        } else {
            match values_of(e->List_0.exprs@, cx, depth + 1, e->List_0.exprs@.len() as int) {
                Ok(items) => Ok::<Data, Error>(Data::Array(items)),
                Err(x) => Err::<Data, Error>(x),
            }
        },
{
}

/// A record constructor gives the record built from its fields.
pub proof fn value_of_record(e: ImutExprInt, cx: Cx, depth: nat)
    requires
        e is Record,
    ensures
        value_of(e, cx, depth) == if depth > cx.limit {
            Err::<Data, Error>(too_deep(e, cx))
        } else {
            record_of(e->Record_0.fields@, cx, depth + 1, e->Record_0.fields@.len() as int)
        },
{
}

/// The call that an expression is, if it is one.
pub open spec fn as_call(e: ImutExprInt) -> Option<Invoke> {
    match e {
        ImutExprInt::Invoke1(i) => Some(i),
        ImutExprInt::Invoke2(i) => Some(i),
        ImutExprInt::Invoke3(i) => Some(i),
        ImutExprInt::Invoke(i) => Some(i),
        _ => None,
    }
}

/// A call of a function of the engine gives what the function makes of the
/// values of the arguments.
pub proof fn value_of_call(e: ImutExprInt, cx: Cx, depth: nat)
    requires
        as_call(e) matches Some(i) && i.invocable is Intrinsic,
    ensures
        value_of(e, cx, depth) == if depth > cx.limit {
            Err::<Data, Error>(too_deep(e, cx))
        } else {
            match values_of(
                as_call(e)->0.args@,
                cx,
                depth + 1,
                as_call(e)->0.args@.len() as int,
            ) {
                Err(x) => Err::<Data, Error>(x),
                Ok(args) => match as_call(e)->0.invocable->Intrinsic_0.fun.apply(args, cx.at) {
                    Ok(v) => Ok::<Data, Error>(v),
                    Err(_) => Err::<Data, Error>(
                        Error::at(cx.metas.extent_of(as_call(e)->0.mid), ErrorKind::BadArguments),
                    ),
                },
            }
        },
{
    let i = as_call(e)->0;
    if depth <= cx.limit {
        assert(eval(e, cx, depth) == crate::interpreter::eval_invoke(i, cx, depth));
        let args = eval_list(i.args@, cx, depth + 1, i.args@.len() as int);
        if args is Ok {
            assert(crate::interpreter::eval_invoke(i, cx, depth) == crate::interpreter::call(
                i.invocable,
                args->Ok_0,
                cx,
                depth + 1,
                cx.metas.extent_of(i.mid),
            ));
        }
    }
}

} // verus!
