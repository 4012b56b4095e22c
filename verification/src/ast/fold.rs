//! The folding pass: constant parts of an expression are computed when the
//! script is loaded, from the leaves up.

use vstd::prelude::*;
use crate::ast::helper::{Helper, LAST_RESERVED_CONST};
use crate::ast::reduce::{all_literal, all_literal_fields, call_node, const_cx, literal_values};
use crate::ast::{
    BinExpr, Field, ImutComprehension, ImutComprehensionCase, ImutExpr, ImutExprInt, Invocable,
    Invoke, List, Literal, Merge, Patch, PatchOperation, Path, Record, UnaryExpr,
};
use crate::comprehension::{at_item, case_value, gathered, Item};
use crate::patch::steps::{first_of, patched_upto, second_of, second_value};
use crate::errors::{Error, ErrorKind};
use crate::interpreter::{binary_at, eval, eval_list, guard_passes, unary_at, Cx};
use crate::meaning::{
    as_call, record_of, record_of_is_eval_fields, record_of_step, value_of, value_of_binary,
    value_of_call, value_of_const, value_of_for, value_of_is_eval, value_of_list,
    value_of_literal, value_of_merge, value_of_patch, value_of_record, value_of_unary, values_of,
    values_of_is_eval_list, values_of_step,
};
use crate::registry::Intrinsic;
use crate::value::{items_view, Data, Value, ValueType};

verus! {

/// Whether a path is a reference to a constant of the script, which folds
/// into the constant's value.
pub open spec fn folds_path(p: Path) -> bool {
    p matches Path::Const(lp) && lp.is_const && lp.segments@.len() == 0 && lp.idx
        > LAST_RESERVED_CONST
}

/// Whether an expression is made of literals, references to constants of the
/// script and operators alone.
pub open spec fn literal_only(e: ImutExprInt) -> bool
    decreases e, 0int,
{
    match e {
        ImutExprInt::Literal(_) => true,
        ImutExprInt::Path(p) => folds_path(p),
        ImutExprInt::Unary(u) => literal_only(u.expr),
        ImutExprInt::Binary(b) => literal_only(b.lhs) && literal_only(b.rhs),
        ImutExprInt::List(l) => all_literal_only(l.exprs@, l.exprs@.len() as int),
        ImutExprInt::Record(r) => fields_literal_only(r.fields@, r.fields@.len() as int),
        ImutExprInt::Invoke1(i) => folds_call(i) && all_literal_only(i.args@, i.args@.len() as int),
        ImutExprInt::Invoke2(i) => folds_call(i) && all_literal_only(i.args@, i.args@.len() as int),
        ImutExprInt::Invoke3(i) => folds_call(i) && all_literal_only(i.args@, i.args@.len() as int),
        ImutExprInt::Invoke(i) => folds_call(i) && all_literal_only(i.args@, i.args@.len() as int),
        _ => false,
    }
}

/// Whether a call is of a function of the engine whose result depends on its
/// arguments alone.
pub open spec fn folds_call(i: Invoke) -> bool {
    i.invocable matches Invocable::Intrinsic(f) && f.fun.pure()
}

/// Whether the pass looks into the arguments of a call: it does for the
/// functions of the engine.
pub open spec fn descends(i: Invoke) -> bool {
    i.invocable is Intrinsic
}

/// Whether the names and values of the first `upto` fields are made of
/// literals alone.
pub open spec fn fields_literal_only(fields: Seq<Field>, upto: int) -> bool
    decreases fields, upto,
{
    upto <= 0 || upto > fields.len() || (fields_literal_only(fields, upto - 1) && literal_only(
        fields[upto - 1].name,
    ) && literal_only(fields[upto - 1].value))
}

/// Whether the first `upto` expressions of a list are made of literals alone.
pub open spec fn all_literal_only(exprs: Seq<ImutExpr>, upto: int) -> bool
    decreases exprs, upto,
{
    upto <= 0 || upto > exprs.len() || (all_literal_only(exprs, upto - 1) && literal_only(
        exprs[upto - 1].0,
    ))
}

/// How many levels of operators the pass may take out of an expression.
pub open spec fn height(e: ImutExprInt) -> nat
    decreases e, 0int,
{
    match e {
        ImutExprInt::Unary(u) => 1 + height(u.expr),
        ImutExprInt::Binary(b) => 1 + if height(b.lhs) >= height(b.rhs) {
            height(b.lhs)
        } else {
            height(b.rhs)
        },
        ImutExprInt::Patch(p) => 1 + larger(
            height(p.target),
            ops_height(p.operations@, p.operations@.len() as int),
        ),
        ImutExprInt::Comprehension(c) => 1 + larger(
            height(c.target),
            cases_height(c.cases@, c.cases@.len() as int),
        ),
        ImutExprInt::Merge(m) => 1 + if height(m.target) >= height(m.expr) {
            height(m.target)
        } else {
            height(m.expr)
        },
        ImutExprInt::List(l) => 1 + list_height(l.exprs@, l.exprs@.len() as int),
        ImutExprInt::Record(r) => 1 + fields_height(r.fields@, r.fields@.len() as int),
        ImutExprInt::Invoke1(i) => call_height(i),
        ImutExprInt::Invoke2(i) => call_height(i),
        ImutExprInt::Invoke3(i) => call_height(i),
        ImutExprInt::Invoke(i) => call_height(i),
        _ => 0,
    }
}

/// The levels that the pass may take out of a call.
pub open spec fn call_height(i: Invoke) -> nat
    decreases i, 1int,
{
    if descends(i) {
        1 + list_height(i.args@, i.args@.len() as int)
    } else {
        0
    }
}

/// The larger of two numbers.
pub open spec fn larger(a: nat, b: nat) -> nat {
    if a >= b {
        a
    } else {
        b
    }
}

/// The most levels that the pass may take out of a name or a value of the
/// first `upto` fields.
pub open spec fn fields_height(fields: Seq<Field>, upto: int) -> nat
    decreases fields, upto,
{
    if upto <= 0 || upto > fields.len() {
        0
    } else {
        larger(
            fields_height(fields, upto - 1),
            larger(height(fields[upto - 1].name), height(fields[upto - 1].value)),
        )
    }
}

/// The most levels that the pass may take out of one of the first `upto`
/// expressions of a list.
pub open spec fn list_height(exprs: Seq<ImutExpr>, upto: int) -> nat
    decreases exprs, upto,
{
    if upto <= 0 || upto > exprs.len() {
        0
    } else if list_height(exprs, upto - 1) >= height(exprs[upto - 1].0) {
        list_height(exprs, upto - 1)
    } else {
        height(exprs[upto - 1].0)
    }
}

/// Whether an expression is evaluated in `cx` with the constants and the
/// table of source places that it was compiled with.
pub open spec fn agrees(cx: Cx, helper: Helper) -> bool {
    cx.metas == helper.meta && cx.consts == items_view(helper.const_values@)
}

/// What a constant expression can read when the script is loaded, with room
/// for `limit` levels of nesting.
pub open spec fn load_cx(helper: Helper, limit: nat) -> Cx {
    Cx {
        event: Data::Null,
        state: Data::Null,
        meta: Data::Null,
        locals: Seq::empty(),
        consts: items_view(helper.const_values@),
        metas: helper.meta,
        at: 0,
        limit,
    }
}

/// The value of a constant expression when the script is loaded.
pub open spec fn const_value(e: ImutExprInt, helper: Helper) -> Result<Data, Error> {
    value_of(e, load_cx(helper, height(e)), 0)
}

/// The error of an outcome, if it is one.
pub open spec fn failure(r: Result<Data, Error>) -> Option<Error> {
    match r {
        Ok(_) => None,
        Err(e) => Some(e),
    }
}

/// The error with which the pass stops on an expression, if it does: the
/// first failure of an operation on constants, taken from the leaves up and
/// from left to right.
pub open spec fn fold_error(e: ImutExprInt, helper: Helper) -> Option<Error>
    decreases e, 0int,
{
    match e {
        ImutExprInt::List(l) => list_fold_error(l.exprs@, helper, l.exprs@.len() as int),
        ImutExprInt::Record(r) => fields_fold_error(r.fields@, helper, r.fields@.len() as int),
        ImutExprInt::Invoke1(i) => call_fold_error(e, i, helper),
        ImutExprInt::Invoke2(i) => call_fold_error(e, i, helper),
        ImutExprInt::Invoke3(i) => call_fold_error(e, i, helper),
        ImutExprInt::Invoke(i) => call_fold_error(e, i, helper),
        ImutExprInt::Patch(p) => match fold_error(p.target, helper) {
            Some(x) => Some(x),
            None => ops_fold_error(p.operations@, helper, p.operations@.len() as int),
        },
        ImutExprInt::Comprehension(c) => match fold_error(c.target, helper) {
            Some(x) => Some(x),
            None => cases_fold_error(c.cases@, helper, c.cases@.len() as int),
        },
        ImutExprInt::Merge(m) => match fold_error(m.target, helper) {
            Some(x) => Some(x),
            None => fold_error(m.expr, helper),
        },
        ImutExprInt::Path(p) => if folds_path(p) {
            failure(const_value(e, helper))
        } else {
            None
        },
        ImutExprInt::Unary(u) => match fold_error(u.expr, helper) {
            Some(x) => Some(x),
            None => if literal_only(u.expr) {
                match const_value(u.expr, helper) {
                    Ok(v) => failure(unary_at(helper.meta.extent_of(u.mid), u.kind, v)),
                    Err(x) => Some(x),
                }
            } else {
                None
            },
        },
        ImutExprInt::Binary(b) => match fold_error(b.lhs, helper) {
            Some(x) => Some(x),
            None => match fold_error(b.rhs, helper) {
                Some(x) => Some(x),
                None => if literal_only(b.lhs) && literal_only(b.rhs) {
                    match (const_value(b.lhs, helper), const_value(b.rhs, helper)) {
                        (Ok(l), Ok(r)) => failure(
                            binary_at(
                                helper.meta.extent_of(b.mid),
                                helper.meta.extent_of(b.mid),
                                b.kind,
                                l,
                                r,
                            ),
                        ),
                        (Err(x), _) => Some(x),
                        (_, Err(x)) => Some(x),
                    }
                } else {
                    None
                },
            },
        },
        _ => None,
    }
}

/// The error with which the pass stops on the call `i`, which is the
/// expression `e`: the first failure among its arguments, else the failure of
/// the call itself if it is computed when the script is loaded.
pub open spec fn call_fold_error(e: ImutExprInt, i: Invoke, helper: Helper) -> Option<Error>
    decreases i, 1int,
{
    if !descends(i) {
        None
    } else {
        match list_fold_error(i.args@, helper, i.args@.len() as int) {
            Some(x) => Some(x),
            None => if folds_call(i) && all_literal_only(i.args@, i.args@.len() as int) {
                failure(value_of(e, load_cx(helper, call_height(i)), 0))
            } else {
                None
            },
        }
    }
}

/// The error for a field name that is constant and no string.
pub open spec fn name_error(name: ImutExprInt, helper: Helper) -> Option<Error> {
    match const_value(name, helper) {
        Ok(Data::String(_)) => None,
        Ok(other) => Some(
            Error::at(
                helper.meta.extent_of(name.mid_of()),
                ErrorKind::TypeError(ValueType::String, other.value_type()),
            ),
        ),
        Err(_) => None,
    }
}

/// The error with which the pass stops on the first `upto` fields of a record
/// constructor, if it does. The fields are taken in order; of each, the name
/// is folded, then checked to be a string if it is constant, then the value
/// is folded.
pub open spec fn fields_fold_error(fields: Seq<Field>, helper: Helper, upto: int) -> Option<Error>
    decreases fields, upto,
{
    if upto <= 0 || upto > fields.len() {
        None
    } else {
        match fields_fold_error(fields, helper, upto - 1) {
            Some(x) => Some(x),
            None => match fold_error(fields[upto - 1].name, helper) {
                Some(x) => Some(x),
                None => if literal_only(fields[upto - 1].name) && name_error(
                    fields[upto - 1].name,
                    helper,
                ).is_some() {
                    name_error(fields[upto - 1].name, helper)
                } else {
                    fold_error(fields[upto - 1].value, helper)
                },
            },
        }
    }
}

/// The error with which the pass stops on the first `upto` expressions of a
/// list, if it does: the first failure, in the order of the list.
pub open spec fn list_fold_error(exprs: Seq<ImutExpr>, helper: Helper, upto: int) -> Option<Error>
    decreases exprs, upto,
{
    if upto <= 0 || upto > exprs.len() {
        None
    } else {
        match list_fold_error(exprs, helper, upto - 1) {
            Some(x) => Some(x),
            None => fold_error(exprs[upto - 1].0, helper),
        }
    }
}

/// `f` can stand for `e`: wherever `e` is evaluated with the constants and
/// places that it was compiled with, and with room for the levels that the
/// pass took out, `f` gives what `e` gives.
pub open spec fn transparent(f: ImutExprInt, e: ImutExprInt, helper: Helper) -> bool {
    forall|cx: Cx, depth: nat|
        agrees(cx, helper) && depth + height(e) <= cx.limit ==> #[trigger] value_of(f, cx, depth)
            == value_of(e, cx, depth)
}

/// Whether the pass has left nothing to compute in `e`: where the pass looks,
/// no operator, list, record or call of a constant function of the engine has
/// literals for all its parts, and no reference to a constant of the script
/// is left. The pass looks into operators, lists, records, calls of
/// functions of the engine, merges, patches and `for` expressions.
pub open spec fn settled(e: ImutExprInt) -> bool
    decreases e, 0int,
{
    match e {
        ImutExprInt::Path(p) => !folds_path(p),
        ImutExprInt::Patch(p) => settled(p.target) && ops_settled(
            p.operations@,
            p.operations@.len() as int,
        ),
        ImutExprInt::Comprehension(c) => settled(c.target) && cases_settled(
            c.cases@,
            c.cases@.len() as int,
        ),
        ImutExprInt::Merge(m) => settled(m.target) && settled(m.expr),
        ImutExprInt::Unary(u) => settled(u.expr) && !(u.expr is Literal),
        ImutExprInt::Binary(b) => settled(b.lhs) && settled(b.rhs) && !(b.lhs is Literal
            && b.rhs is Literal),
        ImutExprInt::List(l) => all_settled(l.exprs@, l.exprs@.len() as int) && !all_literal(
            l.exprs@,
        ),
        ImutExprInt::Record(r) => fields_settled(r.fields@, r.fields@.len() as int)
            && !all_literal_fields(r.fields@),
        ImutExprInt::Invoke1(i) => call_settled(i),
        ImutExprInt::Invoke2(i) => call_settled(i),
        ImutExprInt::Invoke3(i) => call_settled(i),
        ImutExprInt::Invoke(i) => call_settled(i),
        _ => true,
    }
}

/// Whether the pass has left nothing to compute in a call.
pub open spec fn call_settled(i: Invoke) -> bool
    decreases i, 1int,
{
    !descends(i) || (all_settled(i.args@, i.args@.len() as int) && !(folds_call(i) && all_literal(
        i.args@,
    )))
}

/// Whether the pass has left nothing to compute in the first `upto`
/// expressions of a list.
pub open spec fn all_settled(exprs: Seq<ImutExpr>, upto: int) -> bool
    decreases exprs, upto,
{
    upto <= 0 || upto > exprs.len() || (all_settled(exprs, upto - 1) && settled(exprs[upto - 1].0))
}

/// Whether the pass has left nothing to compute in the names and values of
/// the first `upto` fields.
pub open spec fn fields_settled(fields: Seq<Field>, upto: int) -> bool
    decreases fields, upto,
{
    upto <= 0 || upto > fields.len() || (fields_settled(fields, upto - 1) && settled(
        fields[upto - 1].name,
    ) && settled(fields[upto - 1].value))
}

/// A list in whose expressions nothing is left to compute.
pub proof fn lemma_all_settled(exprs: Seq<ImutExpr>, upto: int)
    requires
        0 <= upto <= exprs.len(),
        forall|i: int| 0 <= i < upto ==> settled((#[trigger] exprs[i]).0),
    ensures
        all_settled(exprs, upto),
    decreases upto,
{
    if upto > 0 {
        lemma_all_settled(exprs, upto - 1);
        assert(settled(exprs[upto - 1].0));
    }
}

/// Fields in whose names and values nothing is left to compute.
pub proof fn lemma_fields_settled(fields: Seq<Field>, upto: int)
    requires
        0 <= upto <= fields.len(),
        forall|i: int|
            0 <= i < upto ==> settled((#[trigger] fields[i]).name) && settled(fields[i].value),
    ensures
        fields_settled(fields, upto),
    decreases upto,
{
    if upto > 0 {
        lemma_fields_settled(fields, upto - 1);
        assert(settled(fields[upto - 1].name) && settled(fields[upto - 1].value));
    }
}

/// The depth of the expressions of an operation of a patch.
pub open spec fn op_height(op: PatchOperation) -> nat
    decreases op, 1int,
{
    larger(
        height(first_of(op)),
        match second_of(op) {
            Some(e) => height(e),
            None => 0,
        },
    )
}

/// The depth of the expressions of the first `upto` operations.
pub open spec fn ops_height(ops: Seq<PatchOperation>, upto: int) -> nat
    decreases ops, upto,
{
    if upto <= 0 || upto > ops.len() {
        0
    } else {
        larger(ops_height(ops, upto - 1), op_height(ops[upto - 1]))
    }
}

/// The failure of the pass on the expressions of an operation, the first
/// one first.
pub open spec fn op_fold_error(op: PatchOperation, helper: Helper) -> Option<Error>
    decreases op, 1int,
{
    match fold_error(first_of(op), helper) {
        Some(x) => Some(x),
        None => match second_of(op) {
            Some(e) => fold_error(e, helper),
            None => None,
        },
    }
}

/// The failure of the pass on the first `upto` operations, in order.
pub open spec fn ops_fold_error(ops: Seq<PatchOperation>, helper: Helper, upto: int) -> Option<Error>
    decreases ops, upto,
{
    if upto <= 0 || upto > ops.len() {
        None
    } else {
        match ops_fold_error(ops, helper, upto - 1) {
            Some(x) => Some(x),
            None => op_fold_error(ops[upto - 1], helper),
        }
    }
}

/// Whether the pass has left nothing to compute in an operation.
pub open spec fn op_settled(op: PatchOperation) -> bool
    decreases op, 1int,
{
    settled(first_of(op)) && match second_of(op) {
        Some(e) => settled(e),
        None => true,
    }
}

/// Whether the pass has left nothing to compute in the first `upto`
/// operations.
pub open spec fn ops_settled(ops: Seq<PatchOperation>, upto: int) -> bool
    decreases ops, upto,
{
    upto <= 0 || upto > ops.len() || (ops_settled(ops, upto - 1) && op_settled(ops[upto - 1]))
}

/// Whether two operations are of one kind and stand at the same places.
pub open spec fn same_shape(a: PatchOperation, b: PatchOperation) -> bool {
    &&& first_of(a).mid_of() == first_of(b).mid_of()
    &&& match (second_of(a), second_of(b)) {
        (Some(x), Some(y)) => x.mid_of() == y.mid_of(),
        (None, None) => true,
        _ => false,
    }
    &&& match (a, b) {
        (PatchOperation::Insert { .. }, PatchOperation::Insert { .. }) => true,
        (PatchOperation::Upsert { .. }, PatchOperation::Upsert { .. }) => true,
        (PatchOperation::Update { .. }, PatchOperation::Update { .. }) => true,
        (PatchOperation::Erase { .. }, PatchOperation::Erase { .. }) => true,
        (PatchOperation::Copy { .. }, PatchOperation::Copy { .. }) => true,
        (PatchOperation::Move { .. }, PatchOperation::Move { .. }) => true,
        (PatchOperation::Merge { .. }, PatchOperation::Merge { .. }) => true,
        (PatchOperation::TupleMerge { .. }, PatchOperation::TupleMerge { .. }) => true,
        _ => false,
    }
}

/// What the pass makes of an operation, if it is `r`: the same operation
/// with each of its expressions folded.
pub open spec fn op_folded(r: Result<PatchOperation, Error>, op: PatchOperation, helper: Helper) -> bool {
    match r {
        Err(x) => op_fold_error(op, helper) == Some(x),
        Ok(o) => {
            &&& op_fold_error(op, helper).is_none()
            &&& same_shape(o, op)
            &&& folded(Ok(first_of(o)), first_of(op), helper)
            &&& match (second_of(o), second_of(op)) {
                (Some(x), Some(y)) => folded(Ok(x), y, helper),
                _ => true,
            }
        },
    }
}

/// What the pass makes of operations, if it is `r`.
pub open spec fn ops_folded(r: Result<Vec<PatchOperation>, Error>, ops: Seq<PatchOperation>, helper: Helper) -> bool {
    match r {
        Err(x) => ops_fold_error(ops, helper, ops.len() as int) == Some(x),
        Ok(done) => {
            &&& ops_fold_error(ops, helper, ops.len() as int).is_none()
            &&& done@.len() == ops.len()
            &&& forall|i: int| 0 <= i < ops.len() ==> op_folded(Ok(#[trigger] done@[i]), ops[i], helper)
        },
    }
}

/// The depth of the guard and the expressions of a case of a `for`.
pub open spec fn case_height(c: ImutComprehensionCase) -> nat
    decreases c, 1int,
{
    larger(
        match c.guard {
            Some(g) => height(g),
            None => 0,
        },
        list_height(c.exprs@, c.exprs@.len() as int),
    )
}

/// The depth of the first `upto` cases.
pub open spec fn cases_height(cases: Seq<ImutComprehensionCase>, upto: int) -> nat
    decreases cases, upto,
{
    if upto <= 0 || upto > cases.len() {
        0
    } else {
        larger(cases_height(cases, upto - 1), case_height(cases[upto - 1]))
    }
}

/// The failure of the pass on a case: on its guard first, then on its
/// expressions in order.
pub open spec fn case_fold_error(c: ImutComprehensionCase, helper: Helper) -> Option<Error>
    decreases c, 1int,
{
    match (
        match c.guard {
            Some(g) => fold_error(g, helper),
            None => None,
        }
    ) {
        Some(x) => Some(x),
        None => list_fold_error(c.exprs@, helper, c.exprs@.len() as int),
    }
}

/// The failure of the pass on the first `upto` cases, in order.
pub open spec fn cases_fold_error(cases: Seq<ImutComprehensionCase>, helper: Helper, upto: int) -> Option<
    Error,
>
    decreases cases, upto,
{
    if upto <= 0 || upto > cases.len() {
        None
    } else {
        match cases_fold_error(cases, helper, upto - 1) {
            Some(x) => Some(x),
            None => case_fold_error(cases[upto - 1], helper),
        }
    }
}

/// Whether the pass has left nothing to compute in a case.
pub open spec fn case_settled(c: ImutComprehensionCase) -> bool
    decreases c, 1int,
{
    (match c.guard {
        Some(g) => settled(g),
        None => true,
    }) && all_settled(c.exprs@, c.exprs@.len() as int)
}

/// Whether the pass has left nothing to compute in the first `upto` cases.
pub open spec fn cases_settled(cases: Seq<ImutComprehensionCase>, upto: int) -> bool
    decreases cases, upto,
{
    upto <= 0 || upto > cases.len() || (cases_settled(cases, upto - 1) && case_settled(
        cases[upto - 1],
    ))
}

/// What the pass makes of a case, if it is `r`: the same case with its
/// guard and each of its expressions folded.
pub open spec fn case_folded(r: Result<ImutComprehensionCase, Error>, c: ImutComprehensionCase, helper: Helper) -> bool {
    match r {
        Err(x) => case_fold_error(c, helper) == Some(x),
        Ok(o) => {
            &&& case_fold_error(c, helper).is_none()
            &&& match (o.guard, c.guard) {
                (Some(x), Some(y)) => folded(Ok(x), y, helper),
                (None, None) => true,
                _ => false,
            }
            &&& o.exprs@.len() == c.exprs@.len()
            &&& forall|i: int|
                0 <= i < c.exprs@.len() ==> folded(Ok((#[trigger] o.exprs@[i]).0), c.exprs@[i].0, helper)
        },
    }
}

/// What the pass makes of cases, if it is `r`.
pub open spec fn cases_folded(
    r: Result<Vec<ImutComprehensionCase>, Error>,
    cases: Seq<ImutComprehensionCase>,
    helper: Helper,
) -> bool {
    match r {
        Err(x) => cases_fold_error(cases, helper, cases.len() as int) == Some(x),
        Ok(done) => {
            &&& cases_fold_error(cases, helper, cases.len() as int).is_none()
            &&& done@.len() == cases.len()
            &&& forall|i: int|
                0 <= i < cases.len() ==> case_folded(Ok(#[trigger] done@[i]), cases[i], helper)
        },
    }
}

/// Whether two cases give the same where `cx` is read, `depth` levels down:
/// their guards pass alike and their expressions have the same values.
pub open spec fn case_same(a: ImutComprehensionCase, b: ImutComprehensionCase, cx: Cx, depth: nat) -> bool {
    &&& guard_passes(a.guard, cx, depth) == guard_passes(b.guard, cx, depth)
    &&& eval_list(a.exprs@, cx, depth, a.exprs@.len() as int) == eval_list(
        b.exprs@,
        cx,
        depth,
        b.exprs@.len() as int,
    )
}

/// What the pass makes of `e`, if it is `r`: a failure is the first failure
/// of an operation on constants; else the result can stand for `e`, stands at
/// the place of `e` in the source, is a literal if and only if `e` is made of
/// literals alone, and has every constant part replaced by its literal, so
/// that nothing is left in it for the pass to compute.
pub open spec fn folded(r: Result<ImutExprInt, Error>, e: ImutExprInt, helper: Helper) -> bool {
    match r {
        Err(x) => fold_error(e, helper) == Some(x),
        Ok(f) => {
            &&& fold_error(e, helper).is_none()
            &&& transparent(f, e, helper)
            &&& (f is Literal <==> literal_only(e))
            &&& f.mid_of() == e.mid_of()
            &&& settled(f)
        },
    }
}

/// Folds the constant parts of an expression, from the leaves up.
pub fn fold(e: ImutExprInt, helper: &Helper) -> (r: Result<ImutExprInt, Error>)
    ensures
        folded(r, e, *helper),
    decreases e, 0int,
{
    match e {
        ImutExprInt::Path(p) => {
            let r = p.try_reduce(helper);
            proof {
                assert(height(e) == 0);
                if folds_path(p) {
                    value_of_const(e, load_cx(*helper, 0), 0);
                }
                if r is Ok {
                    let f = r->Ok_0;
                    assert forall|cx: Cx, depth: nat|
                        agrees(cx, *helper) && depth + height(e) <= cx.limit implies #[trigger] value_of(
                        f,
                        cx,
                        depth,
                    ) == value_of(e, cx, depth) by {
                        if folds_path(p) {
                            value_of_const(e, cx, depth);
                            value_of_literal(f, cx, depth);
                        }
                    }
                } else {
                    value_of_const(e, load_cx(*helper, 0), 0);
                }
                assert(folded(r, e, *helper));
            }
            r
        },
        ImutExprInt::Unary(u) => {
            let UnaryExpr { mid, kind, expr } = *u;
            let ghost inner = expr;
            let folded_expr = match fold(expr, helper) {
                Ok(f) => f,
                Err(x) => {
                    return Err(x);
                },
            };
            let ghost mid_expr = folded_expr;
            let r = (UnaryExpr { mid, kind, expr: folded_expr }).try_reduce(helper);
            proof {
                lemma_const_value_of_literal(mid_expr, inner, *helper);
                if r is Ok {
                    let f = r->Ok_0;
                    assert forall|cx: Cx, depth: nat|
                        agrees(cx, *helper) && depth + height(e) <= cx.limit implies #[trigger] value_of(
                        f,
                        cx,
                        depth,
                    ) == value_of(e, cx, depth) by {
                        assert(value_of(mid_expr, cx, depth + 1) == value_of(inner, cx, depth + 1));
                        value_of_unary(e, cx, depth);
                        if mid_expr is Literal {
                            value_of_literal(mid_expr, cx, depth + 1);
                            value_of_literal(f, cx, depth);
                        } else {
                            value_of_unary(f, cx, depth);
                        }
                    }
                    assert(transparent(f, e, *helper));
                    assert(fold_error(e, *helper).is_none());
                    assert(f is Literal <==> literal_only(e));
                    assert(f.mid_of() == e.mid_of());
                } else {
                    assert(fold_error(e, *helper) == Some(r->Err_0));
                }
            }
            r
        },
        ImutExprInt::Binary(b) => {
            let BinExpr { mid, kind, lhs, rhs } = *b;
            let ghost l0 = lhs;
            let ghost r0 = rhs;
            let lhs = match fold(lhs, helper) {
                Ok(f) => f,
                Err(x) => {
                    return Err(x);
                },
            };
            let rhs = match fold(rhs, helper) {
                Ok(f) => f,
                Err(x) => {
                    return Err(x);
                },
            };
            let ghost l1 = lhs;
            let ghost r1 = rhs;
            let r = (BinExpr { mid, kind, lhs, rhs }).try_reduce(helper);
            proof {
                lemma_const_value_of_literal(l1, l0, *helper);
                lemma_const_value_of_literal(r1, r0, *helper);
                if r is Ok {
                    let f = r->Ok_0;
                    assert forall|cx: Cx, depth: nat|
                        agrees(cx, *helper) && depth + height(e) <= cx.limit implies #[trigger] value_of(
                        f,
                        cx,
                        depth,
                    ) == value_of(e, cx, depth) by {
                        assert(value_of(l1, cx, depth + 1) == value_of(l0, cx, depth + 1));
                        assert(value_of(r1, cx, depth + 1) == value_of(r0, cx, depth + 1));
                        value_of_binary(e, cx, depth);
                        if l1 is Literal && r1 is Literal {
                            value_of_literal(l1, cx, depth + 1);
                            value_of_literal(r1, cx, depth + 1);
                            value_of_literal(f, cx, depth);
                        } else {
                            value_of_binary(f, cx, depth);
                        }
                    }
                    assert(transparent(f, e, *helper));
                    assert(fold_error(e, *helper).is_none());
                    assert(f is Literal <==> literal_only(e));
                    assert(f.mid_of() == e.mid_of());
                } else {
                    assert(fold_error(e, *helper) == Some(r->Err_0));
                }
            }
            r
        },
        ImutExprInt::Patch(p) => fold_patch(*p, helper, Ghost(e)),
        ImutExprInt::Comprehension(c) => fold_for(*c, helper, Ghost(e)),
        ImutExprInt::Merge(m) => {
            let Merge { mid, target, expr } = *m;
            let ghost t0 = target;
            let ghost w0 = expr;
            let target = match fold(target, helper) {
                Ok(f) => f,
                Err(x) => {
                    return Err(x);
                },
            };
            let expr = match fold(expr, helper) {
                Ok(f) => f,
                Err(x) => {
                    return Err(x);
                },
            };
            let ghost t1 = target;
            let ghost w1 = expr;
            let f = ImutExprInt::Merge(Box::new(Merge { mid, target, expr }));
            proof {
                assert forall|cx: Cx, depth: nat|
                    agrees(cx, *helper) && depth + height(e) <= cx.limit implies #[trigger] value_of(
                    f,
                    cx,
                    depth,
                ) == value_of(e, cx, depth) by {
                    assert(value_of(t1, cx, depth + 1) == value_of(t0, cx, depth + 1));
                    assert(value_of(w1, cx, depth + 1) == value_of(w0, cx, depth + 1));
                    value_of_merge(e, cx, depth);
                    value_of_merge(f, cx, depth);
                }
                assert(transparent(f, e, *helper));
                assert(fold_error(e, *helper).is_none());
                assert(settled(f));
            }
            Ok(f)
        },
        ImutExprInt::List(l) => fold_list(l, helper, Ghost(e)),
        ImutExprInt::Record(r) => fold_record(r, helper, Ghost(e)),
        ImutExprInt::Invoke1(i) => {
            if is_intrinsic(&i) {
                fold_call(i, helper, Ghost(e))
            } else {
                proof {
                    lemma_call_left_alone(e, i, *helper);
                }
                Ok(ImutExprInt::Invoke1(i))
            }
        },
        ImutExprInt::Invoke2(i) => {
            if is_intrinsic(&i) {
                fold_call(i, helper, Ghost(e))
            } else {
                proof {
                    lemma_call_left_alone(e, i, *helper);
                }
                Ok(ImutExprInt::Invoke2(i))
            }
        },
        ImutExprInt::Invoke3(i) => {
            if is_intrinsic(&i) {
                fold_call(i, helper, Ghost(e))
            } else {
                proof {
                    lemma_call_left_alone(e, i, *helper);
                }
                Ok(ImutExprInt::Invoke3(i))
            }
        },
        ImutExprInt::Invoke(i) => {
            if is_intrinsic(&i) {
                fold_call(i, helper, Ghost(e))
            } else {
                proof {
                    lemma_call_left_alone(e, i, *helper);
                }
                Ok(ImutExprInt::Invoke(i))
            }
        },
        other => {
            assert(fold_error(other, *helper).is_none());
            assert(!literal_only(other) || other is Literal);
            Ok(other)
        },
    }
}

/// Folds the expressions of a list constructor, and the list itself if all of
/// them fold into literals. `e` is the expression that the list is.
fn fold_list(l: List, helper: &Helper, Ghost(e): Ghost<ImutExprInt>) -> (r: Result<ImutExprInt, Error>)
    requires
        e == ImutExprInt::List(l),
    ensures
        folded(r, e, *helper),
    decreases l, 1int,
{
    let List { mid, exprs } = l;
    let ghost orig = exprs@;
    let done = match fold_all(exprs, helper) {
        Ok(done) => done,
        Err(x) => {
            return Err(x);
        },
    };
    let ghost now = done@;
    let r = (List { mid, exprs: done }).try_reduce(helper);
    proof {
        let n = orig.len() as int;
        let f = r->Ok_0;
        lemma_all_literal_only(orig, n);
        lemma_all_settled(now, n);
        reveal_with_fuel(settled, 2);
        if all_literal(now) {
            assert(literal_only(e)) by {
                assert forall|i: int| 0 <= i < n implies literal_only(orig[i].0) by {
                    assert(now[i].0 is Literal);
                }
            }
            assert forall|cx: Cx, depth: nat|
                agrees(cx, *helper) && depth + height(e) <= cx.limit implies #[trigger] value_of(
                f,
                cx,
                depth,
            ) == value_of(e, cx, depth) by {
                value_of_list(e, cx, depth);
                value_of_literal(f, cx, depth);
                assert forall|i: int| 0 <= i < n implies now[i].0 is Literal && value_of(
                    now[i].0,
                    cx,
                    depth + 1,
                ) == value_of(orig[i].0, cx, depth + 1) by {
                    lemma_list_height_bounds(orig, n, i);
                    assert(transparent(now[i].0, orig[i].0, *helper));
                }
                lemma_values_of_literals(orig, now, cx, depth + 1, n);
                assert(literal_values(now).take(n) =~= literal_values(now));
            }
        } else {
            let k = choose|k: int| 0 <= k < n && !((#[trigger] now[k]).0 is Literal);
            assert(!literal_only(orig[k].0));
            assert forall|cx: Cx, depth: nat|
                agrees(cx, *helper) && depth + height(e) <= cx.limit implies #[trigger] value_of(
                f,
                cx,
                depth,
            ) == value_of(e, cx, depth) by {
                value_of_list(e, cx, depth);
                value_of_list(f, cx, depth);
                assert forall|i: int| 0 <= i < n implies value_of(now[i].0, cx, depth + 1)
                    == value_of(orig[i].0, cx, depth + 1) by {
                    lemma_list_height_bounds(orig, n, i);
                    assert(transparent(now[i].0, orig[i].0, *helper));
                }
                lemma_values_of_congruent(now, orig, cx, depth + 1, n);
            }
        }
        assert(r is Ok);
        assert(fold_error(e, *helper).is_none());
        assert(transparent(f, e, *helper));
        assert(f is Literal <==> literal_only(e));
        assert(f is Literal ==> f.mid_of() == e.mid_of());
    }
    r
}

/// What the pass made of the fields of a record constructor, if it is `r`: a
/// failure is the first failure among the fields; else each name and each
/// value can stand for what it was, and every name that is a literal is a
/// string.
pub open spec fn fields_folded(r: Result<Vec<Field>, Error>, fields: Seq<Field>, helper: Helper) -> bool {
    match r {
        Err(x) => fields_fold_error(fields, helper, fields.len() as int) == Some(x),
        Ok(done) => {
            &&& fields_fold_error(fields, helper, fields.len() as int).is_none()
            &&& done@.len() == fields.len()
            &&& forall|i: int|
                0 <= i < fields.len() ==> {
                    &&& folded(Ok((#[trigger] done@[i]).name), fields[i].name, helper)
                    &&& folded(Ok(done@[i].value), fields[i].value, helper)
                    &&& (done@[i].name is Literal ==> done@[i].name->Literal_0.value@ is String)
                }
        },
    }
}

/// Folds the names and values of the fields of a record constructor, in
/// order.
pub fn fold_fields(fields: Vec<Field>, helper: &Helper) -> (r: Result<Vec<Field>, Error>)
    ensures
        fields_folded(r, fields@, *helper),
    decreases fields@, fields@.len(),
{
    let ghost orig = fields@;
    let mut done: Vec<Field> = Vec::new();
    for x in it: fields
        invariant
            orig == it.seq(),
            orig == fields@,
            done@.len() == it.index(),
            fields_fold_error(orig, *helper, it.index() as int).is_none(),
            forall|i: int|
                0 <= i < it.index() ==> {
                    &&& folded(Ok((#[trigger] done@[i]).name), orig[i].name, *helper)
                    &&& folded(Ok(done@[i].value), orig[i].value, *helper)
                    &&& (done@[i].name is Literal ==> done@[i].name->Literal_0.value@ is String)
                },
    {
        let ghost k = it.index() as int;
        assert(x == orig[k]);
        assert(decreases_to!(fields => fields@[k]));
        let Field { mid, name, value } = x;
        let name = match fold(name, helper) {
            Ok(f) => f,
            Err(err) => {
                proof {
                    assert(fields_fold_error(orig, *helper, k + 1) == Some(err));
                    lemma_fields_fold_error_sticks(orig, *helper, k + 1, orig.len() as int);
                }
                return Err(err);
            },
        };
        proof {
            lemma_const_value_of_literal(name, orig[k].name, *helper);
        }
        let wrong: Option<ValueType> = match &name {
            ImutExprInt::Literal(l) => match &l.value {
                Value::String(_) => None,
                other => Some(other.value_type()),
            },
            _ => None,
        };
        if let Some(found) = wrong {
            let err = Error::new(
                helper.meta.extent(name.mid()),
                ErrorKind::TypeError(ValueType::String, found),
            );
            proof {
                assert(name_error(orig[k].name, *helper) == Some(err));
                assert(fields_fold_error(orig, *helper, k + 1) == Some(err));
                lemma_fields_fold_error_sticks(orig, *helper, k + 1, orig.len() as int);
            }
            return Err(err);
        }
        assert(literal_only(orig[k].name) ==> name_error(orig[k].name, *helper).is_none());
        let value = match fold(value, helper) {
            Ok(f) => f,
            Err(err) => {
                proof {
                    assert(fields_fold_error(orig, *helper, k + 1) == Some(err));
                    lemma_fields_fold_error_sticks(orig, *helper, k + 1, orig.len() as int);
                }
                return Err(err);
            },
        };
        done.push(Field { mid, name, value });
    }
    Ok(done)
}

/// The record that fields with literal string names and literal values
/// build, from the first `upto` of them.
pub open spec fn built(fields: Seq<Field>, upto: int) -> Data
    decreases upto,
{
    if upto <= 0 || upto > fields.len() {
        Data::Object(Seq::empty())
    } else {
        built(fields, upto - 1).with_field(
            fields[upto - 1].name->Literal_0.value@->String_0,
            fields[upto - 1].value->Literal_0.value@,
        )
    }
}

/// Fields with literal string names and literal values build their record.
pub proof fn lemma_record_of_literals(fields: Seq<Field>, cx: Cx, depth: nat, upto: int)
    requires
        0 <= upto <= fields.len(),
        depth <= cx.limit,
        forall|i: int|
            0 <= i < upto ==> (#[trigger] fields[i]).name is Literal && fields[i].value is Literal
                && fields[i].name->Literal_0.value@ is String,
    ensures
        record_of(fields, cx, depth, upto) == Ok::<Data, Error>(built(fields, upto)),
    decreases upto,
{
    record_of_step(fields, cx, depth, upto);
    if upto > 0 {
        lemma_record_of_literals(fields, cx, depth, upto - 1);
        assert(fields[upto - 1].name is Literal);
        value_of_literal(fields[upto - 1].name, cx, depth);
        value_of_literal(fields[upto - 1].value, cx, depth);
    }
}

/// Two runs of fields whose names and values give the same, one by one, build
/// the same record.
pub proof fn lemma_record_of_congruent(a: Seq<Field>, b: Seq<Field>, cx: Cx, depth: nat, upto: int)
    requires
        0 <= upto <= a.len(),
        a.len() == b.len(),
        forall|i: int|
            0 <= i < upto ==> {
                &&& value_of((#[trigger] a[i]).name, cx, depth) == value_of(b[i].name, cx, depth)
                &&& value_of(a[i].value, cx, depth) == value_of(b[i].value, cx, depth)
                &&& a[i].name.mid_of() == b[i].name.mid_of()
            },
    ensures
        record_of(a, cx, depth, upto) == record_of(b, cx, depth, upto),
    decreases upto,
{
    record_of_step(a, cx, depth, upto);
    record_of_step(b, cx, depth, upto);
    if upto > 0 {
        lemma_record_of_congruent(a, b, cx, depth, upto - 1);
        assert(value_of(a[upto - 1].name, cx, depth) == value_of(b[upto - 1].name, cx, depth));
    }
}

/// No name or value of a field asks for more levels than the fields as a
/// whole.
pub proof fn lemma_fields_height_bounds(fields: Seq<Field>, upto: int, i: int)
    requires
        0 <= i < upto <= fields.len(),
    ensures
        height(fields[i].name) <= fields_height(fields, upto),
        height(fields[i].value) <= fields_height(fields, upto),
    decreases upto,
{
    if i < upto - 1 {
        lemma_fields_height_bounds(fields, upto - 1, i);
    }
}

/// Once the pass fails on a field, it fails on the record with that error
/// however many more fields are taken.
pub proof fn lemma_fields_fold_error_sticks(fields: Seq<Field>, helper: Helper, i: int, n: int)
    requires
        0 <= i <= n <= fields.len(),
        fields_fold_error(fields, helper, i).is_some(),
    ensures
        fields_fold_error(fields, helper, n) == fields_fold_error(fields, helper, i),
    decreases n - i,
{
    if i < n {
        lemma_fields_fold_error_sticks(fields, helper, i, n - 1);
    }
}

/// The fields of a record constructor are made of literals alone if and only
/// if each name and each value is.
pub proof fn lemma_fields_literal_only(fields: Seq<Field>, upto: int)
    requires
        0 <= upto <= fields.len(),
    ensures
        fields_literal_only(fields, upto) <==> forall|i: int|
            0 <= i < upto ==> literal_only((#[trigger] fields[i]).name) && literal_only(
                fields[i].value,
            ),
    decreases upto,
{
    if upto > 0 {
        lemma_fields_literal_only(fields, upto - 1);
        if fields_literal_only(fields, upto) {
            assert forall|i: int| 0 <= i < upto implies literal_only((#[trigger] fields[i]).name)
                && literal_only(fields[i].value) by {
                if i < upto - 1 {
                } else {
                    assert(literal_only(fields[upto - 1].name));
                }
            }
        }
        if forall|i: int|
            0 <= i < upto ==> literal_only((#[trigger] fields[i]).name) && literal_only(
                fields[i].value,
            ) {
            assert(literal_only(fields[upto - 1].name) && literal_only(fields[upto - 1].value));
        }
    }
}

/// Folds the fields of a record constructor, and the record itself if all
/// names and values fold into literals. `e` is the expression that the record
/// is.
fn fold_record(r: Record, helper: &Helper, Ghost(e): Ghost<ImutExprInt>) -> (res: Result<
    ImutExprInt,
    Error,
>)
    requires
        e == ImutExprInt::Record(r),
    ensures
        folded(res, e, *helper),
    decreases r, 1int,
{
    let Record { mid, fields } = r;
    let ghost orig = fields@;
    let done = match fold_fields(fields, helper) {
        Ok(done) => done,
        Err(x) => {
            return Err(x);
        },
    };
    let ghost now = done@;
    let res = (Record { mid, fields: done }).try_reduce(helper);
    proof {
        let n = orig.len() as int;
        lemma_fields_literal_only(orig, n);
        lemma_fields_settled(now, n);
        reveal_with_fuel(settled, 2);
        if all_literal_fields(now) {
            assert(literal_only(e)) by {
                assert forall|i: int| 0 <= i < n implies literal_only((#[trigger] orig[i]).name)
                    && literal_only(orig[i].value) by {
                    assert(now[i].name is Literal && now[i].value is Literal);
                }
            }
            let load = const_cx(*helper);
            lemma_record_of_literals(now, load, 0, n);
            record_of_is_eval_fields(now, load, 0, n);
            let f = res->Ok_0;
            assert(res is Ok);
            assert forall|cx: Cx, depth: nat|
                agrees(cx, *helper) && depth + height(e) <= cx.limit implies #[trigger] value_of(
                f,
                cx,
                depth,
            ) == value_of(e, cx, depth) by {
                value_of_record(e, cx, depth);
                value_of_literal(f, cx, depth);
                assert forall|i: int| 0 <= i < n implies {
                    &&& value_of((#[trigger] now[i]).name, cx, depth + 1) == value_of(
                        orig[i].name,
                        cx,
                        depth + 1,
                    )
                    &&& value_of(now[i].value, cx, depth + 1) == value_of(
                        orig[i].value,
                        cx,
                        depth + 1,
                    )
                    &&& now[i].name.mid_of() == orig[i].name.mid_of()
                } by {
                    lemma_fields_height_bounds(orig, n, i);
                    assert(transparent(now[i].name, orig[i].name, *helper));
                    assert(transparent(now[i].value, orig[i].value, *helper));
                    assert(now[i].name is Literal);
                }
                lemma_record_of_congruent(now, orig, cx, depth + 1, n);
                lemma_record_of_literals(now, cx, depth + 1, n);
            }
        } else {
            let f = res->Ok_0;
            let k = choose|k: int|
                0 <= k < n && !((#[trigger] now[k]).name is Literal && now[k].value is Literal);
            assert(!(literal_only(orig[k].name) && literal_only(orig[k].value)));
            assert forall|cx: Cx, depth: nat|
                agrees(cx, *helper) && depth + height(e) <= cx.limit implies #[trigger] value_of(
                f,
                cx,
                depth,
            ) == value_of(e, cx, depth) by {
                value_of_record(e, cx, depth);
                value_of_record(f, cx, depth);
                assert forall|i: int| 0 <= i < n implies {
                    &&& value_of((#[trigger] now[i]).name, cx, depth + 1) == value_of(
                        orig[i].name,
                        cx,
                        depth + 1,
                    )
                    &&& value_of(now[i].value, cx, depth + 1) == value_of(
                        orig[i].value,
                        cx,
                        depth + 1,
                    )
                    &&& now[i].name.mid_of() == orig[i].name.mid_of()
                } by {
                    lemma_fields_height_bounds(orig, n, i);
                    assert(transparent(now[i].name, orig[i].name, *helper));
                    assert(transparent(now[i].value, orig[i].value, *helper));
                }
                lemma_record_of_congruent(now, orig, cx, depth + 1, n);
            }
        }
    }
    res
}

/// A call that the pass does not look into is left as it is.
pub proof fn lemma_call_left_alone(e: ImutExprInt, i: Invoke, helper: Helper)
    requires
        as_call(e) == Some(i),
        !descends(i),
    ensures
        fold_error(e, helper).is_none(),
        !literal_only(e),
        height(e) == 0,
        transparent(e, e, helper),
        settled(e),
{
    reveal_with_fuel(fold_error, 2);
    reveal_with_fuel(height, 2);
    reveal_with_fuel(settled, 2);
}

/// Whether a call is of a function of the engine.
fn is_intrinsic(i: &Invoke) -> (r: bool)
    ensures
        r == descends(*i),
{
    match &i.invocable {
        Invocable::Intrinsic(_) => true,
        Invocable::Tremor(_) => false,
    }
}

/// What the pass made of the expressions of a list, if it is `r`: a failure
/// is the first failure in the list; else each result can stand for its
/// expression.
pub open spec fn all_folded(r: Result<Vec<ImutExpr>, Error>, exprs: Seq<ImutExpr>, helper: Helper) -> bool {
    match r {
        Err(x) => list_fold_error(exprs, helper, exprs.len() as int) == Some(x),
        Ok(done) => {
            &&& list_fold_error(exprs, helper, exprs.len() as int).is_none()
            &&& done@.len() == exprs.len()
            &&& forall|i: int|
                0 <= i < exprs.len() ==> folded(Ok((#[trigger] done@[i]).0), exprs[i].0, helper)
        },
    }
}

/// Folds the expressions of a list, in order.
pub fn fold_all(exprs: Vec<ImutExpr>, helper: &Helper) -> (r: Result<Vec<ImutExpr>, Error>)
    ensures
        all_folded(r, exprs@, *helper),
    decreases exprs@, exprs@.len(),
{
    let ghost orig = exprs@;
    let mut done: Vec<ImutExpr> = Vec::new();
    for x in it: exprs
        invariant
            orig == it.seq(),
            orig == exprs@,
            done@.len() == it.index(),
            list_fold_error(orig, *helper, it.index() as int).is_none(),
            forall|i: int|
                0 <= i < it.index() ==> folded(Ok((#[trigger] done@[i]).0), orig[i].0, *helper),
    {
        let ghost k = it.index() as int;
        assert(x == orig[k]);
        assert(decreases_to!(exprs => exprs@[k]));
        match fold(x.0, helper) {
            Ok(f) => {
                done.push(ImutExpr(f));
            },
            Err(err) => {
                proof {
                    assert(list_fold_error(orig, *helper, k + 1) == Some(err));
                    lemma_list_fold_error_sticks(orig, *helper, k + 1, orig.len() as int);
                }
                return Err(err);
            },
        }
    }
    Ok(done)
}

/// Folds the arguments of a call of a function of the engine, and the call
/// itself if it can be computed. `e` is the expression that the call is.
fn fold_call(i: Invoke, helper: &Helper, Ghost(e): Ghost<ImutExprInt>) -> (r: Result<ImutExprInt, Error>)
    requires
        as_call(e) == Some(i),
        descends(i),
    ensures
        folded(r, e, *helper),
    decreases i, 1int,
{
    let Invoke { mid, module, fun, invocable, args } = i;
    let ghost orig = args@;
    let done = match fold_all(args, helper) {
        Ok(done) => done,
        Err(x) => {
            return Err(x);
        },
    };
    let ghost now = done@;
    let ghost j = Invoke { mid, module, fun, invocable, args: done };
    let r = (Invoke { mid, module, fun, invocable, args: done }).try_reduce(helper);
    proof {
        let n = orig.len() as int;
        let ext = helper.meta.extent_of(mid);
        let f = invocable->Intrinsic_0.fun;
        lemma_all_literal_only(orig, n);
        lemma_all_settled(now, n);
        reveal_with_fuel(settled, 2);
        assert(height(e) == call_height(i));
        assert(fold_error(e, *helper) == call_fold_error(e, i, *helper));
        assert(literal_only(e) == (folds_call(i) && all_literal_only(orig, n)));
        if f.pure() && all_literal(now) {
            assert(literal_only(e)) by {
                assert forall|k: int| 0 <= k < n implies literal_only(orig[k].0) by {
                    assert(now[k].0 is Literal);
                }
            }
            let load = load_cx(*helper, call_height(i));
            assert(values_of(orig, load, 1, n) == Ok::<Seq<Data>, Error>(literal_values(now))) by {
                assert forall|k: int| 0 <= k < n implies now[k].0 is Literal && value_of(
                    now[k].0,
                    load,
                    1,
                ) == value_of(orig[k].0, load, 1) by {
                    lemma_list_height_bounds(orig, n, k);
                    assert(transparent(now[k].0, orig[k].0, *helper));
                }
                lemma_values_of_literals(orig, now, load, 1, n);
                assert(literal_values(now).take(n) =~= literal_values(now));
            }
            value_of_call(e, load, 0);
            if r is Ok {
                let lit = r->Ok_0;
                assert forall|cx: Cx, depth: nat|
                    agrees(cx, *helper) && depth + height(e) <= cx.limit implies #[trigger] value_of(
                    lit,
                    cx,
                    depth,
                ) == value_of(e, cx, depth) by {
                    value_of_call(e, cx, depth);
                    value_of_literal(lit, cx, depth);
                    assert forall|k: int| 0 <= k < n implies now[k].0 is Literal && value_of(
                        now[k].0,
                        cx,
                        depth + 1,
                    ) == value_of(orig[k].0, cx, depth + 1) by {
                        lemma_list_height_bounds(orig, n, k);
                        assert(transparent(now[k].0, orig[k].0, *helper));
                    }
                    lemma_values_of_literals(orig, now, cx, depth + 1, n);
                    assert(literal_values(now).take(n) =~= literal_values(now));
                    lemma_pure_apply(f, literal_values(now), cx.at, 0);
                }
            }
        } else {
            let g = r->Ok_0;
            assert(g == call_node(j));
            if f.pure() {
                let k = choose|k: int| 0 <= k < n && !((#[trigger] now[k]).0 is Literal);
                assert(!literal_only(orig[k].0));
            }
            assert forall|cx: Cx, depth: nat|
                agrees(cx, *helper) && depth + height(e) <= cx.limit implies #[trigger] value_of(
                g,
                cx,
                depth,
            ) == value_of(e, cx, depth) by {
                value_of_call(e, cx, depth);
                value_of_call(g, cx, depth);
                assert forall|k: int| 0 <= k < n implies value_of(now[k].0, cx, depth + 1)
                    == value_of(orig[k].0, cx, depth + 1) by {
                    lemma_list_height_bounds(orig, n, k);
                    assert(transparent(now[k].0, orig[k].0, *helper));
                }
                lemma_values_of_congruent(now, orig, cx, depth + 1, n);
            }
        }
    }
    r
}

/// No expression of a list asks for more levels than the list as a whole.
pub proof fn lemma_list_height_bounds(exprs: Seq<ImutExpr>, upto: int, i: int)
    requires
        0 <= i < upto <= exprs.len(),
    ensures
        height(exprs[i].0) <= list_height(exprs, upto),
    decreases upto,
{
    if i < upto - 1 {
        lemma_list_height_bounds(exprs, upto - 1, i);
    }
}

/// Once the pass fails on an expression of a list, it fails on the list with
/// that error however many more expressions are taken.
pub proof fn lemma_list_fold_error_sticks(exprs: Seq<ImutExpr>, helper: Helper, i: int, n: int)
    requires
        0 <= i <= n <= exprs.len(),
        list_fold_error(exprs, helper, i).is_some(),
    ensures
        list_fold_error(exprs, helper, n) == list_fold_error(exprs, helper, i),
    decreases n - i,
{
    if i < n {
        lemma_list_fold_error_sticks(exprs, helper, i, n - 1);
    }
}

/// A list is made of literals alone if and only if each of its expressions
/// is.
pub proof fn lemma_all_literal_only(exprs: Seq<ImutExpr>, upto: int)
    requires
        0 <= upto <= exprs.len(),
    ensures
        all_literal_only(exprs, upto) <==> forall|i: int|
            0 <= i < upto ==> literal_only(#[trigger] exprs[i].0),
    decreases upto,
{
    if upto > 0 {
        lemma_all_literal_only(exprs, upto - 1);
        if all_literal_only(exprs, upto) {
            assert forall|i: int| 0 <= i < upto implies literal_only(#[trigger] exprs[i].0) by {
                if i < upto - 1 {
                } else {
                    assert(literal_only(exprs[upto - 1].0));
                }
            }
        }
        if forall|i: int| 0 <= i < upto ==> literal_only(#[trigger] exprs[i].0) {
            assert(literal_only(exprs[upto - 1].0));
        }
    }
}

/// Where literals stand for the expressions of a list, the values of the list
/// are the values of the literals.
pub proof fn lemma_values_of_literals(
    orig: Seq<ImutExpr>,
    lits: Seq<ImutExpr>,
    cx: Cx,
    depth: nat,
    upto: int,
)
    requires
        0 <= upto <= orig.len(),
        lits.len() == orig.len(),
        depth <= cx.limit,
        forall|i: int|
            0 <= i < upto ==> (#[trigger] lits[i]).0 is Literal && value_of(lits[i].0, cx, depth)
                == value_of(orig[i].0, cx, depth),
    ensures
        values_of(orig, cx, depth, upto) == Ok::<Seq<Data>, Error>(literal_values(lits).take(upto)),
    decreases upto,
{
    values_of_step(orig, cx, depth, upto);
    if upto > 0 {
        lemma_values_of_literals(orig, lits, cx, depth, upto - 1);
        assert(lits[upto - 1].0 is Literal);
        value_of_literal(lits[upto - 1].0, cx, depth);
        assert(literal_values(lits).take(upto) =~= literal_values(lits).take(upto - 1).push(
            lits[upto - 1].0->Literal_0.value@,
        ));
    } else {
        assert(literal_values(lits).take(0) =~= Seq::<Data>::empty());
    }
}

/// Two lists whose expressions give the same, one by one, give the same
/// values.
pub proof fn lemma_values_of_congruent(
    a: Seq<ImutExpr>,
    b: Seq<ImutExpr>,
    cx: Cx,
    depth: nat,
    upto: int,
)
    requires
        0 <= upto <= a.len(),
        a.len() == b.len(),
        forall|i: int|
            0 <= i < upto ==> value_of((#[trigger] a[i]).0, cx, depth) == value_of(
                b[i].0,
                cx,
                depth,
            ),
    ensures
        values_of(a, cx, depth, upto) == values_of(b, cx, depth, upto),
    decreases upto,
{
    values_of_step(a, cx, depth, upto);
    values_of_step(b, cx, depth, upto);
    if upto > 0 {
        lemma_values_of_congruent(a, b, cx, depth, upto - 1);
        assert(value_of(a[upto - 1].0, cx, depth) == value_of(b[upto - 1].0, cx, depth));
    }
}

/// What a function gives that depends on its arguments alone does not depend
/// on when the event came in.
pub proof fn lemma_pure_apply(f: Intrinsic, args: Seq<Data>, at1: u64, at2: u64)
    requires
        f.pure(),
    ensures
        f.apply(args, at1) == f.apply(args, at2),
{
}

/// Where a literal can stand for `e`, the value of `e` when the script is
/// loaded is the value of the literal.
pub proof fn lemma_const_value_of_literal(f: ImutExprInt, e: ImutExprInt, helper: Helper)
    requires
        transparent(f, e, helper),
    ensures
        f is Literal ==> const_value(e, helper) == Ok::<Data, Error>(f->Literal_0.value@),
{
    if f is Literal {
        let cx = load_cx(helper, height(e));
        assert(value_of(f, cx, 0) == value_of(e, cx, 0));
        value_of_literal(f, cx, 0);
    }
}

/// An expression made of literals alone gives the same wherever it is
/// evaluated with the constants and places that it was compiled with and with
/// room for its operators: its value when the script is loaded, or the failure
/// with which the pass stops on it.
pub proof fn lemma_literal_only_is_stable(e: ImutExprInt, helper: Helper, cx: Cx, depth: nat)
    requires
        literal_only(e),
        agrees(cx, helper),
        depth + height(e) <= cx.limit,
    ensures
        value_of(e, cx, depth) == const_value(e, helper),
        fold_error(e, helper) == failure(const_value(e, helper)),
    decreases e, 0int,
{
    let load = load_cx(helper, height(e));
    match e {
        ImutExprInt::Literal(_) => {
            value_of_literal(e, cx, depth);
            value_of_literal(e, load, 0);
        },
        ImutExprInt::Path(p) => {
            value_of_const(e, cx, depth);
            value_of_const(e, load, 0);
        },
        ImutExprInt::Unary(u) => {
            lemma_literal_only_is_stable(u.expr, helper, cx, depth + 1);
            lemma_literal_only_is_stable(u.expr, helper, load, 1);
            value_of_unary(e, cx, depth);
            value_of_unary(e, load, 0);
        },
        ImutExprInt::Binary(b) => {
            lemma_literal_only_is_stable(b.lhs, helper, cx, depth + 1);
            lemma_literal_only_is_stable(b.lhs, helper, load, 1);
            lemma_literal_only_is_stable(b.rhs, helper, cx, depth + 1);
            lemma_literal_only_is_stable(b.rhs, helper, load, 1);
            value_of_binary(e, cx, depth);
            value_of_binary(e, load, 0);
        },
        ImutExprInt::List(l) => {
            let n = l.exprs@.len() as int;
            lemma_list_is_stable(l.exprs@, helper, cx, depth + 1, n);
            lemma_list_is_stable(l.exprs@, helper, load, 1, n);
            value_of_list(e, cx, depth);
            value_of_list(e, load, 0);
        },
        ImutExprInt::Record(r) => {
            let n = r.fields@.len() as int;
            lemma_fields_are_stable(r.fields@, helper, cx, depth + 1, n);
            lemma_fields_are_stable(r.fields@, helper, load, 1, n);
            value_of_record(e, cx, depth);
            value_of_record(e, load, 0);
        },
        ImutExprInt::Invoke1(i) => {
            lemma_call_is_stable(e, i, helper, cx, depth);
        },
        ImutExprInt::Invoke2(i) => {
            lemma_call_is_stable(e, i, helper, cx, depth);
        },
        ImutExprInt::Invoke3(i) => {
            lemma_call_is_stable(e, i, helper, cx, depth);
        },
        ImutExprInt::Invoke(i) => {
            lemma_call_is_stable(e, i, helper, cx, depth);
        },
        _ => {},
    }
}

/// The values of the first `upto` expressions of a list when the script is
/// loaded: each expression's own value then; the first error wins.
pub open spec fn const_values(exprs: Seq<ImutExpr>, helper: Helper, upto: int) -> Result<Seq<Data>, Error>
    decreases upto,
{
    if upto <= 0 || upto > exprs.len() {
        Ok(Seq::empty())
    } else {
        match const_values(exprs, helper, upto - 1) {
            Err(e) => Err(e),
            Ok(items) => match const_value(exprs[upto - 1].0, helper) {
                Err(e) => Err(e),
                Ok(v) => Ok(items.push(v)),
            },
        }
    }
}

/// The record that the first `upto` fields build when the script is loaded.
pub open spec fn const_record(fields: Seq<Field>, helper: Helper, upto: int) -> Result<Data, Error>
    decreases upto,
{
    if upto <= 0 || upto > fields.len() {
        Ok(Data::Object(Seq::empty()))
    } else {
        match const_record(fields, helper, upto - 1) {
            Err(e) => Err(e),
            Ok(record) => match const_value(fields[upto - 1].name, helper) {
                Err(e) => Err(e),
                Ok(name) => match name {
                    Data::String(key) => match const_value(fields[upto - 1].value, helper) {
                        Err(e) => Err(e),
                        Ok(v) => Ok(record.with_field(key, v)),
                    },
                    other => Err(
                        Error::at(
                            helper.meta.extent_of(fields[upto - 1].name.mid_of()),
                            ErrorKind::TypeError(ValueType::String, other.value_type()),
                        ),
                    ),
                },
            },
        }
    }
}

/// Fields made of literals alone build the same record wherever they are
/// evaluated, and the pass fails on them where building it fails.
pub proof fn lemma_fields_are_stable(fields: Seq<Field>, helper: Helper, cx: Cx, depth: nat, upto: int)
    requires
        0 <= upto <= fields.len(),
        fields_literal_only(fields, upto),
        agrees(cx, helper),
        depth + fields_height(fields, upto) <= cx.limit,
    ensures
        record_of(fields, cx, depth, upto) == const_record(fields, helper, upto),
        fields_fold_error(fields, helper, upto) == failure(const_record(fields, helper, upto)),
    decreases fields, upto,
{
    record_of_step(fields, cx, depth, upto);
    if upto > 0 {
        lemma_fields_are_stable(fields, helper, cx, depth, upto - 1);
        lemma_literal_only_is_stable(fields[upto - 1].name, helper, cx, depth);
        lemma_literal_only_is_stable(fields[upto - 1].value, helper, cx, depth);
    }
}

/// A list of expressions made of literals alone gives the same values
/// wherever it is evaluated, and the pass fails on it where its evaluation
/// fails.
pub proof fn lemma_list_is_stable(exprs: Seq<ImutExpr>, helper: Helper, cx: Cx, depth: nat, upto: int)
    requires
        0 <= upto <= exprs.len(),
        all_literal_only(exprs, upto),
        agrees(cx, helper),
        depth + list_height(exprs, upto) <= cx.limit,
    ensures
        values_of(exprs, cx, depth, upto) == const_values(exprs, helper, upto),
        list_fold_error(exprs, helper, upto) == (match const_values(exprs, helper, upto) {
            Ok(_) => None,
            Err(x) => Some(x),
        }),
    decreases exprs, upto,
{
    values_of_step(exprs, cx, depth, upto);
    if upto > 0 {
        lemma_list_is_stable(exprs, helper, cx, depth, upto - 1);
        lemma_literal_only_is_stable(exprs[upto - 1].0, helper, cx, depth);
    }
}

/// A call of a function of the engine with arguments made of literals alone
/// gives the same wherever it is evaluated, and the pass fails on it where its
/// evaluation fails.
pub proof fn lemma_call_is_stable(e: ImutExprInt, i: Invoke, helper: Helper, cx: Cx, depth: nat)
    requires
        as_call(e) == Some(i),
        literal_only(e),
        agrees(cx, helper),
        depth + height(e) <= cx.limit,
    ensures
        value_of(e, cx, depth) == const_value(e, helper),
        fold_error(e, helper) == failure(const_value(e, helper)),
    decreases i, 1int,
{
    let n = i.args@.len() as int;
    let load = load_cx(helper, height(e));
    assert(height(e) == call_height(i));
    assert(folds_call(i) && all_literal_only(i.args@, n));
    lemma_list_is_stable(i.args@, helper, cx, depth + 1, n);
    lemma_list_is_stable(i.args@, helper, load, 1, n);
    value_of_call(e, cx, depth);
    value_of_call(e, load, 0);
    let f = i.invocable->Intrinsic_0.fun;
    if const_values(i.args@, helper, n) is Ok {
        lemma_pure_apply(f, const_values(i.args@, helper, n)->Ok_0, cx.at, 0);
    }
    assert(fold_error(e, helper) == call_fold_error(e, i, helper));
}

/// Constant folding is transparent. Let `e` be made of literals, references
/// to constants of the script and operators alone, and let `r` be what the
/// pass made of it. Then wherever `e` itself is evaluated, with the constants
/// and places that it was compiled with and with room for its operators: if
/// the pass gave a literal, `e` evaluates to the value of that literal; if the
/// pass failed, `e` fails with the same error, kind and place.
pub proof fn folding_is_transparent(
    e: ImutExprInt,
    r: Result<ImutExprInt, Error>,
    helper: Helper,
    cx: Cx,
    depth: nat,
)
    requires
        folded(r, e, helper),
        literal_only(e),
        agrees(cx, helper),
        depth + height(e) <= cx.limit,
    ensures
        match r {
            Ok(f) => f is Literal && eval(e, cx, depth) == Ok::<Data, Error>(f->Literal_0.value@),
            Err(x) => eval(e, cx, depth) == Err::<Data, Error>(x),
        },
{
    value_of_is_eval(e, cx, depth);
    lemma_literal_only_is_stable(e, helper, cx, depth);
    match r {
        Ok(f) => {
            assert(value_of(f, cx, depth) == value_of(e, cx, depth));
            value_of_literal(f, cx, depth);
        },
        Err(x) => {},
    }
}

/// Folding does not change what an expression gives, whatever the expression
/// is made of: where the pass succeeds, its result evaluates to what the
/// expression itself evaluates to, wherever that is with the constants and
/// places that it was compiled with and with room for the operators that the
/// pass took out.
pub proof fn folding_keeps_the_value(
    e: ImutExprInt,
    f: ImutExprInt,
    helper: Helper,
    cx: Cx,
    depth: nat,
)
    requires
        folded(Ok(f), e, helper),
        agrees(cx, helper),
        depth + height(e) <= cx.limit,
    ensures
        eval(f, cx, depth) == eval(e, cx, depth),
{
    value_of_is_eval(e, cx, depth);
    value_of_is_eval(f, cx, depth);
    assert(value_of(f, cx, depth) == value_of(e, cx, depth));
}

/// The depth of each operation is within that of all.
pub proof fn lemma_ops_height_bounds(ops: Seq<PatchOperation>, upto: int, i: int)
    requires
        0 <= i < upto <= ops.len(),
    ensures
        op_height(ops[i]) <= ops_height(ops, upto),
    decreases upto,
{
    if i < upto - 1 {
        lemma_ops_height_bounds(ops, upto - 1, i);
    }
}

/// A failure on the first `i` operations is the failure on the first `n`.
pub proof fn lemma_ops_fold_error_sticks(ops: Seq<PatchOperation>, helper: Helper, i: int, n: int)
    requires
        0 <= i <= n <= ops.len(),
        ops_fold_error(ops, helper, i).is_some(),
    ensures
        ops_fold_error(ops, helper, n) == ops_fold_error(ops, helper, i),
    decreases n - i,
{
    if i < n {
        lemma_ops_fold_error_sticks(ops, helper, i, n - 1);
    }
}

/// Operations in each of which nothing is left to compute.
pub proof fn lemma_ops_settled(ops: Seq<PatchOperation>, upto: int)
    requires
        0 <= upto <= ops.len(),
        forall|i: int| 0 <= i < upto ==> op_settled(#[trigger] ops[i]),
    ensures
        ops_settled(ops, upto),
    decreases upto,
{
    if upto > 0 {
        lemma_ops_settled(ops, upto - 1);
        assert(op_settled(ops[upto - 1]));
    }
}

/// Operations of the same kinds, whose expressions have the same values,
/// make the same of a value.
pub proof fn lemma_patch_congruent(
    a: Seq<PatchOperation>,
    b: Seq<PatchOperation>,
    outer: usize,
    inner: usize,
    start: Data,
    cx: Cx,
    depth: nat,
    upto: int,
)
    requires
        0 <= upto <= a.len(),
        a.len() == b.len(),
        forall|i: int|
            0 <= i < upto ==> same_shape(#[trigger] a[i], b[i]) && eval(first_of(a[i]), cx, depth + 1)
                == eval(first_of(b[i]), cx, depth + 1) && second_value(a[i], cx, depth) == second_value(
                b[i],
                cx,
                depth,
            ),
    ensures
        patched_upto(a, outer, inner, start, cx, depth, upto) == patched_upto(
            b,
            outer,
            inner,
            start,
            cx,
            depth,
            upto,
        ),
    decreases upto,
{
    if upto > 0 {
        lemma_patch_congruent(a, b, outer, inner, start, cx, depth, upto - 1);
        assert(same_shape(a[upto - 1], b[upto - 1]));
    }
}

/// Folds the expressions of one operation of a patch.
fn fold_op(op: PatchOperation, helper: &Helper) -> (r: Result<PatchOperation, Error>)
    ensures
        op_folded(r, op, *helper),
    decreases op, 1int,
{
    match op {
        PatchOperation::Insert { ident, expr } => {
            let ident = match fold(ident, helper) {
                Ok(f) => f,
                Err(x) => {
                    return Err(x);
                },
            };
            match fold(expr, helper) {
                Ok(expr) => Ok(PatchOperation::Insert { ident, expr }),
                Err(x) => Err(x),
            }
        },
        PatchOperation::Upsert { ident, expr } => {
            let ident = match fold(ident, helper) {
                Ok(f) => f,
                Err(x) => {
                    return Err(x);
                },
            };
            match fold(expr, helper) {
                Ok(expr) => Ok(PatchOperation::Upsert { ident, expr }),
                Err(x) => Err(x),
            }
        },
        PatchOperation::Update { ident, expr } => {
            let ident = match fold(ident, helper) {
                Ok(f) => f,
                Err(x) => {
                    return Err(x);
                },
            };
            match fold(expr, helper) {
                Ok(expr) => Ok(PatchOperation::Update { ident, expr }),
                Err(x) => Err(x),
            }
        },
        PatchOperation::Erase { ident } => {
            match fold(ident, helper) {
                Ok(ident) => Ok(PatchOperation::Erase { ident }),
                Err(x) => Err(x),
            }
        },
        PatchOperation::Copy { from, to } => {
            let from = match fold(from, helper) {
                Ok(f) => f,
                Err(x) => {
                    return Err(x);
                },
            };
            match fold(to, helper) {
                Ok(to) => Ok(PatchOperation::Copy { from, to }),
                Err(x) => Err(x),
            }
        },
        PatchOperation::Move { from, to } => {
            let from = match fold(from, helper) {
                Ok(f) => f,
                Err(x) => {
                    return Err(x);
                },
            };
            match fold(to, helper) {
                Ok(to) => Ok(PatchOperation::Move { from, to }),
                Err(x) => Err(x),
            }
        },
        PatchOperation::Merge { ident, expr } => {
            let ident = match fold(ident, helper) {
                Ok(f) => f,
                Err(x) => {
                    return Err(x);
                },
            };
            match fold(expr, helper) {
                Ok(expr) => Ok(PatchOperation::Merge { ident, expr }),
                Err(x) => Err(x),
            }
        },
        PatchOperation::TupleMerge { expr } => {
            match fold(expr, helper) {
                Ok(expr) => Ok(PatchOperation::TupleMerge { expr }),
                Err(x) => Err(x),
            }
        },
    }
}

/// Folds the expressions of the operations of a patch, in order.
fn fold_ops(ops: Vec<PatchOperation>, helper: &Helper) -> (r: Result<Vec<PatchOperation>, Error>)
    ensures
        ops_folded(r, ops@, *helper),
    decreases ops@, ops@.len(),
{
    let ghost orig = ops@;
    let mut done: Vec<PatchOperation> = Vec::new();
    for x in it: ops
        invariant
            orig == it.seq(),
            orig == ops@,
            done@.len() == it.index(),
            ops_fold_error(orig, *helper, it.index() as int).is_none(),
            forall|i: int| 0 <= i < it.index() ==> op_folded(Ok(#[trigger] done@[i]), orig[i], *helper),
    {
        let ghost k = it.index() as int;
        assert(x == orig[k]);
        assert(decreases_to!(ops => ops@[k]));
        match fold_op(x, helper) {
            Ok(f) => {
                done.push(f);
            },
            Err(err) => {
                proof {
                    assert(ops_fold_error(orig, *helper, k + 1) == Some(err));
                    lemma_ops_fold_error_sticks(orig, *helper, k + 1, orig.len() as int);
                }
                return Err(err);
            },
        }
    }
    Ok(done)
}

/// Folds the target and the operations of a patch; the patch itself stays.
fn fold_patch(p: Patch, helper: &Helper, Ghost(e): Ghost<ImutExprInt>) -> (r: Result<ImutExprInt, Error>)
    requires
        e == ImutExprInt::Patch(Box::new(p)),
    ensures
        folded(r, e, *helper),
    decreases p, 1int,
{
    let Patch { mid, target, operations } = p;
    let ghost t0 = target;
    let ghost ops0 = operations@;
    let target = match fold(target, helper) {
        Ok(f) => f,
        Err(x) => {
            return Err(x);
        },
    };
    let operations = match fold_ops(operations, helper) {
        Ok(done) => done,
        Err(x) => {
            return Err(x);
        },
    };
    let ghost t1 = target;
    let ghost ops1 = operations@;
    let f = ImutExprInt::Patch(Box::new(Patch { mid, target, operations }));
    proof {
        let n = ops0.len() as int;
        assert forall|cx: Cx, depth: nat|
            agrees(cx, *helper) && depth + height(e) <= cx.limit implies #[trigger] value_of(f, cx, depth)
            == value_of(e, cx, depth) by {
            assert(value_of(t1, cx, depth + 1) == value_of(t0, cx, depth + 1));
            assert forall|i: int| 0 <= i < n implies same_shape(#[trigger] ops1[i], ops0[i]) && eval(
                first_of(ops1[i]),
                cx,
                depth + 1,
            ) == eval(first_of(ops0[i]), cx, depth + 1) && second_value(ops1[i], cx, depth)
                == second_value(ops0[i], cx, depth) by {
                lemma_ops_height_bounds(ops0, n, i);
                assert(op_folded(Ok(ops1[i]), ops0[i], *helper));
                let a = first_of(ops1[i]);
                let b = first_of(ops0[i]);
                assert(value_of(a, cx, depth + 1) == value_of(b, cx, depth + 1));
                value_of_is_eval(a, cx, depth + 1);
                value_of_is_eval(b, cx, depth + 1);
                if second_of(ops0[i]) is Some {
                    let x = second_of(ops1[i])->Some_0;
                    let y = second_of(ops0[i])->Some_0;
                    assert(value_of(x, cx, depth + 1) == value_of(y, cx, depth + 1));
                    value_of_is_eval(x, cx, depth + 1);
                    value_of_is_eval(y, cx, depth + 1);
                }
            }
            value_of_patch(e, cx, depth);
            value_of_patch(f, cx, depth);
            if value_of(t0, cx, depth + 1) is Ok {
                lemma_patch_congruent(
                    ops1,
                    ops0,
                    mid,
                    t0.mid_of(),
                    value_of(t0, cx, depth + 1)->Ok_0,
                    cx,
                    depth,
                    n,
                );
            }
        }
        assert(transparent(f, e, *helper));
        assert(fold_error(e, *helper).is_none());
        assert forall|i: int| 0 <= i < n implies op_settled(#[trigger] ops1[i]) by {
            assert(op_folded(Ok(ops1[i]), ops0[i], *helper));
        }
        lemma_ops_settled(ops1, n);
        assert(settled(f));
    }
    Ok(f)
}

/// The depth of each case is within that of all.
pub proof fn lemma_cases_height_bounds(cases: Seq<ImutComprehensionCase>, upto: int, i: int)
    requires
        0 <= i < upto <= cases.len(),
    ensures
        case_height(cases[i]) <= cases_height(cases, upto),
    decreases upto,
{
    if i < upto - 1 {
        lemma_cases_height_bounds(cases, upto - 1, i);
    }
}

/// A failure on the first `i` cases is the failure on the first `n`.
pub proof fn lemma_cases_fold_error_sticks(cases: Seq<ImutComprehensionCase>, helper: Helper, i: int, n: int)
    requires
        0 <= i <= n <= cases.len(),
        cases_fold_error(cases, helper, i).is_some(),
    ensures
        cases_fold_error(cases, helper, n) == cases_fold_error(cases, helper, i),
    decreases n - i,
{
    if i < n {
        lemma_cases_fold_error_sticks(cases, helper, i, n - 1);
    }
}

/// Cases in each of which nothing is left to compute.
pub proof fn lemma_cases_settled(cases: Seq<ImutComprehensionCase>, upto: int)
    requires
        0 <= upto <= cases.len(),
        forall|i: int| 0 <= i < upto ==> case_settled(#[trigger] cases[i]),
    ensures
        cases_settled(cases, upto),
    decreases upto,
{
    if upto > 0 {
        lemma_cases_settled(cases, upto - 1);
        assert(case_settled(cases[upto - 1]));
    }
}

/// A folded case gives the same as the case it was made from.
pub proof fn lemma_case_same(o: ImutComprehensionCase, c: ImutComprehensionCase, helper: Helper, cx: Cx, depth: nat)
    requires
        case_folded(Ok(o), c, helper),
        agrees(cx, helper),
        depth + case_height(c) <= cx.limit,
    ensures
        case_same(o, c, cx, depth),
{
    let n = c.exprs@.len() as int;
    if c.guard is Some {
        let x = o.guard->Some_0;
        let y = c.guard->Some_0;
        assert(transparent(x, y, helper));
        assert(value_of(x, cx, depth) == value_of(y, cx, depth));
        value_of_is_eval(x, cx, depth);
        value_of_is_eval(y, cx, depth);
    }
    assert forall|i: int| 0 <= i < n implies value_of((#[trigger] o.exprs@[i]).0, cx, depth) == value_of(
        c.exprs@[i].0,
        cx,
        depth,
    ) by {
        lemma_list_height_bounds(c.exprs@, n, i);
        assert(transparent(o.exprs@[i].0, c.exprs@[i].0, helper));
    }
    lemma_values_of_congruent(o.exprs@, c.exprs@, cx, depth, n);
    values_of_is_eval_list(o.exprs@, cx, depth, n);
    values_of_is_eval_list(c.exprs@, cx, depth, n);
}

/// Cases that give the same, one by one, choose the same value.
pub proof fn lemma_case_value_congruent(
    a: Seq<ImutComprehensionCase>,
    b: Seq<ImutComprehensionCase>,
    cx: Cx,
    depth: nat,
    from: int,
)
    requires
        0 <= from,
        a.len() == b.len(),
        forall|i: int| 0 <= i < a.len() ==> case_same(#[trigger] a[i], b[i], cx, depth),
    ensures
        case_value(a, cx, depth, from) == case_value(b, cx, depth, from),
    decreases a.len() - from,
{
    if from < a.len() {
        assert(case_same(a[from], b[from], cx, depth));
        lemma_case_value_congruent(a, b, cx, depth, from + 1);
    }
}

/// Cases that give the same wherever they are read make the same array of
/// the same items.
pub proof fn lemma_gathered_congruent(
    a: Seq<ImutComprehensionCase>,
    b: Seq<ImutComprehensionCase>,
    helper: Helper,
    key_id: usize,
    val_id: usize,
    items: Seq<Item>,
    cx: Cx,
    depth: nat,
    upto: int,
)
    requires
        0 <= upto <= items.len(),
        a.len() == b.len(),
        agrees(cx, helper),
        forall|cx2: Cx, i: int|
            agrees(cx2, helper) && cx2.limit == cx.limit && 0 <= i < a.len() ==> #[trigger] case_same(
                a[i],
                b[i],
                cx2,
                depth,
            ),
    ensures
        gathered(a, key_id, val_id, items, cx, depth, upto) == gathered(
            b,
            key_id,
            val_id,
            items,
            cx,
            depth,
            upto,
        ),
    decreases upto,
{
    if upto > 0 {
        lemma_gathered_congruent(a, b, helper, key_id, val_id, items, cx, depth, upto - 1);
        let inner = at_item(cx, key_id, val_id, items[upto - 1]);
        assert(agrees(inner, helper) && inner.limit == cx.limit);
        assert forall|i: int| 0 <= i < a.len() implies case_same(#[trigger] a[i], b[i], inner, depth) by {}
        lemma_case_value_congruent(a, b, inner, depth, 0);
    }
}

/// Folds the guard and the expressions of one case of a `for`.
fn fold_case(c: ImutComprehensionCase, helper: &Helper) -> (r: Result<ImutComprehensionCase, Error>)
    ensures
        case_folded(r, c, *helper),
    decreases c, 1int,
{
    let ImutComprehensionCase { mid, key_name, value_name, guard, exprs } = c;
    let guard = match guard {
        Some(g) => match fold(g, helper) {
            Ok(f) => Some(f),
            Err(x) => {
                return Err(x);
            },
        },
        None => None,
    };
    match fold_all(exprs, helper) {
        Ok(exprs) => Ok(ImutComprehensionCase { mid, key_name, value_name, guard, exprs }),
        Err(x) => Err(x),
    }
}

/// Folds the cases of a `for`, in order.
fn fold_cases(cases: Vec<ImutComprehensionCase>, helper: &Helper) -> (r: Result<
    Vec<ImutComprehensionCase>,
    Error,
>)
    ensures
        cases_folded(r, cases@, *helper),
    decreases cases@, cases@.len(),
{
    let ghost orig = cases@;
    let mut done: Vec<ImutComprehensionCase> = Vec::new();
    for x in it: cases
        invariant
            orig == it.seq(),
            orig == cases@,
            done@.len() == it.index(),
            cases_fold_error(orig, *helper, it.index() as int).is_none(),
            forall|i: int| 0 <= i < it.index() ==> case_folded(Ok(#[trigger] done@[i]), orig[i], *helper),
    {
        let ghost k = it.index() as int;
        assert(x == orig[k]);
        assert(decreases_to!(cases => cases@[k]));
        match fold_case(x, helper) {
            Ok(f) => {
                done.push(f);
            },
            Err(err) => {
                proof {
                    assert(cases_fold_error(orig, *helper, k + 1) == Some(err));
                    lemma_cases_fold_error_sticks(orig, *helper, k + 1, orig.len() as int);
                }
                return Err(err);
            },
        }
    }
    Ok(done)
}

/// Folds the target and the cases of a `for`; the `for` itself stays.
fn fold_for(c: ImutComprehension, helper: &Helper, Ghost(e): Ghost<ImutExprInt>) -> (r: Result<
    ImutExprInt,
    Error,
>)
    requires
        e == ImutExprInt::Comprehension(Box::new(c)),
    ensures
        folded(r, e, *helper),
    decreases c, 1int,
{
    let ImutComprehension { mid, key_id, val_id, target, cases } = c;
    let ghost t0 = target;
    let ghost cases0 = cases@;
    let target = match fold(target, helper) {
        Ok(f) => f,
        Err(x) => {
            return Err(x);
        },
    };
    let cases = match fold_cases(cases, helper) {
        Ok(done) => done,
        Err(x) => {
            return Err(x);
        },
    };
    let ghost t1 = target;
    let ghost cases1 = cases@;
    let f = ImutExprInt::Comprehension(Box::new(ImutComprehension { mid, key_id, val_id, target, cases }));
    proof {
        let n = cases0.len() as int;
        assert forall|cx: Cx, depth: nat|
            agrees(cx, *helper) && depth + height(e) <= cx.limit implies #[trigger] value_of(f, cx, depth)
            == value_of(e, cx, depth) by {
            assert(value_of(t1, cx, depth + 1) == value_of(t0, cx, depth + 1));
            assert forall|cx2: Cx, i: int|
                agrees(cx2, *helper) && cx2.limit == cx.limit && 0 <= i < n implies #[trigger] case_same(
                cases1[i],
                cases0[i],
                cx2,
                depth + 1,
            ) by {
                lemma_cases_height_bounds(cases0, n, i);
                assert(case_folded(Ok(cases1[i]), cases0[i], *helper));
                lemma_case_same(cases1[i], cases0[i], *helper, cx2, depth + 1);
            }
            value_of_for(e, cx, depth);
            value_of_for(f, cx, depth);
            if value_of(t0, cx, depth + 1) is Ok {
                let items = crate::comprehension::items_of(value_of(t0, cx, depth + 1)->Ok_0);
                lemma_gathered_congruent(
                    cases1,
                    cases0,
                    *helper,
                    key_id,
                    val_id,
                    items,
                    cx,
                    depth + 1,
                    items.len() as int,
                );
            }
        }
        assert(transparent(f, e, *helper));
        assert(fold_error(e, *helper).is_none());
        assert forall|i: int| 0 <= i < n implies case_settled(#[trigger] cases1[i]) by {
            assert(case_folded(Ok(cases1[i]), cases0[i], *helper));
            lemma_all_settled(cases1[i].exprs@, cases1[i].exprs@.len() as int);
        }
        lemma_cases_settled(cases1, n);
        assert(settled(f));
    }
    Ok(f)
}

} // verus!
