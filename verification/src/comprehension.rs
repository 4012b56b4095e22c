//! The `for` expression: an array made from the items of a record or of an
//! array.

use vstd::prelude::*;
use crate::ast::{ImutComprehension, ImutComprehensionCase};
use crate::errors::Error;
use crate::interpreter::{
    bind, bind_local, cx_of, eval, eval_expr, eval_exprs, eval_list, gives, guard_passes, last_value,
    take_last, test_guard, Cx, Env, LocalStack,
};
use crate::value::{items_view, lemma_array_view, lemma_object_view, Data, Value};

verus! {

/// One item that a `for` goes over: its name or its place, and its value.
pub struct Item {
    pub key: Data,
    pub value: Data,
}

/// The place `i` as a value; places past the largest integer count as the
/// largest.
pub open spec fn place_key(i: int) -> Data {
    if i <= i64::MAX {
        Data::I64(i)
    } else {
        Data::I64(i64::MAX as int)
    }
}

/// The items of a value: the fields of a record by their names, the
/// elements of an array by their places, in the order in which they stand;
/// any other value has none.
pub open spec fn items_of(target: Data) -> Seq<Item> {
    match target {
        Data::Object(fields) => Seq::new(
            fields.len(),
            |i: int| Item { key: Data::String(fields[i].name), value: fields[i].value },
        ),
        Data::Array(values) => Seq::new(values.len(), |i: int| Item { key: place_key(i), value: values[i] }),
        _ => Seq::empty(),
    }
}

/// What the cases from `from` on give: the value of the last expression of
/// the first case whose guard passes; nothing where no guard passes.
pub open spec fn case_value(cases: Seq<ImutComprehensionCase>, cx: Cx, depth: nat, from: int) -> Option<
    Result<Data, Error>,
>
    decreases cases, cases.len() - from,
{
    if from < 0 || from >= cases.len() {
        None
    } else {
        match guard_passes(cases[from].guard, cx, depth) {
            Err(e) => Some(Err(e)),
            Ok(true) => match eval_list(
                cases[from].exprs@,
                cx,
                depth,
                cases[from].exprs@.len() as int,
            ) {
                Err(e) => Some(Err(e)),
                Ok(values) => Some(Ok(last_value(values))),
            },
            Ok(false) => case_value(cases, cx, depth, from + 1),
        }
    }
}

/// What an expression inside a `for` can read while it is at `item`.
pub open spec fn at_item(cx: Cx, key_id: usize, val_id: usize, item: Item) -> Cx {
    Cx { locals: bind(bind(cx.locals, key_id, item.key), val_id, item.value), ..cx }
}

/// What the first `upto` items give, in order: an item for which no guard
/// passes gives nothing; the first failure ends the `for`.
pub open spec fn gathered(
    cases: Seq<ImutComprehensionCase>,
    key_id: usize,
    val_id: usize,
    items: Seq<Item>,
    cx: Cx,
    depth: nat,
    upto: int,
) -> Result<Seq<Data>, Error>
    decreases cases, cases.len() + 1 + upto,
{
    if upto <= 0 || upto > items.len() {
        Ok(Seq::empty())
    } else {
        match gathered(cases, key_id, val_id, items, cx, depth, upto - 1) {
            Err(e) => Err(e),
            Ok(sofar) => match case_value(cases, at_item(cx, key_id, val_id, items[upto - 1]), depth, 0) {
                None => Ok(sofar),
                Some(Err(e)) => Err(e),
                Some(Ok(v)) => Ok(sofar.push(v)),
            },
        }
    }
}

/// The value of a `for`: the target is evaluated, then its items are gone
/// through in order.
pub open spec fn eval_comprehension(c: ImutComprehension, cx: Cx, depth: nat) -> Result<Data, Error>
    decreases c, 1int,
{
    match eval(c.target, cx, depth + 1) {
        Err(e) => Err(e),
        Ok(target) => match gathered(
            c.cases@,
            c.key_id,
            c.val_id,
            items_of(target),
            cx,
            depth + 1,
            items_of(target).len() as int,
        ) {
            Err(e) => Err(e),
            Ok(values) => Ok(Data::Array(values)),
        },
    }
}

/// A `for` that has failed after `i` items has failed after `n`.
pub proof fn lemma_gather_sticks(
    cases: Seq<ImutComprehensionCase>,
    key_id: usize,
    val_id: usize,
    items: Seq<Item>,
    cx: Cx,
    depth: nat,
    i: int,
    n: int,
)
    requires
        0 <= i <= n <= items.len(),
        gathered(cases, key_id, val_id, items, cx, depth, i) is Err,
    ensures
        gathered(cases, key_id, val_id, items, cx, depth, n) == gathered(
            cases,
            key_id,
            val_id,
            items,
            cx,
            depth,
            i,
        ),
    decreases n - i,
{
    if i < n {
        lemma_gather_sticks(cases, key_id, val_id, items, cx, depth, i, n - 1);
    }
}

/// How many items a value has.
pub fn count(target: &Value) -> (r: usize)
    ensures
        r == items_of(target@).len(),
{
    match target {
        Value::Object(fields) => {
            proof {
                lemma_object_view(*fields);
            }
            fields.len()
        },
        Value::Array(values) => {
            proof {
                lemma_array_view(*values);
            }
            values.len()
        },
        _ => 0,
    }
}

/// The place `i` as a value.
fn place(i: usize) -> (r: Value)
    ensures
        r@ == place_key(i as int),
{
    let wide: u64 = i as u64;
    if wide <= 0x7fff_ffff_ffff_ffffu64 {
        Value::I64(wide as i64)
    } else {
        Value::I64(i64::MAX)
    }
}

/// The name, or the place, of the item at `i`.
pub fn key_at(target: &Value, i: usize) -> (r: Value)
    requires
        i < items_of(target@).len(),
    ensures
        r@ == items_of(target@)[i as int].key,
{
    match target {
        Value::Object(fields) => {
            proof {
                lemma_object_view(*fields);
            }
            Value::String(fields[i].0.clone())
        },
        Value::Array(values) => {
            proof {
                lemma_array_view(*values);
            }
            place(i)
        },
        _ => Value::Null,
    }
}

/// The value of the item at `i`.
pub fn value_at(target: &Value, i: usize) -> (r: Value)
    requires
        i < items_of(target@).len(),
    ensures
        r@ == items_of(target@)[i as int].value,
{
    match target {
        Value::Object(fields) => {
            proof {
                lemma_object_view(*fields);
            }
            fields[i].1.clone()
        },
        Value::Array(values) => {
            proof {
                lemma_array_view(*values);
            }
            values[i].clone()
        },
        _ => Value::Null,
    }
}

/// Whether `r` is what the cases give.
pub open spec fn chosen(r: Option<Result<Value, Error>>, spec: Option<Result<Data, Error>>) -> bool {
    match r {
        None => spec.is_none(),
        Some(x) => spec.is_some() && gives(x, spec.unwrap()),
    }
}

/// Finds the first case whose guard passes and evaluates it.
pub fn first_case(
    cases: &Vec<ImutComprehensionCase>,
    env: &Env,
    event: &Value,
    state: &Value,
    meta: &Value,
    local: &LocalStack,
    depth: u64,
) -> (r: Option<Result<Value, Error>>)
    requires
        depth <= env.recursion_limit + 1,
    ensures
        chosen(r, case_value(cases@, cx_of(*env, event@, state@, meta@, local@), depth as nat, 0)),
    decreases cases@, cases@.len(),
{
    let ghost cx = cx_of(*env, event@, state@, meta@, local@);
    let mut i: usize = 0;
    while i < cases.len()
        invariant
            i <= cases.len(),
            depth <= env.recursion_limit + 1,
            cx == cx_of(*env, event@, state@, meta@, local@),
            case_value(cases@, cx, depth as nat, 0) == case_value(cases@, cx, depth as nat, i as int),
        decreases cases.len() - i,
    {
        assert(decreases_to!(*cases => cases@[i as int]));
        match test_guard(&cases[i].guard, env, event, state, meta, local, depth) {
            Err(e) => {
                return Some(Err(e));
            },
            Ok(true) => {
                return match eval_exprs(&cases[i].exprs, env, event, state, meta, local, depth) {
                    Ok(values) => Some(Ok(take_last(values))),
                    Err(e) => Some(Err(e)),
                };
            },
            Ok(false) => {},
        }
        i += 1;
    }
    None
}

/// Evaluates a `for` that stands `depth` levels down.
pub fn comprehension_expr(
    c: &ImutComprehension,
    env: &Env,
    event: &Value,
    state: &Value,
    meta: &Value,
    local: &LocalStack,
    depth: u64,
) -> (r: Result<Value, Error>)
    requires
        depth <= env.recursion_limit,
    ensures
        gives(r, eval_comprehension(*c, cx_of(*env, event@, state@, meta@, local@), depth as nat)),
    decreases *c, 1int,
{
    let ghost cx = cx_of(*env, event@, state@, meta@, local@);
    let target = match eval_expr(&c.target, env, event, state, meta, local, depth + 1) {
        Ok(v) => v,
        Err(e) => {
            return Err(e);
        },
    };
    let ghost items = items_of(target@);
    let n = count(&target);
    let mut out: Vec<Value> = Vec::new();
    let mut i: usize = 0;
    assert(items_view(out@) =~= Seq::<Data>::empty());
    while i < n
        invariant
            i <= n,
            n == items.len(),
            items == items_of(target@),
            depth <= env.recursion_limit,
            cx == cx_of(*env, event@, state@, meta@, local@),
            eval(c.target, cx, depth as nat + 1) == Ok::<Data, Error>(target@),
            gathered(c.cases@, c.key_id, c.val_id, items, cx, depth as nat + 1, i as int) == Ok::<
                Seq<Data>,
                Error,
            >(items_view(out@)),
        decreases n - i,
    {
        let mut inner = local.clone();
        bind_local(&mut inner, c.key_id, key_at(&target, i));
        bind_local(&mut inner, c.val_id, value_at(&target, i));
        assert(cx_of(*env, event@, state@, meta@, inner@) == at_item(
            cx,
            c.key_id,
            c.val_id,
            items[i as int],
        ));
        let ghost sofar = items_view(out@);
        match first_case(&c.cases, env, event, state, meta, &inner, depth + 1) {
            None => {},
            Some(Ok(v)) => {
                out.push(v);
                assert(items_view(out@) =~= sofar.push(v@));
            },
            Some(Err(e)) => {
                proof {
                    assert(gathered(c.cases@, c.key_id, c.val_id, items, cx, depth as nat + 1, i + 1)
                        == Err::<Seq<Data>, Error>(e));
                    lemma_gather_sticks(
                        c.cases@,
                        c.key_id,
                        c.val_id,
                        items,
                        cx,
                        depth as nat + 1,
                        i + 1,
                        n as int,
                    );
                }
                return Err(e);
            },
        }
        i += 1;
    }
    proof {
        lemma_array_view(out);
    }
    Ok(Value::Array(out))
}

} // verus!
