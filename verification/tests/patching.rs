use tremor_runtime::ast::meta::NodeMetas;
use tremor_runtime::ast::{
    BinExpr, EventPath, ImutComprehension, ImutComprehensionCase, ImutExpr, ImutExprInt, Literal,
    Merge, Patch, PatchOperation, Path, Segment,
};
use tremor_runtime::comprehension::{count, key_at, value_at};
use tremor_runtime::errors::{BinOpKind, ErrorKind};
use tremor_runtime::interpreter::{eval_expr, Env, EventContext, LocalStack};
use tremor_runtime::merge::merge_values;
use tremor_runtime::patch::{apply_change, Change};
use tremor_runtime::value::{Value, ValueType};

fn record(fields: &[(&str, Value)]) -> Value {
    let mut o = Value::object();
    for (k, v) in fields {
        o.insert(k.to_string(), v.clone());
    }
    o
}

fn literal(v: Value) -> ImutExprInt {
    ImutExprInt::Literal(Literal { mid: 0, value: v })
}

fn name(s: &str) -> ImutExprInt {
    literal(Value::string(s))
}

fn whole_event() -> ImutExprInt {
    ImutExprInt::Path(Path::Event(EventPath { mid: 0, segments: vec![] }))
}

fn event_field(k: &str) -> ImutExprInt {
    ImutExprInt::Path(Path::Event(EventPath {
        mid: 0,
        segments: vec![Segment::Id { key: k.to_string(), mid: 0 }],
    }))
}

fn value_of(e: &ImutExprInt, event: &Value) -> Result<Value, ErrorKind> {
    let context = EventContext { at: 1, origin_uri: None };
    let consts = vec![Value::Null, Value::Null, Value::Null];
    let metas = NodeMetas::new(vec![]);
    let env = Env { context: &context, consts: &consts, meta: &metas, recursion_limit: 64 };
    let state = Value::Null;
    let meta = Value::object();
    eval_expr(e, &env, event, &state, &meta, &LocalStack::with_size(2), 0).map_err(|e| e.kind)
}

fn patch(target: ImutExprInt, operations: Vec<PatchOperation>) -> ImutExprInt {
    ImutExprInt::Patch(Box::new(Patch { mid: 0, target, operations }))
}

#[test]
fn removing_a_field_leaves_the_others() {
    let mut r = record(&[("a", Value::I64(1)), ("b", Value::I64(2)), ("c", Value::I64(3))]);
    assert_eq!(r.remove("b"), Some(Value::I64(2)));
    assert_eq!(r, record(&[("a", Value::I64(1)), ("c", Value::I64(3))]));
    assert_eq!(r.remove("b"), None);
    assert_eq!(r, record(&[("a", Value::I64(1)), ("c", Value::I64(3))]));
    let mut n = Value::I64(4);
    assert_eq!(n.remove("a"), None);
    assert_eq!(n, Value::I64(4));
}

#[test]
fn merging_adds_replaces_and_removes() {
    let target = record(&[
        ("keep", Value::I64(1)),
        ("replace", Value::I64(2)),
        ("gone", Value::I64(3)),
    ]);
    let with = record(&[
        ("replace", Value::string("new")),
        ("gone", Value::Null),
        ("added", Value::Bool(true)),
    ]);
    let merged = merge_values(target, &with);
    assert_eq!(
        merged,
        record(&[
            ("keep", Value::I64(1)),
            ("replace", Value::string("new")),
            ("added", Value::Bool(true)),
        ])
    );
}

#[test]
fn merging_goes_into_nested_records() {
    let target = record(&[(
        "inner",
        record(&[("a", Value::I64(1)), ("b", Value::I64(2))]),
    )]);
    let with = record(&[("inner", record(&[("b", Value::Null), ("c", Value::I64(3))]))]);
    assert_eq!(
        merge_values(target, &with),
        record(&[("inner", record(&[("a", Value::I64(1)), ("c", Value::I64(3))]))])
    );
}

#[test]
fn merging_what_is_no_record_replaces() {
    assert_eq!(merge_values(Value::I64(1), &Value::string("x")), Value::string("x"));
    let r = record(&[("a", Value::I64(1))]);
    assert_eq!(merge_values(Value::I64(1), &r), r);
    assert_eq!(merge_values(record(&[("a", Value::I64(1))]), &Value::I64(5)), Value::I64(5));
    // a record under a name gives way to a plain value
    let target = record(&[("a", record(&[("b", Value::I64(1))]))]);
    let with = record(&[("a", Value::I64(9))]);
    assert_eq!(merge_values(target, &with), record(&[("a", Value::I64(9))]));
}

#[test]
fn merge_expressions_need_two_records() {
    let event = record(&[("a", Value::I64(1)), ("n", Value::I64(7))]);
    let with = literal(record(&[("b", Value::I64(2))]));
    let good = ImutExprInt::Merge(Box::new(Merge { mid: 0, target: whole_event(), expr: with }));
    assert_eq!(
        value_of(&good, &event),
        Ok(record(&[("a", Value::I64(1)), ("n", Value::I64(7)), ("b", Value::I64(2))]))
    );
    let bad_target = ImutExprInt::Merge(Box::new(Merge {
        mid: 0,
        target: event_field("n"),
        expr: literal(Value::object()),
    }));
    assert_eq!(
        value_of(&bad_target, &event),
        Err(ErrorKind::TypeError(ValueType::Object, ValueType::I64))
    );
    let bad_with = ImutExprInt::Merge(Box::new(Merge {
        mid: 0,
        target: whole_event(),
        expr: literal(Value::string("x")),
    }));
    assert_eq!(
        value_of(&bad_with, &event),
        Err(ErrorKind::TypeError(ValueType::Object, ValueType::String))
    );
    // the target is looked at before the other expression is evaluated
    let both_bad = ImutExprInt::Merge(Box::new(Merge {
        mid: 0,
        target: event_field("n"),
        expr: event_field("missing"),
    }));
    assert_eq!(
        value_of(&both_bad, &event),
        Err(ErrorKind::TypeError(ValueType::Object, ValueType::I64))
    );
}

#[test]
fn changes_are_made_or_refused() {
    let base = || record(&[("a", Value::I64(1)), ("r", record(&[("x", Value::I64(1))]))]);
    assert_eq!(
        apply_change(base(), Change::Insert { key: "b".to_string(), value: Value::I64(2) }),
        Ok(record(&[
            ("a", Value::I64(1)),
            ("r", record(&[("x", Value::I64(1))])),
            ("b", Value::I64(2)),
        ]))
    );
    assert_eq!(
        apply_change(base(), Change::Insert { key: "a".to_string(), value: Value::I64(2) }),
        Err(ErrorKind::PatchKeyExists)
    );
    assert_eq!(
        apply_change(base(), Change::Upsert { key: "a".to_string(), value: Value::I64(2) }),
        Ok(record(&[("a", Value::I64(2)), ("r", record(&[("x", Value::I64(1))]))]))
    );
    assert_eq!(
        apply_change(base(), Change::Update { key: "a".to_string(), value: Value::I64(3) }),
        Ok(record(&[("a", Value::I64(3)), ("r", record(&[("x", Value::I64(1))]))]))
    );
    assert_eq!(
        apply_change(base(), Change::Update { key: "z".to_string(), value: Value::I64(3) }),
        Err(ErrorKind::UpdateKeyMissing)
    );
    assert_eq!(
        apply_change(base(), Change::Erase { key: "a".to_string() }),
        Ok(record(&[("r", record(&[("x", Value::I64(1))]))]))
    );
    assert_eq!(apply_change(base(), Change::Erase { key: "z".to_string() }), Ok(base()));
    assert_eq!(
        apply_change(base(), Change::Copy { from: "a".to_string(), to: "b".to_string() }),
        Ok(record(&[
            ("a", Value::I64(1)),
            ("r", record(&[("x", Value::I64(1))])),
            ("b", Value::I64(1)),
        ]))
    );
    assert_eq!(
        apply_change(base(), Change::Copy { from: "a".to_string(), to: "r".to_string() }),
        Err(ErrorKind::PatchKeyExists)
    );
    assert_eq!(
        apply_change(base(), Change::Copy { from: "z".to_string(), to: "b".to_string() }),
        Ok(base())
    );
    assert_eq!(
        apply_change(base(), Change::Move { from: "a".to_string(), to: "b".to_string() }),
        Ok(record(&[("r", record(&[("x", Value::I64(1))])), ("b", Value::I64(1))]))
    );
    assert_eq!(
        apply_change(base(), Change::Move { from: "a".to_string(), to: "r".to_string() }),
        Err(ErrorKind::PatchKeyExists)
    );
    assert_eq!(
        apply_change(
            base(),
            Change::Merge { key: "r".to_string(), value: record(&[("y", Value::I64(2))]) }
        ),
        Ok(record(&[
            ("a", Value::I64(1)),
            ("r", record(&[("x", Value::I64(1)), ("y", Value::I64(2))])),
        ]))
    );
    assert_eq!(
        apply_change(
            base(),
            Change::Merge { key: "a".to_string(), value: record(&[("y", Value::I64(2))]) }
        ),
        Err(ErrorKind::MergeTypeConflict(ValueType::I64))
    );
    assert_eq!(
        apply_change(
            base(),
            Change::Merge { key: "new".to_string(), value: record(&[("y", Value::I64(2))]) }
        ),
        Ok(record(&[
            ("a", Value::I64(1)),
            ("r", record(&[("x", Value::I64(1))])),
            ("new", record(&[("y", Value::I64(2))])),
        ]))
    );
    assert_eq!(
        apply_change(base(), Change::TupleMerge { value: record(&[("a", Value::Null)]) }),
        Ok(record(&[("r", record(&[("x", Value::I64(1))]))]))
    );
}

#[test]
fn patches_make_their_changes_in_order() {
    let event = record(&[("a", Value::I64(1)), ("b", Value::I64(2))]);
    let p = patch(
        whole_event(),
        vec![
            PatchOperation::Insert { ident: name("c"), expr: event_field("a") },
            PatchOperation::Move { from: name("b"), to: name("d") },
            PatchOperation::Erase { ident: name("a") },
            PatchOperation::Update { ident: name("c"), expr: literal(Value::I64(10)) },
        ],
    );
    assert_eq!(
        value_of(&p, &event),
        Ok(record(&[("c", Value::I64(10)), ("d", Value::I64(2))]))
    );
    // the event itself is read by every operation as it was
    assert_eq!(event, record(&[("a", Value::I64(1)), ("b", Value::I64(2))]));
    // no operation: any value passes
    assert_eq!(value_of(&patch(event_field("a"), vec![]), &event), Ok(Value::I64(1)));
}

#[test]
fn patches_fail_at_the_first_failure() {
    let event = record(&[("a", Value::I64(1)), ("b", Value::I64(2))]);
    let exists = patch(
        whole_event(),
        vec![
            PatchOperation::Insert { ident: name("a"), expr: literal(Value::I64(0)) },
            PatchOperation::Update { ident: name("zz"), expr: literal(Value::I64(0)) },
        ],
    );
    assert_eq!(value_of(&exists, &event), Err(ErrorKind::PatchKeyExists));
    let missing = patch(
        whole_event(),
        vec![PatchOperation::Update { ident: name("zz"), expr: literal(Value::I64(0)) }],
    );
    assert_eq!(value_of(&missing, &event), Err(ErrorKind::UpdateKeyMissing));
    let no_record = patch(
        event_field("a"),
        vec![PatchOperation::Erase { ident: name("x") }],
    );
    assert_eq!(
        value_of(&no_record, &event),
        Err(ErrorKind::TypeError(ValueType::Object, ValueType::I64))
    );
    let no_name = patch(
        whole_event(),
        vec![PatchOperation::Upsert { ident: literal(Value::I64(3)), expr: event_field("nope") }],
    );
    assert_eq!(
        value_of(&no_name, &event),
        Err(ErrorKind::TypeError(ValueType::String, ValueType::I64))
    );
    let bad_value = patch(
        whole_event(),
        vec![PatchOperation::Upsert { ident: name("x"), expr: event_field("nope") }],
    );
    assert_eq!(value_of(&bad_value, &event), Err(ErrorKind::BadAccess));
    let conflict = patch(
        whole_event(),
        vec![PatchOperation::Merge { ident: name("a"), expr: literal(Value::object()) }],
    );
    assert_eq!(value_of(&conflict, &event), Err(ErrorKind::MergeTypeConflict(ValueType::I64)));
    // a merge of what is no record replaces the value; the next operation then has no record
    let replaced = patch(
        whole_event(),
        vec![
            PatchOperation::TupleMerge { expr: literal(Value::I64(5)) },
            PatchOperation::Erase { ident: name("a") },
        ],
    );
    assert_eq!(
        value_of(&replaced, &event),
        Err(ErrorKind::TypeError(ValueType::Object, ValueType::I64))
    );
}

fn variable(idx: usize) -> ImutExprInt {
    ImutExprInt::Local { idx, mid: 0, is_const: false }
}

fn binary(kind: BinOpKind, lhs: ImutExprInt, rhs: ImutExprInt) -> ImutExprInt {
    ImutExprInt::Binary(Box::new(BinExpr { mid: 0, kind, lhs, rhs }))
}

fn case(guard: Option<ImutExprInt>, exprs: Vec<ImutExprInt>) -> ImutComprehensionCase {
    ImutComprehensionCase {
        mid: 0,
        key_name: "k".to_string(),
        value_name: "v".to_string(),
        guard,
        exprs: exprs.into_iter().map(ImutExpr).collect(),
    }
}

fn each(target: ImutExprInt, cases: Vec<ImutComprehensionCase>) -> ImutExprInt {
    ImutExprInt::Comprehension(Box::new(ImutComprehension {
        mid: 0,
        key_id: 0,
        val_id: 1,
        target,
        cases,
    }))
}

#[test]
fn items_are_fields_by_name_and_elements_by_place() {
    let r = record(&[("a", Value::I64(1)), ("b", Value::Bool(true))]);
    assert_eq!(count(&r), 2);
    assert_eq!(key_at(&r, 1), Value::string("b"));
    assert_eq!(value_at(&r, 1), Value::Bool(true));
    let a = Value::Array(vec![Value::string("x"), Value::string("y"), Value::string("z")]);
    assert_eq!(count(&a), 3);
    assert_eq!(key_at(&a, 2), Value::I64(2));
    assert_eq!(value_at(&a, 2), Value::string("z"));
    assert_eq!(count(&Value::I64(3)), 0);
    assert_eq!(count(&Value::Null), 0);
}

#[test]
fn a_for_maps_the_elements_of_an_array() {
    let event = record(&[(
        "xs",
        Value::Array(vec![Value::I64(1), Value::I64(5), Value::I64(10)]),
    )]);
    // for event.xs of case (k, v) when v > 3 => v * 2  case (k, v) => k end
    let e = each(
        event_field("xs"),
        vec![
            case(
                Some(binary(BinOpKind::Gt, variable(1), literal(Value::I64(3)))),
                vec![binary(BinOpKind::Mul, variable(1), literal(Value::I64(2)))],
            ),
            case(None, vec![variable(0)]),
        ],
    );
    assert_eq!(
        value_of(&e, &event),
        Ok(Value::Array(vec![Value::I64(0), Value::I64(10), Value::I64(20)]))
    );
}

#[test]
fn a_for_skips_items_that_no_case_takes() {
    let event = record(&[("a", Value::I64(1)), ("b", Value::I64(2)), ("c", Value::I64(3))]);
    // for event of case (k, v) when v != 2 => k end
    let e = each(
        whole_event(),
        vec![case(
            Some(binary(BinOpKind::NotEq, variable(1), literal(Value::I64(2)))),
            vec![literal(Value::Null), variable(0)],
        )],
    );
    assert_eq!(
        value_of(&e, &event),
        Ok(Value::Array(vec![Value::string("a"), Value::string("c")]))
    );
    // no case at all, and a target without items
    assert_eq!(value_of(&each(whole_event(), vec![]), &event), Ok(Value::Array(vec![])));
    assert_eq!(
        value_of(&each(event_field("a"), vec![case(None, vec![variable(1)])]), &event),
        Ok(Value::Array(vec![]))
    );
}

#[test]
fn a_for_fails_at_the_first_failure() {
    let event = record(&[("xs", Value::Array(vec![Value::I64(1), Value::string("two")]))]);
    let e = each(
        event_field("xs"),
        vec![case(None, vec![binary(BinOpKind::Add, variable(1), literal(Value::I64(1)))])],
    );
    assert_eq!(
        value_of(&e, &event),
        Err(ErrorKind::InvalidBinary(BinOpKind::Add, ValueType::String, ValueType::I64))
    );
    let missing = each(event_field("nope"), vec![]);
    assert_eq!(value_of(&missing, &event), Err(ErrorKind::BadAccess));
}
