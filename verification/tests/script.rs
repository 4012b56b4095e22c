use tremor_runtime::ast::docs::Docs;
use tremor_runtime::ast::fold::fold;
use tremor_runtime::ast::reduce::reduce2;
use tremor_runtime::ast::helper::Helper;
use tremor_runtime::ast::meta::{CompilationUnit, NodeMetas};
use tremor_runtime::ast::{
    ArrayPattern, ArrayPredicatePattern, AssignPattern, BinExpr, EmitExpr, EventPath, Expr, Field,
    ImutComprehension, ImutComprehensionCase, ImutExpr, ImutExprInt, ImutMatch,
    ImutPredicateClause, Invocable, Invoke, List, Literal,
    LocalPath, Match, Merge, MetadataPath, Patch, PatchOperation, Path, Pattern, PredicateClause,
    PredicatePattern, Record, RecordPattern, Segment, StatePath, TestExpr, TuplePattern, UnaryExpr,
};
use tremor_runtime::errors::{BinOpKind, ErrorKind, UnaryOpKind};
use tremor_runtime::interpreter::{
    eval_expr, exec_binary, exec_unary, Env, EventContext, LocalStack,
};
use tremor_runtime::pos::{Location, Range};
use tremor_runtime::registry::{CustomFn, FunctionError, Intrinsic, Registry, TremorFnWrapper};
use tremor_runtime::script::{AggrType, Return, Script};
use tremor_runtime::tilde::{chars_of, glob_match, Extractor};
use tremor_runtime::value::{Value, ValueType};

fn lit(v: Value) -> ImutExprInt {
    ImutExprInt::Literal(Literal { mid: 0, value: v })
}

fn num(i: i64) -> ImutExprInt {
    lit(Value::I64(i))
}

fn text(s: &str) -> ImutExprInt {
    lit(Value::string(s))
}

fn bin(kind: BinOpKind, lhs: ImutExprInt, rhs: ImutExprInt) -> ImutExprInt {
    ImutExprInt::Binary(Box::new(BinExpr { mid: 0, kind, lhs, rhs }))
}

fn un(kind: UnaryOpKind, expr: ImutExprInt) -> ImutExprInt {
    ImutExprInt::Unary(Box::new(UnaryExpr { mid: 0, kind, expr }))
}

fn key(k: &str) -> Segment {
    Segment::Id { key: k.to_string(), mid: 0 }
}

fn event_path(keys: &[&str]) -> Path {
    Path::Event(EventPath { mid: 0, segments: keys.iter().map(|k| key(k)).collect() })
}

fn event_at(keys: &[&str]) -> ImutExprInt {
    ImutExprInt::Path(event_path(keys))
}

fn local(idx: usize) -> ImutExprInt {
    ImutExprInt::Local { idx, mid: 0, is_const: false }
}

fn object(fields: &[(&str, Value)]) -> Value {
    let mut o = Value::object();
    for (k, v) in fields {
        o.insert(k.to_string(), clone(v));
    }
    o
}

fn clone(v: &Value) -> Value {
    v.clone()
}

fn script(exprs: Vec<Expr>, locals: usize) -> Script {
    Script {
        imports: vec![],
        exprs,
        consts: vec![Value::Null, Value::Null, Value::Null],
        aggregates: vec![],
        functions: vec![],
        locals,
        node_meta: NodeMetas::new(vec![]),
        docs: Docs::default(),
        recursion_limit: 1024,
    }
}

fn run(s: &Script, event: &mut Value) -> Result<Return, ErrorKind> {
    let context = EventContext { at: 42, origin_uri: None };
    let mut state = Value::Null;
    let mut meta = Value::object();
    s.run(&context, AggrType::Emit, event, &mut state, &mut meta).map_err(|e| e.kind)
}

fn eval(e: &ImutExprInt, event: &Value) -> Result<Value, ErrorKind> {
    eval_with(e, event, &LocalStack::with_size(4), 1024)
}

fn eval_with(
    e: &ImutExprInt,
    event: &Value,
    local: &LocalStack,
    limit: u32,
) -> Result<Value, ErrorKind> {
    let context = EventContext { at: 42, origin_uri: None };
    let consts = vec![Value::Null, Value::Null, Value::Null, Value::I64(7)];
    let metas = NodeMetas::new(vec![]);
    let env = Env { context: &context, consts: &consts, meta: &metas, recursion_limit: limit };
    let state = object(&[("count", Value::I64(3))]);
    let meta = object(&[("kind", Value::string("test"))]);
    eval_expr(e, &env, event, &state, &meta, local, 0).map_err(|e| e.kind)
}

/// match event of case %{a > 5} => event.a + 1 default => emit end
fn guarded_increment() -> Script {
    let first = PredicateClause {
        mid: 0,
        pattern: Pattern::Record(RecordPattern {
            mid: 0,
            fields: vec![PredicatePattern::Bin {
                lhs: "a".to_string(),
                key: "a".to_string(),
                rhs: num(5),
                kind: BinOpKind::Gt,
            }],
        }),
        guard: None,
        exprs: vec![Expr::Imut(bin(BinOpKind::Add, event_at(&["a"]), num(1)))],
    };
    let second = PredicateClause {
        mid: 0,
        pattern: Pattern::Default,
        guard: None,
        exprs: vec![Expr::Emit(Box::new(EmitExpr { mid: 0, expr: event_at(&[]), port: None }))],
    };
    script(
        vec![Expr::Match(Box::new(Match {
            mid: 0,
            target: event_at(&[]),
            patterns: vec![first, second],
        }))],
        0,
    )
}

#[test]
fn match_emits_the_incremented_value() {
    let s = guarded_increment();
    let mut event = object(&[("a", Value::I64(10))]);
    assert_eq!(run(&s, &mut event), Ok(Return::Emit { value: Value::I64(11), port: None }));
    assert_eq!(event, object(&[("a", Value::I64(10))]));
}

#[test]
fn match_default_passes_the_event_through() {
    let s = guarded_increment();
    let mut event = object(&[("a", Value::I64(1))]);
    assert_eq!(run(&s, &mut event), Ok(Return::EmitEvent { port: None }));
    assert_eq!(event, object(&[("a", Value::I64(1))]));
}

#[test]
fn match_without_a_hit_fails_with_no_clause_hit() {
    let clause = PredicateClause {
        mid: 0,
        pattern: Pattern::Expr(num(1)),
        guard: None,
        exprs: vec![Expr::Drop { mid: 0 }],
    };
    let s = script(
        vec![Expr::Match(Box::new(Match { mid: 0, target: event_at(&[]), patterns: vec![clause] }))],
        0,
    );
    let mut event = Value::I64(2);
    assert_eq!(run(&s, &mut event), Err(ErrorKind::NoClauseHit));
    let mut event = Value::I64(1);
    assert_eq!(run(&s, &mut event), Ok(Return::Drop));
}

#[test]
fn pattern_on_a_field_of_the_wrong_type_is_a_type_error_not_a_miss() {
    let s = guarded_increment();
    let mut event = object(&[("a", Value::string("ten"))]);
    assert_eq!(
        run(&s, &mut event),
        Err(ErrorKind::InvalidBinary(BinOpKind::Gt, ValueType::String, ValueType::I64))
    );
}

#[test]
fn first_matching_clause_wins() {
    let clause = |v: i64| ImutPredicateClause {
        mid: 0,
        pattern: Pattern::DoNotCare,
        guard: None,
        exprs: vec![ImutExpr(num(v))],
    };
    let m = ImutExprInt::Match(Box::new(ImutMatch {
        mid: 0,
        target: num(0),
        patterns: vec![clause(1), clause(2), clause(3)],
    }));
    assert_eq!(eval(&m, &Value::Null), Ok(Value::I64(1)));
    // the same match gives the same every time
    assert_eq!(eval(&m, &Value::Null), Ok(Value::I64(1)));
}

#[test]
fn guard_decides_between_clauses_that_fit() {
    let clause = |guard: Option<ImutExprInt>, v: i64| ImutPredicateClause {
        mid: 0,
        pattern: Pattern::Assign(AssignPattern {
            id: "x".to_string(),
            idx: 0,
            pattern: Box::new(Pattern::DoNotCare),
        }),
        guard,
        exprs: vec![ImutExpr(bin(BinOpKind::Add, local(0), num(v)))],
    };
    let m = ImutExprInt::Match(Box::new(ImutMatch {
        mid: 0,
        target: event_at(&[]),
        patterns: vec![
            clause(Some(bin(BinOpKind::Gt, local(0), num(10))), 100),
            clause(Some(lit(Value::string("true"))), 200),
            clause(None, 300),
        ],
    }));
    assert_eq!(eval(&m, &Value::I64(11)), Ok(Value::I64(111)));
    // a guard that is not the boolean true does not let the clause through
    assert_eq!(eval(&m, &Value::I64(5)), Ok(Value::I64(305)));
}

#[test]
fn binding_of_an_expression_match_does_not_outlive_the_clause() {
    let m = ImutExprInt::Match(Box::new(ImutMatch {
        mid: 0,
        target: num(5),
        patterns: vec![ImutPredicateClause {
            mid: 0,
            pattern: Pattern::Assign(AssignPattern {
                id: "x".to_string(),
                idx: 1,
                pattern: Box::new(Pattern::DoNotCare),
            }),
            guard: None,
            exprs: vec![ImutExpr(local(1))],
        }],
    }));
    let locals = LocalStack::with_size(2);
    assert_eq!(eval_with(&m, &Value::Null, &locals, 8), Ok(Value::I64(5)));
    assert_eq!(locals, LocalStack::with_size(2));
}

#[test]
fn array_and_tuple_patterns() {
    let tests = || vec![ArrayPredicatePattern::Expr(num(1)), ArrayPredicatePattern::Ignore];
    let clause = |pattern: Pattern, v: i64| ImutPredicateClause {
        mid: 0,
        pattern,
        guard: None,
        exprs: vec![ImutExpr(num(v))],
    };
    let m = ImutExprInt::Match(Box::new(ImutMatch {
        mid: 0,
        target: event_at(&[]),
        patterns: vec![
            clause(Pattern::Array(ArrayPattern { mid: 0, exprs: tests() }), 1),
            clause(Pattern::Tuple(TuplePattern { mid: 0, exprs: tests(), open: true }), 2),
            clause(Pattern::Default, 3),
        ],
    }));
    let arr = |items: &[i64]| Value::Array(items.iter().map(|i| Value::I64(*i)).collect());
    assert_eq!(eval(&m, &arr(&[1, 9])), Ok(Value::I64(1)));
    assert_eq!(eval(&m, &arr(&[1, 9, 9])), Ok(Value::I64(2)));
    assert_eq!(eval(&m, &arr(&[2, 9])), Ok(Value::I64(3)));
    assert_eq!(eval(&m, &arr(&[1])), Ok(Value::I64(3)));
    assert_eq!(eval(&m, &Value::I64(1)), Ok(Value::I64(3)));
}

#[test]
fn record_pattern_tests_presence_absence_and_nesting() {
    let pattern = Pattern::Record(RecordPattern {
        mid: 0,
        fields: vec![
            PredicatePattern::FieldPresent { lhs: "a".to_string(), key: "a".to_string() },
            PredicatePattern::FieldAbsent { lhs: "b".to_string(), key: "b".to_string() },
            PredicatePattern::RecordPatternEq {
                lhs: "c".to_string(),
                key: "c".to_string(),
                pattern: RecordPattern {
                    mid: 0,
                    fields: vec![PredicatePattern::Bin {
                        lhs: "d".to_string(),
                        key: "d".to_string(),
                        rhs: num(1),
                        kind: BinOpKind::Eq,
                    }],
                },
            },
            PredicatePattern::ArrayPatternEq {
                lhs: "e".to_string(),
                key: "e".to_string(),
                pattern: ArrayPattern { mid: 0, exprs: vec![ArrayPredicatePattern::Expr(num(2))] },
            },
        ],
    });
    let m = ImutExprInt::Match(Box::new(ImutMatch {
        mid: 0,
        target: event_at(&[]),
        patterns: vec![
            ImutPredicateClause { mid: 0, pattern, guard: None, exprs: vec![ImutExpr(num(1))] },
            ImutPredicateClause {
                mid: 0,
                pattern: Pattern::Default,
                guard: None,
                exprs: vec![ImutExpr(num(0))],
            },
        ],
    }));
    let fits = object(&[
        ("a", Value::Null),
        ("c", object(&[("d", Value::I64(1))])),
        ("e", Value::Array(vec![Value::I64(2)])),
    ]);
    assert_eq!(eval(&m, &fits), Ok(Value::I64(1)));
    let with_b = object(&[
        ("a", Value::Null),
        ("b", Value::Null),
        ("c", object(&[("d", Value::I64(1))])),
        ("e", Value::Array(vec![Value::I64(2)])),
    ]);
    assert_eq!(eval(&m, &with_b), Ok(Value::I64(0)));
    let wrong_nested = object(&[
        ("a", Value::Null),
        ("c", object(&[("d", Value::I64(2))])),
        ("e", Value::Array(vec![Value::I64(2)])),
    ]);
    assert_eq!(eval(&m, &wrong_nested), Ok(Value::I64(0)));
    assert_eq!(eval(&m, &Value::I64(3)), Ok(Value::I64(0)));
}

#[test]
fn operators_on_integers() {
    let r = Range { start: Location::new(0, 0, 0), end: Location::new(0, 0, 0) };
    let op = |kind, a: i64, b: i64| {
        exec_binary(r, r, kind, &Value::I64(a), &Value::I64(b)).map_err(|e| e.kind)
    };
    assert_eq!(op(BinOpKind::Add, 2, 3), Ok(Value::I64(5)));
    assert_eq!(op(BinOpKind::Sub, 2, 3), Ok(Value::I64(-1)));
    assert_eq!(op(BinOpKind::Mul, -4, 3), Ok(Value::I64(-12)));
    assert_eq!(op(BinOpKind::Div, 7, 2), Ok(Value::I64(3)));
    assert_eq!(op(BinOpKind::Div, -7, 2), Ok(Value::I64(-3)));
    assert_eq!(op(BinOpKind::Div, 7, -2), Ok(Value::I64(-3)));
    assert_eq!(op(BinOpKind::Div, i64::MIN, 1), Ok(Value::I64(i64::MIN)));
    assert_eq!(op(BinOpKind::Mod, 7, 2), Ok(Value::I64(1)));
    assert_eq!(op(BinOpKind::Mod, -7, 2), Ok(Value::I64(-1)));
    assert_eq!(op(BinOpKind::Mod, 7, -2), Ok(Value::I64(1)));
    assert_eq!(op(BinOpKind::Mod, i64::MIN, -1), Ok(Value::I64(0)));
    assert_eq!(op(BinOpKind::BitAnd, 6, 3), Ok(Value::I64(2)));
    assert_eq!(op(BinOpKind::BitOr, 6, 3), Ok(Value::I64(7)));
    assert_eq!(op(BinOpKind::BitXor, 6, 3), Ok(Value::I64(5)));
    assert_eq!(op(BinOpKind::LBitShift, 1, 4), Ok(Value::I64(16)));
    assert_eq!(op(BinOpKind::RBitShiftSigned, -16, 2), Ok(Value::I64(-4)));
    assert_eq!(op(BinOpKind::RBitShiftUnsigned, -1, 63), Ok(Value::I64(1)));
    assert_eq!(op(BinOpKind::Gt, 2, 1), Ok(Value::Bool(true)));
    assert_eq!(op(BinOpKind::Gte, 1, 1), Ok(Value::Bool(true)));
    assert_eq!(op(BinOpKind::Lt, 2, 1), Ok(Value::Bool(false)));
    assert_eq!(op(BinOpKind::Lte, 2, 1), Ok(Value::Bool(false)));
    assert_eq!(op(BinOpKind::Eq, 2, 2), Ok(Value::Bool(true)));
    assert_eq!(op(BinOpKind::NotEq, 2, 2), Ok(Value::Bool(false)));
    let bad = |kind| Err(ErrorKind::InvalidBinary(kind, ValueType::I64, ValueType::I64));
    assert_eq!(op(BinOpKind::Add, i64::MAX, 1), bad(BinOpKind::Add));
    assert_eq!(op(BinOpKind::Sub, i64::MIN, 1), bad(BinOpKind::Sub));
    assert_eq!(op(BinOpKind::Mul, i64::MAX, 2), bad(BinOpKind::Mul));
    assert_eq!(op(BinOpKind::Div, 1, 0), bad(BinOpKind::Div));
    assert_eq!(op(BinOpKind::Div, i64::MIN, -1), bad(BinOpKind::Div));
    assert_eq!(op(BinOpKind::Mod, 1, 0), bad(BinOpKind::Mod));
    assert_eq!(op(BinOpKind::LBitShift, 1, 64), bad(BinOpKind::LBitShift));
    assert_eq!(op(BinOpKind::RBitShiftSigned, 1, -1), bad(BinOpKind::RBitShiftSigned));
    assert_eq!(op(BinOpKind::And, 1, 1), bad(BinOpKind::And));
}

#[test]
fn operators_on_other_values() {
    let r = Range { start: Location::new(0, 0, 0), end: Location::new(0, 0, 0) };
    let op = |kind, a: &Value, b: &Value| exec_binary(r, r, kind, a, b).map_err(|e| e.kind);
    let t = Value::Bool(true);
    let f = Value::Bool(false);
    assert_eq!(op(BinOpKind::And, &t, &f), Ok(Value::Bool(false)));
    assert_eq!(op(BinOpKind::Or, &t, &f), Ok(Value::Bool(true)));
    assert_eq!(op(BinOpKind::Xor, &t, &t), Ok(Value::Bool(false)));
    assert_eq!(
        op(BinOpKind::Add, &Value::string("ab"), &Value::string("cd")),
        Ok(Value::string("abcd"))
    );
    assert_eq!(
        op(BinOpKind::Sub, &Value::string("ab"), &Value::string("cd")),
        Err(ErrorKind::InvalidBinary(BinOpKind::Sub, ValueType::String, ValueType::String))
    );
    assert_eq!(op(BinOpKind::Eq, &Value::Null, &Value::I64(0)), Ok(Value::Bool(false)));
    assert_eq!(
        op(
            BinOpKind::Eq,
            &object(&[("a", Value::Array(vec![Value::I64(1)]))]),
            &object(&[("a", Value::Array(vec![Value::I64(1)]))])
        ),
        Ok(Value::Bool(true))
    );
    assert_eq!(
        op(BinOpKind::Add, &Value::I64(1), &t),
        Err(ErrorKind::InvalidBinary(BinOpKind::Add, ValueType::I64, ValueType::Bool))
    );
    assert_eq!(exec_unary(UnaryOpKind::Minus, &Value::I64(5)), Some(Value::I64(-5)));
    assert_eq!(exec_unary(UnaryOpKind::Minus, &Value::I64(i64::MIN)), None);
    assert_eq!(exec_unary(UnaryOpKind::Plus, &Value::I64(5)), Some(Value::I64(5)));
    assert_eq!(exec_unary(UnaryOpKind::BitNot, &Value::I64(0)), Some(Value::I64(-1)));
    assert_eq!(exec_unary(UnaryOpKind::Not, &t), Some(Value::Bool(false)));
    assert_eq!(exec_unary(UnaryOpKind::Not, &Value::I64(1)), None);
    assert_eq!(exec_unary(UnaryOpKind::Minus, &Value::string("x")), None);
}

#[test]
fn paths_lead_into_event_state_and_metadata() {
    let event = object(&[("a", object(&[("b", Value::Array(vec![Value::I64(1), Value::I64(2)]))]))]);
    let p = ImutExprInt::Path(Path::Event(EventPath {
        mid: 0,
        segments: vec![key("a"), key("b"), Segment::Idx { idx: 1, mid: 0 }],
    }));
    assert_eq!(eval(&p, &event), Ok(Value::I64(2)));
    assert_eq!(eval(&event_at(&["a", "x"]), &event), Err(ErrorKind::BadAccess));
    let state = ImutExprInt::Path(Path::State(StatePath { mid: 0, segments: vec![key("count")] }));
    assert_eq!(eval(&state, &event), Ok(Value::I64(3)));
    let meta = ImutExprInt::Path(Path::Meta(MetadataPath { mid: 0, segments: vec![key("kind")] }));
    assert_eq!(eval(&meta, &event), Ok(Value::string("test")));
    let present = |keys: &[&str]| ImutExprInt::Present { path: event_path(keys), mid: 0 };
    assert_eq!(eval(&present(&["a", "b"]), &event), Ok(Value::Bool(true)));
    assert_eq!(eval(&present(&["a", "c"]), &event), Ok(Value::Bool(false)));
    let constant = ImutExprInt::Local { idx: 3, mid: 0, is_const: true };
    assert_eq!(eval(&constant, &event), Ok(Value::I64(7)));
    let missing = ImutExprInt::Local { idx: 9, mid: 0, is_const: true };
    assert_eq!(eval(&missing, &event), Err(ErrorKind::InvalidConst));
    assert_eq!(eval(&local(0), &event), Err(ErrorKind::UnsetLocal));
}

#[test]
fn records_and_lists_are_built_in_order() {
    let rec = ImutExprInt::Record(Record {
        mid: 0,
        fields: vec![
            Field { mid: 0, name: text("a"), value: num(1) },
            Field { mid: 0, name: text("b"), value: event_at(&[]) },
            Field { mid: 0, name: text("a"), value: num(3) },
        ],
    });
    assert_eq!(
        eval(&rec, &Value::I64(2)),
        Ok(object(&[("a", Value::I64(3)), ("b", Value::I64(2))]))
    );
    let bad = ImutExprInt::Record(Record {
        mid: 0,
        fields: vec![Field { mid: 0, name: num(1), value: num(1) }],
    });
    assert_eq!(
        eval(&bad, &Value::Null),
        Err(ErrorKind::TypeError(ValueType::String, ValueType::I64))
    );
    let list = ImutExprInt::List(List {
        mid: 0,
        exprs: vec![ImutExpr(num(1)), ImutExpr(event_at(&[])), ImutExpr(text("x"))],
    });
    assert_eq!(
        eval(&list, &Value::Bool(true)),
        Ok(Value::Array(vec![Value::I64(1), Value::Bool(true), Value::string("x")]))
    );
}

#[test]
fn nesting_beyond_the_limit_is_an_error() {
    let e = un(UnaryOpKind::Minus, un(UnaryOpKind::Minus, un(UnaryOpKind::Minus, num(1))));
    let locals = LocalStack::with_size(0);
    assert_eq!(eval_with(&e, &Value::Null, &locals, 3), Ok(Value::I64(-1)));
    assert_eq!(eval_with(&e, &Value::Null, &locals, 2), Err(ErrorKind::RecursionLimit));
    assert_eq!(eval_with(&num(1), &Value::Null, &locals, 0), Ok(Value::I64(1)));
}

fn call(fun: Intrinsic, args: Vec<ImutExprInt>) -> ImutExprInt {
    ImutExprInt::Invoke(Invoke {
        mid: 0,
        module: vec!["m".to_string()],
        fun: "f".to_string(),
        invocable: Invocable::Intrinsic(TremorFnWrapper::new("m", "f", fun)),
        args: args.into_iter().map(ImutExpr).collect(),
    })
}

#[test]
fn functions_of_the_engine() {
    assert_eq!(eval(&call(Intrinsic::MathMax, vec![num(1), num(2)]), &Value::Null), Ok(Value::I64(2)));
    assert_eq!(eval(&call(Intrinsic::MathMin, vec![num(1), num(2)]), &Value::Null), Ok(Value::I64(1)));
    let list = ImutExprInt::List(List { mid: 0, exprs: vec![ImutExpr(num(1)), ImutExpr(num(1))] });
    assert_eq!(eval(&call(Intrinsic::ArrayLen, vec![list]), &Value::Null), Ok(Value::I64(2)));
    assert_eq!(eval(&call(Intrinsic::IngestNs, vec![]), &Value::Null), Ok(Value::I64(42)));
    assert_eq!(
        eval(&call(Intrinsic::MathMax, vec![num(1)]), &Value::Null),
        Err(ErrorKind::BadArguments)
    );
    assert_eq!(
        eval(&call(Intrinsic::MathMax, vec![num(1), text("x")]), &Value::Null),
        Err(ErrorKind::BadArguments)
    );
    let reg = Registry::new();
    assert_eq!(reg.find("math", "max").map(|f| f.fun), Some(Intrinsic::MathMax));
    assert_eq!(reg.find("system", "ingest_ns").map(|f| f.is_const()), Some(false));
    assert!(reg.find("math", "nope").is_none());
}

#[test]
fn function_of_the_script_sees_its_arguments_as_locals() {
    let double = CustomFn {
        name: "double".to_string(),
        args: vec!["x".to_string()],
        body: vec![ImutExpr(bin(BinOpKind::Add, local(0), local(0)))],
        locals: 1,
        is_const: true,
        open: false,
        inline: false,
    };
    let e = ImutExprInt::Invoke1(Invoke {
        mid: 0,
        module: vec![],
        fun: "double".to_string(),
        invocable: Invocable::Tremor(double),
        args: vec![ImutExpr(num(21))],
    });
    assert_eq!(eval(&e, &Value::Null), Ok(Value::I64(42)));
}

#[test]
fn assignment_changes_event_state_and_locals() {
    let assign = |path: Path, e: ImutExprInt| Expr::Assign {
        mid: 0,
        path,
        expr: Box::new(Expr::Imut(e)),
    };
    let local_path = |idx: usize| Path::Local(LocalPath { idx, is_const: false, mid: 0, segments: vec![] });
    let s = script(
        vec![
            assign(local_path(0), bin(BinOpKind::Mul, event_at(&["a"]), num(2))),
            assign(event_path(&["b"]), local(0)),
            assign(event_path(&["c", "d"]), num(1)),
            assign(Path::State(StatePath { mid: 0, segments: vec![] }), event_at(&["b"])),
            Expr::AssignMoveLocal { mid: 0, path: event_path(&["moved"]), idx: 0 },
            Expr::Imut(local(0)),
        ],
        1,
    );
    let context = EventContext { at: 0, origin_uri: None };
    let mut event = object(&[("a", Value::I64(4)), ("c", Value::object())]);
    let mut state = Value::Null;
    let mut meta = Value::object();
    let r = s.run(&context, AggrType::Emit, &mut event, &mut state, &mut meta);
    // the last statement reads the variable that the move emptied
    assert_eq!(r.map_err(|e| e.kind), Err(ErrorKind::UnsetLocal));
    assert_eq!(
        event,
        object(&[
            ("a", Value::I64(4)),
            ("c", object(&[("d", Value::I64(1))])),
            ("b", Value::I64(8)),
            ("moved", Value::I64(8)),
        ])
    );
    assert_eq!(state, Value::I64(8));
}

#[test]
fn assignment_into_what_is_no_record_fails_and_changes_nothing() {
    let s = script(
        vec![Expr::Assign {
            mid: 0,
            path: event_path(&["a", "b"]),
            expr: Box::new(Expr::Imut(num(1))),
        }],
        0,
    );
    let mut event = object(&[("a", Value::I64(4))]);
    assert_eq!(
        run(&s, &mut event),
        Err(ErrorKind::TypeError(ValueType::Object, ValueType::I64))
    );
    assert_eq!(event, object(&[("a", Value::I64(4))]));
    let mut event = object(&[]);
    assert_eq!(run(&s, &mut event), Err(ErrorKind::BadAccess));
}

#[test]
fn script_ends_at_the_first_emit_or_drop() {
    let emit = |e: ImutExprInt, port: Option<&str>| {
        Expr::Emit(Box::new(EmitExpr { mid: 0, expr: e, port: port.map(text) }))
    };
    let s = script(vec![Expr::Imut(num(1)), emit(num(2), Some("side")), Expr::Drop { mid: 0 }], 0);
    assert_eq!(
        run(&s, &mut Value::Null),
        Ok(Return::Emit { value: Value::I64(2), port: Some("side".to_string()) })
    );
    let s = script(vec![Expr::Drop { mid: 0 }, Expr::Imut(num(1))], 0);
    assert_eq!(run(&s, &mut Value::Null), Ok(Return::Drop));
    let s = script(vec![Expr::Imut(num(1)), Expr::Imut(num(2))], 0);
    assert_eq!(run(&s, &mut Value::Null), Ok(Return::Emit { value: Value::I64(2), port: None }));
    let s = script(vec![], 0);
    assert_eq!(run(&s, &mut Value::Null), Ok(Return::Emit { value: Value::Null, port: None }));
    let s = script(vec![emit(event_at(&[]), Some("out"))], 0);
    assert_eq!(
        run(&s, &mut Value::I64(1)),
        Ok(Return::EmitEvent { port: Some("out".to_string()) })
    );
    let bad_port =
        script(vec![Expr::Emit(Box::new(EmitExpr { mid: 0, expr: num(1), port: Some(num(1)) }))], 0);
    assert_eq!(
        run(&bad_port, &mut Value::Null),
        Err(ErrorKind::TypeError(ValueType::String, ValueType::I64))
    );
}

#[test]
fn match_statement_keeps_what_its_pattern_binds() {
    let s = script(
        vec![
            Expr::Match(Box::new(Match {
                mid: 0,
                target: event_at(&["a"]),
                patterns: vec![PredicateClause {
                    mid: 0,
                    pattern: Pattern::Assign(AssignPattern {
                        id: "x".to_string(),
                        idx: 0,
                        pattern: Box::new(Pattern::DoNotCare),
                    }),
                    guard: None,
                    exprs: vec![Expr::Imut(num(0))],
                }],
            })),
            Expr::Imut(local(0)),
        ],
        1,
    );
    let mut event = object(&[("a", Value::I64(9))]);
    assert_eq!(run(&s, &mut event), Ok(Return::Emit { value: Value::I64(9), port: None }));
}

fn helper_with_places(reg: &Registry) -> Helper<'_> {
    let mut h = Helper::new(reg, vec![CompilationUnit { file_path: "main.tremor".to_string() }]);
    h.init_consts();
    h.const_values.push(Value::I64(7));
    // the node 0 stands on lines 10 to 11
    let mid = h.add_meta(Location::new(10, 1, 100), Location::new(11, 5, 120));
    assert_eq!(mid, 0);
    h
}

#[test]
fn folding_gives_what_evaluation_gives() {
    let reg = Registry::new();
    let h = helper_with_places(&reg);
    let cases = vec![
        bin(BinOpKind::Add, num(1), bin(BinOpKind::Mul, num(2), num(3))),
        un(UnaryOpKind::Minus, bin(BinOpKind::Sub, num(1), num(5))),
        bin(BinOpKind::Add, text("a"), text("b")),
        un(UnaryOpKind::Not, bin(BinOpKind::Lt, num(1), num(2))),
        bin(BinOpKind::Eq, lit(Value::Null), lit(Value::Null)),
    ];
    let expected = vec![
        Value::I64(7),
        Value::I64(4),
        Value::string("ab"),
        Value::Bool(false),
        Value::Bool(true),
    ];
    for (e, want) in cases.into_iter().zip(expected) {
        assert_eq!(eval(&e, &Value::Null), Ok(want.clone()));
        assert_eq!(fold(e, &h), Ok(lit(want)));
    }
}

#[test]
fn folding_fails_where_evaluation_fails_with_the_same_error() {
    let reg = Registry::new();
    let h = helper_with_places(&reg);
    let e = || un(UnaryOpKind::Minus, text("x"));
    let context = EventContext { at: 0, origin_uri: None };
    let env = Env {
        context: &context,
        consts: &h.const_values,
        meta: &h.meta,
        recursion_limit: 16,
    };
    let run_time = eval_expr(
        &e(),
        &env,
        &Value::Null,
        &Value::Null,
        &Value::Null,
        &LocalStack::with_size(0),
        0,
    );
    let load_time = fold(e(), &h);
    let err = load_time.unwrap_err();
    assert_eq!(run_time, Err(err));
    assert_eq!(err.kind, ErrorKind::InvalidUnary(UnaryOpKind::Minus, ValueType::String));
    // the place of the expression, shown with two lines around it
    assert_eq!(err.inner.start, Location { line: 10, column: 1, absolute: 100, unit_id: 0 });
    assert_eq!(err.inner.end, Location { line: 11, column: 5, absolute: 120, unit_id: 0 });
    assert_eq!(err.outer.start.line, 8);
    assert_eq!(err.outer.end.line, 13);
    let div = bin(BinOpKind::Add, num(1), bin(BinOpKind::Div, num(1), num(0)));
    assert_eq!(
        fold(div, &h).map_err(|e| e.kind),
        Err(ErrorKind::InvalidBinary(BinOpKind::Div, ValueType::I64, ValueType::I64))
    );
}

#[test]
fn folding_leaves_what_depends_on_the_event() {
    let reg = Registry::new();
    let h = helper_with_places(&reg);
    let e = bin(BinOpKind::Add, event_at(&["a"]), bin(BinOpKind::Add, num(1), num(2)));
    let folded = fold(e, &h).unwrap();
    assert_eq!(folded, bin(BinOpKind::Add, event_at(&["a"]), num(3)));
    assert_eq!(eval(&folded, &object(&[("a", Value::I64(4))])), Ok(Value::I64(7)));
}

#[test]
fn folding_replaces_constants_of_the_script() {
    let reg = Registry::new();
    let h = helper_with_places(&reg);
    let constant = |idx: usize| {
        Path::Const(LocalPath { idx, is_const: true, mid: 0, segments: vec![] })
    };
    assert_eq!(constant(3).try_reduce(&h), Ok(lit(Value::I64(7))));
    // the constants that the engine fills in are left for the run
    assert_eq!(constant(2).try_reduce(&h), Ok(ImutExprInt::Path(constant(2))));
    assert_eq!(
        constant(4).try_reduce(&h).map_err(|e| e.kind),
        Err(ErrorKind::InvalidConst)
    );
    assert_eq!(
        fold(bin(BinOpKind::Add, ImutExprInt::Path(constant(3)), num(1)), &h),
        Ok(lit(Value::I64(8)))
    );
}

#[test]
fn lists_records_and_calls_fold_when_all_parts_are_literals() {
    let reg = Registry::new();
    let h = helper_with_places(&reg);
    let list = |exprs: Vec<ImutExprInt>| List { mid: 0, exprs: exprs.into_iter().map(ImutExpr).collect() };
    assert_eq!(
        list(vec![num(1), text("a")]).try_reduce(&h),
        Ok(lit(Value::Array(vec![Value::I64(1), Value::string("a")])))
    );
    assert_eq!(
        list(vec![num(1), event_at(&[])]).try_reduce(&h),
        Ok(ImutExprInt::List(list(vec![num(1), event_at(&[])])))
    );
    let record = |value: ImutExprInt| Record {
        mid: 0,
        fields: vec![Field { mid: 0, name: text("k"), value }],
    };
    assert_eq!(record(num(1)).try_reduce(&h), Ok(lit(object(&[("k", Value::I64(1))]))));
    assert_eq!(
        record(event_at(&[])).try_reduce(&h),
        Ok(ImutExprInt::Record(record(event_at(&[]))))
    );
    let invoke = |fun: Intrinsic, args: Vec<ImutExprInt>| Invoke {
        mid: 0,
        module: vec!["m".to_string()],
        fun: "f".to_string(),
        invocable: Invocable::Intrinsic(TremorFnWrapper::new("m", "f", fun)),
        args: args.into_iter().map(ImutExpr).collect(),
    };
    assert_eq!(
        invoke(Intrinsic::MathMax, vec![num(1), num(2)]).try_reduce(&h),
        Ok(lit(Value::I64(2)))
    );
    assert_eq!(
        invoke(Intrinsic::MathMax, vec![num(1), text("x")]).try_reduce(&h).map_err(|e| e.kind),
        Err(ErrorKind::BadArguments)
    );
    // a function that depends on the event is left as a call, by its arity
    assert_eq!(
        invoke(Intrinsic::IngestNs, vec![]).try_reduce(&h),
        Ok(ImutExprInt::Invoke(invoke(Intrinsic::IngestNs, vec![])))
    );
    assert_eq!(
        invoke(Intrinsic::MathMax, vec![num(1), event_at(&[])]).try_reduce(&h),
        Ok(ImutExprInt::Invoke2(invoke(Intrinsic::MathMax, vec![num(1), event_at(&[])])))
    );
    assert_eq!(
        invoke(Intrinsic::ArrayLen, vec![event_at(&[])]).try_reduce(&h),
        Ok(ImutExprInt::Invoke1(invoke(Intrinsic::ArrayLen, vec![event_at(&[])])))
    );
}

#[test]
fn folding_looks_into_lists_and_calls_of_engine_functions() {
    let reg = Registry::new();
    let h = helper_with_places(&reg);
    let list = |exprs: Vec<ImutExprInt>| {
        ImutExprInt::List(List { mid: 0, exprs: exprs.into_iter().map(ImutExpr).collect() })
    };
    let e = list(vec![bin(BinOpKind::Add, num(1), num(1)), text("a")]);
    assert_eq!(eval(&e, &Value::Null), Ok(Value::Array(vec![Value::I64(2), Value::string("a")])));
    assert_eq!(fold(e, &h), Ok(lit(Value::Array(vec![Value::I64(2), Value::string("a")]))));
    let e = call(Intrinsic::MathMax, vec![bin(BinOpKind::Add, num(1), num(1)), num(3)]);
    assert_eq!(eval(&e, &Value::Null), Ok(Value::I64(3)));
    assert_eq!(fold(e, &h), Ok(lit(Value::I64(3))));
    let nested = call(
        Intrinsic::ArrayLen,
        vec![list(vec![num(1), call(Intrinsic::MathMin, vec![num(1), num(2)])])],
    );
    assert_eq!(fold(nested, &h), Ok(lit(Value::I64(2))));
    // what depends on the event stays a call, with its constant arguments folded
    let e = call(Intrinsic::MathMax, vec![bin(BinOpKind::Add, num(1), num(1)), event_at(&["a"])]);
    let folded = fold(e, &h).unwrap();
    match &folded {
        ImutExprInt::Invoke2(i) => {
            assert_eq!(i.args, vec![ImutExpr(num(2)), ImutExpr(event_at(&["a"]))]);
        }
        other => panic!("unexpected {:?}", other),
    }
    assert_eq!(eval(&folded, &object(&[("a", Value::I64(9))])), Ok(Value::I64(9)));
    let e = list(vec![event_at(&[]), bin(BinOpKind::Mul, num(2), num(3))]);
    assert_eq!(fold(e, &h), Ok(list(vec![event_at(&[]), num(6)])));
    // a function that depends on the event is never computed early
    let e = call(Intrinsic::IngestNs, vec![]);
    assert!(matches!(fold(e, &h), Ok(ImutExprInt::Invoke(_))));
    // the first failure, from left to right, is the failure of the pass
    let e = list(vec![
        num(1),
        un(UnaryOpKind::Minus, text("x")),
        bin(BinOpKind::Div, num(1), num(0)),
    ]);
    assert_eq!(
        eval(&e, &Value::Null),
        Err(ErrorKind::InvalidUnary(UnaryOpKind::Minus, ValueType::String))
    );
    assert_eq!(
        fold(e, &h).map_err(|e| e.kind),
        Err(ErrorKind::InvalidUnary(UnaryOpKind::Minus, ValueType::String))
    );
    let e = call(Intrinsic::MathMax, vec![num(1), text("x")]);
    assert_eq!(eval(&e, &Value::Null), Err(ErrorKind::BadArguments));
    assert_eq!(fold(e, &h).map_err(|e| e.kind), Err(ErrorKind::BadArguments));
}

#[test]
fn folding_looks_into_records_field_by_field() {
    let reg = Registry::new();
    let h = helper_with_places(&reg);
    let record = |fields: Vec<(ImutExprInt, ImutExprInt)>| {
        ImutExprInt::Record(Record {
            mid: 0,
            fields: fields
                .into_iter()
                .map(|(name, value)| Field { mid: 0, name, value })
                .collect(),
        })
    };
    let e = record(vec![
        (bin(BinOpKind::Add, text("k"), text("1")), bin(BinOpKind::Add, num(1), num(1))),
        (text("l"), ImutExprInt::List(List { mid: 0, exprs: vec![ImutExpr(num(3))] })),
    ]);
    let want = object(&[("k1", Value::I64(2)), ("l", Value::Array(vec![Value::I64(3)]))]);
    assert_eq!(eval(&e, &Value::Null), Ok(want.clone()));
    assert_eq!(fold(e, &h), Ok(lit(want)));
    // a record that depends on the event keeps its shape, with constant parts folded
    let e = record(vec![(text("k"), event_at(&[])), (text("c"), bin(BinOpKind::Sub, num(5), num(2)))]);
    assert_eq!(fold(e, &h), Ok(record(vec![(text("k"), event_at(&[])), (text("c"), num(3))])));
    // the name is checked before the value is looked at, as at run time
    let e = record(vec![(num(1), bin(BinOpKind::Div, num(1), num(0)))]);
    assert_eq!(
        eval(&e, &Value::Null),
        Err(ErrorKind::TypeError(ValueType::String, ValueType::I64))
    );
    assert_eq!(
        fold(e, &h).map_err(|e| e.kind),
        Err(ErrorKind::TypeError(ValueType::String, ValueType::I64))
    );
    let e = record(vec![
        (text("a"), bin(BinOpKind::Div, num(1), num(0))),
        (num(1), num(1)),
    ]);
    assert_eq!(
        eval(&e, &Value::Null),
        Err(ErrorKind::InvalidBinary(BinOpKind::Div, ValueType::I64, ValueType::I64))
    );
    assert_eq!(
        fold(e, &h).map_err(|e| e.kind),
        Err(ErrorKind::InvalidBinary(BinOpKind::Div, ValueType::I64, ValueType::I64))
    );
}

#[test]
fn only_a_literal_has_a_constant_value() {
    let reg = Registry::new();
    let h = helper_with_places(&reg);
    assert_eq!(reduce2(num(4), &h), Ok(Value::I64(4)));
    assert_eq!(
        reduce2(event_at(&["a"]), &h).map_err(|e| e.kind),
        Err(ErrorKind::NotConstant)
    );
}

#[test]
fn engine_functions_say_why_they_fail() {
    let max = TremorFnWrapper::new("math", "max", Intrinsic::MathMax);
    assert_eq!(max.invoke(0, &vec![Value::I64(1), Value::I64(5)]), Ok(Value::I64(5)));
    assert_eq!(max.invoke(0, &vec![Value::I64(1)]), Err(FunctionError::BadArity));
    assert_eq!(max.invoke(0, &vec![Value::I64(1), Value::Null]), Err(FunctionError::BadType));
    let len = TremorFnWrapper::new("array", "len", Intrinsic::ArrayLen);
    assert_eq!(len.invoke(0, &vec![Value::Array(vec![])]), Ok(Value::I64(0)));
    assert_eq!(len.invoke(0, &vec![Value::Null]), Err(FunctionError::BadType));
    let now = TremorFnWrapper::new("system", "ingest_ns", Intrinsic::IngestNs);
    assert_eq!(now.invoke(9, &vec![]), Ok(Value::I64(9)));
    assert_eq!(now.invoke(u64::MAX, &vec![]), Err(FunctionError::BadType));
    assert!(max.is_const() && len.is_const() && !now.is_const());
}

#[test]
fn only_a_marked_function_of_one_expression_can_be_inlined() {
    let body = |inline: bool, args: Vec<String>| CustomFn {
        name: "f".to_string(),
        args,
        body: vec![ImutExpr(num(1))],
        locals: 0,
        is_const: true,
        open: false,
        inline,
    };
    let invoke = |invocable: Invocable| Invoke {
        mid: 0,
        module: vec![],
        fun: "f".to_string(),
        invocable,
        args: vec![],
    };
    let yes = invoke(Invocable::Tremor(body(true, vec![])));
    assert!(yes.can_inline());
    assert_eq!(yes.inline(), Ok(num(1)));
    let unmarked = invoke(Invocable::Tremor(body(false, vec![])));
    assert!(!unmarked.can_inline());
    assert_eq!(unmarked.inline().map_err(|e| e.kind), Err(ErrorKind::BadArguments));
    let with_args = invoke(Invocable::Tremor(body(true, vec!["x".to_string()])));
    assert!(!with_args.can_inline());
    let engine = invoke(Invocable::Intrinsic(TremorFnWrapper::new("m", "f", Intrinsic::MathMax)));
    assert!(!engine.can_inline());
    assert_eq!(engine.inline().map_err(|e| e.kind), Err(ErrorKind::BadArguments));
}

fn fits(rule: &str, text: &str) -> bool {
    glob_match(&chars_of(rule), &chars_of(text))
}

#[test]
fn glob_rules() {
    assert!(fits("", ""));
    assert!(!fits("", "a"));
    assert!(fits("*", ""));
    assert!(fits("*", "anything at all"));
    assert!(fits("abc", "abc"));
    assert!(!fits("abc", "abd"));
    assert!(!fits("abc", "ab"));
    assert!(!fits("ab", "abc"));
    assert!(fits("a?c", "abc"));
    assert!(!fits("a?c", "ac"));
    assert!(fits("*.txt", "notes.txt"));
    assert!(!fits("*.txt", "notes.txt.bak"));
    assert!(fits("a*b*c", "a--b--b--c"));
    assert!(!fits("a*b*c", "a--b--b--"));
    assert!(fits("*a*a*a*b", "aaaaaaaaaaaaaaaaaaaaaaaaaaaaaaaaaab"));
    assert!(!fits("*a*a*a*b", "aaaaaaaaaaaaaaaaaaaaaaaaaaaaaaaaaa"));
    assert!(fits("gr??e", "grüße"));
    assert_eq!(chars_of("grüße"), vec!['g', 'r', 'ü', 'ß', 'e']);
    let e = Extractor::glob("*.log");
    assert_eq!(e.extract(&Value::string("app.log")), Some(Value::Bool(true)));
    assert_eq!(e.extract(&Value::string("app.txt")), None);
    assert_eq!(e.extract(&Value::I64(1)), None);
}

fn test_expr(rule: &str) -> TestExpr {
    TestExpr {
        mid: 0,
        id: "glob".to_string(),
        test: rule.to_string(),
        extractor: Extractor::glob(rule),
    }
}

#[test]
fn extractor_pattern_tests_a_field_and_binds_its_result() {
    let tilde = |rule: &str, idx: usize| PredicatePattern::TildeEq {
        assign: "found".to_string(),
        lhs: "file".to_string(),
        key: "file".to_string(),
        idx,
        test: Box::new(test_expr(rule)),
    };
    let clause = |pattern: Pattern, v: ImutExprInt| ImutPredicateClause {
        mid: 0,
        pattern,
        guard: None,
        exprs: vec![ImutExpr(v)],
    };
    let m = ImutExprInt::Match(Box::new(ImutMatch {
        mid: 0,
        target: event_at(&[]),
        patterns: vec![
            clause(
                Pattern::Record(RecordPattern { mid: 0, fields: vec![tilde("*.log", 1)] }),
                local(1),
            ),
            clause(
                Pattern::Record(RecordPattern {
                    mid: 0,
                    fields: vec![PredicatePattern::RecordPatternEq {
                        lhs: "inner".to_string(),
                        key: "inner".to_string(),
                        pattern: RecordPattern { mid: 0, fields: vec![tilde("*.txt", 2)] },
                    }],
                }),
                local(2),
            ),
            clause(Pattern::Default, text("none")),
        ],
    }));
    let locals = LocalStack::with_size(3);
    let file = |name: &str| object(&[("file", Value::string(name))]);
    assert_eq!(eval_with(&m, &file("app.log"), &locals, 8), Ok(Value::Bool(true)));
    assert_eq!(eval_with(&m, &file("app.bin"), &locals, 8), Ok(Value::string("none")));
    assert_eq!(
        eval_with(&m, &object(&[("inner", file("a.txt"))]), &locals, 8),
        Ok(Value::Bool(true))
    );
    assert_eq!(
        eval_with(&m, &object(&[("file", Value::I64(1))]), &locals, 8),
        Ok(Value::string("none"))
    );
    assert_eq!(eval_with(&m, &object(&[]), &locals, 8), Ok(Value::string("none")));
    // the variables of the caller are left alone
    assert_eq!(locals, LocalStack::with_size(3));
    let p = tilde("*", 0);
    assert_eq!(p.key(), "file");
    assert_eq!(p.lhs(), "file");
}

#[test]
fn extractor_tests_elements_of_arrays() {
    let m = ImutExprInt::Match(Box::new(ImutMatch {
        mid: 0,
        target: event_at(&[]),
        patterns: vec![
            ImutPredicateClause {
                mid: 0,
                pattern: Pattern::Array(ArrayPattern {
                    mid: 0,
                    exprs: vec![
                        ArrayPredicatePattern::Tilde(test_expr("a*")),
                        ArrayPredicatePattern::Ignore,
                    ],
                }),
                guard: None,
                exprs: vec![ImutExpr(num(1))],
            },
            ImutPredicateClause {
                mid: 0,
                pattern: Pattern::Default,
                guard: None,
                exprs: vec![ImutExpr(num(0))],
            },
        ],
    }));
    let arr = |first: &str| Value::Array(vec![Value::string(first), Value::Null]);
    assert_eq!(eval(&m, &arr("abc")), Ok(Value::I64(1)));
    assert_eq!(eval(&m, &arr("xbc")), Ok(Value::I64(0)));
}

#[test]
fn match_statement_keeps_what_an_extractor_binds() {
    let s = script(
        vec![
            Expr::Match(Box::new(Match {
                mid: 0,
                target: event_at(&[]),
                patterns: vec![PredicateClause {
                    mid: 0,
                    pattern: Pattern::Record(RecordPattern {
                        mid: 0,
                        fields: vec![PredicatePattern::TildeEq {
                            assign: "ok".to_string(),
                            lhs: "name".to_string(),
                            key: "name".to_string(),
                            idx: 0,
                            test: Box::new(test_expr("t*")),
                        }],
                    }),
                    guard: None,
                    exprs: vec![Expr::Imut(num(0))],
                }],
            })),
            Expr::Imut(local(0)),
        ],
        1,
    );
    let mut event = object(&[("name", Value::string("tremor"))]);
    assert_eq!(run(&s, &mut event), Ok(Return::Emit { value: Value::Bool(true), port: None }));
    let mut event = object(&[("name", Value::string("other"))]);
    assert_eq!(run(&s, &mut event), Err(ErrorKind::NoClauseHit));
}

#[test]
fn scripts_compare_records_by_their_names() {
    let r = Range { start: Location::new(0, 0, 0), end: Location::new(0, 0, 0) };
    let ab = Value::Object(vec![
        ("a".to_string(), Value::I64(1)),
        ("b".to_string(), Value::I64(2)),
    ]);
    let ba = Value::Object(vec![
        ("b".to_string(), Value::I64(2)),
        ("a".to_string(), Value::I64(1)),
    ]);
    assert_eq!(exec_binary(r, r, BinOpKind::Eq, &ab, &ba), Ok(Value::Bool(true)));
    assert_eq!(exec_binary(r, r, BinOpKind::NotEq, &ab, &ba), Ok(Value::Bool(false)));
    // a literal record in a pattern fits an event with the fields the other way round
    let m = ImutExprInt::Match(Box::new(ImutMatch {
        mid: 0,
        target: event_at(&[]),
        patterns: vec![
            ImutPredicateClause {
                mid: 0,
                pattern: Pattern::Expr(lit(ab.clone())),
                guard: None,
                exprs: vec![ImutExpr(num(1))],
            },
            ImutPredicateClause {
                mid: 0,
                pattern: Pattern::Default,
                guard: None,
                exprs: vec![ImutExpr(num(0))],
            },
        ],
    }));
    assert_eq!(eval(&m, &ba), Ok(Value::I64(1)));
    assert_eq!(eval(&m, &object(&[("a", Value::I64(1))])), Ok(Value::I64(0)));
}

#[test]
fn a_merge_in_place_changes_its_target() {
    // merge event.inner of {"b": 2} end, put back at event.inner
    let s = script(
        vec![Expr::MergeInPlace(Box::new(Merge {
            mid: 0,
            target: event_at(&["inner"]),
            expr: lit(object(&[("b", Value::I64(2))])),
        }))],
        0,
    );
    let mut event = object(&[("inner", object(&[("a", Value::I64(1))]))]);
    let merged = object(&[("a", Value::I64(1)), ("b", Value::I64(2))]);
    assert_eq!(run(&s, &mut event), Ok(Return::Emit { value: clone(&merged), port: None }));
    assert_eq!(event, object(&[("inner", merged)]));
    // a merge that fails changes nothing
    let mut plain = object(&[("inner", Value::I64(1))]);
    assert_eq!(
        run(&s, &mut plain),
        Err(ErrorKind::TypeError(ValueType::Object, ValueType::I64))
    );
    assert_eq!(plain, object(&[("inner", Value::I64(1))]));
}

#[test]
fn a_patch_in_place_changes_its_target_or_nothing() {
    let s = script(
        vec![Expr::PatchInPlace(Box::new(Patch {
            mid: 0,
            target: event_at(&[]),
            operations: vec![
                PatchOperation::Upsert { ident: text("seen"), expr: lit(Value::Bool(true)) },
                PatchOperation::Insert { ident: text("a"), expr: num(1) },
            ],
        }))],
        0,
    );
    let mut event = object(&[("b", Value::I64(2))]);
    let patched =
        object(&[("b", Value::I64(2)), ("seen", Value::Bool(true)), ("a", Value::I64(1))]);
    assert_eq!(run(&s, &mut event), Ok(Return::Emit { value: clone(&patched), port: None }));
    assert_eq!(event, patched);
    // the second operation fails: the first is not kept either
    let mut has_a = object(&[("a", Value::I64(0))]);
    assert_eq!(run(&s, &mut has_a), Err(ErrorKind::PatchKeyExists));
    assert_eq!(has_a, object(&[("a", Value::I64(0))]));
}

#[test]
fn folding_looks_into_merges() {
    let reg = Registry::new();
    let h = helper_with_places(&reg);
    let record_of = |name: &str, value: ImutExprInt| {
        ImutExprInt::Record(Record {
            mid: 0,
            fields: vec![Field { mid: 0, name: text(name), value }],
        })
    };
    let merge = |target: ImutExprInt, expr: ImutExprInt| {
        ImutExprInt::Merge(Box::new(Merge { mid: 0, target, expr }))
    };
    // merge event of {"a": 1 + 2} end: the record is computed, the merge stays
    let e = merge(event_at(&[]), record_of("a", bin(BinOpKind::Add, num(1), num(2))));
    let want = merge(event_at(&[]), lit(object(&[("a", Value::I64(3))])));
    let event = object(&[("b", Value::I64(1))]);
    let before = eval(&e, &event);
    let folded = fold(e, &h).unwrap();
    assert_eq!(folded, want);
    assert_eq!(eval(&folded, &event), before);
    assert_eq!(before, Ok(object(&[("b", Value::I64(1)), ("a", Value::I64(3))])));
    // a merge of two constants stays a merge
    let both = merge(lit(object(&[("x", Value::I64(1))])), record_of("y", num(2)));
    assert_eq!(
        fold(both, &h),
        Ok(merge(lit(object(&[("x", Value::I64(1))])), lit(object(&[("y", Value::I64(2))]))))
    );
    // a failure inside is the failure of the pass
    let bad = merge(event_at(&[]), bin(BinOpKind::Add, num(1), text("a")));
    assert_eq!(
        fold(bad, &h).map_err(|e| e.kind),
        Err(ErrorKind::InvalidBinary(BinOpKind::Add, ValueType::I64, ValueType::String))
    );
}

#[test]
fn folding_looks_into_patches() {
    let reg = Registry::new();
    let h = helper_with_places(&reg);
    let patch = |operations: Vec<PatchOperation>| {
        ImutExprInt::Patch(Box::new(Patch { mid: 0, target: event_at(&[]), operations }))
    };
    // patch event of insert "a" => 1 + 2; upsert "b" => event.b end
    let e = patch(vec![
        PatchOperation::Insert { ident: text("a"), expr: bin(BinOpKind::Add, num(1), num(2)) },
        PatchOperation::Upsert { ident: text("b"), expr: event_at(&["b"]) },
    ]);
    let want = patch(vec![
        PatchOperation::Insert { ident: text("a"), expr: num(3) },
        PatchOperation::Upsert { ident: text("b"), expr: event_at(&["b"]) },
    ]);
    let event = object(&[("b", Value::I64(1))]);
    let before = eval(&e, &event);
    let folded = fold(e, &h).unwrap();
    assert_eq!(folded, want);
    assert_eq!(eval(&folded, &event), before);
    assert_eq!(before, Ok(object(&[("b", Value::I64(1)), ("a", Value::I64(3))])));
    // the first failure inside, in the order of the operations, is the failure of the pass
    let bad = patch(vec![
        PatchOperation::Erase { ident: un(UnaryOpKind::Not, num(1)) },
        PatchOperation::Insert { ident: text("a"), expr: bin(BinOpKind::Add, num(1), text("x")) },
    ]);
    assert_eq!(
        fold(bad, &h).map_err(|e| e.kind),
        Err(ErrorKind::InvalidUnary(UnaryOpKind::Not, ValueType::I64))
    );
}

#[test]
fn folding_looks_into_for_expressions() {
    let reg = Registry::new();
    let h = helper_with_places(&reg);
    let each = |guard: Option<ImutExprInt>, exprs: Vec<ImutExprInt>| {
        ImutExprInt::Comprehension(Box::new(ImutComprehension {
            mid: 0,
            key_id: 0,
            val_id: 1,
            target: event_at(&[]),
            cases: vec![ImutComprehensionCase {
                mid: 0,
                key_name: "k".to_string(),
                value_name: "v".to_string(),
                guard,
                exprs: exprs.into_iter().map(ImutExpr).collect(),
            }],
        }))
    };
    // for event of case (k, v) when v > 1 + 1 => v + (2 * 3) end
    let e = each(
        Some(bin(BinOpKind::Gt, local(1), bin(BinOpKind::Add, num(1), num(1)))),
        vec![bin(BinOpKind::Add, local(1), bin(BinOpKind::Mul, num(2), num(3)))],
    );
    let want = each(
        Some(bin(BinOpKind::Gt, local(1), num(2))),
        vec![bin(BinOpKind::Add, local(1), num(6))],
    );
    let event = Value::Array(vec![Value::I64(1), Value::I64(5)]);
    let before = eval(&e, &event);
    let folded = fold(e, &h).unwrap();
    assert_eq!(folded, want);
    assert_eq!(eval(&folded, &event), before);
    assert_eq!(before, Ok(Value::Array(vec![Value::I64(11)])));
    // a failure in a guard comes before one in the expressions
    let bad = each(
        Some(un(UnaryOpKind::Not, num(1))),
        vec![bin(BinOpKind::Add, num(1), text("x"))],
    );
    assert_eq!(
        fold(bad, &h).map_err(|e| e.kind),
        Err(ErrorKind::InvalidUnary(UnaryOpKind::Not, ValueType::I64))
    );
}
