use tremor_runtime::ast::docs::{ConstDoc, Docs, FnDoc, ModDoc};
use tremor_runtime::ast::helper::{Helper, ARGS_CONST_ID, GROUP_CONST_ID, WINDOW_CONST_ID};
use tremor_runtime::ast::meta::{CompilationUnit, NodeMeta, NodeMetas};
use tremor_runtime::ast::support::{path_eq, replace_last_shadow_use};
use tremor_runtime::ast::{
    EventPath, Expr, Ident, ImutExpr, ImutExprInt, Literal, LocalPath, Match, Path, Pattern,
    PredicateClause, PredicatePattern, Segment,
};
use tremor_runtime::errors::ErrorKind;
use tremor_runtime::pos::{Location, Range};
use tremor_runtime::registry::{CustomFn, Registry};
use tremor_runtime::value::{Value, ValueType};

#[test]
fn node_places_are_found_by_their_index() {
    let mut metas = NodeMetas::new(vec![CompilationUnit { file_path: "a.tremor".to_string() }]);
    let first = metas.add_meta(Location::new(1, 2, 3), Location::new(4, 5, 6), 0);
    let second = metas.add_meta_w_name(Location::new(7, 8, 9), Location::new(7, 9, 10), "fun", 1);
    assert_eq!((first, second), (0, 1));
    assert_eq!(metas.start(0), Some(Location { line: 1, column: 2, absolute: 3, unit_id: 0 }));
    assert_eq!(metas.end(0), Some(Location { line: 4, column: 5, absolute: 6, unit_id: 0 }));
    assert_eq!(metas.start(1), Some(Location { line: 7, column: 8, absolute: 9, unit_id: 1 }));
    assert_eq!(metas.start(2), None);
    assert_eq!(metas.end(2), None);
    assert_eq!(metas.name(0), None);
    assert_eq!(metas.name(1), Some(&"fun".to_string()));
    assert_eq!(metas.name_dflt(0), "<UNKNOWN>");
    assert_eq!(metas.name_dflt(1), "fun");
    assert_eq!(metas.name_dflt(5), "<UNKNOWN>");
    assert_eq!(metas.cu(0), Some("a.tremor"));
    assert_eq!(metas.cu(1), None);
    assert_eq!(metas.cu(9), None);
    assert_eq!(
        metas.extent(9),
        Range { start: Location::default(), end: Location::default() }
    );
    let m = NodeMeta::from((Location::new(1, 1, 1), Location::new(2, 2, 2), 3));
    assert_eq!(m.name, None);
    assert_eq!(m.cu, 3);
    assert!(!m.terminal);
}

#[test]
fn ranges_widen_by_lines_without_leaving_the_text() {
    let r = Range { start: Location::new(1, 4, 10), end: Location::new(usize::MAX - 1, 2, 20) };
    let w = r.expand_lines(2);
    assert_eq!(w.start, Location::new(0, 4, 10));
    assert_eq!(w.end, Location::new(usize::MAX, 2, 20));
    assert_eq!(Location::new(5, 1, 50).minus(Location::new(2, 9, 20)), Location::new(3, 1, 30));
    assert_eq!(Location::new(1, 1, 5).minus(Location::new(2, 9, 20)), Location::new(0, 1, 0));
}

#[test]
fn places_are_counted_from_the_file_at_hand() {
    let reg = Registry::new();
    let mut h = Helper::new(&reg, vec![]);
    h.file_offset = Location::new(10, 0, 100);
    h.cu = 2;
    let mid = h.add_meta(Location::new(12, 3, 130), Location::new(12, 9, 136));
    assert_eq!(h.meta.start(mid), Some(Location { line: 2, column: 3, absolute: 30, unit_id: 2 }));
    let named = h.add_meta_w_name(Location::new(13, 1, 140), Location::new(13, 2, 141), "x");
    assert_eq!(h.meta.name(named), Some(&"x".to_string()));
    assert_eq!(h.meta.end(named), Some(Location { line: 3, column: 2, absolute: 41, unit_id: 2 }));
}

#[test]
fn reserved_constants_take_the_first_slots() {
    let reg = Registry::new();
    let mut h = Helper::new(&reg, vec![]);
    assert_eq!(h.is_const(&vec!["window".to_string()]), None);
    h.init_consts();
    assert_eq!(h.is_const(&vec!["window".to_string()]), Some(&WINDOW_CONST_ID));
    assert_eq!(h.is_const(&vec!["group".to_string()]), Some(&GROUP_CONST_ID));
    assert_eq!(h.is_const(&vec!["args".to_string()]), Some(&ARGS_CONST_ID));
    assert_eq!(h.is_const(&vec!["other".to_string()]), None);
    assert_eq!(h.const_values, vec![Value::Null, Value::Null, Value::Null]);
}

#[test]
fn variables_get_dense_slots() {
    let reg = Registry::new();
    let mut h = Helper::new(&reg, vec![]);
    assert!(!h.has_locals());
    assert_eq!(h.var_id("a"), 0);
    assert_eq!(h.var_id("b"), 1);
    assert_eq!(h.var_id("a"), 0);
    assert!(h.has_locals());
    assert_eq!(h.slot_count, 2);
}

#[test]
fn shadowed_name_never_shares_a_slot_with_the_outer_one() {
    let reg = Registry::new();
    let mut h = Helper::new(&reg, vec![]);
    let outer = h.var_id("x");
    let inner = h.register_shadow_var("x");
    assert_ne!(outer, inner);
    assert_eq!(h.var_id("x"), inner);
    assert_eq!(h.find_shadow_var("x"), Some(0));
    let innermost = h.register_shadow_var("x");
    assert_ne!(innermost, inner);
    assert_ne!(innermost, outer);
    assert_eq!(h.var_id("x"), innermost);
    assert_eq!(h.find_shadow_var("x"), Some(1));
    h.end_shadow_var();
    assert_eq!(h.var_id("x"), inner);
    h.end_shadow_var();
    assert_eq!(h.var_id("x"), outer);
    assert_eq!(h.find_shadow_var("x"), None);
    // the slots of closed levels are used again
    assert_eq!(h.register_shadow_var("y"), inner);
    assert_eq!(h.var_id("y"), inner);
    assert_eq!(h.var_id("x"), outer);
    h.end_shadow_var();
    // the slots for shadowing are no variables of the script
    let mut fresh = Helper::new(&reg, vec![]);
    fresh.register_shadow_var("x");
    assert!(!fresh.has_locals());
    let (a, b) = fresh.reserve_2_shadow();
    assert_ne!(a, b);
    assert_eq!(fresh.reserve_shadow(), a);
}

fn function(name: &str) -> CustomFn {
    CustomFn {
        name: name.to_string(),
        args: vec![],
        body: vec![],
        locals: 0,
        is_const: false,
        open: false,
        inline: false,
    }
}

#[test]
fn function_is_registered_once() {
    let reg = Registry::new();
    let mut h = Helper::new(&reg, vec![]);
    h.module = vec!["my".to_string()];
    assert_eq!(h.register_fun(function("f")), Ok(0));
    assert_eq!(h.register_fun(function("g")), Ok(1));
    assert_eq!(
        h.register_fun(function("f")).map_err(|e| e.kind),
        Err(ErrorKind::DoubleDefinition)
    );
    assert_eq!(h.func_vec.len(), 2);
    h.module = vec!["other".to_string()];
    assert_eq!(h.register_fun(function("f")), Ok(2));
}

#[test]
fn swap_exchanges_what_is_at_hand() {
    let reg = Registry::new();
    let mut h = Helper::new(&reg, vec![]);
    h.init_consts();
    h.var_id("a");
    let mut other = Helper::new(&reg, vec![]);
    other.var_id("b");
    other.var_id("c");
    let mut aggregates = Vec::new();
    h.swap2(&mut aggregates, &mut other.locals);
    assert_eq!(h.locals.len(), 2);
    assert_eq!(other.locals.len(), 1);
    assert_eq!(h.consts.len(), 3);
    h.swap(&mut aggregates, &mut other.consts, &mut other.locals);
    assert_eq!(h.locals.len(), 1);
    assert_eq!(h.consts.len(), 0);
    assert_eq!(other.consts.len(), 3);
}

#[test]
fn documentation_is_rendered() {
    let c = ConstDoc {
        name: "limit".to_string(),
        doc: Some("How far to go".to_string()),
        value_type: ValueType::I64,
    };
    assert_eq!(c.to_string(), "\n### limit\n\n*type*: I64\n\nHow far to go\n        ");
    let c = ConstDoc { name: "n".to_string(), doc: None, value_type: ValueType::Object };
    assert_eq!(c.to_string(), "\n### n\n\n*type*: Object\n\n\n        ");
    let f = FnDoc {
        name: "add".to_string(),
        args: vec!["a".to_string(), "b".to_string()],
        doc: Some("Adds.".to_string()),
        open: false,
    };
    assert_eq!(f.to_string(), "\n### add(a, b)\n\nAdds.\n        ");
    let f = FnDoc { name: "now".to_string(), args: vec![], doc: None, open: false };
    assert_eq!(f.to_string(), "\n### now()\n\n\n        ");
    let m = ModDoc { name: "inner".to_string(), doc: Some("A module".to_string()) };
    assert_eq!(m.print_with_name("outer"), "\n# outer\n\n\nA module\n        ");
    let d = Docs::default();
    assert!(d.consts.is_empty() && d.fns.is_empty() && d.module.is_none());
}

#[test]
fn constant_documentation_is_trimmed_line_by_line() {
    let reg = Registry::new();
    let mut h = Helper::new(&reg, vec![]);
    h.add_const_doc(
        "limit".to_string(),
        Some(vec!["  first line ".to_string(), "\tsecond".to_string()]),
        ValueType::I64,
    );
    h.add_const_doc("plain".to_string(), None, ValueType::Null);
    assert_eq!(
        h.docs.consts,
        vec![
            ConstDoc {
                name: "limit".to_string(),
                doc: Some("first line\nsecond".to_string()),
                value_type: ValueType::I64,
            },
            ConstDoc { name: "plain".to_string(), doc: None, value_type: ValueType::Null },
        ]
    );
}

fn local_path(idx: usize, keys: &[&str]) -> LocalPath {
    LocalPath {
        idx,
        is_const: false,
        mid: 1,
        segments: keys.iter().map(|k| Segment::Id { key: k.to_string(), mid: 2 }).collect(),
    }
}

#[test]
fn path_equals_the_expression_that_is_the_same_path() {
    let p = Path::Local(local_path(3, &[]));
    assert!(path_eq(&p, &ImutExprInt::Local { idx: 3, mid: 1, is_const: false }));
    assert!(!path_eq(&p, &ImutExprInt::Local { idx: 4, mid: 1, is_const: false }));
    assert!(!path_eq(&p, &ImutExprInt::Local { idx: 3, mid: 9, is_const: false }));
    assert!(path_eq(&p, &ImutExprInt::Path(Path::Local(local_path(3, &[])))));
    assert!(!path_eq(&p, &ImutExprInt::Path(Path::Const(local_path(3, &[])))));
    let deep = Path::Local(local_path(3, &["a", "b"]));
    assert!(path_eq(&deep, &ImutExprInt::Path(Path::Local(local_path(3, &["a", "b"])))));
    assert!(!path_eq(&deep, &ImutExprInt::Path(Path::Local(local_path(3, &["a", "c"])))));
    assert!(!path_eq(&deep, &ImutExprInt::Path(Path::Local(local_path(3, &["a"])))));
    assert!(!path_eq(&deep, &ImutExprInt::Local { idx: 3, mid: 1, is_const: false }));
    let event = Path::Event(EventPath { mid: 1, segments: vec![Segment::Idx { idx: 0, mid: 2 }] });
    assert!(path_eq(
        &event,
        &ImutExprInt::Path(Path::Event(EventPath {
            mid: 1,
            segments: vec![Segment::Idx { idx: 0, mid: 2 }]
        }))
    ));
    assert!(!path_eq(&event, &ImutExprInt::Literal(Literal { mid: 1, value: Value::Null })));
    assert_eq!(event.segments().len(), 1);
}

fn assign_local(idx: usize) -> Expr {
    Expr::Assign {
        mid: 5,
        path: Path::Event(EventPath { mid: 1, segments: vec![] }),
        expr: Box::new(Expr::Imut(ImutExprInt::Local { idx, mid: 0, is_const: false })),
    }
}

#[test]
fn last_use_of_a_shadow_becomes_a_move() {
    let moved = Expr::AssignMoveLocal {
        mid: 5,
        path: Path::Event(EventPath { mid: 1, segments: vec![] }),
        idx: 2,
    };
    assert_eq!(replace_last_shadow_use(2, assign_local(2)), moved);
    assert_eq!(replace_last_shadow_use(2, assign_local(3)), assign_local(3));
    assert_eq!(replace_last_shadow_use(2, Expr::Drop { mid: 1 }), Expr::Drop { mid: 1 });
    let clause = |exprs: Vec<Expr>| PredicateClause {
        mid: 0,
        pattern: Pattern::Default,
        guard: None,
        exprs,
    };
    let m = |clauses: Vec<PredicateClause>| {
        Expr::Match(Box::new(Match {
            mid: 0,
            target: ImutExprInt::Local { idx: 2, mid: 0, is_const: false },
            patterns: clauses,
        }))
    };
    let before = m(vec![
        clause(vec![assign_local(2), assign_local(2)]),
        clause(vec![]),
        clause(vec![m(vec![clause(vec![assign_local(2)])])]),
    ]);
    let after = m(vec![
        clause(vec![
            assign_local(2),
            Expr::AssignMoveLocal {
                mid: 5,
                path: Path::Event(EventPath { mid: 1, segments: vec![] }),
                idx: 2,
            },
        ]),
        clause(vec![]),
        clause(vec![m(vec![clause(vec![Expr::AssignMoveLocal {
            mid: 5,
            path: Path::Event(EventPath { mid: 1, segments: vec![] }),
            idx: 2,
        }])])]),
    ]);
    assert_eq!(replace_last_shadow_use(2, before), after);
}

#[test]
fn small_questions_about_nodes() {
    assert!(Pattern::Default.is_default());
    assert!(!Pattern::DoNotCare.is_default());
    assert!(!Pattern::Default.is_assign());
    let p = PredicatePattern::FieldPresent { lhs: "a b".to_string(), key: "a_b".to_string() };
    assert_eq!(p.key(), "a_b");
    assert_eq!(p.lhs(), "a b");
    let id = Ident::from("name");
    assert_eq!((id.mid, id.id.as_str()), (0, "name"));
    let lit = Literal { mid: 4, value: Value::I64(1) };
    let e = ImutExpr::from(lit);
    assert_eq!(e.mid(), 4);
    let mut metas = NodeMetas::new(vec![]);
    for _ in 0..5 {
        metas.add_meta(Location::new(3, 1, 7), Location::new(3, 2, 8), 0);
    }
    assert_eq!(e.s(&metas), Location::new(3, 1, 7));
    assert_eq!(e.e(&metas), Location::new(3, 2, 8));
    assert_eq!(e.extent(&metas), Range { start: Location::new(3, 1, 7), end: Location::new(3, 2, 8) });
    assert_eq!(
        Expr::from(ImutExprInt::Local { idx: 1, mid: 2, is_const: false }),
        Expr::Imut(ImutExprInt::Local { idx: 1, mid: 2, is_const: false })
    );
}

#[test]
fn names_that_are_not_declared_are_rejected() {
    let reg = Registry::new();
    let mut h = Helper::new(&reg, vec![]);
    h.init_consts();
    assert_eq!(h.forbid_locals(0), Ok(()));
    assert_eq!(h.require_const(&vec!["args".to_string()], 0), Ok(ARGS_CONST_ID));
    assert_eq!(
        h.require_const(&vec!["limit".to_string()], 0).map_err(|e| e.kind),
        Err(ErrorKind::NoConsts)
    );
    h.var_id("x");
    assert_eq!(h.forbid_locals(0).map_err(|e| e.kind), Err(ErrorKind::NoLocals));
}
