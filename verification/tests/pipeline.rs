use tremor_runtime::ast::docs::Docs;
use tremor_runtime::ast::meta::NodeMetas;
use tremor_runtime::ast::{
    BinExpr, EmitExpr, EventPath, Expr, ImutExprInt, Literal, Match, Path, Pattern, PredicateClause,
    PredicatePattern, RecordPattern, Segment, StatePath,
};
use tremor_runtime::errors::BinOpKind;
use tremor_runtime::event::{Event, EventKind};
use tremor_runtime::script::Script;
use tremor_runtime::graph::{Edge, ExecutableGraph, GraphError, Node, Operator};
use tremor_runtime::pipeline::{Action, Lifecycle, Msg, Pipeline};
use tremor_runtime::table::{Addr, ChannelId, Dest};
use tremor_runtime::url::TremorUrl;
use tremor_runtime::value::Value;

fn edge(port: &str, to: usize, input: &str) -> Edge {
    Edge { port: port.to_string(), to, input: input.to_string() }
}

fn node(id: &str, op: Operator, edges: Vec<Edge>) -> Node {
    Node { id: id.to_string(), op, edges }
}

fn event(id: u64, ingest_ns: u64, value: Value) -> Event {
    Event {
        id,
        value,
        meta: Value::object(),
        ingest_ns,
        origin_uri: None,
        kind: EventKind::Normal,
        is_batch: false,
    }
}

fn insight(name: &str) -> Event {
    let mut meta = Value::object();
    meta.insert(name.to_string(), Value::Bool(true));
    Event {
        id: 0,
        value: Value::Null,
        meta,
        ingest_ns: 1_000,
        origin_uri: None,
        kind: EventKind::Insight,
        is_batch: false,
    }
}

/// in -> breaker -> out, and the breaker's overflow -> err
fn two_port_graph() -> ExecutableGraph {
    let nodes = vec![
        node("in", Operator::Input, vec![edge("out", 1, "in")]),
        node(
            "breaker",
            Operator::Backpressure { timeout: 100, next: 50, triggered: false },
            vec![edge("out", 2, "in"), edge("overflow", 3, "in")],
        ),
        node("out", Operator::Output, vec![]),
        node("err", Operator::Output, vec![]),
    ];
    ExecutableGraph::new("main".to_string(), nodes).unwrap()
}

fn passthrough_graph() -> ExecutableGraph {
    let nodes = vec![
        node("in", Operator::Input, vec![edge("out", 1, "in")]),
        node("pass", Operator::Passthrough, vec![edge("out", 2, "in")]),
        node("out", Operator::Output, vec![]),
    ];
    ExecutableGraph::new("main".to_string(), nodes).unwrap()
}

fn running(graph: ExecutableGraph) -> Pipeline {
    let mut p = Pipeline::new(TremorUrl::new("pipeline", "main"), graph);
    p.start();
    p
}

fn sink(name: &str) -> TremorUrl {
    TremorUrl::with_port("offramp", name, "in")
}

#[test]
fn graph_rejects_backward_edges() {
    let nodes = vec![
        node("in", Operator::Input, vec![edge("out", 1, "in")]),
        node("pass", Operator::Passthrough, vec![edge("out", 0, "in")]),
    ];
    assert_eq!(ExecutableGraph::new("g".to_string(), nodes).err(), Some(GraphError::NotForward));
}

#[test]
fn graph_rejects_edges_past_its_end() {
    let nodes = vec![node("in", Operator::Input, vec![edge("out", 1, "in")])];
    assert_eq!(ExecutableGraph::new("g".to_string(), nodes).err(), Some(GraphError::NotForward));
}

#[test]
fn graph_hands_an_event_through() {
    let mut g = passthrough_graph();
    let mut out = Vec::new();
    let e = event(7, 10, Value::I64(3));
    assert_eq!(g.enqueue("in", e, &mut out), Ok(()));
    assert_eq!(out, vec![("out".to_string(), event(7, 10, Value::I64(3)))]);
}

#[test]
fn graph_fans_out_inside() {
    let nodes = vec![
        node("in", Operator::Input, vec![edge("out", 1, "in"), edge("out", 2, "in")]),
        node("a", Operator::Output, vec![]),
        node("b", Operator::Output, vec![]),
    ];
    let mut g = ExecutableGraph::new("g".to_string(), nodes).unwrap();
    let mut out = Vec::new();
    assert_eq!(g.enqueue("in", event(1, 1, Value::Null), &mut out), Ok(()));
    assert_eq!(
        out,
        vec![
            ("a".to_string(), event(1, 1, Value::Null)),
            ("b".to_string(), event(1, 1, Value::Null)),
        ]
    );
}

#[test]
fn graph_knows_its_inputs() {
    let mut g = passthrough_graph();
    let mut out = Vec::new();
    assert_eq!(
        g.enqueue("elsewhere", event(1, 1, Value::Null), &mut out),
        Err(GraphError::UnknownInput)
    );
    assert!(out.is_empty());
}

#[test]
fn pipeline_ignores_messages_until_started() {
    let mut p = Pipeline::new(TremorUrl::new("pipeline", "main"), passthrough_graph());
    assert_eq!(p.state(), Lifecycle::Starting);
    let acts = p.handle(Msg::ConnectOfframp("out".to_string(), sink("a"), ChannelId(1)));
    assert!(acts.is_empty());
    p.start();
    assert_eq!(p.state(), Lifecycle::Running);
    let acts = p.handle(Msg::Event { event: event(1, 1, Value::Null), input: "in".to_string() });
    assert!(acts.is_empty());
}

#[test]
fn pipeline_stops() {
    let mut p = running(passthrough_graph());
    assert!(p.handle(Msg::Stop).is_empty());
    assert_eq!(p.state(), Lifecycle::Stopped);
    p.start();
    assert_eq!(p.state(), Lifecycle::Stopped);
    let acts = p.handle(Msg::Event { event: event(1, 1, Value::Null), input: "in".to_string() });
    assert!(acts.is_empty());
}

#[test]
fn fan_out_reaches_every_destination_in_order() {
    let mut p = running(passthrough_graph());
    p.handle(Msg::ConnectOfframp("out".to_string(), sink("a"), ChannelId(1)));
    p.handle(Msg::ConnectOfframp("out".to_string(), sink("b"), ChannelId(2)));
    p.handle(Msg::ConnectPipeline(
        "out".to_string(),
        TremorUrl::with_port("pipeline", "next", "in2"),
        Addr { addr: ChannelId(3), id: TremorUrl::new("pipeline", "next") },
    ));
    let acts = p.handle(Msg::Event { event: event(9, 5, Value::I64(1)), input: "in".to_string() });
    assert_eq!(
        acts,
        vec![
            Action::Event {
                to: Dest::Offramp(ChannelId(1)),
                input: "in".to_string(),
                event: event(9, 5, Value::I64(1)),
            },
            Action::Event {
                to: Dest::Offramp(ChannelId(2)),
                input: "in".to_string(),
                event: event(9, 5, Value::I64(1)),
            },
            Action::Event {
                to: Dest::Pipeline(Addr {
                    addr: ChannelId(3),
                    id: TremorUrl::new("pipeline", "next"),
                }),
                input: "in2".to_string(),
                event: event(9, 5, Value::I64(1)),
            },
        ]
    );
}

#[test]
fn ports_are_kept_apart() {
    let mut p = running(two_port_graph());
    p.handle(Msg::ConnectOfframp("out".to_string(), sink("good"), ChannelId(1)));
    p.handle(Msg::ConnectOfframp("err".to_string(), sink("bad"), ChannelId(2)));
    // the breaker lets through what came in at 50 or later
    let acts = p.handle(Msg::Event { event: event(1, 60, Value::Null), input: "in".to_string() });
    assert_eq!(
        acts,
        vec![Action::Event {
            to: Dest::Offramp(ChannelId(1)),
            input: "in".to_string(),
            event: event(1, 60, Value::Null),
        }]
    );
    let acts = p.handle(Msg::Event { event: event(2, 10, Value::Null), input: "in".to_string() });
    assert_eq!(
        acts,
        vec![Action::Event {
            to: Dest::Offramp(ChannelId(2)),
            input: "in".to_string(),
            event: event(2, 10, Value::Null),
        }]
    );
}

#[test]
fn event_for_an_unconnected_port_goes_nowhere() {
    let mut p = running(passthrough_graph());
    let acts = p.handle(Msg::Event { event: event(1, 1, Value::Null), input: "in".to_string() });
    assert!(acts.is_empty());
}

#[test]
fn event_for_an_unknown_input_is_rejected() {
    let mut p = running(passthrough_graph());
    let acts = p.handle(Msg::Event { event: event(1, 1, Value::Null), input: "nope".to_string() });
    assert_eq!(acts, vec![Action::Rejected { error: GraphError::UnknownInput }]);
}

#[test]
fn destination_without_a_port_cannot_be_delivered_to() {
    let mut p = running(passthrough_graph());
    p.handle(Msg::ConnectOfframp("out".to_string(), TremorUrl::new("offramp", "a"), ChannelId(1)));
    p.handle(Msg::ConnectOfframp("out".to_string(), sink("b"), ChannelId(2)));
    let acts = p.handle(Msg::Event { event: event(1, 1, Value::Null), input: "in".to_string() });
    assert_eq!(
        acts,
        vec![
            Action::Undeliverable { id: TremorUrl::new("offramp", "a") },
            Action::Event {
                to: Dest::Offramp(ChannelId(2)),
                input: "in".to_string(),
                event: event(1, 1, Value::Null),
            },
        ]
    );
}

#[test]
fn disconnect_takes_a_destination_off_its_port() {
    let mut p = running(passthrough_graph());
    p.handle(Msg::ConnectOfframp("out".to_string(), sink("a"), ChannelId(1)));
    p.handle(Msg::ConnectOfframp("out".to_string(), sink("b"), ChannelId(2)));
    assert!(p.handle(Msg::DisconnectOutput("out".to_string(), sink("a"))).is_empty());
    let acts = p.handle(Msg::Event { event: event(1, 1, Value::Null), input: "in".to_string() });
    assert_eq!(
        acts,
        vec![Action::Event {
            to: Dest::Offramp(ChannelId(2)),
            input: "in".to_string(),
            event: event(1, 1, Value::Null),
        }]
    );
    p.handle(Msg::DisconnectOutput("out".to_string(), sink("b")));
    let acts = p.handle(Msg::Event { event: event(2, 1, Value::Null), input: "in".to_string() });
    assert!(acts.is_empty());
    // disconnecting what is not connected changes nothing
    assert!(p.handle(Msg::DisconnectOutput("out".to_string(), sink("b"))).is_empty());
    assert!(p.handle(Msg::DisconnectOutput("other".to_string(), sink("b"))).is_empty());
}

fn signal_targets(acts: &[Action]) -> Vec<Dest> {
    let mut targets = Vec::new();
    for a in acts {
        match a {
            Action::Signal { to, signal } => {
                assert_eq!(signal.kind, EventKind::Tick);
                targets.push(match to {
                    Dest::Offramp(c) => Dest::Offramp(*c),
                    Dest::Pipeline(a) => Dest::Pipeline(Addr {
                        addr: a.addr,
                        id: TremorUrl {
                            scheme: a.id.scheme.clone(),
                            instance: a.id.instance.clone(),
                            port: a.id.port.clone(),
                        },
                    }),
                });
            }
            other => panic!("unexpected action {:?}", other),
        }
    }
    targets
}

#[test]
fn tick_is_not_sent_back_to_the_pipeline_itself() {
    let own = TremorUrl::new("pipeline", "main");
    let mut p = running(passthrough_graph());
    // a feedback edge: the pipeline is its own destination
    p.handle(Msg::ConnectPipeline(
        "out".to_string(),
        TremorUrl::new("pipeline", "main"),
        Addr { addr: ChannelId(9), id: TremorUrl::new("pipeline", "main") },
    ));
    p.handle(Msg::ConnectOfframp("out".to_string(), sink("a"), ChannelId(1)));
    p.handle(Msg::ConnectPipeline(
        "err".to_string(),
        TremorUrl::with_port("pipeline", "next", "in"),
        Addr { addr: ChannelId(3), id: TremorUrl::new("pipeline", "next") },
    ));
    let acts = p.handle(Msg::Signal(Event::tick(77)));
    let targets = signal_targets(&acts);
    assert_eq!(targets.len(), 2);
    assert!(targets.contains(&Dest::Offramp(ChannelId(1))));
    assert!(targets.contains(&Dest::Pipeline(Addr {
        addr: ChannelId(3),
        id: TremorUrl::new("pipeline", "next")
    })));
    assert!(!targets.contains(&Dest::Pipeline(Addr { addr: ChannelId(9), id: own })));
    for a in &acts {
        if let Action::Signal { signal, .. } = a {
            assert_eq!(signal, &Event::tick(77));
        }
    }
}

#[test]
fn tick_reaches_a_destination_once_however_often_it_is_connected() {
    let mut p = running(passthrough_graph());
    p.handle(Msg::ConnectOfframp("out".to_string(), sink("a"), ChannelId(1)));
    p.handle(Msg::ConnectOfframp("err".to_string(), sink("a"), ChannelId(1)));
    p.handle(Msg::ConnectOfframp("out".to_string(), sink("b"), ChannelId(2)));
    let acts = p.handle(Msg::Signal(Event::tick(5)));
    let targets = signal_targets(&acts);
    assert_eq!(targets.len(), 2);
    assert!(targets.contains(&Dest::Offramp(ChannelId(1))));
    assert!(targets.contains(&Dest::Offramp(ChannelId(2))));
}

fn control_ids(acts: &[Action], trigger: bool) -> Vec<(String, u64)> {
    let mut ids = Vec::new();
    for a in acts {
        match a {
            Action::Trigger { id, addr } if trigger => ids.push((id.to_string(), addr.0)),
            Action::Restore { id, addr } if !trigger => ids.push((id.to_string(), addr.0)),
            other => panic!("unexpected action {:?}", other),
        }
    }
    ids.sort();
    ids
}

#[test]
fn trigger_reaches_every_source_once() {
    let mut p = running(passthrough_graph());
    p.handle(Msg::ConnectOnramp(TremorUrl::new("onramp", "a"), ChannelId(10)));
    p.handle(Msg::ConnectOnramp(TremorUrl::new("onramp", "b"), ChannelId(11)));
    p.handle(Msg::ConnectOnramp(TremorUrl::new("onramp", "a"), ChannelId(12)));
    let acts = p.handle(Msg::Insight(insight("trigger")));
    assert_eq!(
        control_ids(&acts, true),
        vec![("onramp://a".to_string(), 12), ("onramp://b".to_string(), 11)]
    );
}

#[test]
fn restore_reaches_every_source_once() {
    let mut p = running(passthrough_graph());
    p.handle(Msg::ConnectOnramp(TremorUrl::new("onramp", "a"), ChannelId(10)));
    p.handle(Msg::ConnectOnramp(TremorUrl::new("onramp", "b"), ChannelId(11)));
    let acts = p.handle(Msg::Insight(insight("restore")));
    assert_eq!(
        control_ids(&acts, false),
        vec![("onramp://a".to_string(), 10), ("onramp://b".to_string(), 11)]
    );
}

#[test]
fn trigger_goes_before_restore() {
    let mut p = running(passthrough_graph());
    p.handle(Msg::ConnectOnramp(TremorUrl::new("onramp", "a"), ChannelId(10)));
    let mut both = insight("trigger");
    both.meta.insert("restore".to_string(), Value::Bool(true));
    let acts = p.handle(Msg::Insight(both));
    assert_eq!(control_ids(&acts, true), vec![("onramp://a".to_string(), 10)]);
}

#[test]
fn insight_without_flags_tells_the_sources_nothing() {
    let mut p = running(passthrough_graph());
    p.handle(Msg::ConnectOnramp(TremorUrl::new("onramp", "a"), ChannelId(10)));
    assert!(p.handle(Msg::Insight(insight("other"))).is_empty());
    let mut off = insight("trigger");
    off.meta.insert("trigger".to_string(), Value::Bool(false));
    assert!(p.handle(Msg::Insight(off)).is_empty());
}

#[test]
fn disconnected_source_is_not_told() {
    let mut p = running(passthrough_graph());
    p.handle(Msg::ConnectOnramp(TremorUrl::new("onramp", "a"), ChannelId(10)));
    p.handle(Msg::ConnectOnramp(TremorUrl::new("onramp", "b"), ChannelId(11)));
    p.handle(Msg::DisconnectInput(TremorUrl::new("onramp", "a")));
    let acts = p.handle(Msg::Insight(insight("trigger")));
    assert_eq!(control_ids(&acts, true), vec![("onramp://b".to_string(), 11)]);
}

#[test]
fn breaker_opens_on_an_error_and_closes_on_a_tick() {
    let mut p = running(two_port_graph());
    p.handle(Msg::ConnectOfframp("out".to_string(), sink("good"), ChannelId(1)));
    p.handle(Msg::ConnectOfframp("err".to_string(), sink("bad"), ChannelId(2)));
    p.handle(Msg::ConnectOnramp(TremorUrl::new("onramp", "a"), ChannelId(10)));
    // feedback that reports an error at 1000 opens the breaker until 1100
    let acts = p.handle(Msg::Insight(insight("error")));
    assert_eq!(control_ids(&acts, true), vec![("onramp://a".to_string(), 10)]);
    let acts = p.handle(Msg::Event { event: event(1, 1050, Value::Null), input: "in".to_string() });
    assert_eq!(
        acts,
        vec![Action::Event {
            to: Dest::Offramp(ChannelId(2)),
            input: "in".to_string(),
            event: event(1, 1050, Value::Null),
        }]
    );
    // a second error while it is open does not trigger the sources again
    let acts = p.handle(Msg::Insight(insight("error")));
    assert!(acts.is_empty());
    // a tick before the time is up changes nothing
    let acts = p.handle(Msg::Signal(Event::tick(1099)));
    assert_eq!(signal_targets(&acts).len(), 2);
    // the first tick after it closes the breaker and restores the sources
    let acts = p.handle(Msg::Signal(Event::tick(1100)));
    let (signals, controls): (Vec<Action>, Vec<Action>) =
        acts.into_iter().partition(|a| matches!(a, Action::Signal { .. }));
    assert_eq!(signals.len(), 2);
    assert_eq!(control_ids(&controls, false), vec![("onramp://a".to_string(), 10)]);
    let acts = p.handle(Msg::Event { event: event(2, 1200, Value::Null), input: "in".to_string() });
    assert_eq!(
        acts,
        vec![Action::Event {
            to: Dest::Offramp(ChannelId(1)),
            input: "in".to_string(),
            event: event(2, 1200, Value::Null),
        }]
    );
}

#[test]
fn address_is_written_with_and_without_port() {
    assert_eq!(TremorUrl::new("onramp", "a").to_string(), "onramp://a");
    assert_eq!(TremorUrl::with_port("pipeline", "main", "in").to_string(), "pipeline://main/in");
    let mut u = TremorUrl::with_port("pipeline", "main", "in");
    assert_eq!(u.instance_port(), Some("in"));
    u.trim_to_instance();
    assert_eq!(u.instance_port(), None);
    assert!(u.equals(&TremorUrl::new("pipeline", "main")));
    assert!(!u.equals(&TremorUrl::new("pipeline", "other")));
}

fn script(exprs: Vec<Expr>) -> Script {
    Script {
        imports: vec![],
        exprs,
        consts: vec![],
        aggregates: vec![],
        functions: vec![],
        locals: 0,
        node_meta: NodeMetas::new(vec![]),
        docs: Docs::default(),
        recursion_limit: 64,
    }
}

fn number(i: i64) -> ImutExprInt {
    ImutExprInt::Literal(Literal { mid: 0, value: Value::I64(i) })
}

fn event_field(name: &str) -> ImutExprInt {
    ImutExprInt::Path(Path::Event(EventPath {
        mid: 0,
        segments: vec![Segment::Id { key: name.to_string(), mid: 0 }],
    }))
}

fn whole_event() -> ImutExprInt {
    ImutExprInt::Path(Path::Event(EventPath { mid: 0, segments: vec![] }))
}

/// match event of case %{a > 5} => event.a + 1 default => emit end
fn guarded_increment() -> Script {
    script(vec![Expr::Match(Box::new(Match {
        mid: 0,
        target: whole_event(),
        patterns: vec![
            PredicateClause {
                mid: 0,
                pattern: Pattern::Record(RecordPattern {
                    mid: 0,
                    fields: vec![PredicatePattern::Bin {
                        lhs: "a".to_string(),
                        key: "a".to_string(),
                        rhs: number(5),
                        kind: BinOpKind::Gt,
                    }],
                }),
                guard: None,
                exprs: vec![Expr::Imut(ImutExprInt::Binary(Box::new(BinExpr {
                    mid: 0,
                    kind: BinOpKind::Add,
                    lhs: event_field("a"),
                    rhs: number(1),
                })))],
            },
            PredicateClause {
                mid: 0,
                pattern: Pattern::Default,
                guard: None,
                exprs: vec![Expr::Emit(Box::new(EmitExpr {
                    mid: 0,
                    expr: whole_event(),
                    port: None,
                }))],
            },
        ],
    }))])
}

/// in -> script, whose `out` leads to the exit `out` and whose `err` to the
/// exit `err`
fn script_graph(s: Script, state: Value) -> ExecutableGraph {
    let nodes = vec![
        node("in", Operator::Input, vec![edge("out", 1, "in")]),
        node(
            "script",
            Operator::Script { script: s, state },
            vec![edge("out", 2, "in"), edge("err", 3, "in")],
        ),
        node("out", Operator::Output, vec![]),
        node("err", Operator::Output, vec![]),
    ];
    ExecutableGraph::new("scripted".to_string(), nodes).unwrap()
}

fn record(fields: &[(&str, Value)]) -> Value {
    let mut o = Value::object();
    for (k, v) in fields {
        o.insert(k.to_string(), v.clone());
    }
    o
}

#[test]
fn script_operator_emits_what_the_script_makes_of_the_event() {
    let mut g = script_graph(guarded_increment(), Value::Null);
    let mut out = Vec::new();
    assert_eq!(g.enqueue("in", event(1, 5, record(&[("a", Value::I64(10))])), &mut out), Ok(()));
    assert_eq!(out, vec![("out".to_string(), event(1, 5, Value::I64(11)))]);
    out.clear();
    assert_eq!(g.enqueue("in", event(2, 6, record(&[("a", Value::I64(1))])), &mut out), Ok(()));
    assert_eq!(out, vec![("out".to_string(), event(2, 6, record(&[("a", Value::I64(1))])))]);
}

#[test]
fn event_on_which_the_script_fails_leaves_on_the_err_port_only() {
    let mut p = running(script_graph(guarded_increment(), Value::Null));
    p.handle(Msg::ConnectOfframp("out".to_string(), sink("good"), ChannelId(1)));
    p.handle(Msg::ConnectOfframp("err".to_string(), sink("bad"), ChannelId(2)));
    let ok = Msg::Event { event: event(1, 5, record(&[("a", Value::I64(7))])), input: "in".to_string() };
    assert_eq!(
        p.handle(ok),
        vec![Action::Event {
            to: Dest::Offramp(ChannelId(1)),
            input: "in".to_string(),
            event: event(1, 5, Value::I64(8)),
        }]
    );
    // `a` is no number: the pattern cannot be evaluated
    let bad = record(&[("a", Value::string("seven"))]);
    let acts = p.handle(Msg::Event { event: event(2, 6, bad.clone()), input: "in".to_string() });
    let mut marked = event(2, 6, bad);
    marked.meta.insert("error".to_string(), Value::string("InvalidBinary"));
    assert_eq!(
        acts,
        vec![Action::Event {
            to: Dest::Offramp(ChannelId(2)),
            input: "in".to_string(),
            event: marked,
        }]
    );
    // the pipeline goes on after the failure
    let ok = Msg::Event { event: event(3, 7, record(&[("a", Value::I64(9))])), input: "in".to_string() };
    assert_eq!(p.handle(ok).len(), 1);
}

#[test]
fn script_operator_keeps_its_state_between_events() {
    // let state = event.n; emit on the first event; later events see the state
    let count = script(vec![
        Expr::Match(Box::new(Match {
            mid: 0,
            target: ImutExprInt::Path(Path::State(StatePath { mid: 0, segments: vec![] })),
            patterns: vec![
                PredicateClause {
                    mid: 0,
                    pattern: Pattern::Expr(ImutExprInt::Literal(Literal {
                        mid: 0,
                        value: Value::Null,
                    })),
                    guard: None,
                    exprs: vec![Expr::Assign {
                        mid: 0,
                        path: Path::State(StatePath { mid: 0, segments: vec![] }),
                        expr: Box::new(Expr::Imut(number(0))),
                    }],
                },
                PredicateClause {
                    mid: 0,
                    pattern: Pattern::Default,
                    guard: None,
                    exprs: vec![Expr::Imut(number(0))],
                },
            ],
        })),
        Expr::Assign {
            mid: 0,
            path: Path::State(StatePath { mid: 0, segments: vec![] }),
            expr: Box::new(Expr::Imut(ImutExprInt::Binary(Box::new(BinExpr {
                mid: 0,
                kind: BinOpKind::Add,
                lhs: ImutExprInt::Path(Path::State(StatePath { mid: 0, segments: vec![] })),
                rhs: whole_event(),
            })))),
        },
    ]);
    let mut g = script_graph(count, Value::Null);
    let mut out = Vec::new();
    for (i, n) in [3, 4, 5].iter().enumerate() {
        assert_eq!(g.enqueue("in", event(i as u64, 1, Value::I64(*n)), &mut out), Ok(()));
    }
    let sums: Vec<Value> = out.into_iter().map(|(_, e)| e.value).collect();
    assert_eq!(sums, vec![Value::I64(3), Value::I64(7), Value::I64(12)]);
}

#[test]
fn script_operator_drops_and_names_ports() {
    let to_side = script(vec![Expr::Emit(Box::new(EmitExpr {
        mid: 0,
        expr: number(1),
        port: Some(ImutExprInt::Literal(Literal { mid: 0, value: Value::string("err") })),
    }))]);
    let mut g = script_graph(to_side, Value::Null);
    let mut out = Vec::new();
    assert_eq!(g.enqueue("in", event(1, 1, Value::Null), &mut out), Ok(()));
    assert_eq!(out, vec![("err".to_string(), event(1, 1, Value::I64(1)))]);
    let mut g = script_graph(script(vec![Expr::Drop { mid: 0 }]), Value::Null);
    let mut out = Vec::new();
    assert_eq!(g.enqueue("in", event(1, 1, Value::Null), &mut out), Ok(()));
    assert!(out.is_empty());
}
