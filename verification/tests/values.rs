use tremor_runtime::event::{Event, EventKind};
use tremor_runtime::graph::{Node, Operator};
use tremor_runtime::pipeline::{Create, Lifecycle, Manager, ManagerMsg, ManagerStep, TICK_MS};
use tremor_runtime::table::{Addr, ChannelId};
use tremor_runtime::url::TremorUrl;
use tremor_runtime::value::{Value, ValueType};

#[test]
fn records_keep_their_fields_in_order_and_by_name() {
    let mut o = Value::object();
    o.insert("b".to_string(), Value::I64(1));
    o.insert("a".to_string(), Value::I64(2));
    o.insert("b".to_string(), Value::I64(3));
    assert_eq!(
        o,
        Value::Object(vec![("b".to_string(), Value::I64(3)), ("a".to_string(), Value::I64(2))])
    );
    assert_eq!(o.get("a"), Some(&Value::I64(2)));
    assert_eq!(o.get("c"), None);
    assert_eq!(Value::I64(1).get("a"), None);
    let mut not_a_record = Value::I64(1);
    not_a_record.insert("a".to_string(), Value::Null);
    assert_eq!(not_a_record, Value::I64(1));
}

#[test]
fn values_answer_for_their_type() {
    assert_eq!(Value::null().value_type(), ValueType::Null);
    assert_eq!(Value::Bool(true).value_type(), ValueType::Bool);
    assert_eq!(Value::I64(1).value_type(), ValueType::I64);
    assert_eq!(Value::string("s").value_type(), ValueType::String);
    assert_eq!(Value::Array(vec![]).value_type(), ValueType::Array);
    assert_eq!(Value::object().value_type(), ValueType::Object);
    assert_eq!(Value::Bool(true).as_bool(), Some(true));
    assert_eq!(Value::I64(1).as_bool(), None);
    assert_eq!(Value::I64(1).as_i64(), Some(1));
    assert_eq!(Value::string("x").as_str(), Some("x"));
    assert_eq!(Value::Null.as_str(), None);
    let a = Value::Array(vec![Value::I64(1), Value::I64(2)]);
    assert_eq!(a.get_idx(1), Some(&Value::I64(2)));
    assert_eq!(a.get_idx(2), None);
    assert_eq!(Value::Null.get_idx(0), None);
}

#[test]
fn copies_are_equal_to_what_they_copy() {
    let mut o = Value::object();
    o.insert("list".to_string(), Value::Array(vec![Value::I64(1), Value::string("x"), Value::Null]));
    o.insert("inner".to_string(), Value::object());
    let c = o.clone();
    assert_eq!(c, o);
    assert!(c.equals(&o));
    let mut other = o.clone();
    other.insert("inner".to_string(), Value::Bool(false));
    assert!(!other.equals(&o));
    assert!(!Value::Array(vec![Value::I64(1)]).equals(&Value::Array(vec![])));
    assert!(!Value::I64(1).equals(&Value::Bool(true)));
    let e = Event {
        id: 3,
        value: o,
        meta: Value::object(),
        ingest_ns: 9,
        origin_uri: Some(TremorUrl::with_port("onramp", "a", "out")),
        kind: EventKind::Normal,
        is_batch: true,
    };
    assert_eq!(e.clone(), e);
}

#[test]
fn tick_is_a_bare_signal() {
    let t = Event::tick(5);
    assert_eq!(t.kind, EventKind::Tick);
    assert_eq!(t.ingest_ns, 5);
    assert_eq!(t.value, Value::Null);
    assert_eq!(t.meta, Value::object());
    assert!(!t.flag("trigger"));
    assert_eq!(TICK_MS, 1000);
}

#[test]
fn manager_makes_running_pipelines() {
    let manager = Manager::new(16);
    assert_eq!(manager.qsize(), 16);
    assert_eq!(Manager::default().qsize(), 0);
    let nodes = || {
        vec![
            Node { id: "in".to_string(), op: Operator::Input, edges: vec![] },
            Node { id: "out".to_string(), op: Operator::Output, edges: vec![] },
        ]
    };
    let id = || TremorUrl::with_port("pipeline", "main", "in");
    let (addr, pipeline) =
        manager.start_pipeline(Create { config: nodes(), id: id() }, ChannelId(4)).unwrap();
    assert_eq!(addr, Addr { addr: ChannelId(4), id: id() });
    assert_eq!(pipeline.state(), Lifecycle::Running);
    assert!(matches!(manager.serve(None, ChannelId(0)), ManagerStep::Stopped));
    assert!(matches!(manager.serve(Some(ManagerMsg::Stop), ChannelId(0)), ManagerStep::Stopped));
    let create = ManagerMsg::Create(ChannelId(7), Create { config: nodes(), id: id() });
    match manager.serve(Some(create), ChannelId(5)) {
        ManagerStep::Answer { reply_to, result } => {
            assert_eq!(reply_to, ChannelId(7));
            let (addr, _) = result.unwrap();
            assert_eq!(addr.addr, ChannelId(5));
        }
        ManagerStep::Stopped => panic!("the manager stopped"),
    }
}

#[test]
fn reading_a_record_gives_what_was_set() {
    let mut o = Value::object();
    o.insert("a".to_string(), Value::I64(1));
    o.insert("b".to_string(), Value::I64(2));
    let before_b = o.get("b").cloned();
    o.insert("a".to_string(), Value::string("new"));
    assert_eq!(o.get("a"), Some(&Value::string("new")));
    assert_eq!(o.get("b").cloned(), before_b);
    o.insert("c".to_string(), Value::Null);
    assert_eq!(o.get("c"), Some(&Value::Null));
    assert_eq!(o.get("a"), Some(&Value::string("new")));
    // no name stands twice
    match &o {
        Value::Object(fields) => {
            let mut names: Vec<&String> = fields.iter().map(|(k, _)| k).collect();
            names.sort();
            names.dedup();
            assert_eq!(names.len(), fields.len());
        }
        other => panic!("unexpected {:?}", other),
    }
}

#[test]
fn records_are_the_same_whatever_the_order_of_their_fields() {
    let pairs = |fields: &[(&str, Value)]| {
        Value::Object(fields.iter().map(|(k, v)| (k.to_string(), v.clone())).collect())
    };
    let ab = pairs(&[("a", Value::I64(1)), ("b", Value::I64(2))]);
    let ba = pairs(&[("b", Value::I64(2)), ("a", Value::I64(1))]);
    assert!(ab.equals(&ba));
    assert!(ba.equals(&ab));
    assert!(!ab.equals(&pairs(&[("b", Value::I64(1)), ("a", Value::I64(2))])));
    assert!(!ab.equals(&pairs(&[("a", Value::I64(1))])));
    assert!(!pairs(&[("a", Value::I64(1))]).equals(&ab));
    assert!(!ab.equals(&pairs(&[("a", Value::I64(1)), ("c", Value::I64(2))])));
    assert!(pairs(&[]).equals(&Value::object()));
    // records inside records and arrays are compared the same way
    let outer = |inner: Value| pairs(&[("list", Value::Array(vec![inner])), ("n", Value::Null)]);
    assert!(outer(ab.clone()).equals(&outer(ba.clone())));
    assert!(!outer(ab.clone()).equals(&outer(Value::Null)));
    // arrays keep their order
    let xy = Value::Array(vec![Value::I64(1), Value::I64(2)]);
    let yx = Value::Array(vec![Value::I64(2), Value::I64(1)]);
    assert!(!xy.equals(&yx));
}
