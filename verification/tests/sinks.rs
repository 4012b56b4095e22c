use simd_json::prelude::{ValueAsScalar, ValueObjectAccess};
use tremor_runtime::codec::json::JSON;
use tremor_runtime::codec::{Codec, CodecError};
use tremor_runtime::event::{Event, EventKind};
use tremor_runtime::offramp::served::Served;
use tremor_runtime::offramp::{
    lookup, CreateOfframp, Manager, Offramp, OfframpError, OfframpKind, OfframpMsg, Reply,
};
use tremor_runtime::op::offramp::stdout::{Config, ConfigError, Offramp as StdOutOp};
use tremor_runtime::sink::stdout::StdOut;
use tremor_runtime::sink::Sink;
use tremor_runtime::table::{Addr, ChannelId};
use tremor_runtime::url::TremorUrl;
use tremor_runtime::value::Value;

/// Writes integers as their decimal digits and strings as their bytes; any
/// other value as bytes that are no text.
struct Plain;

impl Codec for Plain {
    fn decode(&mut self, data: Vec<u8>, _ingest_ns: u64) -> Result<Option<Value>, CodecError> {
        match String::from_utf8(data) {
            Ok(s) => Ok(Some(Value::String(s))),
            Err(_) => Err(CodecError::Malformed),
        }
    }

    fn encode(&self, data: &Value) -> Result<Vec<u8>, CodecError> {
        match data {
            Value::I64(i) => Ok(format!("{}", i).into_bytes()),
            Value::String(s) => Ok(s.clone().into_bytes()),
            Value::Null => Err(CodecError::Unrepresentable),
            _ => Ok(vec![0xff, 0x00, 0x7f]),
        }
    }
}

fn event(value: Value, is_batch: bool) -> Event {
    Event {
        id: 1,
        value,
        meta: Value::object(),
        ingest_ns: 0,
        origin_uri: None,
        kind: EventKind::Normal,
        is_batch,
    }
}

#[test]
fn offramps_are_looked_up_by_name() {
    let names = [
        ("blackhole", OfframpKind::Blackhole),
        ("debug", OfframpKind::Debug),
        ("elastic", OfframpKind::Elastic),
        ("file", OfframpKind::File),
        ("gcs", OfframpKind::Gcs),
        ("gpub", OfframpKind::Gpub),
        ("kafka", OfframpKind::Kafka),
        ("rest", OfframpKind::Rest),
        ("stdout", OfframpKind::StdOut),
        ("stderr", OfframpKind::StdErr),
        ("tcp", OfframpKind::Tcp),
        ("udp", OfframpKind::Udp),
    ];
    for (name, kind) in names {
        assert_eq!(lookup(name.to_string()), Ok(kind));
    }
    assert_eq!(lookup("Stdout".to_string()), Err(OfframpError::NotKnown("Stdout".to_string())));
    assert_eq!(lookup("".to_string()), Err(OfframpError::NotKnown("".to_string())));
}

#[test]
fn stdout_sink_writes_text_as_it_is_and_other_bytes_as_a_list() {
    assert_eq!(StdOut::render(b"hello".to_vec()), b"hello".to_vec());
    assert_eq!(StdOut::render(vec![]), Vec::<u8>::new());
    assert_eq!(StdOut::render(vec![0xff, 0x00, 0x7f]), b"[255, 0, 127]".to_vec());
    assert_eq!(StdOut::render("é".as_bytes().to_vec()), "é".as_bytes().to_vec());
}

#[test]
fn stdout_sink_encodes_each_value_of_an_event() {
    let mut sink = StdOut::from_config(&None);
    let reply = sink.on_event("in", &Plain, event(Value::I64(12), false)).unwrap();
    assert_eq!(reply.chunks, vec![b"12".to_vec()]);
    assert_eq!(reply.insights, None);
    let batch = Value::Array(vec![Value::I64(1), Value::string("two"), Value::Bool(true)]);
    let reply = sink.on_event("in", &Plain, event(batch.clone(), true)).unwrap();
    assert_eq!(reply.chunks, vec![b"1".to_vec(), b"two".to_vec(), b"[255, 0, 127]".to_vec()]);
    // an array that is no batch is one value
    let reply = sink.on_event("in", &Plain, event(batch, false)).unwrap();
    assert_eq!(reply.chunks, vec![b"[255, 0, 127]".to_vec()]);
    assert_eq!(
        sink.on_event("in", &Plain, event(Value::Null, false)),
        Err(CodecError::Unrepresentable)
    );
    let failing = Value::Array(vec![Value::I64(1), Value::Null]);
    assert_eq!(sink.on_event("in", &Plain, event(failing, true)), Err(CodecError::Unrepresentable));
}

#[test]
fn stdout_sink_answers_for_itself() {
    let mut sink = StdOut::from_config(&Some(Value::I64(1)));
    assert_eq!(sink.default_codec(), "json");
    assert!(sink.is_active());
    assert!(sink.auto_ack());
    sink.init(&vec!["lines".to_string()]);
    assert_eq!(sink.postprocessors, vec!["lines".to_string()]);
    let reply = sink.on_signal(Event::tick(1)).unwrap();
    assert!(reply.chunks.is_empty() && reply.insights.is_none());
}

#[test]
fn stdout_operator_is_configured_with_a_prefix() {
    assert_eq!(StdOutOp::new(&Value::Null), Ok(StdOutOp { config: Config { prefix: None } }));
    assert_eq!(StdOutOp::new(&Value::object()), Ok(StdOutOp { config: Config { prefix: None } }));
    let mut opts = Value::object();
    opts.insert("prefix".to_string(), Value::string("> "));
    assert_eq!(
        StdOutOp::new(&opts),
        Ok(StdOutOp { config: Config { prefix: Some("> ".to_string()) } })
    );
    let mut opts = Value::object();
    opts.insert("prefix".to_string(), Value::I64(1));
    assert_eq!(StdOutOp::new(&opts), Err(ConfigError::BadPrefix));
    assert_eq!(StdOutOp::new(&Value::I64(1)), Err(ConfigError::NotARecord));
}

#[test]
fn stdout_operator_puts_the_prefix_before_the_message() {
    let mut op = StdOutOp { config: Config { prefix: Some("cfg: ".to_string()) } };
    assert_eq!(op.exec(b"hello".to_vec(), &Value::object()), "cfg: hello");
    let mut vars = Value::object();
    vars.insert("prefix".to_string(), Value::string("var: "));
    assert_eq!(op.exec(b"hello".to_vec(), &vars), "var: hello");
    let mut vars = Value::object();
    vars.insert("prefix".to_string(), Value::I64(1));
    assert_eq!(op.exec(b"hello".to_vec(), &vars), "cfg: hello");
    let mut bare = StdOutOp { config: Config { prefix: None } };
    assert_eq!(bare.exec(b"hello".to_vec(), &Value::Null), "hello");
    let shown = bare.exec(vec![0x61, 0xff], &Value::Null);
    assert!(shown.starts_with("FromUtf8Error"), "{}", shown);
    assert!(shown.contains("valid_up_to: 1"), "{}", shown);
}

struct Counting {
    events: usize,
    pipelines: Vec<String>,
}

impl Offramp for Counting {
    fn start(&mut self, _codec: &dyn Codec, _postprocessors: &Vec<String>) {}

    fn on_event(&mut self, _codec: &dyn Codec, _input: String, _event: Event) {
        self.events += 1;
    }

    fn default_codec(&self) -> &str {
        "json"
    }

    fn add_pipeline(&mut self, id: TremorUrl, _addr: Addr) {
        self.pipelines.push(id.to_string());
    }

    fn remove_pipeline(&mut self, id: TremorUrl) -> bool {
        let gone = id.to_string();
        self.pipelines.retain(|p| *p != gone);
        self.pipelines.is_empty()
    }
}

#[test]
fn offramp_manager_hands_messages_on_and_answers_a_disconnect() {
    let manager = Manager { qsize: 8 };
    assert_eq!(Manager::default().qsize, 0);
    let mut sink = Served::new(Counting { events: 0, pipelines: vec![] });
    assert_eq!(manager.start(&mut sink, &Plain, &vec!["lines".to_string()]), 8);
    let pipeline = |name: &str| TremorUrl::new("pipeline", name);
    let addr = |name: &str| Addr { addr: ChannelId(1), id: pipeline(name) };
    let connect = |name: &str| OfframpMsg::Connect { id: pipeline(name), addr: addr(name) };
    assert_eq!(manager.handle(&mut sink, &Plain, connect("a")), None);
    assert_eq!(manager.handle(&mut sink, &Plain, connect("b")), None);
    let msg = OfframpMsg::Event { event: event(Value::Null, false), input: "in".to_string() };
    assert_eq!(manager.handle(&mut sink, &Plain, msg), None);
    assert_eq!(sink.sink().events, 1);
    assert_eq!(manager.handle(&mut sink, &Plain, OfframpMsg::Signal(Event::tick(1))), None);
    assert_eq!(sink.sink().events, 1);
    assert_eq!(
        sink.sink().pipelines,
        vec!["pipeline://a".to_string(), "pipeline://b".to_string()]
    );
    let disconnect = |name: &str, tx: u64| OfframpMsg::Disconnect { id: pipeline(name), tx: ChannelId(tx) };
    assert_eq!(
        manager.handle(&mut sink, &Plain, disconnect("a", 5)),
        Some(Reply { to: ChannelId(5), done: false })
    );
    assert_eq!(
        manager.handle(&mut sink, &Plain, disconnect("b", 6)),
        Some(Reply { to: ChannelId(6), done: true })
    );
}

#[test]
fn requests_and_addresses_are_shown_with_their_address() {
    let req = CreateOfframp {
        id: TremorUrl::new("offramp", "out"),
        kind: OfframpKind::StdOut,
        codec: "json".to_string(),
        postprocessors: vec![],
    };
    assert_eq!(req.to_string(), "StartOfframp(offramp://out)");
    let addr = Addr { addr: ChannelId(1), id: TremorUrl::with_port("pipeline", "main", "in") };
    assert_eq!(addr.to_string(), "Pipeline(pipeline://main/in)");
}

#[test]
fn json_codec_reads_json_and_rejects_what_is_none() {
    let mut codec = JSON {};
    let value = codec.decode(br#"{"a": 10, "b": "x"}"#.to_vec(), 0).unwrap().unwrap();
    assert_eq!(value.get("a").and_then(|v| v.as_i64()), Some(10));
    assert_eq!(value.get("b").and_then(|v| v.as_str()), Some("x"));
    assert_eq!(codec.decode(b"{\"a\": ".to_vec(), 0), Err(CodecError::Malformed));
    assert_eq!(codec.decode(b"nonsense".to_vec(), 0), Err(CodecError::Malformed));
    assert_eq!(codec.encode(&value).map(|b| b.len()), Ok(br#"{"a":10,"b":"x"}"#.len()));
    let again = codec.decode(codec.encode(&value).unwrap(), 0).unwrap().unwrap();
    assert_eq!(again, value);
}
