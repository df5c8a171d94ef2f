use datadog_formatting_layer::{
    timestamp_from_clock, DatadogFormattingLayer, EventSink, FieldPair, FieldStore, LogLevel,
    StdoutSink, TraceContext, Timestamp,
};
use serde_json::Value;
use std::sync::{Arc, Mutex};

#[derive(Debug, Clone, Default)]
struct ObservableSink {
    events: Arc<Mutex<Vec<String>>>,
}

impl EventSink for ObservableSink {
    fn write(&self, event: String) {
        println!("{event}");
        self.events.lock().unwrap().push(event);
    }
}

impl ObservableSink {
    fn events(&self) -> Vec<String> {
        self.events.lock().unwrap().clone()
    }
}

/// Plays the host runtime: a stack of active scopes, each with its store
/// slot and tracing context, and a layer that events go through.
struct Host<S: EventSink> {
    layer: DatadogFormattingLayer<S>,
    scopes: Vec<Option<FieldStore>>,
    contexts: Vec<Option<TraceContext>>,
}

impl<S: EventSink> Host<S> {
    fn new(sink: S) -> Self {
        Host { layer: DatadogFormattingLayer::with_sink(sink), scopes: vec![], contexts: vec![] }
    }

    fn enter(&mut self, recorded: Vec<FieldPair>, ctx: Option<TraceContext>) {
        let mut slot = None;
        self.layer.on_new_span(&mut slot, recorded);
        self.scopes.push(slot);
        self.contexts.push(ctx);
    }

    fn exit(&mut self) {
        self.scopes.pop();
        self.contexts.pop();
    }

    fn event(&self, level: LogLevel, target: &str, recorded: Vec<FieldPair>) {
        let ctx = self.contexts.last().copied().flatten();
        let chain: Vec<FieldStore> = self
            .scopes
            .iter()
            .map(|s| s.clone().expect("No Fields found in span extensions"))
            .collect();
        self.layer.on_event(recorded, level, target.to_string(), &chain, ctx);
    }
}

fn pair(name: &str, value: &str) -> FieldPair {
    FieldPair { name: name.to_string(), value: value.to_string() }
}

fn msg(text: &str) -> Vec<FieldPair> {
    vec![pair("message", text)]
}

fn ctx(trace: u128, span: u64) -> Option<TraceContext> {
    Some(TraceContext { trace_id: trace.to_be_bytes(), span_id: Some(span.to_be_bytes()) })
}

fn trace_id(event: &str) -> Option<u64> {
    let log: Value = serde_json::from_str(event).unwrap();
    log.get("dd.trace_id").map(|id| id.as_u64().unwrap())
}

fn span_id(event: &str) -> Option<u64> {
    let log: Value = serde_json::from_str(event).unwrap();
    log.get("dd.span_id").map(|id| id.as_u64().unwrap())
}

fn is_valid(id: Option<u64>) -> bool {
    matches!(id, Some(v) if v != 0)
}

const SETUP: &str = "datadog_formatting_layer::layer::setup";

/// A scope for `first_span(first_value)` holding a scope for `second_span()`
/// with `attr = "value"`, which returns "Return Value".
fn first_span<S: EventSink>(host: &mut Host<S>, first_value: &str, outer: Option<TraceContext>, inner: Option<TraceContext>) {
    host.enter(vec![pair("first_value", &format!("{first_value:?}"))], outer);
    host.event(LogLevel::Debug, SETUP, msg("First Span!"));
    host.enter(vec![pair("attr", "\"value\"")], inner);
    host.event(LogLevel::Debug, SETUP, msg("Second Span!"));
    host.event(LogLevel::Info, SETUP, vec![pair("return", "\"Return Value\"")]);
    host.exit();
    host.exit();
}

/// `first(args)` with `second()` inside it, both instrumented with their
/// return values; `second` returns `Err("Error!")`.
fn first_and_second<S: EventSink>(host: &mut Host<S>, target: &str, args: &str) {
    host.enter(vec![pair("args", &format!("{args:?}"))], None);
    host.event(LogLevel::Debug, target, msg(&format!("In first {args}")));
    host.enter(vec![], None);
    host.event(LogLevel::Info, target, vec![pair("return", "Err(\"Error!\")")]);
    host.exit();
    host.event(LogLevel::Info, target, vec![pair("return", "()")]);
    host.exit();
}

#[test]
fn simple_log() {
    let sink = ObservableSink::default();
    let host = Host::new(sink.clone());
    host.event(LogLevel::Info, "datadog_formatting_layer::layer::simple_layer", msg("Hello World!"));
    let events = sink.events();
    assert_eq!(events.len(), 1);
    assert!(events[0].contains("\",\"level\":\"INFO\",\"message\":\"Hello World!\",\"target\":\"datadog_formatting_layer::layer::simple_layer\"}"));
}

#[test]
fn log_with_fields() {
    let sink = ObservableSink::default();
    let host = Host::new(sink.clone());
    host.event(
        LogLevel::Info,
        "datadog_formatting_layer::layer::simple_layer",
        vec![pair("user", "\"John Doe\""), pair("message", "Hello World!")],
    );
    let events = sink.events();
    assert_eq!(events.len(), 1);
    assert!(events[0].contains("\",\"level\":\"INFO\",\"fields.user\":\"John Doe\",\"message\":\"Hello World! user=John Doe\",\"target\":\"datadog_formatting_layer::layer::simple_layer\"}"));
}

#[test]
fn layer_complex_logs() {
    let sink = ObservableSink::default();
    let mut host = Host::new(sink.clone());
    first_span(&mut host, "Argument", None, None);
    let events = sink.events();
    assert_eq!(events.len(), 3);
    assert!(events[0].contains("\",\"level\":\"DEBUG\",\"fields.first_value\":\"Argument\",\"message\":\"First Span! first_value=Argument\",\"target\":\"datadog_formatting_layer::layer::setup\"}"));
    assert!(events[1].contains("\",\"level\":\"DEBUG\",\"fields.attr\":\"value\",\"fields.first_value\":\"Argument\",\"message\":\"Second Span! attr=value first_value=Argument\",\"target\":\"datadog_formatting_layer::layer::setup\"}"));
    assert!(events[2].contains("\",\"level\":\"INFO\",\"fields.attr\":\"value\",\"fields.first_value\":\"Argument\",\"fields.return\":\"Return Value\",\"message\":\" attr=value first_value=Argument return=Return Value\",\"target\":\"datadog_formatting_layer::layer::setup\"}"));
}

#[test]
fn without_spans_has_no_datadog_ids() {
    let sink = ObservableSink::default();
    let host = Host::new(sink.clone());
    host.event(LogLevel::Info, "layer", msg("Hello World!"));
    let events = sink.events();
    assert_eq!(events.len(), 1);
    assert_eq!(trace_id(&events[0]), None);
    assert_eq!(span_id(&events[0]), None);
}

#[test]
fn with_spans_has_correct_datadog_ids() {
    let sink = ObservableSink::default();
    let mut host = Host::new(sink.clone());
    // the root scope has a span id before its trace id is propagated
    first_span(&mut host, "Argument", ctx(0, 11), ctx(0x5_0000_0000_0000_0007, 12));
    let events = sink.events();
    assert_eq!(events.len(), 3);
    assert_eq!(trace_id(&events[0]), Some(0));
    assert!(is_valid(span_id(&events[0])));
    assert!(is_valid(trace_id(&events[1])));
    assert!(is_valid(span_id(&events[1])));
    assert_ne!(span_id(&events[1]), span_id(&events[0]));
    assert!(is_valid(trace_id(&events[2])));
    assert_eq!(trace_id(&events[2]), trace_id(&events[1]));
    assert!(is_valid(span_id(&events[2])));
    assert_eq!(span_id(&events[2]), span_id(&events[1]));
}

#[test]
fn custom_sink_works() {
    let host = Host::new(StdoutSink::default());
    host.event(LogLevel::Warn, "custom_sink", msg("Warning"));
}

fn some_test<S: EventSink>(host: &mut Host<S>, target: &str, value: &str, nested: bool) {
    host.enter(vec![pair("hello", "\"world\""), pair("value", &format!("{value:?}"))], None);
    host.event(
        LogLevel::Info,
        target,
        vec![pair("ola", "\"salve\""), pair("value", &format!("{value:?}")), pair("message", &format!("Bla {value}"))],
    );
    host.enter(vec![pair("world", "\"world\"")], None);
    host.event(LogLevel::Debug, target, vec![pair("ola", "\"salve\""), pair("message", "Hello")]);
    if nested {
        host.enter(vec![], None);
        host.event(LogLevel::Error, target, msg("Oh no :("));
        host.exit();
    }
    host.exit();
    host.exit();
}

#[test]
fn layer_feature() {
    let sink = ObservableSink::default();
    let mut host = Host::new(sink.clone());
    host.event(LogLevel::Warn, "layer", msg("Warning"));
    some_test(&mut host, "layer", "Fasel", false);
    let events = sink.events();
    assert_eq!(events.len(), 3);
    assert!(events[1].contains("\"fields.hello\":\"world\",\"fields.ola\":\"salve\",\"fields.value\":\"Fasel\",\"fields.value\":\"Fasel\",\"message\":\"Bla Fasel hello=world ola=salve value=Fasel value=Fasel\""));
    assert!(events[2].contains("\"message\":\"Hello hello=world ola=salve value=Fasel world=world\""));
}

#[test]
fn events_outside_spans_have_no_datadog_ids() {
    let sink = ObservableSink::default();
    let host = Host::new(sink.clone());
    host.event(LogLevel::Info, "layer::otel", msg("Hello World!"));
    let events = sink.events();
    assert_eq!(events.len(), 1);
    assert_eq!(trace_id(&events[0]), None);
    assert_eq!(span_id(&events[0]), None);
}

#[test]
fn first_span_generates_trace_id() {
    let sink = ObservableSink::default();
    let mut host = Host::new(sink.clone());
    host.event(LogLevel::Info, "layer::otel", msg("No trace or span"));
    host.enter(vec![], ctx(0x1234_0000_0000_0000_0000_0000_0000_abcd, 0x77));
    host.event(LogLevel::Debug, "layer::otel", msg("This has a trace and a span"));
    host.exit();
    let events = sink.events();
    assert_eq!(events.len(), 2);
    assert_eq!(trace_id(&events[0]), None);
    assert_eq!(span_id(&events[0]), None);
    assert!(is_valid(trace_id(&events[1])));
    assert!(is_valid(span_id(&events[1])));
}

#[test]
fn events_in_nested_spans_have_correct_ids() {
    let sink = ObservableSink::default();
    let mut host = Host::new(sink.clone());
    let trace: u128 = 0xdead_beef_0000_0001_0000_0000_0000_0042;
    host.enter(vec![], ctx(trace, 1));
    host.event(LogLevel::Debug, "layer::otel", msg("This has a trace and a span id"));
    host.enter(vec![], ctx(trace, 2));
    host.event(LogLevel::Error, "layer::otel", msg("This has the same trace id but a different span id"));
    host.exit();
    host.event(LogLevel::Warn, "layer::otel", msg("This has the same trace and span id as the first"));
    host.exit();
    let events = sink.events();
    assert_eq!(events.len(), 3);
    assert!(is_valid(trace_id(&events[0])));
    assert!(is_valid(span_id(&events[0])));
    assert_eq!(trace_id(&events[1]), trace_id(&events[0]));
    assert!(is_valid(span_id(&events[1])));
    assert_ne!(span_id(&events[1]), span_id(&events[0]));
    assert_eq!(trace_id(&events[2]), trace_id(&events[0]));
    assert_eq!(span_id(&events[2]), span_id(&events[0]));
}

#[test]
fn events_created_by_instrument_macro_are_correctly_printed() {
    let sink = ObservableSink::default();
    let mut host = Host::new(sink.clone());
    first_and_second(&mut host, "layer::otel", "Span");
    let events = sink.events();
    assert_eq!(events.len(), 3);
    assert!(events[0].contains("\"level\":\"DEBUG\",\"fields.args\":\"Span\",\"message\":\"In first Span args=Span\",\"target\":\"layer::otel\""));
    assert!(events[1].contains("\"level\":\"INFO\",\"fields.args\":\"Span\",\"fields.return\":\"Err(\\\"Error!\\\")\",\"message\":\" args=Span return=Err(\\\"Error!\\\")\",\"target\":\"layer::otel\""));
    assert!(events[2].contains("\"level\":\"INFO\",\"fields.args\":\"Span\",\"fields.return\":\"()\",\"message\":\" args=Span return=()\",\"target\":\"layer::otel\""));
}

#[test]
fn simple_logs_get_formatted_and_printed() {
    let sink = ObservableSink::default();
    let host = Host::new(sink.clone());
    host.event(LogLevel::Info, "layer::simple", msg("Hello World!"));
    let events = sink.events();
    assert_eq!(events.len(), 1);
    assert!(events[0].contains("\",\"level\":\"INFO\",\"message\":\"Hello World!\",\"target\":\"layer::simple\"}"));
}

#[test]
fn fields_are_formatted_and_printed() {
    let sink = ObservableSink::default();
    let host = Host::new(sink.clone());
    host.event(LogLevel::Info, "layer::simple", vec![pair("user", "\"John Doe\""), pair("message", "Hello World!")]);
    let events = sink.events();
    assert_eq!(events.len(), 1);
    assert!(events[0].contains("\",\"level\":\"INFO\",\"fields.user\":\"John Doe\",\"message\":\"Hello World! user=John Doe\",\"target\":\"layer::simple\"}"));
}

#[test]
fn simple_complex_logs() {
    let sink = ObservableSink::default();
    let mut host = Host::new(sink.clone());
    first_and_second(&mut host, "layer::simple", "Span");
    let events = sink.events();
    assert_eq!(events.len(), 3);
    assert!(events[0].contains("\"level\":\"DEBUG\",\"fields.args\":\"Span\",\"message\":\"In first Span args=Span\",\"target\":\"layer::simple\"}"));
    assert!(events[1].contains("\"level\":\"INFO\",\"fields.args\":\"Span\",\"fields.return\":\"Err(\\\"Error!\\\")\",\"message\":\" args=Span return=Err(\\\"Error!\\\")\",\"target\":\"layer::simple\"}"));
    assert!(events[2].contains("\"level\":\"INFO\",\"fields.args\":\"Span\",\"fields.return\":\"()\",\"message\":\" args=Span return=()\",\"target\":\"layer::simple\"}"));
}

#[test]
fn works_with_otel_stack() {
    let mut host = Host::new(StdoutSink::default());
    host.event(LogLevel::Warn, "otel", msg("Warning"));
    host.enter(vec![], ctx(0x0420_0000_0000_0000_0000_0000_0000_0001, 3));
    some_test(&mut host, "otel", "Fasel", true);
    host.exit();
}

#[test]
fn simple_works() {
    let mut host = Host::new(StdoutSink::default());
    host.event(LogLevel::Warn, "simple", msg("Warning"));
    some_test(&mut host, "simple", "Fasel", true);
}

#[test]
fn sub_feature() {
    let sink = ObservableSink::default();
    let mut host = Host::new(sink.clone());
    host.enter(vec![pair("hello", "\"world\""), pair("value", "\"Kevin\"")], None);
    host.event(LogLevel::Info, "sub", vec![pair("ola", "\"salve\""), pair("message", "hello there Kevin")]);
    host.exit();
    let events = sink.events();
    assert_eq!(events.len(), 1);
    assert!(events[0].contains("\"message\":\"hello there Kevin hello=world ola=salve value=Kevin\""));
}

#[test]
fn default_layer_writes_to_stdout() {
    let layer = DatadogFormattingLayer::default();
    layer.on_event(msg("to stdout"), LogLevel::Info, "t".to_string(), &vec![], None);
}

#[test]
fn format_event_gives_the_exact_record() {
    let layer = DatadogFormattingLayer::with_sink(ObservableSink::default());
    let chain = vec![
        FieldStore { fields: vec![pair("first_value", "\"Argument\"")] },
        FieldStore { fields: vec![pair("attr", "\"value\"")] },
    ];
    let text = layer.format_event(
        vec![pair("message", "Second Span!")],
        LogLevel::Debug,
        "setup".to_string(),
        &chain,
        ctx(0x0001_0000_0000_0000_0000_0000_0000_0002, 3),
        Timestamp { secs: 1_640_995_200, nanos: 0 },
    );
    assert_eq!(
        text,
        "{\"timestamp\":\"2022-01-01T00:00:00+00:00\",\"level\":\"DEBUG\",\"fields.attr\":\"value\",\"fields.first_value\":\"Argument\",\"message\":\"Second Span! attr=value first_value=Argument\",\"target\":\"setup\",\"dd.trace_id\":2,\"dd.span_id\":3}"
    );
}

#[test]
fn duplicates_across_scope_and_event_are_all_inlined() {
    let sink = ObservableSink::default();
    let mut host = Host::new(sink.clone());
    host.enter(vec![pair("n", "\"outer\"")], None);
    host.event(LogLevel::Info, "t", vec![pair("n", "\"inner\""), pair("message", "m")]);
    host.exit();
    let events = sink.events();
    assert!(events[0].contains("\"fields.n\":\"outer\",\"fields.n\":\"inner\",\"message\":\"m n=outer n=inner\""));
}

#[test]
fn first_store_of_a_scope_wins() {
    let layer = DatadogFormattingLayer::with_sink(ObservableSink::default());
    let mut slot = None;
    layer.on_new_span(&mut slot, vec![pair("a", "1")]);
    layer.on_new_span(&mut slot, vec![pair("b", "2")]);
    let store = slot.unwrap();
    assert_eq!(store.fields, vec![pair("a", "1")]);
}

#[test]
fn nested_scope_attributes_are_sorted_into_the_message() {
    let sink = ObservableSink::default();
    let mut host = Host::new(sink.clone());
    host.enter(vec![pair("first_value", "Argument")], None);
    host.enter(vec![pair("attr", "value")], None);
    host.event(LogLevel::Info, "t", msg("Inner"));
    host.exit();
    host.exit();
    assert!(sink.events()[0].contains("\"message\":\"Inner attr=value first_value=Argument\""));
}

#[test]
fn sibling_scopes_share_the_trace_id() {
    let sink = ObservableSink::default();
    let mut host = Host::new(sink.clone());
    let trace: u128 = 0x0000_0000_0000_0009_0000_0000_0000_0063;
    host.enter(vec![], ctx(trace, 1));
    host.enter(vec![], ctx(trace, 2));
    host.event(LogLevel::Info, "t", msg("first sibling"));
    host.exit();
    host.enter(vec![], ctx(trace, 3));
    host.event(LogLevel::Info, "t", msg("second sibling"));
    host.exit();
    host.exit();
    let events = sink.events();
    assert_eq!(trace_id(&events[0]), Some(0x63));
    assert_eq!(trace_id(&events[1]), Some(0x63));
    assert_eq!(span_id(&events[0]), Some(2));
    assert_eq!(span_id(&events[1]), Some(3));
}

#[test]
fn clock_readings_become_timestamps() {
    assert_eq!(timestamp_from_clock(true, 1_640_995_200, 5), Timestamp { secs: 1_640_995_200, nanos: 5 });
    assert_eq!(timestamp_from_clock(false, 10, 0), Timestamp { secs: -10, nanos: 0 });
    assert_eq!(timestamp_from_clock(false, 10, 250_000_000), Timestamp { secs: -11, nanos: 750_000_000 });
    assert_eq!(timestamp_from_clock(true, u64::MAX, 3), Timestamp { secs: i64::MAX, nanos: 0 });
    assert_eq!(timestamp_from_clock(false, u64::MAX, 3), Timestamp { secs: i64::MIN, nanos: 0 });
}

#[test]
fn events_now_carry_a_real_timestamp() {
    let sink = ObservableSink::default();
    let host = Host::new(sink.clone());
    host.event(LogLevel::Info, "t", msg("now"));
    let events = sink.events();
    assert!(events[0].starts_with("{\"timestamp\":\""));
    assert!(events[0].contains("+00:00\",\"level\":\"INFO\""));
}
