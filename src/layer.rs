use vstd::prelude::*;
use crate::datadog_ids::{correlation_of, ids_view, read_from_context, TraceContext};
use crate::event_sink::{EventSink, StdoutSink};
use crate::fields::{
    attrs_of, chain_fields, from_attributes, from_event, from_spans, recorded_fields, Attr,
    FieldPair, FieldStore,
};
use crate::formatting::{
    chrono_accepts, entries_of, format_failure, full_message, inline_all, is_message,
    lemma_message_inlines_attributes, lemma_no_ids_no_correlation_keys, non_message, object_text,
    record_attrs, record_entries, rfc3339_text, DatadogLog, Entry, LogLevel, Timestamp,
};
use crate::sorting::{is_sorted_by_name, sorted_by_name};

verus! {

/// Relies on `std::time::SystemTime::now` and `SystemTime::duration_since`
/// with `UNIX_EPOCH`: whether the clock reads at or after the epoch (`Ok`) or
/// before it (`Err`, whose `duration` is the distance back), and that
/// distance as whole seconds and the nanoseconds below one second
/// (`Duration::subsec_nanos` is always below 1_000_000_000).
#[verifier::external_body]
fn clock_since_epoch() -> (r: (bool, u64, u32))
    ensures
        r.2 < 1_000_000_000,
{
    match std::time::SystemTime::now().duration_since(std::time::UNIX_EPOCH) {
        Ok(d) => (true, d.as_secs(), d.subsec_nanos()),
        Err(e) => (false, e.duration().as_secs(), e.duration().subsec_nanos()),
    }
}

/// The instant `secs` seconds and `nanos` nanoseconds after the epoch, or
/// before it when `after` is false, as whole seconds (rounded down) and the
/// nanoseconds past them. An instant beyond the reach of `i64` seconds is
/// clamped to the nearest end; chrono cannot represent either end.
pub fn timestamp_from_clock(after: bool, secs: u64, nanos: u32) -> (r: Timestamp)
    requires
        nanos < 1_000_000_000,
    ensures
        r.nanos < 1_000_000_000,
        after && secs <= i64::MAX ==> r == (Timestamp { secs: secs as i64, nanos }),
        !after && secs < i64::MAX ==> r.secs * 1_000_000_000 + r.nanos == -(secs * 1_000_000_000
            + nanos),
        after && secs > i64::MAX ==> r == (Timestamp { secs: i64::MAX, nanos: 0 }),
        !after && secs >= i64::MAX ==> r == (Timestamp { secs: i64::MIN, nanos: 0 }),
{
    if after {
        if secs <= i64::MAX as u64 {
            Timestamp { secs: secs as i64, nanos }
        } else {
            Timestamp { secs: i64::MAX, nanos: 0 }
        }
    } else if secs < i64::MAX as u64 {
        if nanos == 0 {
            Timestamp { secs: -(secs as i64), nanos: 0 }
        } else {
            Timestamp { secs: -(secs as i64) - 1, nanos: 1_000_000_000 - nanos }
        }
    } else {
        Timestamp { secs: i64::MIN, nanos: 0 }
    }
}

/// The current instant of the system clock.
fn now() -> (r: Timestamp)
    ensures
        r.nanos < 1_000_000_000,
{
    let (after, secs, nanos) = clock_since_epoch();
    timestamp_from_clock(after, secs, nanos)
}

/// The value of the first attribute named `message`, or the empty text.
pub open spec fn base_message(s: Seq<Attr>) -> Seq<char>
    decreases s.len(),
{
    if s.len() == 0 {
        Seq::empty()
    } else if s[0].0 == "message"@ {
        s[0].1
    } else {
        base_message(s.drop_first())
    }
}

/// The value of the first pair named `message`, or the empty string.
fn find_message(fields: &Vec<FieldPair>) -> (r: String)
    ensures
        r@ == base_message(attrs_of(fields@)),
{
    let ghost s = attrs_of(fields@);
    let mut key = String::new();
    key.append("message");
    let mut i: usize = 0;
    assert(s.subrange(0, s.len() as int) =~= s);
    while i < fields.len()
        invariant
            s == attrs_of(fields@),
            key@ == "message"@,
            i <= fields@.len(),
            base_message(s) == base_message(s.subrange(i as int, s.len() as int)),
        decreases fields@.len() - i,
    {
        let ghost rest = s.subrange(i as int, s.len() as int);
        proof {
            assert(rest.drop_first() =~= s.subrange(i + 1, s.len() as int));
            assert(rest[0] == s[i as int]);
        }
        if fields[i].name == key {
            return fields[i].value.clone();
        }
        i = i + 1;
    }
    String::new()
}

/// Whether `log` is the log of an event: the base message from the event's
/// own attributes, the attributes of the enclosing scopes (outermost first)
/// followed by the event's, and the correlation ids of the tracing context.
pub open spec fn is_event_log(
    log: DatadogLog,
    event_fields: Seq<Attr>,
    scope_fields: Seq<Attr>,
    level: LogLevel,
    target: Seq<char>,
    ctx: Option<TraceContext>,
    timestamp: Timestamp,
) -> bool {
    &&& log.timestamp == timestamp
    &&& log.level == level
    &&& log.message@ == base_message(event_fields)
    &&& attrs_of(log.fields@) == scope_fields + event_fields
    &&& log.target@ == target
    &&& ids_view(log.datadog_ids) == correlation_of(ctx)
}

/// The entries of the record of an event, from its recording calls, the
/// stores of its enclosing scopes, its level, target and tracing context,
/// given the text of its timestamp.
pub open spec fn event_entries(
    recorded: Seq<Attr>,
    chain: Seq<FieldStore>,
    level: LogLevel,
    target: Seq<char>,
    ctx: Option<TraceContext>,
    timestamp: Seq<char>,
) -> Seq<Entry> {
    let ev = recorded_fields(recorded);
    entries_of(timestamp, level, base_message(ev), chain_fields(chain) + ev, target, correlation_of(ctx))
}

/// What is written for an event that happens at `timestamp`: its record when
/// chrono can represent the instant, the diagnostic line otherwise.
pub open spec fn event_record_text(
    recorded: Seq<Attr>,
    chain: Seq<FieldStore>,
    level: LogLevel,
    target: Seq<char>,
    ctx: Option<TraceContext>,
    timestamp: Timestamp,
) -> Seq<char> {
    if chrono_accepts(timestamp.secs as int, timestamp.nanos as int) {
        object_text(
            event_entries(
                recorded,
                chain,
                level,
                target,
                ctx,
                rfc3339_text(timestamp.secs as int, timestamp.nanos as int),
            ),
        )
    } else {
        format_failure()
    }
}

/// Assembles the log of an event from the event's attributes, the
/// attributes of its enclosing scopes, and its tracing context.
pub fn build_log(
    event_fields: Vec<FieldPair>,
    scope_fields: Vec<FieldPair>,
    level: LogLevel,
    target: String,
    ctx: Option<TraceContext>,
    timestamp: Timestamp,
) -> (r: DatadogLog)
    ensures
        is_event_log(r, attrs_of(event_fields@), attrs_of(scope_fields@), level, target@, ctx, timestamp),
{
    let message = find_message(&event_fields);
    let mut fields = scope_fields;
    let mut event_fields = event_fields;
    let ghost a = attrs_of(fields@);
    let ghost b = attrs_of(event_fields@);
    fields.append(&mut event_fields);
    proof {
        assert(attrs_of(fields@) =~= a + b);
    }
    DatadogLog {
        timestamp,
        level,
        message,
        fields,
        target,
        datadog_ids: read_from_context(ctx),
    }
}

/// Formats log events into records and hands each record to a sink.
#[non_exhaustive]
#[derive(Debug, Clone)]
pub struct DatadogFormattingLayer<Sink: EventSink> {
    event_sink: Sink,
}

impl<S: EventSink> DatadogFormattingLayer<S> {
    /// The sink this layer writes to.
    pub closed spec fn sink(&self) -> S {
        self.event_sink
    }

    /// A layer that writes its records to `sink`.
    pub fn with_sink(sink: S) -> (r: Self)
        ensures
            r.sink() == sink,
    {
        Self { event_sink: sink }
    }

    /// Attaches the attributes recorded for a new scope to its slot, unless
    /// the slot already holds a store.
    pub fn on_new_span(&self, slot: &mut Option<FieldStore>, recorded: Vec<FieldPair>)
        ensures
            *old(slot) is Some ==> *final(slot) == *old(slot),
            *old(slot) is None ==> (*final(slot) matches Some(store)
                && attrs_of(store.fields@) == recorded_fields(attrs_of(recorded@))),
    {
        let fields = from_attributes(recorded);
        FieldStore::create_if_absent(slot, fields);
    }

    /// The record of a log event: its recorded attributes, its level and
    /// target, the stores of its enclosing scopes (outermost first), its
    /// tracing context, and the instant it happened.
    pub fn format_event(
        &self,
        recorded: Vec<FieldPair>,
        level: LogLevel,
        target: String,
        chain: &Vec<FieldStore>,
        ctx: Option<TraceContext>,
        timestamp: Timestamp,
    ) -> (r: String)
        ensures
            r@ == event_record_text(attrs_of(recorded@), chain@, level, target@, ctx, timestamp),
    {
        let scope_fields = from_spans(chain);
        let event_fields = from_event(recorded);
        let ghost ev = attrs_of(event_fields@);
        let ghost sf = attrs_of(scope_fields@);
        let log = build_log(event_fields, scope_fields, level, target, ctx, timestamp);
        proof {
            let t = rfc3339_text(timestamp.secs as int, timestamp.nanos as int);
            assert(ids_view(log.datadog_ids) == correlation_of(ctx));
            assert(record_entries(log, t) == event_entries(attrs_of(recorded@), chain@, level, target@, ctx, t));
        }
        log.format()
    }

    /// Formats a log event that happens now and writes its record, one
    /// call of the sink's `write`: the text of `format_event` for the
    /// current instant.
    pub fn on_event(
        &self,
        recorded: Vec<FieldPair>,
        level: LogLevel,
        target: String,
        chain: &Vec<FieldStore>,
        ctx: Option<TraceContext>,
    ) {
        let text = self.format_event(recorded, level, target, chain, ctx, now());
        self.event_sink.write(text);
    }
}

/// An event fired outside any scope and without a tracing context gives a
/// record with neither a `dd.trace_id` nor a `dd.span_id` entry.
pub proof fn lemma_no_context_no_correlation(
    recorded: Seq<Attr>,
    level: LogLevel,
    target: Seq<char>,
    timestamp: Seq<char>,
)
    ensures
        forall|i: int| 0 <= i < event_entries(recorded, Seq::empty(), level, target, None, timestamp).len()
            ==> (#[trigger] event_entries(recorded, Seq::empty(), level, target, None, timestamp)[i]).0
            != "dd.trace_id"@
            && event_entries(recorded, Seq::empty(), level, target, None, timestamp)[i].0 != "dd.span_id"@,
{
    let ev = recorded_fields(recorded);
    lemma_no_ids_no_correlation_keys(timestamp, level, base_message(ev), chain_fields(Seq::empty()) + ev, target);
}

/// The message of an event's record is its base message followed by one
/// ` name=value` text for each attribute of its enclosing scopes (outermost
/// first) and of the event itself, except those named `message`: each as
/// often as it was attached, ordered by name, equal names in that order.
pub proof fn lemma_event_message_inlines_all_attributes(recorded: Seq<Attr>, chain: Seq<FieldStore>)
    ensures
        ({
            let fields = chain_fields(chain) + recorded_fields(recorded);
            &&& full_message(base_message(recorded_fields(recorded)), fields)
                == base_message(recorded_fields(recorded)) + inline_all(record_attrs(fields))
            &&& record_attrs(fields) == sorted_by_name(non_message(fields))
            &&& is_sorted_by_name(record_attrs(fields))
            &&& record_attrs(fields).to_multiset() == non_message(fields).to_multiset()
            &&& forall|i: int| 0 <= i < record_attrs(fields).len() ==> !is_message(
                #[trigger] record_attrs(fields)[i],
            )
        }),
{
    let fields = chain_fields(chain) + recorded_fields(recorded);
    lemma_message_inlines_attributes(base_message(recorded_fields(recorded)), fields);
}

impl Default for DatadogFormattingLayer<StdoutSink> {
    fn default() -> (r: Self)
        ensures
            r.sink() == StdoutSink,
    {
        Self::with_sink(StdoutSink)
    }
}

} // verus!
