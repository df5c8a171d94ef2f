use vstd::prelude::*;
use crate::datadog_ids::{ids_view, DatadogSpanId, DatadogTraceId};
use crate::fields::{attrs_of, Attr, FieldPair};
use crate::sorting::{is_sorted_by_name, lemma_sorted_by_name, sort_by_name, sorted_by_name};

verus! {

/// Lower-case hexadecimal digits.
pub open spec fn hex_digit(d: nat) -> char {
    seq!['0', '1', '2', '3', '4', '5', '6', '7', '8', '9', 'a', 'b', 'c', 'd', 'e', 'f'][d as int]
}

/// How one character stands inside a JSON string: the quote and the
/// backslash behind a backslash, the control characters with a short escape
/// where JSON has one and as `\u00XX` otherwise, every other character as
/// itself.
pub open spec fn escape_char(c: char) -> Seq<char> {
    let n = c as u32;
    if c == '"' {
        seq!['\\', '"']
    } else if c == '\\' {
        seq!['\\', '\\']
    } else if n == 0x08 {
        seq!['\\', 'b']
    } else if n == 0x09 {
        seq!['\\', 't']
    } else if n == 0x0a {
        seq!['\\', 'n']
    } else if n == 0x0c {
        seq!['\\', 'f']
    } else if n == 0x0d {
        seq!['\\', 'r']
    } else if n < 0x20 {
        seq!['\\', 'u', '0', '0', hex_digit((n / 16) as nat), hex_digit((n % 16) as nat)]
    } else {
        seq![c]
    }
}

/// The escaped characters of `s`, one after another.
pub open spec fn escape_all(s: Seq<char>) -> Seq<char>
    decreases s.len(),
{
    if s.len() == 0 {
        Seq::empty()
    } else {
        escape_all(s.drop_last()) + escape_char(s.last())
    }
}

/// The JSON string literal for `s`: its escaped characters between quotes.
pub open spec fn json_string(s: Seq<char>) -> Seq<char> {
    seq!['"'] + escape_all(s) + seq!['"']
}

/// The first and last day, counted from January 1 of year 1, that chrono's
/// dates can hold: January 1 of year -262143 and December 31 of 262142.
pub open spec fn chrono_min_day() -> int {
    -95746129
}

pub open spec fn chrono_max_day() -> int {
    95745399
}

/// Whether chrono can represent the UTC instant `secs` seconds and `nanos`
/// nanoseconds after the Unix epoch (day 719163 counted from January 1 of
/// year 1): its day in chrono's range, and a nanosecond count of at most one
/// second past the whole second, a second past only on a second that ends
/// a minute (a leap second).
pub open spec fn chrono_accepts(secs: int, nanos: int) -> bool {
    let day = secs / 86400 + 719163;
    &&& chrono_min_day() <= day <= chrono_max_day()
    &&& nanos < 2_000_000_000
    &&& (nanos < 1_000_000_000 || (secs % 86400) % 60 == 59)
}

/// The RFC 3339 text that chrono gives for the UTC instant `secs` seconds
/// and `nanos` nanoseconds after the Unix epoch.
pub uninterp spec fn rfc3339_text(secs: int, nanos: int) -> Seq<char>;

/// Relies on `serde_json::to_string` for a `str`: the string between quotes,
/// escaped by serde_json's escape table (`format_escaped_str_contents`),
/// which escapes ASCII bytes only, so every other character is copied. The
/// serializer writes into a `Vec<u8>`, which cannot fail, so the error arm is
/// never taken.
#[verifier::external_body]
fn json_quote(s: &str) -> (r: String)
    ensures
        r@ == json_string(s@),
{
    serde_json::to_string(s).unwrap_or_default()
}

/// Relies on `chrono::DateTime::<Utc>::from_timestamp`, which gives `None`
/// exactly when the day is out of `NaiveDate`'s range or the nanosecond
/// count is invalid (`NaiveTime::from_num_seconds_from_midnight_opt`), and on
/// `DateTime::to_rfc3339` for the text of the instant.
#[verifier::external_body]
fn rfc3339_of(secs: i64, nanos: u32) -> (r: Option<String>)
    ensures
        r is Some <==> chrono_accepts(secs as int, nanos as int),
        r matches Some(t) ==> t@ == rfc3339_text(secs as int, nanos as int),
{
    match chrono::DateTime::<chrono::Utc>::from_timestamp(secs, nanos) {
        Some(t) => Some(t.to_rfc3339()),
        None => None,
    }
}

/// The severity of a log event.
#[derive(Debug, Clone, Copy, PartialEq, Eq, Structural)]
pub enum LogLevel {
    Trace,
    Debug,
    Info,
    Warn,
    Error,
}

pub open spec fn level_name(level: LogLevel) -> Seq<char> {
    match level {
        LogLevel::Trace => "TRACE"@,
        LogLevel::Debug => "DEBUG"@,
        LogLevel::Info => "INFO"@,
        LogLevel::Warn => "WARN"@,
        LogLevel::Error => "ERROR"@,
    }
}

impl LogLevel {
    /// The upper-case name of the level, as it appears in a record.
    pub fn as_str(&self) -> (r: &'static str)
        ensures
            r@ == level_name(*self),
    {
        match self {
            LogLevel::Trace => "TRACE",
            LogLevel::Debug => "DEBUG",
            LogLevel::Info => "INFO",
            LogLevel::Warn => "WARN",
            LogLevel::Error => "ERROR",
        }
    }
}

/// A UTC instant: whole seconds since the Unix epoch and the nanoseconds
/// within that second.
#[derive(Debug, Clone, Copy, PartialEq, Eq, Structural)]
pub struct Timestamp {
    pub secs: i64,
    pub nanos: u32,
}

/// Everything a record is made from.
#[derive(Debug, Clone)]
pub struct DatadogLog {
    pub timestamp: Timestamp,
    pub level: LogLevel,
    pub message: String,
    pub fields: Vec<FieldPair>,
    pub target: String,
    pub datadog_ids: Option<(DatadogTraceId, DatadogSpanId)>,
}

/// What is written in place of a record that cannot be formatted.
pub open spec fn format_failure() -> Seq<char> {
    "Failed to serialize a log to json"@
}

pub open spec fn is_message(a: Attr) -> bool {
    a.0 == "message"@
}

/// The attributes not named `message`, in their order.
pub open spec fn non_message(s: Seq<Attr>) -> Seq<Attr>
    decreases s.len(),
{
    if s.len() == 0 {
        Seq::empty()
    } else if is_message(s.last()) {
        non_message(s.drop_last())
    } else {
        non_message(s.drop_last()).push(s.last())
    }
}

/// Index of the first character at or after `i` that is not a double quote.
pub open spec fn quotes_end(s: Seq<char>, i: nat) -> nat
    decreases s.len() - i,
{
    if i < s.len() && s[i as int] == '"' {
        quotes_end(s, i + 1)
    } else {
        i
    }
}

/// Index just past the last character before `j`, and not before `lo`,
/// that is not a double quote.
pub open spec fn quotes_start(s: Seq<char>, j: nat, lo: nat) -> nat
    decreases j,
{
    if j > lo && j <= s.len() && s[j - 1] == '"' {
        quotes_start(s, (j - 1) as nat, lo)
    } else {
        j
    }
}

/// `s` without the double quotes at either end; quotes inside are kept.
pub open spec fn trim_quotes(s: Seq<char>) -> Seq<char> {
    let a = quotes_end(s, 0);
    s.subrange(a as int, quotes_start(s, s.len(), a) as int)
}

/// ` name=value` for one attribute, with the value's end quotes removed.
pub open spec fn inline_text(a: Attr) -> Seq<char> {
    " "@ + a.0 + "="@ + trim_quotes(a.1)
}

/// The inline texts of `s`, one after another.
pub open spec fn inline_all(s: Seq<Attr>) -> Seq<char>
    decreases s.len(),
{
    if s.len() == 0 {
        Seq::empty()
    } else {
        inline_all(s.drop_last()) + inline_text(s.last())
    }
}

/// The attributes of a record other than `message`, ordered by name.
pub open spec fn record_attrs(fields: Seq<Attr>) -> Seq<Attr> {
    sorted_by_name(non_message(fields))
}

/// The message of a record: the base message followed by every other
/// attribute in name order.
pub open spec fn full_message(base: Seq<char>, fields: Seq<Attr>) -> Seq<char> {
    base + inline_all(record_attrs(fields))
}

/// A JSON entry as its key and the JSON text of its value.
pub type Entry = (Seq<char>, Seq<char>);

pub open spec fn text_entry(key: Seq<char>, value: Seq<char>) -> Entry {
    (key, json_string(value))
}

pub open spec fn field_entry(a: Attr) -> Entry {
    text_entry("fields."@ + a.0, trim_quotes(a.1))
}

/// The field entries for the first `n` of the sorted attributes `s`: one
/// per attribute, in their order, names repeated as often as they occur.
pub open spec fn field_entries(s: Seq<Attr>, n: nat) -> Seq<Entry>
    decreases n,
{
    if n == 0 || n > s.len() {
        Seq::empty()
    } else {
        field_entries(s, (n - 1) as nat).push(field_entry(s[n - 1]))
    }
}

/// A record has one field entry for each attribute other than `message`, in
/// name order, repeated names included, each holding that attribute's value
/// with its end quotes removed.
pub proof fn lemma_field_entry_per_attribute(s: Seq<Attr>, n: nat)
    requires
        n <= s.len(),
    ensures
        field_entries(s, n).len() == n,
        forall|i: int| 0 <= i < n ==> #[trigger] field_entries(s, n)[i] == field_entry(s[i]),
    decreases n,
{
    if n > 0 {
        lemma_field_entry_per_attribute(s, (n - 1) as nat);
    }
}

/// Decimal digits.
pub open spec fn digit(d: nat) -> char {
    "0123456789"@[d as int]
}

/// The decimal text of `n`, as JSON writes an unsigned integer.
pub open spec fn decimal(n: nat) -> Seq<char>
    decreases n,
{
    if n < 10 {
        seq![digit(n)]
    } else {
        decimal(n / 10).push(digit(n % 10))
    }
}

pub open spec fn id_entries(ids: Option<(u64, u64)>) -> Seq<Entry> {
    match ids {
        None => Seq::empty(),
        Some((t, s)) => seq![("dd.trace_id"@, decimal(t as nat)), ("dd.span_id"@, decimal(s as nat))],
    }
}

/// The entries of a record, in order: timestamp, level, the field entries,
/// message, target, and the correlation ids when there are any.
pub open spec fn entries_of(
    timestamp: Seq<char>,
    level: LogLevel,
    message: Seq<char>,
    fields: Seq<Attr>,
    target: Seq<char>,
    ids: Option<(u64, u64)>,
) -> Seq<Entry> {
    let attrs = record_attrs(fields);
    seq![text_entry("timestamp"@, timestamp), text_entry("level"@, level_name(level))]
        + field_entries(attrs, attrs.len())
        + seq![text_entry("message"@, full_message(message, fields)), text_entry("target"@, target)]
        + id_entries(ids)
}

/// The entries of the record for `log`, given the text of its timestamp.
pub open spec fn record_entries(log: DatadogLog, timestamp: Seq<char>) -> Seq<Entry> {
    entries_of(
        timestamp,
        log.level,
        log.message@,
        attrs_of(log.fields@),
        log.target@,
        ids_view(log.datadog_ids),
    )
}

pub open spec fn entry_text(e: Entry) -> Seq<char> {
    json_string(e.0) + ":"@ + e.1
}

/// The entries joined by commas.
pub open spec fn join_entries(es: Seq<Entry>) -> Seq<char>
    decreases es.len(),
{
    if es.len() == 0 {
        Seq::empty()
    } else if es.len() == 1 {
        entry_text(es[0])
    } else {
        join_entries(es.drop_last()) + ","@ + entry_text(es.last())
    }
}

/// The one-line JSON object holding `es`.
pub open spec fn object_text(es: Seq<Entry>) -> Seq<char> {
    "{"@ + join_entries(es) + "}"@
}

/// The one-line JSON object for `log`.
pub open spec fn record_text(log: DatadogLog, timestamp: Seq<char>) -> Seq<char> {
    object_text(record_entries(log, timestamp))
}

/// The pairs of `fields` not named `message`, in their order.
fn non_message_fields(fields: &Vec<FieldPair>) -> (r: Vec<FieldPair>)
    ensures
        attrs_of(r@) == non_message(attrs_of(fields@)),
{
    let ghost s = attrs_of(fields@);
    let mut key = String::new();
    key.append("message");
    let mut out: Vec<FieldPair> = Vec::new();
    let mut i: usize = 0;
    while i < fields.len()
        invariant
            s == attrs_of(fields@),
            key@ == "message"@,
            i <= fields@.len(),
            attrs_of(out@) == non_message(s.subrange(0, i as int)),
        decreases fields@.len() - i,
    {
        proof {
            assert(s.subrange(0, i + 1).drop_last() =~= s.subrange(0, i as int));
        }
        if fields[i].name != key {
            let ghost before = out@;
            let p = fields[i].copy_pair();
            out.push(p);
            proof {
                assert(attrs_of(out@) =~= attrs_of(before).push(p@));
            }
        }
        i = i + 1;
    }
    proof {
        assert(s.subrange(0, i as int) =~= s);
    }
    out
}

/// `s` without the double quotes at either end.
fn strip_end_quotes(s: &str) -> (r: &str)
    ensures
        r@ == trim_quotes(s@),
{
    let n = s.unicode_len();
    let mut a: usize = 0;
    while a < n && s.get_char(a) == '"'
        invariant
            n == s@.len(),
            a <= n,
            quotes_end(s@, 0) == quotes_end(s@, a as nat),
        decreases n - a,
    {
        a = a + 1;
    }
    let mut b: usize = n;
    while b > a && s.get_char(b - 1) == '"'
        invariant
            n == s@.len(),
            a <= b <= n,
            quotes_start(s@, n as nat, a as nat) == quotes_start(s@, b as nat, a as nat),
        decreases b,
    {
        b = b - 1;
    }
    s.substring_char(a, b)
}

/// Appends the decimal text of `n`.
fn push_decimal(out: &mut String, n: u64)
    ensures
        final(out)@ == old(out)@ + decimal(n as nat),
    decreases n,
{
    if n >= 10 {
        push_decimal(out, n / 10);
    }
    let digits = "0123456789";
    proof {
        reveal_strlit("0123456789");
    }
    let d = (n % 10) as usize;
    out.append(digits.substring_char(d, d + 1));
    proof {
        assert(digits@.subrange(d as int, d + 1) =~= seq![digit(d as nat)]);
        if n >= 10 {
            assert(decimal(n as nat) == decimal((n / 10) as nat).push(digit((n % 10) as nat)));
        } else {
            assert(decimal(n as nat) == seq![digit(n as nat)]);
        }
    }
}

/// Appends the entry `key: value` to a record under construction that holds
/// `es` so far; `value` is already JSON text.
fn push_entry(out: &mut String, Ghost(es): Ghost<Seq<Entry>>, first: bool, key: &str, value: &str)
    requires
        old(out)@ == "{"@ + join_entries(es),
        first == (es.len() == 0),
    ensures
        final(out)@ == "{"@ + join_entries(es.push((key@, value@))),
{
    if !first {
        out.append(",");
    }
    let k = json_quote(key);
    out.append(k.as_str());
    out.append(":");
    out.append(value);
    proof {
        let e = (key@, value@);
        let t = es.push(e);
        assert(t.drop_last() =~= es);
        if es.len() == 0 {
            assert(join_entries(t) == entry_text(e));
        }
    }
}

impl DatadogLog {
    /// The record for this log, with `timestamp` as the text of its instant.
    pub fn format_with_timestamp(&self, timestamp: &str) -> (r: String)
        ensures
            r@ == record_text(*self, timestamp@),
    {
        let ghost attrs = record_attrs(attrs_of(self.fields@));
        let others = non_message_fields(&self.fields);
        let sorted = sort_by_name(&others);
        assert(attrs_of(sorted@) == attrs);
        let mut out = String::new();
        out.append("{");
        let ghost mut es: Seq<Entry> = Seq::empty();
        assert(out@ == "{"@ + join_entries(es));
        let ts = json_quote(timestamp);
        push_entry(&mut out, Ghost(es), true, "timestamp", ts.as_str());
        proof { es = es.push(text_entry("timestamp"@, timestamp@)); }
        let lv = json_quote(self.level.as_str());
        push_entry(&mut out, Ghost(es), false, "level", lv.as_str());
        proof { es = es.push(text_entry("level"@, level_name(self.level))); }
        let ghost head = es;
        let mut message = self.message.clone();
        let mut i: usize = 0;
        while i < sorted.len()
            invariant
                attrs_of(sorted@) == attrs,
                i <= sorted@.len(),
                head.len() == 2,
                es == head + field_entries(attrs, i as nat),
                out@ == "{"@ + join_entries(es),
                message@ == self.message@ + inline_all(attrs.subrange(0, i as int)),
            decreases sorted@.len() - i,
        {
            let f = &sorted[i];
            let value = strip_end_quotes(f.value.as_str());
            message.append(" ");
            message.append(f.name.as_str());
            message.append("=");
            message.append(value);
            proof {
                let sub = attrs.subrange(0, i + 1);
                assert(sub.drop_last() =~= attrs.subrange(0, i as int));
                assert(sub.last() == attrs[i as int]);
            }
            let mut key = String::new();
            key.append("fields.");
            key.append(f.name.as_str());
            let v = json_quote(value);
            push_entry(&mut out, Ghost(es), false, key.as_str(), v.as_str());
            proof {
                es = es.push(field_entry(attrs[i as int]));
                assert(head + field_entries(attrs, (i + 1) as nat) =~= es);
            }
            i = i + 1;
        }
        proof {
            assert(attrs.subrange(0, i as int) =~= attrs);
        }
        let m = json_quote(message.as_str());
        push_entry(&mut out, Ghost(es), false, "message", m.as_str());
        proof { es = es.push(text_entry("message"@, full_message(self.message@, attrs_of(self.fields@)))); }
        let t = json_quote(self.target.as_str());
        push_entry(&mut out, Ghost(es), false, "target", t.as_str());
        proof { es = es.push(text_entry("target"@, self.target@)); }
        match self.datadog_ids {
            Some((trace_id, span_id)) => {
                let mut tv = String::new();
                push_decimal(&mut tv, trace_id.0);
                push_entry(&mut out, Ghost(es), false, "dd.trace_id", tv.as_str());
                proof { es = es.push(("dd.trace_id"@, decimal(trace_id.0 as nat))); }
                let mut sv = String::new();
                push_decimal(&mut sv, span_id.0);
                push_entry(&mut out, Ghost(es), false, "dd.span_id", sv.as_str());
                proof { es = es.push(("dd.span_id"@, decimal(span_id.0 as nat))); }
            },
            None => {},
        }
        out.append("}");
        proof {
            assert(es =~= record_entries(*self, timestamp@));
        }
        out
    }

    /// The record for this log, one line of JSON. When chrono cannot
    /// represent the timestamp, a fixed diagnostic line stands in its place.
    pub fn format(self) -> (r: String)
        ensures
            chrono_accepts(self.timestamp.secs as int, self.timestamp.nanos as int) ==> r@
                == record_text(self, rfc3339_text(self.timestamp.secs as int, self.timestamp.nanos as int)),
            !chrono_accepts(self.timestamp.secs as int, self.timestamp.nanos as int) ==> r@
                == format_failure(),
    {
        match rfc3339_of(self.timestamp.secs, self.timestamp.nanos) {
            Some(ts) => self.format_with_timestamp(ts.as_str()),
            None => {
                let mut r = String::new();
                r.append("Failed to serialize a log to json");
                r
            },
        }
    }
}

proof fn lemma_non_message_excludes(s: Seq<Attr>)
    ensures
        forall|x: Attr| non_message(s).contains(x) ==> !is_message(x),
    decreases s.len(),
{
    if s.len() > 0 {
        lemma_non_message_excludes(s.drop_last());
        let prev = non_message(s.drop_last());
        if !is_message(s.last()) {
            assert forall|x: Attr| non_message(s).contains(x) implies !is_message(x) by {
                let k = choose|k: int| 0 <= k < non_message(s).len() && non_message(s)[k] == x;
                if k < prev.len() {
                    assert(prev[k] == x);
                }
            }
        }
    }
}

/// The message of a record inlines every attribute not named `message`,
/// each exactly as often as it was given, ordered by name, and no other.
pub proof fn lemma_message_inlines_attributes(base: Seq<char>, fields: Seq<Attr>)
    ensures
        full_message(base, fields) == base + inline_all(record_attrs(fields)),
        is_sorted_by_name(record_attrs(fields)),
        record_attrs(fields).to_multiset() == non_message(fields).to_multiset(),
        record_attrs(fields).len() == non_message(fields).len(),
        forall|i: int| 0 <= i < record_attrs(fields).len() ==> !is_message(#[trigger] record_attrs(fields)[i]),
{
    broadcast use vstd::seq_lib::group_to_multiset_ensures;

    let t = record_attrs(fields);
    lemma_sorted_by_name(non_message(fields));
    lemma_non_message_excludes(fields);
    assert forall|i: int| 0 <= i < t.len() implies !is_message(#[trigger] t[i]) by {
        assert(t.contains(t[i]));
        assert(t.to_multiset().count(t[i]) > 0);
        assert(non_message(fields).contains(t[i]));
    }
}

/// Formatting depends only on the attributes, level, message, target,
/// correlation ids and timestamp text: the same input gives the same record.
pub proof fn lemma_format_deterministic(a: DatadogLog, b: DatadogLog, timestamp: Seq<char>)
    requires
        attrs_of(a.fields@) == attrs_of(b.fields@),
        a.level == b.level,
        a.message@ == b.message@,
        a.target@ == b.target@,
        a.datadog_ids == b.datadog_ids,
    ensures
        record_text(a, timestamp) == record_text(b, timestamp),
{
    assert(record_entries(a, timestamp) == record_entries(b, timestamp));
}

/// Every field entry has a key that starts with `fields.`.
pub proof fn lemma_field_entry_keys(s: Seq<Attr>, n: nat)
    ensures
        forall|i: int| 0 <= i < field_entries(s, n).len() ==> (#[trigger] field_entries(s, n)[i]).0.len() > 0
            && field_entries(s, n)[i].0[0] == 'f',
    decreases n,
{
    reveal_strlit("fields.");
    if n > 0 && n <= s.len() {
        lemma_field_entry_keys(s, (n - 1) as nat);
        let prev = field_entries(s, (n - 1) as nat);
        let cur = field_entries(s, n);
        assert forall|i: int| 0 <= i < cur.len() implies (#[trigger] cur[i]).0.len() > 0 && cur[i].0[0] == 'f' by {
            if i < prev.len() {
                assert(cur[i] == prev[i]);
            } else {
                assert(cur[i] == field_entry(s[n - 1]));
                assert(("fields."@ + s[n - 1].0)[0] == "fields."@[0]);
            }
        }
    }
}

/// A record without correlation ids has no `dd.trace_id` or `dd.span_id`
/// entry.
pub proof fn lemma_no_ids_no_correlation_keys(
    timestamp: Seq<char>,
    level: LogLevel,
    message: Seq<char>,
    fields: Seq<Attr>,
    target: Seq<char>,
)
    ensures
        forall|i: int| 0 <= i < entries_of(timestamp, level, message, fields, target, None).len() ==>
            (#[trigger] entries_of(timestamp, level, message, fields, target, None)[i]).0 != "dd.trace_id"@
            && entries_of(timestamp, level, message, fields, target, None)[i].0 != "dd.span_id"@,
{
    reveal_strlit("dd.trace_id");
    reveal_strlit("dd.span_id");
    reveal_strlit("timestamp");
    reveal_strlit("level");
    reveal_strlit("message");
    reveal_strlit("target");
    let attrs = record_attrs(fields);
    let fe = field_entries(attrs, attrs.len());
    lemma_field_entry_keys(attrs, attrs.len());
    let es = entries_of(timestamp, level, message, fields, target, None);
    assert forall|i: int| 0 <= i < es.len() implies (#[trigger] es[i]).0 != "dd.trace_id"@
        && es[i].0 != "dd.span_id"@ by {
        if 2 <= i < 2 + fe.len() {
            assert(es[i] == fe[i - 2]);
            assert(es[i].0[0] != "dd.trace_id"@[0]);
            assert(es[i].0[0] != "dd.span_id"@[0]);
        } else {
            assert(es[i].0[0] != "dd.trace_id"@[0]);
        }
    }
}

} // verus!
