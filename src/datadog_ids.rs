use vstd::prelude::*;

verus! {

/// A trace identifier in the 64-bit form the log backend expects.
#[derive(Debug, Clone, Copy, PartialEq, Eq, Structural)]
pub struct DatadogTraceId(pub u64);

/// A span identifier in the 64-bit form the log backend expects.
#[derive(Debug, Clone, Copy, PartialEq, Eq, Structural)]
pub struct DatadogSpanId(pub u64);

/// The tracing context of the innermost active scope, as raw identifier
/// bytes: a 128-bit trace id and, once assigned, a 64-bit span id.
#[derive(Debug, Clone, Copy)]
pub struct TraceContext {
    pub trace_id: [u8; 16],
    pub span_id: Option<[u8; 8]>,
}

/// The unsigned integer whose big-endian bytes are `b`.
pub open spec fn be_value(b: Seq<u8>) -> nat
    decreases b.len(),
{
    if b.len() == 0 {
        0
    } else {
        be_value(b.drop_last()) * 256 + b.last() as nat
    }
}

pub open spec fn pow256(n: nat) -> nat
    decreases n,
{
    if n == 0 {
        1
    } else {
        pow256((n - 1) as nat) * 256
    }
}

/// Reads bytes `from .. from + 8` of `b` as a big-endian integer.
fn read_be_u64(b: &[u8], from: usize) -> (r: u64)
    requires
        from <= 8,
        from + 8 <= b@.len(),
    ensures
        r as nat == be_value(b@.subrange(from as int, from + 8)),
{
    let mut acc: u64 = 0;
    let mut i: usize = from;
    assert(pow256(8) == 0x1_0000_0000_0000_0000) by {
        reveal_with_fuel(pow256, 9);
    }
    while i < from + 8
        invariant
            from <= i <= from + 8,
            from <= 8,
            from + 8 <= b@.len(),
            acc as nat == be_value(b@.subrange(from as int, i as int)),
            be_value(b@.subrange(from as int, i as int)) < pow256((i - from) as nat),
            pow256(8) == 0x1_0000_0000_0000_0000,
        decreases from + 8 - i,
    {
        let ghost prev = b@.subrange(from as int, i as int);
        let ghost next = b@.subrange(from as int, i + 1);
        assert(next.drop_last() =~= prev);
        let ghost p = pow256((i - from) as nat);
        assert(pow256((i + 1 - from) as nat) == p * 256);
        assert(be_value(next) == be_value(prev) * 256 + b@[i as int] as nat);
        assert(be_value(prev) * 256 + (b@[i as int] as nat) < p * 256) by (nonlinear_arith)
            requires
                be_value(prev) < p,
                b@[i as int] < 256,
        ;
        assert(p * 256 <= pow256(8)) by {
            lemma_pow256_mono((i + 1 - from) as nat, 8);
        }
        assert(be_value(prev) * 256 + (b@[i as int] as nat) < 0x1_0000_0000_0000_0000);
        acc = acc * 256 + b[i] as u64;
        i = i + 1;
    }
    acc
}

proof fn lemma_pow256_mono(a: nat, b: nat)
    requires
        a <= b,
    ensures
        pow256(a) <= pow256(b),
    decreases b - a,
{
    if a < b {
        lemma_pow256_mono(a, (b - 1) as nat);
    }
}

impl DatadogTraceId {
    /// Reduces a 128-bit trace id, given as its 16 big-endian bytes, to the
    /// 64-bit integer whose big-endian bytes are bytes 8 to 15. Distinct
    /// trace ids may reduce to the same value; other components of a tracing
    /// pipeline reduce them the same way.
    pub fn from_bytes(bytes: [u8; 16]) -> (r: DatadogTraceId)
        ensures
            r.0 as nat == be_value(bytes@.subrange(8, 16)),
    {
        DatadogTraceId(read_be_u64(bytes.as_slice(), 8))
    }
}

impl DatadogSpanId {
    /// The 64-bit integer whose big-endian bytes are those of the span id.
    pub fn from_bytes(bytes: [u8; 8]) -> (r: DatadogSpanId)
        ensures
            r.0 as nat == be_value(bytes@),
    {
        let r = read_be_u64(bytes.as_slice(), 0);
        assert(bytes@.subrange(0, 8) =~= bytes@);
        DatadogSpanId(r)
    }
}

/// The correlation ids of a tracing context: none without a context; with
/// one, the reduced trace id and the span id, which is 0 when the span id
/// is not assigned yet.
pub open spec fn correlation_of(ctx: Option<TraceContext>) -> Option<(u64, u64)> {
    match ctx {
        None => None,
        Some(c) => Some(
            (
                be_value(c.trace_id@.subrange(8, 16)) as u64,
                match c.span_id {
                    Some(s) => be_value(s@) as u64,
                    None => 0u64,
                },
            ),
        ),
    }
}

/// Big-endian values of `n` bytes stay below 256 to the power `n`.
pub proof fn lemma_be_value_bound(b: Seq<u8>)
    ensures
        be_value(b) < pow256(b.len()),
    decreases b.len(),
{
    if b.len() > 0 {
        let p = pow256((b.len() - 1) as nat);
        lemma_be_value_bound(b.drop_last());
        let v = be_value(b.drop_last());
        let l = b.last() as nat;
        assert(v * 256 + l < p * 256) by (nonlinear_arith)
            requires
                v < p,
                l < 256,
        ;
    }
}

/// Byte strings of one length with the same big-endian value are equal.
pub proof fn lemma_be_value_injective(a: Seq<u8>, b: Seq<u8>)
    requires
        a.len() == b.len(),
        be_value(a) == be_value(b),
    ensures
        a == b,
    decreases a.len(),
{
    if a.len() > 0 {
        let x = be_value(a.drop_last());
        let y = be_value(b.drop_last());
        let p = a.last() as nat;
        let q = b.last() as nat;
        assert(x == y && p == q) by (nonlinear_arith)
            requires
                x * 256 + p == y * 256 + q,
                p < 256,
                q < 256,
        ;
        lemma_be_value_injective(a.drop_last(), b.drop_last());
        assert(a =~= a.drop_last().push(a.last()));
        assert(b =~= b.drop_last().push(b.last()));
    } else {
        assert(a =~= b);
    }
}

/// Two scopes whose tracing contexts share a trace id and carry different
/// span ids get equal trace ids and different span ids in their records.
pub proof fn lemma_sibling_scopes(a: TraceContext, b: TraceContext)
    requires
        a.trace_id == b.trace_id,
        a.span_id is Some,
        b.span_id is Some,
        a.span_id != b.span_id,
    ensures
        correlation_of(Some(a))->Some_0.0 == correlation_of(Some(b))->Some_0.0,
        correlation_of(Some(a))->Some_0.1 != correlation_of(Some(b))->Some_0.1,
{
    let sa = a.span_id->Some_0;
    let sb = b.span_id->Some_0;
    lemma_be_value_bound(sa@);
    lemma_be_value_bound(sb@);
    assert(pow256(8) == 0x1_0000_0000_0000_0000) by {
        reveal_with_fuel(pow256, 9);
    }
    if be_value(sa@) == be_value(sb@) {
        lemma_be_value_injective(sa@, sb@);
        assert(sa == sb);
    }
}

/// The correlation ids as plain integers.
pub open spec fn ids_view(ids: Option<(DatadogTraceId, DatadogSpanId)>) -> Option<(u64, u64)> {
    match ids {
        None => None,
        Some((t, s)) => Some((t.0, s.0)),
    }
}

/// The correlation ids to attach to a record, from the tracing context of
/// the innermost active scope, if there is one.
pub fn read_from_context(ctx: Option<TraceContext>) -> (r: Option<(DatadogTraceId, DatadogSpanId)>)
    ensures
        ids_view(r) == correlation_of(ctx),
{
    match ctx {
        None => None,
        Some(c) => {
            let trace = DatadogTraceId::from_bytes(c.trace_id);
            let span = match c.span_id {
                Some(s) => DatadogSpanId::from_bytes(s),
                None => DatadogSpanId(0),
            };
            Some((trace, span))
        },
    }
}

} // verus!
