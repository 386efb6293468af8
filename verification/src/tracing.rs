//! Trace events of job execution and their export in the Chrome tracing
//! JSON format (for chrome://tracing or ui.perfetto.dev).

use vstd::prelude::*;
use vstd::string::StringSliceAdditionalSpecFns;

verus! {

/// A single trace event in Chrome tracing format.
#[derive(Debug, Clone, Copy)]
pub struct TraceEvent {
    pub name: &'static str,
    pub tid: usize,
    pub start_us: u64,
    pub duration_us: u64,
}

/// Registers the current thread's buffer for export. Buffers are collected
/// at the end instead, so there is nothing to do.
pub fn register_thread() {
}

impl TraceEvent {
    /// The event for a span that started `since_start_us` microseconds after
    /// the tracer's start, which lies `epoch_start_us` microseconds after the
    /// Unix epoch, and lasted `duration_us` microseconds. Both microsecond
    /// counts are cut to 64 bits as an `as` conversion does.
    pub fn from_micros(
        name: &'static str,
        tid: usize,
        since_start_us: u128,
        epoch_start_us: u64,
        duration_us: u128,
    ) -> (e: TraceEvent)
        requires
            (since_start_us as u64) + epoch_start_us <= u64::MAX,
        ensures
            e.name == name,
            e.tid == tid,
            e.start_us == (since_start_us as u64) + epoch_start_us,
            e.duration_us == duration_us as u64,
    {
        let start = since_start_us as u64;
        TraceEvent { name, tid, start_us: start + epoch_start_us, duration_us: duration_us as u64 }
    }
}

/// The decimal digits of `n` in ASCII.
pub open spec fn decimal(n: nat) -> Seq<u8>
    decreases n,
{
    if n < 10 {
        seq![(48 + n) as u8]
    } else {
        decimal(n / 10).push((48 + n % 10) as u8)
    }
}

/// Appends the decimal digits of `n`.
pub fn push_decimal(out: &mut Vec<u8>, n: u64)
    ensures
        final(out)@ == old(out)@ + decimal(n as nat),
    decreases n,
{
    if n >= 10 {
        push_decimal(out, n / 10);
    }
    let digit = (n % 10) as u8;
    out.push(48u8 + digit);
    proof {
        assert(final(out)@ =~= old(out)@ + decimal(n as nat));
    }
}

/// Appends the UTF-8 bytes of `s`.
pub fn push_str_bytes(out: &mut Vec<u8>, s: &str)
    ensures
        final(out)@ == old(out)@ + s.spec_bytes(),
{
    let bytes = s.as_bytes();
    let ghost start = out@;
    let mut i: usize = 0;
    while i < bytes.len()
        invariant
            i <= bytes@.len(),
            bytes@ == s.spec_bytes(),
            out@ == start + bytes@.take(i as int),
        decreases bytes@.len() - i,
    {
        out.push(bytes[i]);
        i = i + 1;
        proof {
            assert(out@ =~= start + bytes@.take(i as int));
        }
    }
    proof {
        assert(bytes@.take(bytes@.len() as int) =~= bytes@);
    }
}

/// One event as a JSON object: a complete event (`"ph":"X"`) of process 1.
pub open spec fn event_json(e: TraceEvent) -> Seq<u8> {
    "{\"name\":\"".spec_bytes() + e.name.spec_bytes() + "\",\"ph\":\"X\",\"ts\":".spec_bytes() + decimal(
        e.start_us as nat,
    ) + ",\"dur\":".spec_bytes() + decimal(e.duration_us as nat) + ",\"pid\":1,\"tid\":".spec_bytes()
        + decimal(e.tid as nat) + "}".spec_bytes()
}

/// The events as JSON objects separated by `,` and a line break.
pub open spec fn events_json(events: Seq<TraceEvent>) -> Seq<u8>
    decreases events.len(),
{
    if events.len() == 0 {
        Seq::empty()
    } else if events.len() == 1 {
        event_json(events[0])
    } else {
        events_json(events.drop_last()) + ",\n".spec_bytes() + event_json(events.last())
    }
}

/// The whole trace file: a JSON array of the events, one per line.
pub open spec fn trace_json(events: Seq<TraceEvent>) -> Seq<u8> {
    "[\n".spec_bytes() + events_json(events) + "\n]\n".spec_bytes()
}

/// Appends the JSON object of one event.
fn push_event_json(out: &mut Vec<u8>, e: &TraceEvent)
    ensures
        final(out)@ == old(out)@ + event_json(*e),
{
    push_str_bytes(out, "{\"name\":\"");
    push_str_bytes(out, e.name);
    push_str_bytes(out, "\",\"ph\":\"X\",\"ts\":");
    push_decimal(out, e.start_us);
    push_str_bytes(out, ",\"dur\":");
    push_decimal(out, e.duration_us);
    push_str_bytes(out, ",\"pid\":1,\"tid\":");
    push_decimal(out, e.tid as u64);
    push_str_bytes(out, "}");
    proof {
        assert(final(out)@ =~= old(out)@ + event_json(*e));
    }
}

/// The bytes of the trace file for the collected events, in order.
pub fn trace_json_bytes(events: &Vec<TraceEvent>) -> (out: Vec<u8>)
    ensures
        out@ == trace_json(events@),
{
    let mut out: Vec<u8> = Vec::new();
    push_str_bytes(&mut out, "[\n");
    let ghost head = out@;
    let mut i: usize = 0;
    while i < events.len()
        invariant
            i <= events@.len(),
            head == "[\n".spec_bytes(),
            out@ == head + events_json(events@.take(i as int)),
        decreases events@.len() - i,
    {
        let ghost before = out@;
        if i > 0 {
            push_str_bytes(&mut out, ",\n");
        }
        push_event_json(&mut out, &events[i]);
        proof {
            let t = events@.take(i + 1);
            assert(t.drop_last() =~= events@.take(i as int));
            assert(t.last() == events@[i as int]);
            if i == 0 {
                assert(t.len() == 1);
                assert(t[0] == events@[0]);
                assert(events@.take(0) =~= Seq::<TraceEvent>::empty());
            }
            assert(out@ =~= head + events_json(t));
        }
        i = i + 1;
    }
    proof {
        assert(events@.take(events@.len() as int) =~= events@);
    }
    push_str_bytes(&mut out, "\n]\n");
    proof {
        assert(out@ =~= trace_json(events@));
    }
    out
}

/// `c` is an ASCII decimal digit.
pub open spec fn is_digit(c: u8) -> bool {
    48 <= c <= 57
}

/// The number that the ASCII decimal digits `s` stand for.
pub open spec fn digits_value(s: Seq<u8>) -> nat
    decreases s.len(),
{
    if s.len() == 0 {
        0
    } else {
        digits_value(s.drop_last()) * 10 + (s.last() - 48) as nat
    }
}

/// Reading the digits written for `n` gives `n` back: they are one or more
/// decimal digits whose value is `n`.
pub proof fn lemma_decimal_reads_back(n: nat)
    ensures
        decimal(n).len() >= 1,
        forall|i: int| 0 <= i < decimal(n).len() ==> is_digit(#[trigger] decimal(n)[i]),
        digits_value(decimal(n)) == n,
    decreases n,
{
    if n < 10 {
        let d = decimal(n);
        assert(d.drop_last() =~= Seq::<u8>::empty());
        assert(digits_value(Seq::<u8>::empty()) == 0);
        assert(d.last() == (48 + n) as u8);
        assert((d.last() - 48) as nat == n);
        assert(digits_value(d) == digits_value(d.drop_last()) * 10 + (d.last() - 48) as nat);
    } else {
        lemma_decimal_reads_back(n / 10);
        let d = decimal(n);
        assert(d.drop_last() =~= decimal(n / 10));
        assert(d.last() == (48 + n % 10) as u8);
        assert((d.last() - 48) as nat == n % 10);
        vstd::arithmetic::div_mod::lemma_fundamental_div_mod(n as int, 10);
        assert(digits_value(d) == (n / 10) * 10 + n % 10);
        assert forall|i: int| 0 <= i < d.len() implies is_digit(#[trigger] d[i]) by {
            if i < d.len() - 1 {
                assert(d[i] == decimal(n / 10)[i]);
            }
        }
    }
}

/// The object of `e` holds its name, then under `ts`, `dur` and `tid` the
/// runs of decimal digits `ts`, `dur` and `tid`, and these read back as
/// exactly the event's start, duration and thread.
pub open spec fn fields_read_back(e: TraceEvent, ts: Seq<u8>, dur: Seq<u8>, tid: Seq<u8>) -> bool {
    &&& ts.len() >= 1 && dur.len() >= 1 && tid.len() >= 1
    &&& forall|i: int| 0 <= i < ts.len() ==> is_digit(#[trigger] ts[i])
    &&& forall|i: int| 0 <= i < dur.len() ==> is_digit(#[trigger] dur[i])
    &&& forall|i: int| 0 <= i < tid.len() ==> is_digit(#[trigger] tid[i])
    &&& digits_value(ts) == e.start_us
    &&& digits_value(dur) == e.duration_us
    &&& digits_value(tid) == e.tid
    &&& event_json(e) == "{\"name\":\"".spec_bytes() + e.name.spec_bytes() + "\",\"ph\":\"X\",\"ts\":".spec_bytes()
        + ts + ",\"dur\":".spec_bytes() + dur + ",\"pid\":1,\"tid\":".spec_bytes() + tid + "}".spec_bytes()
}

/// Every event is written with its own values, whatever their size: its
/// start, duration and thread appear in full and read back unchanged.
pub proof fn lemma_event_fields_read_back(e: TraceEvent)
    ensures
        exists|ts: Seq<u8>, dur: Seq<u8>, tid: Seq<u8>| #[trigger] fields_read_back(e, ts, dur, tid),
{
    lemma_decimal_reads_back(e.start_us as nat);
    lemma_decimal_reads_back(e.duration_us as nat);
    lemma_decimal_reads_back(e.tid as nat);
    assert(fields_read_back(e, decimal(e.start_us as nat), decimal(e.duration_us as nat), decimal(e.tid as nat)));
}

/// The trace file lists the events in order: one more event adds its object
/// after the others, separated by a comma and a line break, just before the
/// closing bracket; a single event stands alone between the brackets.
pub proof fn lemma_trace_appends_event(events: Seq<TraceEvent>, e: TraceEvent)
    ensures
        events.len() == 0 ==> trace_json(events.push(e)) == "[\n".spec_bytes() + event_json(e)
            + "\n]\n".spec_bytes(),
        events.len() > 0 ==> trace_json(events.push(e)) == "[\n".spec_bytes() + events_json(events)
            + ",\n".spec_bytes() + event_json(e) + "\n]\n".spec_bytes(),
        events.len() > 0 ==> trace_json(events) == "[\n".spec_bytes() + events_json(events)
            + "\n]\n".spec_bytes(),
{
    let s = events.push(e);
    assert(s.drop_last() =~= events);
    assert(s.last() == e);
    if events.len() == 0 {
        assert(s.len() == 1);
        assert(s[0] == e);
    }
    assert(trace_json(s) =~= "[\n".spec_bytes() + events_json(s) + "\n]\n".spec_bytes());
}

} // verus!
