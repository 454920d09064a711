//! Tracing of the control plane: spans with correlation identifiers and log
//! records, each written as one line of a CSV file.
use vstd::prelude::*;
use crate::ids::{uuid_text, uuid_to_string, new_random_id};

verus! {

/// The character of a decimal digit.
pub open spec fn digit_char(d: nat) -> char {
    if d == 0 {
        '0'
    } else if d == 1 {
        '1'
    } else if d == 2 {
        '2'
    } else if d == 3 {
        '3'
    } else if d == 4 {
        '4'
    } else if d == 5 {
        '5'
    } else if d == 6 {
        '6'
    } else if d == 7 {
        '7'
    } else if d == 8 {
        '8'
    } else {
        '9'
    }
}

/// The decimal text of a natural number, without leading zeros.
pub open spec fn decimal_text(n: nat) -> Seq<char>
    decreases n,
{
    if n < 10 {
        seq![digit_char(n)]
    } else {
        decimal_text(n / 10).push(digit_char(n % 10))
    }
}

/// The decimal text of an integer, with a minus sign when negative.
pub open spec fn signed_text(i: int) -> Seq<char> {
    if i < 0 {
        "-"@ + decimal_text((-i) as nat)
    } else {
        decimal_text(i as nat)
    }
}

/// A text with each double quote doubled, as a quoted CSV field needs.
pub open spec fn csv_escape(s: Seq<char>) -> Seq<char>
    decreases s.len(),
{
    if s.len() == 0 {
        Seq::<char>::empty()
    } else if s.last() == '"' {
        csv_escape(s.drop_last()) + "\"\""@
    } else {
        csv_escape(s.drop_last()).push(s.last())
    }
}

/// The text of an optional correlation identifier: empty when absent.
pub open spec fn opt_id_text(o: Option<u128>) -> Seq<char> {
    match o {
        Some(u) => uuid_text(u),
        None => Seq::<char>::empty(),
    }
}

/// An event of the control plane's trace.
#[allow(inconsistent_fields)]
pub enum TraceEvent {
    SpanStart { correlation_id: u128, parent_id: Option<u128>, name: String },
    SpanEnd { correlation_id: u128 },
    Log { correlation_id: Option<u128>, level: String, message: String },
}

/// Mathematical model of a trace event.
#[allow(inconsistent_fields)]
pub enum TraceEventView {
    SpanStart { correlation_id: u128, parent_id: Option<u128>, name: Seq<char> },
    SpanEnd { correlation_id: u128 },
    Log { correlation_id: Option<u128>, level: Seq<char>, message: Seq<char> },
}

impl View for TraceEvent {
    type V = TraceEventView;

    open spec fn view(&self) -> TraceEventView {
        match self {
            TraceEvent::SpanStart { correlation_id, parent_id, name } => TraceEventView::SpanStart {
                correlation_id: *correlation_id,
                parent_id: *parent_id,
                name: name@,
            },
            TraceEvent::SpanEnd { correlation_id } => TraceEventView::SpanEnd { correlation_id: *correlation_id },
            TraceEvent::Log { correlation_id, level, message } => TraceEventView::Log {
                correlation_id: *correlation_id,
                level: level@,
                message: message@,
            },
        }
    }
}

/// The header line of the trace file.
pub open spec fn header_line() -> Seq<char> {
    "timestamp_sec,timestamp_ns,event_type,correlation_id,parent_id,name,level,message"@
}

/// The CSV line of an event recorded at the given time: seconds and
/// nanoseconds, the event type, the correlation identifier, then the fields
/// of the event (the message quoted, with its quotes doubled).
pub open spec fn trace_line(e: TraceEventView, sec: i64, ns: u32) -> Seq<char> {
    let stamp = signed_text(sec as int) + ","@ + decimal_text(ns as nat);
    match e {
        TraceEventView::SpanStart { correlation_id, parent_id, name } => stamp + ",span_start,"@ + uuid_text(correlation_id)
            + ","@ + opt_id_text(parent_id) + ","@ + name + ",,"@,
        TraceEventView::SpanEnd { correlation_id } => stamp + ",span_end,"@ + uuid_text(correlation_id) + ",,,,"@,
        TraceEventView::Log { correlation_id, level, message } => stamp + ",log,"@ + opt_id_text(correlation_id) + ",,,,"@
            + level + ",\""@ + csv_escape(message) + "\""@,
    }
}

/// The text of a decimal digit.
fn digit_str(d: u64) -> (r: &'static str)
    requires
        d < 10,
    ensures
        r@ == seq![digit_char(d as nat)],
{
    proof {
        reveal_strlit("0");
        reveal_strlit("1");
        reveal_strlit("2");
        reveal_strlit("3");
        reveal_strlit("4");
        reveal_strlit("5");
        reveal_strlit("6");
        reveal_strlit("7");
        reveal_strlit("8");
        reveal_strlit("9");
    }
    let r = match d {
        0 => "0",
        1 => "1",
        2 => "2",
        3 => "3",
        4 => "4",
        5 => "5",
        6 => "6",
        7 => "7",
        8 => "8",
        _ => "9",
    };
    assert(r@ =~= seq![digit_char(d as nat)]);
    r
}

/// The decimal text of a number.
pub fn decimal_string(n: u64) -> (r: String)
    ensures
        r@ == decimal_text(n as nat),
    decreases n,
{
    if n < 10 {
        String::from_str(digit_str(n))
    } else {
        let mut s = decimal_string(n / 10);
        s.append(digit_str(n % 10));
        s
    }
}

/// The decimal text of a signed number.
pub fn signed_string(i: i64) -> (r: String)
    ensures
        r@ == signed_text(i as int),
{
    if i < 0 {
        let magnitude: u64 = (0i128 - i as i128) as u64;
        let mut s = String::from_str("-");
        let digits = decimal_string(magnitude);
        s.append(digits.as_str());
        s
    } else {
        decimal_string(i as u64)
    }
}

/// A text with each double quote doubled.
pub fn escape_quotes(s: &str) -> (r: String)
    ensures
        r@ == csv_escape(s@),
{
    let n = s.unicode_len();
    let mut out = String::new();
    let mut i: usize = 0;
    assert(s@.take(0) =~= Seq::<char>::empty());
    while i < n
        invariant
            n == s@.len(),
            i <= n,
            out@ == csv_escape(s@.take(i as int)),
        decreases n - i,
    {
        assert(s@.take(i + 1).drop_last() =~= s@.take(i as int));
        assert(s@.take(i + 1).last() == s@[i as int]);
        if s.get_char(i) == '"' {
            out.append("\"\"");
        } else {
            out.append(s.substring_char(i, i + 1));
            assert(s@.subrange(i as int, i + 1) =~= seq![s@[i as int]]);
        }
        i = i + 1;
    }
    assert(s@.take(n as int) =~= s@);
    out
}

/// The text of an optional correlation identifier.
fn opt_id_string(o: Option<u128>) -> (r: String)
    ensures
        r@ == opt_id_text(o),
{
    match o {
        Some(u) => uuid_to_string(u),
        None => String::new(),
    }
}

/// The CSV line of an event recorded at the given time.
pub fn format_trace_line(event: &TraceEvent, sec: i64, ns: u32) -> (r: String)
    ensures
        r@ == trace_line(event@, sec, ns),
{
    let mut line = signed_string(sec);
    line.append(",");
    let ns_text = decimal_string(ns as u64);
    line.append(ns_text.as_str());
    match event {
        TraceEvent::SpanStart { correlation_id, parent_id, name } => {
            line.append(",span_start,");
            let c = uuid_to_string(*correlation_id);
            line.append(c.as_str());
            line.append(",");
            let p = opt_id_string(*parent_id);
            line.append(p.as_str());
            line.append(",");
            line.append(name.as_str());
            line.append(",,");
        },
        TraceEvent::SpanEnd { correlation_id } => {
            line.append(",span_end,");
            let c = uuid_to_string(*correlation_id);
            line.append(c.as_str());
            line.append(",,,,");
        },
        TraceEvent::Log { correlation_id, level, message } => {
            line.append(",log,");
            let c = opt_id_string(*correlation_id);
            line.append(c.as_str());
            line.append(",,,,");
            line.append(level.as_str());
            line.append(",\"");
            let m = escape_quotes(message.as_str());
            line.append(m.as_str());
            line.append("\"");
        },
    }
    line
}

/// The current time from `chrono::Utc::now`: seconds since the epoch and the
/// nanoseconds within the second. The nanoseconds stay below two billion, as
/// chrono documents (a leap second goes above one billion); nothing more is
/// stated of a value that the clock gives.
#[verifier::external_body]
fn utc_now() -> (r: (i64, u32))
    ensures
        r.1 < 2_000_000_000,
{
    let now = chrono::Utc::now();
    (now.timestamp(), now.timestamp_subsec_nanos())
}

/// Why a tracer could not be made.
#[derive(PartialEq, Eq, Structural, Debug, Clone, Copy)]
pub enum TracerError {
    Unavailable,
}

/// A tracer of the control plane: it holds the lines of the trace file
/// that are still to be written, starting with the header.
pub struct ControlPlaneTracer {
    output_path: String,
    pending: Vec<String>,
}

/// A span of the trace, ended at most once. Its end is recorded only by a
/// call of `end`: a span that is dropped without it records no end line,
/// as this library gives the type no `Drop` (which Verus does not verify).
pub struct TraceSpan {
    correlation_id: u128,
    ended: bool,
}

impl ControlPlaneTracer {
    /// The file the trace goes to; empty or "-" for the standard output.
    pub closed spec fn path(&self) -> Seq<char> {
        self.output_path@
    }

    /// The lines still to be written, in order.
    pub closed spec fn lines(&self) -> Seq<Seq<char>> {
        crate::text::views(self.pending@)
    }

    /// A tracer whose trace goes to the given file; its first line is the
    /// header.
    pub fn new(output_path: String) -> (r: Result<Self, TracerError>)
        ensures
            r matches Ok(t) && t.path() == output_path@ && t.lines() == seq![header_line()],
    {
        let mut pending: Vec<String> = Vec::new();
        pending.push(String::from_str("timestamp_sec,timestamp_ns,event_type,correlation_id,parent_id,name,level,message"));
        let t = ControlPlaneTracer { output_path, pending };
        assert(t.lines() =~= seq![header_line()]);
        Ok(t)
    }

    /// The file the trace goes to.
    pub fn output_path(&self) -> (r: &String)
        ensures
            r@ == self.path(),
    {
        &self.output_path
    }

    /// Record an event at the given time.
    pub fn record_at(&mut self, event: &TraceEvent, sec: i64, ns: u32)
        ensures
            final(self).lines() == old(self).lines().push(trace_line(event@, sec, ns)),
            final(self).path() == old(self).path(),
    {
        let line = format_trace_line(event, sec, ns);
        let ghost before = self.pending@;
        self.pending.push(line);
        assert(self.lines() =~= crate::text::views(before).push(line@));
    }

    /// Record an event now.
    pub fn record(&mut self, event: &TraceEvent)
        ensures
            exists|sec: i64, ns: u32| final(self).lines() == old(self).lines().push(trace_line(event@, sec, ns)),
            final(self).path() == old(self).path(),
    {
        let (sec, ns) = utc_now();
        self.record_at(event, sec, ns);
    }

    /// Start a root span with a fresh correlation identifier.
    pub fn start_span(&mut self, name: &str) -> (r: TraceSpan)
        ensures
            !r.is_ended(),
            exists|sec: i64, ns: u32| final(self).lines() == old(self).lines().push(
                trace_line(TraceEventView::SpanStart { correlation_id: r.id_value(), parent_id: None, name: name@ }, sec, ns),
            ),
            final(self).path() == old(self).path(),
    {
        let correlation_id = new_random_id();
        let event = TraceEvent::SpanStart { correlation_id, parent_id: None, name: String::from_str(name) };
        self.record(&event);
        TraceSpan { correlation_id, ended: false }
    }

    /// Record a log line that belongs to no span.
    pub fn log(&mut self, level: &str, message: &str)
        ensures
            exists|sec: i64, ns: u32| final(self).lines() == old(self).lines().push(
                trace_line(TraceEventView::Log { correlation_id: None, level: level@, message: message@ }, sec, ns),
            ),
            final(self).path() == old(self).path(),
    {
        let event = TraceEvent::Log { correlation_id: None, level: String::from_str(level), message: String::from_str(message) };
        self.record(&event);
    }

    /// Take the lines still to be written, in order.
    pub fn take_lines(&mut self) -> (r: Vec<String>)
        ensures
            crate::text::views(r@) == old(self).lines(),
            final(self).lines().len() == 0,
            final(self).path() == old(self).path(),
    {
        let mut taken: Vec<String> = Vec::new();
        std::mem::swap(&mut taken, &mut self.pending);
        assert(self.lines() =~= Seq::<Seq<char>>::empty());
        taken
    }
}

impl TraceSpan {
    pub closed spec fn id_value(&self) -> u128 {
        self.correlation_id
    }

    pub closed spec fn is_ended(&self) -> bool {
        self.ended
    }

    /// The correlation identifier of this span.
    pub fn id(&self) -> (r: u128)
        ensures
            r == self.id_value(),
    {
        self.correlation_id
    }

    /// Start a child span of this one.
    pub fn child(&self, tracer: &mut ControlPlaneTracer, name: &str) -> (r: TraceSpan)
        ensures
            !r.is_ended(),
            exists|sec: i64, ns: u32| final(tracer).lines() == old(tracer).lines().push(
                trace_line(
                    TraceEventView::SpanStart { correlation_id: r.id_value(), parent_id: Some(self.id_value()), name: name@ },
                    sec,
                    ns,
                ),
            ),
            final(tracer).path() == old(tracer).path(),
    {
        let child_id = new_random_id();
        let event = TraceEvent::SpanStart { correlation_id: child_id, parent_id: Some(self.correlation_id), name: String::from_str(name) };
        tracer.record(&event);
        TraceSpan { correlation_id: child_id, ended: false }
    }

    /// Record a log line within this span.
    pub fn log(&self, tracer: &mut ControlPlaneTracer, level: &str, message: &str)
        ensures
            exists|sec: i64, ns: u32| final(tracer).lines() == old(tracer).lines().push(
                trace_line(
                    TraceEventView::Log { correlation_id: Some(self.id_value()), level: level@, message: message@ },
                    sec,
                    ns,
                ),
            ),
            final(tracer).path() == old(tracer).path(),
    {
        let event = TraceEvent::Log {
            correlation_id: Some(self.correlation_id),
            level: String::from_str(level),
            message: String::from_str(message),
        };
        tracer.record(&event);
    }

    /// End the span: only the first call records the end.
    pub fn end(&mut self, tracer: &mut ControlPlaneTracer)
        ensures
            final(self).is_ended(),
            final(self).id_value() == old(self).id_value(),
            old(self).is_ended() ==> final(tracer).lines() == old(tracer).lines(),
            !old(self).is_ended() ==> exists|sec: i64, ns: u32| final(tracer).lines() == old(tracer).lines().push(
                trace_line(TraceEventView::SpanEnd { correlation_id: old(self).id_value() }, sec, ns),
            ),
            final(tracer).path() == old(tracer).path(),
    {
        if !self.ended {
            self.ended = true;
            let event = TraceEvent::SpanEnd { correlation_id: self.correlation_id };
            assert(event@ == TraceEventView::SpanEnd { correlation_id: old(self).id_value() });
            tracer.record(&event);
        }
    }
}

} // verus!
