//! Per-request correlation: each request gets a trace id, a "req" span that
//! carries it, two timing events, and a response header that echoes it.
use crate::ids::{TraceId, simple_text};
use crate::logs::{EntryView, FieldView, Level, LogCollector, LogField, SpanData, SpanStack, SpanView,
    field_value, lemma_first_span_at, span_field_value};
use crate::text::{ascii_text, dec_digits, write_digits};
use vstd::prelude::*;

verus! {

/// A source of the current time, in milliseconds since the epoch.
pub trait Time {
    fn now(&self) -> i64;
}

/// The system clock.
pub struct TimeNow {}

/// Relies on chrono::Utc::now and DateTime::timestamp_millis: the current
/// time; nothing is promised of its value.
#[verifier::external_body]
fn system_now_millis() -> (r: i64) {
    chrono::Utc::now().timestamp_millis()
}

impl Time for TimeNow {
    fn now(&self) -> i64 {
        system_now_millis()
    }
}

/// The name of the response header that echoes the trace id.
pub fn header_name() -> (r: &'static str)
    ensures
        r@ == "x-traceid"@,
{
    "x-traceid"
}

/// The span that encloses everything a request does.
pub open spec fn req_span(id: u128) -> SpanView {
    SpanView { name: "req"@, fields: seq![("trace_id"@, simple_text(id))] }
}

/// Milliseconds from `started` to `now`; none if the clock went back.
pub open spec fn elapsed_ms(started: i64, now: i64) -> nat {
    if now > started {
        (now - started) as nat
    } else {
        0
    }
}

/// Opens the trace of a request and gives it to its middleware.
pub struct TraceIdMiddlewareFactory<D>(pub std::sync::Arc<D>);

impl<D> TraceIdMiddlewareFactory<D> {
    pub fn new(data: std::sync::Arc<D>) -> (r: Self)
        ensures
            r.0 == data,
    {
        TraceIdMiddlewareFactory(data)
    }

    /// The middleware in front of `service`, sharing this factory's data.
    pub fn new_transform<S>(&self, service: S) -> (r: TraceIdMiddleware<S, D>)
        ensures
            r.service == service,
            r.app_data == self.0,
    {
        TraceIdMiddleware { service, app_data: self.0.clone() }
    }
}

/// The trace middleware in front of a service.
pub struct TraceIdMiddleware<S, D> {
    pub service: S,
    pub app_data: std::sync::Arc<D>,
}

/// What the trace middleware keeps of a request between its start and its
/// response.
pub struct RequestTrace {
    trace_id: TraceId,
    started_ms: i64,
    path: String,
    method: String,
}

impl RequestTrace {
    pub closed spec fn spec_trace_id(&self) -> TraceId {
        self.trace_id
    }

    pub closed spec fn spec_started(&self) -> i64 {
        self.started_ms
    }

    pub closed spec fn spec_path(&self) -> Seq<char> {
        self.path@
    }

    pub closed spec fn spec_method(&self) -> Seq<char> {
        self.method@
    }

    pub fn trace_id(&self) -> (r: TraceId)
        ensures
            r == self.spec_trace_id(),
    {
        self.trace_id
    }
}

/// Starts the trace of a request under `trace_id`, the id drawn for it from
/// the environment's generator: opens the "req" span with it, and records
/// that the request starts, with its path and method.
pub fn begin_request(
    trace_id: TraceId,
    path: &str,
    method: &str,
    now_ms: i64,
    stack: &mut SpanStack,
    logs: &mut LogCollector,
) -> (r: RequestTrace)
    ensures
        r.spec_trace_id() == trace_id,
        final(stack)@ == old(stack)@.push(req_span(trace_id@)),
        r.spec_started() == now_ms,
        r.spec_path() == path@,
        r.spec_method() == method@,
        final(logs).entries() == old(logs).entries().push(
            EntryView {
                timestamp: now_ms,
                level: Level::Info,
                target: "trace"@,
                message: "request starting..."@,
                fields: seq![("path"@, path@), ("method"@, method@)],
                spans: final(stack)@,
            },
        ),
        final(logs).behaviour() == old(logs).behaviour(),
{
    let mut fields: Vec<LogField> = Vec::new();
    fields.push(LogField::from_strings(String::from_str("trace_id"), trace_id.to_simple()));
    let span = SpanData::new("req", fields);
    assert(span@.fields =~= req_span(trace_id@).fields);
    stack.enter(span);
    let mut event: Vec<LogField> = Vec::new();
    event.push(LogField::new("path", path));
    event.push(LogField::new("method", method));
    logs.record(stack, now_ms, Level::Info, "trace", "request starting...", event);
    assert(crate::logs::fields_view(event@) =~= seq![("path"@, path@), ("method"@, method@)]);
    RequestTrace { trace_id, started_ms: now_ms, path: String::from_str(path), method: String::from_str(method) }
}

/// A count in decimal.
fn count_text(v: u64) -> (r: String)
    ensures
        r@ == dec_digits(v as nat).map_values(|b: u8| b as char),
{
    let mut digits: Vec<u8> = Vec::new();
    write_digits(&mut digits, v);
    assert(digits@ =~= dec_digits(v as nat));
    ascii_text(&digits)
}

/// Ends the trace of a request: records its path, method, status and time
/// taken, closes its innermost span, and gives the value of the response
/// header, the request's trace id.
pub fn finish_request(
    t: &RequestTrace,
    status: u16,
    now_ms: i64,
    stack: &mut SpanStack,
    logs: &mut LogCollector,
) -> (header: String)
    ensures
        header@ == simple_text(t.spec_trace_id()@),
        final(logs).entries().len() == old(logs).entries().len() + 1,
        final(logs).entries().drop_last() == old(logs).entries(),
        final(logs).entries().last().spans == old(stack)@,
        final(logs).entries().last().fields == seq![
            ("path"@, t.spec_path()),
            ("method"@, t.spec_method()),
            ("status"@, dec_digits(status as nat).map_values(|b: u8| b as char)),
            ("elapsed_ms"@, dec_digits(elapsed_ms(t.spec_started(), now_ms)).map_values(|b: u8| b as char)),
        ],
        final(logs).entries().last().message == "request finished on "@ + dec_digits(
            elapsed_ms(t.spec_started(), now_ms),
        ).map_values(|b: u8| b as char) + " ms"@,
        final(logs).entries().last().timestamp == now_ms,
        final(logs).entries().last().level == Level::Info,
        old(stack)@.len() > 0 ==> final(stack)@ == old(stack)@.drop_last(),
        old(stack)@.len() == 0 ==> final(stack)@ == old(stack)@,
        final(logs).behaviour() == old(logs).behaviour(),
{
    let elapsed: u64 = if now_ms > t.started_ms {
        (now_ms as i128 - t.started_ms as i128) as u64
    } else {
        0
    };
    let elapsed_text = count_text(elapsed);
    let mut message = String::from_str("request finished on ");
    message.append(elapsed_text.as_str());
    message.append(" ms");
    let mut fields: Vec<LogField> = Vec::new();
    fields.push(LogField::from_strings(String::from_str("path"), t.path.clone()));
    fields.push(LogField::from_strings(String::from_str("method"), t.method.clone()));
    fields.push(LogField::from_strings(String::from_str("status"), count_text(status as u64)));
    fields.push(LogField::from_strings(String::from_str("elapsed_ms"), elapsed_text));
    let ghost before = logs.entries();
    logs.record(stack, now_ms, Level::Info, "trace", message.as_str(), fields);
    assert(logs.entries().drop_last() =~= before);
    let _ = stack.exit();
    t.trace_id.to_simple()
}

/// Every event recorded while a request's "req" span is open, however many
/// spans are opened inside it, carries as that span's `trace_id` field the
/// very text the response header echoes: the request's trace id. This holds
/// where no enclosing span is itself named "req" (the trace middleware
/// is the outermost).
pub proof fn lemma_trace_id_in_every_event(id: u128, outer: Seq<SpanView>, inner: Seq<SpanView>)
    requires
        forall|j: int| 0 <= j < outer.len() ==> #[trigger] outer[j].name != "req"@,
    ensures
        span_field_value(outer.push(req_span(id)) + inner, "req"@, "trace_id"@) == Some(simple_text(id)),
{
    let ss = outer.push(req_span(id)) + inner;
    let k = outer.len() as int;
    assert(ss[k] == req_span(id));
    assert forall|j: int| 0 <= j < k implies #[trigger] ss[j].name != "req"@ by {
        assert(ss[j] == outer[j]);
    }
    lemma_first_span_at(ss, "req"@, k);
    let fs = req_span(id).fields;
    assert(fs.drop_last() =~= Seq::<FieldView>::empty());
    assert(crate::logs::first_field(Seq::<FieldView>::empty(), "trace_id"@) is None);
    assert(fs.last().0 == "trace_id"@);
    assert(crate::logs::first_field(fs, "trace_id"@) == Some(0int));
    assert(field_value(fs, "trace_id"@) == Some(simple_text(id)));
}

} // verus!
