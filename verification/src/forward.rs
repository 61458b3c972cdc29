//! One call through the proxy, from the request of the caller to the answer and the record.
//!
//! The proxy sends what [`begin`] gives to the provider. What comes back decides which of the
//! methods of [`Exchange`] ends the call.
use crate::clock::is_utc_time;
use crate::ident::is_uuid;
use crate::json::{bool_in, boolean_of, field_of, parsed, text_in, Json};
use crate::proxy::{are_metrics, build_record, call_run_id, describes_call, json_owned, read_body, relayed_status, total_fits, upstream_url, url_of, usage_in, Call, CallView, LlmCallRecord, Privacy, BAD_GATEWAY};
use crate::stream::{after_line, is_event_stream, is_stream, measured, precision_of, stream_record, StreamMeter};
use crate::text::view_option;
use crate::web::{apply_forward_headers, forwarded_names, header_value, header_views, relayed_headers, run_id_of, selected_headers, Forward, Header};
use vstd::prelude::*;

verus! {

/// What a proxy was started with.
#[derive(Debug, Clone, PartialEq, Eq)]
pub struct ProxySettings {
    pub upstream_base: String,
    pub api_key: Option<String>,
    pub privacy: Privacy,
    pub default_run_id: Option<String>,
}

/// Where a call goes, and with which headers.
#[derive(Debug, Clone, PartialEq, Eq)]
pub struct Outgoing {
    pub url: String,
    pub forward: Forward,
}

/// What is answered to a caller besides the body.
#[derive(Debug, Clone, PartialEq, Eq)]
pub struct Relay {
    pub status: u16,
    pub headers: Vec<Header>,
}

/// A call that is on its way.
pub struct Exchange {
    endpoint: String,
    run_id: Option<String>,
    upstream_base: String,
    privacy: Privacy,
    request: Option<serde_json::Value>,
}

/// What is known of a call that is on its way.
pub struct ExchangeView {
    pub endpoint: Seq<char>,
    pub run_id: Option<Seq<char>>,
    pub upstream_base: Seq<char>,
    pub privacy: Privacy,
    pub request: Option<Json>,
}

impl View for Exchange {
    type V = ExchangeView;

    closed spec fn view(&self) -> ExchangeView {
        ExchangeView {
            endpoint: self.endpoint@,
            run_id: view_option(self.run_id),
            upstream_base: self.upstream_base@,
            privacy: self.privacy,
            request: json_owned(self.request),
        }
    }
}

/// The run that a call belongs to.
pub open spec fn run_of(headers: Seq<Header>, default_run_id: Option<String>) -> Option<Seq<char>> {
    match run_id_of(headers) {
        Some(id) => Some(id),
        None => view_option(default_run_id),
    }
}

/// A call that names no run belongs to the run that the proxy was started for, and one that names
/// a run belongs to that one.
pub proof fn calls_belong_to_a_run(headers: Seq<Header>, run_id: String)
    ensures
        header_value(headers, "x-agentledger-run-id"@) is None ==> run_of(headers, Some(run_id))
            == Some(run_id@),
        run_id_of(headers) is Some ==> run_of(headers, Some(run_id)) == run_id_of(headers),
{
}

/// The start of a call to an endpoint.
pub fn begin(
    settings: &ProxySettings,
    endpoint: &str,
    headers: &Vec<Header>,
    body: &[u8],
) -> (r: (Exchange, Outgoing))
    ensures
        r.0@ == (ExchangeView {
            endpoint: endpoint@,
            run_id: run_of(headers@, settings.default_run_id),
            upstream_base: settings.upstream_base@,
            privacy: settings.privacy,
            request: parsed(body@),
        }),
        r.1.url@ == url_of(settings.upstream_base@, endpoint@),
        view_option(r.1.forward.bearer) == view_option(settings.api_key),
        header_views(r.1.forward.headers@) == (if settings.api_key is Some {
            selected_headers(headers@, forwarded_names())
        } else {
            selected_headers(headers@, forwarded_names().push("authorization"@))
        }),
{
    let api_key = match &settings.api_key {
        Some(key) => Some(key.as_str()),
        None => None,
    };
    let outgoing = Outgoing {
        url: upstream_url(settings.upstream_base.as_str(), endpoint),
        forward: apply_forward_headers(headers, api_key),
    };
    let exchange = Exchange {
        endpoint: endpoint.to_owned(),
        run_id: call_run_id(headers, &settings.default_run_id),
        upstream_base: settings.upstream_base.clone(),
        privacy: settings.privacy,
        request: read_body(body),
    };
    (exchange, outgoing)
}

impl ExchangeView {
    /// The call, once it was answered with `status` after `duration_ms`.
    pub open spec fn call(
        self,
        status: u16,
        duration_ms: u128,
        response: Option<Json>,
    ) -> CallView {
        CallView {
            endpoint: self.endpoint,
            run_id: self.run_id,
            upstream_base: self.upstream_base,
            status,
            duration_ms,
            request: self.request,
            response,
        }
    }
}

impl Exchange {
    /// Whether the answer with these headers is to be passed on as it comes.
    pub fn is_streamed(&self, headers: &Vec<Header>) -> (r: bool)
        ensures
            r == is_stream(boolean_of(field_of(self@.request, "stream"@)), headers@),
    {
        is_event_stream(bool_in(self.request.as_ref(), "stream"), headers)
    }

    fn call(self, status: u16, duration_ms: u128, response: Option<serde_json::Value>) -> (r: Call)
        ensures
            r@ == self@.call(status, duration_ms, json_owned(response)),
    {
        Call {
            endpoint: self.endpoint,
            run_id: self.run_id,
            upstream_base: self.upstream_base,
            status,
            duration_ms,
            request: self.request,
            response,
        }
    }

    /// The record of a call that was answered at once with `body`, unless the total of its tokens
    /// cannot be written.
    pub fn answered(self, status: u16, duration_ms: u128, body: &[u8]) -> (r: Option<
        LlmCallRecord,
    >)
        ensures
            r is Some <==> total_fits(usage_in(parsed(body@))),
            r matches Some(record) ==> {
                &&& describes_call(
                    record,
                    self@.call(status, duration_ms, parsed(body@)),
                    text_in(field_of(parsed(body@), "model"@)),
                    self@.privacy,
                )
                &&& are_metrics(record.metrics, usage_in(parsed(body@)), duration_ms, None)
                &&& record.source_precision@ == "exact"@
                &&& is_uuid(record.id@)
                &&& is_utc_time(record.timestamp@)
            },
    {
        let privacy = self.privacy;
        let call = self.call(status, duration_ms, read_body(body));
        build_record(call, privacy)
    }

    /// The record of a call that was answered with a stream, which has ended, unless the total of
    /// its tokens cannot be written.
    pub fn streamed(self, status: u16, duration_ms: u128, meter: StreamMeter) -> (r: Option<
        LlmCallRecord,
    >)
        ensures
            ({
                let seen = after_line(meter@, meter@.pending, duration_ms);
                &&& r is Some <==> total_fits(measured(seen))
                &&& r matches Some(record) ==> {
                    &&& describes_call(
                        record,
                        self@.call(status, duration_ms, None),
                        seen.model,
                        self@.privacy,
                    )
                    &&& are_metrics(record.metrics, measured(seen), duration_ms, seen.ttft_ms)
                    &&& record.source_precision@ == precision_of(seen)
                    &&& is_uuid(record.id@)
                    &&& is_utc_time(record.timestamp@)
                }
            }),
    {
        let privacy = self.privacy;
        let call = self.call(status, duration_ms, None);
        stream_record(call, privacy, meter)
    }
}

/// What is answered to the caller of a call that the provider answered.
pub fn relay(status: u16, headers: &Vec<Header>) -> (r: Relay)
    ensures
        r.status == (if 100 <= status <= 999 {
            status
        } else {
            BAD_GATEWAY
        }),
        header_views(r.headers@) == selected_headers(
            headers@,
            seq!["content-type"@, "cache-control"@, "content-length"@],
        ),
{
    Relay { status: relayed_status(status), headers: relayed_headers(headers) }
}

/// A call belongs to the run that its header names, and else to the run that the proxy was started
/// for, if any.
pub proof fn run_of_a_call(headers: Seq<Header>, run_id: String)
    ensures
        run_id_of(headers) is Some ==> run_of(headers, Some(run_id)) == run_id_of(headers)
            && run_of(headers, None) == run_id_of(headers),
        run_id_of(headers) is None ==> run_of(headers, Some(run_id)) == Some(run_id@) && run_of(
            headers,
            None,
        ) is None,
{
}

/// A call that was answered is the call that was sent, with its status, its time and its answer.
pub proof fn answer_completes_the_call(
    exchange: ExchangeView,
    status: u16,
    duration_ms: u128,
    response: Option<Json>,
)
    ensures
        ({
            let call = exchange.call(status, duration_ms, response);
            &&& call.endpoint == exchange.endpoint
            &&& call.run_id == exchange.run_id
            &&& call.upstream_base == exchange.upstream_base
            &&& call.request == exchange.request
            &&& call.status == status && call.duration_ms == duration_ms
            &&& call.response == response
        }),
{
}

} // verus!
