//! The proxy between agents and providers: where a call goes, what is recorded of it, and what
//! the caller is answered.
use crate::clock::{is_utc_time, now_or_epoch};
use crate::web::{extract_run_id, run_id_of, Header, Reply};
use crate::ident::{is_uuid, new_uuid};
use crate::json::{as_array, bool_in, boolean_of, field_of, get_in, json, json_option, number_at, number_in, parse, parsed, text_at, text_in, u64_in, unsigned_of, Json};
use crate::record::{amount_view, Amount, AmountView};
use crate::text::{chars_of, concat3, copy_option, ends_with, stands_at, starts_with, take_chars, text_of, trim_end_char, view_option, without_trailing};
use vstd::prelude::*;
use vstd::string::*;

verus! {

// ---------------------------------------------------------------------------
// Addresses

/// The base address of a provider, without the slashes that end it.
pub fn normalized_upstream(upstream_base: &str) -> (r: String)
    ensures
        r@ == without_trailing(upstream_base@, '/'),
{
    trim_end_char(upstream_base, '/')
}

/// Whether a text ends in `part`.
pub open spec fn has_suffix(s: Seq<char>, part: Seq<char>) -> bool {
    stands_at(s, s.len() - part.len(), part)
}

/// The address of an endpoint of a provider.
pub open spec fn url_of(upstream_base: Seq<char>, endpoint: Seq<char>) -> Seq<char> {
    if has_suffix(upstream_base, "/v1"@) && stands_at(endpoint, 0, "/v1/"@) {
        upstream_base + endpoint.skip(3)
    } else {
        upstream_base + endpoint
    }
}

/// The address of an endpoint of a provider; a base address that names the version is not given
/// it a second time.
pub fn upstream_url(upstream_base: &str, endpoint: &str) -> (r: String)
    ensures
        r@ == url_of(upstream_base@, endpoint@),
{
    proof {
        reveal_strlit("/v1/");
    }
    let mut out = upstream_base.to_owned();
    if ends_with(upstream_base, "/v1") && starts_with(endpoint, "/v1/") {
        let chars = chars_of(endpoint);
        let rest = text_of(&chars, 3, chars.len());
        assert(rest@ =~= endpoint@.skip(3));
        out.append(rest.as_str());
    } else {
        out.append(endpoint);
    }
    out
}

/// An endpoint has the same address whether or not the base address names the version.
pub proof fn version_is_not_doubled(server: Seq<char>, path: Seq<char>)
    requires
        !has_suffix(server, "/v1"@),
    ensures
        url_of(server + "/v1"@, "/v1/"@ + path) == server + "/v1/"@ + path,
        url_of(server, "/v1/"@ + path) == server + "/v1/"@ + path,
{
    reveal_strlit("/v1");
    reveal_strlit("/v1/");
    let base = server + "/v1"@;
    let endpoint = "/v1/"@ + path;
    assert(base.subrange(base.len() - 3, base.len() as int) =~= "/v1"@);
    assert(endpoint.subrange(0, 4) =~= "/v1/"@);
    assert(base + endpoint.skip(3) =~= server + "/v1/"@ + path);
    assert(server + endpoint =~= server + "/v1/"@ + path);
}

/// The base address of a proxy that listens at an address.
pub fn base_url(address: &str) -> (r: String)
    ensures
        r@ == "http://"@ + address@ + "/v1"@,
{
    concat3("http://", address, "/v1")
}

/// What is told when a proxy begins to listen.
pub fn listening_message(address: &str) -> (r: String)
    ensures
        r@ == "AgentLedger OpenAI-compatible proxy: http://"@ + address@ + "/v1"@,
{
    concat3("AgentLedger OpenAI-compatible proxy: http://", address, "/v1")
}

/// What is told of the provider of a proxy.
pub fn forwarding_message(upstream_base: &str) -> (r: String)
    ensures
        r@ == "Forwarding upstream: "@ + upstream_base@,
{
    let mut out = "Forwarding upstream: ".to_owned();
    out.append(upstream_base);
    out
}

// ---------------------------------------------------------------------------
// Answers

/// The status for a provider that could not be reached or did not answer.
pub const BAD_GATEWAY: u16 = 502;

/// The answer where a provider could not be reached.
pub fn request_failed(detail: &str) -> (r: Reply)
    ensures
        r.status == BAD_GATEWAY,
        r.body@ == "upstream request failed: "@ + detail@,
{
    let mut body = "upstream request failed: ".to_owned();
    body.append(detail);
    Reply { status: BAD_GATEWAY, body }
}

/// The answer where the answer of a provider broke off.
pub fn read_failed(detail: &str) -> (r: Reply)
    ensures
        r.status == BAD_GATEWAY,
        r.body@ == "upstream response read failed: "@ + detail@,
{
    let mut body = "upstream response read failed: ".to_owned();
    body.append(detail);
    Reply { status: BAD_GATEWAY, body }
}

/// The status that a caller is answered where the provider answered `status`.
pub fn relayed_status(status: u16) -> (r: u16)
    ensures
        r == (if 100 <= status <= 999 {
            status
        } else {
            BAD_GATEWAY
        }),
{
    if 100 <= status && status <= 999 {
        status
    } else {
        BAD_GATEWAY
    }
}

/// Whether a call that was answered with a status failed.
pub open spec fn failed_call(status: u16) -> bool {
    status >= 400
}

/// Whether a call that was answered with a status counts as an LLM error.
pub fn is_error_call(status: u16) -> (r: bool)
    ensures
        r == failed_call(status),
        status == BAD_GATEWAY ==> r,
{
    status >= 400
}

/// The number of calls that failed, of those that were answered with these statuses.
pub open spec fn failed_calls(statuses: Seq<u16>) -> nat
    decreases statuses.len(),
{
    if statuses.len() == 0 {
        0
    } else {
        failed_calls(statuses.drop_last()) + (if failed_call(statuses.last()) {
            1nat
        } else {
            0nat
        })
    }
}

/// The number of calls that failed, of those that were answered with these statuses.
pub fn count_error_calls(statuses: &Vec<u16>) -> (r: u64)
    ensures
        r == failed_calls(statuses@),
        r == statuses@.filter(|status: u16| status >= 400).len(),
{
    proof {
        every_failed_call_is_counted(statuses@);
    }
    let mut failed: u64 = 0;
    let n: usize = statuses.len();
    for i in 0..n
        invariant
            n == statuses@.len(),
            failed == failed_calls(statuses@.take(i as int)),
            failed <= i,
    {
        assert(statuses@.take(i + 1).drop_last() =~= statuses@.take(i as int));
        if is_error_call(statuses[i]) {
            failed = failed + 1;
        }
    }
    assert(statuses@.take(n as int) =~= statuses@);
    failed
}

// ---------------------------------------------------------------------------
// Metrics

/// What is recorded of the tokens, the cost and the speed of a call.
#[derive(Debug, Clone, PartialEq, Eq)]
pub struct LlmMetrics {
    pub input_tokens: Option<u64>,
    pub output_tokens: Option<u64>,
    pub total_tokens: Option<u64>,
    pub cached_tokens: Option<u64>,
    pub reasoning_tokens: Option<u64>,
    pub cost_usd: Option<Amount>,
    pub ttft_ms: Option<u128>,
    pub output_tokens_per_second: Option<Amount>,
}

/// What a provider says of a call.
#[derive(Debug, Clone, PartialEq, Eq)]
pub struct Usage {
    pub input_tokens: Option<u64>,
    pub output_tokens: Option<u64>,
    pub total_tokens: Option<u64>,
    pub cached_tokens: Option<u64>,
    pub reasoning_tokens: Option<u64>,
    pub cost: Option<String>,
}

/// The first of some members that holds a count.
pub open spec fn first_count(root: Option<Json>, keys: Seq<Seq<char>>) -> Option<u64>
    decreases keys.len(),
{
    if keys.len() == 0 {
        None
    } else {
        match unsigned_of(field_of(root, keys[0])) {
            Some(n) => Some(n),
            None => first_count(root, keys.drop_first()),
        }
    }
}

/// The views of a list of member names.
pub open spec fn key_views(keys: Seq<&str>) -> Seq<Seq<char>> {
    keys.map_values(|key: &str| key@)
}

/// The first of some members that holds a count.
pub fn first_u64(root: Option<&serde_json::Value>, keys: &Vec<&str>) -> (r: Option<u64>)
    ensures
        r == first_count(json_option(root), key_views(keys@)),
{
    let ghost all = key_views(keys@);
    let n: usize = keys.len();
    assert(all.skip(0) =~= all);
    for i in 0..n
        invariant
            n == keys@.len(),
            all == key_views(keys@),
            first_count(json_option(root), all) == first_count(
                json_option(root),
                all.skip(i as int),
            ),
    {
        assert(all.skip(i as int)[0] == keys@[i as int]@);
        assert(all.skip(i as int).drop_first() =~= all.skip(i + 1));
        if let Some(found) = u64_in(root, keys[i]) {
            return Some(found);
        }
    }
    None
}

/// What a provider says of a call.
pub struct UsageView {
    pub input_tokens: Option<u64>,
    pub output_tokens: Option<u64>,
    pub total_tokens: Option<u64>,
    pub cached_tokens: Option<u64>,
    pub reasoning_tokens: Option<u64>,
    pub cost: Option<Seq<char>>,
}

impl View for Usage {
    type V = UsageView;

    open spec fn view(&self) -> UsageView {
        UsageView {
            input_tokens: self.input_tokens,
            output_tokens: self.output_tokens,
            total_tokens: self.total_tokens,
            cached_tokens: self.cached_tokens,
            reasoning_tokens: self.reasoning_tokens,
            cost: view_option(self.cost),
        }
    }
}

/// What the answer of a provider says of a call.
pub open spec fn usage_in(response: Option<Json>) -> UsageView {
    let usage = field_of(response, "usage"@);
    UsageView {
        input_tokens: first_count(
            usage,
            seq!["prompt_tokens"@, "input_tokens"@, "prompt_eval_count"@],
        ),
        output_tokens: first_count(
            usage,
            seq!["completion_tokens"@, "output_tokens"@, "eval_count"@],
        ),
        total_tokens: unsigned_of(field_of(usage, "total_tokens"@)),
        cached_tokens: unsigned_of(
            field_of(field_of(usage, "prompt_tokens_details"@), "cached_tokens"@),
        ),
        reasoning_tokens: unsigned_of(
            field_of(field_of(usage, "completion_tokens_details"@), "reasoning_tokens"@),
        ),
        cost: match number_in(field_of(usage, "cost"@)) {
            Some(cost) => Some(cost),
            None => number_in(field_of(response, "cost"@)),
        },
    }
}

/// What the answer of a provider says of a call.
pub fn read_usage(response: Option<&serde_json::Value>) -> (r: Usage)
    ensures
        r@ == usage_in(json_option(response)),
{
    let usage = get_in(response, "usage");
    let input_keys: Vec<&str> = vec!["prompt_tokens", "input_tokens", "prompt_eval_count"];
    let output_keys: Vec<&str> = vec!["completion_tokens", "output_tokens", "eval_count"];
    assert(key_views(input_keys@) =~= seq![
        "prompt_tokens"@,
        "input_tokens"@,
        "prompt_eval_count"@,
    ]);
    assert(key_views(output_keys@) =~= seq![
        "completion_tokens"@,
        "output_tokens"@,
        "eval_count"@,
    ]);
    let cost = match number_at(usage, "cost") {
        Some(cost) => Some(cost),
        None => number_at(response, "cost"),
    };
    Usage {
        input_tokens: first_u64(usage, &input_keys),
        output_tokens: first_u64(usage, &output_keys),
        total_tokens: u64_in(usage, "total_tokens"),
        cached_tokens: u64_in(get_in(usage, "prompt_tokens_details"), "cached_tokens"),
        reasoning_tokens: u64_in(get_in(usage, "completion_tokens_details"), "reasoning_tokens"),
        cost,
    }
}

/// The total of a call: what the provider says, else the sum of input and output where it says
/// both.
pub open spec fn total_of(usage: UsageView) -> Option<nat> {
    match (usage.total_tokens, usage.input_tokens, usage.output_tokens) {
        (Some(total), _, _) => Some(total as nat),
        (None, Some(input), Some(output)) => Some(input as nat + output as nat),
        _ => None,
    }
}

/// Whether the total of a call can be written.
pub open spec fn total_fits(usage: UsageView) -> bool {
    total_of(usage) matches Some(total) ==> total <= u64::MAX
}

/// A count of tokens over the time of a call, which must not be zero.
pub open spec fn speed_of(tokens: Option<u64>, duration_ms: u128) -> Option<AmountView> {
    match tokens {
        Some(n) => if duration_ms == 0 {
            None
        } else {
            Some(AmountView::PerSecond(n, duration_ms))
        },
        None => None,
    }
}

/// Whether `m` is what is recorded of a call that took `duration_ms`, of which the provider says
/// `usage`, and whose first token came after `ttft_ms`.
pub open spec fn are_metrics(
    m: LlmMetrics,
    usage: UsageView,
    duration_ms: u128,
    ttft_ms: Option<u128>,
) -> bool {
    &&& m.input_tokens == usage.input_tokens
    &&& m.output_tokens == usage.output_tokens
    &&& crate::metrics::nat_option(m.total_tokens) == total_of(usage)
    &&& m.cached_tokens == usage.cached_tokens
    &&& m.reasoning_tokens == usage.reasoning_tokens
    &&& amount_view(m.cost_usd) == (match usage.cost {
        Some(cost) => Some(AmountView::Literal(cost)),
        None => None,
    })
    &&& m.ttft_ms == ttft_ms
    &&& amount_view(m.output_tokens_per_second) == speed_of(usage.output_tokens, duration_ms)
}

/// The speed of a call.
fn speed(tokens: Option<u64>, duration_ms: u128) -> (r: Option<Amount>)
    ensures
        amount_view(r) == speed_of(tokens, duration_ms),
        match tokens {
            Some(count) => duration_ms > 0 ==> r == Some(Amount::PerSecond { count, duration_ms }),
            None => r is None,
        },
        duration_ms == 0 ==> r is None,
{
    match tokens {
        Some(count) => if duration_ms == 0 {
            None
        } else {
            Some(Amount::PerSecond { count, duration_ms })
        },
        None => None,
    }
}

/// What is recorded of a call, from what the provider says of it.
pub fn metrics_of(usage: Usage, duration_ms: u128, ttft_ms: Option<u128>) -> (r: LlmMetrics)
    requires
        total_fits(usage@),
    ensures
        are_metrics(r, usage@, duration_ms, ttft_ms),
        r.output_tokens_per_second == (match usage.output_tokens {
            Some(count) => if duration_ms > 0 {
                Some(Amount::PerSecond { count, duration_ms })
            } else {
                None
            },
            None => None,
        }),
{
    let total_tokens = match (usage.total_tokens, usage.input_tokens, usage.output_tokens) {
        (Some(total), _, _) => Some(total),
        (None, Some(input), Some(output)) => Some(input + output),
        _ => None,
    };
    let output_tokens_per_second = speed(usage.output_tokens, duration_ms);
    LlmMetrics {
        input_tokens: usage.input_tokens,
        output_tokens: usage.output_tokens,
        total_tokens,
        cached_tokens: usage.cached_tokens,
        reasoning_tokens: usage.reasoning_tokens,
        cost_usd: match usage.cost {
            Some(cost) => Some(Amount::Literal(cost)),
            None => None,
        },
        ttft_ms,
        output_tokens_per_second,
    }
}

/// Whether the total of a call can be written.
pub fn usage_fits(usage: &Usage) -> (r: bool)
    ensures
        r == total_fits(usage@),
{
    match (usage.total_tokens, usage.input_tokens, usage.output_tokens) {
        (None, Some(input), Some(output)) => input <= u64::MAX - output,
        _ => true,
    }
}

/// What is recorded of a call from the answer of the provider, unless its total cannot be
/// written.
pub fn extract_metrics(response: Option<&serde_json::Value>, duration_ms: u128) -> (r: Option<
    LlmMetrics,
>)
    ensures
        r is Some <==> total_fits(usage_in(json_option(response))),
        r matches Some(m) ==> are_metrics(
            m,
            usage_in(json_option(response)),
            duration_ms,
            None,
        ),
{
    let usage = read_usage(response);
    if usage_fits(&usage) {
        Some(metrics_of(usage, duration_ms, None))
    } else {
        None
    }
}

// ---------------------------------------------------------------------------
// Prompts

/// The number of characters of a prompt that are kept.
pub const PROMPT_CHARS: usize = 2000;

/// The text of a part of a message, if it has one.
pub open spec fn part_text(part: Json) -> Option<Seq<char>> {
    text_in(part.field("text"@))
}

/// The texts of the parts of a message, each on lines of its own.
pub open spec fn parts_text(parts: Seq<Json>) -> Option<Seq<char>>
    decreases parts.len(),
{
    if parts.len() == 0 {
        None
    } else {
        match (parts_text(parts.drop_last()), part_text(parts.last())) {
            (Some(before), Some(text)) => Some(before + "\n"@ + text),
            (Some(before), None) => Some(before),
            (None, text) => text,
        }
    }
}

/// What the content of a message says: a text, or the texts of its parts.
pub open spec fn content_text(content: Option<Json>) -> Option<Seq<char>> {
    match content {
        Some(Json::Text(text)) => Some(text),
        Some(Json::Array(parts)) => parts_text(parts),
        _ => None,
    }
}

/// Whether a message of a conversation is one of the user's.
pub open spec fn is_from_user(message: Json) -> bool {
    text_in(message.field("role"@)) == Some("user"@)
}

/// The last thing that the user says in a conversation: what the last message of theirs says,
/// which is nothing where it has no text.
pub open spec fn last_user_text(messages: Seq<Json>) -> Option<Seq<char>>
    decreases messages.len(),
{
    if messages.len() == 0 {
        None
    } else if is_from_user(messages.last()) {
        content_text(messages.last().field("content"@))
    } else {
        last_user_text(messages.drop_last())
    }
}

/// The prompt of a call: the last thing that the user says in its messages, else its input, which
/// is a text or a conversation, else its prompt.
pub open spec fn prompt_in(request: Option<Json>) -> Option<Seq<char>> {
    let said = match field_of(request, "messages"@) {
        Some(Json::Array(messages)) => last_user_text(messages),
        _ => None,
    };
    let input = match field_of(request, "input"@) {
        Some(Json::Text(text)) => Some(text),
        Some(Json::Array(messages)) => last_user_text(messages),
        _ => None,
    };
    if said is Some {
        said
    } else if input is Some {
        input
    } else {
        text_in(field_of(request, "prompt"@))
    }
}

/// The start of a text, as far as it is kept.
pub open spec fn shortened(text: Seq<char>) -> Seq<char> {
    if text.len() <= PROMPT_CHARS {
        text
    } else {
        text.take(PROMPT_CHARS as int)
    }
}

/// What is kept of the prompt of a call.
pub open spec fn kept_prompt(request: Option<Json>, capture: bool) -> Option<Seq<char>> {
    match prompt_in(request) {
        Some(text) => if capture {
            Some(shortened(text))
        } else {
            None
        },
        None => None,
    }
}

fn said_in_parts(parts: &Vec<serde_json::Value>) -> (r: Option<String>)
    ensures
        view_option(r) == parts_text(parts@.map_values(|part: serde_json::Value| json(part))),
{
    let ghost all = parts@.map_values(|part: serde_json::Value| json(part));
    let mut said: Option<String> = None;
    let n: usize = parts.len();
    for i in 0..n
        invariant
            n == parts@.len(),
            all == parts@.map_values(|part: serde_json::Value| json(part)),
            view_option(said) == parts_text(all.take(i as int)),
    {
        assert(all.take(i + 1).last() == json(parts@[i as int]));
        assert(all.take(i + 1).drop_last() =~= all.take(i as int));
        if let Some(text) = text_at(Some(&parts[i]), "text") {
            said = match said {
                Some(before) => Some(concat3(before.as_str(), "\n", text.as_str())),
                None => Some(text),
            };
        }
    }
    assert(all.take(n as int) =~= all);
    said
}

fn said_in_content(message: &serde_json::Value) -> (r: Option<String>)
    ensures
        view_option(r) == content_text(json(*message).field("content"@)),
{
    match get_in(Some(message), "content") {
        Some(content) => match as_array(content) {
            Some(parts) => said_in_parts(parts),
            None => text_at(Some(message), "content"),
        },
        None => None,
    }
}

fn last_said(messages: &Vec<serde_json::Value>) -> (r: Option<String>)
    ensures
        view_option(r) == last_user_text(messages@.map_values(|m: serde_json::Value| json(m))),
{
    let ghost all = messages@.map_values(|m: serde_json::Value| json(m));
    let mut i: usize = messages.len();
    assert(all.take(i as int) =~= all);
    while i > 0
        invariant
            i <= messages@.len(),
            all == messages@.map_values(|m: serde_json::Value| json(m)),
            last_user_text(all) == last_user_text(all.take(i as int)),
        decreases i,
    {
        let message = &messages[i - 1];
        assert(all.take(i as int).last() == json(*message));
        assert(all.take(i as int).drop_last() =~= all.take(i - 1));
        let is_user = match text_at(Some(message), "role") {
            Some(role) => *role.as_str() == *"user",
            None => false,
        };
        if is_user {
            return said_in_content(message);
        }
        i = i - 1;
    }
    None
}

/// The last thing that the user says in the conversation that a request holds under a name.
fn last_said_under(request: Option<&serde_json::Value>, name: &str) -> (r: Option<String>)
    ensures
        view_option(r) == (match field_of(json_option(request), name@) {
            Some(Json::Array(messages)) => last_user_text(messages),
            _ => None,
        }),
{
    match get_in(request, name) {
        Some(messages) => match as_array(messages) {
            Some(items) => last_said(items),
            None => None,
        },
        None => None,
    }
}

/// What is kept of the prompt of a call: its start, unless prompts are not captured.
pub fn capture_prompt(request: Option<&serde_json::Value>, capture: bool) -> (r: Option<String>)
    ensures
        view_option(r) == kept_prompt(json_option(request), capture),
{
    if !capture {
        return None;
    }
    let mut text = last_said_under(request, "messages");
    if text.is_none() {
        text = last_said_under(request, "input");
    }
    if text.is_none() {
        text = text_at(request, "input");
    }
    if text.is_none() {
        text = text_at(request, "prompt");
    }
    match text {
        Some(text) => Some(take_chars(text.as_str(), PROMPT_CHARS)),
        None => None,
    }
}

/// Whether the prompts of calls are kept: recorded bodies hold them anyway.
pub fn captures_prompts(capture_prompts: bool, record_bodies: bool) -> (r: bool)
    ensures
        r == (capture_prompts || record_bodies),
{
    capture_prompts || record_bodies
}

/// A prompt that is kept is never longer than what is kept of prompts, and is where the prompt
/// begins.
pub proof fn prompts_are_short(request: Option<Json>, capture: bool)
    ensures
        match kept_prompt(request, capture) {
            Some(kept) => {
                &&& capture
                &&& kept.len() <= PROMPT_CHARS
                &&& kept.is_prefix_of(prompt_in(request)->0)
                &&& prompt_in(request)->0.len() <= PROMPT_CHARS ==> kept == prompt_in(request)->0
            },
            None => !capture || prompt_in(request) is None,
        },
{
}

// ---------------------------------------------------------------------------
// Records

/// An LLM call that passed through the proxy.
pub struct LlmCallRecord {
    pub record_type: &'static str,
    pub schema_version: u32,
    pub id: String,
    pub timestamp: String,
    pub endpoint: String,
    pub run_id: Option<String>,
    pub upstream_base: String,
    pub model: Option<String>,
    pub prompt: Option<String>,
    pub status: u16,
    pub duration_ms: u128,
    pub source_precision: &'static str,
    pub request_stream: Option<bool>,
    pub request_body: Option<serde_json::Value>,
    pub response_body: Option<serde_json::Value>,
    pub metrics: LlmMetrics,
}

/// What an optional JSON value holds.
pub open spec fn json_owned(value: Option<serde_json::Value>) -> Option<Json> {
    match value {
        Some(v) => Some(json(v)),
        None => None,
    }
}

/// A call as the proxy saw it.
pub struct Call {
    pub endpoint: String,
    pub run_id: Option<String>,
    pub upstream_base: String,
    pub status: u16,
    pub duration_ms: u128,
    pub request: Option<serde_json::Value>,
    pub response: Option<serde_json::Value>,
}

/// A call as the proxy saw it.
pub struct CallView {
    pub endpoint: Seq<char>,
    pub run_id: Option<Seq<char>>,
    pub upstream_base: Seq<char>,
    pub status: u16,
    pub duration_ms: u128,
    pub request: Option<Json>,
    pub response: Option<Json>,
}

impl View for Call {
    type V = CallView;

    open spec fn view(&self) -> CallView {
        CallView {
            endpoint: self.endpoint@,
            run_id: view_option(self.run_id),
            upstream_base: self.upstream_base@,
            status: self.status,
            duration_ms: self.duration_ms,
            request: json_owned(self.request),
            response: json_owned(self.response),
        }
    }
}

/// What is kept of the calls.
#[derive(Debug, Clone, Copy, PartialEq, Eq)]
pub struct Privacy {
    pub record_bodies: bool,
    pub capture_prompts: bool,
}

/// The model of a call: the one that was asked for, else the one that answered.
pub open spec fn model_in(request: Option<Json>, answered: Option<Seq<char>>) -> Option<
    Seq<char>,
> {
    match text_in(field_of(request, "model"@)) {
        Some(model) => Some(model),
        None => answered,
    }
}

/// A body, if bodies are recorded.
pub open spec fn recorded(body: Option<Json>, record_bodies: bool) -> Option<Json> {
    if record_bodies {
        body
    } else {
        None
    }
}

/// Whether `r` says of a call that the model `answered` answered what does not depend on how it
/// was measured.
pub open spec fn describes_call(
    r: LlmCallRecord,
    call: CallView,
    answered: Option<Seq<char>>,
    privacy: Privacy,
) -> bool {
    &&& r.record_type@ == "llm_call"@
    &&& r.schema_version == 1
    &&& r.endpoint@ == call.endpoint
    &&& view_option(r.run_id) == call.run_id
    &&& r.upstream_base@ == call.upstream_base
    &&& view_option(r.model) == model_in(call.request, answered)
    &&& view_option(r.prompt) == kept_prompt(
        call.request,
        privacy.capture_prompts || privacy.record_bodies,
    )
    &&& r.status == call.status
    &&& r.duration_ms == call.duration_ms
    &&& r.request_stream == boolean_of(field_of(call.request, "stream"@))
    &&& json_owned(r.request_body) == recorded(call.request, privacy.record_bodies)
    &&& json_owned(r.response_body) == recorded(call.response, privacy.record_bodies)
}

/// The record of a call with given metrics, under a given id and time.
pub fn record_of(
    call: Call,
    answered: Option<String>,
    privacy: Privacy,
    metrics: LlmMetrics,
    source_precision: &'static str,
    id: String,
    timestamp: String,
) -> (r: LlmCallRecord)
    ensures
        describes_call(r, call@, view_option(answered), privacy),
        r.metrics == metrics,
        r.source_precision == source_precision,
        r.id == id,
        r.timestamp == timestamp,
{
    let request = call.request.as_ref();
    let model = match text_at(request, "model") {
        Some(model) => Some(model),
        None => answered,
    };
    let capture = captures_prompts(privacy.capture_prompts, privacy.record_bodies);
    let prompt = capture_prompt(request, capture);
    let request_stream = bool_in(request, "stream");
    let (request_body, response_body) = if privacy.record_bodies {
        (call.request, call.response)
    } else {
        (None, None)
    };
    LlmCallRecord {
        record_type: "llm_call",
        schema_version: 1,
        id,
        timestamp,
        endpoint: call.endpoint,
        run_id: call.run_id,
        upstream_base: call.upstream_base,
        model,
        prompt,
        status: call.status,
        duration_ms: call.duration_ms,
        source_precision,
        request_stream,
        request_body,
        response_body,
        metrics,
    }
}

/// The record of a call that was answered at once, with a fresh id and the time now, unless the
/// total of its tokens cannot be written.
pub fn build_record(call: Call, privacy: Privacy) -> (r: Option<LlmCallRecord>)
    ensures
        r is Some <==> total_fits(usage_in(call@.response)),
        r matches Some(record) ==> {
            &&& describes_call(
                record,
                call@,
                text_in(field_of(call@.response, "model"@)),
                privacy,
            )
            &&& are_metrics(record.metrics, usage_in(call@.response), call.duration_ms, None)
            &&& record.source_precision@ == "exact"@
            &&& is_uuid(record.id@)
            &&& is_utc_time(record.timestamp@)
        },
{
    let answered = text_at(call.response.as_ref(), "model");
    match extract_metrics(call.response.as_ref(), call.duration_ms) {
        Some(metrics) => Some(
            record_of(call, answered, privacy, metrics, "exact", new_uuid(), now_or_epoch()),
        ),
        None => None,
    }
}

/// The run of a call: the one that it names, else the one that the proxy was started for.
pub fn call_run_id(headers: &Vec<Header>, default_run_id: &Option<String>) -> (r: Option<String>)
    ensures
        view_option(r) == (match run_id_of(headers@) {
            Some(id) => Some(id),
            None => view_option(*default_run_id),
        }),
{
    match extract_run_id(headers) {
        Some(id) => Some(id),
        None => copy_option(default_run_id),
    }
}

/// What a body holds, if it is JSON.
pub fn read_body(body: &[u8]) -> (r: Option<serde_json::Value>)
    ensures
        json_owned(r) == parsed(body@),
{
    match parse(body) {
        Ok(value) => Some(value),
        Err(_) => None,
    }
}

// ---------------------------------------------------------------------------
// What the operations are

/// A failed call is one that was answered with a status of four hundred or more, and every one of
/// them is counted, whatever stands next to it.
pub proof fn every_failed_call_is_counted(statuses: Seq<u16>)
    ensures
        failed_calls(statuses) == statuses.filter(|status: u16| status >= 400).len(),
        forall|i: int| 0 <= i < statuses.len() ==> (failed_call(#[trigger] statuses[i]) <==>
            statuses[i] >= 400),
        failed_calls(statuses) == 0 <==> (forall|i: int|
            0 <= i < statuses.len() ==> #[trigger] statuses[i] < 400),
        failed_calls(statuses) == statuses.len() <==> (forall|i: int|
            0 <= i < statuses.len() ==> #[trigger] statuses[i] >= 400),
    decreases statuses.len(),
{
    reveal(Seq::filter);
    if statuses.len() > 0 {
        let before = statuses.drop_last();
        every_failed_call_is_counted(before);
        lemma_failed_are_calls(before);
        assert(forall|i: int| 0 <= i < before.len() ==> before[i] == #[trigger] statuses[i]);
        let n = statuses.len() - 1;
        assert(statuses[n] == statuses.last());
        if failed_calls(before) == 0 {
            assert forall|i: int| 0 <= i < n implies #[trigger] statuses[i] < 400 by {
                assert(before[i] < 400);
            }
        } else {
            let k = choose|k: int| 0 <= k < before.len() && #[trigger] before[k] >= 400;
            assert(statuses[k] >= 400);
        }
        if failed_calls(before) == before.len() {
            assert forall|i: int| 0 <= i < n implies #[trigger] statuses[i] >= 400 by {
                assert(before[i] >= 400);
            }
        } else {
            let k = choose|k: int| 0 <= k < before.len() && #[trigger] before[k] < 400;
            assert(statuses[k] < 400);
        }
    }
}

proof fn lemma_failed_are_calls(statuses: Seq<u16>)
    ensures
        failed_calls(statuses) <= statuses.len(),
    decreases statuses.len(),
{
    if statuses.len() > 0 {
        lemma_failed_are_calls(statuses.drop_last());
    }
}

/// The speed of a call is known exactly where the count of its output tokens is known and it took
/// any time at all, and is that count over that time.
pub proof fn speed_is_count_over_time(tokens: Option<u64>, duration_ms: u128)
    ensures
        tokens is Some && duration_ms > 0 ==> speed_of(tokens, duration_ms) == Some(
            AmountView::PerSecond(tokens->0, duration_ms),
        ),
        tokens is None || duration_ms == 0 ==> speed_of(tokens, duration_ms) is None,
{
}

/// The total of a call is what the provider says. Where it does not say, the total is the sum of
/// input and output if both are known, and else is not known.
pub proof fn total_is_said_or_added(usage: UsageView)
    ensures
        usage.total_tokens is Some ==> total_of(usage) == Some(usage.total_tokens->0 as nat),
        usage.total_tokens is None && usage.input_tokens is Some && usage.output_tokens is Some
            ==> total_of(usage) == Some((usage.input_tokens->0 + usage.output_tokens->0) as nat),
        usage.total_tokens is None && (usage.input_tokens is None || usage.output_tokens is None)
            ==> total_of(usage) is None,
        total_fits(usage) <==> (usage.total_tokens is None && usage.input_tokens is Some
            && usage.output_tokens is Some ==> usage.input_tokens->0 + usage.output_tokens->0
            <= u64::MAX),
{
}

/// What is recorded of a call is what the provider says of its tokens and its cost, the total, the
/// time of the first token and the speed.
pub proof fn metrics_tell_the_usage(
    m: LlmMetrics,
    usage: UsageView,
    duration_ms: u128,
    ttft_ms: Option<u128>,
)
    requires
        are_metrics(m, usage, duration_ms, ttft_ms),
    ensures
        m.input_tokens == usage.input_tokens,
        m.output_tokens == usage.output_tokens,
        m.cached_tokens == usage.cached_tokens,
        m.reasoning_tokens == usage.reasoning_tokens,
        usage.total_tokens is Some ==> m.total_tokens == usage.total_tokens,
        usage.total_tokens is None ==> match (usage.input_tokens, usage.output_tokens) {
            (Some(input), Some(output)) => m.total_tokens is Some && m.total_tokens->0 == input
                + output,
            _ => m.total_tokens is None,
        },
        match usage.cost {
            Some(cost) => m.cost_usd matches Some(Amount::Literal(text)) && text@ == cost,
            None => m.cost_usd is None,
        },
        m.ttft_ms == ttft_ms,
        match usage.output_tokens {
            Some(count) => m.output_tokens_per_second == (if duration_ms > 0 {
                Some(Amount::PerSecond { count, duration_ms })
            } else {
                None
            }),
            None => m.output_tokens_per_second is None,
        },
{
}

/// The first of some members that holds a count gives the count; those before it hold none, and
/// those behind it do not matter.
pub proof fn first_count_counts(root: Option<Json>, keys: Seq<Seq<char>>, i: int)
    requires
        0 <= i <= keys.len(),
        forall|j: int|
            0 <= j < i ==> unsigned_of(field_of(root, #[trigger] keys[j])) is None,
        i < keys.len() ==> unsigned_of(field_of(root, keys[i])) is Some,
    ensures
        first_count(root, keys) == (if i < keys.len() {
            unsigned_of(field_of(root, keys[i]))
        } else {
            None
        }),
    decreases keys.len(),
{
    if i > 0 {
        assert(unsigned_of(field_of(root, keys[0])) is None);
        let rest = keys.drop_first();
        assert forall|j: int| 0 <= j < i - 1 implies unsigned_of(
            field_of(root, #[trigger] rest[j]),
        ) is None by {
            assert(rest[j] == keys[j + 1]);
        }
        assert(i < keys.len() ==> rest[i - 1] == keys[i]);
        first_count_counts(root, rest, i - 1);
    }
}

/// Where the answer of a provider says something of the usage: the counts under the names that
/// providers give them, of which the first that holds a count stands, and the cost in the usage or
/// else beside it.
pub proof fn usage_is_read_by_its_names(response: Json, usage: Json)
    requires
        response.field("usage"@) == Some(usage),
    ensures
        ({
            let u = usage_in(Some(response));
            &&& u.input_tokens == (if unsigned_of(usage.field("prompt_tokens"@)) is Some {
                unsigned_of(usage.field("prompt_tokens"@))
            } else if unsigned_of(usage.field("input_tokens"@)) is Some {
                unsigned_of(usage.field("input_tokens"@))
            } else {
                unsigned_of(usage.field("prompt_eval_count"@))
            })
            &&& u.output_tokens == (if unsigned_of(usage.field("completion_tokens"@)) is Some {
                unsigned_of(usage.field("completion_tokens"@))
            } else if unsigned_of(usage.field("output_tokens"@)) is Some {
                unsigned_of(usage.field("output_tokens"@))
            } else {
                unsigned_of(usage.field("eval_count"@))
            })
            &&& u.total_tokens == unsigned_of(usage.field("total_tokens"@))
            &&& u.cached_tokens == (match usage.field("prompt_tokens_details"@) {
                Some(details) => unsigned_of(details.field("cached_tokens"@)),
                None => None,
            })
            &&& u.reasoning_tokens == (match usage.field("completion_tokens_details"@) {
                Some(details) => unsigned_of(details.field("reasoning_tokens"@)),
                None => None,
            })
            &&& u.cost == (if number_in(usage.field("cost"@)) is Some {
                number_in(usage.field("cost"@))
            } else {
                number_in(response.field("cost"@))
            })
        }),
{
    let input = seq!["prompt_tokens"@, "input_tokens"@, "prompt_eval_count"@];
    let output = seq!["completion_tokens"@, "output_tokens"@, "eval_count"@];
    reveal_with_fuel(first_count, 4);
    assert(input.drop_first()[0] == "input_tokens"@);
    assert(input.drop_first().drop_first()[0] == "prompt_eval_count"@);
    assert(input.drop_first().drop_first().drop_first().len() == 0);
    assert(output.drop_first()[0] == "output_tokens"@);
    assert(output.drop_first().drop_first()[0] == "eval_count"@);
    assert(output.drop_first().drop_first().drop_first().len() == 0);
}

/// Nothing is known of the tokens of an answer without a usage, or of no answer; a cost may still
/// stand beside it.
pub proof fn no_usage_is_unknown(response: Option<Json>)
    requires
        response matches Some(value) ==> value.field("usage"@) is None,
    ensures
        ({
            let u = usage_in(response);
            &&& u.input_tokens is None && u.output_tokens is None && u.total_tokens is None
            &&& u.cached_tokens is None && u.reasoning_tokens is None
            &&& u.cost == (match response {
                Some(value) => number_in(value.field("cost"@)),
                None => None,
            })
        }),
{
    let input = seq!["prompt_tokens"@, "input_tokens"@, "prompt_eval_count"@];
    let output = seq!["completion_tokens"@, "output_tokens"@, "eval_count"@];
    assert(field_of(response, "usage"@) is None);
    first_count_counts(None, input, 3);
    first_count_counts(None, output, 3);
}

/// An endpoint stands behind the base address of its provider; only where the base address ends
/// with the version that the endpoint begins with is the version left out once.
pub proof fn endpoint_stands_behind_its_base(base: Seq<char>, endpoint: Seq<char>)
    ensures
        "/v1"@.is_suffix_of(base) && "/v1/"@.is_prefix_of(endpoint) ==> url_of(base, endpoint)
            == base + endpoint.subrange(3, endpoint.len() as int),
        !("/v1"@.is_suffix_of(base) && "/v1/"@.is_prefix_of(endpoint)) ==> url_of(base, endpoint)
            == base + endpoint,
{
    reveal_strlit("/v1");
    reveal_strlit("/v1/");
    if "/v1/"@.is_prefix_of(endpoint) {
        assert(endpoint.subrange(0, 4) =~= "/v1/"@);
    }
    if "/v1"@.is_suffix_of(base) {
        assert(base.subrange(base.len() - 3, base.len() as int) =~= "/v1"@);
    }
}

/// The prompt of a conversation is what the last message of the user says; what others say behind
/// it, and what the user said before, is not.
pub proof fn last_message_of_the_user_is_the_prompt(
    before: Seq<Json>,
    message: Json,
    after: Seq<Json>,
)
    requires
        message.field("role"@) == Some(Json::Text("user"@)),
        forall|i: int|
            0 <= i < after.len() ==> (#[trigger] after[i]).field("role"@) != Some(
                Json::Text("user"@),
            ),
    ensures
        last_user_text(before.push(message) + after) == content_text(message.field("content"@)),
        last_user_text(after) is None,
    decreases after.len(),
{
    let all = before.push(message) + after;
    if after.len() == 0 {
        assert(all.last() == message);
    } else {
        let fewer = after.drop_last();
        assert forall|i: int| 0 <= i < fewer.len() implies (#[trigger] fewer[i]).field("role"@)
            != Some(Json::Text("user"@)) by {
            assert(fewer[i] == after[i]);
        }
        last_message_of_the_user_is_the_prompt(before, message, fewer);
        assert(all.last() == after[after.len() - 1]);
        assert(all.drop_last() =~= before.push(message) + fewer);
    }
}

/// What a message says is its text, or the texts of its parts, each on lines of its own; parts
/// without a text say nothing.
pub proof fn messages_say_their_texts(
    text: Seq<char>,
    parts: Seq<Json>,
    part: Json,
    content: Option<Json>,
)
    ensures
        content_text(Some(Json::Text(text))) == Some(text),
        content_text(Some(Json::Array(parts))) == parts_text(parts),
        content is None || content == Some(Json::Null) || content->0 is Number || content->0 is Bool
            || content->0 is Object ==> content_text(content) is None,
        parts_text(Seq::<Json>::empty()) is None,
        part.field("text"@) == Some(Json::Text(text)) ==> parts_text(parts.push(part)) == Some(
            match parts_text(parts) {
                Some(before) => before + "\n"@ + text,
                None => text,
            },
        ),
        !(part.field("text"@) matches Some(Json::Text(_))) ==> parts_text(parts.push(part))
            == parts_text(parts),
{
    assert(parts.push(part).drop_last() =~= parts);
}

/// Where the prompt of a call stands: in its messages, else in its input, else under its name.
pub proof fn prompt_is_found(request: Json)
    ensures
        request.field("messages"@) matches Some(Json::Array(messages)) && last_user_text(
            messages,
        ) is Some ==> prompt_in(Some(request)) == last_user_text(
            request.field("messages"@)->0->Array_0,
        ),
        !(request.field("messages"@) matches Some(Json::Array(messages)) && last_user_text(
            messages,
        ) is Some) ==> prompt_in(Some(request)) == (match request.field("input"@) {
            Some(Json::Text(text)) => Some(text),
            Some(Json::Array(messages)) if last_user_text(messages) is Some => last_user_text(
                messages,
            ),
            _ => match request.field("prompt"@) {
                Some(Json::Text(text)) => Some(text),
                _ => None,
            },
        }),
        prompt_in(None) is None,
{
}

/// Of a prompt the first two thousand characters are kept, all of them, and only where prompts are
/// captured.
pub proof fn prompt_is_kept(request: Option<Json>, prompt: Seq<char>)
    ensures
        kept_prompt(request, false) is None,
        prompt_in(request) is None ==> kept_prompt(request, true) is None,
        prompt_in(request) == Some(prompt) && prompt.len() <= 2000 ==> kept_prompt(request, true)
            == Some(prompt),
        prompt_in(request) == Some(prompt) && prompt.len() > 2000 ==> kept_prompt(request, true)
            == Some(prompt.subrange(0, 2000)),
{
}

/// The record of a call tells what was called, by which run, and what was answered; bodies are in
/// it only where they are recorded, and the prompt only where prompts are captured or bodies are
/// recorded.
pub proof fn record_tells_the_call(
    r: LlmCallRecord,
    call: CallView,
    answered: Option<Seq<char>>,
    privacy: Privacy,
)
    requires
        describes_call(r, call, answered, privacy),
    ensures
        r.record_type@ == "llm_call"@,
        r.schema_version == 1,
        r.endpoint@ == call.endpoint,
        match call.run_id {
            Some(id) => r.run_id matches Some(text) && text@ == id,
            None => r.run_id is None,
        },
        r.upstream_base@ == call.upstream_base,
        r.status == call.status,
        r.duration_ms == call.duration_ms,
        match call.request {
            Some(request) => match request.field("model"@) {
                Some(Json::Text(model)) => r.model matches Some(text) && text@ == model,
                _ => match answered {
                    Some(model) => r.model matches Some(text) && text@ == model,
                    None => r.model is None,
                },
            },
            None => match answered {
                Some(model) => r.model matches Some(text) && text@ == model,
                None => r.model is None,
            },
        },
        r.request_stream == (match call.request {
            Some(request) => match request.field("stream"@) {
                Some(Json::Bool(stream)) => Some(stream),
                _ => None,
            },
            None => None,
        }),
        match kept_prompt(call.request, privacy.capture_prompts || privacy.record_bodies) {
            Some(prompt) => r.prompt matches Some(text) && text@ == prompt,
            None => r.prompt is None,
        },
        !privacy.record_bodies ==> r.request_body is None && r.response_body is None,
        privacy.record_bodies ==> match call.request {
            Some(body) => r.request_body matches Some(value) && json(value) == body,
            None => r.request_body is None,
        },
        privacy.record_bodies ==> match call.response {
            Some(body) => r.response_body matches Some(value) && json(value) == body,
            None => r.response_body is None,
        },
{
}

/// A usage and a call are seen field by field.
pub proof fn usage_and_call_are_seen(usage: Usage, call: Call)
    ensures
        usage@.input_tokens == usage.input_tokens,
        usage@.output_tokens == usage.output_tokens,
        usage@.total_tokens == usage.total_tokens,
        usage@.cached_tokens == usage.cached_tokens,
        usage@.reasoning_tokens == usage.reasoning_tokens,
        match usage.cost {
            Some(cost) => usage@.cost == Some(cost@),
            None => usage@.cost is None,
        },
        call@.endpoint == call.endpoint@,
        match call.run_id {
            Some(id) => call@.run_id == Some(id@),
            None => call@.run_id is None,
        },
        call@.upstream_base == call.upstream_base@,
        call@.status == call.status,
        call@.duration_ms == call.duration_ms,
        match call.request {
            Some(body) => call@.request == Some(json(body)),
            None => call@.request is None,
        },
        match call.response {
            Some(body) => call@.response == Some(json(body)),
            None => call@.response is None,
        },
{
}

/// A provider that cannot be reached, or whose answer breaks off, counts as a failed call.
pub proof fn unreachable_provider_is_a_failed_call()
    ensures
        BAD_GATEWAY == 502,
        failed_call(BAD_GATEWAY),
{
}

/// A body that may be missing is seen where there is one.
pub proof fn bodies_are_seen(body: serde_json::Value)
    ensures
        json_owned(Some(body)) == Some(json(body)),
        json_owned(None) is None,
{
}

} // verus!
