use agentledger::proxy::{
    base_url, build_record, call_run_id, capture_prompt, captures_prompts, count_error_calls,
    extract_metrics, forwarding_message, is_error_call, listening_message, metrics_of,
    normalized_upstream, read_body, read_failed, read_usage, relayed_status, request_failed,
    upstream_url, usage_fits, Call, Privacy, Usage,
};
use agentledger::record::Amount;
use agentledger::stream::{is_event_stream, stream_record, StreamMeter};
use agentledger::web::{
    apply_forward_headers, extract_run_id, find_header, relayed_headers, Header,
};

fn parse(text: &str) -> serde_json::Value {
    serde_json::from_str(text).expect("json")
}

fn header(name: &str, value: &[u8]) -> Header {
    Header { name: name.to_string(), value: value.to_vec() }
}

fn value(amount: &Option<Amount>) -> Option<f64> {
    amount.as_ref().map(|amount| match amount {
        Amount::Literal(text) => text.parse().expect("number"),
        Amount::Sum(_) => panic!("no sum is recorded of a call"),
        Amount::PerSecond { count, duration_ms } => {
            *count as f64 / (*duration_ms as f64 / 1000.0)
        }
    })
}

fn call(duration_ms: u128, request: Option<&str>, response: Option<&str>) -> Call {
    Call {
        endpoint: "/v1/chat/completions".to_string(),
        run_id: Some("run-1".to_string()),
        upstream_base: "http://127.0.0.1:4141/v1".to_string(),
        status: 200,
        duration_ms,
        request: request.map(parse),
        response: response.map(parse),
    }
}

const PRIVATE: Privacy = Privacy { record_bodies: false, capture_prompts: false };
const OPEN: Privacy = Privacy { record_bodies: true, capture_prompts: false };
const PROMPTS: Privacy = Privacy { record_bodies: false, capture_prompts: true };

#[test]
fn upstream_address_names_the_version_once() {
    let endpoint = "/v1/chat/completions";
    assert_eq!(upstream_url("http://h/v1", endpoint), "http://h/v1/chat/completions");
    assert_eq!(upstream_url("http://h", endpoint), "http://h/v1/chat/completions");
    assert_eq!(upstream_url("http://h/v1", "/v1"), "http://h/v1/v1");
    assert_eq!(upstream_url("http://h/v1", "/health"), "http://h/v1/health");
    assert_eq!(normalized_upstream("http://h/v1//"), "http://h/v1");
    assert_eq!(normalized_upstream("http://h"), "http://h");
    assert_eq!(base_url("127.0.0.1:9"), "http://127.0.0.1:9/v1");
    assert_eq!(
        listening_message("127.0.0.1:9"),
        "AgentLedger OpenAI-compatible proxy: http://127.0.0.1:9/v1"
    );
    assert_eq!(forwarding_message("http://h"), "Forwarding upstream: http://h");
}

#[test]
fn run_id_comes_from_the_header() {
    let id = |value: &[u8]| extract_run_id(&vec![header("x-agentledger-run-id", value)]);
    assert_eq!(id(b" run-1\t"), Some("run-1".to_string()));
    assert_eq!(id(b"  "), None);
    assert_eq!(id(b"run\xe9"), None);
    assert_eq!(id(b"run\x7f"), None);
    assert_eq!(extract_run_id(&vec![]), None);
    let default = Some("run-9".to_string());
    let named = vec![header("x-agentledger-run-id", b"run-1")];
    assert_eq!(call_run_id(&named, &default), Some("run-1".to_string()));
    assert_eq!(call_run_id(&vec![], &default), default);
    assert_eq!(call_run_id(&vec![], &None), None);
}

#[test]
fn first_of_two_headers_counts() {
    let headers = vec![header("a", b"1"), header("b", b"2"), header("b", b"3")];
    assert_eq!(find_header(&headers, "b"), Some(&b"2".to_vec()));
    assert_eq!(find_header(&headers, "c"), None);
}

#[test]
fn only_some_headers_are_forwarded() {
    let headers = vec![
        header("authorization", b"Bearer caller"),
        header("cookie", b"secret"),
        header("x-title", b"t"),
        header("accept", b"*/*"),
        header("content-type", b"application/json"),
    ];
    let own = apply_forward_headers(&headers, Some("key"));
    assert_eq!(own.bearer.as_deref(), Some("key"));
    assert_eq!(
        own.headers,
        vec![
            header("accept", b"*/*"),
            header("content-type", b"application/json"),
            header("x-title", b"t"),
        ]
    );
    let callers = apply_forward_headers(&headers, None);
    assert_eq!(callers.bearer, None);
    assert_eq!(callers.headers.len(), 4);
    assert_eq!(callers.headers[3], header("authorization", b"Bearer caller"));
    let answer = vec![
        header("set-cookie", b"x"),
        header("content-length", b"4"),
        header("content-type", b"text/plain"),
    ];
    assert_eq!(
        relayed_headers(&answer),
        vec![header("content-type", b"text/plain"), header("content-length", b"4")]
    );
}

#[test]
fn failures_are_answered_and_counted() {
    let reply = request_failed("refused");
    assert_eq!(reply.status, 502);
    assert_eq!(reply.body, "upstream request failed: refused");
    assert!(is_error_call(reply.status));
    let reply = read_failed("cut");
    assert_eq!(reply.status, 502);
    assert_eq!(reply.body, "upstream response read failed: cut");
    assert!(is_error_call(400));
    assert!(is_error_call(429));
    assert!(!is_error_call(399));
    assert!(!is_error_call(200));
    assert_eq!(relayed_status(429), 429);
    assert_eq!(relayed_status(99), 502);
    assert_eq!(relayed_status(1000), 502);
}

#[test]
fn usage_is_read_under_its_names() {
    let response = parse(
        r#"{"cost":9,"usage":{"prompt_tokens":"x","input_tokens":7,"completion_tokens":3,
            "output_tokens":99,"prompt_tokens_details":{"cached_tokens":2},
            "completion_tokens_details":{"reasoning_tokens":1},"cost":0.25}}"#,
    );
    assert_eq!(
        read_usage(Some(&response)),
        Usage {
            input_tokens: Some(7),
            output_tokens: Some(3),
            total_tokens: None,
            cached_tokens: Some(2),
            reasoning_tokens: Some(1),
            cost: Some("0.25".to_string()),
        }
    );
    let ollama = parse(r#"{"cost":9,"usage":{"prompt_eval_count":4,"eval_count":5}}"#);
    let usage = read_usage(Some(&ollama));
    assert_eq!((usage.input_tokens, usage.output_tokens), (Some(4), Some(5)));
    assert_eq!(usage.cost.as_deref(), Some("9"));
    assert_eq!(read_usage(None).input_tokens, None);
}

#[test]
fn metrics_come_from_the_usage() {
    let response = parse(
        r#"{"usage":{"prompt_tokens":11,"completion_tokens":5,"total_tokens":16}}"#,
    );
    let metrics = extract_metrics(Some(&response), 2500).expect("fits");
    assert_eq!(metrics.input_tokens, Some(11));
    assert_eq!(metrics.output_tokens, Some(5));
    assert_eq!(metrics.total_tokens, Some(16));
    assert_eq!(metrics.cost_usd, None);
    assert_eq!(metrics.ttft_ms, None);
    assert_eq!(value(&metrics.output_tokens_per_second), Some(2.0));

    let response = parse(r#"{"usage":{"prompt_tokens":11,"completion_tokens":5}}"#);
    let metrics = extract_metrics(Some(&response), 0).expect("fits");
    assert_eq!(metrics.total_tokens, Some(16));
    assert_eq!(metrics.output_tokens_per_second, None);

    let none = extract_metrics(None, 10).expect("fits");
    assert_eq!(none.total_tokens, None);
    assert_eq!(none.output_tokens_per_second, None);
}

#[test]
fn total_that_does_not_fit_is_not_recorded() {
    let text = r#"{"usage":{"prompt_tokens":18446744073709551615,"completion_tokens":1}}"#;
    assert_eq!(extract_metrics(Some(&parse(text)), 1), None);
    assert!(build_record(call(1, None, Some(text)), PRIVATE).is_none());
    let usage = read_usage(Some(&parse(text)));
    assert!(!usage_fits(&usage));
    let told = Usage { total_tokens: Some(3), ..usage };
    assert!(usage_fits(&told));
    assert_eq!(metrics_of(told, 1, Some(4)).total_tokens, Some(3));
}

#[test]
fn record_describes_a_call() {
    let request = r#"{"model":"mock","stream":false,"messages":[{"role":"user","content":"salut"}]}"#;
    let response = r#"{"model":"other","usage":{"total_tokens":16}}"#;
    let record = build_record(call(40, Some(request), Some(response)), PRIVATE).expect("fits");
    assert_eq!(record.record_type, "llm_call");
    assert_eq!(record.schema_version, 1);
    assert_eq!(record.id.len(), 36);
    assert!(record.timestamp.ends_with('Z'));
    assert_eq!(record.endpoint, "/v1/chat/completions");
    assert_eq!(record.run_id.as_deref(), Some("run-1"));
    assert_eq!(record.upstream_base, "http://127.0.0.1:4141/v1");
    assert_eq!(record.model.as_deref(), Some("mock"));
    assert_eq!(record.prompt, None);
    assert_eq!(record.status, 200);
    assert_eq!(record.duration_ms, 40);
    assert_eq!(record.source_precision, "exact");
    assert_eq!(record.request_stream, Some(false));
    assert_eq!(record.request_body, None);
    assert_eq!(record.response_body, None);
    assert_eq!(record.metrics.total_tokens, Some(16));

    let open = build_record(call(40, Some(request), Some(response)), OPEN).expect("fits");
    assert_eq!(open.request_body, Some(parse(request)));
    assert_eq!(open.response_body, Some(parse(response)));
    assert_eq!(open.prompt.as_deref(), Some("salut"));

    let unnamed = build_record(call(40, None, Some(response)), PROMPTS).expect("fits");
    assert_eq!(unnamed.model.as_deref(), Some("other"));
    assert_eq!(unnamed.request_stream, None);
    assert_eq!(unnamed.prompt, None);
}

#[test]
fn prompt_is_what_the_user_said_last() {
    let prompt = |text: &str| capture_prompt(Some(&parse(text)), true);
    let chat = r#"{"messages":[{"role":"user","content":"one"},{"role":"user","content":"two"},
        {"role":"assistant","content":"three"}],"input":"four"}"#;
    assert_eq!(prompt(chat).as_deref(), Some("two"));
    assert_eq!(prompt(r#"{"messages":[],"input":"four","prompt":"five"}"#).as_deref(), Some("four"));
    assert_eq!(prompt(r#"{"prompt":"five"}"#).as_deref(), Some("five"));
    assert_eq!(prompt(r#"{"messages":"x"}"#), None);

    let parts = r#"{"messages":[{"role":"user","content":"one"},{"role":"user","content":[
        {"type":"text","text":"two"},{"type":"image_url","image_url":{}},
        {"type":"text","text":"three"}]}]}"#;
    assert_eq!(prompt(parts).as_deref(), Some("two\nthree"));
    let silent = r#"{"messages":[{"role":"user","content":"one"},{"role":"user","content":[{}]}]}"#;
    assert_eq!(prompt(silent), None);
    let input = r#"{"input":[{"role":"user","content":[{"type":"input_text","text":"four"}]},
        {"role":"developer","content":"five"}],"prompt":"six"}"#;
    assert_eq!(prompt(input).as_deref(), Some("four"));
    assert_eq!(capture_prompt(Some(&parse(chat)), false), None);
    assert_eq!(capture_prompt(None, true), None);
}

#[test]
fn long_prompts_are_cut() {
    let mut object = serde_json::Map::new();
    object.insert("input".to_string(), serde_json::Value::from("é".repeat(2001)));
    let request = serde_json::Value::Object(object);
    assert_eq!(capture_prompt(Some(&request), true), Some("é".repeat(2000)));
    assert!(captures_prompts(true, false));
    assert!(captures_prompts(false, true));
    assert!(!captures_prompts(false, false));
}

#[test]
fn body_is_read_where_it_is_json() {
    assert_eq!(read_body(b"{\"a\":1}"), Some(parse("{\"a\":1}")));
    assert_eq!(read_body(b"not json"), None);
}

#[test]
fn stream_is_metered_from_its_usage() {
    let stream = b"data: {\"model\":\"mock\",\"choices\":[{\"delta\":{\"content\":\"Bon\"}}]}\n\n\
        data: {\"model\":\"mock\",\"choices\":[{\"delta\":{\"content\":\"jour\"}}],\"usage\":null}\r\n\n\
        data: {\"choices\":[],\"usage\":{\"prompt_tokens\":11,\"completion_tokens\":5,\"total_tokens\":16}}\n\n\
        data: [DONE]\n\n";
    let mut whole = StreamMeter::new();
    whole.feed(stream, 30);
    let record = stream_record(call(2500, Some("{\"stream\":true}"), None), OPEN, whole).expect("fits");
    assert_eq!(record.source_precision, "exact");
    assert_eq!(record.request_stream, Some(true));
    assert_eq!(record.model.as_deref(), Some("mock"));
    assert_eq!(record.metrics.total_tokens, Some(16));
    assert_eq!(record.metrics.ttft_ms, Some(30));
    assert_eq!(value(&record.metrics.output_tokens_per_second), Some(2.0));
    assert_eq!(record.response_body, None);

    // It makes no difference which line ends the stream has.
    for end in ["\r", "\r\n"] {
        let text = String::from_utf8(stream.to_vec()).expect("text").replace('\r', "");
        let mut meter = StreamMeter::new();
        meter.feed(text.replace('\n', end).as_bytes(), 30);
        let other = stream_record(call(2500, None, None), OPEN, meter).expect("fits");
        assert_eq!(other.metrics, record.metrics);
        assert_eq!(other.source_precision, record.source_precision);
    }

    // Nor do the cuts between the chunks.
    for size in [1, 2, 7, 64] {
        let mut meter = StreamMeter::new();
        for chunk in stream.chunks(size) {
            meter.feed(chunk, 30);
        }
        let cut = stream_record(call(2500, Some("{\"stream\":true}"), None), OPEN, meter).expect("fits");
        assert_eq!(cut.metrics, record.metrics);
        assert_eq!(cut.model, record.model);
        assert_eq!(cut.source_precision, record.source_precision);
    }
}

#[test]
fn stream_without_usage_is_estimated() {
    let mut meter = StreamMeter::new();
    meter.feed(b"data: {\"choices\":[{\"delta\":{\"role\":\"assistant\",\"content\":\"\"}}]}\n", 5);
    meter.feed(b"data: {\"choices\":[{\"delta\":{\"con", 9);
    meter.feed(b"tent\":\"a\"}}]}\n: comment\nevent: x\n", 12);
    meter.feed(b"data:{\"choices\":[{},{\"delta\":{\"content\":\"b\"}}]}", 20);
    let record = stream_record(call(1000, None, None), PRIVATE, meter).expect("fits");
    assert_eq!(record.source_precision, "estimated");
    assert_eq!(record.metrics.ttft_ms, Some(12));
    assert_eq!(record.metrics.output_tokens, Some(2));
    assert_eq!(record.metrics.input_tokens, None);
    assert_eq!(record.metrics.total_tokens, None);
    assert_eq!(value(&record.metrics.output_tokens_per_second), Some(2.0));

    let empty = stream_record(call(1000, None, None), PRIVATE, StreamMeter::new()).expect("fits");
    assert_eq!(empty.metrics.ttft_ms, None);
    assert_eq!(empty.metrics.output_tokens, Some(0));
}

#[test]
fn stream_of_responses_is_metered() {
    let mut meter = StreamMeter::new();
    meter.feed(b"data: {\"type\":\"response.output_text.delta\",\"delta\":\"x\"}\n\n", 8);
    meter.feed(
        b"data: {\"type\":\"response.completed\",\"response\":{\"usage\":{\"input_tokens\":1,\"output_tokens\":2}}}\n\n",
        9,
    );
    let record = stream_record(call(1000, None, None), PRIVATE, meter).expect("fits");
    assert_eq!(record.source_precision, "exact");
    assert_eq!(record.metrics.ttft_ms, Some(8));
    assert_eq!(record.metrics.total_tokens, Some(3));

    let mut meter = StreamMeter::new();
    meter.feed(
        b"data: {\"usage\":{\"input_tokens\":18446744073709551615,\"output_tokens\":2}}\n",
        9,
    );
    assert!(stream_record(call(1, None, None), PRIVATE, meter).is_none());
}

#[test]
fn stream_is_told_by_request_and_answer() {
    let events = vec![header("content-type", b"text/event-stream; charset=utf-8")];
    let json = vec![header("content-type", b"application/json")];
    assert!(is_event_stream(Some(true), &events));
    assert!(is_event_stream(Some(true), &vec![header("content-type", b"Text/EVENT-Stream")]));
    assert!(!is_event_stream(Some(true), &vec![header("content-type", b"text/event")]));
    assert!(!is_event_stream(Some(false), &events));
    assert!(!is_event_stream(None, &events));
    assert!(!is_event_stream(Some(true), &json));
    assert!(!is_event_stream(Some(true), &vec![]));
}

#[test]
fn answers_from_four_hundred_on_are_error_calls() {
    assert_eq!(count_error_calls(&vec![]), 0);
    assert_eq!(count_error_calls(&vec![200, 302, 399]), 0);
    assert_eq!(count_error_calls(&vec![200, 400, 399, 429, 502, 400]), 4);
}
