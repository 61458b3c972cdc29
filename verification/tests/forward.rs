use agentledger::forward::{begin, relay, Exchange, Outgoing, ProxySettings};
use agentledger::proxy::Privacy;
use agentledger::stream::StreamMeter;
use agentledger::web::Header;

fn header(name: &str, value: &str) -> Header {
    Header { name: name.to_string(), value: value.as_bytes().to_vec() }
}

fn settings() -> ProxySettings {
    ProxySettings {
        upstream_base: "http://127.0.0.1:4141/v1".to_string(),
        api_key: None,
        privacy: Privacy { record_bodies: true, capture_prompts: true },
        default_run_id: Some("run-1".to_string()),
    }
}

fn start(settings: &ProxySettings, body: &str) -> (Exchange, Outgoing) {
    let headers = vec![
        header("content-type", "application/json"),
        header("authorization", "Bearer caller"),
        header("host", "127.0.0.1"),
    ];
    begin(settings, "/v1/chat/completions", &headers, body.as_bytes())
}

#[test]
fn call_goes_to_the_provider() {
    let (_, outgoing) = start(&settings(), "{}");
    assert_eq!(outgoing.url, "http://127.0.0.1:4141/v1/chat/completions");
    assert_eq!(outgoing.forward.bearer, None);
    assert_eq!(
        outgoing.forward.headers,
        vec![header("content-type", "application/json"), header("authorization", "Bearer caller")]
    );
    let keyed = ProxySettings { api_key: Some("key".to_string()), ..settings() };
    let (_, outgoing) = start(&keyed, "{}");
    assert_eq!(outgoing.forward.bearer.as_deref(), Some("key"));
    assert_eq!(outgoing.forward.headers.len(), 1);
}

#[test]
fn call_is_recorded_with_its_answer() {
    let body = r#"{"model":"mock","messages":[{"role":"user","content":"salut"}]}"#;
    let (exchange, _) = start(&settings(), body);
    assert!(!exchange.is_streamed(&vec![header("content-type", "text/event-stream")]));
    let answer = r#"{"model":"mock","usage":{"prompt_tokens":11,"completion_tokens":5,"total_tokens":16}}"#;
    let record = exchange.answered(200, 50, answer.as_bytes()).expect("fits");
    assert_eq!(record.run_id.as_deref(), Some("run-1"));
    assert_eq!(record.model.as_deref(), Some("mock"));
    assert_eq!(record.prompt.as_deref(), Some("salut"));
    assert_eq!(record.status, 200);
    assert_eq!(record.source_precision, "exact");
    assert_eq!(record.metrics.total_tokens, Some(16));
    assert_eq!(record.metrics.ttft_ms, None);
    assert_eq!(record.request_body.expect("body").to_string(), {
        let value: serde_json::Value = serde_json::from_str(body).expect("json");
        value.to_string()
    });

    let (exchange, _) = start(&settings(), "no json");
    let record = exchange.answered(500, 50, b"broken").expect("fits");
    assert_eq!(record.model, None);
    assert_eq!(record.request_body, None);
    assert_eq!(record.response_body, None);
    assert_eq!(record.status, 500);

    let (exchange, _) = start(&settings(), "{}");
    let huge = r#"{"usage":{"input_tokens":18446744073709551615,"output_tokens":1}}"#;
    assert!(exchange.answered(200, 1, huge.as_bytes()).is_none());
}

#[test]
fn call_is_recorded_with_its_stream() {
    let (exchange, _) = start(&settings(), "{\"stream\":true}");
    assert!(exchange.is_streamed(&vec![header("content-type", "text/event-stream")]));
    assert!(!exchange.is_streamed(&vec![header("content-type", "application/json")]));
    let mut meter = StreamMeter::new();
    meter.feed(b"data: {\"model\":\"m\",\"choices\":[{\"delta\":{\"content\":\"x\"}}]}\n\n", 4);
    let record = exchange.streamed(200, 10, meter).expect("fits");
    assert_eq!(record.request_stream, Some(true));
    assert_eq!(record.source_precision, "estimated");
    assert_eq!(record.model.as_deref(), Some("m"));
    assert_eq!(record.metrics.ttft_ms, Some(4));
    assert_eq!(record.metrics.output_tokens, Some(1));
}

#[test]
fn named_run_goes_before_the_default() {
    let headers = vec![header("x-agentledger-run-id", " run-7 ")];
    let (exchange, _) = begin(&settings(), "/v1/responses", &headers, b"{}");
    let record = exchange.answered(200, 1, b"{}").expect("fits");
    assert_eq!(record.run_id.as_deref(), Some("run-7"));
    assert_eq!(record.endpoint, "/v1/responses");
    assert_eq!(record.upstream_base, "http://127.0.0.1:4141/v1");
}

#[test]
fn answer_is_relayed_with_some_headers() {
    let answer = relay(429, &vec![header("x-request-id", "1"), header("cache-control", "no-store")]);
    assert_eq!(answer.status, 429);
    assert_eq!(answer.headers, vec![header("cache-control", "no-store")]);
    assert_eq!(relay(0, &vec![]).status, 502);
}
