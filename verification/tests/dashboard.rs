use agentledger::dashboard::{
    authorized, filter_param, find_param, found_run, from_index, guard, listening_message,
    output_content, output_file, output_stream, run_filters,
};
use agentledger::index::RunFilters;
use agentledger::web::{Header, Reply};

fn params(list: &[(&str, &str)]) -> Vec<(String, String)> {
    list.iter().map(|(name, value)| (name.to_string(), value.to_string())).collect()
}

fn bearer(value: &str) -> Vec<Header> {
    vec![Header { name: "authorization".to_string(), value: value.as_bytes().to_vec() }]
}

fn reply(status: u16, body: &str) -> Reply {
    Reply { status, body: body.to_string() }
}

#[test]
fn dashboard_asks_for_its_token() {
    let token = "test-token";
    assert_eq!(guard(token, &vec![], &params(&[("token", token)])), Ok(()));
    assert_eq!(guard(token, &bearer("Bearer test-token"), &vec![]), Ok(()));
    assert_eq!(
        guard(token, &bearer("Bearer test-token"), &params(&[("token", "other")])),
        Ok(())
    );
    assert_eq!(guard(token, &vec![], &vec![]), Err(reply(401, "missing token")));
    assert_eq!(
        guard(token, &vec![], &params(&[("token", "other")])),
        Err(reply(401, "missing or invalid token"))
    );
    assert_eq!(
        guard(token, &bearer("test-token"), &vec![]),
        Err(reply(401, "missing or invalid token"))
    );
    assert!(!authorized(token, &bearer("bearer test-token"), &vec![]));
    assert_eq!(
        listening_message("127.0.0.1:9", token),
        "AgentLedger dashboard: http://127.0.0.1:9/?token=test-token"
    );
}

#[test]
fn empty_filters_are_none() {
    let given = params(&[("task", "smoke"), ("agent", "")]);
    assert_eq!(filter_param(&given, "task"), Some("smoke"));
    assert_eq!(filter_param(&given, "agent"), None);
    assert_eq!(filter_param(&given, "status"), None);
    assert_eq!(find_param(&given, "agent"), Some(""));
}

#[test]
fn runs_are_filtered_as_asked() {
    let given = params(&[("task", "smoke"), ("since", "2026"), ("limit", "-3")]);
    assert_eq!(
        run_filters(&given),
        RunFilters {
            task: Some("smoke"),
            agent: None,
            status: None,
            since: Some("2026"),
            limit: -3,
        }
    );
    let limit = |text: &str| run_filters(&params(&[("limit", text)])).limit;
    assert_eq!(run_filters(&vec![]).limit, 500);
    assert_eq!(limit(""), 500);
    assert_eq!(limit("many"), 500);
    assert_eq!(limit("+7"), 7);
    assert_eq!(limit("9223372036854775807"), 9223372036854775807);
    assert_eq!(limit("9223372036854775808"), 500);
    assert_eq!(limit("-9223372036854775808"), -9223372036854775808);
    assert_eq!(limit("-"), 500);
    assert_eq!(limit(" 7"), 500);
}

#[test]
fn missing_runs_and_failures_are_answered() {
    assert_eq!(from_index(Ok(3)), Ok(3));
    assert_eq!(from_index::<u8>(Err("locked".to_string())), Err(reply(500, "locked")));
    assert_eq!(found_run(Ok(Some(3))), Ok(3));
    assert_eq!(found_run::<u8>(Ok(None)), Err(reply(404, "run not found")));
    assert_eq!(found_run::<u8>(Err("locked".to_string())), Err(reply(500, "locked")));
}

#[test]
fn output_of_a_run_is_found_or_not() {
    assert_eq!(output_stream(&params(&[("stream", "stderr")])), "stderr");
    assert_eq!(output_stream(&vec![]), "stdout");
    assert_eq!(output_file(Ok(Some("/f".to_string()))), Ok("/f".to_string()));
    assert_eq!(
        output_file(Ok(Some(String::new()))),
        Err(reply(404, "run or output not found"))
    );
    assert_eq!(output_file(Ok(None)), Err(reply(404, "run or output not found")));
    assert_eq!(output_file(Err("x".to_string())), Err(reply(500, "x")));
    assert_eq!(output_content(Ok("text".to_string())), Ok("text".to_string()));
    assert_eq!(
        output_content(Err("gone".to_string())),
        Err(reply(404, "output file unavailable: gone"))
    );
}
