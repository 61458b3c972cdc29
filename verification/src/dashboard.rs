//! The dashboard: who may see it, what is asked of it, and what is answered.
use crate::index::RunFilters;
use crate::text::{concat3, i64_value, parse_i64, text_view};
use crate::web::{find_header, header_text, header_value, text_of_value, Header, Reply};
use vstd::prelude::*;
use vstd::string::*;

verus! {

/// What is told when the dashboard begins to listen.
pub fn listening_message(address: &str, token: &str) -> (r: String)
    ensures
        r@ == "AgentLedger dashboard: http://"@ + address@ + "/?token="@ + token@,
{
    let mut out = concat3("AgentLedger dashboard: http://", address, "/?token=");
    out.append(token);
    out
}

// ---------------------------------------------------------------------------
// Parameters

/// The value of a parameter of a request; a name stands at most once among them.
pub open spec fn param_value(params: Seq<(String, String)>, name: Seq<char>) -> Option<Seq<char>>
    decreases params.len(),
{
    if params.len() == 0 {
        None
    } else if params[0].0@ == name {
        Some(params[0].1@)
    } else {
        param_value(params.drop_first(), name)
    }
}

/// The value of a parameter of a request.
pub fn find_param<'a>(params: &'a Vec<(String, String)>, name: &str) -> (r: Option<&'a str>)
    ensures
        text_view(r) == param_value(params@, name@),
{
    let n: usize = params.len();
    assert(params@.skip(0) =~= params@);
    for i in 0..n
        invariant
            n == params@.len(),
            param_value(params@, name@) == param_value(params@.skip(i as int), name@),
    {
        let ghost rest = params@.skip(i as int);
        assert(rest[0] == params@[i as int]);
        assert(rest.drop_first() =~= params@.skip(i + 1));
        if *params[i].0.as_str() == *name {
            return Some(params[i].1.as_str());
        }
    }
    None
}

/// The value of a filter of a request; an empty one is none.
pub open spec fn filter_value(params: Seq<(String, String)>, name: Seq<char>) -> Option<Seq<char>> {
    match param_value(params, name) {
        Some(value) => if value.len() == 0 {
            None
        } else {
            Some(value)
        },
        None => None,
    }
}

/// The value of a filter of a request; an empty one is none.
pub fn filter_param<'a>(params: &'a Vec<(String, String)>, name: &str) -> (r: Option<&'a str>)
    ensures
        text_view(r) == filter_value(params@, name@),
{
    match find_param(params, name) {
        Some(value) => if value.is_empty() {
            None
        } else {
            Some(value)
        },
        None => None,
    }
}

/// The number of runs that are listed where a request does not say how many.
pub const DEFAULT_LIMIT: i64 = 500;

/// How many runs a request asks for.
pub open spec fn limit_in(params: Seq<(String, String)>) -> i64 {
    match filter_value(params, "limit"@) {
        Some(text) => match i64_value(text) {
            Some(limit) => limit,
            None => DEFAULT_LIMIT,
        },
        None => DEFAULT_LIMIT,
    }
}

/// The runs that a request asks for.
pub fn run_filters<'a>(params: &'a Vec<(String, String)>) -> (r: RunFilters<'a>)
    ensures
        text_view(r.task) == filter_value(params@, "task"@),
        text_view(r.agent) == filter_value(params@, "agent"@),
        text_view(r.status) == filter_value(params@, "status"@),
        text_view(r.since) == filter_value(params@, "since"@),
        r.limit == limit_in(params@),
{
    let limit = match filter_param(params, "limit") {
        Some(text) => match parse_i64(text) {
            Some(limit) => limit,
            None => DEFAULT_LIMIT,
        },
        None => DEFAULT_LIMIT,
    };
    RunFilters {
        task: filter_param(params, "task"),
        agent: filter_param(params, "agent"),
        status: filter_param(params, "status"),
        since: filter_param(params, "since"),
        limit,
    }
}

/// The output stream that a request asks for.
pub fn output_stream(params: &Vec<(String, String)>) -> (r: &str)
    ensures
        r@ == (match param_value(params@, "stream"@) {
            Some(stream) => stream,
            None => "stdout"@,
        }),
{
    match find_param(params, "stream") {
        Some(stream) => stream,
        None => "stdout",
    }
}

// ---------------------------------------------------------------------------
// Access

/// Whether a request shows the token: as a parameter, or as a bearer.
pub open spec fn shows_token(
    token: Seq<char>,
    headers: Seq<Header>,
    params: Seq<(String, String)>,
) -> bool {
    ||| param_value(params, "token"@) == Some(token)
    ||| match header_value(headers, "authorization"@) {
        Some(value) => header_text(value) == Some("Bearer "@ + token),
        None => false,
    }
}

/// Whether a request may see the dashboard.
pub fn authorized(token: &str, headers: &Vec<Header>, params: &Vec<(String, String)>) -> (r: bool)
    ensures
        r == shows_token(token@, headers@, params@),
{
    if let Some(given) = find_param(params, "token") {
        if *given == *token {
            return true;
        }
    }
    match find_header(headers, "authorization") {
        Some(value) => match text_of_value(value) {
            Some(text) => {
                let mut wanted = "Bearer ".to_owned();
                wanted.append(token);
                *text.as_str() == *wanted.as_str()
            },
            None => false,
        },
        None => false,
    }
}

/// Whether a request shows nothing that could be a token.
pub open spec fn shows_nothing(headers: Seq<Header>, params: Seq<(String, String)>) -> bool {
    param_value(params, "token"@) is None && header_value(headers, "authorization"@) is None
}

/// The answer to a request that may not see the dashboard.
pub fn unauthorized(headers: &Vec<Header>, params: &Vec<(String, String)>) -> (r: Reply)
    ensures
        r.status == 401,
        r.body@ == (if shows_nothing(headers@, params@) {
            "missing token"@
        } else {
            "missing or invalid token"@
        }),
{
    let nothing = find_param(params, "token").is_none() && find_header(
        headers,
        "authorization",
    ).is_none();
    let body = if nothing {
        "missing token"
    } else {
        "missing or invalid token"
    };
    Reply { status: 401, body: body.to_owned() }
}

/// Lets a request pass, or answers it.
pub fn guard(token: &str, headers: &Vec<Header>, params: &Vec<(String, String)>) -> (r: Result<
    (),
    Reply,
>)
    ensures
        match r {
            Ok(_) => shows_token(token@, headers@, params@),
            Err(reply) => {
                &&& !shows_token(token@, headers@, params@)
                &&& reply.status == 401
                &&& reply.body@ == (if shows_nothing(headers@, params@) {
                    "missing token"@
                } else {
                    "missing or invalid token"@
                })
            },
        },
{
    if authorized(token, headers, params) {
        Ok(())
    } else {
        Err(unauthorized(headers, params))
    }
}

/// A request that shows nothing, or another token in both places, is refused.
pub proof fn other_tokens_are_refused(
    token: Seq<char>,
    headers: Seq<Header>,
    params: Seq<(String, String)>,
)
    requires
        param_value(params, "token"@) matches Some(given) ==> given != token,
        header_value(headers, "authorization"@) matches Some(value) ==> (header_text(
            value,
        ) matches Some(text) ==> text != "Bearer "@ + token),
    ensures
        !shows_token(token, headers, params),
{
}

// ---------------------------------------------------------------------------
// Answers

/// The answer where the index fails.
pub fn storage_error(err: String) -> (r: Reply)
    ensures
        r.status == 500,
        r.body == err,
{
    Reply { status: 500, body: err }
}

/// What the index gave, or the answer where it failed.
pub fn from_index<T>(result: Result<T, String>) -> (r: Result<T, Reply>)
    ensures
        match result {
            Ok(value) => r == Ok::<T, Reply>(value),
            Err(err) => r matches Err(reply) && reply.status == 500 && reply.body == err,
        },
{
    match result {
        Ok(value) => Ok(value),
        Err(err) => Err(storage_error(err)),
    }
}

/// The details of a run, or the answer where there are none.
pub fn found_run<T>(result: Result<Option<T>, String>) -> (r: Result<T, Reply>)
    ensures
        match result {
            Ok(Some(detail)) => r == Ok::<T, Reply>(detail),
            Ok(None) => r matches Err(reply) && reply.status == 404 && reply.body@
                == "run not found"@,
            Err(err) => r matches Err(reply) && reply.status == 500 && reply.body == err,
        },
{
    match result {
        Ok(Some(detail)) => Ok(detail),
        Ok(None) => Err(Reply { status: 404, body: "run not found".to_owned() }),
        Err(err) => Err(storage_error(err)),
    }
}

/// The file that holds the output of a run, or the answer where there is none.
pub fn output_file(path: Result<Option<String>, String>) -> (r: Result<String, Reply>)
    ensures
        match path {
            Ok(Some(file)) => if file@.len() > 0 {
                r == Ok::<String, Reply>(file)
            } else {
                r matches Err(reply) && reply.status == 404 && reply.body@
                    == "run or output not found"@
            },
            Ok(None) => r matches Err(reply) && reply.status == 404 && reply.body@
                == "run or output not found"@,
            Err(err) => r matches Err(reply) && reply.status == 500 && reply.body == err,
        },
{
    match path {
        Ok(Some(file)) => if file.as_str().is_empty() {
            Err(Reply { status: 404, body: "run or output not found".to_owned() })
        } else {
            Ok(file)
        },
        Ok(None) => Err(Reply { status: 404, body: "run or output not found".to_owned() }),
        Err(err) => Err(storage_error(err)),
    }
}

/// The content of the output of a run, or the answer where its file cannot be read.
pub fn output_content(content: Result<String, String>) -> (r: Result<String, Reply>)
    ensures
        match content {
            Ok(text) => r == Ok::<String, Reply>(text),
            Err(detail) => r matches Err(reply) && reply.status == 404 && reply.body@
                == "output file unavailable: "@ + detail@,
        },
{
    match content {
        Ok(text) => Ok(text),
        Err(detail) => {
            let mut body = "output file unavailable: ".to_owned();
            body.append(detail.as_str());
            Err(Reply { status: 404, body })
        },
    }
}

// ---------------------------------------------------------------------------
// What the operations are

/// The value of a parameter is that of the first one with its name; there is none where none has
/// it. As a filter an empty value counts as none.
pub proof fn first_parameter_counts(params: Seq<(String, String)>, name: Seq<char>, i: int)
    requires
        0 <= i <= params.len(),
        forall|j: int| 0 <= j < i ==> (#[trigger] params[j]).0@ != name,
        i < params.len() ==> params[i].0@ == name,
    ensures
        param_value(params, name) == (if i < params.len() {
            Some(params[i].1@)
        } else {
            None
        }),
        filter_value(params, name) == (if i < params.len() && params[i].1@.len() > 0 {
            Some(params[i].1@)
        } else {
            None
        }),
    decreases params.len(),
{
    if i > 0 {
        assert(params[0].0@ != name);
        let rest = params.drop_first();
        assert forall|j: int| 0 <= j < i - 1 implies (#[trigger] rest[j]).0@ != name by {
            assert(rest[j] == params[j + 1]);
        }
        assert(i < params.len() ==> rest[i - 1] == params[i]);
        first_parameter_counts(rest, name, i - 1);
    }
}

/// As many runs are listed as the request says, in any number that can be read, and else five
/// hundred.
pub proof fn limit_is_said_or_five_hundred(params: Seq<(String, String)>, limit: i64)
    ensures
        filter_value(params, "limit"@) is None ==> limit_in(params) == 500,
        filter_value(params, "limit"@) matches Some(text) ==> {
            &&& i64_value(text) is None ==> limit_in(params) == 500
            &&& i64_value(text) == Some(limit) ==> limit_in(params) == limit
        },
        filter_value(params, "limit"@) == Some(crate::text::decimal_int(limit as int)) ==> limit_in(
            params,
        ) == limit,
{
    crate::text::integers_read_back(limit as int, 0, seq![], 0);
}

/// A request may see the dashboard exactly where it shows the token, all of it and nothing more, as
/// its parameter or as a bearer.
pub proof fn only_the_token_opens(
    token: Seq<char>,
    headers: Seq<Header>,
    params: Seq<(String, String)>,
)
    ensures
        param_value(params, "token"@) == Some(token) ==> shows_token(token, headers, params),
        header_value(headers, "authorization"@) matches Some(value) ==> (header_text(value) == Some(
            "Bearer "@ + token,
        ) ==> shows_token(token, headers, params)),
        shows_token(token, headers, params) ==> param_value(params, "token"@) == Some(token) || (
        header_value(headers, "authorization"@) matches Some(value) && header_text(value) == Some(
            "Bearer "@ + token,
        )),
        shows_nothing(headers, params) <==> param_value(params, "token"@) is None && header_value(
            headers,
            "authorization"@,
        ) is None,
{
}

/// No request opens two dashboards with different tokens by one and the same parameter or header.
pub proof fn tokens_are_not_interchangeable(
    a: Seq<char>,
    b: Seq<char>,
    headers: Seq<Header>,
    params: Seq<(String, String)>,
)
    requires
        a != b,
        shows_token(a, headers, params),
        param_value(params, "token"@) is None || header_value(headers, "authorization"@) is None,
    ensures
        !shows_token(b, headers, params),
{
    let prefix = "Bearer "@;
    if prefix + a == prefix + b {
        assert((prefix + a).skip(prefix.len() as int) =~= a);
        assert((prefix + b).skip(prefix.len() as int) =~= b);
    }
}

} // verus!
