//! HTTP: answers, and headers: which of them count, and which are passed on.
use crate::text::{text_of, text_view, trim, trimmed, view_option};
use vstd::prelude::*;

verus! {

/// An answer in words.
#[derive(Debug, Clone, PartialEq, Eq)]
pub struct Reply {
    pub status: u16,
    pub body: String,
}

/// A header, with its name in lower case.
#[derive(Debug, Clone, PartialEq, Eq)]
pub struct Header {
    pub name: String,
    pub value: Vec<u8>,
}

/// What a list of headers holds.
pub open spec fn header_views(list: Seq<Header>) -> Seq<(Seq<char>, Seq<u8>)> {
    list.map_values(|header: Header| (header.name@, header.value@))
}

/// The first value of a header.
pub open spec fn header_value(headers: Seq<Header>, name: Seq<char>) -> Option<Seq<u8>>
    decreases headers.len(),
{
    if headers.len() == 0 {
        None
    } else if headers[0].name@ == name {
        Some(headers[0].value@)
    } else {
        header_value(headers.drop_first(), name)
    }
}

/// The first value of a header.
pub fn find_header<'a>(headers: &'a Vec<Header>, name: &str) -> (r: Option<&'a Vec<u8>>)
    ensures
        match r {
            Some(value) => header_value(headers@, name@) == Some(value@),
            None => header_value(headers@, name@) is None,
        },
{
    let n: usize = headers.len();
    assert(headers@.skip(0) =~= headers@);
    for i in 0..n
        invariant
            n == headers@.len(),
            header_value(headers@, name@) == header_value(headers@.skip(i as int), name@),
    {
        let ghost rest = headers@.skip(i as int);
        assert(rest[0] == headers@[i as int]);
        assert(rest.drop_first() =~= headers@.skip(i + 1));
        if *headers[i].name.as_str() == *name {
            return Some(&headers[i].value);
        }
    }
    None
}

/// Whether a byte may stand in a header that is read as text: visible ASCII, a space or a tab.
pub open spec fn is_visible(b: u8) -> bool {
    32 <= b < 127 || b == 9
}

/// The text of a header value, where it is one.
pub open spec fn header_text(value: Seq<u8>) -> Option<Seq<char>> {
    if forall|i: int| 0 <= i < value.len() ==> is_visible(#[trigger] value[i]) {
        Some(value.map_values(|b: u8| b as char))
    } else {
        None
    }
}

/// The text of a header value, where it is one.
pub fn text_of_value(value: &Vec<u8>) -> (r: Option<String>)
    ensures
        view_option(r) == header_text(value@),
{
    let mut chars: Vec<char> = Vec::new();
    let n: usize = value.len();
    for i in 0..n
        invariant
            n == value@.len(),
            chars@.len() == i,
            forall|j: int| 0 <= j < i ==> is_visible(#[trigger] value@[j]),
            forall|j: int| 0 <= j < i ==> #[trigger] chars@[j] == value@[j] as char,
    {
        let b = value[i];
        if !((32 <= b && b < 127) || b == 9) {
            assert(!is_visible(value@[i as int]));
            return None;
        }
        chars.push(b as char);
    }
    let text = text_of(&chars, 0, n);
    assert(text@ =~= value@.map_values(|b: u8| b as char));
    Some(text)
}

/// A byte with its ASCII letter, if it is one, in lower case.
pub open spec fn lower_byte(b: u8) -> u8 {
    if 65 <= b <= 90 {
        (b + 32) as u8
    } else {
        b
    }
}

/// Bytes with their ASCII letters in lower case.
pub open spec fn lowered(value: Seq<u8>) -> Seq<u8> {
    value.map_values(|b: u8| lower_byte(b))
}

/// Bytes with their ASCII letters in lower case.
pub fn lower_case(value: &Vec<u8>) -> (r: Vec<u8>)
    ensures
        r@ == lowered(value@),
{
    let mut out: Vec<u8> = Vec::new();
    let n: usize = value.len();
    for i in 0..n
        invariant
            n == value@.len(),
            out@.len() == i,
            forall|j: int| 0 <= j < i ==> #[trigger] out@[j] == lower_byte(value@[j]),
    {
        let b = value[i];
        if 65 <= b && b <= 90 {
            out.push(b + 32);
        } else {
            out.push(b);
        }
    }
    assert(out@ =~= lowered(value@));
    out
}

/// The run that a call says it belongs to.
pub open spec fn run_id_of(headers: Seq<Header>) -> Option<Seq<char>> {
    match header_value(headers, "x-agentledger-run-id"@) {
        Some(value) => match header_text(value) {
            Some(text) => if trimmed(text).len() == 0 {
                None
            } else {
                Some(trimmed(text))
            },
            None => None,
        },
        None => None,
    }
}

/// The run that a call says it belongs to.
pub fn extract_run_id(headers: &Vec<Header>) -> (r: Option<String>)
    ensures
        view_option(r) == run_id_of(headers@),
{
    match find_header(headers, "x-agentledger-run-id") {
        Some(value) => match text_of_value(value) {
            Some(text) => {
                let id = trim(text.as_str());
                if id.as_str().is_empty() {
                    None
                } else {
                    Some(id)
                }
            },
            None => None,
        },
        None => None,
    }
}

/// The headers with the given names, in the order of the names.
pub open spec fn selected_headers(headers: Seq<Header>, names: Seq<Seq<char>>) -> Seq<
    (Seq<char>, Seq<u8>),
>
    decreases names.len(),
{
    if names.len() == 0 {
        seq![]
    } else {
        let before = selected_headers(headers, names.drop_last());
        match header_value(headers, names.last()) {
            Some(value) => before.push((names.last(), value)),
            None => before,
        }
    }
}

/// The views of a list of names.
pub open spec fn name_views(names: Seq<&str>) -> Seq<Seq<char>> {
    names.map_values(|name: &str| name@)
}

fn copy_bytes(bytes: &Vec<u8>) -> (r: Vec<u8>)
    ensures
        r@ == bytes@,
{
    let mut out: Vec<u8> = Vec::new();
    for i in 0..bytes.len()
        invariant
            out@ == bytes@.take(i as int),
    {
        out.push(bytes[i]);
        assert(bytes@.take(i + 1) =~= bytes@.take(i as int).push(bytes@[i as int]));
    }
    assert(bytes@.take(bytes@.len() as int) =~= bytes@);
    out
}

fn select_headers(headers: &Vec<Header>, names: &Vec<&str>) -> (r: Vec<Header>)
    ensures
        header_views(r@) == selected_headers(headers@, name_views(names@)),
{
    let ghost wanted = name_views(names@);
    let mut out: Vec<Header> = Vec::new();
    assert(header_views(out@) =~= seq![]);
    assert(wanted.take(0) =~= seq![]);
    let n: usize = names.len();
    for i in 0..n
        invariant
            n == names@.len(),
            wanted == name_views(names@),
            header_views(out@) == selected_headers(headers@, wanted.take(i as int)),
    {
        let ghost next = wanted.take(i + 1);
        assert(next.drop_last() =~= wanted.take(i as int));
        assert(next.last() == names@[i as int]@);
        let ghost before = out@;
        if let Some(value) = find_header(headers, names[i]) {
            out.push(Header { name: names[i].to_owned(), value: copy_bytes(value) });
            assert(header_views(out@) =~= header_views(before).push((next.last(), value@)));
        }
    }
    assert(wanted.take(n as int) =~= wanted);
    out
}

/// The headers of a call that are passed on to the provider.
pub open spec fn forwarded_names() -> Seq<Seq<char>> {
    seq![
        "accept"@,
        "content-type"@,
        "openai-organization"@,
        "openai-project"@,
        "anthropic-beta"@,
        "x-title"@,
        "http-referer"@,
    ]
}

/// The headers of a call to a provider, and the key that it is authorized with.
#[derive(Debug, Clone, PartialEq, Eq)]
pub struct Forward {
    pub headers: Vec<Header>,
    pub bearer: Option<String>,
}

/// The headers with which a call goes to the provider: some of those it came with, and either the
/// key of the proxy or, where it has none, the authorization that the call came with.
pub fn apply_forward_headers(headers: &Vec<Header>, api_key: Option<&str>) -> (r: Forward)
    ensures
        view_option(r.bearer) == text_view(api_key),
        header_views(r.headers@) == (match api_key {
            Some(_) => selected_headers(headers@, forwarded_names()),
            None => selected_headers(headers@, forwarded_names().push("authorization"@)),
        }),
{
    let mut names: Vec<&str> = vec![
        "accept",
        "content-type",
        "openai-organization",
        "openai-project",
        "anthropic-beta",
        "x-title",
        "http-referer",
    ];
    assert(name_views(names@) =~= forwarded_names());
    match api_key {
        Some(key) => Forward {
            headers: select_headers(headers, &names),
            bearer: Some(key.to_owned()),
        },
        None => {
            names.push("authorization");
            assert(name_views(names@) =~= forwarded_names().push("authorization"@));
            Forward { headers: select_headers(headers, &names), bearer: None }
        },
    }
}

/// The headers of an answer of a provider that are passed on to the caller.
pub fn relayed_headers(headers: &Vec<Header>) -> (r: Vec<Header>)
    ensures
        header_views(r@) == selected_headers(
            headers@,
            seq!["content-type"@, "cache-control"@, "content-length"@],
        ),
{
    let names: Vec<&str> = vec!["content-type", "cache-control", "content-length"];
    assert(name_views(names@) =~= seq!["content-type"@, "cache-control"@, "content-length"@]);
    select_headers(headers, &names)
}

proof fn lemma_selected_are_named(headers: Seq<Header>, names: Seq<Seq<char>>)
    ensures
        forall|i: int|
            0 <= i < selected_headers(headers, names).len() ==> {
                let header = #[trigger] selected_headers(headers, names)[i];
                names.contains(header.0) && header_value(headers, header.0) == Some(header.1)
            },
    decreases names.len(),
{
    if names.len() > 0 {
        let some = names.drop_last();
        lemma_selected_are_named(headers, some);
        assert forall|i: int| 0 <= i < selected_headers(headers, names).len() implies {
            let header = #[trigger] selected_headers(headers, names)[i];
            names.contains(header.0) && header_value(headers, header.0) == Some(header.1)
        } by {
            let before = selected_headers(headers, some);
            if i < before.len() {
                assert(selected_headers(headers, names)[i] == before[i]);
                let k = some.index_of(before[i].0);
                assert(names[k] == before[i].0);
            } else {
                assert(names[names.len() - 1] == names.last());
            }
        }
    }
}

/// Nothing is passed on but what is named, and with the value that it came with; with a key of
/// its own the proxy does not pass on the caller's authorization.
pub proof fn only_named_headers_pass(headers: Seq<Header>)
    ensures
        forall|i: int|
            0 <= i < selected_headers(headers, forwarded_names()).len() ==> {
                let header = #[trigger] selected_headers(headers, forwarded_names())[i];
                &&& header.0 != "authorization"@
                &&& forwarded_names().contains(header.0)
                &&& header_value(headers, header.0) == Some(header.1)
            },
{
    reveal_strlit("accept");
    reveal_strlit("content-type");
    reveal_strlit("openai-organization");
    reveal_strlit("openai-project");
    reveal_strlit("anthropic-beta");
    reveal_strlit("x-title");
    reveal_strlit("http-referer");
    reveal_strlit("authorization");
    lemma_selected_are_named(headers, forwarded_names());
    assert forall|name: Seq<char>| forwarded_names().contains(name) implies name.len()
        != "authorization"@.len() by {
        let k = forwarded_names().index_of(name);
        assert(0 <= k < 7);
    }
}

// ---------------------------------------------------------------------------
// What the operations are

/// The value of a header is that of the first header with its name; there is none where no header
/// has it.
pub proof fn first_header_counts(headers: Seq<Header>, name: Seq<char>, i: int)
    requires
        0 <= i <= headers.len(),
        forall|j: int| 0 <= j < i ==> (#[trigger] headers[j]).name@ != name,
        i < headers.len() ==> headers[i].name@ == name,
    ensures
        header_value(headers, name) == (if i < headers.len() {
            Some(headers[i].value@)
        } else {
            None
        }),
    decreases headers.len(),
{
    if i > 0 {
        assert(headers[0].name@ != name);
        let rest = headers.drop_first();
        assert forall|j: int| 0 <= j < i - 1 implies (#[trigger] rest[j]).name@ != name by {
            assert(rest[j] == headers[j + 1]);
        }
        assert(i < headers.len() ==> rest[i - 1] == headers[i]);
        first_header_counts(rest, name, i - 1);
    }
}

/// A header is read as text where it has nothing but visible ASCII, spaces and tabs, character by
/// character, and not at all where it has anything else.
pub proof fn headers_are_read_as_ascii(value: Seq<u8>, i: int)
    ensures
        (forall|j: int|
            0 <= j < value.len() ==> (32 <= #[trigger] value[j] <= 126 || value[j] == 9)) ==> {
            &&& header_text(value) is Some
            &&& header_text(value)->0.len() == value.len()
            &&& 0 <= i < value.len() ==> header_text(value)->0[i] == value[i] as char
        },
        0 <= i < value.len() && !(32 <= value[i] <= 126 || value[i] == 9) ==> header_text(
            value,
        ) is None,
{
    if forall|j: int|
        0 <= j < value.len() ==> (32 <= #[trigger] value[j] <= 126 || value[j] == 9) {
        assert forall|j: int| 0 <= j < value.len() implies is_visible(#[trigger] value[j]) by {}
    }
    if 0 <= i < value.len() && !(32 <= value[i] <= 126 || value[i] == 9) {
        assert(!is_visible(value[i]));
    }
}

/// A call belongs to the run that its header names, without the white space around the name; an
/// empty name, or one that is no text, names none.
pub proof fn run_is_named_by_its_header(headers: Seq<Header>)
    ensures
        header_value(headers, "x-agentledger-run-id"@) is None ==> run_id_of(headers) is None,
        header_value(headers, "x-agentledger-run-id"@) matches Some(value) ==> {
            &&& header_text(value) is None ==> run_id_of(headers) is None
            &&& header_text(value) matches Some(text) ==> {
                &&& trimmed(text).len() > 0 ==> run_id_of(headers) == Some(trimmed(text))
                &&& trimmed(text).len() == 0 ==> run_id_of(headers) is None
            }
        },
{
}

/// Of the headers with some names those are passed on that are there, each with its value, in the
/// order of the names.
pub proof fn headers_pass_by_name(headers: Seq<Header>, names: Seq<Seq<char>>)
    ensures
        selected_headers(headers, names) == names.filter(
            |name: Seq<char>| header_value(headers, name) is Some,
        ).map_values(|name: Seq<char>| (name, header_value(headers, name)->0)),
    decreases names.len(),
{
    reveal(Seq::filter);
    let kept = names.filter(|name: Seq<char>| header_value(headers, name) is Some);
    if names.len() > 0 {
        let some = names.drop_last();
        headers_pass_by_name(headers, some);
        let before = some.filter(|name: Seq<char>| header_value(headers, name) is Some);
        if header_value(headers, names.last()) is Some {
            assert(kept == before.push(names.last()));
            assert(kept.map_values(|name: Seq<char>| (name, header_value(headers, name)->0))
                =~= before.map_values(
                |name: Seq<char>| (name, header_value(headers, name)->0),
            ).push((names.last(), header_value(headers, names.last())->0)));
        }
    } else {
        assert(kept.map_values(|name: Seq<char>| (name, header_value(headers, name)->0))
            =~= seq![]);
    }
}

/// The headers of a call that pass to the provider, by their names.
pub proof fn names_of_headers_that_pass()
    ensures
        forwarded_names() == seq![
            "accept"@,
            "content-type"@,
            "openai-organization"@,
            "openai-project"@,
            "anthropic-beta"@,
            "x-title"@,
            "http-referer"@,
        ],
{
}

/// Bytes are lowered one by one: the capital letters of ASCII become small, and every other byte
/// stays.
pub proof fn capitals_become_small(value: Seq<u8>, i: int)
    requires
        0 <= i < value.len(),
    ensures
        lowered(value).len() == value.len(),
        65 <= value[i] <= 90 ==> lowered(value)[i] == value[i] + 32,
        !(65 <= value[i] <= 90) ==> lowered(value)[i] == value[i],
{
}

/// Headers are seen one by one.
pub proof fn headers_are_seen(list: Seq<Header>, i: int)
    requires
        0 <= i < list.len(),
    ensures
        header_views(list).len() == list.len(),
        header_views(list)[i] == (list[i].name@, list[i].value@),
{
}

} // verus!
