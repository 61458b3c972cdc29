//! The metering of answers that come as a stream of server-sent events.
use crate::clock::{is_utc_time, now_or_epoch};
use crate::web::{find_header, header_text, header_value, lower_case, lowered, text_of_value, Header};
use crate::ident::{is_uuid, new_uuid};
use crate::json::{as_array, field_of, get_in, is_null, json, json_option, parse, parse_result, parsed, text_at, text_in, Json};
use crate::proxy::{are_metrics, describes_call, metrics_of, read_usage, record_of, total_fits, usage_fits, usage_in, Call, LlmCallRecord, Privacy, Usage, UsageView};
use crate::scan::LINE_FEED;
use crate::text::{copy_option, stands_at, starts_with, view_option};
use vstd::prelude::*;
use vstd::slice::slice_subrange;

verus! {

/// Whether an answer is a stream of events: the caller asked for one, and the provider says that
/// it is one, in upper or lower case.
pub open spec fn is_stream(asked: Option<bool>, headers: Seq<Header>) -> bool {
    asked == Some(true) && match header_value(headers, "content-type"@) {
        Some(value) => match header_text(lowered(value)) {
            Some(text) => stands_at(text, 0, "text/event-stream"@),
            None => false,
        },
        None => false,
    }
}

/// Whether an answer is a stream of events.
pub fn is_event_stream(asked: Option<bool>, headers: &Vec<Header>) -> (r: bool)
    ensures
        r == is_stream(asked, headers@),
{
    let wanted = match asked {
        Some(stream) => stream,
        None => false,
    };
    if !wanted {
        return false;
    }
    match find_header(headers, "content-type") {
        Some(value) => match text_of_value(&lower_case(value)) {
            Some(text) => starts_with(text.as_str(), "text/event-stream"),
            None => false,
        },
        None => false,
    }
}

// ---------------------------------------------------------------------------
// Events

/// The byte that may end a line in place of a line feed, or before it.
pub const CARRIAGE_RETURN: u8 = 13;

/// Whether a byte ends a line of a stream. Where two of them end a line, the second ends an empty
/// line.
pub open spec fn ends_line(b: u8) -> bool {
    b == LINE_FEED || b == CARRIAGE_RETURN
}

/// What a line of a stream carries behind `data:`.
pub open spec fn data_in(line: Seq<u8>) -> Option<Seq<u8>> {
    if line.len() >= 5 && line.take(5) == seq![100u8, 97u8, 116u8, 97u8, 58u8] {
        Some(line.skip(5))
    } else {
        None
    }
}

/// Whether a choice of an event adds to the content.
pub open spec fn adds_content(choice: Json) -> bool {
    match text_in(field_of(choice.field("delta"@), "content"@)) {
        Some(text) => text.len() > 0,
        None => false,
    }
}

/// Whether one of some choices adds to the content.
pub open spec fn any_adds(choices: Seq<Json>) -> bool {
    exists|i: int| 0 <= i < choices.len() && adds_content(#[trigger] choices[i])
}

/// Whether an event is a content delta: one of its choices adds to the content, or it is a piece
/// of the output text.
pub open spec fn is_delta(event: Json) -> bool {
    ||| (event.field("choices"@) matches Some(Json::Array(choices)) && any_adds(choices))
    ||| text_in(event.field("type"@)) == Some("response.output_text.delta"@)
}

/// Whether a value says what was used.
pub open spec fn tells_usage(value: Option<Json>) -> bool {
    match field_of(value, "usage"@) {
        Some(usage) => !(usage is Null),
        None => false,
    }
}

/// The part of an event that says what was used, if there is one: the event, or the answer that
/// it holds.
pub open spec fn usage_part(event: Json) -> Option<Json> {
    if tells_usage(Some(event)) {
        Some(event)
    } else if tells_usage(event.field("response"@)) {
        event.field("response"@)
    } else {
        None
    }
}

/// What has been seen of a stream: the line that is not complete yet, when the first content
/// came, how many content deltas there were, what was last said of the usage, and the model that
/// answers.
pub struct MeterView {
    pub pending: Seq<u8>,
    pub ttft_ms: Option<u128>,
    pub deltas: u64,
    pub usage: Option<UsageView>,
    pub model: Option<Seq<char>>,
}

/// The count after one more delta, up to the largest that can be written.
pub open spec fn counted(deltas: u64) -> u64 {
    if deltas < u64::MAX {
        (deltas + 1) as u64
    } else {
        deltas
    }
}

/// What has been seen after an event that came at a time.
pub open spec fn after_event(m: MeterView, event: Json, at: u128) -> MeterView {
    MeterView {
        pending: m.pending,
        ttft_ms: if is_delta(event) && m.ttft_ms is None {
            Some(at)
        } else {
            m.ttft_ms
        },
        deltas: if is_delta(event) {
            counted(m.deltas)
        } else {
            m.deltas
        },
        usage: match usage_part(event) {
            Some(part) => Some(usage_in(Some(part))),
            None => m.usage,
        },
        model: if m.model is Some {
            m.model
        } else {
            text_in(event.field("model"@))
        },
    }
}

/// What has been seen after a complete line that came at a time. Lines without data, and data
/// that is not JSON, change nothing.
pub open spec fn after_line(m: MeterView, line: Seq<u8>, at: u128) -> MeterView {
    match data_in(line) {
        Some(data) => match parsed(data) {
            Some(event) => after_event(m, event, at),
            None => m,
        },
        None => m,
    }
}

/// What has been seen after one more byte.
pub open spec fn after_byte(m: MeterView, b: u8, at: u128) -> MeterView {
    if ends_line(b) {
        after_line(MeterView { pending: seq![], ..m }, m.pending, at)
    } else {
        MeterView { pending: m.pending.push(b), ..m }
    }
}

/// What has been seen after a chunk that came at a time.
pub open spec fn after_chunk(m: MeterView, chunk: Seq<u8>, at: u128) -> MeterView
    decreases chunk.len(),
{
    if chunk.len() == 0 {
        m
    } else {
        after_byte(after_chunk(m, chunk.drop_last(), at), chunk.last(), at)
    }
}

/// Nothing has been seen of a stream yet.
pub open spec fn no_stream() -> MeterView {
    MeterView { pending: seq![], ttft_ms: None, deltas: 0, usage: None, model: None }
}

/// It makes no difference which of the three line ends a stream has.
pub proof fn line_ends_do_not_count(m: MeterView, at: u128)
    ensures
        after_byte(m, CARRIAGE_RETURN, at) == after_byte(m, LINE_FEED, at),
        after_chunk(m, seq![CARRIAGE_RETURN, LINE_FEED], at) == after_byte(m, LINE_FEED, at),
{
    let both = seq![CARRIAGE_RETURN, LINE_FEED];
    let first = after_byte(m, CARRIAGE_RETURN, at);
    assert(both.drop_last() =~= seq![CARRIAGE_RETURN]);
    assert(both.drop_last().drop_last() =~= seq![]);
    reveal_with_fuel(after_chunk, 3);
    assert(first.pending =~= seq![]);
}

/// It makes no difference where a stream is cut into chunks.
pub proof fn cuts_do_not_count(m: MeterView, x: Seq<u8>, y: Seq<u8>, at: u128)
    ensures
        after_chunk(after_chunk(m, x, at), y, at) == after_chunk(m, x + y, at),
    decreases y.len(),
{
    if y.len() == 0 {
        assert(x + y =~= x);
    } else {
        cuts_do_not_count(m, x, y.drop_last(), at);
        assert((x + y).drop_last() =~= x + y.drop_last());
    }
}

/// The time at which the first content comes stands, and what is counted only grows.
pub proof fn first_token_time_stands(m: MeterView, chunk: Seq<u8>, at: u128)
    ensures
        m.ttft_ms is Some ==> after_chunk(m, chunk, at).ttft_ms == m.ttft_ms,
        m.ttft_ms is None ==> after_chunk(m, chunk, at).ttft_ms is None || after_chunk(
            m,
            chunk,
            at,
        ).ttft_ms == Some(at),
        after_chunk(m, chunk, at).deltas >= m.deltas,
        m.usage is Some ==> after_chunk(m, chunk, at).usage is Some,
    decreases chunk.len(),
{
    if chunk.len() > 0 {
        first_token_time_stands(m, chunk.drop_last(), at);
    }
}

// ---------------------------------------------------------------------------
// The meter

/// The meter of a stream.
pub struct StreamMeter {
    pending: Vec<u8>,
    ttft_ms: Option<u128>,
    deltas: u64,
    usage: Option<Usage>,
    model: Option<String>,
}

impl View for StreamMeter {
    type V = MeterView;

    closed spec fn view(&self) -> MeterView {
        MeterView {
            pending: self.pending@,
            ttft_ms: self.ttft_ms,
            deltas: self.deltas,
            usage: match self.usage {
                Some(usage) => Some(usage@),
                None => None,
            },
            model: view_option(self.model),
        }
    }
}

/// Whether a choice of an event adds to the content.
fn choice_adds(choice: &serde_json::Value) -> (r: bool)
    ensures
        r == adds_content(json(*choice)),
{
    match text_at(get_in(Some(choice), "delta"), "content") {
        Some(text) => !text.as_str().is_empty(),
        None => false,
    }
}

/// Whether an event is a content delta.
pub fn is_content_delta(event: &serde_json::Value) -> (r: bool)
    ensures
        r == is_delta(json(*event)),
{
    if let Some(choices) = get_in(Some(event), "choices") {
        if let Some(items) = as_array(choices) {
            let ghost all = items@.map_values(|item: serde_json::Value| json(item));
            let n: usize = items.len();
            for i in 0..n
                invariant
                    n == items@.len(),
                    all == items@.map_values(|item: serde_json::Value| json(item)),
                    json(*choices).items() == Some(all),
                    json(*event).field("choices"@) == Some(json(*choices)),
                    forall|j: int| 0 <= j < i ==> !adds_content(#[trigger] all[j]),
            {
                assert(all[i as int] == json(items@[i as int]));
                if choice_adds(&items[i]) {
                    assert(adds_content(all[i as int]));
                    return true;
                }
            }
        }
    }
    match text_at(Some(event), "type") {
        Some(kind) => *kind.as_str() == *"response.output_text.delta",
        None => false,
    }
}

/// Whether a value says what was used.
fn says_usage(value: Option<&serde_json::Value>) -> (r: bool)
    ensures
        r == tells_usage(json_option(value)),
{
    match get_in(value, "usage") {
        Some(usage) => !is_null(usage),
        None => false,
    }
}

/// What an event says of the usage, if it does.
pub fn event_usage(event: &serde_json::Value) -> (r: Option<Usage>)
    ensures
        match r {
            Some(usage) => usage_part(json(*event)) is Some && usage@ == usage_in(
                usage_part(json(*event)),
            ),
            None => usage_part(json(*event)) is None,
        },
{
    if says_usage(Some(event)) {
        return Some(read_usage(Some(event)));
    }
    let answer = get_in(Some(event), "response");
    if says_usage(answer) {
        return Some(read_usage(answer));
    }
    None
}

/// What a line carries behind `data:`.
fn line_data(line: &[u8]) -> (r: Option<&[u8]>)
    ensures
        match r {
            Some(data) => data_in(line@) == Some(data@),
            None => data_in(line@) is None,
        },
{
    let n: usize = line.len();
    if n >= 5 && line[0] == 100 && line[1] == 97 && line[2] == 116 && line[3] == 97 && line[4]
        == 58 {
        assert(line@.take(5) =~= seq![100u8, 97u8, 116u8, 97u8, 58u8]);
        let data = slice_subrange(line, 5, n);
        assert(data@ =~= line@.skip(5));
        Some(data)
    } else {
        assert(line@.len() >= 5 && line@.take(5) == seq![100u8, 97u8, 116u8, 97u8, 58u8] ==> {
            let start = line@.take(5);
            start[0] == line@[0] && start[1] == line@[1] && start[2] == line@[2] && start[3]
                == line@[3] && start[4] == line@[4]
        });
        None
    }
}

impl StreamMeter {
    /// The meter of a stream that has not begun.
    pub fn new() -> (r: StreamMeter)
        ensures
            r@ == no_stream(),
    {
        let r = StreamMeter {
            pending: Vec::new(),
            ttft_ms: None,
            deltas: 0,
            usage: None,
            model: None,
        };
        assert(r.pending@ =~= seq![]);
        r
    }

    fn see_event(&mut self, event: &serde_json::Value, at: u128)
        ensures
            final(self)@ == after_event(old(self)@, json(*event), at),
    {
        if is_content_delta(event) {
            if self.ttft_ms.is_none() {
                self.ttft_ms = Some(at);
            }
            if self.deltas < u64::MAX {
                self.deltas = self.deltas + 1;
            }
        }
        if let Some(usage) = event_usage(event) {
            self.usage = Some(usage);
        }
        if self.model.is_none() {
            self.model = text_at(Some(event), "model");
        }
    }

    fn see_line(&mut self, line: &[u8], at: u128)
        ensures
            final(self)@ == after_line(old(self)@, line@, at),
    {
        if let Some(data) = line_data(line) {
            if let Ok(event) = parse(data) {
                self.see_event(&event, at);
            }
        }
    }

    /// Meters a chunk of the stream that came after `elapsed_ms`.
    pub fn feed(&mut self, chunk: &[u8], elapsed_ms: u128)
        ensures
            final(self)@ == after_chunk(old(self)@, chunk@, elapsed_ms),
    {
        let n: usize = chunk.len();
        assert(chunk@.take(0) =~= seq![]);
        for i in 0..n
            invariant
                n == chunk@.len(),
                self@ == after_chunk(old(self)@, chunk@.take(i as int), elapsed_ms),
        {
            assert(chunk@.take(i + 1).drop_last() =~= chunk@.take(i as int));
            let b = chunk[i];
            if b == LINE_FEED || b == CARRIAGE_RETURN {
                let mut line: Vec<u8> = Vec::new();
                std::mem::swap(&mut line, &mut self.pending);
                assert(self.pending@ =~= seq![]);
                self.see_line(line.as_slice(), elapsed_ms);
            } else {
                self.pending.push(b);
            }
        }
        assert(chunk@.take(n as int) =~= chunk@);
    }

    /// What the stream said of the usage, or an estimate from the number of content deltas; and
    /// whether it is exact.
    pub fn usage(self) -> (r: (Usage, bool))
        ensures
            r.0@ == measured(self@),
            r.1 == (self@.usage is Some),
    {
        match self.usage {
            Some(usage) => (usage, true),
            None => (
                Usage {
                    input_tokens: None,
                    output_tokens: Some(self.deltas),
                    total_tokens: None,
                    cached_tokens: None,
                    reasoning_tokens: None,
                    cost: None,
                },
                false,
            ),
        }
    }
}

/// What is known of the tokens of a stream: what it said, or an estimate from the number of its
/// content deltas.
pub open spec fn measured(m: MeterView) -> UsageView {
    match m.usage {
        Some(usage) => usage,
        None => UsageView {
            input_tokens: None,
            output_tokens: Some(m.deltas),
            total_tokens: None,
            cached_tokens: None,
            reasoning_tokens: None,
            cost: None,
        },
    }
}

/// The word for how the tokens of a stream are known.
pub open spec fn precision_of(m: MeterView) -> Seq<char> {
    if m.usage is Some {
        "exact"@
    } else {
        "estimated"@
    }
}

/// The record of a call that was answered with a stream, which has ended, with a fresh id and the
/// time now, unless the total of its tokens cannot be written.
pub fn stream_record(call: Call, privacy: Privacy, meter: StreamMeter) -> (r: Option<
    LlmCallRecord,
>)
    ensures
        ({
            let seen = after_line(meter@, meter@.pending, call.duration_ms);
            &&& r is Some <==> total_fits(measured(seen))
            &&& r matches Some(record) ==> {
                &&& describes_call(record, call@, seen.model, privacy)
                &&& are_metrics(
                    record.metrics,
                    measured(seen),
                    call.duration_ms,
                    seen.ttft_ms,
                )
                &&& record.source_precision@ == precision_of(seen)
                &&& is_uuid(record.id@)
                &&& is_utc_time(record.timestamp@)
            }
        }),
{
    let mut meter = meter;
    let mut line: Vec<u8> = Vec::new();
    for i in 0..meter.pending.len()
        invariant
            line@ == meter.pending@.take(i as int),
    {
        line.push(meter.pending[i]);
        assert(meter.pending@.take(i + 1) =~= meter.pending@.take(i as int).push(
            meter.pending@[i as int],
        ));
    }
    assert(line@ =~= meter.pending@);
    meter.see_line(line.as_slice(), call.duration_ms);
    let ttft_ms = meter.ttft_ms;
    let answered = copy_option(&meter.model);
    let (usage, exact) = meter.usage();
    if !usage_fits(&usage) {
        return None;
    }
    let metrics = metrics_of(usage, call.duration_ms, ttft_ms);
    let precision = if exact {
        "exact"
    } else {
        "estimated"
    };
    Some(record_of(call, answered, privacy, metrics, precision, new_uuid(), now_or_epoch()))
}

/// Without a word on the usage the output of a stream is the number of its content deltas, and
/// its total stays unknown.
pub proof fn estimate_counts_deltas(m: MeterView)
    requires
        m.usage is None,
    ensures
        measured(m).output_tokens == Some(m.deltas),
        crate::proxy::total_of(measured(m)) is None,
        total_fits(measured(m)),
        precision_of(m) == "estimated"@,
{
}

// ---------------------------------------------------------------------------
// What the operations are

/// An answer is a stream exactly where one was asked for and the media type of the answer begins
/// with that of event streams, whatever the case of its letters.
pub proof fn stream_is_asked_for_and_told(headers: Seq<Header>, value: Seq<u8>)
    ensures
        !is_stream(None, headers),
        !is_stream(Some(false), headers),
        header_value(headers, "content-type"@) is None ==> !is_stream(Some(true), headers),
        header_value(headers, "content-type"@) == Some(value) ==> (is_stream(Some(true), headers)
            <==> (header_text(lowered(value)) matches Some(text)
            && "text/event-stream"@.is_prefix_of(text))),
{
    if header_value(headers, "content-type"@) == Some(value) {
        if let Some(text) = header_text(lowered(value)) {
            let kind = "text/event-stream"@;
            assert(kind.is_prefix_of(text) <==> kind.len() <= text.len() && kind == text.subrange(
                0,
                kind.len() as int,
            ));
        }
    }
}

/// A line carries data where it begins with the five bytes of `data:`, and the data is all that
/// follows them.
pub proof fn data_follows_its_name(line: Seq<u8>, data: Seq<u8>)
    ensures
        data_in(seq![100u8, 97u8, 116u8, 97u8, 58u8] + data) == Some(data),
        !(seq![100u8, 97u8, 116u8, 97u8, 58u8].is_prefix_of(line)) ==> data_in(line) is None,
{
    let name = seq![100u8, 97u8, 116u8, 97u8, 58u8];
    let full = name + data;
    assert(full.take(5) =~= name);
    assert(full.skip(5) =~= data);
    if line.len() >= 5 && line.take(5) == name {
        assert(name.is_prefix_of(line));
    }
}

/// An event is a content delta where one of its choices has a delta with a content that is not
/// empty, whichever choice it is, or where it is a piece of the output text; no other event is.
pub proof fn content_makes_a_delta(event: Json, choices: Seq<Json>)
    ensures
        event.field("type"@) == Some(Json::Text("response.output_text.delta"@)) ==> is_delta(event),
        event.field("choices"@) == Some(Json::Array(choices)) ==> forall|i: int|
            0 <= i < choices.len() && ((#[trigger] choices[i]).field("delta"@) matches Some(delta)
                && (delta.field("content"@) matches Some(Json::Text(text)) && text.len() > 0))
                ==> is_delta(event),
        event.field("type"@) != Some(Json::Text("response.output_text.delta"@)) && is_delta(event)
            ==> (event.field("choices"@) matches Some(Json::Array(list)) && exists|i: int|
            0 <= i < list.len() && ((#[trigger] list[i]).field("delta"@) matches Some(delta) && (
            delta.field("content"@) matches Some(Json::Text(text)) && text.len() > 0))),
{
    if event.field("choices"@) == Some(Json::Array(choices)) {
        assert forall|i: int|
            0 <= i < choices.len() && ((#[trigger] choices[i]).field("delta"@) matches Some(delta)
                && (delta.field("content"@) matches Some(Json::Text(text)) && text.len() > 0))
            implies is_delta(event) by {
            assert(adds_content(choices[i]));
        }
    }
    if let Some(Json::Array(list)) = event.field("choices"@) {
        if any_adds(list) {
            let i = choose|i: int| 0 <= i < list.len() && adds_content(#[trigger] list[i]);
            let delta = list[i].field("delta"@)->0;
            assert(list[i].field("delta"@) == Some(delta));
            assert(delta.field("content"@) matches Some(Json::Text(text)) && text.len() > 0);
        }
    }
}

/// The usage of an event stands in the event, or else in the answer that it holds; a usage that is
/// null says nothing.
pub proof fn usage_stands_in_event_or_answer(event: Json)
    ensures
        event.field("usage"@) is Some && !(event.field("usage"@)->0 is Null) ==> usage_part(event)
            == Some(event),
        event.field("usage"@) is None || event.field("usage"@)->0 is Null ==> {
            &&& event.field("response"@) is None ==> usage_part(event) is None
            &&& event.field("response"@) matches Some(answer) ==> {
                &&& answer.field("usage"@) is Some && !(answer.field("usage"@)->0 is Null)
                    ==> usage_part(event) == Some(answer)
                &&& answer.field("usage"@) is None || answer.field("usage"@)->0 is Null
                    ==> usage_part(event) is None
            }
        },
{
}

/// What an event changes: a content delta is counted, and its time stands where it is the first;
/// the usage that it says takes the place of what was said before; the model is the first that is
/// named.
pub proof fn events_are_metered(m: MeterView, event: Json, at: u128)
    ensures
        ({
            let after = after_event(m, event, at);
            &&& after.pending == m.pending
            &&& is_delta(event) && m.deltas < u64::MAX ==> after.deltas == m.deltas + 1
            &&& is_delta(event) && m.deltas == u64::MAX ==> after.deltas == m.deltas
            &&& !is_delta(event) ==> after.deltas == m.deltas && after.ttft_ms == m.ttft_ms
            &&& is_delta(event) && m.ttft_ms is None ==> after.ttft_ms == Some(at)
            &&& m.ttft_ms is Some ==> after.ttft_ms == m.ttft_ms
            &&& usage_part(event) is None ==> after.usage == m.usage
            &&& usage_part(event) is Some ==> after.usage == Some(usage_in(usage_part(event)))
            &&& m.model is Some ==> after.model == m.model
            &&& m.model is None ==> after.model == (match event.field("model"@) {
                Some(Json::Text(model)) => Some(model),
                _ => None,
            })
        }),
{
}

/// A line is metered when it ends, with all that stood in it, however the stream was cut before: a
/// line with data that is JSON is an event, and every other line changes nothing.
pub proof fn lines_are_metered_where_they_end(
    m: MeterView,
    line: Seq<u8>,
    data: Seq<u8>,
    end: u8,
    at: u128,
)
    requires
        m.pending.len() == 0,
        end == 10 || end == 13,
        forall|i: int| 0 <= i < line.len() ==> #[trigger] line[i] != 10 && line[i] != 13,
    ensures
        after_chunk(m, line, at) == (MeterView { pending: line, ..m }),
        line == seq![100u8, 97u8, 116u8, 97u8, 58u8] + data ==> (match parse_result(data) {
            Ok(event) => after_chunk(m, line.push(end), at) == after_event(m, event, at),
            Err(_) => after_chunk(m, line.push(end), at) == m,
        }),
        !(seq![100u8, 97u8, 116u8, 97u8, 58u8].is_prefix_of(line)) ==> after_chunk(
            m,
            line.push(end),
            at,
        ) == m,
    decreases line.len(),
{
    assert(m.pending =~= seq![]);
    if line.len() == 0 {
        assert(line =~= seq![]);
        assert(after_chunk(m, line, at) == m);
    } else {
        let fewer = line.drop_last();
        assert forall|i: int| 0 <= i < fewer.len() implies #[trigger] fewer[i] != 10 && fewer[i]
            != 13 by {
            assert(fewer[i] == line[i]);
        }
        lines_are_metered_where_they_end(m, fewer, data, end, at);
        assert(line[line.len() - 1] == line.last());
        assert(fewer.push(line.last()) =~= line);
    }
    assert(line.push(end).drop_last() =~= line);
    assert(MeterView { pending: seq![], ..m } == m);
    data_follows_its_name(line, data);
}

/// What a stream said of its usage stands, and else the output is the number of its content deltas
/// and nothing more is known; the word on the precision tells which it was.
pub proof fn usage_is_said_or_estimated(m: MeterView)
    ensures
        m.usage matches Some(usage) ==> measured(m) == usage && precision_of(m) == "exact"@,
        m.usage is None ==> {
            &&& precision_of(m) == "estimated"@
            &&& measured(m).output_tokens == Some(m.deltas)
            &&& measured(m).input_tokens is None && measured(m).total_tokens is None
            &&& measured(m).cached_tokens is None && measured(m).reasoning_tokens is None
            &&& measured(m).cost is None
        },
{
}

/// Nothing has been seen of a stream that has not begun.
pub proof fn stream_begins_with_nothing()
    ensures
        no_stream().pending.len() == 0,
        no_stream().deltas == 0,
        no_stream().ttft_ms is None && no_stream().usage is None && no_stream().model is None,
{
}

} // verus!
