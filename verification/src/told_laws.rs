//! What a streamed answer tells of what has arrived, read off the chunks themselves.

use crate::calls::{calls_in_order, in_order, CallSpec};
use crate::event_laws::{
    end_events, is_completed_message, law_calls_in_order, law_completed_event, law_finish_status,
    lemma_end_events,
};
use crate::events::{completed_event, Event};
use crate::json::JsonSpec;
use crate::json_laws::only_keys;
use crate::response_laws::{counts, is_call, text_at};
use crate::session_laws::lemma_session_push;
use crate::stream::{
    announces, arrival_script, arrival_script_fn, blank, choice_script, choice_script_fn,
    chunk_script, ended, found_call, open_message_end, or_empty, part_missing, plays, sent_piece,
    session_script, step, text_open, tool_call_step, updated_call, well_named, with_part,
    ArrivalSpec, ChoiceSpec, ChunkSpec, Step, StreamSpec, ToolDeltaSpec,
};
use crate::stream_laws::{announcement_events, lemma_trace_step, part_events, reached, sent, trace};
use vstd::prelude::*;

verus! {

/// What has been told of a tool call, and whether it has been passed on.
#[verifier::ext_equal]
pub struct ToldCall {
    pub id: Seq<char>,
    pub name: Seq<char>,
    pub arguments: Seq<char>,
    pub begun: bool,
}

/// What has to be passed on, in order.
#[verifier::ext_equal]
pub enum Notice {
    /// The answer begins.
    Created { id: Seq<char>, model: Seq<char> },
    /// The message begins.
    Message,
    /// The text of the message begins.
    Part,
    /// A piece of text.
    Text { piece: Seq<char> },
    /// The tool call under an index begins.
    Call { index: usize, id: Seq<char>, name: Seq<char> },
    /// A piece of the arguments of the tool call under an index.
    Arguments { index: usize, piece: Seq<char> },
    /// The text of the message ends, with all the text until then.
    PartEnded { text: Seq<char> },
    /// The message ends, with all the text until then and with a status.
    Ended { text: Seq<char>, status: Seq<char> },
    /// The arguments of the tool call under an index end, with all of them.
    ArgumentsEnded { index: usize, arguments: Seq<char> },
    /// The tool call under an index ends.
    CallEnded { index: usize, call: ToldCall },
}

/// What has been told of an answer until it was over.
#[verifier::ext_equal]
pub struct Told {
    pub over: Option<JsonSpec>,
    pub begun: bool,
    pub message: bool,
    pub ended: bool,
    pub id: Seq<char>,
    pub model: Seq<char>,
    pub text: Seq<char>,
    pub reason: Option<Seq<char>>,
    pub calls: Map<usize, ToldCall>,
    pub notices: Seq<Notice>,
}

/// Nothing has been told.
pub open spec fn nothing_told() -> Told {
    Told {
        over: None,
        begun: false,
        message: false,
        ended: false,
        id: Seq::empty(),
        model: Seq::empty(),
        text: Seq::empty(),
        reason: None,
        calls: Map::empty(),
        notices: Seq::empty(),
    }
}

/// The later of two strings, where it has any character.
pub open spec fn later(before: Seq<char>, given: Seq<char>) -> Seq<char> {
    if given.len() > 0 {
        given
    } else {
        before
    }
}

/// The string that is given, or what was known before.
pub open spec fn given_or(given: Option<Seq<char>>, before: Seq<char>) -> Seq<char> {
    match given {
        Some(s) => s,
        None => before,
    }
}

/// After the identifiers of a chunk: the last that is not empty counts, and the first chunk begins
/// the answer.
pub open spec fn after_begin(t: Told, id: Seq<char>, model: Seq<char>) -> Told {
    let id = later(t.id, id);
    let model = later(t.model, model);
    Told {
        begun: true,
        id,
        model,
        notices: if t.begun {
            t.notices
        } else {
            t.notices.push(Notice::Created { id, model })
        },
        ..t
    }
}

/// What was told of the tool call under an index.
pub open spec fn call_told(t: Told, index: usize) -> ToldCall {
    if t.calls.contains_key(index) {
        t.calls[index]
    } else {
        ToldCall {
            id: Seq::empty(),
            name: Seq::empty(),
            arguments: Seq::empty(),
            begun: false,
        }
    }
}

/// The notice of a piece of arguments, where it is not empty.
pub open spec fn arguments_notice(index: usize, piece: Seq<char>) -> Seq<Notice> {
    if piece.len() > 0 {
        seq![Notice::Arguments { index, piece }]
    } else {
        Seq::empty()
    }
}

/// The status that what has been told stands for: incomplete where the last finish reason is the
/// length, else completed.
pub open spec fn told_status(t: Told) -> Seq<char> {
    if t.reason == Some("length"@) {
        "incomplete"@
    } else {
        "completed"@
    }
}

/// After the message has ended, where it is to end and has not.
pub open spec fn after_message(t: Told, ends: bool) -> Told {
    if ends && !t.ended {
        Told {
            ended: true,
            notices: t.notices.push(Notice::PartEnded { text: t.text }).push(
                Notice::Ended { text: t.text, status: told_status(t) },
            ),
            ..t
        }
    } else {
        t
    }
}

/// The notices that the tool calls under given indices end, where they have begun.
pub open spec fn call_end_notices(calls: Map<usize, ToldCall>, keys: Seq<usize>) -> Seq<Notice>
    decreases keys.len(),
{
    if keys.len() == 0 {
        Seq::empty()
    } else {
        let before = call_end_notices(calls, keys.drop_last());
        let index = keys.last();
        let call = calls[index];
        if call.begun {
            before.push(Notice::ArgumentsEnded { index, arguments: call.arguments }).push(
                Notice::CallEnded { index, call },
            )
        } else {
            before
        }
    }
}

/// After the answer is over: a message that has begun ends, with an empty text where it has none,
/// and then each tool call that has begun, by increasing index.
pub open spec fn after_end(t: Told, usage: JsonSpec) -> Told {
    let begun = if t.message && !t.ended && t.text.len() == 0 {
        Told { notices: t.notices.push(Notice::Part), ..t }
    } else {
        t
    };
    let u = after_message(begun, t.message);
    Told {
        over: Some(usage),
        notices: u.notices + call_end_notices(t.calls, in_order(t.calls.dom())),
        ..u
    }
}

/// After a word on a tool call: an identifier or a name that is given counts from then on, and
/// arguments are added to those before. The call begins as soon as it has an identifier and a name,
/// with all the arguments until then; after that each piece is passed on. Text that has been told
/// ends with its message before the call begins.
pub open spec fn after_delta(t: Told, d: ToolDeltaSpec) -> Told {
    let before = call_told(t, d.index);
    let piece = given_or(d.arguments, Seq::empty());
    let id = given_or(d.id, before.id);
    let name = given_or(d.name, before.name);
    let arguments = before.arguments + piece;
    let begins = !before.begun && id.len() > 0 && name.len() > 0;
    let call = ToldCall { id, name, arguments, begun: before.begun || begins };
    let u = after_message(t, begins && t.text.len() > 0);
    Told {
        calls: t.calls.insert(d.index, call),
        notices: if begins {
            u.notices.push(Notice::Call { index: d.index, id, name }) + arguments_notice(
                d.index,
                arguments,
            )
        } else if before.begun {
            t.notices + arguments_notice(d.index, piece)
        } else {
            t.notices
        },
        ..u
    }
}

/// After several words on tool calls.
pub open spec fn after_deltas(t: Told, deltas: Seq<ToolDeltaSpec>) -> Told
    decreases deltas.len(),
{
    if deltas.len() == 0 {
        t
    } else {
        after_delta(after_deltas(t, deltas.drop_last()), deltas.last())
    }
}

/// After a text: it is added to that before and passed on, and begins the message; an empty text is
/// none.
pub open spec fn after_text(t: Told, text: Seq<char>) -> Told {
    if text.len() == 0 {
        t
    } else {
        Told {
            message: true,
            text: t.text + text,
            notices: t.notices + (if t.message {
                Seq::empty()
            } else {
                seq![Notice::Message]
            }) + (if t.text.len() > 0 {
                Seq::empty()
            } else {
                seq![Notice::Part]
            }) + seq![Notice::Text { piece: text }],
            ..t
        }
    }
}

/// After a role: that of the assistant begins the message, where there is no tool call yet.
pub open spec fn after_role(t: Told, role: Seq<char>) -> Told {
    let no_call = forall|k: usize| !#[trigger] t.calls.contains_key(k);
    if role == "assistant"@ && !t.message && no_call {
        Told { message: true, notices: t.notices.push(Notice::Message), ..t }
    } else {
        t
    }
}

/// After a choice: its tool calls, its content, its role, its finish reason.
pub open spec fn after_choice(t: Told, c: ChoiceSpec) -> Told {
    let t = after_deltas(t, c.tool_calls);
    let t = match c.content {
        Some(text) => after_text(t, text),
        None => t,
    };
    let t = match c.role {
        Some(role) => after_role(t, role),
        None => t,
    };
    match c.finish_reason {
        Some(reason) => Told { reason: Some(reason), ..t },
        None => t,
    }
}

/// After several choices.
pub open spec fn after_choices(t: Told, choices: Seq<ChoiceSpec>) -> Told
    decreases choices.len(),
{
    if choices.len() == 0 {
        t
    } else {
        after_choice(after_choices(t, choices.drop_last()), choices.last())
    }
}

/// After a chunk: its identifiers, its choices, and the end of the answer where it tells the usage.
pub open spec fn after_chunk(t: Told, chunk: ChunkSpec) -> Told {
    let t = after_choices(after_begin(t, chunk.id, chunk.model), chunk.choices);
    match chunk.usage {
        Some(usage) => after_end(t, usage),
        None => t,
    }
}

/// After something has arrived. Nothing counts once the answer is over.
pub open spec fn after_arrival(t: Told, arrival: ArrivalSpec) -> Told {
    if t.over is Some {
        t
    } else {
        match arrival {
            ArrivalSpec::Chunk(chunk) => after_chunk(t, chunk),
            ArrivalSpec::Unreadable => t,
            ArrivalSpec::Done => after_end(t, JsonSpec::Object(Map::empty())),
        }
    }
}

/// What all that arrives has told.
pub open spec fn told(arrivals: Seq<ArrivalSpec>) -> Told
    decreases arrivals.len(),
{
    if arrivals.len() == 0 {
        nothing_told()
    } else {
        after_arrival(told(arrivals.drop_last()), arrivals.last())
    }
}

/// After a step.
spec fn hear(t: Told, st: Step) -> Told {
    if t.over is Some {
        t
    } else {
        match st {
            Step::Begin { id, model, .. } => after_begin(t, id, model),
            Step::ToolCall { delta, .. } => after_delta(t, delta),
            Step::Text { text } => after_text(t, text),
            Step::Role { role } => after_role(t, role),
            Step::Finish { reason } => Told { reason: Some(reason), ..t },
            Step::Complete { usage, .. } => after_end(t, usage),
        }
    }
}

/// After several steps.
spec fn heard(t: Told, steps: Seq<Step>) -> Told
    decreases steps.len(),
{
    if steps.len() == 0 {
        t
    } else {
        hear(heard(t, steps.drop_last()), steps.last())
    }
}

/// Steps after steps.
proof fn lemma_heard_add(t: Told, a: Seq<Step>, b: Seq<Step>)
    ensures
        heard(t, a + b) == heard(heard(t, a), b),
    decreases b.len(),
{
    if b.len() == 0 {
        assert(a + b =~= a);
    } else {
        lemma_heard_add(t, a, b.drop_last());
        assert((a + b).drop_last() =~= a + b.drop_last());
        assert((a + b).last() == b.last());
    }
}

/// A single step.
proof fn lemma_heard_one(t: Told, st: Step)
    ensures
        heard(t, seq![st]) == hear(t, st),
{
    reveal_with_fuel(heard, 2);
    assert(seq![st].drop_last() =~= Seq::empty());
}

/// Once the answer is over, steps tell nothing.
proof fn lemma_heard_over(t: Told, steps: Seq<Step>)
    requires
        t.over is Some,
    ensures
        heard(t, steps) == t,
    decreases steps.len(),
{
    if steps.len() > 0 {
        lemma_heard_over(t, steps.drop_last());
    }
}

/// The steps of words on tool calls tell what the words tell.
proof fn lemma_deltas(t: Told, deltas: Seq<ToolDeltaSpec>)
    requires
        t.over is None,
    ensures
        heard(t, deltas.map_values(tool_call_step())) == after_deltas(t, deltas),
        after_deltas(t, deltas).over is None,
    decreases deltas.len(),
{
    let steps = deltas.map_values(tool_call_step());
    if deltas.len() > 0 {
        lemma_deltas(t, deltas.drop_last());
        assert(steps.drop_last() =~= deltas.drop_last().map_values(tool_call_step()));
    }
}

/// The steps of a choice tell what the choice tells.
proof fn lemma_choice(t: Told, c: ChoiceSpec)
    requires
        t.over is None,
    ensures
        heard(t, choice_script(c)) == after_choice(t, c),
        after_choice(t, c).over is None,
{
    let calls = c.tool_calls.map_values(tool_call_step());
    let text = match c.content {
        Some(text) => seq![Step::Text { text }],
        None => Seq::empty(),
    };
    let role = match c.role {
        Some(role) => seq![Step::Role { role }],
        None => Seq::empty(),
    };
    let finish = match c.finish_reason {
        Some(reason) => seq![Step::Finish { reason }],
        None => Seq::empty(),
    };
    assert(choice_script(c) =~= calls + text + role + finish);
    lemma_deltas(t, c.tool_calls);
    let t1 = after_deltas(t, c.tool_calls);
    lemma_heard_add(t, calls, text);
    let t2 = match c.content {
        Some(text) => after_text(t1, text),
        None => t1,
    };
    if let Some(text) = c.content {
        lemma_heard_one(t1, Step::Text { text });
    }
    lemma_heard_add(t, calls + text, role);
    let t3 = match c.role {
        Some(role) => after_role(t2, role),
        None => t2,
    };
    if let Some(role) = c.role {
        lemma_heard_one(t2, Step::Role { role });
    }
    lemma_heard_add(t, calls + text + role, finish);
    if let Some(reason) = c.finish_reason {
        lemma_heard_one(t3, Step::Finish { reason });
    }
}

/// The steps of choices tell what the choices tell.
proof fn lemma_choices(t: Told, choices: Seq<ChoiceSpec>)
    requires
        t.over is None,
    ensures
        heard(t, choices.flat_map(choice_script_fn())) == after_choices(t, choices),
        after_choices(t, choices).over is None,
    decreases choices.len(),
{
    let f = choice_script_fn();
    if choices.len() == 0 {
        assert(choices.map_values(f) =~= Seq::empty());
        assert(choices.flat_map(f) =~= Seq::empty());
    } else {
        let fewer = choices.drop_last();
        let last = choices.last();
        lemma_choices(t, fewer);
        lemma_choice(after_choices(t, fewer), last);
        assert(choices.map_values(f) =~= fewer.map_values(f).push(choice_script(last)));
        fewer.map_values(f).lemma_flatten_push(choice_script(last));
        lemma_heard_add(t, fewer.flat_map(f), choice_script(last));
    }
}

/// The steps of something that arrives tell what it tells.
proof fn lemma_arrival(t: Told, arrival: ArrivalSpec)
    ensures
        heard(t, arrival_script(arrival)) == after_arrival(t, arrival),
{
    if t.over is Some {
        lemma_heard_over(t, arrival_script(arrival));
    } else {
        match arrival {
            ArrivalSpec::Chunk(chunk) => {
                let begin = Step::Begin { id: chunk.id, model: chunk.model, fresh: Seq::empty() };
                let choices = chunk.choices.flat_map(choice_script_fn());
                let end = match chunk.usage {
                    Some(usage) => seq![Step::Complete { usage, fresh: Seq::empty() }],
                    None => Seq::empty(),
                };
                assert(chunk_script(chunk) =~= seq![begin] + choices + end);
                let t1 = after_begin(t, chunk.id, chunk.model);
                lemma_heard_one(t, begin);
                lemma_heard_add(t, seq![begin], choices);
                lemma_choices(t1, chunk.choices);
                lemma_heard_add(t, seq![begin] + choices, end);
                if let Some(usage) = chunk.usage {
                    lemma_heard_one(
                        after_choices(t1, chunk.choices),
                        Step::Complete { usage, fresh: Seq::empty() },
                    );
                }
            },
            ArrivalSpec::Unreadable => {},
            ArrivalSpec::Done => {
                let st = arrival_script(arrival)[0];
                assert(arrival_script(arrival) =~= seq![st]);
                lemma_heard_one(t, st);
            },
        }
    }
}

/// The steps of all that arrives tell what it tells.
proof fn lemma_session(arrivals: Seq<ArrivalSpec>)
    ensures
        heard(nothing_told(), session_script(arrivals)) == told(arrivals),
    decreases arrivals.len(),
{
    if arrivals.len() == 0 {
        assert(arrivals.map_values(arrival_script_fn()) =~= Seq::empty());
        assert(session_script(arrivals) =~= Seq::empty());
    } else {
        let fewer = arrivals.drop_last();
        let last = arrivals.last();
        lemma_session(fewer);
        lemma_session_push(fewer, last);
        assert(fewer.push(last) =~= arrivals);
        lemma_heard_add(nothing_told(), session_script(fewer), arrival_script(last));
        lemma_arrival(told(fewer), last);
    }
}

/// Which identifiers are handed out makes no difference to what is told.
proof fn lemma_plays(script: Seq<Step>, steps: Seq<Step>)
    requires
        plays(script, steps),
    ensures
        heard(nothing_told(), steps) == heard(nothing_told(), script),
    decreases steps.len(),
{
    if steps.len() > 0 {
        let fewer = script.drop_last();
        let before = steps.drop_last();
        assert forall|i: int| 0 <= i < before.len() implies blank(#[trigger] before[i]) == blank(
            fewer[i],
        ) && well_named(before[i]) by {
            assert(before[i] == steps[i]);
        }
        lemma_plays(fewer, before);
        assert(blank(steps[steps.len() - 1]) == blank(script[steps.len() - 1]));
    }
}

/// Whether an event is any but the one that completes the answer.
pub open spec fn is_content(e: Event) -> bool {
    !(e is Completed)
}

/// All events but the one that completes the answer, in order.
pub open spec fn contents(events: Seq<Event>) -> Seq<Event>
    decreases events.len(),
{
    if events.len() == 0 {
        Seq::empty()
    } else if is_content(events.last()) {
        contents(events.drop_last()).push(events.last())
    } else {
        contents(events.drop_last())
    }
}

/// Whether an event passes on a notice. What concerns a tool call is told of its item.
pub open spec fn notified(n: Notice, e: Event, calls: Map<usize, CallSpec>) -> bool {
    match n {
        Notice::Created { id, model } => e == (Event::Created { id, model }),
        Notice::Message => e is MessageAdded,
        Notice::Text { piece } => e is TextDelta && e->TextDelta_delta == piece,
        Notice::Call { index, id, name } => calls.contains_key(index) && e == (Event::CallAdded {
            item_id: calls[index].item_id,
            call_id: id,
            name,
        }),
        Notice::Arguments { index, piece } => calls.contains_key(index) && e == (
        Event::ArgumentsDelta { item_id: calls[index].item_id, delta: piece }),
        Notice::Part => e is PartAdded,
        Notice::PartEnded { text } => e is PartDone && e->PartDone_text == text,
        Notice::Ended { text, status } => e is MessageDone && e->MessageDone_text == text
            && e->MessageDone_status == status,
        Notice::ArgumentsEnded { index, arguments } => calls.contains_key(index) && e == (
        Event::ArgumentsDone { item_id: calls[index].item_id, arguments }),
        Notice::CallEnded { index, call } => calls.contains_key(index) && e == (Event::CallDone {
            item_id: calls[index].item_id,
            call_id: call.id,
            name: call.name,
            arguments: call.arguments,
        }),
    }
}

/// Whether events pass on notices, one for one and in order.
pub open spec fn all_notified(
    notices: Seq<Notice>,
    events: Seq<Event>,
    calls: Map<usize, CallSpec>,
) -> bool {
    &&& notices.len() == events.len()
    &&& forall|i: int|
        0 <= i < notices.len() ==> notified(#[trigger] notices[i], events[i], calls)
}

/// Whether a state holds what has been told.
pub open spec fn state_tells(s: StreamSpec, t: Told) -> bool {
    &&& s.completed <==> t.over is Some
    &&& s.sent_response_created == t.begun
    &&& s.sent_item_added == t.message
    &&& s.text_item_finalized == t.ended
    &&& !s.completed ==> (s.sent_content_part_added <==> t.text.len() > 0)
    &&& t.text.len() > 0 ==> t.message
    &&& or_empty(s.response_id) == t.id
    &&& or_empty(s.model) == t.model
    &&& s.agg.text_content == t.text
    &&& s.agg.finish_reason == t.reason
    &&& forall|k: usize| #[trigger]
        s.agg.tool_calls.contains_key(k) <==> t.calls.contains_key(k)
    &&& forall|k: usize| #[trigger]
        s.agg.tool_calls.contains_key(k) ==> call_tells(s.agg.tool_calls[k], t.calls[k]) && (
        s.completed || !s.agg.tool_calls[k].sent_arguments_done)
}

/// Whether a tool call holds what has been told of it.
pub open spec fn call_tells(c: CallSpec, t: ToldCall) -> bool {
    &&& c.id == t.id
    &&& c.name == t.name
    &&& c.arguments == t.arguments
    &&& c.sent_item_added == t.begun
}

/// The contents of events after events.
proof fn lemma_contents_add(a: Seq<Event>, b: Seq<Event>)
    ensures
        contents(a + b) == contents(a) + contents(b),
    decreases b.len(),
{
    if b.len() == 0 {
        assert(a + b =~= a);
        assert(contents(a) + contents(b) =~= contents(a));
    } else {
        lemma_contents_add(a, b.drop_last());
        assert((a + b).drop_last() =~= a + b.drop_last());
        assert((a + b).last() == b.last());
        assert(contents(a + b) =~= contents(a) + contents(b));
    }
}

/// Events that pass nothing on.
proof fn lemma_no_contents(events: Seq<Event>)
    requires
        forall|i: int| 0 <= i < events.len() ==> !is_content(#[trigger] events[i]),
    ensures
        contents(events) == Seq::<Event>::empty(),
    decreases events.len(),
{
    if events.len() > 0 {
        assert(!is_content(events[events.len() - 1]));
        lemma_no_contents(events.drop_last());
    }
}

/// A single event.
proof fn lemma_one_content(e: Event)
    ensures
        contents(seq![e]) == (if is_content(e) {
            seq![e]
        } else {
            Seq::empty()
        }),
{
    reveal_with_fuel(contents, 2);
    assert(seq![e].drop_last() =~= Seq::empty());
    assert(contents(seq![e]) =~= (if is_content(e) {
        seq![e]
    } else {
        Seq::empty()
    }));
}

/// Notices after notices.
proof fn lemma_notified_add(
    a: Seq<Notice>,
    x: Seq<Event>,
    b: Seq<Notice>,
    y: Seq<Event>,
    calls: Map<usize, CallSpec>,
)
    requires
        all_notified(a, x, calls),
        all_notified(b, y, calls),
    ensures
        all_notified(a + b, x + y, calls),
{
    assert forall|i: int| 0 <= i < (a + b).len() implies notified(
        #[trigger] (a + b)[i],
        (x + y)[i],
        calls,
    ) by {
        if i < a.len() {
            assert((a + b)[i] == a[i] && (x + y)[i] == x[i]);
        } else {
            assert((a + b)[i] == b[i - a.len()] && (x + y)[i] == y[i - a.len()]);
        }
    }
}

/// What has been passed on stays so while tool calls keep their items.
proof fn lemma_notified_stays(
    notices: Seq<Notice>,
    events: Seq<Event>,
    calls: Map<usize, CallSpec>,
    more: Map<usize, CallSpec>,
)
    requires
        all_notified(notices, events, calls),
        forall|k: usize| #[trigger]
            calls.contains_key(k) ==> more.contains_key(k) && more[k].item_id == calls[k].item_id,
    ensures
        all_notified(notices, events, more),
{
    assert forall|i: int| 0 <= i < notices.len() implies notified(
        #[trigger] notices[i],
        events[i],
        more,
    ) by {
        assert(notified(notices[i], events[i], calls));
    }
}

/// Events none of which completes the answer.
proof fn lemma_all_contents(events: Seq<Event>)
    requires
        forall|i: int| 0 <= i < events.len() ==> is_content(#[trigger] events[i]),
    ensures
        contents(events) == events,
    decreases events.len(),
{
    if events.len() > 0 {
        assert(is_content(events[events.len() - 1]));
        lemma_all_contents(events.drop_last());
        assert(contents(events) =~= events);
    } else {
        assert(contents(events) =~= events);
    }
}

/// The ends of tool calls are passed on, one after the other.
proof fn lemma_ends_notified(s: StreamSpec, t: Told, keys: Seq<usize>)
    requires
        state_tells(s, t),
        !s.completed,
        forall|i: int|
            0 <= i < keys.len() ==> s.agg.tool_calls.contains_key(#[trigger] keys[i]),
    ensures
        all_notified(
            call_end_notices(t.calls, keys),
            end_events(s.agg.tool_calls, keys),
            s.agg.tool_calls,
        ),
        contents(end_events(s.agg.tool_calls, keys)) == end_events(s.agg.tool_calls, keys),
    decreases keys.len(),
{
    let calls = s.agg.tool_calls;
    if keys.len() > 0 {
        let fewer = keys.drop_last();
        assert forall|i: int| 0 <= i < fewer.len() implies calls.contains_key(
            #[trigger] fewer[i],
        ) by {
            assert(fewer[i] == keys[i]);
        }
        lemma_ends_notified(s, t, fewer);
        let index = keys.last();
        assert(index == keys[keys.len() - 1]);
        assert(calls.contains_key(index));
        assert(call_tells(calls[index], t.calls[index]));
        let x = end_events(calls, fewer);
        let all = end_events(calls, keys);
        if calls[index].sent_item_added {
            let a = all[x.len() as int];
            let b = all[x.len() as int + 1];
            lemma_contents_add(x, seq![a, b]);
            lemma_all_contents(seq![a, b]);
            assert(all =~= x + seq![a, b]);
            let notices = call_end_notices(t.calls, keys);
            let before = call_end_notices(t.calls, fewer);
            let new = seq![notices[before.len() as int], notices[before.len() as int + 1]];
            assert(notices =~= before + new);
            lemma_notified_add(before, x, new, seq![a, b], calls);
        }
    } else {
        assert(contents(end_events(calls, keys)) =~= end_events(calls, keys));
    }
}

/// The end of the message is passed on.
proof fn lemma_end_contents(s: StreamSpec, t: Told)
    requires
        s.agg.text_content == t.text,
        s.agg.finish_reason == t.reason,
    ensures
        contents(open_message_end(s)) == open_message_end(s),
        text_open(s) ==> all_notified(
            seq![
                Notice::PartEnded { text: t.text },
                Notice::Ended { text: t.text, status: told_status(t) },
            ],
            open_message_end(s),
            s.agg.tool_calls,
        ),
{
    law_finish_status(s.agg.finish_reason);
    lemma_all_contents(open_message_end(s));
}

/// A word on a tool call is taken in and passed on.
proof fn lemma_tells_delta(s: StreamSpec, t: Told, delta: ToolDeltaSpec, fresh: Seq<char>)
    requires
        state_tells(s, t),
        t.over is None,
    ensures
        ({
            let st = Step::ToolCall { delta, fresh };
            let u = after_delta(t, delta);
            let calls = step(s, st).0.agg.tool_calls;
            &&& state_tells(step(s, st).0, u)
            &&& u.notices.len() >= t.notices.len()
            &&& u.notices.take(t.notices.len() as int) == t.notices
            &&& all_notified(
                u.notices.skip(t.notices.len() as int),
                contents(sent(s, st)),
                calls,
            )
        }),
{
    let st = Step::ToolCall { delta, fresh };
    let u = after_delta(t, delta);
    let n = t.notices.len() as int;
    let calls = s.agg.tool_calls;
    let more = step(s, st).0.agg.tool_calls;
    let known = found_call(calls, delta.index, fresh);
    let call = updated_call(known, delta);
    let before = call_told(t, delta.index);
    let piece = sent_piece(call, delta);
    assert(call_tells(known, before) && !known.sent_arguments_done) by {
        if !calls.contains_key(delta.index) {
            assert(!t.calls.contains_key(delta.index));
        }
    }
    assert(given_or(delta.arguments, Seq::empty()) == or_empty(delta.arguments));
    assert(call.arguments == u.calls[delta.index].arguments);
    assert(call.id == u.calls[delta.index].id && call.name == u.calls[delta.index].name);
    assert(more[delta.index].item_id == call.item_id);
    assert(state_tells(step(s, st).0, u)) by {
        assert forall|k: usize| #[trigger] more.contains_key(k) <==> u.calls.contains_key(k) by {
            assert(calls.contains_key(k) <==> t.calls.contains_key(k));
        }
        assert forall|k: usize| #[trigger] more.contains_key(k) implies call_tells(
            more[k],
            u.calls[k],
        ) && !more[k].sent_arguments_done by {
            if k != delta.index {
                assert(calls.contains_key(k));
            }
        }
    }
    let added = Event::CallAdded { item_id: call.item_id, call_id: call.id, name: call.name };
    let told_piece = Event::ArgumentsDelta { item_id: call.item_id, delta: piece };
    let pieces = if piece.len() > 0 {
        seq![told_piece]
    } else {
        Seq::empty()
    };
    lemma_one_content(added);
    lemma_one_content(told_piece);
    lemma_end_contents(s, t);
    lemma_contents_add(open_message_end(s), seq![added]);
    let announced = if announces(call) {
        announcement_events(s, call)
    } else {
        Seq::empty()
    };
    lemma_contents_add(announced, pieces);
    assert(contents(Seq::<Event>::empty()) =~= Seq::empty());
    let new = u.notices.skip(n);
    let out = contents(sent(s, st));
    assert(u.notices.take(n) =~= t.notices);
    if announces(call) {
        let ending = contents(open_message_end(s));
        let end_notice = if text_open(s) {
            seq![
                Notice::PartEnded { text: t.text },
                Notice::Ended { text: t.text, status: told_status(t) },
            ]
        } else {
            Seq::empty()
        };
        assert(out =~= ending + (seq![added] + pieces));
        let rest = seq![Notice::Call { index: delta.index, id: call.id, name: call.name }]
            + arguments_notice(delta.index, call.arguments);
        assert(new =~= end_notice + rest);
        assert(all_notified(end_notice, ending, calls));
        lemma_notified_stays(end_notice, ending, calls, more);
        assert(all_notified(rest, seq![added] + pieces, more));
        lemma_notified_add(end_notice, ending, rest, seq![added] + pieces, more);
    } else if call.sent_item_added {
        assert(out =~= pieces);
        assert(new =~= arguments_notice(delta.index, or_empty(delta.arguments)));
    } else {
        assert(out =~= Seq::empty());
        assert(new =~= Seq::empty());
    }
}

/// The end of the answer ends the message where it has begun.
proof fn lemma_tells_end(s: StreamSpec, t: Told, usage: JsonSpec, fresh: Seq<char>)
    requires
        state_tells(s, t),
        t.over is None,
    ensures
        ({
            let st = Step::Complete { usage, fresh };
            let u = after_end(t, usage);
            &&& state_tells(step(s, st).0, u)
            &&& u.notices.len() >= t.notices.len()
            &&& u.notices.take(t.notices.len() as int) == t.notices
            &&& all_notified(
                u.notices.skip(t.notices.len() as int),
                contents(sent(s, st)),
                step(s, st).0.agg.tool_calls,
            )
        }),
{
    let st = Step::Complete { usage, fresh };
    let t2 = after_end(t, usage);
    let n = t.notices.len() as int;
    let u = with_part(s);
    let calls = s.agg.tool_calls;
    let keys = in_order(calls.dom());
    let ends = end_events(calls, keys);
    let ending = open_message_end(u);
    let last = seq![
        completed_event(or_empty(s.response_id), or_empty(s.model), s.agg, usage, fresh),
    ];
    law_calls_in_order(calls);
    assert forall|i: int| 0 <= i < keys.len() implies calls.contains_key(#[trigger] keys[i]) by {
        assert(keys.contains(keys[i]));
    }
    lemma_end_events(calls, keys);
    assert(calls_in_order(calls) =~= keys.map_values(|k: usize| calls[k]));
    lemma_ends_notified(s, t, keys);
    assert(keys == in_order(t.calls.dom())) by {
        assert forall|k: usize| calls.dom().contains(k) <==> t.calls.dom().contains(k) by {
            assert(calls.contains_key(k) <==> t.calls.contains_key(k));
        }
        assert(calls.dom() =~= t.calls.dom());
    }
    lemma_all_contents(part_events(s));
    lemma_end_contents(u, t);
    lemma_no_contents(last);
    lemma_contents_add(ending, ends);
    lemma_contents_add(ending + ends, last);
    lemma_contents_add(part_events(s), ending + ends + last);
    assert(contents(sent(s, st)) =~= part_events(s) + ending + ends);
    assert(t2.notices.take(n) =~= t.notices);
    let part_notice = if part_missing(s) {
        seq![Notice::Part]
    } else {
        Seq::empty()
    };
    let end_notice = if text_open(u) {
        seq![
            Notice::PartEnded { text: t.text },
            Notice::Ended { text: t.text, status: told_status(t) },
        ]
    } else {
        Seq::empty()
    };
    assert(t2.notices.skip(n) =~= part_notice + end_notice + call_end_notices(t.calls, keys));
    assert(all_notified(part_notice, part_events(s), calls));
    lemma_notified_add(part_notice, part_events(s), end_notice, ending, calls);
    lemma_notified_add(
        part_notice + end_notice,
        part_events(s) + ending,
        call_end_notices(t.calls, keys),
        ends,
        calls,
    );
    let more = step(s, st).0.agg.tool_calls;
    assert forall|k: usize| #[trigger] more.contains_key(k) implies more[k] == ended(calls[k])
        && calls.contains_key(k) by {}
    assert forall|k: usize| #[trigger] calls.contains_key(k) implies more.contains_key(k)
        && more[k].item_id == calls[k].item_id by {}
    lemma_notified_stays(t2.notices.skip(n), contents(sent(s, st)), calls, more);
}

/// A step is taken in and passed on.
proof fn lemma_tells_step(s: StreamSpec, t: Told, st: Step)
    requires
        state_tells(s, t),
    ensures
        ({
            let u = hear(t, st);
            let calls = step(s, st).0.agg.tool_calls;
            &&& state_tells(step(s, st).0, u)
            &&& u.notices.len() >= t.notices.len()
            &&& u.notices.take(t.notices.len() as int) == t.notices
            &&& all_notified(
                u.notices.skip(t.notices.len() as int),
                contents(sent(s, st)),
                calls,
            )
        }),
{
    let u = hear(t, st);
    let n = t.notices.len() as int;
    let out = contents(sent(s, st));
    let calls = s.agg.tool_calls;
    assert(contents(Seq::<Event>::empty()) =~= Seq::empty());
    if t.over is Some {
        assert(u.notices.take(n) =~= t.notices);
        assert(u.notices.skip(n) =~= Seq::empty());
    } else {
        match st {
            Step::ToolCall { delta, fresh } => {
                lemma_tells_delta(s, t, delta, fresh);
            },
            Step::Begin { .. } => {
                assert(u.notices.take(n) =~= t.notices);
                assert(or_empty(step(s, st).0.response_id) =~= u.id);
                assert(or_empty(step(s, st).0.model) =~= u.model);
                if !t.begun {
                    lemma_one_content(sent(s, st)[0]);
                    assert(sent(s, st) =~= seq![sent(s, st)[0]]);
                    assert(u.notices.skip(n) =~= seq![
                        Notice::Created { id: u.id, model: u.model },
                    ]);
                } else {
                    assert(u.notices.skip(n) =~= Seq::empty());
                }
            },
            Step::Text { text } => {
                lemma_tells_text(s, t, text);
            },
            Step::Role { role } => {
                assert(u.notices.take(n) =~= t.notices);
                assert(calls.is_empty() <==> forall|k: usize| !#[trigger] t.calls.contains_key(k))
                    by {
                    if calls.is_empty() {
                        assert forall|k: usize| !#[trigger] t.calls.contains_key(k) by {
                            assert(!calls.contains_key(k));
                        }
                    } else {
                        let k = calls.dom().choose();
                        assert(calls.contains_key(k));
                    }
                }
                if sent(s, st).len() > 0 {
                    lemma_one_content(sent(s, st)[0]);
                    assert(sent(s, st) =~= seq![sent(s, st)[0]]);
                    assert(u.notices.skip(n) =~= seq![Notice::Message]);
                } else {
                    assert(sent(s, st) =~= Seq::empty());
                    assert(u.notices.skip(n) =~= Seq::empty());
                }
            },
            Step::Finish { .. } => {
                assert(u.notices.take(n) =~= t.notices);
                assert(u.notices.skip(n) =~= Seq::empty());
            },
            Step::Complete { usage, fresh } => {
                lemma_tells_end(s, t, usage, fresh);
            },
        }
    }
}

/// A text is taken in and passed on.
proof fn lemma_tells_text(s: StreamSpec, t: Told, text: Seq<char>)
    requires
        state_tells(s, t),
        t.over is None,
    ensures
        ({
            let st = Step::Text { text };
            let u = after_text(t, text);
            &&& state_tells(step(s, st).0, u)
            &&& u.notices.len() >= t.notices.len()
            &&& u.notices.take(t.notices.len() as int) == t.notices
            &&& all_notified(
                u.notices.skip(t.notices.len() as int),
                contents(sent(s, st)),
                step(s, st).0.agg.tool_calls,
            )
        }),
{
    let st = Step::Text { text };
    let u = after_text(t, text);
    let n = t.notices.len() as int;
    let item_id = or_empty(s.msg_item_id);
    assert(u.notices.take(n) =~= t.notices);
    if text.len() == 0 {
        assert(contents(sent(s, st)) =~= Seq::empty());
        assert(u.notices.skip(n) =~= Seq::empty());
    } else {
        let message = if s.sent_item_added {
            Seq::empty()
        } else {
            seq![Event::MessageAdded { item_id }]
        };
        let part = if s.sent_content_part_added {
            Seq::empty()
        } else {
            seq![Event::PartAdded { item_id }]
        };
        let piece = Event::TextDelta { item_id, delta: text };
        lemma_all_contents(message + part + seq![piece]);
        let a = if t.message {
            Seq::<Notice>::empty()
        } else {
            seq![Notice::Message]
        };
        let b = if t.text.len() > 0 {
            Seq::<Notice>::empty()
        } else {
            seq![Notice::Part]
        };
        assert(u.notices.skip(n) =~= a + b + seq![Notice::Text { piece: text }]);
    }
}

/// What steps tell is taken in and passed on.
proof fn lemma_tells(steps: Seq<Step>)
    ensures
        ({
            let t = heard(nothing_told(), steps);
            let s = reached(steps);
            state_tells(s, t) && all_notified(
                t.notices,
                contents(trace(steps)),
                s.agg.tool_calls,
            )
        }),
    decreases steps.len(),
{
    if steps.len() == 0 {
        assert(trace(steps) =~= Seq::empty());
        assert(contents(trace(steps)) =~= Seq::empty());
    } else {
        let before = steps.drop_last();
        let st = steps.last();
        let s = reached(before);
        let t = heard(nothing_told(), before);
        let u = heard(nothing_told(), steps);
        let more = reached(steps).agg.tool_calls;
        lemma_tells(before);
        lemma_trace_step(before, st);
        assert(before.push(st) =~= steps);
        lemma_tells_step(s, t, st);
        lemma_contents_add(trace(before), sent(s, st));
        assert forall|k: usize| #[trigger] s.agg.tool_calls.contains_key(k) implies more.contains_key(
            k,
        ) && more[k].item_id == s.agg.tool_calls[k].item_id by {}
        lemma_notified_stays(t.notices, contents(trace(before)), s.agg.tool_calls, more);
        let new = u.notices.skip(t.notices.len() as int);
        lemma_notified_add(t.notices, contents(trace(before)), new, contents(sent(s, st)), more);
        assert(t.notices + new =~= u.notices);
    }
}

/// Whatever arrives of a streamed answer until it is over, and whichever identifiers are handed
/// out: all of it is taken in (the identifiers, the text, the finish reason, and of each tool call
/// the identifier, the name and the arguments), there is no other tool call, and all of it is
/// passed on, piece by piece and in the order in which it arrived. Besides what begins, goes on and
/// ends so, nothing is sent but the event that completes the answer.
pub proof fn law_all_told(arrivals: Seq<ArrivalSpec>, steps: Seq<Step>)
    requires
        plays(session_script(arrivals), steps),
    ensures
        state_tells(reached(steps), told(arrivals)),
        all_notified(
            told(arrivals).notices,
            contents(trace(steps)),
            reached(steps).agg.tool_calls,
        ),
{
    lemma_session(arrivals);
    lemma_plays(session_script(arrivals), steps);
    lemma_tells(steps);
}

/// Whether an event completes an answer and tells all that has been told of it: the identifiers,
/// the status, the tokens, the text as a message, where there is any or nothing else, and then each
/// tool call, by increasing index.
pub open spec fn answer_tells(e: Event, t: Told) -> bool {
    let output = e->output;
    let usage = e->Completed_usage;
    let told_usage = t.over->0;
    let keys = in_order(t.calls.dom());
    let has_message = t.text.len() > 0 || keys.len() == 0;
    let first: int = if has_message { 1 } else { 0 };
    &&& e is Completed
    &&& e->Completed_id == t.id
    &&& e->Completed_model == t.model
    &&& e->Completed_status == told_status(t)
    &&& only_keys(usage, seq!["input_tokens"@, "output_tokens"@, "total_tokens"@])
    &&& counts(told_usage, "prompt_tokens"@, usage.get("input_tokens"@))
    &&& counts(told_usage, "completion_tokens"@, usage.get("output_tokens"@))
    &&& counts(told_usage, "total_tokens"@, usage.get("total_tokens"@))
    &&& output.len() == first + keys.len()
    &&& has_message ==> is_completed_message(
        output[0],
        text_at(output[0], "id"@),
        if keys.len() == 0 { told_status(t) } else { "completed"@ },
        t.text,
    )
    &&& forall|i: int|
        0 <= i < keys.len() ==> {
            let call = t.calls[#[trigger] keys[i]];
            is_call(output[first + i], call.id, call.name, call.arguments, "completed"@)
        }
}

/// The end of an answer tells all that has been told.
proof fn lemma_answer_step(s: StreamSpec, t: Told, usage: JsonSpec, fresh: Seq<char>)
    requires
        state_tells(s, t),
        t.over is None,
    ensures
        answer_tells(
            completed_event(or_empty(s.response_id), or_empty(s.model), s.agg, usage, fresh),
            after_end(t, usage),
        ),
{
    let e = completed_event(or_empty(s.response_id), or_empty(s.model), s.agg, usage, fresh);
    let calls = s.agg.tool_calls;
    law_completed_event(or_empty(s.response_id), or_empty(s.model), s.agg, usage, fresh);
    law_calls_in_order(calls);
    assert(calls.dom() =~= t.calls.dom()) by {
        assert forall|k: usize| calls.dom().contains(k) <==> t.calls.dom().contains(k) by {
            assert(calls.contains_key(k) <==> t.calls.contains_key(k));
        }
    }
    let keys = in_order(calls.dom());
    let has_message = t.text.len() > 0 || keys.len() == 0;
    let first: int = if has_message { 1 } else { 0 };
    assert forall|i: int| 0 <= i < keys.len() implies {
        let call = t.calls[#[trigger] keys[i]];
        is_call(e->output[first + i], call.id, call.name, call.arguments, "completed"@)
    } by {
        assert(keys.contains(keys[i]));
        assert(calls.contains_key(keys[i]));
        assert(call_tells(calls[keys[i]], t.calls[keys[i]]));
    }
}

/// Once an answer is over, the last event tells all that has been told.
proof fn lemma_answer(steps: Seq<Step>)
    requires
        heard(nothing_told(), steps).over is Some,
    ensures
        trace(steps).len() > 0,
        answer_tells(trace(steps).last(), heard(nothing_told(), steps)),
    decreases steps.len(),
{
    let before = steps.drop_last();
    let st = steps.last();
    let s = reached(before);
    let t = heard(nothing_told(), before);
    lemma_tells(before);
    lemma_trace_step(before, st);
    assert(before.push(st) =~= steps);
    if t.over is Some {
        lemma_answer(before);
        assert(trace(steps) =~= trace(before));
    } else {
        match st {
            Step::Complete { usage, fresh } => {
                lemma_answer_step(s, t, usage, fresh);
            },
            _ => {
                lemma_tells_step(s, t, st);
                lemma_not_over(t, st);
            },
        }
    }
}

/// Nothing but its end makes an answer over.
proof fn lemma_not_over(t: Told, st: Step)
    requires
        t.over is None,
        !(st is Complete),
    ensures
        hear(t, st).over is None,
{
}

/// The last event of a streamed answer that comes to its end tells all that has arrived until then:
/// the last identifiers, the status of the last finish reason, the tokens of the first usage, all
/// the text, and every tool call with its identifier, name and arguments.
pub proof fn law_answer_told(arrivals: Seq<ArrivalSpec>, steps: Seq<Step>)
    requires
        told(arrivals).over is Some,
        plays(session_script(arrivals), steps),
    ensures
        trace(steps).len() > 0,
        answer_tells(trace(steps).last(), told(arrivals)),
{
    lemma_session(arrivals);
    lemma_plays(session_script(arrivals), steps);
    lemma_answer(steps);
}

} // verus!
