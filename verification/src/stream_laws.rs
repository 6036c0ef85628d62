//! What holds of the events of every streamed answer.

use crate::calls::{calls_in_order, CallSpec};
use crate::events::{completed_event, Event};
use crate::json::JsonSpec;
use crate::response::token_counts;
use crate::stream::{
    announcement, announces, argument_piece, call_end, call_ends, completion, found_call, initial,
    open_message_end, or_empty, part_frames, part_missing, run, sent_piece, step, text_open,
    updated_call, with_part, Step, StreamSpec, ToolDeltaSpec,
};
use vstd::prelude::*;

verus! {

/// All the events that steps send from the beginning, in order.
pub open spec fn trace(steps: Seq<Step>) -> Seq<Event> {
    run(initial(), steps).1.flatten()
}

/// The state after steps from the beginning.
pub open spec fn reached(steps: Seq<Step>) -> StreamSpec {
    run(initial(), steps).0
}

/// The event that begins the text of the message, where it is missing.
pub open spec fn part_events(s: StreamSpec) -> Seq<Event> {
    if part_missing(s) {
        seq![Event::PartAdded { item_id: or_empty(s.msg_item_id) }]
    } else {
        Seq::empty()
    }
}

/// The events that announce a tool call.
pub open spec fn announcement_events(s: StreamSpec, call: CallSpec) -> Seq<Event> {
    open_message_end(s) + seq![
        Event::CallAdded { item_id: call.item_id, call_id: call.id, name: call.name },
    ]
}

/// The events that a step sends; none once the answer is completed.
pub open spec fn sent(s: StreamSpec, st: Step) -> Seq<Event> {
    if s.completed {
        Seq::empty()
    } else {
        match st {
            Step::Begin { .. } => if s.sent_response_created {
                Seq::empty()
            } else {
                let t = step(s, st).0;
                seq![Event::Created { id: or_empty(t.response_id), model: or_empty(t.model) }]
            },
            Step::ToolCall { delta, fresh } => {
                let call = updated_call(found_call(s.agg.tool_calls, delta.index, fresh), delta);
                let piece = sent_piece(call, delta);
                (if announces(call) {
                    announcement_events(s, call)
                } else {
                    Seq::empty()
                }) + (if piece.len() > 0 {
                    seq![Event::ArgumentsDelta { item_id: call.item_id, delta: piece }]
                } else {
                    Seq::empty()
                })
            },
            Step::Text { text } => if text.len() == 0 {
                Seq::empty()
            } else {
                let item_id = or_empty(s.msg_item_id);
                (if s.sent_item_added {
                    Seq::empty()
                } else {
                    seq![Event::MessageAdded { item_id }]
                }) + (if s.sent_content_part_added {
                    Seq::empty()
                } else {
                    seq![Event::PartAdded { item_id }]
                }) + seq![Event::TextDelta { item_id, delta: text }]
            },
            Step::Role { role } => if role == "assistant"@ && !s.sent_item_added
                && s.agg.tool_calls.is_empty() {
                seq![Event::MessageAdded { item_id: or_empty(s.msg_item_id) }]
            } else {
                Seq::empty()
            },
            Step::Finish { .. } => Seq::empty(),
            Step::Complete { usage, fresh } => part_events(s) + completion(
                with_part(s),
                usage,
                fresh,
            ),
        }
    }
}

/// The frames that announce a tool call hold the events that announce it.
proof fn lemma_announcement(s: StreamSpec, call: CallSpec)
    ensures
        announcement(s, call).flatten() == announcement_events(s, call),
{
    let added = seq![
        seq![Event::CallAdded { item_id: call.item_id, call_id: call.id, name: call.name }],
    ];
    let ending = if text_open(s) {
        seq![open_message_end(s)]
    } else {
        Seq::empty()
    };
    added.lemma_flatten_one_element();
    ending.lemma_flatten_one_element();
    vstd::seq_lib::lemma_flatten_concat(ending, added);
    assert(ending.flatten() =~= open_message_end(s));
}

/// The frames of a step hold the events that it sends, in order.
pub proof fn lemma_sent(s: StreamSpec, st: Step)
    ensures
        step(s, st).1.flatten() == sent(s, st),
{
    if s.completed {
        assert(step(s, st).1.flatten() =~= sent(s, st));
    } else {
        match st {
            Step::ToolCall { delta, fresh } => {
                let call = updated_call(found_call(s.agg.tool_calls, delta.index, fresh), delta);
                let piece = argument_piece(call.item_id, sent_piece(call, delta));
                let announced = if announces(call) {
                    announcement(s, call)
                } else {
                    Seq::empty()
                };
                lemma_announcement(s, call);
                piece.lemma_flatten_one_element();
                vstd::seq_lib::lemma_flatten_concat(announced, piece);
                assert(step(s, st).1.flatten() =~= sent(s, st));
            },
            Step::Text { text } => {
                if text.len() > 0 {
                    let item_id = or_empty(s.msg_item_id);
                    let message = if s.sent_item_added {
                        Seq::empty()
                    } else {
                        seq![seq![Event::MessageAdded { item_id }]]
                    };
                    let part = if s.sent_content_part_added {
                        Seq::empty()
                    } else {
                        seq![seq![Event::PartAdded { item_id }]]
                    };
                    let piece = seq![seq![Event::TextDelta { item_id, delta: text }]];
                    message.lemma_flatten_one_element();
                    part.lemma_flatten_one_element();
                    piece.lemma_flatten_one_element();
                    vstd::seq_lib::lemma_flatten_concat(message, part);
                    vstd::seq_lib::lemma_flatten_concat(message + part, piece);
                    assert(step(s, st).1.flatten() =~= sent(s, st));
                }
            },
            Step::Complete { usage, fresh } => {
                let last = seq![completion(with_part(s), usage, fresh)];
                part_frames(s).lemma_flatten_one_element();
                last.lemma_flatten_one_element();
                vstd::seq_lib::lemma_flatten_concat(part_frames(s), last);
                assert(part_frames(s).flatten() =~= part_events(s));
                assert(step(s, st).1.flatten() =~= sent(s, st));
            },
            _ => {
                step(s, st).1.lemma_flatten_one_element();
                assert(step(s, st).1.flatten() =~= sent(s, st));
            },
        }
    }
}

/// What one more step adds.
pub proof fn lemma_trace_step(steps: Seq<Step>, st: Step)
    ensures
        trace(steps.push(st)) == trace(steps) + sent(reached(steps), st),
        reached(steps.push(st)) == step(reached(steps), st).0,
{
    assert(steps.push(st).drop_last() =~= steps);
    let s = reached(steps);
    lemma_sent(s, st);
    vstd::seq_lib::lemma_flatten_concat(run(initial(), steps).1, step(s, st).1);
}

/// How far the events have come: what has begun, what has ended, and the text so far.
#[verifier::ext_equal]
pub struct MessageProgress {
    pub created: bool,
    pub message_added: bool,
    pub part_added: bool,
    pub part_done: bool,
    pub message_done: bool,
    pub completed: bool,
    pub text: Seq<char>,
}

/// Nothing has begun.
pub open spec fn no_progress() -> MessageProgress {
    MessageProgress {
        created: false,
        message_added: false,
        part_added: false,
        part_done: false,
        message_done: false,
        completed: false,
        text: Seq::empty(),
    }
}

/// Whether an event may come now. The answer begins once and is completed once, and nothing comes
/// after that; the message begins once; its text begins once, and after the message; a piece of
/// text comes after the text has begun; the text ends once, after it has begun, and as the pieces
/// that have come put together; the message ends once, after its text, and with the same text. A
/// message whose text has begun has ended before a function call begins, and any message that has
/// begun has ended before the answer is completed.
pub open spec fn message_allows(p: MessageProgress, e: Event) -> bool {
    !p.completed && match e {
        Event::Created { .. } => !p.created,
        Event::MessageAdded { .. } => !p.message_added,
        Event::PartAdded { .. } => p.message_added && !p.part_added,
        Event::TextDelta { .. } => p.part_added,
        Event::PartDone { text, .. } => p.part_added && !p.part_done && text == p.text,
        Event::MessageDone { text, .. } => p.part_done && !p.message_done && text == p.text,
        Event::CallAdded { .. } => p.part_added ==> p.message_done,
        Event::Completed { .. } => p.message_added ==> p.message_done,
        _ => true,
    }
}

/// How far the events have come after one more.
pub open spec fn message_next(p: MessageProgress, e: Event) -> MessageProgress {
    match e {
        Event::Created { .. } => MessageProgress { created: true, ..p },
        Event::MessageAdded { .. } => MessageProgress { message_added: true, ..p },
        Event::PartAdded { .. } => MessageProgress { part_added: true, ..p },
        Event::TextDelta { delta, .. } => MessageProgress { text: p.text + delta, ..p },
        Event::PartDone { .. } => MessageProgress { part_done: true, ..p },
        Event::MessageDone { .. } => MessageProgress { message_done: true, ..p },
        Event::Completed { .. } => MessageProgress { completed: true, ..p },
        _ => p,
    }
}

/// How far events have come.
pub open spec fn message_progress(events: Seq<Event>) -> MessageProgress
    decreases events.len(),
{
    if events.len() == 0 {
        no_progress()
    } else {
        message_next(message_progress(events.drop_last()), events.last())
    }
}

/// Whether each of some events was allowed when it came.
pub open spec fn message_protocol(events: Seq<Event>) -> bool
    decreases events.len(),
{
    events.len() > 0 ==> message_protocol(events.drop_last()) && message_allows(
        message_progress(events.drop_last()),
        events.last(),
    )
}

/// Whether the events have come as far as the state says.
pub open spec fn message_agrees(s: StreamSpec, p: MessageProgress) -> bool {
    &&& p.created == s.sent_response_created
    &&& p.message_added == s.sent_item_added
    &&& p.part_added == s.sent_content_part_added
    &&& p.part_done == s.text_item_finalized
    &&& p.message_done == s.text_item_finalized
    &&& p.completed == s.completed
    &&& p.text == s.agg.text_content
    &&& p.part_added ==> p.message_added
    &&& p.part_done ==> p.part_added
}

/// One more event.
proof fn lemma_message_push(events: Seq<Event>, e: Event)
    ensures
        message_progress(events.push(e)) == message_next(message_progress(events), e),
        message_protocol(events.push(e)) == (message_protocol(events) && message_allows(
            message_progress(events),
            e,
        )),
{
    assert(events.push(e).drop_last() =~= events);
}

/// The beginning of the text of the message, where it is missing.
proof fn lemma_message_part(events: Seq<Event>, s: StreamSpec)
    requires
        message_protocol(events),
        message_agrees(s, message_progress(events)),
        !s.completed,
    ensures
        message_protocol(events + part_events(s)),
        message_agrees(with_part(s), message_progress(events + part_events(s))),
{
    if part_missing(s) {
        let e = part_events(s)[0];
        lemma_message_push(events, e);
        assert(events + part_events(s) =~= events.push(e));
    } else {
        assert(events + part_events(s) =~= events);
    }
}

/// The end of the message, where its text is open.
proof fn lemma_message_end(events: Seq<Event>, s: StreamSpec)
    requires
        message_protocol(events),
        message_agrees(s, message_progress(events)),
        !s.completed,
    ensures
        ({
            let after = events + open_message_end(s);
            &&& message_protocol(after)
            &&& message_progress(after) == (MessageProgress {
                part_done: s.sent_content_part_added,
                message_done: s.sent_content_part_added,
                ..message_progress(events)
            })
        }),
{
    if text_open(s) {
        let first = open_message_end(s)[0];
        let second = open_message_end(s)[1];
        lemma_message_push(events, first);
        lemma_message_push(events.push(first), second);
        assert(events + open_message_end(s) =~= events.push(first).push(second));
    } else {
        assert(events + open_message_end(s) =~= events);
    }
}

/// The ends of tool calls leave the message alone.
proof fn lemma_message_call_ends(events: Seq<Event>, calls: Seq<CallSpec>)
    requires
        message_protocol(events),
        !message_progress(events).completed,
    ensures
        message_protocol(events + call_ends(calls)),
        message_progress(events + call_ends(calls)) == message_progress(events),
    decreases calls.len(),
{
    if calls.len() == 0 {
        assert(events + call_ends(calls) =~= events);
    } else {
        lemma_message_call_ends(events, calls.drop_last());
        let before = events + call_ends(calls.drop_last());
        let end = call_end(calls.last());
        if end.len() == 0 {
            assert(events + call_ends(calls) =~= before);
        } else {
            lemma_message_push(before, end[0]);
            lemma_message_push(before.push(end[0]), end[1]);
            assert(events + call_ends(calls) =~= before.push(end[0]).push(end[1]));
        }
    }
}

/// A word on a tool call keeps to the protocol of the message.
proof fn lemma_message_tool_call(
    events: Seq<Event>,
    s: StreamSpec,
    delta: ToolDeltaSpec,
    fresh: Seq<char>,
)
    requires
        message_protocol(events),
        message_agrees(s, message_progress(events)),
        !s.completed,
    ensures
        ({
            let st = Step::ToolCall { delta, fresh };
            let after = events + sent(s, st);
            message_protocol(after) && message_agrees(step(s, st).0, message_progress(after))
        }),
{
    let st = Step::ToolCall { delta, fresh };
    let call = updated_call(found_call(s.agg.tool_calls, delta.index, fresh), delta);
    let piece = sent_piece(call, delta);
    let added = Event::CallAdded { item_id: call.item_id, call_id: call.id, name: call.name };
    let more = Event::ArgumentsDelta { item_id: call.item_id, delta: piece };
    let ended = events + open_message_end(s);
    let middle = if announces(call) {
        ended.push(added)
    } else {
        events
    };
    if announces(call) {
        lemma_message_end(events, s);
        lemma_message_push(ended, added);
    }
    assert(message_protocol(middle));
    assert(message_agrees(step(s, st).0, message_progress(middle)));
    if piece.len() > 0 {
        lemma_message_push(middle, more);
        assert(events + sent(s, st) =~= middle.push(more));
    } else {
        assert(events + sent(s, st) =~= middle);
    }
}

/// A piece of text keeps to the protocol of the message.
proof fn lemma_message_text(events: Seq<Event>, s: StreamSpec, text: Seq<char>)
    requires
        message_protocol(events),
        message_agrees(s, message_progress(events)),
        !s.completed,
        text.len() > 0,
    ensures
        ({
            let st = Step::Text { text };
            let after = events + sent(s, st);
            message_protocol(after) && message_agrees(step(s, st).0, message_progress(after))
        }),
{
    let item_id = or_empty(s.msg_item_id);
    let message = Event::MessageAdded { item_id };
    let part = Event::PartAdded { item_id };
    let piece = Event::TextDelta { item_id, delta: text };
    let one = if s.sent_item_added {
        events
    } else {
        events.push(message)
    };
    let two = if s.sent_content_part_added {
        one
    } else {
        one.push(part)
    };
    lemma_message_push(events, message);
    lemma_message_push(one, part);
    lemma_message_push(two, piece);
    assert(events + sent(s, Step::Text { text }) =~= two.push(piece));
}

/// The end of the answer keeps to the protocol of the message.
proof fn lemma_message_complete(
    events: Seq<Event>,
    s: StreamSpec,
    usage: JsonSpec,
    fresh: Seq<char>,
)
    requires
        message_protocol(events),
        message_agrees(s, message_progress(events)),
        !s.completed,
    ensures
        ({
            let st = Step::Complete { usage, fresh };
            let after = events + sent(s, st);
            message_protocol(after) && message_agrees(step(s, st).0, message_progress(after))
        }),
{
    let calls = calls_in_order(s.agg.tool_calls);
    let begun = events + part_events(s);
    let one = begun + open_message_end(with_part(s));
    let two = one + call_ends(calls);
    let e = completed_event(or_empty(s.response_id), or_empty(s.model), s.agg, usage, fresh);
    lemma_message_part(events, s);
    lemma_message_end(begun, with_part(s));
    lemma_message_call_ends(one, calls);
    lemma_message_push(two, e);
    assert(events + sent(s, Step::Complete { usage, fresh }) =~= two.push(e));
}

/// One more step keeps to the protocol of the message.
proof fn lemma_message_step(events: Seq<Event>, s: StreamSpec, st: Step)
    requires
        message_protocol(events),
        message_agrees(s, message_progress(events)),
    ensures
        message_protocol(events + sent(s, st)),
        message_agrees(step(s, st).0, message_progress(events + sent(s, st))),
{
    if sent(s, st).len() == 0 {
        assert(events + sent(s, st) =~= events);
    }
    if !s.completed {
        lemma_message_open_step(events, s, st);
    }
}

/// One more step before the end keeps to the protocol of the message.
proof fn lemma_message_open_step(events: Seq<Event>, s: StreamSpec, st: Step)
    requires
        message_protocol(events),
        message_agrees(s, message_progress(events)),
        !s.completed,
    ensures
        message_protocol(events + sent(s, st)),
        message_agrees(step(s, st).0, message_progress(events + sent(s, st))),
{
    if sent(s, st).len() == 0 {
        assert(events + sent(s, st) =~= events);
    }
    match st {
        Step::Begin { .. } => {
            if !s.sent_response_created {
                let e = sent(s, st)[0];
                lemma_message_push(events, e);
                assert(events + sent(s, st) =~= events.push(e));
            }
        },
        Step::ToolCall { delta, fresh } => {
            lemma_message_tool_call(events, s, delta, fresh);
        },
        Step::Text { text } => {
            if text.len() > 0 {
                lemma_message_text(events, s, text);
            }
        },
        Step::Role { .. } => {
            if sent(s, st).len() > 0 {
                let e = sent(s, st)[0];
                lemma_message_push(events, e);
                assert(events + sent(s, st) =~= events.push(e));
            }
        },
        Step::Finish { .. } => {},
        Step::Complete { usage, fresh } => {
            lemma_message_complete(events, s, usage, fresh);
        },
    }
}

/// The events of a streamed answer keep to the protocol of the message, whatever the steps; and
/// they have come as far as the state says.
pub proof fn law_message_protocol(steps: Seq<Step>)
    ensures
        message_protocol(trace(steps)),
        message_agrees(reached(steps), message_progress(trace(steps))),
    decreases steps.len(),
{
    if steps.len() == 0 {
        assert(trace(steps) =~= Seq::empty());
    } else {
        let before = steps.drop_last();
        law_message_protocol(before);
        lemma_trace_step(before, steps.last());
        assert(before.push(steps.last()) =~= steps);
        lemma_message_step(trace(before), reached(before), steps.last());
    }
}

/// What an event tells of.
pub enum Kind {
    Created,
    MessageAdded,
    PartAdded,
    TextDelta,
    PartDone,
    MessageDone,
    CallAdded,
    ArgumentsDelta,
    ArgumentsDone,
    CallDone,
    Completed,
}

/// The kind of an event.
pub open spec fn kind_of(e: Event) -> Kind {
    match e {
        Event::Created { .. } => Kind::Created,
        Event::MessageAdded { .. } => Kind::MessageAdded,
        Event::PartAdded { .. } => Kind::PartAdded,
        Event::TextDelta { .. } => Kind::TextDelta,
        Event::PartDone { .. } => Kind::PartDone,
        Event::MessageDone { .. } => Kind::MessageDone,
        Event::CallAdded { .. } => Kind::CallAdded,
        Event::ArgumentsDelta { .. } => Kind::ArgumentsDelta,
        Event::ArgumentsDone { .. } => Kind::ArgumentsDone,
        Event::CallDone { .. } => Kind::CallDone,
        Event::Completed { .. } => Kind::Completed,
    }
}

/// How many events are of a kind.
pub open spec fn tally(events: Seq<Event>, kind: Kind) -> nat
    decreases events.len(),
{
    if events.len() == 0 {
        0
    } else {
        tally(events.drop_last(), kind) + one_if(kind_of(events.last()) == kind)
    }
}

/// One where something holds, else none.
pub open spec fn one_if(b: bool) -> nat {
    if b {
        1
    } else {
        0
    }
}

/// How often each thing that happens once has happened.
proof fn lemma_tally(events: Seq<Event>)
    requires
        message_protocol(events),
    ensures
        ({
            let p = message_progress(events);
            &&& tally(events, Kind::Created) == one_if(p.created)
            &&& tally(events, Kind::MessageAdded) == one_if(p.message_added)
            &&& tally(events, Kind::PartAdded) == one_if(p.part_added)
            &&& tally(events, Kind::PartDone) == one_if(p.part_done)
            &&& tally(events, Kind::MessageDone) == one_if(p.message_done)
            &&& tally(events, Kind::Completed) == one_if(p.completed)
        }),
    decreases events.len(),
{
    if events.len() > 0 {
        lemma_tally(events.drop_last());
    }
}

/// The beginning of the answer, of the message and of its text, and the end of the text, of the
/// message and of the answer are each told once, or not at all where the state says so.
pub proof fn law_told_once(steps: Seq<Step>)
    ensures
        tally(trace(steps), Kind::Created) == one_if(reached(steps).sent_response_created),
        tally(trace(steps), Kind::MessageAdded) == one_if(reached(steps).sent_item_added),
        tally(trace(steps), Kind::PartAdded) == one_if(reached(steps).sent_content_part_added),
        tally(trace(steps), Kind::PartDone) == one_if(reached(steps).text_item_finalized),
        tally(trace(steps), Kind::MessageDone) == one_if(reached(steps).text_item_finalized),
        tally(trace(steps), Kind::Completed) == one_if(reached(steps).completed),
{
    law_message_protocol(steps);
    lemma_tally(trace(steps));
}

/// The usage with which the answer was first said to be over, where it was.
pub open spec fn first_usage(steps: Seq<Step>) -> Option<JsonSpec>
    decreases steps.len(),
{
    if steps.len() == 0 {
        None
    } else {
        match first_usage(steps.drop_last()) {
            Some(usage) => Some(usage),
            None => match steps.last() {
                Step::Complete { usage, .. } => Some(usage),
                _ => None,
            },
        }
    }
}

/// All the text that steps bring before the answer is said to be over, in order.
pub open spec fn heard_text(steps: Seq<Step>) -> Seq<char>
    decreases steps.len(),
{
    if steps.len() == 0 {
        Seq::empty()
    } else {
        heard_text(steps.drop_last()) + (match steps.last() {
            Step::Text { text } => if first_usage(steps.drop_last()) is None {
                text
            } else {
                Seq::empty()
            },
            _ => Seq::empty(),
        })
    }
}

/// Where the answer was said to be over, it has a first time.
pub proof fn lemma_first_usage(steps: Seq<Step>)
    ensures
        first_usage(steps) is Some <==> exists|i: int|
            0 <= i < steps.len() && #[trigger] steps[i] is Complete,
    decreases steps.len(),
{
    if steps.len() > 0 {
        let before = steps.drop_last();
        lemma_first_usage(before);
        assert(steps.last() == steps[steps.len() - 1]);
        if exists|i: int| 0 <= i < before.len() && #[trigger] before[i] is Complete {
            let i = choose|i: int| 0 <= i < before.len() && #[trigger] before[i] is Complete;
            assert(steps[i] is Complete);
        }
        if exists|i: int| 0 <= i < steps.len() && #[trigger] steps[i] is Complete {
            let i = choose|i: int| 0 <= i < steps.len() && #[trigger] steps[i] is Complete;
            if i < before.len() {
                assert(before[i] is Complete);
            }
        }
    }
}

/// The answer is completed exactly where it was said to be over.
pub proof fn lemma_completed(steps: Seq<Step>)
    ensures
        reached(steps).completed <==> first_usage(steps) is Some,
    decreases steps.len(),
{
    if steps.len() > 0 {
        let before = steps.drop_last();
        lemma_completed(before);
        lemma_trace_step(before, steps.last());
        assert(before.push(steps.last()) =~= steps);
    }
}

/// The text of the answer is all the text that has been brought before the answer was said to be
/// over, in order, and the pieces of text that were sent are the same text.
pub proof fn law_all_text(steps: Seq<Step>)
    ensures
        reached(steps).agg.text_content == heard_text(steps),
        message_progress(trace(steps)).text == heard_text(steps),
    decreases steps.len(),
{
    law_message_protocol(steps);
    if steps.len() > 0 {
        let before = steps.drop_last();
        law_all_text(before);
        lemma_completed(before);
        lemma_trace_step(before, steps.last());
        assert(before.push(steps.last()) =~= steps);
        assert(reached(steps).agg.text_content =~= heard_text(steps));
    }
}

/// A chunk that arrives before the answer is said to be over begins the answer.
proof fn lemma_created(steps: Seq<Step>, i: int)
    requires
        0 <= i < steps.len(),
        steps[i] is Begin,
        first_usage(steps.take(i)) is None,
    ensures
        reached(steps).sent_response_created,
    decreases steps.len(),
{
    let before = steps.drop_last();
    lemma_trace_step(before, steps.last());
    assert(before.push(steps.last()) =~= steps);
    if i == steps.len() - 1 {
        assert(steps.take(i) =~= before);
        lemma_completed(before);
    } else {
        assert(before.take(i) =~= steps.take(i));
        assert(before[i] == steps[i]);
        lemma_created(before, i);
    }
}

/// Exactly one event tells that the answer has begun, however many chunks arrive, where one arrives
/// before the answer is said to be over.
pub proof fn law_created_once(steps: Seq<Step>, i: int)
    requires
        0 <= i < steps.len(),
        steps[i] is Begin,
        first_usage(steps.take(i)) is None,
    ensures
        tally(trace(steps), Kind::Created) == 1,
{
    law_told_once(steps);
    lemma_created(steps, i);
}

/// Exactly one event tells that the answer is completed, however often it is said to be over.
pub proof fn law_completed_once(steps: Seq<Step>)
    requires
        exists|i: int| 0 <= i < steps.len() && #[trigger] steps[i] is Complete,
    ensures
        tally(trace(steps), Kind::Completed) == 1,
{
    law_told_once(steps);
    lemma_completed(steps);
    lemma_first_usage(steps);
}

/// Where the first thing that happens is that a chunk arrives, the first event tells that the
/// answer has begun.
pub proof fn law_created_first(steps: Seq<Step>)
    requires
        steps.len() > 0,
        steps[0] is Begin,
    ensures
        trace(steps).len() > 0,
        trace(steps)[0] is Created,
    decreases steps.len(),
{
    let before = steps.drop_last();
    lemma_trace_step(before, steps.last());
    assert(before.push(steps.last()) =~= steps);
    if before.len() == 0 {
        assert(trace(before) =~= Seq::empty());
    } else {
        law_created_first(before);
    }
}

/// The first time that the answer is said to be over, the event that completes it comes last and
/// tells of all that has arrived; whatever happens after that sends nothing and changes nothing.
pub proof fn law_completed_last(
    before: Seq<Step>,
    usage: JsonSpec,
    fresh: Seq<char>,
    after: Seq<Step>,
)
    requires
        forall|i: int| 0 <= i < before.len() ==> !(#[trigger] before[i] is Complete),
    ensures
        ({
            let s = reached(before);
            let done = before.push(Step::Complete { usage, fresh });
            &&& trace(done + after) == trace(done)
            &&& reached(done + after) == reached(done)
            &&& trace(done).len() > 0
            &&& trace(done).last() == completed_event(
                or_empty(s.response_id),
                or_empty(s.model),
                s.agg,
                usage,
                fresh,
            )
        }),
    decreases after.len(),
{
    let st = Step::Complete { usage, fresh };
    let done = before.push(st);
    lemma_first_usage(before);
    lemma_completed(before);
    lemma_trace_step(before, st);
    if after.len() == 0 {
        assert(done + after =~= done);
    } else {
        let fewer = after.drop_last();
        law_completed_last(before, usage, fresh, fewer);
        assert(done + after =~= (done + fewer).push(after.last()));
        lemma_trace_step(done + fewer, after.last());
        assert(trace(done + after) =~= trace(done + fewer));
    }
}

/// Once the answer is said to be over, the last event completes it, with the usage that was told
/// the first time.
pub proof fn law_completed_usage(steps: Seq<Step>)
    requires
        first_usage(steps) is Some,
    ensures
        trace(steps).len() > 0,
        trace(steps).last() is Completed,
        trace(steps).last()->Completed_usage == JsonSpec::Object(
            token_counts(first_usage(steps)->0),
        ),
    decreases steps.len(),
{
    let before = steps.drop_last();
    lemma_completed(before);
    lemma_trace_step(before, steps.last());
    assert(before.push(steps.last()) =~= steps);
    if first_usage(before) is Some {
        law_completed_usage(before);
        assert(trace(steps) =~= trace(before));
    }
}

/// Once the answer is completed, a message that has begun has ended.
proof fn lemma_message_ended(steps: Seq<Step>)
    ensures
        reached(steps).completed ==> reached(steps).sent_item_added
            == reached(steps).text_item_finalized && reached(steps).sent_item_added
            == reached(steps).sent_content_part_added,
    decreases steps.len(),
{
    if steps.len() > 0 {
        let before = steps.drop_last();
        lemma_message_ended(before);
        law_message_protocol(before);
        lemma_trace_step(before, steps.last());
        assert(before.push(steps.last()) =~= steps);
    }
}

/// When the answer is completed, the message has ended where it has begun, and so has its text.
pub proof fn law_message_ends(steps: Seq<Step>)
    requires
        exists|i: int| 0 <= i < steps.len() && #[trigger] steps[i] is Complete,
    ensures
        tally(trace(steps), Kind::MessageDone) == tally(trace(steps), Kind::MessageAdded),
        tally(trace(steps), Kind::PartDone) == tally(trace(steps), Kind::PartAdded),
        tally(trace(steps), Kind::PartAdded) == tally(trace(steps), Kind::MessageAdded),
{
    law_told_once(steps);
    lemma_completed(steps);
    lemma_first_usage(steps);
    lemma_message_ended(steps);
}

/// The item of the message that an event tells of, where it tells of the message.
pub open spec fn message_item_of(e: Event) -> Option<Seq<char>> {
    match e {
        Event::MessageAdded { item_id } => Some(item_id),
        Event::PartAdded { item_id } => Some(item_id),
        Event::TextDelta { item_id, .. } => Some(item_id),
        Event::PartDone { item_id, .. } => Some(item_id),
        Event::MessageDone { item_id, .. } => Some(item_id),
        _ => None,
    }
}

/// Whether events that tell of the message tell of one item.
pub open spec fn one_item(events: Seq<Event>, item_id: Seq<char>) -> bool {
    forall|i: int|
        0 <= i < events.len() ==> message_item_of(#[trigger] events[i]) is None || message_item_of(
            events[i],
        ) == Some(item_id)
}

/// The ends of tool calls do not tell of the message.
proof fn lemma_ends_no_item(calls: Seq<CallSpec>, item_id: Seq<char>)
    ensures
        one_item(call_ends(calls), item_id),
    decreases calls.len(),
{
    if calls.len() > 0 {
        lemma_ends_no_item(calls.drop_last(), item_id);
        let fewer = call_ends(calls.drop_last());
        let all = call_ends(calls);
        assert forall|i: int| 0 <= i < all.len() implies message_item_of(#[trigger] all[i]) is None
            || message_item_of(all[i]) == Some(item_id) by {
            if i < fewer.len() {
                assert(all[i] == fewer[i]);
            } else {
                assert(all[i] == call_end(calls.last())[i - fewer.len()]);
            }
        }
    }
}

/// Where a chunk arrives first, all events that tell of the message tell of the item that it was
/// given then.
pub proof fn law_one_message_item(steps: Seq<Step>)
    requires
        steps.len() > 0,
        steps[0] is Begin,
    ensures
        reached(steps).msg_item_id == Some(steps[0]->Begin_fresh),
        one_item(trace(steps), steps[0]->Begin_fresh),
    decreases steps.len(),
{
    let before = steps.drop_last();
    let st = steps.last();
    let item_id = steps[0]->Begin_fresh;
    lemma_trace_step(before, st);
    assert(before.push(st) =~= steps);
    if before.len() == 0 {
        assert(trace(before) =~= Seq::empty());
    } else {
        law_one_message_item(before);
        let s = reached(before);
        let more = sent(s, st);
        lemma_ends_no_item(calls_in_order(s.agg.tool_calls), item_id);
        assert(one_item(more, item_id));
        let all = trace(steps);
        assert forall|i: int| 0 <= i < all.len() implies message_item_of(#[trigger] all[i]) is None
            || message_item_of(all[i]) == Some(item_id) by {
            if i < trace(before).len() {
                assert(all[i] == trace(before)[i]);
            } else {
                assert(all[i] == more[i - trace(before).len()]);
            }
        }
    }
}

/// Whether no piece of text comes after the text has ended.
pub open spec fn no_text_after_end(events: Seq<Event>) -> bool {
    forall|i: int, j: int|
        0 <= i < j < events.len() && #[trigger] events[i] is PartDone ==> !(
        #[trigger] events[j] is TextDelta)
}

/// Whether an event that ends the text or the message carries a text, where it is one.
pub open spec fn ends_with(e: Event, whole: Seq<char>) -> bool {
    match e {
        Event::PartDone { text, .. } => text == whole,
        Event::MessageDone { text, .. } => text == whole,
        _ => true,
    }
}

/// Whether all events that end the text or the message carry a text.
pub open spec fn all_end_with(events: Seq<Event>, whole: Seq<char>) -> bool {
    forall|i: int| 0 <= i < events.len() ==> ends_with(#[trigger] events[i], whole)
}

/// Whether a step brings text after the text has ended and before the answer is completed.
pub open spec fn late_text(s: StreamSpec, st: Step) -> bool {
    &&& s.text_item_finalized
    &&& !s.completed
    &&& brings_text(st)
}

/// Whether a step brings text.
pub open spec fn brings_text(st: Step) -> bool {
    match st {
        Step::Text { text } => text.len() > 0,
        _ => false,
    }
}

/// Where neither the text nor the message has ended, no event says that it has.
proof fn lemma_no_end(events: Seq<Event>)
    requires
        !message_progress(events).part_done,
        !message_progress(events).message_done,
    ensures
        forall|i: int|
            0 <= i < events.len() ==> !(#[trigger] events[i] is PartDone)
                && !(events[i] is MessageDone),
    decreases events.len(),
{
    if events.len() > 0 {
        lemma_no_end(events.drop_last());
        assert forall|i: int| 0 <= i < events.len() implies !(#[trigger] events[i] is PartDone)
            && !(events[i] is MessageDone) by {
            if i < events.len() - 1 {
                assert(events[i] == events.drop_last()[i]);
            } else {
                assert(events[i] == events.last());
            }
        }
    }
}

/// The ends of tool calls hold no piece of text, and do not end the text.
proof fn lemma_ends_no_text(calls: Seq<CallSpec>)
    ensures
        forall|i: int|
            0 <= i < call_ends(calls).len() ==> {
                let e = #[trigger] call_ends(calls)[i];
                e is ArgumentsDone || e is CallDone
            },
    decreases calls.len(),
{
    if calls.len() > 0 {
        lemma_ends_no_text(calls.drop_last());
        let fewer = call_ends(calls.drop_last());
        let all = call_ends(calls);
        assert forall|i: int| 0 <= i < all.len() implies #[trigger] all[i] is ArgumentsDone
            || all[i] is CallDone by {
            if i < fewer.len() {
                assert(all[i] == fewer[i]);
            } else {
                assert(all[i] == call_end(calls.last())[i - fewer.len()]);
            }
        }
    }
}

/// Whether events bring no text, and end the text only as a whole.
spec fn bring_none(events: Seq<Event>, whole: Seq<char>) -> bool {
    forall|i: int|
        0 <= i < events.len() ==> !(#[trigger] events[i] is TextDelta) && ends_with(
            events[i],
            whole,
        )
}

/// Events after events that bring no text.
proof fn lemma_bring_none_add(a: Seq<Event>, b: Seq<Event>, whole: Seq<char>)
    requires
        bring_none(a, whole),
        bring_none(b, whole),
    ensures
        bring_none(a + b, whole),
{
    let all = a + b;
    assert forall|i: int| 0 <= i < all.len() implies !(#[trigger] all[i] is TextDelta)
        && ends_with(all[i], whole) by {
        if i < a.len() {
            assert(all[i] == a[i]);
        } else {
            assert(all[i] == b[i - a.len()]);
        }
    }
}

/// A step that brings no text sends none, and ends the text only as a whole.
proof fn lemma_step_none(s: StreamSpec, st: Step)
    requires
        !brings_text(st),
    ensures
        bring_none(sent(s, st), s.agg.text_content),
        step(s, st).0.agg.text_content == s.agg.text_content,
{
    let whole = s.agg.text_content;
    if !s.completed {
        match st {
            Step::ToolCall { delta, fresh } => {
                let call = updated_call(found_call(s.agg.tool_calls, delta.index, fresh), delta);
                let piece = sent_piece(call, delta);
                let announced = if announces(call) {
                    announcement_events(s, call)
                } else {
                    Seq::empty()
                };
                let pieces = if piece.len() > 0 {
                    seq![Event::ArgumentsDelta { item_id: call.item_id, delta: piece }]
                } else {
                    Seq::empty()
                };
                lemma_bring_none_add(
                    open_message_end(s),
                    seq![
                        Event::CallAdded {
                            item_id: call.item_id,
                            call_id: call.id,
                            name: call.name,
                        },
                    ],
                    whole,
                );
                lemma_bring_none_add(announced, pieces, whole);
            },
            Step::Complete { usage, fresh } => {
                let t = with_part(s);
                let ends = call_ends(calls_in_order(s.agg.tool_calls));
                let last = seq![
                    completed_event(
                        or_empty(s.response_id),
                        or_empty(s.model),
                        s.agg,
                        usage,
                        fresh,
                    ),
                ];
                lemma_ends_no_text(calls_in_order(s.agg.tool_calls));
                lemma_bring_none_add(open_message_end(t), ends, whole);
                lemma_bring_none_add(open_message_end(t) + ends, last, whole);
                lemma_bring_none_add(part_events(s), open_message_end(t) + ends + last, whole);
            },
            _ => {},
        }
    }
}

/// Where no text comes late, no piece of text comes after the text has ended, and the events that
/// end the text and the message carry all the text of the answer.
pub proof fn law_done_text(steps: Seq<Step>)
    requires
        forall|k: int|
            0 <= k < steps.len() ==> !late_text(reached(steps.take(k)), #[trigger] steps[k]),
    ensures
        no_text_after_end(trace(steps)),
        all_end_with(trace(steps), reached(steps).agg.text_content),
    decreases steps.len(),
{
    if steps.len() == 0 {
        assert(trace(steps) =~= Seq::empty());
    } else {
        let before = steps.drop_last();
        let st = steps.last();
        let s = reached(before);
        let events = trace(before);
        lemma_trace_step(before, st);
        assert(before.push(st) =~= steps);
        assert forall|k: int| 0 <= k < before.len() implies !late_text(
            reached(before.take(k)),
            #[trigger] before[k],
        ) by {
            assert(before.take(k) =~= steps.take(k));
            assert(before[k] == steps[k]);
        }
        law_done_text(before);
        law_message_protocol(before);
        assert(steps.take(steps.len() - 1) =~= before);
        assert(!late_text(s, steps[steps.len() - 1]));
        if !brings_text(st) {
            lemma_step_none(s, st);
        }
        let more = sent(s, st);
        let all = events + more;
        let whole = reached(steps).agg.text_content;
        if brings_text(st) && !s.completed {
            lemma_no_end(events);
        }
        assert forall|i: int, j: int|
            0 <= i < j < all.len() && #[trigger] all[i] is PartDone implies !(
        #[trigger] all[j] is TextDelta) by {
            if j < events.len() {
                assert(events[i] == all[i] && events[j] == all[j]);
            } else {
                assert(all[j] == more[j - events.len()]);
                if i < events.len() {
                    assert(events[i] == all[i]);
                } else {
                    assert(all[i] == more[i - events.len()]);
                }
            }
        }
        assert forall|i: int| 0 <= i < all.len() implies ends_with(#[trigger] all[i], whole) by {
            if i < events.len() {
                assert(events[i] == all[i]);
                assert(ends_with(events[i], s.agg.text_content));
            } else {
                assert(all[i] == more[i - events.len()]);
            }
        }
    }
}

/// While the answer is not completed, its text has begun only where text was brought, and has ended
/// only where something was said of a tool call after that.
proof fn lemma_why_ended(steps: Seq<Step>)
    ensures
        !reached(steps).completed && reached(steps).sent_content_part_added ==> exists|i: int|
            0 <= i < steps.len() && #[trigger] brings_text(steps[i]),
        !reached(steps).completed && reached(steps).text_item_finalized ==> exists|i: int, j: int|
            0 <= i < j < steps.len() && #[trigger] brings_text(steps[i])
                && #[trigger] steps[j] is ToolCall,
    decreases steps.len(),
{
    if steps.len() > 0 {
        let before = steps.drop_last();
        let s = reached(before);
        lemma_why_ended(before);
        lemma_trace_step(before, steps.last());
        assert(before.push(steps.last()) =~= steps);
        let n = steps.len() - 1;
        assert(steps.last() == steps[n]);
        if !reached(steps).completed {
            if s.sent_content_part_added {
                let i = choose|i: int|
                    0 <= i < before.len() && #[trigger] brings_text(before[i]);
                assert(brings_text(steps[i]));
                if !s.text_item_finalized && reached(steps).text_item_finalized {
                    assert(steps[n] is ToolCall);
                }
            } else if reached(steps).sent_content_part_added {
                assert(brings_text(steps[n]));
            }
            if s.text_item_finalized {
                let (i, j) = choose|i: int, j: int|
                    0 <= i < j < before.len() && #[trigger] brings_text(before[i])
                        && #[trigger] before[j] is ToolCall;
                assert(brings_text(steps[i]) && steps[j] is ToolCall);
            }
        }
    }
}

/// Where no text arrives both before and after something is said of a tool call, no piece of text
/// comes after the text has ended, and the events that end the text and the message carry all the
/// text of the answer.
pub proof fn law_text_before_end(steps: Seq<Step>)
    requires
        forall|i: int, j: int, k: int|
            0 <= i < j < k < steps.len() && #[trigger] brings_text(steps[i])
                && #[trigger] steps[j] is ToolCall ==> !#[trigger] brings_text(steps[k]),
    ensures
        no_text_after_end(trace(steps)),
        all_end_with(trace(steps), reached(steps).agg.text_content),
{
    assert forall|k: int| 0 <= k < steps.len() implies !late_text(
        reached(steps.take(k)),
        #[trigger] steps[k],
    ) by {
        let before = steps.take(k);
        if late_text(reached(before), steps[k]) {
            lemma_why_ended(before);
            let (i, j) = choose|i: int, j: int|
                0 <= i < j < before.len() && #[trigger] brings_text(before[i])
                    && #[trigger] before[j] is ToolCall;
            assert(brings_text(steps[i]) && steps[j] is ToolCall);
            assert(brings_text(steps[k]));
        }
    }
    law_done_text(steps);
}

} // verus!
