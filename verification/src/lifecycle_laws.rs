//! The whole course of an answer of text, and of an answer of one function call.

use crate::calls::{
    calls_in_order, in_order, lemma_in_order, lemma_one_order, lists_in_order, new_call, AggSpec,
    CallSpec,
};
use crate::events::{completed_event, Event};
use crate::json::JsonSpec;
use crate::response::finish_status;
use crate::stream::{
    call_end, call_ends, initial, or_empty, step, Step, StreamSpec, ToolDeltaSpec,
};
use crate::stream_laws::{lemma_trace_step, reached, sent, trace};
use vstd::prelude::*;

verus! {

/// The arrival of a first chunk, and then pieces of text.
pub open spec fn text_steps(
    id: Seq<char>,
    model: Seq<char>,
    item_id: Seq<char>,
    pieces: Seq<Seq<char>>,
) -> Seq<Step> {
    seq![Step::Begin { id, model, fresh: item_id }] + pieces.map_values(
        |text: Seq<char>| Step::Text { text },
    )
}

/// The events that bring pieces of text.
pub open spec fn text_events(item_id: Seq<char>, pieces: Seq<Seq<char>>) -> Seq<Event> {
    pieces.map_values(|delta: Seq<char>| Event::TextDelta { item_id, delta })
}

/// What the first chunk does.
proof fn lemma_begun(id: Seq<char>, model: Seq<char>, item_id: Seq<char>)
    ensures
        ({
            let steps = seq![Step::Begin { id, model, fresh: item_id }];
            let s = reached(steps);
            &&& trace(steps) == seq![Event::Created { id, model }]
            &&& or_empty(s.response_id) == id
            &&& or_empty(s.model) == model
            &&& s == (StreamSpec {
                response_id: s.response_id,
                model: s.model,
                msg_item_id: Some(item_id),
                sent_response_created: true,
                ..initial()
            })
        }),
{
    let st = Step::Begin { id, model, fresh: item_id };
    let none = Seq::<Step>::empty();
    lemma_trace_step(none, st);
    assert(none.push(st) =~= seq![st]);
    assert(trace(none) =~= Seq::empty());
    let s = step(initial(), st).0;
    assert(or_empty(s.response_id) =~= id);
    assert(or_empty(s.model) =~= model);
    assert(trace(seq![st]) =~= seq![Event::Created { id, model }]);
}

/// What pieces of text do.
proof fn lemma_text_pieces(
    id: Seq<char>,
    model: Seq<char>,
    item_id: Seq<char>,
    pieces: Seq<Seq<char>>,
)
    requires
        pieces.len() > 0,
        forall|i: int| 0 <= i < pieces.len() ==> (#[trigger] pieces[i]).len() > 0,
    ensures
        ({
            let steps = text_steps(id, model, item_id, pieces);
            let s = reached(steps);
            &&& trace(steps) == seq![
                Event::Created { id, model },
                Event::MessageAdded { item_id },
                Event::PartAdded { item_id },
            ] + text_events(item_id, pieces)
            &&& or_empty(s.response_id) == id
            &&& or_empty(s.model) == model
            &&& s == (StreamSpec {
                response_id: s.response_id,
                model: s.model,
                msg_item_id: Some(item_id),
                agg: AggSpec { text_content: pieces.flatten(), ..initial().agg },
                sent_response_created: true,
                sent_item_added: true,
                sent_content_part_added: true,
                ..initial()
            })
        }),
    decreases pieces.len(),
{
    let fewer = pieces.drop_last();
    let text = pieces.last();
    let st = Step::Text { text };
    let steps = text_steps(id, model, item_id, pieces);
    let before = text_steps(id, model, item_id, fewer);
    assert(steps =~= before.push(st));
    lemma_trace_step(before, st);
    assert(pieces =~= fewer.push(text));
    fewer.lemma_flatten_push(text);
    assert(text == pieces[pieces.len() - 1]);
    let s = reached(before);
    if fewer.len() == 0 {
        lemma_begun(id, model, item_id);
        assert(before =~= seq![Step::Begin { id, model, fresh: item_id }]);
        assert(s.agg.text_content + text =~= fewer.flatten() + text);
    } else {
        assert forall|i: int| 0 <= i < fewer.len() implies (#[trigger] fewer[i]).len() > 0 by {
            assert(fewer[i] == pieces[i]);
        }
        lemma_text_pieces(id, model, item_id, fewer);
    }
    assert(trace(steps) =~= seq![
        Event::Created { id, model },
        Event::MessageAdded { item_id },
        Event::PartAdded { item_id },
    ] + text_events(item_id, pieces));
    assert(reached(steps).agg.text_content =~= pieces.flatten());
}

/// An answer of text: the answer begins, the message, its text; the pieces of text follow; the text
/// ends, the message, and the answer, each with all the text and with the status that the finish
/// reason stands for.
pub proof fn law_text_answer(
    id: Seq<char>,
    model: Seq<char>,
    item_id: Seq<char>,
    pieces: Seq<Seq<char>>,
    reason: Seq<char>,
    usage: JsonSpec,
    fresh: Seq<char>,
)
    requires
        pieces.len() > 0,
        forall|i: int| 0 <= i < pieces.len() ==> (#[trigger] pieces[i]).len() > 0,
    ensures
        ({
            let text = pieces.flatten();
            let agg = AggSpec {
                text_content: text,
                tool_calls: Map::empty(),
                finish_reason: Some(reason),
            };
            trace(
                text_steps(id, model, item_id, pieces).push(Step::Finish { reason }).push(
                    Step::Complete { usage, fresh },
                ),
            ) == seq![
                Event::Created { id, model },
                Event::MessageAdded { item_id },
                Event::PartAdded { item_id },
            ] + text_events(item_id, pieces) + seq![
                Event::PartDone { item_id, text },
                Event::MessageDone { item_id, text, status: finish_status(Some(reason)) },
                completed_event(id, model, agg, usage, fresh),
            ]
        }),
{
    let steps = text_steps(id, model, item_id, pieces);
    let finish = Step::Finish { reason };
    let done = Step::Complete { usage, fresh };
    let agg = AggSpec {
        text_content: pieces.flatten(),
        tool_calls: Map::empty(),
        finish_reason: Some(reason),
    };
    lemma_text_pieces(id, model, item_id, pieces);
    lemma_trace_step(steps, finish);
    lemma_trace_step(steps.push(finish), done);
    let s = reached(steps.push(finish));
    assert(s.agg == agg);
    lemma_in_order(s.agg.tool_calls.dom());
    let keys = in_order(s.agg.tool_calls.dom());
    if keys.len() > 0 {
        assert(keys.contains(keys[0]));
        assert(keys.to_set().contains(keys[0]));
    }
    assert(call_ends(calls_in_order(s.agg.tool_calls)) =~= Seq::empty());
    assert(sent(s, done) =~= seq![
        Event::PartDone { item_id, text: pieces.flatten() },
        Event::MessageDone {
            item_id,
            text: pieces.flatten(),
            status: finish_status(Some(reason)),
        },
        completed_event(id, model, agg, usage, fresh),
    ]);
    assert(sent(reached(steps), finish) =~= Seq::empty());
    assert(trace(steps) + Seq::<Event>::empty() =~= trace(steps));
}

/// The arrival of a first chunk, the first word on a tool call, and then pieces of its arguments.
pub open spec fn call_steps(
    id: Seq<char>,
    model: Seq<char>,
    msg_item_id: Seq<char>,
    index: usize,
    call: CallSpec,
    pieces: Seq<Seq<char>>,
) -> Seq<Step> {
    seq![
        Step::Begin { id, model, fresh: msg_item_id },
        Step::ToolCall {
            delta: ToolDeltaSpec {
                index,
                id: Some(call.id),
                name: Some(call.name),
                arguments: None,
            },
            fresh: call.item_id,
        },
    ] + pieces.map_values(
        |piece: Seq<char>|
            Step::ToolCall {
                delta: ToolDeltaSpec { index, id: None, name: None, arguments: Some(piece) },
                fresh: call.item_id,
            },
    )
}

/// The events that bring pieces of arguments.
pub open spec fn argument_events(item_id: Seq<char>, pieces: Seq<Seq<char>>) -> Seq<Event> {
    pieces.map_values(|delta: Seq<char>| Event::ArgumentsDelta { item_id, delta })
}

/// What the first word on a tool call and pieces of its arguments do.
proof fn lemma_argument_pieces(
    id: Seq<char>,
    model: Seq<char>,
    msg_item_id: Seq<char>,
    index: usize,
    call: CallSpec,
    pieces: Seq<Seq<char>>,
)
    requires
        call.id.len() > 0,
        call.name.len() > 0,
        call.arguments == pieces.flatten(),
        call.sent_item_added,
        !call.sent_arguments_done,
        forall|i: int| 0 <= i < pieces.len() ==> (#[trigger] pieces[i]).len() > 0,
    ensures
        ({
            let steps = call_steps(id, model, msg_item_id, index, call, pieces);
            let s = reached(steps);
            &&& trace(steps) == seq![
                Event::Created { id, model },
                Event::CallAdded { item_id: call.item_id, call_id: call.id, name: call.name },
            ] + argument_events(call.item_id, pieces)
            &&& or_empty(s.response_id) == id
            &&& or_empty(s.model) == model
            &&& s == (StreamSpec {
                response_id: s.response_id,
                model: s.model,
                msg_item_id: Some(msg_item_id),
                agg: AggSpec { tool_calls: map![index => call], ..initial().agg },
                sent_response_created: true,
                ..initial()
            })
        }),
    decreases pieces.len(),
{
    let steps = call_steps(id, model, msg_item_id, index, call, pieces);
    let begin = Step::Begin { id, model, fresh: msg_item_id };
    let events = seq![
        Event::Created { id, model },
        Event::CallAdded { item_id: call.item_id, call_id: call.id, name: call.name },
    ] + argument_events(call.item_id, pieces);
    if pieces.len() == 0 {
        let delta = ToolDeltaSpec {
            index,
            id: Some(call.id),
            name: Some(call.name),
            arguments: None,
        };
        let word = Step::ToolCall { delta, fresh: call.item_id };
        lemma_begun(id, model, msg_item_id);
        assert(steps =~= seq![begin].push(word));
        lemma_trace_step(seq![begin], word);
        assert(call.arguments =~= new_call(call.item_id).arguments + or_empty(None));
        assert(reached(steps).agg.tool_calls =~= map![index => call]);
        assert(trace(steps) =~= events);
    } else {
        let fewer = pieces.drop_last();
        let piece = pieces.last();
        let known = CallSpec { arguments: fewer.flatten(), ..call };
        let delta = ToolDeltaSpec { index, id: None, name: None, arguments: Some(piece) };
        let word = Step::ToolCall { delta, fresh: call.item_id };
        let before = call_steps(id, model, msg_item_id, index, known, fewer);
        assert forall|i: int| 0 <= i < fewer.len() implies (#[trigger] fewer[i]).len() > 0 by {
            assert(fewer[i] == pieces[i]);
        }
        lemma_argument_pieces(id, model, msg_item_id, index, known, fewer);
        assert(steps =~= before.push(word));
        lemma_trace_step(before, word);
        assert(pieces =~= fewer.push(piece));
        fewer.lemma_flatten_push(piece);
        assert(piece == pieces[pieces.len() - 1]);
        assert(known.arguments + piece =~= call.arguments);
        assert(reached(steps).agg.tool_calls =~= map![index => call]);
        assert(trace(steps) =~= events);
    }
}

/// The only tool call in a map, in order.
proof fn lemma_one_call(index: usize, call: CallSpec)
    ensures
        calls_in_order(map![index => call]) == seq![call],
{
    let calls = map![index => call];
    let keys = seq![index];
    lemma_in_order(calls.dom());
    assert(keys.to_set() =~= calls.dom()) by {
        assert(keys[0] == index);
        assert(keys.contains(index));
    }
    assert(lists_in_order(keys, calls.dom()));
    lemma_one_order(keys, in_order(calls.dom()), calls.dom());
    assert(calls_in_order(calls) =~= seq![call]);
}

/// An answer of one function call: the answer begins, and the call; the pieces of its arguments
/// follow; the arguments end, the call, and the answer, each with all the arguments.
pub proof fn law_call_answer(
    id: Seq<char>,
    model: Seq<char>,
    msg_item_id: Seq<char>,
    index: usize,
    call: CallSpec,
    pieces: Seq<Seq<char>>,
    usage: JsonSpec,
    fresh: Seq<char>,
)
    requires
        call.id.len() > 0,
        call.name.len() > 0,
        call.arguments == pieces.flatten(),
        call.sent_item_added,
        !call.sent_arguments_done,
        forall|i: int| 0 <= i < pieces.len() ==> (#[trigger] pieces[i]).len() > 0,
    ensures
        ({
            let item_id = call.item_id;
            let agg = AggSpec {
                text_content: Seq::empty(),
                tool_calls: map![index => call],
                finish_reason: None,
            };
            trace(
                call_steps(id, model, msg_item_id, index, call, pieces).push(
                    Step::Complete { usage, fresh },
                ),
            ) == seq![
                Event::Created { id, model },
                Event::CallAdded { item_id, call_id: call.id, name: call.name },
            ] + argument_events(item_id, pieces) + seq![
                Event::ArgumentsDone { item_id, arguments: call.arguments },
                Event::CallDone {
                    item_id,
                    call_id: call.id,
                    name: call.name,
                    arguments: call.arguments,
                },
                completed_event(id, model, agg, usage, fresh),
            ]
        }),
{
    let steps = call_steps(id, model, msg_item_id, index, call, pieces);
    let done = Step::Complete { usage, fresh };
    lemma_argument_pieces(id, model, msg_item_id, index, call, pieces);
    lemma_trace_step(steps, done);
    lemma_one_call(index, call);
    let s = reached(steps);
    reveal_with_fuel(call_ends, 2);
    assert(seq![call].drop_last() =~= Seq::empty());
    assert(call_ends(seq![call]) =~= call_end(call));
    assert(sent(s, done) =~= call_end(call) + seq![
        completed_event(id, model, s.agg, usage, fresh),
    ]);
    assert(trace(steps) + sent(s, done) =~= trace(steps) + call_end(call) + seq![
        completed_event(id, model, s.agg, usage, fresh),
    ]);
}

} // verus!
