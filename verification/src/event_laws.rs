//! What every event of a streamed answer tells, member by member.

use crate::calls::{calls_in_order, in_order, lemma_in_order, AggSpec, CallSpec};
use crate::events::{
    call_items, completed_event, completed_message, completed_output, event_data, event_name,
    message_end, Event,
};
use crate::json::JsonSpec;
use crate::json_laws::{lemma_names, only_keys};
use crate::response::finish_status;
use crate::response_laws::{
    counts, is_call, is_output_text, law_call_item, law_counts, law_output_text,
};
use crate::stream::{call_ends, completion_events, ended_agg};
use crate::value::integer;
use vstd::prelude::*;

verus! {

/// A finish reason stands for an incomplete answer exactly where it is the length.
pub proof fn law_finish_status(reason: Option<Seq<char>>)
    ensures
        finish_status(reason) == "incomplete"@ <==> reason == Some("length"@),
        finish_status(reason) == "incomplete"@ || finish_status(reason) == "completed"@,
        "incomplete"@ != "completed"@,
{
    lemma_names();
}

/// Whether a value is zero.
pub open spec fn is_zero(value: Option<JsonSpec>) -> bool {
    value == Some(JsonSpec::Number(integer(0)))
}

/// Whether a value is the given string.
pub open spec fn says(value: Option<JsonSpec>, text: Seq<char>) -> bool {
    value == Some(JsonSpec::Text(text))
}

/// The events that begin and complete the answer: each is named for what it tells, and holds the
/// answer as it stands.
pub proof fn law_answer_events(e: Event)
    ensures
        ({
            let data = event_data(e);
            let response = data.get("response"@)->0;
            match e {
                Event::Created { id, model } => {
                    &&& event_name(e) == "response.created"@
                    &&& only_keys(data, seq!["type"@, "response"@])
                    &&& says(data.get("type"@), "response.created"@)
                    &&& only_keys(response, seq!["id"@, "object"@, "model"@, "status"@, "output"@])
                    &&& says(response.get("id"@), id)
                    &&& says(response.get("object"@), "response"@)
                    &&& says(response.get("model"@), model)
                    &&& says(response.get("status"@), "in_progress"@)
                    &&& response.get("output"@) == Some(JsonSpec::Array(Seq::empty()))
                },
                Event::Completed { id, model, status, output, usage } => {
                    &&& event_name(e) == "response.completed"@
                    &&& only_keys(data, seq!["type"@, "response"@])
                    &&& says(data.get("type"@), "response.completed"@)
                    &&& only_keys(
                        response,
                        seq!["id"@, "object"@, "model"@, "status"@, "output"@, "usage"@],
                    )
                    &&& says(response.get("id"@), id)
                    &&& says(response.get("object"@), "response"@)
                    &&& says(response.get("model"@), model)
                    &&& says(response.get("status"@), status)
                    &&& response.get("output"@) == Some(JsonSpec::Array(output))
                    &&& response.get("usage"@) == Some(usage)
                },
                _ => true,
            }
        }),
{
    lemma_names();
    let outer = seq!["type"@, "response"@];
    assert(outer[0] == "type"@ && outer[1] == "response"@);
    let inner = seq!["id"@, "object"@, "model"@, "status"@, "output"@];
    assert(inner[0] == "id"@ && inner[1] == "object"@ && inner[2] == "model"@ && inner[3]
        == "status"@ && inner[4] == "output"@);
    let more = seq!["id"@, "object"@, "model"@, "status"@, "output"@, "usage"@];
    assert(more[0] == "id"@ && more[1] == "object"@ && more[2] == "model"@ && more[3] == "status"@
        && more[4] == "output"@ && more[5] == "usage"@);
}

/// Whether data tells of an item as a whole.
pub open spec fn tells_item(data: JsonSpec, name: Seq<char>) -> bool {
    &&& only_keys(data, seq!["type"@, "output_index"@, "item"@])
    &&& says(data.get("type"@), name)
    &&& is_zero(data.get("output_index"@))
    &&& data.get("item"@) is Some
}

/// Whether an item is a message with an identifier, a status and content.
pub open spec fn is_message_item(
    item: JsonSpec,
    item_id: Seq<char>,
    status: Seq<char>,
    content: Seq<JsonSpec>,
) -> bool {
    &&& only_keys(item, seq!["id"@, "type"@, "role"@, "status"@, "content"@])
    &&& says(item.get("id"@), item_id)
    &&& says(item.get("type"@), "message"@)
    &&& says(item.get("role"@), "assistant"@)
    &&& says(item.get("status"@), status)
    &&& item.get("content"@) == Some(JsonSpec::Array(content))
}

/// The events that begin and end the message and the function calls: each holds the item as it
/// stands.
pub proof fn law_item_events(e: Event)
    ensures
        ({
            let data = event_data(e);
            let item = data.get("item"@)->0;
            match e {
                Event::MessageAdded { item_id } => {
                    &&& event_name(e) == "response.output_item.added"@
                    &&& tells_item(data, "response.output_item.added"@)
                    &&& is_message_item(item, item_id, "in_progress"@, Seq::empty())
                },
                Event::MessageDone { item_id, text, status } => {
                    let content = item.get_array("content"@)->0;
                    &&& event_name(e) == "response.output_item.done"@
                    &&& tells_item(data, "response.output_item.done"@)
                    &&& is_message_item(item, item_id, status, content)
                    &&& content.len() == 1
                    &&& is_output_text(content[0], text)
                },
                Event::CallAdded { item_id, call_id, name } => {
                    &&& event_name(e) == "response.output_item.added"@
                    &&& tells_item(data, "response.output_item.added"@)
                    &&& only_keys(item, seq!["id"@, "type"@, "call_id"@, "name"@, "status"@])
                    &&& says(item.get("id"@), item_id)
                    &&& says(item.get("type"@), "function_call"@)
                    &&& says(item.get("call_id"@), call_id)
                    &&& says(item.get("name"@), name)
                    &&& says(item.get("status"@), "in_progress"@)
                },
                Event::CallDone { item_id, call_id, name, arguments } => {
                    &&& event_name(e) == "response.output_item.done"@
                    &&& tells_item(data, "response.output_item.done"@)
                    &&& only_keys(
                        item,
                        seq!["id"@, "type"@, "call_id"@, "name"@, "arguments"@, "status"@],
                    )
                    &&& says(item.get("id"@), item_id)
                    &&& says(item.get("type"@), "function_call"@)
                    &&& says(item.get("call_id"@), call_id)
                    &&& says(item.get("name"@), name)
                    &&& says(item.get("arguments"@), arguments)
                    &&& says(item.get("status"@), "completed"@)
                },
                _ => true,
            }
        }),
{
    lemma_names();
    let outer = seq!["type"@, "output_index"@, "item"@];
    assert(outer[0] == "type"@ && outer[1] == "output_index"@ && outer[2] == "item"@);
    let message = seq!["id"@, "type"@, "role"@, "status"@, "content"@];
    assert(message[0] == "id"@ && message[1] == "type"@ && message[2] == "role"@ && message[3]
        == "status"@ && message[4] == "content"@);
    let begun = seq!["id"@, "type"@, "call_id"@, "name"@, "status"@];
    assert(begun[0] == "id"@ && begun[1] == "type"@ && begun[2] == "call_id"@ && begun[3] == "name"@
        && begun[4] == "status"@);
    let done = seq!["id"@, "type"@, "call_id"@, "name"@, "arguments"@, "status"@];
    assert(done[0] == "id"@ && done[1] == "type"@ && done[2] == "call_id"@ && done[3] == "name"@
        && done[4] == "arguments"@ && done[5] == "status"@);
    if let Event::MessageDone { text, .. } = e {
        law_output_text(text);
    }
}

/// Whether data tells of the text of the message.
pub open spec fn tells_text(
    data: JsonSpec,
    name: Seq<char>,
    item_id: Seq<char>,
    key: Seq<char>,
) -> bool {
    &&& only_keys(data, seq!["type"@, "item_id"@, "output_index"@, "content_index"@, key])
    &&& says(data.get("type"@), name)
    &&& says(data.get("item_id"@), item_id)
    &&& is_zero(data.get("output_index"@))
    &&& is_zero(data.get("content_index"@))
    &&& data.get(key) is Some
}

/// The events of the text of the message: it begins empty, each piece is told as it is, and it ends
/// with all the text.
pub proof fn law_text_events(e: Event)
    ensures
        ({
            let data = event_data(e);
            match e {
                Event::PartAdded { item_id } => {
                    &&& event_name(e) == "response.content_part.added"@
                    &&& tells_text(data, "response.content_part.added"@, item_id, "part"@)
                    &&& is_output_text(data.get("part"@)->0, Seq::empty())
                },
                Event::TextDelta { item_id, delta } => {
                    &&& event_name(e) == "response.output_text.delta"@
                    &&& tells_text(data, "response.output_text.delta"@, item_id, "delta"@)
                    &&& says(data.get("delta"@), delta)
                },
                Event::PartDone { item_id, text } => {
                    &&& event_name(e) == "response.content_part.done"@
                    &&& tells_text(data, "response.content_part.done"@, item_id, "part"@)
                    &&& is_output_text(data.get("part"@)->0, text)
                },
                _ => true,
            }
        }),
{
    lemma_names();
    let part = seq!["type"@, "item_id"@, "output_index"@, "content_index"@, "part"@];
    assert(part[0] == "type"@ && part[1] == "item_id"@ && part[2] == "output_index"@ && part[3]
        == "content_index"@ && part[4] == "part"@);
    let delta = seq!["type"@, "item_id"@, "output_index"@, "content_index"@, "delta"@];
    assert(delta[0] == "type"@ && delta[1] == "item_id"@ && delta[2] == "output_index"@ && delta[3]
        == "content_index"@ && delta[4] == "delta"@);
    law_output_text(Seq::empty());
    if let Event::PartDone { text, .. } = e {
        law_output_text(text);
    }
}

/// The events of the arguments of a function call: each piece is told as it is, and they end with
/// all of them.
pub proof fn law_argument_events(e: Event)
    ensures
        ({
            let data = event_data(e);
            match e {
                Event::ArgumentsDelta { item_id, delta } => {
                    &&& event_name(e) == "response.function_call_arguments.delta"@
                    &&& only_keys(data, seq!["type"@, "item_id"@, "output_index"@, "delta"@])
                    &&& says(data.get("type"@), "response.function_call_arguments.delta"@)
                    &&& says(data.get("item_id"@), item_id)
                    &&& is_zero(data.get("output_index"@))
                    &&& says(data.get("delta"@), delta)
                },
                Event::ArgumentsDone { item_id, arguments } => {
                    &&& event_name(e) == "response.function_call_arguments.done"@
                    &&& only_keys(data, seq!["type"@, "item_id"@, "output_index"@, "arguments"@])
                    &&& says(data.get("type"@), "response.function_call_arguments.done"@)
                    &&& says(data.get("item_id"@), item_id)
                    &&& is_zero(data.get("output_index"@))
                    &&& says(data.get("arguments"@), arguments)
                },
                _ => true,
            }
        }),
{
    lemma_names();
    let delta = seq!["type"@, "item_id"@, "output_index"@, "delta"@];
    assert(delta[0] == "type"@ && delta[1] == "item_id"@ && delta[2] == "output_index"@ && delta[3]
        == "delta"@);
    let done = seq!["type"@, "item_id"@, "output_index"@, "arguments"@];
    assert(done[0] == "type"@ && done[1] == "item_id"@ && done[2] == "output_index"@ && done[3]
        == "arguments"@);
}

/// A set of indices in order has each of them once, and increases.
pub proof fn law_in_order(indices: Set<usize>)
    ensures
        forall|i: int, j: int|
            0 <= i < j < in_order(indices).len() ==> #[trigger] in_order(indices)[i]
                < #[trigger] in_order(indices)[j],
        forall|k: usize| #[trigger] in_order(indices).contains(k) <==> indices.contains(k),
{
    lemma_in_order(indices);
    let keys = in_order(indices);
    assert forall|k: usize| #[trigger] keys.contains(k) <==> indices.contains(k) by {
        assert(keys.to_set().contains(k) <==> indices.contains(k));
    }
}

/// The tool calls in order are all that there are, each once, by increasing index.
pub proof fn law_calls_in_order(calls: Map<usize, CallSpec>)
    ensures
        ({
            let keys = in_order(calls.dom());
            let list = calls_in_order(calls);
            &&& list.len() == keys.len()
            &&& forall|i: int| 0 <= i < list.len() ==> #[trigger] list[i] == calls[keys[i]]
            &&& forall|i: int, j: int|
                0 <= i < j < keys.len() ==> #[trigger] keys[i] < #[trigger] keys[j]
            &&& forall|k: usize| #[trigger] keys.contains(k) <==> calls.contains_key(k)
        }),
{
    let keys = in_order(calls.dom());
    lemma_in_order(calls.dom());
    assert forall|k: usize| #[trigger] keys.contains(k) <==> calls.contains_key(k) by {
        assert(keys.to_set().contains(k) <==> calls.dom().contains(k));
    }
}

/// Whether a value is the message in the output of a complete answer.
pub open spec fn is_completed_message(
    item: JsonSpec,
    item_id: Seq<char>,
    status: Seq<char>,
    text: Seq<char>,
) -> bool {
    let content = item.get_array("content"@)->0;
    &&& is_message_item(item, item_id, status, content)
    &&& content.len() == 1
    &&& is_output_text(content[0], text)
}

/// The message in the output of a complete answer holds its text.
proof fn lemma_completed_message(item_id: Seq<char>, status: Seq<char>, text: Seq<char>)
    ensures
        is_completed_message(completed_message(item_id, status, text), item_id, status, text),
{
    lemma_names();
    law_output_text(text);
    let message = seq!["id"@, "type"@, "role"@, "status"@, "content"@];
    assert(message[0] == "id"@ && message[1] == "type"@ && message[2] == "role"@ && message[3]
        == "status"@ && message[4] == "content"@);
}

/// The event that completes an answer tells its identifier and model, the status that its finish
/// reason stands for, the tokens, and all that has arrived: the text as a message, where there is
/// any or nothing else, and then each tool call with its identifier, name and arguments, by
/// increasing index.
pub proof fn law_completed_event(
    id: Seq<char>,
    model: Seq<char>,
    agg: AggSpec,
    usage: JsonSpec,
    item_id: Seq<char>,
)
    ensures
        ({
            let e = completed_event(id, model, agg, usage, item_id);
            let output = e->output;
            let keys = in_order(agg.tool_calls.dom());
            let calls = agg.tool_calls;
            let told = e->Completed_usage;
            let incomplete = agg.finish_reason == Some("length"@);
            let status = if incomplete { "incomplete"@ } else { "completed"@ };
            let has_message = agg.text_content.len() > 0 || keys.len() == 0;
            let first: int = if has_message { 1 } else { 0 };
            &&& e is Completed
            &&& e->Completed_id == id
            &&& e->Completed_model == model
            &&& e->Completed_status == status
            &&& only_keys(told, seq!["input_tokens"@, "output_tokens"@, "total_tokens"@])
            &&& counts(usage, "prompt_tokens"@, told.get("input_tokens"@))
            &&& counts(usage, "completion_tokens"@, told.get("output_tokens"@))
            &&& counts(usage, "total_tokens"@, told.get("total_tokens"@))
            &&& output.len() == first + keys.len()
            &&& has_message ==> is_completed_message(
                output[0],
                item_id,
                if keys.len() == 0 { status } else { "completed"@ },
                agg.text_content,
            )
            &&& forall|i: int|
                0 <= i < keys.len() ==> {
                    let call = calls[#[trigger] keys[i]];
                    is_call(output[first + i], call.id, call.name, call.arguments, "completed"@)
                }
        }),
{
    lemma_names();
    law_calls_in_order(agg.tool_calls);
    law_counts(usage);
    let calls = agg.tool_calls;
    let keys = in_order(calls.dom());
    let list = calls_in_order(calls);
    let status = finish_status(agg.finish_reason);
    lemma_completed_message(item_id, status, agg.text_content);
    lemma_completed_message(item_id, "completed"@, agg.text_content);
    assert(calls.is_empty() <==> keys.len() == 0) by {
        if keys.len() > 0 {
            assert(keys.contains(keys[0]));
            assert(calls.dom().contains(keys[0]));
        } else {
            assert forall|k: usize| !calls.dom().contains(k) by {
                assert(!keys.contains(k));
            }
            assert(calls.dom() =~= Set::empty());
        }
    }
    let output = completed_output(agg, item_id);
    let first: int = if agg.text_content.len() > 0 || keys.len() == 0 { 1 } else { 0 };
    assert forall|i: int| 0 <= i < keys.len() implies {
        let call = calls[#[trigger] keys[i]];
        is_call(output[first + i], call.id, call.name, call.arguments, "completed"@)
    } by {
        let call = calls[keys[i]];
        assert(list[i] == call);
        assert(output[first + i] == call_items(list)[i]);
        law_call_item(call.id, call.name, call.arguments, "completed"@);
    }
}

/// The end of the message is told in two events, of its text and of itself, each with all the text,
/// the latter with the status that the finish reason stands for.
pub proof fn law_message_end(item_id: Seq<char>, text: Seq<char>, reason: Option<Seq<char>>)
    ensures
        ({
            let events = message_end(item_id, text, reason);
            let status = if reason == Some("length"@) { "incomplete"@ } else { "completed"@ };
            &&& events.len() == 2
            &&& events[0] == (Event::PartDone { item_id, text })
            &&& events[1] == (Event::MessageDone { item_id, text, status })
        }),
{
}

/// The events that end the tool calls under given indices: of each that was announced and has not
/// ended, the end of its arguments and then its own.
pub open spec fn end_events(calls: Map<usize, CallSpec>, keys: Seq<usize>) -> Seq<Event>
    decreases keys.len(),
{
    if keys.len() == 0 {
        Seq::empty()
    } else {
        let before = end_events(calls, keys.drop_last());
        let call = calls[keys.last()];
        if call.sent_item_added && !call.sent_arguments_done {
            before.push(
                Event::ArgumentsDone { item_id: call.item_id, arguments: call.arguments },
            ).push(
                Event::CallDone {
                    item_id: call.item_id,
                    call_id: call.id,
                    name: call.name,
                    arguments: call.arguments,
                },
            )
        } else {
            before
        }
    }
}

/// The ends of tool calls that are listed under their indices.
pub proof fn lemma_end_events(calls: Map<usize, CallSpec>, keys: Seq<usize>)
    ensures
        call_ends(keys.map_values(|k: usize| calls[k])) == end_events(calls, keys),
    decreases keys.len(),
{
    let list = keys.map_values(|k: usize| calls[k]);
    if keys.len() > 0 {
        lemma_end_events(calls, keys.drop_last());
        assert(list.drop_last() =~= keys.drop_last().map_values(|k: usize| calls[k]));
        assert(call_ends(list) =~= end_events(calls, keys));
    }
}

/// The end of an answer is told in this order: the message where its text is open, each tool call
/// that was announced and has not ended, by increasing index, and the answer itself. After that
/// each tool call that was announced counts as ended, and nothing else has changed.
pub proof fn law_completion(
    agg: AggSpec,
    text_is_open: bool,
    msg_item_id: Seq<char>,
    response_id: Seq<char>,
    model: Seq<char>,
    usage: JsonSpec,
    fresh: Seq<char>,
)
    ensures
        ({
            let events = completion_events(
                agg,
                text_is_open,
                msg_item_id,
                response_id,
                model,
                usage,
                fresh,
            );
            let ends = end_events(agg.tool_calls, in_order(agg.tool_calls.dom()));
            let first: int = if text_is_open { 2 } else { 0 };
            &&& events.len() == first + ends.len() + 1
            &&& text_is_open ==> events.take(2) == message_end(
                msg_item_id,
                agg.text_content,
                agg.finish_reason,
            )
            &&& events.subrange(first, first + ends.len()) == ends
            &&& events.last() == completed_event(response_id, model, agg, usage, fresh)
        }),
        ended_agg(agg).text_content == agg.text_content,
        ended_agg(agg).finish_reason == agg.finish_reason,
        forall|k: usize| #[trigger]
            ended_agg(agg).tool_calls.contains_key(k) <==> agg.tool_calls.contains_key(k),
        forall|k: usize| #[trigger]
            ended_agg(agg).tool_calls.contains_key(k) ==> {
                let before = agg.tool_calls[k];
                ended_agg(agg).tool_calls[k] == (CallSpec {
                    sent_arguments_done: before.sent_arguments_done || before.sent_item_added,
                    ..before
                })
            },
{
    let calls = agg.tool_calls;
    let keys = in_order(calls.dom());
    lemma_end_events(calls, keys);
    let ends = end_events(calls, keys);
    let events = completion_events(
        agg,
        text_is_open,
        msg_item_id,
        response_id,
        model,
        usage,
        fresh,
    );
    let first: int = if text_is_open { 2 } else { 0 };
    assert(calls_in_order(calls) =~= keys.map_values(|k: usize| calls[k]));
    assert(events.subrange(first, first + ends.len()) =~= ends);
    if text_is_open {
        assert(events.take(2) =~= message_end(msg_item_id, agg.text_content, agg.finish_reason));
    }
}

} // verus!
