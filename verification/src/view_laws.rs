//! What the models of the library's types say of their values.

use crate::calls::{ChunkAgg, ToolCallStreamState};
use crate::json::{items_model, json_model, lemma_items_model, Json, JsonSpec};
use crate::sse::{payloads_model, Payload, PayloadSpec};
use crate::stream::{
    Arrival, ArrivalSpec, ChatChunk, ChatToolCallDelta, ChunkChoice, ResponsesStream,
};
use vstd::prelude::*;

verus! {

/// Whether a string that may be missing has the given characters, or is missing as they are.
pub open spec fn same_text(s: Option<String>, model: Option<Seq<char>>) -> bool {
    match s {
        Some(s) => model == Some(s@),
        None => model is None,
    }
}

/// What a chunk says of a tool call: its index, and what it gives of the identifier, the name and
/// the arguments.
pub proof fn law_delta_view(delta: ChatToolCallDelta)
    ensures
        delta@.index == delta.index,
        same_text(delta.id, delta@.id),
        delta.function is Some ==> same_text(delta.function->0.name, delta@.name) && same_text(
            delta.function->0.arguments,
            delta@.arguments,
        ),
        delta.function is None ==> delta@.name is None && delta@.arguments is None,
{
}

/// What a choice says: each of its tool calls in order, its content, its role and its finish
/// reason.
pub proof fn law_choice_view(choice: ChunkChoice)
    ensures
        same_text(choice.delta.content, choice@.content),
        same_text(choice.delta.role, choice@.role),
        same_text(choice.finish_reason, choice@.finish_reason),
        choice.delta.tool_calls is None ==> choice@.tool_calls.len() == 0,
        choice.delta.tool_calls is Some ==> {
            let calls = choice.delta.tool_calls->0@;
            &&& choice@.tool_calls.len() == calls.len()
            &&& forall|i: int|
                0 <= i < calls.len() ==> #[trigger] choice@.tool_calls[i] == calls[i]@
        },
{
}

/// What a chunk says: its identifier, its model, each of its choices in order, and its usage.
pub proof fn law_chunk_view(chunk: ChatChunk)
    ensures
        chunk@.id == chunk.id@,
        chunk@.model == chunk.model@,
        chunk@.choices.len() == chunk.choices@.len(),
        forall|i: int|
            0 <= i < chunk.choices@.len() ==> #[trigger] chunk@.choices[i] == chunk.choices@[i]@,
        chunk.usage is Some ==> chunk@.usage == Some(chunk.usage->0@),
        chunk.usage is None ==> chunk@.usage is None,
{
}

/// What arrives: a chunk, something that cannot be read, or the end.
pub proof fn law_arrival_view(arrival: Arrival)
    ensures
        arrival is Chunk ==> arrival@ == ArrivalSpec::Chunk(arrival->Chunk_0@),
        arrival is Unreadable ==> arrival@ == ArrivalSpec::Unreadable,
        arrival is Done ==> arrival@ == ArrivalSpec::Done,
{
}

/// What has arrived of a tool call, and what has been sent of it.
pub proof fn law_call_view(call: ToolCallStreamState)
    ensures
        call@.id == call.id@,
        call@.name == call.name@,
        call@.item_id == call.item_id@,
        call@.arguments == call.arguments@,
        call@.sent_item_added == call.sent_item_added,
        call@.sent_arguments_done == call.sent_arguments_done,
{
}

/// What has arrived of an answer: its text, its tool calls under their indices, and its finish
/// reason.
pub proof fn law_agg_view(agg: ChunkAgg)
    ensures
        agg@.text_content == agg.text_content@,
        same_text(agg.finish_reason, agg@.finish_reason),
        forall|k: usize| #[trigger]
            agg@.tool_calls.contains_key(k) <==> agg.tool_calls@.contains_key(k),
        forall|k: usize| #[trigger]
            agg@.tool_calls.contains_key(k) ==> agg@.tool_calls[k] == agg.tool_calls@[k]@,
{
}

/// How far the conversion of an answer has come.
pub proof fn law_stream_view(stream: ResponsesStream)
    ensures
        same_text(stream.response_id, stream@.response_id),
        same_text(stream.model, stream@.model),
        same_text(stream.msg_item_id, stream@.msg_item_id),
        stream@.agg == stream.agg@,
        stream@.sent_response_created == stream.sent_response_created,
        stream@.sent_item_added == stream.sent_item_added,
        stream@.sent_content_part_added == stream.sent_content_part_added,
        stream@.text_item_finalized == stream.text_item_finalized,
        stream@.completed == stream.completed,
{
}

/// What events carry, one for one.
pub proof fn law_payload_view(payloads: Seq<Payload>)
    ensures
        payloads_model(payloads).len() == payloads.len(),
        forall|i: int|
            0 <= i < payloads.len() ==> (#[trigger] payloads_model(payloads)[i] == (
            match payloads[i] {
                Payload::Done => PayloadSpec::Done,
                Payload::Chunk(text) => PayloadSpec::Chunk(text@),
            })),
{
}

/// A JSON value is what its variant holds, and a list holds its values in order.
pub proof fn law_json_view(j: Json)
    ensures
        j@ == json_model(j),
        j is Null <==> j@ is Null,
        j is Bool ==> j@ == JsonSpec::Bool(j->Bool_0),
        j is Number ==> j@ == JsonSpec::Number(j->Number_0),
        j is Text ==> j@ == JsonSpec::Text(j->Text_0@),
        j is Array ==> {
            &&& j@ == JsonSpec::Array(items_model(j->Array_0@))
            &&& items_model(j->Array_0@).len() == j->Array_0@.len()
            &&& forall|i: int|
                0 <= i < j->Array_0@.len() ==> #[trigger] items_model(j->Array_0@)[i]
                    == j->Array_0@[i]@
        },
        j is Object ==> j@ == JsonSpec::Object(j->Object_0@),
{
    if let Json::Array(items) = j {
        lemma_items_model(items@);
    }
}

} // verus!
