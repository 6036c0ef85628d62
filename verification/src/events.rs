//! The events of a streamed answer of the Responses API.

use crate::calls::{calls_in_order, in_order, indices, AggSpec, CallSpec, ChunkAgg};
use crate::ids::{is_item_id, new_uuid_id};
use crate::json::{items_model, Json, JsonSpec, Object};
use crate::response::{
    build_call_item, build_output_text, build_token_counts, call_item, finish_status, output_text,
    single, status_of, token_counts,
};
use crate::value::{in_braces, integer, is_plain, json_text, on_one_line, parsed};
use vstd::prelude::*;
use vstd::string::StringExecFns;

verus! {

/// An event of a streamed answer.
#[verifier::ext_equal]
pub enum Event {
    /// The answer has begun.
    Created { id: Seq<char>, model: Seq<char> },
    /// The message of the answer has begun.
    MessageAdded { item_id: Seq<char> },
    /// The text of the message has begun.
    PartAdded { item_id: Seq<char> },
    /// A piece of text.
    TextDelta { item_id: Seq<char>, delta: Seq<char> },
    /// The text of the message is complete.
    PartDone { item_id: Seq<char>, text: Seq<char> },
    /// The message is complete.
    MessageDone { item_id: Seq<char>, text: Seq<char>, status: Seq<char> },
    /// A function call has begun.
    CallAdded { item_id: Seq<char>, call_id: Seq<char>, name: Seq<char> },
    /// A piece of the arguments of a function call.
    ArgumentsDelta { item_id: Seq<char>, delta: Seq<char> },
    /// The arguments of a function call are complete.
    ArgumentsDone { item_id: Seq<char>, arguments: Seq<char> },
    /// A function call is complete.
    CallDone { item_id: Seq<char>, call_id: Seq<char>, name: Seq<char>, arguments: Seq<char> },
    /// The answer is complete.
    Completed {
        id: Seq<char>,
        model: Seq<char>,
        status: Seq<char>,
        output: Seq<JsonSpec>,
        usage: JsonSpec,
    },
}

/// The name of an event.
pub open spec fn event_name(e: Event) -> Seq<char> {
    match e {
        Event::Created { .. } => "response.created"@,
        Event::MessageAdded { .. } => "response.output_item.added"@,
        Event::PartAdded { .. } => "response.content_part.added"@,
        Event::TextDelta { .. } => "response.output_text.delta"@,
        Event::PartDone { .. } => "response.content_part.done"@,
        Event::MessageDone { .. } => "response.output_item.done"@,
        Event::CallAdded { .. } => "response.output_item.added"@,
        Event::ArgumentsDelta { .. } => "response.function_call_arguments.delta"@,
        Event::ArgumentsDone { .. } => "response.function_call_arguments.done"@,
        Event::CallDone { .. } => "response.output_item.done"@,
        Event::Completed { .. } => "response.completed"@,
    }
}

/// The data of an event that concerns an item as a whole.
pub open spec fn item_event(name: Seq<char>, item: JsonSpec) -> JsonSpec {
    JsonSpec::Object(
        map![
            "type"@ => JsonSpec::Text(name),
            "output_index"@ => JsonSpec::Number(integer(0)),
            "item"@ => item,
        ],
    )
}

/// The data of an event that concerns the text of the message.
pub open spec fn text_event(
    name: Seq<char>,
    item_id: Seq<char>,
    key: Seq<char>,
    value: JsonSpec,
) -> JsonSpec {
    JsonSpec::Object(
        map![
            "type"@ => JsonSpec::Text(name),
            "item_id"@ => JsonSpec::Text(item_id),
            "output_index"@ => JsonSpec::Number(integer(0)),
            "content_index"@ => JsonSpec::Number(integer(0)),
            key => value,
        ],
    )
}

/// The data of an event that concerns the arguments of a function call.
pub open spec fn arguments_event(
    name: Seq<char>,
    item_id: Seq<char>,
    key: Seq<char>,
    value: Seq<char>,
) -> JsonSpec {
    JsonSpec::Object(
        map![
            "type"@ => JsonSpec::Text(name),
            "item_id"@ => JsonSpec::Text(item_id),
            "output_index"@ => JsonSpec::Number(integer(0)),
            key => JsonSpec::Text(value),
        ],
    )
}

/// The message of the answer, as events show it.
pub open spec fn message_object(
    item_id: Seq<char>,
    status: Seq<char>,
    content: Seq<JsonSpec>,
) -> JsonSpec {
    JsonSpec::Object(
        map![
            "id"@ => JsonSpec::Text(item_id),
            "type"@ => JsonSpec::Text("message"@),
            "role"@ => JsonSpec::Text("assistant"@),
            "status"@ => JsonSpec::Text(status),
            "content"@ => JsonSpec::Array(content),
        ],
    )
}

/// A function call that has begun, as events show it.
pub open spec fn begun_call(item_id: Seq<char>, call_id: Seq<char>, name: Seq<char>) -> JsonSpec {
    JsonSpec::Object(
        map![
            "id"@ => JsonSpec::Text(item_id),
            "type"@ => JsonSpec::Text("function_call"@),
            "call_id"@ => JsonSpec::Text(call_id),
            "name"@ => JsonSpec::Text(name),
            "status"@ => JsonSpec::Text("in_progress"@),
        ],
    )
}

/// A function call that is complete, as events show it.
pub open spec fn done_call(
    item_id: Seq<char>,
    call_id: Seq<char>,
    name: Seq<char>,
    arguments: Seq<char>,
) -> JsonSpec {
    JsonSpec::Object(
        map![
            "id"@ => JsonSpec::Text(item_id),
            "type"@ => JsonSpec::Text("function_call"@),
            "call_id"@ => JsonSpec::Text(call_id),
            "name"@ => JsonSpec::Text(name),
            "arguments"@ => JsonSpec::Text(arguments),
            "status"@ => JsonSpec::Text("completed"@),
        ],
    )
}

/// The data of an event that concerns the answer as a whole.
pub open spec fn response_event(
    name: Seq<char>,
    response: Map<Seq<char>, JsonSpec>,
) -> JsonSpec {
    JsonSpec::Object(
        map![
            "type"@ => JsonSpec::Text(name),
            "response"@ => JsonSpec::Object(response),
        ],
    )
}

/// An answer, as events show it.
pub open spec fn response_object(
    id: Seq<char>,
    model: Seq<char>,
    status: Seq<char>,
    output: Seq<JsonSpec>,
) -> Map<Seq<char>, JsonSpec> {
    map![
        "id"@ => JsonSpec::Text(id),
        "object"@ => JsonSpec::Text("response"@),
        "model"@ => JsonSpec::Text(model),
        "status"@ => JsonSpec::Text(status),
        "output"@ => JsonSpec::Array(output),
    ]
}

/// The data of an event.
pub open spec fn event_data(e: Event) -> JsonSpec {
    let name = event_name(e);
    match e {
        Event::Created { id, model } => response_event(
            name,
            response_object(id, model, "in_progress"@, Seq::empty()),
        ),
        Event::MessageAdded { item_id } => item_event(
            name,
            message_object(item_id, "in_progress"@, Seq::empty()),
        ),
        Event::PartAdded { item_id } => text_event(
            name,
            item_id,
            "part"@,
            output_text(Seq::empty()),
        ),
        Event::TextDelta { item_id, delta } => text_event(
            name,
            item_id,
            "delta"@,
            JsonSpec::Text(delta),
        ),
        Event::PartDone { item_id, text } => text_event(name, item_id, "part"@, output_text(text)),
        Event::MessageDone { item_id, text, status } => item_event(
            name,
            message_object(item_id, status, seq![output_text(text)]),
        ),
        Event::CallAdded { item_id, call_id, name: function } => item_event(
            name,
            begun_call(item_id, call_id, function),
        ),
        Event::ArgumentsDelta { item_id, delta } => arguments_event(name, item_id, "delta"@, delta),
        Event::ArgumentsDone { item_id, arguments } => arguments_event(
            name,
            item_id,
            "arguments"@,
            arguments,
        ),
        Event::CallDone { item_id, call_id, name: function, arguments } => item_event(
            name,
            done_call(item_id, call_id, function, arguments),
        ),
        Event::Completed { id, model, status, output, usage } => response_event(
            name,
            response_object(id, model, status, output).insert("usage"@, usage),
        ),
    }
}

/// A named event with its data, as server-sent events write it.
pub open spec fn sse_text(name: Seq<char>, data: Seq<char>) -> Seq<char> {
    "event: "@ + name + "\ndata: "@ + data + "\n\n"@
}

/// The text of an event.
pub open spec fn event_text(e: Event) -> Seq<char> {
    sse_text(event_name(e), json_text(event_data(e)))
}

/// Whether a text can stand as the data of an event: it is on one line, and between braces.
pub open spec fn is_data(text: Seq<char>) -> bool {
    on_one_line(text) && in_braces(text)
}

/// Whether data is sound: its text can stand as such, and is read back as the same data where
/// nothing in it is beyond the reader of JSON.
pub open spec fn is_sound(data: JsonSpec) -> bool {
    &&& is_data(json_text(data))
    &&& is_plain(data, 100) ==> parsed(json_text(data)) == Some(data)
}

/// Whether an event is well-formed: its data is sound.
pub open spec fn well_formed(e: Event) -> bool {
    is_sound(event_data(e))
}

/// Whether several events are well-formed.
pub open spec fn all_well_formed(events: Seq<Event>) -> bool {
    forall|i: int| 0 <= i < events.len() ==> well_formed(#[trigger] events[i])
}

/// The text of several events.
pub open spec fn frame_text(events: Seq<Event>) -> Seq<char>
    decreases events.len(),
{
    if events.len() == 0 {
        Seq::empty()
    } else {
        frame_text(events.drop_last()) + event_text(events.last())
    }
}

/// The events that end the message of an answer.
pub open spec fn message_end(
    item_id: Seq<char>,
    text: Seq<char>,
    finish_reason: Option<Seq<char>>,
) -> Seq<Event> {
    seq![
        Event::PartDone { item_id, text },
        Event::MessageDone { item_id, text, status: finish_status(finish_reason) },
    ]
}

/// The message in the output of a complete answer.
pub open spec fn completed_message(
    item_id: Seq<char>,
    status: Seq<char>,
    text: Seq<char>,
) -> JsonSpec {
    JsonSpec::Object(
        map![
            "type"@ => JsonSpec::Text("message"@),
            "id"@ => JsonSpec::Text(item_id),
            "role"@ => JsonSpec::Text("assistant"@),
            "status"@ => JsonSpec::Text(status),
            "content"@ => JsonSpec::Array(seq![output_text(text)]),
        ],
    )
}

/// The output items that tool calls become.
pub open spec fn call_items(calls: Seq<CallSpec>) -> Seq<JsonSpec> {
    calls.map_values(|c: CallSpec| call_item(c.id, c.name, c.arguments, "completed"@))
}

/// The output of a complete answer: the message, where there is text or nothing else, and then the
/// tool calls in the order of their indices.
pub open spec fn completed_output(agg: AggSpec, item_id: Seq<char>) -> Seq<JsonSpec> {
    if agg.tool_calls.is_empty() {
        seq![completed_message(item_id, finish_status(agg.finish_reason), agg.text_content)]
    } else {
        (if agg.text_content.len() > 0 {
            seq![completed_message(item_id, "completed"@, agg.text_content)]
        } else {
            Seq::empty()
        }) + call_items(calls_in_order(agg.tool_calls))
    }
}

/// The event that ends an answer.
pub open spec fn completed_event(
    id: Seq<char>,
    model: Seq<char>,
    agg: AggSpec,
    usage: JsonSpec,
    item_id: Seq<char>,
) -> Event {
    Event::Completed {
        id,
        model,
        status: finish_status(agg.finish_reason),
        output: completed_output(agg, item_id),
        usage: JsonSpec::Object(token_counts(usage)),
    }
}

/// A named event with its data, as server-sent events write it.
pub fn sse_event(name: &str, data: &str) -> (r: String)
    ensures
        r@ == sse_text(name@, data@),
{
    let mut text = String::new();
    text.append("event: ");
    text.append(name);
    text.append("\ndata: ");
    text.append(data);
    text.append("\n\n");
    proof {
        assert(text@ =~= sse_text(name@, data@));
    }
    text
}

/// The data of an event that concerns an item as a whole.
fn build_item_event(name: &str, item: Object) -> (r: String)
    ensures
        r@ == sse_text(name@, json_text(item_event(name@, JsonSpec::Object(item@)))),
        is_sound(item_event(name@, JsonSpec::Object(item@))),
{
    let data = Json::Object(
        Object::new().with("type", Json::text(name)).with("output_index", Json::integer(0)).with(
            "item",
            Json::Object(item),
        ),
    ).to_text();
    sse_event(name, data.as_str())
}

/// The data of an event that concerns the text of the message.
fn build_text_event(name: &str, item_id: &str, key: &str, value: Json) -> (r: String)
    ensures
        r@ == sse_text(name@, json_text(text_event(name@, item_id@, key@, value@))),
        is_sound(text_event(name@, item_id@, key@, value@)),
{
    let data = Json::Object(
        Object::new().with("type", Json::text(name)).with("item_id", Json::text(item_id)).with(
            "output_index",
            Json::integer(0),
        ).with("content_index", Json::integer(0)).with(key, value),
    ).to_text();
    sse_event(name, data.as_str())
}

/// The data of an event that concerns the arguments of a function call.
fn build_arguments_event(name: &str, item_id: &str, key: &str, value: &str) -> (r: String)
    ensures
        r@ == sse_text(name@, json_text(arguments_event(name@, item_id@, key@, value@))),
        is_sound(arguments_event(name@, item_id@, key@, value@)),
{
    let data = Json::Object(
        Object::new().with("type", Json::text(name)).with("item_id", Json::text(item_id)).with(
            "output_index",
            Json::integer(0),
        ).with(key, Json::text(value)),
    ).to_text();
    sse_event(name, data.as_str())
}

/// The data of an event that concerns the answer as a whole.
fn build_response_event(name: &str, response: Object) -> (r: String)
    ensures
        r@ == sse_text(name@, json_text(response_event(name@, response@))),
        is_sound(response_event(name@, response@)),
{
    let data = Json::Object(
        Object::new().with("type", Json::text(name)).with("response", Json::Object(response)),
    ).to_text();
    sse_event(name, data.as_str())
}

/// An answer, as events show it.
fn build_response_object(id: &str, model: &str, status: &str, output: Vec<Json>) -> (r: Object)
    ensures
        r@ == response_object(id@, model@, status@, items_model(output@)),
{
    Object::new().with("id", Json::text(id)).with("object", Json::text("response")).with(
        "model",
        Json::text(model),
    ).with("status", Json::text(status)).with("output", Json::Array(output))
}

/// The message of the answer, as events show it.
fn build_message_object(item_id: &str, status: &str, content: Vec<Json>) -> (r: Object)
    ensures
        JsonSpec::Object(r@) == message_object(item_id@, status@, items_model(content@)),
{
    Object::new().with("id", Json::text(item_id)).with("type", Json::text("message")).with(
        "role",
        Json::text("assistant"),
    ).with("status", Json::text(status)).with("content", Json::Array(content))
}

/// A list with no value.
fn no_items() -> (r: Vec<Json>)
    ensures
        items_model(r@) == Seq::<JsonSpec>::empty(),
{
    Vec::new()
}

/// The event that begins an answer.
pub fn build_response_created_event(id: &str, model: &str) -> (r: String)
    ensures
        r@ == event_text((Event::Created { id: id@, model: model@ })),
        well_formed((Event::Created { id: id@, model: model@ })),
{
    build_response_event(
        "response.created",
        build_response_object(id, model, "in_progress", no_items()),
    )
}

/// The event that begins the message.
pub fn build_output_item_added(msg_id: &str) -> (r: String)
    ensures
        r@ == event_text((Event::MessageAdded { item_id: msg_id@ })),
        well_formed((Event::MessageAdded { item_id: msg_id@ })),
{
    build_item_event(
        "response.output_item.added",
        build_message_object(msg_id, "in_progress", no_items()),
    )
}

/// The event that begins a function call.
pub fn build_function_call_item_added(item_id: &str, call_id: &str, name: &str) -> (r: String)
    ensures
        r@ == event_text(
            (Event::CallAdded { item_id: item_id@, call_id: call_id@, name: name@ }),
        ),
        well_formed((Event::CallAdded { item_id: item_id@, call_id: call_id@, name: name@ })),
{
    build_item_event(
        "response.output_item.added",
        Object::new().with("id", Json::text(item_id)).with(
            "type",
            Json::text("function_call"),
        ).with("call_id", Json::text(call_id)).with("name", Json::text(name)).with(
            "status",
            Json::text("in_progress"),
        ),
    )
}

/// The event that carries a piece of the arguments of a function call.
pub fn build_function_call_arguments_delta(item_id: &str, delta: &str) -> (r: String)
    ensures
        r@ == event_text((Event::ArgumentsDelta { item_id: item_id@, delta: delta@ })),
        well_formed((Event::ArgumentsDelta { item_id: item_id@, delta: delta@ })),
{
    build_arguments_event("response.function_call_arguments.delta", item_id, "delta", delta)
}

/// The event that ends the arguments of a function call.
pub fn build_function_call_arguments_done(item_id: &str, arguments: &str) -> (r: String)
    ensures
        r@ == event_text((Event::ArgumentsDone { item_id: item_id@, arguments: arguments@ })),
        well_formed((Event::ArgumentsDone { item_id: item_id@, arguments: arguments@ })),
{
    build_arguments_event(
        "response.function_call_arguments.done",
        item_id,
        "arguments",
        arguments,
    )
}

/// The event that ends a function call.
pub fn build_function_call_item_done(
    item_id: &str,
    call_id: &str,
    name: &str,
    arguments: &str,
) -> (r: String)
    ensures
        r@ == event_text(
            (Event::CallDone {
                item_id: item_id@,
                call_id: call_id@,
                name: name@,
                arguments: arguments@,
            }),
        ),
        well_formed(
            (Event::CallDone {
                item_id: item_id@,
                call_id: call_id@,
                name: name@,
                arguments: arguments@,
            }),
        ),
{
    build_item_event(
        "response.output_item.done",
        Object::new().with("id", Json::text(item_id)).with(
            "type",
            Json::text("function_call"),
        ).with("call_id", Json::text(call_id)).with("name", Json::text(name)).with(
            "arguments",
            Json::text(arguments),
        ).with("status", Json::text("completed")),
    )
}

/// The event that begins the text of the message.
pub fn build_content_part_added(msg_id: &str) -> (r: String)
    ensures
        r@ == event_text((Event::PartAdded { item_id: msg_id@ })),
        well_formed((Event::PartAdded { item_id: msg_id@ })),
{
    let empty = String::new();
    build_text_event(
        "response.content_part.added",
        msg_id,
        "part",
        build_output_text(empty.as_str()),
    )
}

/// The event that carries a piece of text.
pub fn build_output_text_delta(msg_id: &str, delta: &str) -> (r: String)
    ensures
        r@ == event_text((Event::TextDelta { item_id: msg_id@, delta: delta@ })),
        well_formed((Event::TextDelta { item_id: msg_id@, delta: delta@ })),
{
    build_text_event("response.output_text.delta", msg_id, "delta", Json::text(delta))
}

/// The events that end the message: its text, then the message itself.
pub fn finalize_text_item(msg_id: &str, text_content: &str, finish_reason: Option<&str>) -> (r:
    String)
    ensures
        r@ == frame_text(
            message_end(
                msg_id@,
                text_content@,
                match finish_reason {
                    Some(s) => Some(s@),
                    None => None,
                },
            ),
        ),
        all_well_formed(
            message_end(
                msg_id@,
                text_content@,
                match finish_reason {
                    Some(s) => Some(s@),
                    None => None,
                },
            ),
        ),
{
    let status = status_of(finish_reason);
    let part_done = build_text_event(
        "response.content_part.done",
        msg_id,
        "part",
        build_output_text(text_content),
    );
    let item_done = build_item_event(
        "response.output_item.done",
        build_message_object(msg_id, status, single(build_output_text(text_content))),
    );
    let mut text = part_done;
    text.append(item_done.as_str());
    proof {
        reveal_with_fuel(frame_text, 3);
        let first = Event::PartDone { item_id: msg_id@, text: text_content@ };
        let second = Event::MessageDone { item_id: msg_id@, text: text_content@, status: status@ };
        assert(seq![first, second].drop_last() =~= seq![first]);
        assert(seq![first].drop_last() =~= Seq::empty());
        assert(text@ =~= frame_text(seq![first, second]));
    }
    text
}

/// The output of a complete answer.
fn build_completed_output(agg: &ChunkAgg, item_id: &str) -> (r: Vec<Json>)
    ensures
        items_model(r@) == completed_output(agg@, item_id@),
{
    let status = status_of(
        match &agg.finish_reason {
            Some(reason) => Some(reason.as_str()),
            None => None,
        },
    );
    proof {
        assert(agg@.tool_calls.dom() =~= agg.tool_calls@.dom());
    }
    if agg.tool_calls.is_empty() {
        return single(build_completed_message(item_id, status, agg.text_content.as_str()));
    }
    let mut items: Vec<Json> = no_items();
    if !agg.text_content.as_str().is_empty() {
        items =
        single(build_completed_message(item_id, "completed", agg.text_content.as_str()));
    }
    let ghost first = items_model(items@);
    let ghost calls = calls_in_order(agg@.tool_calls);
    let order = indices(&agg.tool_calls);
    let n: usize = order.len();
    proof {
        assert(first =~= first + call_items(calls.take(0)));
    }
    for i in 0..n
        invariant
            n == order@.len(),
            order@ == in_order(agg.tool_calls@.dom()),
            order@.to_set() == agg.tool_calls@.dom(),
            agg@.tool_calls.dom() == agg.tool_calls@.dom(),
            calls == calls_in_order(agg@.tool_calls),
            items_model(items@) == first + call_items(calls.take(i as int)),
    {
        let index: usize = order[i];
        assert(order@.to_set().contains(index));
        if let Some(call) = agg.tool_calls.get(&index) {
            let ghost before = items@;
            items.push(
                build_call_item(
                    call.id.as_str(),
                    call.name.as_str(),
                    call.arguments.as_str(),
                    "completed",
                ),
            );
            proof {
                assert(items@.drop_last() =~= before);
                assert(calls[i as int] == call@);
                assert(calls.take(i + 1) =~= calls.take(i as int).push(call@));
                assert(items_model(items@) =~= first + call_items(calls.take(i + 1)));
            }
        }
    }
    assert(calls.take(n as int) =~= calls);
    items
}

/// The message in the output of a complete answer.
fn build_completed_message(item_id: &str, status: &str, text: &str) -> (r: Json)
    ensures
        r@ == completed_message(item_id@, status@, text@),
{
    Json::Object(
        Object::new().with("type", Json::text("message")).with("id", Json::text(item_id)).with(
            "role",
            Json::text("assistant"),
        ).with("status", Json::text(status)).with(
            "content",
            Json::Array(single(build_output_text(text))),
        ),
    )
}

/// The event that ends an answer, with a given identifier for the message in its output.
pub fn build_response_completed_as(
    id: &str,
    model: &str,
    agg: &ChunkAgg,
    usage: &Json,
    item_id: &str,
) -> (r: String)
    ensures
        r@ == event_text(completed_event(id@, model@, agg@, usage@, item_id@)),
        well_formed(completed_event(id@, model@, agg@, usage@, item_id@)),
{
    let status = status_of(
        match &agg.finish_reason {
            Some(reason) => Some(reason.as_str()),
            None => None,
        },
    );
    let response = build_response_object(id, model, status, build_completed_output(agg, item_id));
    build_response_event(
        "response.completed",
        response.with("usage", Json::Object(build_token_counts(usage))),
    )
}

/// The event that ends an answer. The message in its output gets a new identifier.
pub fn build_response_completed(id: &str, model: &str, agg: &ChunkAgg, usage: &Json) -> (r: String)
    ensures
        exists|item_id: Seq<char>| #[trigger]
            is_item_id(item_id) && r@ == event_text(
                completed_event(id@, model@, agg@, usage@, item_id),
            ) && well_formed(completed_event(id@, model@, agg@, usage@, item_id)),
{
    let item_id = new_uuid_id();
    build_response_completed_as(id, model, agg, usage, item_id.as_str())
}

} // verus!
