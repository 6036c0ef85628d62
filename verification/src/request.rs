//! Requests: from the Responses API to Chat Completions.

use crate::error::ProxyError;
use crate::json::{items_model, lemma_items_model, put, string_member, Json, JsonSpec, Object};
use vstd::prelude::*;

verus! {

/// A text part of a chat message.
pub open spec fn text_part(text: Seq<char>) -> JsonSpec {
    JsonSpec::Object(
        map![
            "type"@ => JsonSpec::Text("text"@),
            "text"@ => JsonSpec::Text(text),
        ],
    )
}

/// An image part of a chat message.
pub open spec fn image_part(image_url: JsonSpec) -> JsonSpec {
    JsonSpec::Object(
        map![
            "type"@ => JsonSpec::Text("image_url"@),
            "image_url"@ => image_url,
        ],
    )
}

/// The chat part that a content part of the Responses API becomes. Text, be it input or output,
/// becomes text; an image becomes an image where it has a URL; anything else is dropped.
pub open spec fn chat_part(part: JsonSpec) -> Option<JsonSpec> {
    match part.get_str("type"@) {
        None => None,
        Some(kind) => if kind == "input_text"@ || kind == "output_text"@ {
            Some(text_part(part.str_or_empty("text"@)))
        } else if kind == "input_image"@ {
            match part.get("image_url"@) {
                Some(image_url) => Some(image_part(image_url)),
                None => None,
            }
        } else {
            None
        },
    }
}

/// `chat_part` as a function value.
pub open spec fn chat_part_fn() -> spec_fn(JsonSpec) -> Option<JsonSpec> {
    |part: JsonSpec| chat_part(part)
}

/// The content that chat parts make: a single text part stands as a plain string, and no part at
/// all as the empty string.
pub open spec fn joined_parts(parts: Seq<JsonSpec>) -> JsonSpec {
    if parts.len() == 0 {
        JsonSpec::Text(Seq::empty())
    } else if parts.len() == 1 && parts[0].get_str("type"@) == Some("text"@) {
        match parts[0].get("text"@) {
            Some(text) => text,
            None => JsonSpec::Text(Seq::empty()),
        }
    } else {
        JsonSpec::Array(parts)
    }
}

/// The chat content that the content of a message of the Responses API becomes.
pub open spec fn chat_content(content: JsonSpec) -> JsonSpec {
    match content {
        JsonSpec::Text(text) => JsonSpec::Text(text),
        JsonSpec::Array(parts) => joined_parts(parts.filter_map(chat_part_fn())),
        _ => JsonSpec::Text(Seq::empty()),
    }
}

/// The chat role of a role of the Responses API: Chat Completions knows no `developer`.
pub open spec fn chat_role(role: Seq<char>) -> Seq<char> {
    if role == "developer"@ {
        "system"@
    } else {
        role
    }
}

/// A chat message with a role and content.
pub open spec fn chat_message(role: Seq<char>, content: JsonSpec) -> JsonSpec {
    JsonSpec::Object(map!["role"@ => JsonSpec::Text(role), "content"@ => content])
}

/// The chat message in which the assistant calls one function.
pub open spec fn call_message(
    call_id: Seq<char>,
    name: Seq<char>,
    arguments: Seq<char>,
) -> JsonSpec {
    let function = JsonSpec::Object(
        map!["name"@ => JsonSpec::Text(name), "arguments"@ => JsonSpec::Text(arguments)],
    );
    let call = JsonSpec::Object(
        map![
            "id"@ => JsonSpec::Text(call_id),
            "type"@ => JsonSpec::Text("function"@),
            "function"@ => function,
        ],
    );
    JsonSpec::Object(
        map![
            "role"@ => JsonSpec::Text("assistant"@),
            "content"@ => JsonSpec::Null,
            "tool_calls"@ => JsonSpec::Array(seq![call]),
        ],
    )
}

/// The chat message that reports what a function returned.
pub open spec fn tool_message(call_id: Seq<char>, output: JsonSpec) -> JsonSpec {
    JsonSpec::Object(
        map![
            "role"@ => JsonSpec::Text("tool"@),
            "tool_call_id"@ => JsonSpec::Text(call_id),
            "content"@ => output,
        ],
    )
}

/// The chat message that an input item becomes. A message without a role or content, and an item
/// of any kind but a message, a function call or its output, becomes none.
pub open spec fn item_message(item: JsonSpec) -> Option<JsonSpec> {
    match item.get_str("type"@) {
        None => None,
        Some(kind) => if kind == "message"@ {
            match (item.get_str("role"@), item.get("content"@)) {
                (Some(role), Some(content)) => Some(
                    chat_message(chat_role(role), chat_content(content)),
                ),
                _ => None,
            }
        } else if kind == "function_call"@ {
            Some(
                call_message(
                    item.str_or_empty("call_id"@),
                    item.str_or_empty("name"@),
                    item.str_or_empty("arguments"@),
                ),
            )
        } else if kind == "function_call_output"@ {
            Some(
                tool_message(
                    item.str_or_empty("call_id"@),
                    match item.get("output"@) {
                        Some(output) => output,
                        None => JsonSpec::Text(Seq::empty()),
                    },
                ),
            )
        } else {
            None
        },
    }
}

/// `item_message` as a function value.
pub open spec fn item_message_fn() -> spec_fn(JsonSpec) -> Option<JsonSpec> {
    |item: JsonSpec| item_message(item)
}

/// The system message that the instructions of a request become, where there are any.
pub open spec fn instruction_messages(body: JsonSpec) -> Seq<JsonSpec> {
    match body.get_str("instructions"@) {
        Some(text) => if text.len() > 0 {
            seq![chat_message("system"@, JsonSpec::Text(text))]
        } else {
            Seq::empty()
        },
        None => Seq::empty(),
    }
}

/// The messages that the input items of a request become, in order.
pub open spec fn input_messages(body: JsonSpec) -> Seq<JsonSpec> {
    match body.get_array("input"@) {
        Some(items) => items.filter_map(item_message_fn()),
        None => Seq::empty(),
    }
}

/// The messages of the chat request: the instructions first, then the input.
pub open spec fn chat_messages(body: JsonSpec) -> Seq<JsonSpec> {
    instruction_messages(body) + input_messages(body)
}

/// The chat tool that a tool of the Responses API becomes; one without a name is dropped.
pub open spec fn chat_tool(tool: JsonSpec) -> Option<JsonSpec> {
    match tool.get_str("name"@) {
        None => None,
        Some(name) => {
            let named = map!["name"@ => JsonSpec::Text(name)];
            let described = put(named, "description"@, string_member(tool, "description"@));
            let function = put(described, "parameters"@, tool.get("parameters"@));
            Some(
                JsonSpec::Object(
                    map![
                        "type"@ => JsonSpec::Text("function"@),
                        "function"@ => JsonSpec::Object(function),
                    ],
                ),
            )
        },
    }
}

/// `chat_tool` as a function value.
pub open spec fn chat_tool_fn() -> spec_fn(JsonSpec) -> Option<JsonSpec> {
    |tool: JsonSpec| chat_tool(tool)
}

/// The tools of the chat request, where any are left.
pub open spec fn chat_tools(body: JsonSpec) -> Option<JsonSpec> {
    match body.get_array("tools"@) {
        Some(tools) => {
            let kept = tools.filter_map(chat_tool_fn());
            if kept.len() > 0 {
                Some(JsonSpec::Array(kept))
            } else {
                None
            }
        },
        None => None,
    }
}

/// The reasoning effort of a request.
pub open spec fn reasoning_effort(body: JsonSpec) -> Option<JsonSpec> {
    match body.get("reasoning"@) {
        Some(reasoning) => string_member(reasoning, "effort"@),
        None => None,
    }
}

/// The format of the answer, whatever it is.
pub open spec fn response_format(body: JsonSpec) -> Option<JsonSpec> {
    match body.get("text"@) {
        Some(text) => text.get("format"@),
        None => None,
    }
}

/// The chat request that a request of the Responses API becomes.
pub open spec fn chat_request(body: JsonSpec) -> JsonSpec {
    let m = put(Map::empty(), "model"@, string_member(body, "model"@));
    let m = m.insert("messages"@, JsonSpec::Array(chat_messages(body)));
    let m = put(m, "max_tokens"@, body.get("max_output_tokens"@));
    let m = put(m, "temperature"@, body.get("temperature"@));
    let m = put(m, "top_p"@, body.get("top_p"@));
    let m = put(m, "stream"@, body.get("stream"@));
    let m = put(m, "tools"@, chat_tools(body));
    let m = put(m, "tool_choice"@, body.get("tool_choice"@));
    let m = put(m, "reasoning_effort"@, reasoning_effort(body));
    let m = put(m, "response_format"@, response_format(body));
    let m = put(m, "frequency_penalty"@, body.get("frequency_penalty"@));
    let m = put(m, "presence_penalty"@, body.get("presence_penalty"@));
    let m = put(m, "seed"@, body.get("seed"@));
    let m = put(m, "stop"@, body.get("stop"@));
    JsonSpec::Object(m)
}

/// Converts a content part of the Responses API to a chat part.
pub fn convert_content_part_to_chat(part: &Json) -> (r: Option<Json>)
    ensures
        match r {
            Some(p) => chat_part(part@) == Some(p@),
            None => chat_part(part@) is None,
        },
{
    let kind = match part.get_str("type") {
        Some(kind) => kind,
        None => return None,
    };
    if *kind == *"input_text" || *kind == *"output_text" {
        let text = part.str_or_empty("text");
        let object = Object::new().with("type", Json::text("text")).with("text", Json::text(text));
        Some(Json::Object(object))
    } else if *kind == *"input_image" {
        match part.member("image_url") {
            Some(image_url) => {
                let object = Object::new().with("type", Json::text("image_url")).with(
                    "image_url",
                    image_url,
                );
                Some(Json::Object(object))
            },
            None => None,
        }
    } else {
        None
    }
}

/// Converts content parts, and drops those that Chat Completions has no part for.
fn convert_content_parts(parts: &Vec<Json>) -> (r: Vec<Json>)
    ensures
        items_model(r@) == items_model(parts@).filter_map(chat_part_fn()),
{
    let ghost models = items_model(parts@);
    let mut kept: Vec<Json> = Vec::new();
    let n: usize = parts.len();
    proof {
        lemma_items_model(parts@);
        assert(models.take(0) =~= Seq::empty());
    }
    for i in 0..n
        invariant
            n == parts@.len(),
            models == items_model(parts@),
            models.len() == n,
            items_model(kept@) == models.take(i as int).filter_map(chat_part_fn()),
    {
        proof {
            lemma_items_model(parts@);
            models.lemma_filter_map_take_succ(chat_part_fn(), i as int);
        }
        if let Some(part) = convert_content_part_to_chat(&parts[i]) {
            let ghost before = kept@;
            kept.push(part);
            proof {
                assert(kept@.drop_last() =~= before);
            }
        }
    }
    assert(models.take(n as int) =~= models);
    kept
}

/// Converts the content of a message.
fn convert_content(content: &Json) -> (r: Json)
    ensures
        r@ == chat_content(content@),
{
    match content {
        Json::Text(text) => Json::text(text.as_str()),
        Json::Array(parts) => {
            let kept = convert_content_parts(parts);
            proof {
                lemma_items_model(kept@);
            }
            if kept.len() == 0 {
                Json::empty_text()
            } else if kept.len() == 1 {
                let kind = kept[0].get_str("type");
                if kind.is_some() && *kind.unwrap() == *"text" {
                    match kept[0].member("text") {
                        Some(text) => text,
                        None => Json::empty_text(),
                    }
                } else {
                    Json::Array(kept)
                }
            } else {
                Json::Array(kept)
            }
        },
        _ => Json::empty_text(),
    }
}

/// The chat message in which the assistant calls one function.
fn build_call_message(call_id: &str, name: &str, arguments: &str) -> (r: Json)
    ensures
        r@ == call_message(call_id@, name@, arguments@),
{
    let function = Object::new().with("name", Json::text(name)).with(
        "arguments",
        Json::text(arguments),
    );
    let call = Json::Object(
        Object::new().with("id", Json::text(call_id)).with("type", Json::text("function")).with(
            "function",
            Json::Object(function),
        ),
    );
    let mut calls: Vec<Json> = Vec::new();
    calls.push(call);
    proof {
        lemma_items_model(calls@);
        assert(items_model(calls@) =~= seq![call@]);
    }
    Json::Object(
        Object::new().with("role", Json::text("assistant")).with("content", Json::Null).with(
            "tool_calls",
            Json::Array(calls),
        ),
    )
}

/// Converts an input item of the Responses API to a chat message.
pub fn convert_input_item_to_message(item: &Json) -> (r: Option<Json>)
    ensures
        match r {
            Some(m) => item_message(item@) == Some(m@),
            None => item_message(item@) is None,
        },
{
    let kind = match item.get_str("type") {
        Some(kind) => kind,
        None => return None,
    };
    if *kind == *"message" {
        let raw_role = match item.get_str("role") {
            Some(role) => role,
            None => return None,
        };
        let role = if *raw_role == *"developer" {
            "system"
        } else {
            raw_role
        };
        let content = match item.get("content") {
            Some(content) => content,
            None => return None,
        };
        let object = Object::new().with("role", Json::text(role)).with(
            "content",
            convert_content(content),
        );
        Some(Json::Object(object))
    } else if *kind == *"function_call" {
        let call_id = item.str_or_empty("call_id");
        let name = item.str_or_empty("name");
        let arguments = item.str_or_empty("arguments");
        Some(build_call_message(call_id, name, arguments))
    } else if *kind == *"function_call_output" {
        let call_id = item.str_or_empty("call_id");
        let output = match item.member("output") {
            Some(output) => output,
            None => Json::empty_text(),
        };
        let object = Object::new().with("role", Json::text("tool")).with(
            "tool_call_id",
            Json::text(call_id),
        ).with("content", output);
        Some(Json::Object(object))
    } else {
        None
    }
}

/// Converts a tool of the Responses API to a chat tool.
fn convert_tool(tool: &Json) -> (r: Option<Json>)
    ensures
        match r {
            Some(t) => chat_tool(tool@) == Some(t@),
            None => chat_tool(tool@) is None,
        },
{
    let name = match tool.get_str("name") {
        Some(name) => name,
        None => return None,
    };
    let function = Object::new().with("name", Json::text(name)).put(
        "description",
        tool.string_member("description"),
    ).put("parameters", tool.member("parameters"));
    let object = Object::new().with("type", Json::text("function")).with(
        "function",
        Json::Object(function),
    );
    Some(Json::Object(object))
}

/// The tools of the chat request.
fn convert_tools(body: &Json) -> (r: Option<Json>)
    ensures
        match r {
            Some(t) => chat_tools(body@) == Some(t@),
            None => chat_tools(body@) is None,
        },
{
    let tools = match body.get_array("tools") {
        Some(tools) => tools,
        None => return None,
    };
    let ghost models = items_model(tools@);
    let mut kept: Vec<Json> = Vec::new();
    let n: usize = tools.len();
    proof {
        lemma_items_model(tools@);
        assert(models.take(0) =~= Seq::empty());
    }
    for i in 0..n
        invariant
            n == tools@.len(),
            models == items_model(tools@),
            models.len() == n,
            items_model(kept@) == models.take(i as int).filter_map(chat_tool_fn()),
    {
        proof {
            lemma_items_model(tools@);
            models.lemma_filter_map_take_succ(chat_tool_fn(), i as int);
        }
        if let Some(tool) = convert_tool(&tools[i]) {
            let ghost before = kept@;
            kept.push(tool);
            proof {
                assert(kept@.drop_last() =~= before);
            }
        }
    }
    proof {
        assert(models.take(n as int) =~= models);
        lemma_items_model(kept@);
    }
    if kept.len() > 0 {
        Some(Json::Array(kept))
    } else {
        None
    }
}

/// The messages of the chat request.
fn convert_messages(body: &Json) -> (r: Vec<Json>)
    ensures
        items_model(r@) == chat_messages(body@),
{
    let mut messages: Vec<Json> = Vec::new();
    if let Some(instructions) = body.get_str("instructions") {
        if !instructions.is_empty() {
            let object = Object::new().with("role", Json::text("system")).with(
                "content",
                Json::text(instructions),
            );
            messages.push(Json::Object(object));
        }
    }
    let ghost first = messages@;
    proof {
        lemma_items_model(first);
        assert(items_model(first) =~= instruction_messages(body@));
        assert(items_model(first) + Seq::empty() =~= items_model(first));
    }
    if let Some(items) = body.get_array("input") {
        let ghost models = items_model(items@);
        let n: usize = items.len();
        proof {
            lemma_items_model(items@);
            assert(models.take(0) =~= Seq::empty());
        }
        for i in 0..n
            invariant
                n == items@.len(),
                models == items_model(items@),
                models.len() == n,
                items_model(messages@) == items_model(first) + models.take(i as int).filter_map(
                    item_message_fn(),
                ),
        {
            proof {
                lemma_items_model(items@);
                models.lemma_filter_map_take_succ(item_message_fn(), i as int);
            }
            if let Some(message) = convert_input_item_to_message(&items[i]) {
                let ghost before = messages@;
                messages.push(message);
                proof {
                    assert(messages@.drop_last() =~= before);
                    assert(items_model(messages@) =~= items_model(first) + models.take(
                        i + 1,
                    ).filter_map(item_message_fn()));
                }
            }
        }
        assert(models.take(n as int) =~= models);
    }
    messages
}

/// The reasoning effort of the request.
fn convert_reasoning(body: &Json) -> (r: Option<Json>)
    ensures
        match r {
            Some(v) => reasoning_effort(body@) == Some(v@),
            None => reasoning_effort(body@) is None,
        },
{
    match body.get("reasoning") {
        Some(reasoning) => reasoning.string_member("effort"),
        None => None,
    }
}

/// The format of the answer.
fn convert_format(body: &Json) -> (r: Option<Json>)
    ensures
        match r {
            Some(v) => response_format(body@) == Some(v@),
            None => response_format(body@) is None,
        },
{
    match body.get("text") {
        Some(text) => text.member("format"),
        None => None,
    }
}

/// Converts a request of the Responses API to a chat request.
///
/// - `instructions` becomes a system message at the head of `messages`
/// - `input` becomes `messages`
/// - `max_output_tokens` becomes `max_tokens`
/// - a tool's `name`, `description` and `parameters` move into its `function`
/// - `reasoning.effort` becomes `reasoning_effort`
/// - `text.format` becomes `response_format`
///
/// There is no request that it refuses.
pub fn responses_to_chat_completions(body: Json) -> (r: Result<Json, ProxyError>)
    ensures
        r is Ok,
        r->Ok_0@ == chat_request(body@),
{
    let request = Object::new().put("model", body.string_member("model")).with(
        "messages",
        Json::Array(convert_messages(&body)),
    ).put("max_tokens", body.member("max_output_tokens")).put(
        "temperature",
        body.member("temperature"),
    ).put("top_p", body.member("top_p")).put("stream", body.member("stream")).put(
        "tools",
        convert_tools(&body),
    ).put("tool_choice", body.member("tool_choice")).put(
        "reasoning_effort",
        convert_reasoning(&body),
    ).put("response_format", convert_format(&body)).put(
        "frequency_penalty",
        body.member("frequency_penalty"),
    ).put("presence_penalty", body.member("presence_penalty")).put(
        "seed",
        body.member("seed"),
    ).put("stop", body.member("stop"));
    Ok(Json::Object(request))
}

} // verus!
