//! Answers: from Chat Completions to the Responses API.

use crate::error::ProxyError;
use crate::json::{items_model, lemma_items_model, put, string_member, Json, JsonSpec, Object};
use crate::value::integer;
use vstd::prelude::*;

verus! {

/// A text part of an output message.
pub open spec fn output_text(text: Seq<char>) -> JsonSpec {
    JsonSpec::Object(
        map![
            "type"@ => JsonSpec::Text("output_text"@),
            "text"@ => JsonSpec::Text(text),
            "annotations"@ => JsonSpec::Array(Seq::empty()),
        ],
    )
}

/// A message among the output items.
pub open spec fn message_item(
    role: Seq<char>,
    status: Seq<char>,
    content: Seq<JsonSpec>,
) -> JsonSpec {
    JsonSpec::Object(
        map![
            "type"@ => JsonSpec::Text("message"@),
            "role"@ => JsonSpec::Text(role),
            "status"@ => JsonSpec::Text(status),
            "content"@ => JsonSpec::Array(content),
        ],
    )
}

/// A function call among the output items.
pub open spec fn call_item(
    call_id: Seq<char>,
    name: Seq<char>,
    arguments: Seq<char>,
    status: Seq<char>,
) -> JsonSpec {
    JsonSpec::Object(
        map![
            "type"@ => JsonSpec::Text("function_call"@),
            "id"@ => JsonSpec::Text(call_id),
            "call_id"@ => JsonSpec::Text(call_id),
            "name"@ => JsonSpec::Text(name),
            "arguments"@ => JsonSpec::Text(arguments),
            "status"@ => JsonSpec::Text(status),
        ],
    )
}

/// The output item that a tool call of a chat message becomes; one without a function is dropped.
pub open spec fn call_output(call: JsonSpec, status: Seq<char>) -> Option<JsonSpec> {
    match call.get("function"@) {
        Some(function) => Some(
            call_item(
                call.str_or_empty("id"@),
                function.str_or_empty("name"@),
                function.str_or_empty("arguments"@),
                status,
            ),
        ),
        None => None,
    }
}

/// `call_output` as a function value.
pub open spec fn call_output_fn(status: Seq<char>) -> spec_fn(JsonSpec) -> Option<JsonSpec> {
    |call: JsonSpec| call_output(call, status)
}

/// The output part that a part of a chat message becomes: text becomes output text, an image stays
/// as it is, anything else is dropped.
pub open spec fn output_part(part: JsonSpec) -> Option<JsonSpec> {
    match part.get_str("type"@) {
        None => None,
        Some(kind) => if kind == "text"@ {
            Some(output_text(part.str_or_empty("text"@)))
        } else if kind == "image_url"@ {
            Some(part)
        } else {
            None
        },
    }
}

/// `output_part` as a function value.
pub open spec fn output_part_fn() -> spec_fn(JsonSpec) -> Option<JsonSpec> {
    |part: JsonSpec| output_part(part)
}

/// The content that the content of a chat message becomes. Whatever is neither a string nor a list
/// of parts becomes one empty text.
pub open spec fn output_content(content: Option<JsonSpec>) -> Seq<JsonSpec> {
    match content {
        Some(JsonSpec::Text(text)) => seq![output_text(text)],
        Some(JsonSpec::Array(parts)) => parts.filter_map(output_part_fn()),
        _ => seq![output_text(Seq::empty())],
    }
}

/// The role of a chat message; `assistant` where it has none.
pub open spec fn message_role(message: JsonSpec) -> Seq<char> {
    match message.get_str("role"@) {
        Some(role) => role,
        None => "assistant"@,
    }
}

/// The output items that a chat message becomes: its tool calls where it lists any, else the
/// message itself, each with the status that the choice has.
pub open spec fn message_output(message: JsonSpec, status: Seq<char>) -> Seq<JsonSpec> {
    match message.get_array("tool_calls"@) {
        Some(calls) => calls.filter_map(call_output_fn(status)),
        None => seq![
            message_item(
                message_role(message),
                status,
                output_content(message.get("content"@)),
            ),
        ],
    }
}

/// The status that a finish reason stands for: an answer cut off at its length is incomplete, any
/// other is completed.
pub open spec fn finish_status(reason: Option<Seq<char>>) -> Seq<char> {
    if reason == Some("length"@) {
        "incomplete"@
    } else {
        "completed"@
    }
}

/// The status of a choice.
pub open spec fn choice_status(choice: JsonSpec) -> Seq<char> {
    finish_status(choice.get_str("finish_reason"@))
}

/// The output items that a choice of the answer becomes.
pub open spec fn choice_output(choice: JsonSpec) -> Seq<JsonSpec> {
    match choice.get("message"@) {
        Some(message) => message_output(message, choice_status(choice)),
        None => Seq::empty(),
    }
}

/// `choice_output` as a function value.
pub open spec fn choice_output_fn() -> spec_fn(JsonSpec) -> Seq<JsonSpec> {
    |choice: JsonSpec| choice_output(choice)
}

/// The choices of an answer.
pub open spec fn choices(body: JsonSpec) -> Seq<JsonSpec> {
    match body.get_array("choices"@) {
        Some(items) => items,
        None => Seq::empty(),
    }
}

/// The status of an answer: that of its last choice.
pub open spec fn answer_status(body: JsonSpec) -> Seq<char> {
    if choices(body).len() > 0 {
        choice_status(choices(body).last())
    } else {
        "completed"@
    }
}

/// The output items of an answer. There is at least one: an empty message where the choices yield
/// nothing.
pub open spec fn answer_output(body: JsonSpec) -> Seq<JsonSpec> {
    let items = choices(body).flat_map(choice_output_fn());
    if items.len() > 0 {
        items
    } else {
        seq![message_item("assistant"@, answer_status(body), seq![output_text(Seq::empty())])]
    }
}

/// A count of tokens; zero where it is missing.
pub open spec fn token_count(usage: JsonSpec, key: Seq<char>) -> JsonSpec {
    match usage.get(key) {
        Some(count) => count,
        None => JsonSpec::Number(integer(0)),
    }
}

/// The token counts of an answer, under the names of the Responses API.
pub open spec fn token_counts(usage: JsonSpec) -> Map<Seq<char>, JsonSpec> {
    map![
        "input_tokens"@ => token_count(usage, "prompt_tokens"@),
        "output_tokens"@ => token_count(usage, "completion_tokens"@),
        "total_tokens"@ => token_count(usage, "total_tokens"@),
    ]
}

/// What an answer says of cached input tokens, where it says anything.
pub open spec fn cached_details(usage: JsonSpec) -> Option<JsonSpec> {
    match usage.get("prompt_tokens_details"@) {
        Some(details) => match details.get("cached_tokens"@) {
            Some(cached) => Some(JsonSpec::Object(map!["cached_tokens"@ => cached])),
            None => None,
        },
        None => None,
    }
}

/// The usage that the usage of an answer becomes.
pub open spec fn answer_usage(body: JsonSpec) -> Option<JsonSpec> {
    match body.get("usage"@) {
        Some(usage) => Some(
            JsonSpec::Object(
                put(token_counts(usage), "input_tokens_details"@, cached_details(usage)),
            ),
        ),
        None => None,
    }
}

/// The answer of the Responses API that a chat answer becomes.
pub open spec fn responses_answer(body: JsonSpec) -> JsonSpec {
    let m = put(Map::empty(), "id"@, string_member(body, "id"@));
    let m = m.insert("object"@, JsonSpec::Text("response"@));
    let m = put(m, "model"@, string_member(body, "model"@));
    let m = put(m, "created_at"@, body.get("created"@));
    let m = m.insert("output"@, JsonSpec::Array(answer_output(body)));
    let m = m.insert("status"@, JsonSpec::Text(answer_status(body)));
    let m = put(m, "usage"@, answer_usage(body));
    JsonSpec::Object(m)
}

/// A list of one value.
pub fn single(item: Json) -> (r: Vec<Json>)
    ensures
        items_model(r@) == seq![item@],
{
    let mut items: Vec<Json> = Vec::new();
    items.push(item);
    proof {
        lemma_items_model(items@);
        assert(items_model(items@) =~= seq![item@]);
    }
    items
}

/// A text part of an output message.
pub fn build_output_text(text: &str) -> (r: Json)
    ensures
        r@ == output_text(text@),
{
    let none: Vec<Json> = Vec::new();
    proof {
        lemma_items_model(none@);
        assert(items_model(none@) =~= Seq::empty());
    }
    Json::Object(
        Object::new().with("type", Json::text("output_text")).with("text", Json::text(text)).with(
            "annotations",
            Json::Array(none),
        ),
    )
}

/// A text part of an output message that holds no text.
fn build_empty_output_text() -> (r: Json)
    ensures
        r@ == output_text(Seq::empty()),
{
    let empty = String::new();
    build_output_text(empty.as_str())
}

/// A message among the output items.
fn build_message_item(role: &str, status: &str, content: Vec<Json>) -> (r: Json)
    ensures
        r@ == message_item(role@, status@, items_model(content@)),
{
    Json::Object(
        Object::new().with("type", Json::text("message")).with("role", Json::text(role)).with(
            "status",
            Json::text(status),
        ).with("content", Json::Array(content)),
    )
}

/// A function call among the output items.
pub fn build_call_item(call_id: &str, name: &str, arguments: &str, status: &str) -> (r: Json)
    ensures
        r@ == call_item(call_id@, name@, arguments@, status@),
{
    Json::Object(
        Object::new().with("type", Json::text("function_call")).with(
            "id",
            Json::text(call_id),
        ).with("call_id", Json::text(call_id)).with("name", Json::text(name)).with(
            "arguments",
            Json::text(arguments),
        ).with("status", Json::text(status)),
    )
}

/// Converts a tool call of a chat message to an output item.
fn convert_tool_call(call: &Json, status: &str) -> (r: Option<Json>)
    ensures
        match r {
            Some(item) => call_output(call@, status@) == Some(item@),
            None => call_output(call@, status@) is None,
        },
{
    match call.get("function") {
        Some(function) => {
            let call_id = call.str_or_empty("id");
            let name = function.str_or_empty("name");
            let arguments = function.str_or_empty("arguments");
            Some(build_call_item(call_id, name, arguments, status))
        },
        None => None,
    }
}

/// Converts the tool calls of a chat message to output items.
fn convert_tool_calls(calls: &Vec<Json>, status: &str) -> (r: Vec<Json>)
    ensures
        items_model(r@) == items_model(calls@).filter_map(call_output_fn(status@)),
{
    let ghost models = items_model(calls@);
    let mut items: Vec<Json> = Vec::new();
    let n: usize = calls.len();
    proof {
        lemma_items_model(calls@);
        assert(models.take(0) =~= Seq::empty());
    }
    for i in 0..n
        invariant
            n == calls@.len(),
            models == items_model(calls@),
            models.len() == n,
            items_model(items@) == models.take(i as int).filter_map(call_output_fn(status@)),
    {
        proof {
            lemma_items_model(calls@);
            models.lemma_filter_map_take_succ(call_output_fn(status@), i as int);
        }
        if let Some(item) = convert_tool_call(&calls[i], status) {
            let ghost before = items@;
            items.push(item);
            proof {
                assert(items@.drop_last() =~= before);
            }
        }
    }
    assert(models.take(n as int) =~= models);
    items
}

/// Converts a part of a chat message to an output part.
fn convert_part(part: &Json) -> (r: Option<Json>)
    ensures
        match r {
            Some(p) => output_part(part@) == Some(p@),
            None => output_part(part@) is None,
        },
{
    let kind = match part.get_str("type") {
        Some(kind) => kind,
        None => return None,
    };
    if *kind == *"text" {
        Some(build_output_text(part.str_or_empty("text")))
    } else if *kind == *"image_url" {
        Some(part.clone())
    } else {
        None
    }
}

/// Converts the parts of a chat message to output parts.
fn convert_parts(parts: &Vec<Json>) -> (r: Vec<Json>)
    ensures
        items_model(r@) == items_model(parts@).filter_map(output_part_fn()),
{
    let ghost models = items_model(parts@);
    let mut kept: Vec<Json> = Vec::new();
    let n: usize = parts.len();
    proof {
        lemma_items_model(parts@);
        assert(models.take(0) =~= Seq::empty());
    }
    for i in 0..n
        invariant
            n == parts@.len(),
            models == items_model(parts@),
            models.len() == n,
            items_model(kept@) == models.take(i as int).filter_map(output_part_fn()),
    {
        proof {
            lemma_items_model(parts@);
            models.lemma_filter_map_take_succ(output_part_fn(), i as int);
        }
        if let Some(part) = convert_part(&parts[i]) {
            let ghost before = kept@;
            kept.push(part);
            proof {
                assert(kept@.drop_last() =~= before);
            }
        }
    }
    assert(models.take(n as int) =~= models);
    kept
}

/// Converts a chat message to output items with a given status. There is no message that it
/// refuses.
pub fn convert_chat_message_to_output(message: &Json, status: &str) -> (r: Result<
    Vec<Json>,
    ProxyError,
>)
    ensures
        r is Ok,
        items_model(r->Ok_0@) == message_output(message@, status@),
{
    if let Some(calls) = message.get_array("tool_calls") {
        return Ok(convert_tool_calls(calls, status));
    }
    let role = match message.get_str("role") {
        Some(role) => role,
        None => "assistant",
    };
    let content = match message.get("content") {
        Some(Json::Text(text)) => single(build_output_text(text.as_str())),
        Some(Json::Array(parts)) => convert_parts(parts),
        _ => single(build_empty_output_text()),
    };
    Ok(single(build_message_item(role, status, content)))
}

/// The status that a finish reason stands for.
pub fn status_of(reason: Option<&str>) -> (r: &'static str)
    ensures
        r@ == finish_status(
            match reason {
                Some(s) => Some(s@),
                None => None,
            },
        ),
{
    match reason {
        Some(s) => if *s == *"length" {
            "incomplete"
        } else {
            "completed"
        },
        None => "completed",
    }
}

/// A copy of a count of tokens.
pub fn copy_token_count(usage: &Json, key: &str) -> (r: Json)
    ensures
        r@ == token_count(usage@, key@),
{
    match usage.member(key) {
        Some(count) => count,
        None => Json::integer(0),
    }
}

/// The token counts of an answer, under the names of the Responses API.
pub fn build_token_counts(usage: &Json) -> (r: Object)
    ensures
        r@ == token_counts(usage@),
{
    Object::new().with("input_tokens", copy_token_count(usage, "prompt_tokens")).with(
        "output_tokens",
        copy_token_count(usage, "completion_tokens"),
    ).with("total_tokens", copy_token_count(usage, "total_tokens"))
}

/// What an answer says of cached input tokens.
fn convert_cached_details(usage: &Json) -> (r: Option<Json>)
    ensures
        match r {
            Some(v) => cached_details(usage@) == Some(v@),
            None => cached_details(usage@) is None,
        },
{
    let details = match usage.get("prompt_tokens_details") {
        Some(details) => details,
        None => return None,
    };
    match details.member("cached_tokens") {
        Some(cached) => Some(Json::Object(Object::new().with("cached_tokens", cached))),
        None => None,
    }
}

/// Converts the usage of an answer.
fn convert_usage(body: &Json) -> (r: Option<Json>)
    ensures
        match r {
            Some(v) => answer_usage(body@) == Some(v@),
            None => answer_usage(body@) is None,
        },
{
    match body.get("usage") {
        Some(usage) => Some(
            Json::Object(
                build_token_counts(usage).put(
                    "input_tokens_details",
                    convert_cached_details(usage),
                ),
            ),
        ),
        None => None,
    }
}

/// Converts a chat answer to an answer of the Responses API.
///
/// - the message of each choice becomes items of `output`
/// - the finish reason of each choice becomes the status of its items, and that of the last one the
///   `status` of the answer
/// - `usage.prompt_tokens` becomes `usage.input_tokens`
/// - `usage.completion_tokens` becomes `usage.output_tokens`
///
/// There is no answer that it refuses.
pub fn chat_completions_to_responses(body: Json) -> (r: Result<Json, ProxyError>)
    ensures
        r is Ok,
        r->Ok_0@ == responses_answer(body@),
{
    let mut output: Vec<Json> = Vec::new();
    let mut status = "completed";
    if let Some(items) = body.get_array("choices") {
        let ghost models = items_model(items@);
        let n: usize = items.len();
        proof {
            lemma_items_model(items@);
            assert(models.take(0).map_values(choice_output_fn()) =~= Seq::empty());
            assert(items_model(output@) =~= models.take(0).flat_map(choice_output_fn()));
        }
        for i in 0..n
            invariant
                n == items@.len(),
                models == items_model(items@),
                models.len() == n,
                items_model(output@) == models.take(i as int).flat_map(choice_output_fn()),
                status@ == if i > 0 {
                    choice_status(models[i - 1])
                } else {
                    "completed"@
                },
        {
            proof {
                lemma_items_model(items@);
                models.lemma_flat_map_take_append(choice_output_fn(), i as int);
            }
            let choice = &items[i];
            status = status_of(choice.get_str("finish_reason"));
            if let Some(message) = choice.get("message") {
                let ghost before = output@;
                match convert_chat_message_to_output(message, status) {
                    Ok(mut converted) => {
                        let ghost added = converted@;
                        output.append(&mut converted);
                        proof {
                            lemma_items_model(before);
                            lemma_items_model(added);
                            lemma_items_model(output@);
                            assert(items_model(output@) =~= items_model(before) + items_model(
                                added,
                            ));
                        }
                    },
                    Err(e) => return Err(e),
                }
            }
        }
        assert(models.take(n as int) =~= models);
    } else {
        proof {
            assert(choices(body@).map_values(choice_output_fn()) =~= Seq::empty());
            assert(choices(body@).flat_map(choice_output_fn()) =~= Seq::empty());
        }
    }
    proof {
        lemma_items_model(output@);
    }
    if output.len() == 0 {
        let content = single(build_empty_output_text());
        output = single(build_message_item("assistant", status, content));
    }
    let answer = Object::new().put("id", body.string_member("id")).with(
        "object",
        Json::text("response"),
    ).put("model", body.string_member("model")).put("created_at", body.member("created")).with(
        "output",
        Json::Array(output),
    ).with("status", Json::text(status)).put("usage", convert_usage(&body));
    Ok(Json::Object(answer))
}

} // verus!
