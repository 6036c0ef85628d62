//! What holds of every answer that a chat answer becomes, and what survives both directions.

use crate::json::{put, string_member, JsonSpec};
use crate::json_laws::{lemma_names, only_keys};
use crate::request::{call_message, chat_message, chat_role, item_message};
use crate::request_laws::lemma_put;
use crate::response::{
    answer_output, answer_status, answer_usage, cached_details, call_item, call_output,
    call_output_fn, choice_output, choice_output_fn, choice_status, choices, finish_status,
    message_item, message_output, message_role, output_content, output_part_fn, output_text,
    responses_answer, token_count, token_counts,
};
use crate::value::integer;
use vstd::prelude::*;

verus! {

/// The member of an answer under a key, read off the chat answer.
pub open spec fn answer_member(body: JsonSpec, key: Seq<char>) -> Option<JsonSpec> {
    if key == "id"@ || key == "model"@ {
        match body.get(key) {
            Some(JsonSpec::Text(text)) => Some(JsonSpec::Text(text)),
            _ => None,
        }
    } else if key == "object"@ {
        Some(JsonSpec::Text("response"@))
    } else if key == "created_at"@ {
        body.get("created"@)
    } else if key == "output"@ {
        Some(JsonSpec::Array(answer_output(body)))
    } else if key == "status"@ {
        Some(JsonSpec::Text(answer_status(body)))
    } else if key == "usage"@ {
        answer_usage(body)
    } else {
        None
    }
}

/// The keys of an answer differ from each other.
proof fn lemma_answer_keys()
    ensures
        "id"@.len() == 2,
        "model"@.len() == 5,
        "usage"@.len() == 5,
        "object"@.len() == 6,
        "output"@.len() == 6,
        "status"@.len() == 6,
        "created_at"@.len() == 10,
        "model"@ != "usage"@,
        "object"@ != "output"@,
        "object"@ != "status"@,
        "output"@ != "status"@,
{
    reveal_strlit("id");
    reveal_strlit("model");
    reveal_strlit("usage");
    reveal_strlit("object");
    reveal_strlit("output");
    reveal_strlit("status");
    reveal_strlit("created_at");
    assert("model"@[0] != "usage"@[0]);
    assert("object"@[1] != "output"@[1]);
    assert("object"@[0] != "status"@[0]);
    assert("output"@[0] != "status"@[0]);
}

/// Every member of an answer, and that there is no other.
pub proof fn law_answer_members(body: JsonSpec, key: Seq<char>)
    ensures
        responses_answer(body).get(key) == answer_member(body, key),
{
    lemma_answer_keys();
    let object = Some(JsonSpec::Text("response"@));
    let output = Some(JsonSpec::Array(answer_output(body)));
    let status = Some(JsonSpec::Text(answer_status(body)));
    let m0 = put(Map::empty(), "id"@, string_member(body, "id"@));
    let m1 = put(m0, "object"@, object);
    let m2 = put(m1, "model"@, string_member(body, "model"@));
    let m3 = put(m2, "created_at"@, body.get("created"@));
    let m4 = put(m3, "output"@, output);
    let m5 = put(m4, "status"@, status);
    let m6 = put(m5, "usage"@, answer_usage(body));
    assert(responses_answer(body) == JsonSpec::Object(m6));
    lemma_put(Map::empty(), "id"@, string_member(body, "id"@), key);
    lemma_put(m0, "object"@, object, key);
    lemma_put(m1, "model"@, string_member(body, "model"@), key);
    lemma_put(m2, "created_at"@, body.get("created"@), key);
    lemma_put(m3, "output"@, output, key);
    lemma_put(m4, "status"@, status, key);
    lemma_put(m5, "usage"@, answer_usage(body), key);
}

/// An answer has at least one output item.
pub proof fn law_output_not_empty(body: JsonSpec)
    ensures
        answer_output(body).len() > 0,
{
}

/// An answer is incomplete exactly when its last choice was cut off at its length, and completed
/// in every other case.
pub proof fn law_status(body: JsonSpec)
    ensures
        answer_status(body) == "incomplete"@ <==> choices(body).len() > 0
            && choices(body).last().get_str("finish_reason"@) == Some("length"@),
        answer_status(body) == "incomplete"@ || answer_status(body) == "completed"@,
{
    reveal_strlit("incomplete");
    reveal_strlit("completed");
    assert("incomplete"@.len() != "completed"@.len());
}

/// The choices of an answer become output items one by one, in their order.
pub proof fn law_choices_in_order(a: Seq<JsonSpec>, b: Seq<JsonSpec>)
    ensures
        (a + b).flat_map(choice_output_fn()) == a.flat_map(choice_output_fn()) + b.flat_map(
            choice_output_fn(),
        ),
{
    let f = choice_output_fn();
    assert((a + b).map_values(f) =~= a.map_values(f) + b.map_values(f));
    vstd::seq_lib::lemma_flatten_concat(a.map_values(f), b.map_values(f));
}

/// A message that lists tool calls becomes function calls and nothing else.
pub proof fn law_calls_stand_alone(message: JsonSpec, status: Seq<char>, i: int)
    requires
        message.get_array("tool_calls"@) is Some,
        0 <= i < message_output(message, status).len(),
    ensures
        ({
            let item = message_output(message, status)[i];
            &&& item.get_str("type"@) == Some("function_call"@)
            &&& item.get_str("id"@) == item.get_str("call_id"@)
            &&& item.get_str("status"@) == Some(status)
        }),
{
    reveal_strlit("type");
    reveal_strlit("id");
    reveal_strlit("call_id");
    reveal_strlit("name");
    reveal_strlit("arguments");
    reveal_strlit("status");
    assert("type"@[0] != "name"@[0]);
    assert("type"@.len() != "id"@.len());
    assert("type"@.len() != "call_id"@.len());
    assert("type"@.len() != "arguments"@.len());
    assert("type"@.len() != "status"@.len());
    assert("id"@.len() != "call_id"@.len());
    assert("id"@.len() != "name"@.len());
    assert("id"@.len() != "arguments"@.len());
    assert("id"@.len() != "status"@.len());
    assert("call_id"@.len() != "name"@.len());
    assert("call_id"@.len() != "arguments"@.len());
    assert("call_id"@.len() != "status"@.len());
    let calls = message.get_array("tool_calls"@)->0;
    let item = message_output(message, status)[i];
    let f = call_output_fn(status);
    assert(calls.filter_map(f).contains(item));
    calls.lemma_filter_map_contains(f, item);
    let call = choose|t: JsonSpec| #[trigger] calls.contains(t) && f(t) == Some(item);
    assert(call_output(call, status) == Some(item));
}

/// Each output item that a choice becomes has the status of the choice: incomplete where it was cut
/// off at its length, else completed.
pub proof fn law_item_status(choice: JsonSpec, i: int)
    requires
        0 <= i < choice_output(choice).len(),
    ensures
        choice_output(choice)[i].get_str("status"@) == Some(
            finish_status(choice.get_str("finish_reason"@)),
        ),
{
    reveal_strlit("type");
    reveal_strlit("role");
    reveal_strlit("status");
    reveal_strlit("content");
    assert("status"@.len() != "type"@.len());
    assert("status"@.len() != "role"@.len());
    assert("status"@.len() != "content"@.len());
    let message = choice.get("message"@)->0;
    if message.get_array("tool_calls"@) is Some {
        law_calls_stand_alone(message, choice_status(choice), i);
    }
}

/// The token counts of an answer: each is that of the chat answer under its own name, or zero.
pub proof fn law_token_counts(usage: JsonSpec)
    ensures
        token_counts(usage)["input_tokens"@] == token_count(usage, "prompt_tokens"@),
        token_counts(usage)["output_tokens"@] == token_count(usage, "completion_tokens"@),
        token_counts(usage)["total_tokens"@] == token_count(usage, "total_tokens"@),
        token_counts(usage).dom() == set!["input_tokens"@, "output_tokens"@, "total_tokens"@],
{
    reveal_strlit("input_tokens");
    reveal_strlit("output_tokens");
    reveal_strlit("total_tokens");
    assert("input_tokens"@.len() != "output_tokens"@.len());
    assert("input_tokens"@[0] != "total_tokens"@[0]);
    assert("output_tokens"@.len() != "total_tokens"@.len());
    assert(token_counts(usage).dom() =~= set![
        "input_tokens"@,
        "output_tokens"@,
        "total_tokens"@,
    ]);
}

/// A function call that goes out as a chat message and comes back keeps its identifier, its name
/// and its arguments.
pub proof fn law_call_round_trip(item: JsonSpec, status: Seq<char>)
    requires
        item.get_str("type"@) == Some("function_call"@),
    ensures
        item_message(item) is Some,
        message_output(item_message(item)->0, status) == seq![
            call_item(
                item.str_or_empty("call_id"@),
                item.str_or_empty("name"@),
                item.str_or_empty("arguments"@),
                status,
            ),
        ],
{
    reveal_strlit("message");
    reveal_strlit("function_call");
    assert("message"@.len() != "function_call"@.len());
    lemma_call_message(
        item.str_or_empty("call_id"@),
        item.str_or_empty("name"@),
        item.str_or_empty("arguments"@),
        status,
    );
}

/// The message of a function call becomes that function call.
proof fn lemma_call_message(
    call_id: Seq<char>,
    name: Seq<char>,
    arguments: Seq<char>,
    status: Seq<char>,
)
    ensures
        message_output(call_message(call_id, name, arguments), status) == seq![
            call_item(call_id, name, arguments, status),
        ],
{
    reveal_strlit("role");
    reveal_strlit("content");
    reveal_strlit("tool_calls");
    reveal_strlit("id");
    reveal_strlit("type");
    reveal_strlit("function");
    reveal_strlit("name");
    reveal_strlit("arguments");
    assert("id"@.len() != "type"@.len());
    assert("id"@.len() != "function"@.len());
    assert("type"@.len() != "function"@.len());
    assert("name"@.len() != "arguments"@.len());
    assert("role"@.len() != "tool_calls"@.len());
    assert("content"@.len() != "tool_calls"@.len());
    let message = call_message(call_id, name, arguments);
    let calls = message.get_array("tool_calls"@)->0;
    assert(calls.len() == 1);
    let item = call_item(call_id, name, arguments, status);
    assert(call_output(calls[0], status) == Some(item));
    reveal_with_fuel(Seq::filter_map, 2);
    assert(calls.drop_last() =~= Seq::empty());
    assert(message_output(message, status) =~= seq![item]);
}

/// A message with plain text that goes out as a chat message and comes back keeps its text and its
/// role, but that a developer speaks as the system.
pub proof fn law_text_round_trip(item: JsonSpec, status: Seq<char>)
    requires
        item.get_str("type"@) == Some("message"@),
        item.get_str("role"@) is Some,
        item.get_str("content"@) is Some,
    ensures
        item_message(item) is Some,
        message_output(item_message(item)->0, status) == seq![
            message_item(
                chat_role(item.get_str("role"@)->0),
                status,
                seq![output_text(item.get_str("content"@)->0)],
            ),
        ],
{
    reveal_strlit("role");
    reveal_strlit("content");
    reveal_strlit("tool_calls");
    assert("role"@.len() != "content"@.len());
    assert("role"@.len() != "tool_calls"@.len());
    assert("content"@.len() != "tool_calls"@.len());
    let message = chat_message(
        chat_role(item.get_str("role"@)->0),
        item.get("content"@)->0,
    );
    assert(item_message(item) == Some(message));
    assert(message.get("tool_calls"@) is None);
    assert(message_role(message) == chat_role(item.get_str("role"@)->0));
}

/// Whether a value is a text part of an output message that holds just the given text.
pub open spec fn is_output_text(part: JsonSpec, text: Seq<char>) -> bool {
    &&& only_keys(part, seq!["type"@, "text"@, "annotations"@])
    &&& part.get("type"@) == Some(JsonSpec::Text("output_text"@))
    &&& part.get("text"@) == Some(JsonSpec::Text(text))
    &&& part.get("annotations"@) == Some(JsonSpec::Array(Seq::empty()))
}

/// A text part of an output message holds the text itself.
pub proof fn law_output_text(text: Seq<char>)
    ensures
        is_output_text(output_text(text), text),
{
    lemma_names();
    let keys = seq!["type"@, "text"@, "annotations"@];
    assert(keys[0] == "type"@ && keys[1] == "text"@ && keys[2] == "annotations"@);
}

/// Whether a value is a message among the output items, with the given role, status and content.
pub open spec fn is_message(
    item: JsonSpec,
    role: Seq<char>,
    status: Seq<char>,
    content: Seq<JsonSpec>,
) -> bool {
    &&& only_keys(item, seq!["type"@, "role"@, "status"@, "content"@])
    &&& item.get("type"@) == Some(JsonSpec::Text("message"@))
    &&& item.get("role"@) == Some(JsonSpec::Text(role))
    &&& item.get("status"@) == Some(JsonSpec::Text(status))
    &&& item.get("content"@) == Some(JsonSpec::Array(content))
}

/// A message among the output items holds its role, status and content.
proof fn lemma_message_item(role: Seq<char>, status: Seq<char>, content: Seq<JsonSpec>)
    ensures
        is_message(message_item(role, status, content), role, status, content),
{
    lemma_names();
    let keys = seq!["type"@, "role"@, "status"@, "content"@];
    assert(keys[0] == "type"@ && keys[1] == "role"@ && keys[2] == "status"@ && keys[3]
        == "content"@);
}

/// Whether a value is a function call among the output items, with the given identifier, name,
/// arguments and status.
pub open spec fn is_call(
    item: JsonSpec,
    call_id: Seq<char>,
    name: Seq<char>,
    arguments: Seq<char>,
    status: Seq<char>,
) -> bool {
    &&& only_keys(item, seq!["type"@, "id"@, "call_id"@, "name"@, "arguments"@, "status"@])
    &&& item.get("type"@) == Some(JsonSpec::Text("function_call"@))
    &&& item.get("id"@) == Some(JsonSpec::Text(call_id))
    &&& item.get("call_id"@) == Some(JsonSpec::Text(call_id))
    &&& item.get("name"@) == Some(JsonSpec::Text(name))
    &&& item.get("arguments"@) == Some(JsonSpec::Text(arguments))
    &&& item.get("status"@) == Some(JsonSpec::Text(status))
}

/// A function call among the output items holds its identifier, name, arguments and status.
pub proof fn law_call_item(
    call_id: Seq<char>,
    name: Seq<char>,
    arguments: Seq<char>,
    status: Seq<char>,
)
    ensures
        is_call(call_item(call_id, name, arguments, status), call_id, name, arguments, status),
{
    lemma_names();
    let keys = seq!["type"@, "id"@, "call_id"@, "name"@, "arguments"@, "status"@];
    assert(keys[0] == "type"@ && keys[1] == "id"@ && keys[2] == "call_id"@ && keys[3] == "name"@
        && keys[4] == "arguments"@ && keys[5] == "status"@);
}

/// The string member of a value under a key, or an empty string.
pub open spec fn text_at(j: JsonSpec, key: Seq<char>) -> Seq<char> {
    match j.get(key) {
        Some(JsonSpec::Text(text)) => text,
        _ => Seq::empty(),
    }
}

/// Whether a tool call says which function it calls.
pub open spec fn has_function() -> spec_fn(JsonSpec) -> bool {
    |call: JsonSpec| call.get("function"@) is Some
}

/// Whether an output item is the function call that a tool call of a chat message makes.
pub open spec fn call_becomes(call: JsonSpec, item: JsonSpec, status: Seq<char>) -> bool {
    let function = call.get("function"@)->0;
    is_call(
        item,
        text_at(call, "id"@),
        text_at(function, "name"@),
        text_at(function, "arguments"@),
        status,
    )
}

/// A message that lists tool calls becomes one function call for each of them that says which
/// function it calls, in order, and nothing else.
pub proof fn law_tool_calls(message: JsonSpec, status: Seq<char>)
    requires
        message.get("tool_calls"@) is Some,
        message.get("tool_calls"@)->0 is Array,
    ensures
        ({
            let kept = message.get("tool_calls"@)->0->Array_0.filter(has_function());
            let items = message_output(message, status);
            &&& items.len() == kept.len()
            &&& forall|i: int|
                0 <= i < kept.len() ==> call_becomes(#[trigger] kept[i], items[i], status)
        }),
        forall|call: JsonSpec| #[trigger] has_function()(call) == (call.get("function"@) is Some),
{
    lemma_tool_calls(message.get("tool_calls"@)->0->Array_0, status);
}

/// The function calls that tool calls become.
proof fn lemma_tool_calls(calls: Seq<JsonSpec>, status: Seq<char>)
    ensures
        ({
            let kept = calls.filter(has_function());
            let items = calls.filter_map(call_output_fn(status));
            &&& items.len() == kept.len()
            &&& forall|i: int|
                0 <= i < kept.len() ==> call_becomes(#[trigger] kept[i], items[i], status)
        }),
    decreases calls.len(),
{
    reveal(Seq::filter);
    if calls.len() > 0 {
        let rest = calls.drop_last();
        let last = calls.last();
        lemma_tool_calls(rest, status);
        let kept = calls.filter(has_function());
        let items = calls.filter_map(call_output_fn(status));
        let n = rest.filter(has_function()).len() as int;
        if last.get("function"@) is Some {
            let function = last.get("function"@)->0;
            law_call_item(
                last.str_or_empty("id"@),
                function.str_or_empty("name"@),
                function.str_or_empty("arguments"@),
                status,
            );
            assert(last.str_or_empty("id"@) =~= text_at(last, "id"@));
            assert(function.str_or_empty("name"@) =~= text_at(function, "name"@));
            assert(function.str_or_empty("arguments"@) =~= text_at(function, "arguments"@));
        }
        assert forall|i: int| 0 <= i < kept.len() implies call_becomes(
            #[trigger] kept[i],
            items[i],
            status,
        ) by {
            if i < n {
                assert(kept[i] == rest.filter(has_function())[i]);
                assert(items[i] == rest.filter_map(call_output_fn(status))[i]);
            }
        }
    }
}

/// Whether a part of a chat message has a counterpart in an output message: it is a text or an
/// image.
pub open spec fn is_shown() -> spec_fn(JsonSpec) -> bool {
    |part: JsonSpec|
        part.get("type"@) == Some(JsonSpec::Text("text"@)) || part.get("type"@) == Some(
            JsonSpec::Text("image_url"@),
        )
}

/// Whether a part of an output message says what a part of a chat message says: a text is the same
/// text, and an image stays as it is.
pub open spec fn shown_as(part: JsonSpec, out: JsonSpec) -> bool {
    if part.get("type"@) == Some(JsonSpec::Text("text"@)) {
        is_output_text(out, text_at(part, "text"@))
    } else {
        out == part
    }
}

/// The parts of an output message.
proof fn lemma_shown(parts: Seq<JsonSpec>)
    ensures
        ({
            let kept = parts.filter(is_shown());
            let out = parts.filter_map(output_part_fn());
            &&& out.len() == kept.len()
            &&& forall|i: int| 0 <= i < kept.len() ==> shown_as(#[trigger] kept[i], out[i])
        }),
    decreases parts.len(),
{
    reveal(Seq::filter);
    lemma_names();
    if parts.len() > 0 {
        let rest = parts.drop_last();
        let last = parts.last();
        lemma_shown(rest);
        let kept = parts.filter(is_shown());
        let out = parts.filter_map(output_part_fn());
        let n = rest.filter(is_shown()).len() as int;
        law_output_text(last.str_or_empty("text"@));
        assert(last.str_or_empty("text"@) =~= text_at(last, "text"@));
        assert forall|i: int| 0 <= i < kept.len() implies shown_as(#[trigger] kept[i], out[i]) by {
            if i < n {
                assert(kept[i] == rest.filter(is_shown())[i]);
                assert(out[i] == rest.filter_map(output_part_fn())[i]);
            }
        }
    }
}

/// A message that lists no tool calls becomes one message, with its role, or that of the assistant
/// where it has none, and with its content: a string as one text, a list as the texts and images in
/// it, in order, and anything else as one empty text.
pub proof fn law_plain_message(message: JsonSpec, status: Seq<char>)
    requires
        message.get_array("tool_calls"@) is None,
    ensures
        message_output(message, status).len() == 1,
        ({
            let item = message_output(message, status)[0];
            let role = match message.get("role"@) {
                Some(JsonSpec::Text(role)) => role,
                _ => "assistant"@,
            };
            let content = item.get_array("content"@)->0;
            &&& is_message(item, role, status, content)
            &&& match message.get("content"@) {
                Some(JsonSpec::Text(text)) => {
                    content.len() == 1 && is_output_text(content[0], text)
                },
                Some(JsonSpec::Array(parts)) => {
                    let kept = parts.filter(is_shown());
                    &&& content.len() == kept.len()
                    &&& forall|i: int|
                        0 <= i < kept.len() ==> shown_as(#[trigger] kept[i], content[i])
                },
                _ => content.len() == 1 && is_output_text(content[0], Seq::empty()),
            }
        }),
        forall|part: JsonSpec| #[trigger]
            is_shown()(part) == (part.get("type"@) == Some(JsonSpec::Text("text"@)) || part.get(
                "type"@,
            ) == Some(JsonSpec::Text("image_url"@))),
{
    lemma_names();
    let content = output_content(message.get("content"@));
    lemma_message_item(message_role(message), status, content);
    law_output_text(Seq::empty());
    match message.get("content"@) {
        Some(JsonSpec::Text(text)) => {
            law_output_text(text);
        },
        Some(JsonSpec::Array(parts)) => {
            lemma_shown(parts);
        },
        _ => {},
    }
}

/// The output of an answer is what the messages of its choices become, one after the other, each
/// with the status of its choice; a choice without a message adds nothing. Where that is nothing,
/// it is one empty message of the assistant with the status of the answer.
pub proof fn law_output(body: JsonSpec)
    ensures
        ({
            let given = match body.get("choices"@) {
                Some(JsonSpec::Array(items)) => items,
                _ => Seq::empty(),
            };
            let items = given.flat_map(choice_output_fn());
            let output = responses_answer(body).get_array("output"@);
            &&& output is Some
            &&& items.len() > 0 ==> output->0 == items
            &&& items.len() == 0 ==> {
                let content = output->0[0].get_array("content"@)->0;
                &&& output->0.len() == 1
                &&& is_message(output->0[0], "assistant"@, told_status(given), content)
                &&& content.len() == 1
                &&& is_output_text(content[0], Seq::empty())
            }
            &&& responses_answer(body).get("status"@) == Some(JsonSpec::Text(told_status(given)))
        }),
        forall|choice: JsonSpec| #[trigger]
            choice_output_fn()(choice) == (match choice.get("message"@) {
                Some(message) => message_output(message, told_status(seq![choice])),
                None => Seq::empty(),
            }),
{
    lemma_names();
    law_answer_members(body, "output"@);
    law_answer_members(body, "status"@);
    lemma_message_item("assistant"@, answer_status(body), seq![output_text(Seq::empty())]);
    law_output_text(Seq::empty());
    assert forall|choice: JsonSpec| #[trigger]
        choice_output_fn()(choice) == (match choice.get("message"@) {
            Some(message) => message_output(message, told_status(seq![choice])),
            None => Seq::empty(),
        }) by {
        assert(choice_output_fn()(choice) == choice_output(choice));
        assert(seq![choice].last() == choice);
    }
}

/// The status that the last of some choices stands for: incomplete where it was cut off at its
/// length, else completed.
pub open spec fn told_status(given: Seq<JsonSpec>) -> Seq<char> {
    if given.len() > 0 && given.last().get("finish_reason"@) == Some(JsonSpec::Text("length"@)) {
        "incomplete"@
    } else {
        "completed"@
    }
}

/// Whether a value is a count of tokens that a usage tells under a key, or zero where it tells
/// none.
pub open spec fn counts(usage: JsonSpec, key: Seq<char>, value: Option<JsonSpec>) -> bool {
    if usage.get(key) is Some {
        value == usage.get(key)
    } else {
        value == Some(JsonSpec::Number(integer(0)))
    }
}

/// A count of tokens is what a usage tells under its key, whatever it is, or zero.
pub proof fn law_token_count(usage: JsonSpec, key: Seq<char>)
    ensures
        counts(usage, key, Some(token_count(usage, key))),
{
}

/// The counts of tokens that a usage tells, each under its new name, and nothing else.
pub proof fn law_counts(usage: JsonSpec)
    ensures
        ({
            let counted = JsonSpec::Object(token_counts(usage));
            &&& only_keys(counted, seq!["input_tokens"@, "output_tokens"@, "total_tokens"@])
            &&& counts(usage, "prompt_tokens"@, counted.get("input_tokens"@))
            &&& counts(usage, "completion_tokens"@, counted.get("output_tokens"@))
            &&& counts(usage, "total_tokens"@, counted.get("total_tokens"@))
        }),
{
    lemma_names();
    let keys = seq!["input_tokens"@, "output_tokens"@, "total_tokens"@];
    assert(keys[0] == "input_tokens"@ && keys[1] == "output_tokens"@ && keys[2]
        == "total_tokens"@);
}

/// The usage of an answer: the counts under their new names, and the count of cached tokens where
/// it is told; none where the chat answer tells none.
pub proof fn law_usage(body: JsonSpec)
    ensures
        ({
            let usage = responses_answer(body).get("usage"@);
            &&& usage is Some <==> body.get("usage"@) is Some
            &&& usage is Some ==> {
                let told = body.get("usage"@)->0;
                let details = usage->0.get("input_tokens_details"@);
                let cached = match told.get("prompt_tokens_details"@) {
                    Some(details) => details.get("cached_tokens"@),
                    None => None,
                };
                &&& only_keys(
                    usage->0,
                    seq![
                        "input_tokens"@,
                        "output_tokens"@,
                        "total_tokens"@,
                        "input_tokens_details"@,
                    ],
                )
                &&& counts(told, "prompt_tokens"@, usage->0.get("input_tokens"@))
                &&& counts(told, "completion_tokens"@, usage->0.get("output_tokens"@))
                &&& counts(told, "total_tokens"@, usage->0.get("total_tokens"@))
                &&& details is Some <==> cached is Some
                &&& details is Some ==> only_keys(details->0, seq!["cached_tokens"@])
                    && details->0.get("cached_tokens"@) == cached
            }
        }),
{
    lemma_names();
    law_answer_members(body, "usage"@);
    if let Some(told) = body.get("usage"@) {
        law_counts(told);
        let keys = seq![
            "input_tokens"@,
            "output_tokens"@,
            "total_tokens"@,
            "input_tokens_details"@,
        ];
        assert(keys[0] == "input_tokens"@ && keys[1] == "output_tokens"@ && keys[2]
            == "total_tokens"@ && keys[3] == "input_tokens_details"@);
        let one = seq!["cached_tokens"@];
        assert(one[0] == "cached_tokens"@);
        let usage = JsonSpec::Object(
            put(token_counts(told), "input_tokens_details"@, cached_details(told)),
        );
        assert forall|k: Seq<char>| #[trigger] usage.get(k) is Some implies keys.contains(k) by {
            lemma_put(token_counts(told), "input_tokens_details"@, cached_details(told), k);
            if k != "input_tokens_details"@ {
                assert(JsonSpec::Object(token_counts(told)).get(k) is Some);
            }
        }
    }
}

} // verus!
