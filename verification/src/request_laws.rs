//! What holds of every chat request that a request of the Responses API becomes.

use crate::json::{put, string_member, JsonSpec};
use crate::json_laws::{lemma_names, only_keys};
use crate::request::{
    chat_content, chat_messages, chat_part, chat_part_fn, chat_request, chat_tool, chat_tool_fn,
    chat_tools, input_messages, instruction_messages, item_message, item_message_fn,
    reasoning_effort, response_format,
};
use vstd::prelude::*;

verus! {

/// The member of a chat request under a key, read off the request of the Responses API.
pub open spec fn chat_member(body: JsonSpec, key: Seq<char>) -> Option<JsonSpec> {
    if key == "model"@ {
        match body.get("model"@) {
            Some(JsonSpec::Text(model)) => Some(JsonSpec::Text(model)),
            _ => None,
        }
    } else if key == "messages"@ {
        Some(JsonSpec::Array(chat_messages(body)))
    } else if key == "max_tokens"@ {
        body.get("max_output_tokens"@)
    } else if key == "tools"@ {
        chat_tools(body)
    } else if key == "reasoning_effort"@ {
        match body.get("reasoning"@) {
            Some(reasoning) => match reasoning.get("effort"@) {
                Some(JsonSpec::Text(effort)) => Some(JsonSpec::Text(effort)),
                _ => None,
            },
            None => None,
        }
    } else if key == "response_format"@ {
        match body.get("text"@) {
            Some(text) => text.get("format"@),
            None => None,
        }
    } else if key == "temperature"@ || key == "top_p"@ || key == "stream"@ || key == "tool_choice"@
        || key == "frequency_penalty"@ || key == "presence_penalty"@ || key == "seed"@ || key
        == "stop"@ {
        body.get(key)
    } else {
        None
    }
}

/// The keys of a chat request differ from each other.
proof fn lemma_request_keys()
    ensures
        "model"@ != "tools"@,
        "model"@ != "top_p"@,
        "tools"@ != "top_p"@,
        "seed"@ != "stop"@,
        "temperature"@ != "tool_choice"@,
        "reasoning_effort"@ != "presence_penalty"@,
        "seed"@.len() == 4,
        "stop"@.len() == 4,
        "model"@.len() == 5,
        "tools"@.len() == 5,
        "top_p"@.len() == 5,
        "stream"@.len() == 6,
        "messages"@.len() == 8,
        "max_tokens"@.len() == 10,
        "temperature"@.len() == 11,
        "tool_choice"@.len() == 11,
        "response_format"@.len() == 15,
        "reasoning_effort"@.len() == 16,
        "presence_penalty"@.len() == 16,
        "frequency_penalty"@.len() == 17,
{
    reveal_strlit("seed");
    reveal_strlit("stop");
    reveal_strlit("model");
    reveal_strlit("tools");
    reveal_strlit("top_p");
    reveal_strlit("stream");
    reveal_strlit("messages");
    reveal_strlit("max_tokens");
    reveal_strlit("temperature");
    reveal_strlit("tool_choice");
    reveal_strlit("response_format");
    reveal_strlit("reasoning_effort");
    reveal_strlit("presence_penalty");
    reveal_strlit("frequency_penalty");
    assert("model"@[0] != "tools"@[0]);
    assert("model"@[0] != "top_p"@[0]);
    assert("tools"@[2] != "top_p"@[2]);
    assert("seed"@[1] != "stop"@[1]);
    assert("temperature"@[1] != "tool_choice"@[1]);
    assert("reasoning_effort"@[0] != "presence_penalty"@[0]);
}

/// Setting a member changes that member alone.
pub proof fn lemma_put(
    members: Map<Seq<char>, JsonSpec>,
    key: Seq<char>,
    value: Option<JsonSpec>,
    other: Seq<char>,
)
    ensures
        JsonSpec::Object(put(members, key, value)).get(other) == (if other == key && value is Some {
            value
        } else {
            JsonSpec::Object(members).get(other)
        }),
{
}

/// Every member of a chat request, and that there is no other: `max_output_tokens` is renamed,
/// eight members are handed on as they are, the model is handed on where it is a string, and what
/// the rest become is a matter of the messages, the tools, the effort and the format alone.
pub proof fn law_request_members(body: JsonSpec, key: Seq<char>)
    ensures
        chat_request(body).get(key) == chat_member(body, key),
{
    lemma_request_keys();
    let m0 = put(Map::empty(), "model"@, string_member(body, "model"@));
    let m1 = put(m0, "messages"@, Some(JsonSpec::Array(chat_messages(body))));
    let m2 = put(m1, "max_tokens"@, body.get("max_output_tokens"@));
    let m3 = put(m2, "temperature"@, body.get("temperature"@));
    let m4 = put(m3, "top_p"@, body.get("top_p"@));
    let m5 = put(m4, "stream"@, body.get("stream"@));
    let m6 = put(m5, "tools"@, chat_tools(body));
    let m7 = put(m6, "tool_choice"@, body.get("tool_choice"@));
    let m8 = put(m7, "reasoning_effort"@, reasoning_effort(body));
    let m9 = put(m8, "response_format"@, response_format(body));
    let m10 = put(m9, "frequency_penalty"@, body.get("frequency_penalty"@));
    let m11 = put(m10, "presence_penalty"@, body.get("presence_penalty"@));
    let m12 = put(m11, "seed"@, body.get("seed"@));
    let m13 = put(m12, "stop"@, body.get("stop"@));
    assert(chat_request(body) == JsonSpec::Object(m13));
    lemma_put(Map::empty(), "model"@, string_member(body, "model"@), key);
    lemma_put(m0, "messages"@, Some(JsonSpec::Array(chat_messages(body))), key);
    lemma_put(m1, "max_tokens"@, body.get("max_output_tokens"@), key);
    lemma_put(m2, "temperature"@, body.get("temperature"@), key);
    lemma_put(m3, "top_p"@, body.get("top_p"@), key);
    lemma_put(m4, "stream"@, body.get("stream"@), key);
    lemma_put(m5, "tools"@, chat_tools(body), key);
    lemma_put(m6, "tool_choice"@, body.get("tool_choice"@), key);
    lemma_put(m7, "reasoning_effort"@, reasoning_effort(body), key);
    lemma_put(m8, "response_format"@, response_format(body), key);
    lemma_put(m9, "frequency_penalty"@, body.get("frequency_penalty"@), key);
    lemma_put(m10, "presence_penalty"@, body.get("presence_penalty"@), key);
    lemma_put(m11, "seed"@, body.get("seed"@), key);
    lemma_put(m12, "stop"@, body.get("stop"@), key);
}

/// The instructions, where there are any, come first, as a system message; then the input.
pub proof fn law_instructions_first(body: JsonSpec)
    requires
        body.get_str("instructions"@) is Some,
        body.get_str("instructions"@)->0.len() > 0,
    ensures
        chat_messages(body).len() == 1 + input_messages(body).len(),
        chat_messages(body)[0].get_str("role"@) == Some("system"@),
        chat_messages(body)[0].get("content"@) == body.get("instructions"@),
        chat_messages(body).skip(1) == input_messages(body),
{
    reveal_strlit("role");
    reveal_strlit("content");
    assert("role"@.len() != "content"@.len());
    assert(chat_messages(body).skip(1) =~= input_messages(body));
}

/// A request without instructions has the messages of its input alone.
pub proof fn law_no_instructions(body: JsonSpec)
    requires
        match body.get_str("instructions"@) {
            Some(text) => text.len() == 0,
            None => true,
        },
    ensures
        chat_messages(body) == input_messages(body),
{
    assert(chat_messages(body) =~= input_messages(body));
}

/// Input items become messages one by one, in their order.
pub proof fn law_input_in_order(a: Seq<JsonSpec>, b: Seq<JsonSpec>)
    ensures
        (a + b).filter_map(item_message_fn()) == a.filter_map(item_message_fn()) + b.filter_map(
            item_message_fn(),
        ),
    decreases b.len(),
{
    if b.len() == 0 {
        assert(a + b =~= a);
        assert(a.filter_map(item_message_fn()) + Seq::empty() =~= a.filter_map(item_message_fn()));
    } else {
        law_input_in_order(a, b.drop_last());
        assert((a + b).drop_last() =~= a + b.drop_last());
        assert((a + b).last() == b.last());
        assert((a + b).filter_map(item_message_fn()) =~= a.filter_map(item_message_fn())
            + b.filter_map(item_message_fn()));
    }
}

/// No message of a chat request has the role `developer`.
pub proof fn law_no_developer(body: JsonSpec, i: int)
    requires
        0 <= i < chat_messages(body).len(),
    ensures
        chat_messages(body)[i].get_str("role"@) is Some,
        chat_messages(body)[i].get_str("role"@) != Some("developer"@),
{
    reveal_strlit("role");
    reveal_strlit("content");
    reveal_strlit("tool_calls");
    reveal_strlit("tool_call_id");
    reveal_strlit("developer");
    reveal_strlit("system");
    reveal_strlit("assistant");
    reveal_strlit("tool");
    assert("role"@.len() != "content"@.len());
    assert("role"@.len() != "tool_calls"@.len());
    assert("role"@.len() != "tool_call_id"@.len());
    assert("developer"@[0] != "assistant"@[0]);
    assert("developer"@.len() != "system"@.len());
    assert("developer"@.len() != "tool"@.len());
    let head = instruction_messages(body);
    if i >= head.len() {
        let message = chat_messages(body)[i];
        let items = body.get_array("input"@)->0;
        assert(input_messages(body)[i - head.len()] == message);
        assert(items.filter_map(item_message_fn()).contains(message));
        items.lemma_filter_map_contains(item_message_fn(), message);
        let item = choose|t: JsonSpec| #[trigger]
            items.contains(t) && item_message_fn()(t) == Some(message);
        assert(item_message(item) == Some(message));
    }
}

/// Every tool of a chat request is a function with the name of some tool of the request.
pub proof fn law_tools_are_functions(body: JsonSpec, i: int)
    requires
        chat_tools(body) is Some,
        0 <= i < chat_tools(body)->0->Array_0.len(),
    ensures
        ({
            let tool = chat_tools(body)->0->Array_0[i];
            let given = body.get_array("tools"@)->0;
            &&& tool.get_str("type"@) == Some("function"@)
            &&& tool.get("function"@) is Some
            &&& exists|t: JsonSpec| #[trigger]
                given.contains(t) && t.get_str("name"@) is Some && tool.get("function"@)->0.get_str(
                    "name"@,
                ) == t.get_str("name"@)
        }),
{
    reveal_strlit("type");
    reveal_strlit("function");
    reveal_strlit("name");
    reveal_strlit("description");
    reveal_strlit("parameters");
    let given = body.get_array("tools"@)->0;
    let kept = given.filter_map(chat_tool_fn());
    let tool = kept[i];
    assert(kept.contains(tool));
    given.lemma_filter_map_contains(chat_tool_fn(), tool);
    let t = choose|t: JsonSpec| #[trigger]
        given.contains(t) && chat_tool_fn()(t) == Some(tool);
    assert("description"@.len() != "name"@.len());
    assert("parameters"@.len() != "name"@.len());
    assert("type"@.len() != "function"@.len());
    assert(given.contains(t) && t.get_str("name"@) is Some);
}

/// The messages of a chat request: a system message with the instructions where these are not
/// empty, and then what the input items become, each for itself and in their order.
pub proof fn law_messages(body: JsonSpec)
    ensures
        ({
            let messages = chat_request(body).get_array("messages"@);
            let told = match body.get("instructions"@) {
                Some(JsonSpec::Text(text)) => text.len() > 0,
                _ => false,
            };
            let items = match body.get("input"@) {
                Some(JsonSpec::Array(items)) => items,
                _ => Seq::empty(),
            };
            let head: int = if told { 1 } else { 0 };
            &&& messages is Some
            &&& messages->0.len() >= head
            &&& messages->0.skip(head) == items.filter_map(item_message_fn())
            &&& told ==> {
                let first = messages->0[0];
                &&& first.get("role"@) == Some(JsonSpec::Text("system"@))
                &&& first.get("content"@) == body.get("instructions"@)
                &&& only_keys(first, seq!["role"@, "content"@])
            }
        }),
        forall|item: JsonSpec| #[trigger] item_message_fn()(item) == item_message(item),
{
    lemma_names();
    law_request_members(body, "messages"@);
    let messages = chat_messages(body);
    let keys = seq!["role"@, "content"@];
    assert(keys[0] == "role"@ && keys[1] == "content"@);
    let head = instruction_messages(body);
    assert(messages.skip(head.len() as int) =~= input_messages(body));
    let items = match body.get("input"@) {
        Some(JsonSpec::Array(items)) => items,
        _ => Seq::<JsonSpec>::empty(),
    };
    assert(input_messages(body) =~= items.filter_map(item_message_fn()));
}

/// A message becomes a chat message with its role and its content, where it has both; what a
/// developer says is said by the system.
pub proof fn law_message(item: JsonSpec)
    requires
        item.get("type"@) == Some(JsonSpec::Text("message"@)),
    ensures
        item_message(item) is Some <==> item.get_str("role"@) is Some && item.get(
            "content"@,
        ) is Some,
        item_message(item) is Some ==> {
            let message = item_message(item)->0;
            let role = item.get_str("role"@)->0;
            &&& only_keys(message, seq!["role"@, "content"@])
            &&& role == "developer"@ ==> message.get("role"@) == Some(JsonSpec::Text("system"@))
            &&& role != "developer"@ ==> message.get("role"@) == item.get("role"@)
            &&& message.get("content"@) == Some(chat_content(item.get("content"@)->0))
        },
{
    lemma_names();
    let keys = seq!["role"@, "content"@];
    assert(keys[0] == "role"@ && keys[1] == "content"@);
}

/// Whether a content part has a counterpart among the parts of a chat message: it is a text, or an
/// image that says where it is.
pub open spec fn convertible(part: JsonSpec) -> bool {
    ||| part.get("type"@) == Some(JsonSpec::Text("input_text"@))
    ||| part.get("type"@) == Some(JsonSpec::Text("output_text"@))
    ||| part.get("type"@) == Some(JsonSpec::Text("input_image"@)) && part.get("image_url"@) is Some
}

/// Whether a content part is a text.
pub open spec fn is_text(part: JsonSpec) -> bool {
    ||| part.get("type"@) == Some(JsonSpec::Text("input_text"@))
    ||| part.get("type"@) == Some(JsonSpec::Text("output_text"@))
}

/// Whether a value holds the text of a part, which is empty where the part has no string.
pub open spec fn holds_text(part: JsonSpec, value: Option<JsonSpec>) -> bool {
    match part.get("text"@) {
        Some(JsonSpec::Text(text)) => value == Some(JsonSpec::Text(text)),
        _ => value is Some && value->0 is Text && value->0->Text_0.len() == 0,
    }
}

/// Whether a chat part says what a content part says.
pub open spec fn part_becomes(part: JsonSpec, chat: JsonSpec) -> bool {
    if is_text(part) {
        &&& only_keys(chat, seq!["type"@, "text"@])
        &&& chat.get("type"@) == Some(JsonSpec::Text("text"@))
        &&& holds_text(part, chat.get("text"@))
    } else {
        &&& only_keys(chat, seq!["type"@, "image_url"@])
        &&& chat.get("type"@) == Some(JsonSpec::Text("image_url"@))
        &&& chat.get("image_url"@) == part.get("image_url"@)
    }
}

/// A content part becomes a chat part exactly where it has a counterpart, and the two say the same.
pub proof fn law_part(part: JsonSpec)
    ensures
        chat_part(part) is Some <==> convertible(part),
        chat_part(part) is Some ==> part_becomes(part, chat_part(part)->0),
{
    lemma_names();
    let texts = seq!["type"@, "text"@];
    let images = seq!["type"@, "image_url"@];
    assert(texts[0] == "type"@ && texts[1] == "text"@);
    assert(images[0] == "type"@ && images[1] == "image_url"@);
    if is_text(part) {
        assert(chat_part(part) is Some);
        if !(part.get("text"@) is Some && part.get("text"@)->0 is Text) {
            assert(part.str_or_empty("text"@).len() == 0);
        }
    }
}

/// `convertible` as a function value.
pub open spec fn convertible_fn() -> spec_fn(JsonSpec) -> bool {
    |part: JsonSpec| convertible(part)
}

/// The chat parts of a list of content parts are the counterparts of those that have one, in order.
proof fn lemma_parts(parts: Seq<JsonSpec>)
    ensures
        ({
            let kept = parts.filter(convertible_fn());
            let chat = parts.filter_map(chat_part_fn());
            &&& kept.len() == chat.len()
            &&& forall|i: int| 0 <= i < kept.len() ==> part_becomes(#[trigger] kept[i], chat[i])
            &&& forall|i: int| 0 <= i < kept.len() ==> convertible(#[trigger] kept[i])
        }),
    decreases parts.len(),
{
    reveal(Seq::filter);
    if parts.len() > 0 {
        let rest = parts.drop_last();
        let last = parts.last();
        lemma_parts(rest);
        law_part(last);
        let kept = parts.filter(convertible_fn());
        let chat = parts.filter_map(chat_part_fn());
        let n = rest.filter(convertible_fn()).len() as int;
        assert forall|i: int| 0 <= i < kept.len() implies part_becomes(#[trigger] kept[i], chat[i])
            && convertible(kept[i]) by {
            if i < n {
                assert(kept[i] == rest.filter(convertible_fn())[i]);
                assert(chat[i] == rest.filter_map(chat_part_fn())[i]);
            }
        }
    }
}

/// Content that is a string stays as it is. Of a list of parts those count that have a counterpart:
/// where there is none, the content is empty; where there is one and it is a text, the content is
/// that text; else it is the list of the counterparts of all of them, in order. Any other content
/// becomes empty.
pub proof fn law_content(content: JsonSpec)
    ensures
        content is Text ==> chat_content(content) == content,
        content is Array ==> {
            let kept = content->Array_0.filter(convertible_fn());
            let chat = chat_content(content);
            &&& kept.len() == 0 ==> chat is Text && chat->Text_0.len() == 0
            &&& kept.len() == 1 && is_text(kept[0]) ==> holds_text(kept[0], Some(chat))
            &&& kept.len() > 1 || kept.len() == 1 && !is_text(kept[0]) ==> {
                &&& chat is Array
                &&& chat->Array_0.len() == kept.len()
                &&& forall|i: int|
                    0 <= i < kept.len() ==> part_becomes(#[trigger] kept[i], chat->Array_0[i])
            }
        },
        !(content is Text) && !(content is Array) ==> chat_content(content) is Text && chat_content(
            content,
        )->Text_0.len() == 0,
        forall|part: JsonSpec| #[trigger] convertible_fn()(part) == convertible(part),
{
    lemma_names();
    if let JsonSpec::Array(parts) = content {
        lemma_parts(parts);
        let kept = parts.filter(convertible_fn());
        let chat = parts.filter_map(chat_part_fn());
        if kept.len() == 1 {
            assert(part_becomes(kept[0], chat[0]));
            assert(convertible(kept[0]));
        }
    }
}

/// A function call becomes a message of the assistant without content that makes one tool call, of
/// that function, with the same identifier, name and arguments.
pub proof fn law_function_call(item: JsonSpec)
    requires
        item.get("type"@) == Some(JsonSpec::Text("function_call"@)),
    ensures
        item_message(item) is Some,
        ({
            let message = item_message(item)->0;
            let calls = message.get_array("tool_calls"@);
            let call = calls->0[0];
            let function = call.get("function"@);
            &&& only_keys(message, seq!["role"@, "content"@, "tool_calls"@])
            &&& message.get("role"@) == Some(JsonSpec::Text("assistant"@))
            &&& message.get("content"@) == Some(JsonSpec::Null)
            &&& calls is Some
            &&& calls->0.len() == 1
            &&& only_keys(call, seq!["id"@, "type"@, "function"@])
            &&& holds_member(item, "call_id"@, call.get("id"@))
            &&& call.get("type"@) == Some(JsonSpec::Text("function"@))
            &&& function is Some
            &&& only_keys(function->0, seq!["name"@, "arguments"@])
            &&& holds_member(item, "name"@, function->0.get("name"@))
            &&& holds_member(item, "arguments"@, function->0.get("arguments"@))
        }),
{
    lemma_names();
    let outer = seq!["role"@, "content"@, "tool_calls"@];
    let middle = seq!["id"@, "type"@, "function"@];
    let inner = seq!["name"@, "arguments"@];
    assert(outer[0] == "role"@ && outer[1] == "content"@ && outer[2] == "tool_calls"@);
    assert(middle[0] == "id"@ && middle[1] == "type"@ && middle[2] == "function"@);
    assert(inner[0] == "name"@ && inner[1] == "arguments"@);
}

/// Whether a value is the string member of another under a key, or empty where it has none.
pub open spec fn holds_member(j: JsonSpec, key: Seq<char>, value: Option<JsonSpec>) -> bool {
    match j.get(key) {
        Some(JsonSpec::Text(text)) => value == Some(JsonSpec::Text(text)),
        _ => value is Some && value->0 is Text && value->0->Text_0.len() == 0,
    }
}

/// What a function returned becomes a message of the tool, for the same call and with the same
/// output, whatever it is.
pub proof fn law_function_output(item: JsonSpec)
    requires
        item.get("type"@) == Some(JsonSpec::Text("function_call_output"@)),
    ensures
        item_message(item) is Some,
        ({
            let message = item_message(item)->0;
            &&& only_keys(message, seq!["role"@, "tool_call_id"@, "content"@])
            &&& message.get("role"@) == Some(JsonSpec::Text("tool"@))
            &&& holds_member(item, "call_id"@, message.get("tool_call_id"@))
            &&& item.get("output"@) is Some ==> message.get("content"@) == item.get("output"@)
            &&& item.get("output"@) is None ==> message.get("content"@) is Some && message.get(
                "content"@,
            )->0 is Text && message.get("content"@)->0->Text_0.len() == 0
        }),
{
    lemma_names();
    let keys = seq!["role"@, "tool_call_id"@, "content"@];
    assert(keys[0] == "role"@ && keys[1] == "tool_call_id"@ && keys[2] == "content"@);
}

/// No other item becomes a message.
pub proof fn law_other_items(item: JsonSpec)
    requires
        item.get("type"@) != Some(JsonSpec::Text("message"@)),
        item.get("type"@) != Some(JsonSpec::Text("function_call"@)),
        item.get("type"@) != Some(JsonSpec::Text("function_call_output"@)),
    ensures
        item_message(item) is None,
{
}

/// A tool becomes a function with its name, its description where that is a string, and its
/// parameters whatever they are; a tool without a name becomes none.
pub proof fn law_tool(tool: JsonSpec)
    ensures
        chat_tool(tool) is Some <==> tool.get_str("name"@) is Some,
        chat_tool(tool) is Some ==> {
            let chat = chat_tool(tool)->0;
            let function = chat.get("function"@);
            &&& only_keys(chat, seq!["type"@, "function"@])
            &&& chat.get("type"@) == Some(JsonSpec::Text("function"@))
            &&& function is Some
            &&& only_keys(function->0, seq!["name"@, "description"@, "parameters"@])
            &&& function->0.get("name"@) == tool.get("name"@)
            &&& function->0.get("parameters"@) == tool.get("parameters"@)
            &&& tool.get_str("description"@) is Some ==> function->0.get("description"@)
                == tool.get("description"@)
            &&& tool.get_str("description"@) is None ==> function->0.get("description"@) is None
        },
{
    lemma_names();
    let outer = seq!["type"@, "function"@];
    let inner = seq!["name"@, "description"@, "parameters"@];
    assert(outer[0] == "type"@ && outer[1] == "function"@);
    assert(inner[0] == "name"@ && inner[1] == "description"@ && inner[2] == "parameters"@);
}

/// The tools of a chat request are what the tools of the request become, each for itself and in
/// their order; a request of which no tool is left has none.
pub proof fn law_tools(body: JsonSpec)
    ensures
        ({
            let given = match body.get("tools"@) {
                Some(JsonSpec::Array(tools)) => tools,
                _ => Seq::empty(),
            };
            let kept = given.filter_map(chat_tool_fn());
            &&& kept.len() == 0 ==> chat_request(body).get("tools"@) is None
            &&& kept.len() > 0 ==> chat_request(body).get("tools"@) == Some(JsonSpec::Array(kept))
        }),
        forall|tool: JsonSpec| #[trigger] chat_tool_fn()(tool) == chat_tool(tool),
{
    lemma_names();
    law_request_members(body, "tools"@);
}

} // verus!
