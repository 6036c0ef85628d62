//! What the values of JSON are made of, and the names that the two APIs give to their members.

use crate::json::{put, string_member, JsonSpec};
use vstd::prelude::*;

verus! {

/// The names of members and the words that stand in them differ from each other.
pub proof fn lemma_names()
    ensures
        "id"@.len() == 2,
        "role"@.len() == 4,
        "type"@.len() == 4,
        "name"@.len() == 4,
        "text"@.len() == 4,
        "item"@.len() == 4,
        "part"@.len() == 4,
        "seed"@.len() == 4,
        "stop"@.len() == 4,
        "tool"@.len() == 4,
        "model"@.len() == 5,
        "usage"@.len() == 5,
        "delta"@.len() == 5,
        "tools"@.len() == 5,
        "top_p"@.len() == 5,
        "input"@.len() == 5,
        "object"@.len() == 6,
        "output"@.len() == 6,
        "status"@.len() == 6,
        "stream"@.len() == 6,
        "format"@.len() == 6,
        "effort"@.len() == 6,
        "system"@.len() == 6,
        "length"@.len() == 6,
        "content"@.len() == 7,
        "call_id"@.len() == 7,
        "item_id"@.len() == 7,
        "choices"@.len() == 7,
        "message"@.len() == 7,
        "created"@.len() == 7,
        "messages"@.len() == 8,
        "response"@.len() == 8,
        "function"@.len() == 8,
        "arguments"@.len() == 9,
        "reasoning"@.len() == 9,
        "image_url"@.len() == 9,
        "developer"@.len() == 9,
        "assistant"@.len() == 9,
        "completed"@.len() == 9,
        "tool_calls"@.len() == 10,
        "parameters"@.len() == 10,
        "max_tokens"@.len() == 10,
        "created_at"@.len() == 10,
        "input_text"@.len() == 10,
        "incomplete"@.len() == 10,
        "description"@.len() == 11,
        "annotations"@.len() == 11,
        "temperature"@.len() == 11,
        "tool_choice"@.len() == 11,
        "output_text"@.len() == 11,
        "input_image"@.len() == 11,
        "in_progress"@.len() == 11,
        "output_index"@.len() == 12,
        "tool_call_id"@.len() == 12,
        "input_tokens"@.len() == 12,
        "total_tokens"@.len() == 12,
        "instructions"@.len() == 12,
        "content_index"@.len() == 13,
        "output_tokens"@.len() == 13,
        "finish_reason"@.len() == 13,
        "cached_tokens"@.len() == 13,
        "prompt_tokens"@.len() == 13,
        "function_call"@.len() == 13,
        "response_format"@.len() == 15,
        "reasoning_effort"@.len() == 16,
        "presence_penalty"@.len() == 16,
        "frequency_penalty"@.len() == 17,
        "completion_tokens"@.len() == 17,
        "max_output_tokens"@.len() == 17,
        "function_call_output"@.len() == 20,
        "input_tokens_details"@.len() == 20,
        "prompt_tokens_details"@.len() == 21,
        "role"@ != "type"@,
        "role"@ != "name"@,
        "role"@ != "text"@,
        "role"@ != "item"@,
        "role"@ != "part"@,
        "role"@ != "seed"@,
        "role"@ != "stop"@,
        "role"@ != "tool"@,
        "type"@ != "name"@,
        "type"@ != "text"@,
        "type"@ != "item"@,
        "type"@ != "part"@,
        "type"@ != "seed"@,
        "type"@ != "stop"@,
        "type"@ != "tool"@,
        "name"@ != "text"@,
        "name"@ != "item"@,
        "name"@ != "part"@,
        "name"@ != "seed"@,
        "name"@ != "stop"@,
        "name"@ != "tool"@,
        "text"@ != "item"@,
        "text"@ != "part"@,
        "text"@ != "seed"@,
        "text"@ != "stop"@,
        "text"@ != "tool"@,
        "item"@ != "part"@,
        "item"@ != "seed"@,
        "item"@ != "stop"@,
        "item"@ != "tool"@,
        "part"@ != "seed"@,
        "part"@ != "stop"@,
        "part"@ != "tool"@,
        "seed"@ != "stop"@,
        "seed"@ != "tool"@,
        "stop"@ != "tool"@,
        "model"@ != "usage"@,
        "model"@ != "delta"@,
        "model"@ != "tools"@,
        "model"@ != "top_p"@,
        "model"@ != "input"@,
        "usage"@ != "delta"@,
        "usage"@ != "tools"@,
        "usage"@ != "top_p"@,
        "usage"@ != "input"@,
        "delta"@ != "tools"@,
        "delta"@ != "top_p"@,
        "delta"@ != "input"@,
        "tools"@ != "top_p"@,
        "tools"@ != "input"@,
        "top_p"@ != "input"@,
        "object"@ != "output"@,
        "object"@ != "status"@,
        "object"@ != "stream"@,
        "object"@ != "format"@,
        "object"@ != "effort"@,
        "object"@ != "system"@,
        "object"@ != "length"@,
        "output"@ != "status"@,
        "output"@ != "stream"@,
        "output"@ != "format"@,
        "output"@ != "effort"@,
        "output"@ != "system"@,
        "output"@ != "length"@,
        "status"@ != "stream"@,
        "status"@ != "format"@,
        "status"@ != "effort"@,
        "status"@ != "system"@,
        "status"@ != "length"@,
        "stream"@ != "format"@,
        "stream"@ != "effort"@,
        "stream"@ != "system"@,
        "stream"@ != "length"@,
        "format"@ != "effort"@,
        "format"@ != "system"@,
        "format"@ != "length"@,
        "effort"@ != "system"@,
        "effort"@ != "length"@,
        "system"@ != "length"@,
        "content"@ != "call_id"@,
        "content"@ != "item_id"@,
        "content"@ != "choices"@,
        "content"@ != "message"@,
        "content"@ != "created"@,
        "call_id"@ != "item_id"@,
        "call_id"@ != "choices"@,
        "call_id"@ != "message"@,
        "call_id"@ != "created"@,
        "item_id"@ != "choices"@,
        "item_id"@ != "message"@,
        "item_id"@ != "created"@,
        "choices"@ != "message"@,
        "choices"@ != "created"@,
        "message"@ != "created"@,
        "messages"@ != "response"@,
        "messages"@ != "function"@,
        "response"@ != "function"@,
        "arguments"@ != "reasoning"@,
        "arguments"@ != "image_url"@,
        "arguments"@ != "developer"@,
        "arguments"@ != "assistant"@,
        "arguments"@ != "completed"@,
        "reasoning"@ != "image_url"@,
        "reasoning"@ != "developer"@,
        "reasoning"@ != "assistant"@,
        "reasoning"@ != "completed"@,
        "image_url"@ != "developer"@,
        "image_url"@ != "assistant"@,
        "image_url"@ != "completed"@,
        "developer"@ != "assistant"@,
        "developer"@ != "completed"@,
        "assistant"@ != "completed"@,
        "tool_calls"@ != "parameters"@,
        "tool_calls"@ != "max_tokens"@,
        "tool_calls"@ != "created_at"@,
        "tool_calls"@ != "input_text"@,
        "tool_calls"@ != "incomplete"@,
        "parameters"@ != "max_tokens"@,
        "parameters"@ != "created_at"@,
        "parameters"@ != "input_text"@,
        "parameters"@ != "incomplete"@,
        "max_tokens"@ != "created_at"@,
        "max_tokens"@ != "input_text"@,
        "max_tokens"@ != "incomplete"@,
        "created_at"@ != "input_text"@,
        "created_at"@ != "incomplete"@,
        "input_text"@ != "incomplete"@,
        "description"@ != "annotations"@,
        "description"@ != "temperature"@,
        "description"@ != "tool_choice"@,
        "description"@ != "output_text"@,
        "description"@ != "input_image"@,
        "description"@ != "in_progress"@,
        "annotations"@ != "temperature"@,
        "annotations"@ != "tool_choice"@,
        "annotations"@ != "output_text"@,
        "annotations"@ != "input_image"@,
        "annotations"@ != "in_progress"@,
        "temperature"@ != "tool_choice"@,
        "temperature"@ != "output_text"@,
        "temperature"@ != "input_image"@,
        "temperature"@ != "in_progress"@,
        "tool_choice"@ != "output_text"@,
        "tool_choice"@ != "input_image"@,
        "tool_choice"@ != "in_progress"@,
        "output_text"@ != "input_image"@,
        "output_text"@ != "in_progress"@,
        "input_image"@ != "in_progress"@,
        "output_index"@ != "tool_call_id"@,
        "output_index"@ != "input_tokens"@,
        "output_index"@ != "total_tokens"@,
        "output_index"@ != "instructions"@,
        "tool_call_id"@ != "input_tokens"@,
        "tool_call_id"@ != "total_tokens"@,
        "tool_call_id"@ != "instructions"@,
        "input_tokens"@ != "total_tokens"@,
        "input_tokens"@ != "instructions"@,
        "total_tokens"@ != "instructions"@,
        "content_index"@ != "output_tokens"@,
        "content_index"@ != "finish_reason"@,
        "content_index"@ != "cached_tokens"@,
        "content_index"@ != "prompt_tokens"@,
        "content_index"@ != "function_call"@,
        "output_tokens"@ != "finish_reason"@,
        "output_tokens"@ != "cached_tokens"@,
        "output_tokens"@ != "prompt_tokens"@,
        "output_tokens"@ != "function_call"@,
        "finish_reason"@ != "cached_tokens"@,
        "finish_reason"@ != "prompt_tokens"@,
        "finish_reason"@ != "function_call"@,
        "cached_tokens"@ != "prompt_tokens"@,
        "cached_tokens"@ != "function_call"@,
        "prompt_tokens"@ != "function_call"@,
        "reasoning_effort"@ != "presence_penalty"@,
        "frequency_penalty"@ != "completion_tokens"@,
        "frequency_penalty"@ != "max_output_tokens"@,
        "completion_tokens"@ != "max_output_tokens"@,
        "function_call_output"@ != "input_tokens_details"@,
{
    reveal_strlit("id");
    reveal_strlit("role");
    reveal_strlit("type");
    reveal_strlit("name");
    reveal_strlit("text");
    reveal_strlit("item");
    reveal_strlit("part");
    reveal_strlit("seed");
    reveal_strlit("stop");
    reveal_strlit("tool");
    reveal_strlit("model");
    reveal_strlit("usage");
    reveal_strlit("delta");
    reveal_strlit("tools");
    reveal_strlit("top_p");
    reveal_strlit("input");
    reveal_strlit("object");
    reveal_strlit("output");
    reveal_strlit("status");
    reveal_strlit("stream");
    reveal_strlit("format");
    reveal_strlit("effort");
    reveal_strlit("system");
    reveal_strlit("length");
    reveal_strlit("content");
    reveal_strlit("call_id");
    reveal_strlit("item_id");
    reveal_strlit("choices");
    reveal_strlit("message");
    reveal_strlit("created");
    reveal_strlit("messages");
    reveal_strlit("response");
    reveal_strlit("function");
    reveal_strlit("arguments");
    reveal_strlit("reasoning");
    reveal_strlit("image_url");
    reveal_strlit("developer");
    reveal_strlit("assistant");
    reveal_strlit("completed");
    reveal_strlit("tool_calls");
    reveal_strlit("parameters");
    reveal_strlit("max_tokens");
    reveal_strlit("created_at");
    reveal_strlit("input_text");
    reveal_strlit("incomplete");
    reveal_strlit("description");
    reveal_strlit("annotations");
    reveal_strlit("temperature");
    reveal_strlit("tool_choice");
    reveal_strlit("output_text");
    reveal_strlit("input_image");
    reveal_strlit("in_progress");
    reveal_strlit("output_index");
    reveal_strlit("tool_call_id");
    reveal_strlit("input_tokens");
    reveal_strlit("total_tokens");
    reveal_strlit("instructions");
    reveal_strlit("content_index");
    reveal_strlit("output_tokens");
    reveal_strlit("finish_reason");
    reveal_strlit("cached_tokens");
    reveal_strlit("prompt_tokens");
    reveal_strlit("function_call");
    reveal_strlit("response_format");
    reveal_strlit("reasoning_effort");
    reveal_strlit("presence_penalty");
    reveal_strlit("frequency_penalty");
    reveal_strlit("completion_tokens");
    reveal_strlit("max_output_tokens");
    reveal_strlit("function_call_output");
    reveal_strlit("input_tokens_details");
    reveal_strlit("prompt_tokens_details");
    assert("role"@[0] != "type"@[0]);
    assert("role"@[0] != "name"@[0]);
    assert("role"@[0] != "text"@[0]);
    assert("role"@[0] != "item"@[0]);
    assert("role"@[0] != "part"@[0]);
    assert("role"@[0] != "seed"@[0]);
    assert("role"@[0] != "stop"@[0]);
    assert("role"@[0] != "tool"@[0]);
    assert("type"@[0] != "name"@[0]);
    assert("type"@[1] != "text"@[1]);
    assert("type"@[0] != "item"@[0]);
    assert("type"@[0] != "part"@[0]);
    assert("type"@[0] != "seed"@[0]);
    assert("type"@[0] != "stop"@[0]);
    assert("type"@[1] != "tool"@[1]);
    assert("name"@[0] != "text"@[0]);
    assert("name"@[0] != "item"@[0]);
    assert("name"@[0] != "part"@[0]);
    assert("name"@[0] != "seed"@[0]);
    assert("name"@[0] != "stop"@[0]);
    assert("name"@[0] != "tool"@[0]);
    assert("text"@[0] != "item"@[0]);
    assert("text"@[0] != "part"@[0]);
    assert("text"@[0] != "seed"@[0]);
    assert("text"@[0] != "stop"@[0]);
    assert("text"@[1] != "tool"@[1]);
    assert("item"@[0] != "part"@[0]);
    assert("item"@[0] != "seed"@[0]);
    assert("item"@[0] != "stop"@[0]);
    assert("item"@[0] != "tool"@[0]);
    assert("part"@[0] != "seed"@[0]);
    assert("part"@[0] != "stop"@[0]);
    assert("part"@[0] != "tool"@[0]);
    assert("seed"@[1] != "stop"@[1]);
    assert("seed"@[0] != "tool"@[0]);
    assert("stop"@[0] != "tool"@[0]);
    assert("model"@[0] != "usage"@[0]);
    assert("model"@[0] != "delta"@[0]);
    assert("model"@[0] != "tools"@[0]);
    assert("model"@[0] != "top_p"@[0]);
    assert("model"@[0] != "input"@[0]);
    assert("usage"@[0] != "delta"@[0]);
    assert("usage"@[0] != "tools"@[0]);
    assert("usage"@[0] != "top_p"@[0]);
    assert("usage"@[0] != "input"@[0]);
    assert("delta"@[0] != "tools"@[0]);
    assert("delta"@[0] != "top_p"@[0]);
    assert("delta"@[0] != "input"@[0]);
    assert("tools"@[2] != "top_p"@[2]);
    assert("tools"@[0] != "input"@[0]);
    assert("top_p"@[0] != "input"@[0]);
    assert("object"@[1] != "output"@[1]);
    assert("object"@[0] != "status"@[0]);
    assert("object"@[0] != "stream"@[0]);
    assert("object"@[0] != "format"@[0]);
    assert("object"@[0] != "effort"@[0]);
    assert("object"@[0] != "system"@[0]);
    assert("object"@[0] != "length"@[0]);
    assert("output"@[0] != "status"@[0]);
    assert("output"@[0] != "stream"@[0]);
    assert("output"@[0] != "format"@[0]);
    assert("output"@[0] != "effort"@[0]);
    assert("output"@[0] != "system"@[0]);
    assert("output"@[0] != "length"@[0]);
    assert("status"@[2] != "stream"@[2]);
    assert("status"@[0] != "format"@[0]);
    assert("status"@[0] != "effort"@[0]);
    assert("status"@[1] != "system"@[1]);
    assert("status"@[0] != "length"@[0]);
    assert("stream"@[0] != "format"@[0]);
    assert("stream"@[0] != "effort"@[0]);
    assert("stream"@[1] != "system"@[1]);
    assert("stream"@[0] != "length"@[0]);
    assert("format"@[0] != "effort"@[0]);
    assert("format"@[0] != "system"@[0]);
    assert("format"@[0] != "length"@[0]);
    assert("effort"@[0] != "system"@[0]);
    assert("effort"@[0] != "length"@[0]);
    assert("system"@[0] != "length"@[0]);
    assert("content"@[1] != "call_id"@[1]);
    assert("content"@[0] != "item_id"@[0]);
    assert("content"@[1] != "choices"@[1]);
    assert("content"@[0] != "message"@[0]);
    assert("content"@[1] != "created"@[1]);
    assert("call_id"@[0] != "item_id"@[0]);
    assert("call_id"@[1] != "choices"@[1]);
    assert("call_id"@[0] != "message"@[0]);
    assert("call_id"@[1] != "created"@[1]);
    assert("item_id"@[0] != "choices"@[0]);
    assert("item_id"@[0] != "message"@[0]);
    assert("item_id"@[0] != "created"@[0]);
    assert("choices"@[0] != "message"@[0]);
    assert("choices"@[1] != "created"@[1]);
    assert("message"@[0] != "created"@[0]);
    assert("messages"@[0] != "response"@[0]);
    assert("messages"@[0] != "function"@[0]);
    assert("response"@[0] != "function"@[0]);
    assert("arguments"@[0] != "reasoning"@[0]);
    assert("arguments"@[0] != "image_url"@[0]);
    assert("arguments"@[0] != "developer"@[0]);
    assert("arguments"@[1] != "assistant"@[1]);
    assert("arguments"@[0] != "completed"@[0]);
    assert("reasoning"@[0] != "image_url"@[0]);
    assert("reasoning"@[0] != "developer"@[0]);
    assert("reasoning"@[0] != "assistant"@[0]);
    assert("reasoning"@[0] != "completed"@[0]);
    assert("image_url"@[0] != "developer"@[0]);
    assert("image_url"@[0] != "assistant"@[0]);
    assert("image_url"@[0] != "completed"@[0]);
    assert("developer"@[0] != "assistant"@[0]);
    assert("developer"@[0] != "completed"@[0]);
    assert("assistant"@[0] != "completed"@[0]);
    assert("tool_calls"@[0] != "parameters"@[0]);
    assert("tool_calls"@[0] != "max_tokens"@[0]);
    assert("tool_calls"@[0] != "created_at"@[0]);
    assert("tool_calls"@[0] != "input_text"@[0]);
    assert("tool_calls"@[0] != "incomplete"@[0]);
    assert("parameters"@[0] != "max_tokens"@[0]);
    assert("parameters"@[0] != "created_at"@[0]);
    assert("parameters"@[0] != "input_text"@[0]);
    assert("parameters"@[0] != "incomplete"@[0]);
    assert("max_tokens"@[0] != "created_at"@[0]);
    assert("max_tokens"@[0] != "input_text"@[0]);
    assert("max_tokens"@[0] != "incomplete"@[0]);
    assert("created_at"@[0] != "input_text"@[0]);
    assert("created_at"@[0] != "incomplete"@[0]);
    assert("input_text"@[2] != "incomplete"@[2]);
    assert("description"@[0] != "annotations"@[0]);
    assert("description"@[0] != "temperature"@[0]);
    assert("description"@[0] != "tool_choice"@[0]);
    assert("description"@[0] != "output_text"@[0]);
    assert("description"@[0] != "input_image"@[0]);
    assert("description"@[0] != "in_progress"@[0]);
    assert("annotations"@[0] != "temperature"@[0]);
    assert("annotations"@[0] != "tool_choice"@[0]);
    assert("annotations"@[0] != "output_text"@[0]);
    assert("annotations"@[0] != "input_image"@[0]);
    assert("annotations"@[0] != "in_progress"@[0]);
    assert("temperature"@[1] != "tool_choice"@[1]);
    assert("temperature"@[0] != "output_text"@[0]);
    assert("temperature"@[0] != "input_image"@[0]);
    assert("temperature"@[0] != "in_progress"@[0]);
    assert("tool_choice"@[0] != "output_text"@[0]);
    assert("tool_choice"@[0] != "input_image"@[0]);
    assert("tool_choice"@[0] != "in_progress"@[0]);
    assert("output_text"@[0] != "input_image"@[0]);
    assert("output_text"@[0] != "in_progress"@[0]);
    assert("input_image"@[2] != "in_progress"@[2]);
    assert("output_index"@[0] != "tool_call_id"@[0]);
    assert("output_index"@[0] != "input_tokens"@[0]);
    assert("output_index"@[0] != "total_tokens"@[0]);
    assert("output_index"@[0] != "instructions"@[0]);
    assert("tool_call_id"@[0] != "input_tokens"@[0]);
    assert("tool_call_id"@[2] != "total_tokens"@[2]);
    assert("tool_call_id"@[0] != "instructions"@[0]);
    assert("input_tokens"@[0] != "total_tokens"@[0]);
    assert("input_tokens"@[2] != "instructions"@[2]);
    assert("total_tokens"@[0] != "instructions"@[0]);
    assert("content_index"@[0] != "output_tokens"@[0]);
    assert("content_index"@[0] != "finish_reason"@[0]);
    assert("content_index"@[1] != "cached_tokens"@[1]);
    assert("content_index"@[0] != "prompt_tokens"@[0]);
    assert("content_index"@[0] != "function_call"@[0]);
    assert("output_tokens"@[0] != "finish_reason"@[0]);
    assert("output_tokens"@[0] != "cached_tokens"@[0]);
    assert("output_tokens"@[0] != "prompt_tokens"@[0]);
    assert("output_tokens"@[0] != "function_call"@[0]);
    assert("finish_reason"@[0] != "cached_tokens"@[0]);
    assert("finish_reason"@[0] != "prompt_tokens"@[0]);
    assert("finish_reason"@[1] != "function_call"@[1]);
    assert("cached_tokens"@[0] != "prompt_tokens"@[0]);
    assert("cached_tokens"@[0] != "function_call"@[0]);
    assert("prompt_tokens"@[0] != "function_call"@[0]);
    assert("reasoning_effort"@[0] != "presence_penalty"@[0]);
    assert("frequency_penalty"@[0] != "completion_tokens"@[0]);
    assert("frequency_penalty"@[0] != "max_output_tokens"@[0]);
    assert("completion_tokens"@[0] != "max_output_tokens"@[0]);
    assert("function_call_output"@[0] != "input_tokens_details"@[0]);
}

/// Whether a value is an object that has no member but those under the given keys.
pub open spec fn only_keys(j: JsonSpec, keys: Seq<Seq<char>>) -> bool {
    &&& j is Object
    &&& forall|k: Seq<char>| #[trigger] j.get(k) is Some ==> keys.contains(k)
}

/// A member is what an object holds under its key; no other value has members.
pub proof fn law_get(j: JsonSpec, key: Seq<char>)
    ensures
        j.get(key) is Some <==> j is Object && j->Object_0.contains_key(key),
        j.get(key) is Some ==> j.get(key)->0 == j->Object_0[key],
{
}

/// The characters of a member are those of a string that stands there.
pub proof fn law_get_str(j: JsonSpec, key: Seq<char>)
    ensures
        forall|s: Seq<char>| #[trigger]
            j.get_str(key) == Some(s) <==> j.get(key) == Some(JsonSpec::Text(s)),
        j.get_str(key) is None ==> j.str_or_empty(key).len() == 0 && string_member(j, key) is None,
        j.get_str(key) is Some ==> j.str_or_empty(key) == j.get_str(key)->0 && string_member(j, key)
            == j.get(key),
{
}

/// The items of a member are those of a list that stands there.
pub proof fn law_get_array(j: JsonSpec, key: Seq<char>)
    ensures
        forall|items: Seq<JsonSpec>| #[trigger]
            j.get_array(key) == Some(items) <==> j.get(key) == Some(JsonSpec::Array(items)),
{
}

/// Setting a member changes that member alone, and nothing where there is no value for it.
pub proof fn law_put(
    members: Map<Seq<char>, JsonSpec>,
    key: Seq<char>,
    value: Option<JsonSpec>,
    other: Seq<char>,
)
    ensures
        JsonSpec::Object(put(members, key, value)).get(other) == (if other == key && value is Some {
            value
        } else {
            JsonSpec::Object(members).get(other)
        }),
{
}

} // verus!
