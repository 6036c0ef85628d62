use responses_chat::json::{from_value, Json};
use responses_chat::request::{
    convert_content_part_to_chat, convert_input_item_to_message, responses_to_chat_completions,
};
use responses_chat::response::{chat_completions_to_responses, convert_chat_message_to_output};
use serde_json::Value;

fn value(text: &str) -> Value {
    serde_json::from_str(text).unwrap()
}

fn json(text: &str) -> Json {
    from_value(value(text))
}

fn request(text: &str) -> Value {
    responses_to_chat_completions(json(text)).unwrap().to_value()
}

fn answer(text: &str) -> Value {
    chat_completions_to_responses(json(text)).unwrap().to_value()
}

#[test]
fn test_responses_to_chat_completions_simple() {
    let result = request(
        r#"{
            "model": "gpt-5.4",
            "instructions": "You are helpful.",
            "input": [{"type": "message", "role": "user", "content": "Hello"}],
            "max_output_tokens": 1024,
            "temperature": 0.7,
            "stream": false
        }"#,
    );
    assert_eq!(result["model"], "gpt-5.4");
    assert_eq!(result["messages"][0]["role"], "system");
    assert_eq!(result["messages"][0]["content"], "You are helpful.");
    assert_eq!(result["messages"][1]["role"], "user");
    assert_eq!(result["messages"][1]["content"], "Hello");
    assert_eq!(result["max_tokens"], 1024);
    assert_eq!(result["temperature"], 0.7);
}

#[test]
fn test_responses_to_chat_completions_with_tools() {
    let result = request(
        r#"{
            "model": "gpt-5.4",
            "input": [{"type": "message", "role": "user", "content": "Hi"}],
            "tools": [{
                "type": "function",
                "name": "get_weather",
                "description": "Get weather",
                "parameters": {"type": "object", "properties": {"location": {"type": "string"}}}
            }]
        }"#,
    );
    let tool = &result["tools"][0];
    assert_eq!(tool["type"], "function");
    assert_eq!(tool["function"]["name"], "get_weather");
    assert_eq!(tool["function"]["description"], "Get weather");
    assert!(tool["function"]["parameters"].is_object());
}

#[test]
fn test_responses_to_chat_completions_with_function_call() {
    let result = request(
        r#"{
            "model": "gpt-5.4",
            "input": [
                {"type": "message", "role": "user", "content": "Weather in Tokyo?"},
                {"type": "function_call", "call_id": "call_123", "name": "get_weather", "arguments": "{\"location\":\"Tokyo\"}"},
                {"type": "function_call_output", "call_id": "call_123", "output": "Sunny, 20C"}
            ]
        }"#,
    );
    let msgs = result["messages"].as_array().unwrap();
    assert_eq!(msgs.len(), 3);

    // A function call becomes a message of the assistant with a tool call.
    assert_eq!(msgs[1]["role"], "assistant");
    assert_eq!(msgs[1]["tool_calls"][0]["function"]["name"], "get_weather");
    assert_eq!(msgs[1]["tool_calls"][0]["function"]["arguments"], "{\"location\":\"Tokyo\"}");

    // The output of a function call becomes a message of the tool.
    assert_eq!(msgs[2]["role"], "tool");
    assert_eq!(msgs[2]["tool_call_id"], "call_123");
    assert_eq!(msgs[2]["content"], "Sunny, 20C");
}

#[test]
fn test_chat_completions_to_responses_simple() {
    let result = answer(
        r#"{
            "id": "chatcmpl-123",
            "model": "gpt-5.4",
            "choices": [{
                "index": 0,
                "message": {"role": "assistant", "content": "Hello!"},
                "finish_reason": "stop"
            }],
            "usage": {"prompt_tokens": 10, "completion_tokens": 5, "total_tokens": 15}
        }"#,
    );
    assert_eq!(result["id"], "chatcmpl-123");
    assert_eq!(result["object"], "response");
    assert_eq!(result["status"], "completed");
    assert_eq!(result["output"][0]["type"], "message");
    assert_eq!(result["output"][0]["role"], "assistant");
    assert_eq!(result["output"][0]["content"][0]["text"], "Hello!");
    assert_eq!(result["usage"]["input_tokens"], 10);
    assert_eq!(result["usage"]["output_tokens"], 5);
}

#[test]
fn test_chat_completions_to_responses_with_tool_call() {
    let result = answer(
        r#"{
            "id": "chatcmpl-456",
            "model": "gpt-5.4",
            "choices": [{
                "index": 0,
                "message": {
                    "role": "assistant",
                    "content": null,
                    "tool_calls": [{
                        "id": "call_abc",
                        "type": "function",
                        "function": {"name": "get_weather", "arguments": "{\"location\":\"Tokyo\"}"}
                    }]
                },
                "finish_reason": "tool_calls"
            }],
            "usage": {"prompt_tokens": 8, "completion_tokens": 4, "total_tokens": 12}
        }"#,
    );
    let output = &result["output"][0];
    assert_eq!(output["type"], "function_call");
    assert_eq!(output["name"], "get_weather");
    assert_eq!(output["arguments"], "{\"location\":\"Tokyo\"}");
}

#[test]
fn test_responses_to_chat_completions_input_text_array_content() {
    let result = request(
        r#"{
            "model": "gpt-5.4",
            "input": [{
                "type": "message",
                "role": "user",
                "content": [{"type": "input_text", "text": "Hello world"}]
            }]
        }"#,
    );
    assert_eq!(result["messages"][0]["content"], "Hello world");
}

#[test]
fn test_responses_to_chat_completions_reasoning() {
    let result = request(
        r#"{
            "model": "gpt-5.4",
            "input": [{"type": "message", "role": "user", "content": "Think deeply"}],
            "reasoning": {"effort": "high"}
        }"#,
    );
    assert_eq!(result["reasoning_effort"], "high");
}

#[test]
fn request_has_these_members_and_no_other() {
    let result = request(
        r#"{
            "model": "m", "instructions": "", "input": [], "max_output_tokens": 7,
            "temperature": 0.5, "top_p": 1, "stream": true, "tools": [{"type": "web_search"}],
            "tool_choice": "auto", "reasoning": {"effort": "low", "summary": "auto"},
            "text": {"format": {"type": "json_object"}}, "frequency_penalty": 1,
            "presence_penalty": 2, "seed": 3, "stop": ["x"], "store": true, "user": "u"
        }"#,
    );
    assert_eq!(
        result,
        value(
            r#"{
                "model": "m", "messages": [], "max_tokens": 7, "temperature": 0.5, "top_p": 1,
                "stream": true, "tool_choice": "auto", "reasoning_effort": "low",
                "response_format": {"type": "json_object"}, "frequency_penalty": 1,
                "presence_penalty": 2, "seed": 3, "stop": ["x"]
            }"#
        )
    );
}

#[test]
fn empty_request() {
    assert_eq!(request("{}"), value(r#"{"messages": []}"#));
    assert_eq!(request("null"), value(r#"{"messages": []}"#));
    assert_eq!(request(r#"{"model": 5, "input": "text"}"#), value(r#"{"messages": []}"#));
}

#[test]
fn null_members_are_passed_on() {
    assert_eq!(
        request(r#"{"max_output_tokens": null, "stop": null, "tool_choice": null}"#),
        value(r#"{"messages": [], "max_tokens": null, "stop": null, "tool_choice": null}"#)
    );
}

#[test]
fn every_format_is_passed_on() {
    let format = |text: &str| {
        let body = format!(r#"{{"input": [], "text": {{"format": {text}}}}}"#);
        request(&body)["response_format"].clone()
    };
    for text in [
        r#"{"type": "json_schema", "name": "n", "schema": {}}"#,
        r#"{"type": "json_object"}"#,
        r#"{"type": "text"}"#,
        "{}",
        "null",
    ] {
        assert_eq!(format(text), value(text));
    }
    assert_eq!(
        request(r#"{"text": {"format": {"type": "text"}}}"#),
        value(r#"{"messages": [], "response_format": {"type": "text"}}"#)
    );
    assert_eq!(request(r#"{"text": {"verbosity": "low"}}"#), value(r#"{"messages": []}"#));
    assert_eq!(request(r#"{"text": "plain"}"#), value(r#"{"messages": []}"#));
}

#[test]
fn instructions_come_first_and_input_in_order() {
    let result = request(
        r#"{"instructions": "i", "input": [
            {"type": "message", "role": "user", "content": "a"},
            {"type": "reasoning", "summary": []},
            {"type": "message", "role": "assistant", "content": "b"}
        ]}"#,
    );
    assert_eq!(
        result["messages"],
        value(
            r#"[{"role": "system", "content": "i"}, {"role": "user", "content": "a"},
                {"role": "assistant", "content": "b"}]"#
        )
    );
}

#[test]
fn developer_speaks_as_system() {
    let result = request(r#"{"input": [{"type": "message", "role": "developer", "content": "d"}]}"#);
    assert_eq!(result["messages"], value(r#"[{"role": "system", "content": "d"}]"#));
}

#[test]
fn tools_without_a_name_are_dropped() {
    let result = request(
        r#"{"tools": [{"type": "web_search"}, {"name": "f"}, {"name": 1},
            {"name": "g", "description": 2, "parameters": null}]}"#,
    );
    assert_eq!(
        result["tools"],
        value(
            r#"[{"type": "function", "function": {"name": "f"}},
                {"type": "function", "function": {"name": "g", "parameters": null}}]"#
        )
    );
}

fn message(text: &str) -> Option<Value> {
    convert_input_item_to_message(&json(text)).map(|m| m.to_value())
}

#[test]
fn input_items_that_are_dropped() {
    assert!(message("{}").is_none());
    assert!(message(r#"{"type": 1}"#).is_none());
    assert!(message(r#"{"type": "reasoning"}"#).is_none());
    assert!(message(r#"{"type": "message", "content": "x"}"#).is_none());
    assert!(message(r#"{"type": "message", "role": "user"}"#).is_none());
}

#[test]
fn message_content_of_every_form() {
    let content = |c: &str| {
        let item = format!(r#"{{"type": "message", "role": "user", "content": {c}}}"#);
        message(&item).unwrap()["content"].clone()
    };
    assert_eq!(content("5"), "");
    assert_eq!(content("null"), "");
    assert_eq!(content("[]"), "");
    assert_eq!(content(r#"[{"type": "refusal"}]"#), "");
    assert_eq!(content(r#"[{"type": "output_text"}]"#), "");
    assert_eq!(
        content(r#"[{"type": "input_image", "image_url": "u"}]"#),
        value(r#"[{"type": "image_url", "image_url": "u"}]"#)
    );
    assert_eq!(
        content(r#"[{"type": "input_text", "text": "a"}, {"type": "output_text", "text": "b"}]"#),
        value(r#"[{"type": "text", "text": "a"}, {"type": "text", "text": "b"}]"#)
    );
}

#[test]
fn function_items_with_nothing_in_them() {
    assert_eq!(
        message(r#"{"type": "function_call"}"#).unwrap(),
        value(
            r#"{"role": "assistant", "content": null, "tool_calls": [
                {"id": "", "type": "function", "function": {"name": "", "arguments": ""}}]}"#
        )
    );
    assert_eq!(
        message(r#"{"type": "function_call_output"}"#).unwrap(),
        value(r#"{"role": "tool", "tool_call_id": "", "content": ""}"#)
    );
    assert_eq!(
        message(r#"{"type": "function_call_output", "call_id": "c", "output": [1]}"#).unwrap(),
        value(r#"{"role": "tool", "tool_call_id": "c", "content": [1]}"#)
    );
}

#[test]
fn content_parts() {
    let part = |text: &str| convert_content_part_to_chat(&json(text)).map(|p| p.to_value());
    assert_eq!(
        part(r#"{"type": "input_text", "text": "t"}"#).unwrap(),
        value(r#"{"type": "text", "text": "t"}"#)
    );
    assert!(part(r#"{"type": "input_image"}"#).is_none());
    assert!(part(r#"{"type": "input_file"}"#).is_none());
    assert!(part("{}").is_none());
    assert_eq!(
        part(r#"{"type": "input_image", "image_url": {"url": "u"}}"#).unwrap(),
        value(r#"{"type": "image_url", "image_url": {"url": "u"}}"#)
    );
}

#[test]
fn empty_answer_has_one_empty_message() {
    assert_eq!(
        answer("{}"),
        value(
            r#"{"object": "response", "status": "completed", "output": [
                {"type": "message", "role": "assistant", "status": "completed", "content": [
                    {"type": "output_text", "text": "", "annotations": []}]}]}"#
        )
    );
    let cut = answer(r#"{"choices": [{"finish_reason": "length", "message": {"tool_calls": []}}]}"#);
    assert_eq!(cut["status"], "incomplete");
    assert_eq!(cut["output"][0]["status"], "incomplete");
    assert_eq!(cut["output"].as_array().unwrap().len(), 1);
}

#[test]
fn status_comes_from_the_finish_reason() {
    let of = |reason: &str| {
        let text = format!(
            r#"{{"choices": [{{"finish_reason": {reason}, "message": {{"content": "x"}}}}]}}"#
        );
        let result = answer(&text);
        (
            result["status"].as_str().unwrap().to_owned(),
            result["output"][0]["status"].as_str().unwrap().to_owned(),
        )
    };
    let completed = ("completed".to_owned(), "completed".to_owned());
    assert_eq!(of(r#""stop""#), completed);
    assert_eq!(of(r#""content_filter""#), completed);
    assert_eq!(of(r#""tool_calls""#), completed);
    assert_eq!(of(r#""other""#), completed);
    assert_eq!(of("null"), completed);
    assert_eq!(of(r#""length""#), ("incomplete".to_owned(), "incomplete".to_owned()));
}

#[test]
fn each_choice_gives_its_items_its_own_status() {
    let result = answer(
        r#"{"choices": [
            {"finish_reason": "length", "message": {"content": "a"}},
            {"finish_reason": "stop", "message": {"content": "b"}},
            {"finish_reason": "stop"}
        ]}"#,
    );
    assert_eq!(result["status"], "completed");
    assert_eq!(result["output"].as_array().unwrap().len(), 2);
    assert_eq!(result["output"][0]["status"], "incomplete");
    assert_eq!(result["output"][0]["content"][0]["text"], "a");
    assert_eq!(result["output"][1]["status"], "completed");
    assert_eq!(result["output"][1]["content"][0]["text"], "b");
}

#[test]
fn answer_members() {
    let result = answer(
        r#"{"id": "i", "object": "chat.completion", "created": 5, "model": "m", "choices": [],
            "usage": {"prompt_tokens": 1, "prompt_tokens_details": {"cached_tokens": 9}}}"#,
    );
    assert_eq!(result["created_at"], 5);
    assert_eq!(result["model"], "m");
    assert_eq!(
        result["usage"],
        value(
            r#"{"input_tokens": 1, "output_tokens": 0, "total_tokens": 0,
                "input_tokens_details": {"cached_tokens": 9}}"#
        )
    );
    assert!(result.get("created").is_none());
    let odd = answer(r#"{"id": 1, "model": null, "usage": null}"#);
    assert!(odd.get("id").is_none());
    assert!(odd.get("model").is_none());
    assert_eq!(odd["usage"], value(r#"{"input_tokens": 0, "output_tokens": 0, "total_tokens": 0}"#));
}

fn output(text: &str) -> Vec<Value> {
    let items = convert_chat_message_to_output(&json(text), "completed").unwrap();
    items.iter().map(|i| i.to_value()).collect()
}

#[test]
fn chat_messages_of_every_form() {
    let text = |m: &str| output(m)[0]["content"].clone();
    let empty = value(r#"[{"type": "output_text", "text": "", "annotations": []}]"#);
    assert_eq!(text("{}"), empty);
    assert_eq!(text(r#"{"content": null}"#), empty);
    assert_eq!(text(r#"{"content": 5}"#), empty);
    assert_eq!(text(r#"{"content": []}"#), value("[]"));
    assert_eq!(
        text(
            r#"{"content": [{"type": "text", "text": "a"}, {"type": "image_url", "image_url": 1},
                {"type": "audio"}, {}]}"#
        ),
        value(
            r#"[{"type": "output_text", "text": "a", "annotations": []},
                {"type": "image_url", "image_url": 1}]"#
        )
    );
    assert_eq!(output(r#"{"role": "tool", "content": "x"}"#)[0]["role"], "tool");
    assert_eq!(output("{}")[0]["role"], "assistant");
}

#[test]
fn tool_calls_stand_alone() {
    let items = output(
        r#"{"content": "said", "tool_calls": [
            {"id": "a", "function": {"name": "f", "arguments": "{}"}}, {"id": "b"},
            {"function": {}}]}"#,
    );
    assert_eq!(
        items,
        vec![
            value(
                r#"{"type": "function_call", "id": "a", "call_id": "a", "name": "f",
                    "arguments": "{}", "status": "completed"}"#
            ),
            value(
                r#"{"type": "function_call", "id": "", "call_id": "", "name": "",
                    "arguments": "", "status": "completed"}"#
            ),
        ]
    );
    assert!(output(r#"{"tool_calls": []}"#).is_empty());
}

#[test]
fn function_call_goes_out_and_comes_back() {
    let item = r#"{"type": "function_call", "call_id": "c1", "name": "f", "arguments": "{\"a\":1}"}"#;
    let sent = convert_input_item_to_message(&json(item)).unwrap();
    let back = convert_chat_message_to_output(&sent, "completed").unwrap();
    assert_eq!(back.len(), 1);
    assert_eq!(
        back[0].to_value(),
        value(
            r#"{"type": "function_call", "id": "c1", "call_id": "c1", "name": "f",
                "arguments": "{\"a\":1}", "status": "completed"}"#
        )
    );
}

#[test]
fn text_goes_out_and_comes_back() {
    let item = r#"{"type": "message", "role": "user", "content": "hello"}"#;
    let sent = convert_input_item_to_message(&json(item)).unwrap();
    let back = convert_chat_message_to_output(&sent, "completed").unwrap();
    assert_eq!(
        back[0].to_value(),
        value(
            r#"{"type": "message", "role": "user", "status": "completed", "content": [
                {"type": "output_text", "text": "hello", "annotations": []}]}"#
        )
    );
}
