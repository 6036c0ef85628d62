use responses_chat::calls::{indices, ChunkAgg, ToolCallStreamState};
use responses_chat::events::{
    build_content_part_added, build_function_call_arguments_delta,
    build_function_call_arguments_done, build_function_call_item_added,
    build_function_call_item_done, build_output_item_added, build_output_text_delta,
    build_response_completed, build_response_completed_as, build_response_created_event,
    finalize_text_item, sse_event,
};
use responses_chat::ids::{drop_hyphens, new_uuid_id};
use responses_chat::json::{from_value, Json};
use responses_chat::response::chat_completions_to_responses;
use responses_chat::sse::{read_block, read_text, Payload, SseReader};
use responses_chat::stream::{
    yield_completion_events, yield_completion_events_as, Arrival, ChatChunk, ChatFunctionDelta,
    ChatToolCallDelta, ChunkChoice, ChunkDelta, ResponsesStream,
};
use serde_json::Value;
use std::collections::BTreeMap;

fn value(text: &str) -> Value {
    serde_json::from_str(text).unwrap()
}

fn json(text: &str) -> Json {
    from_value(value(text))
}

// The name and the data of each event in a text.
fn events(text: &str) -> Vec<(String, Value)> {
    let mut found = Vec::new();
    for block in text.split("\n\n") {
        if block.is_empty() {
            continue;
        }
        let (first, second) = block.split_once('\n').unwrap();
        let name = first.strip_prefix("event: ").unwrap().to_owned();
        found.push((name, value(second.strip_prefix("data: ").unwrap())));
    }
    found
}

fn all_events(frames: &[String]) -> Vec<(String, Value)> {
    events(&frames.concat())
}

fn names(list: &[(String, Value)]) -> Vec<&str> {
    list.iter().map(|e| e.0.as_str()).collect()
}

fn is_hex_id(id: &str) -> bool {
    id.len() == 32 && id.chars().all(|c| c.is_ascii_digit() || ('a'..='f').contains(&c))
}

fn choice(role: Option<&str>, content: Option<&str>, reason: Option<&str>) -> ChunkChoice {
    ChunkChoice {
        delta: ChunkDelta {
            role: role.map(|s| s.to_owned()),
            content: content.map(|s| s.to_owned()),
            tool_calls: None,
        },
        finish_reason: reason.map(|s| s.to_owned()),
    }
}

fn tool_delta(
    index: usize,
    id: Option<&str>,
    name: Option<&str>,
    arguments: Option<&str>,
) -> ChatToolCallDelta {
    ChatToolCallDelta {
        index,
        id: id.map(|s| s.to_owned()),
        function: Some(ChatFunctionDelta {
            name: name.map(|s| s.to_owned()),
            arguments: arguments.map(|s| s.to_owned()),
        }),
    }
}

fn tool_choice(calls: Vec<ChatToolCallDelta>) -> ChunkChoice {
    ChunkChoice {
        delta: ChunkDelta { role: None, content: None, tool_calls: Some(calls) },
        finish_reason: None,
    }
}

fn chunk(choices: Vec<ChunkChoice>, usage: Option<&str>) -> ChatChunk {
    ChatChunk {
        id: "c1".to_owned(),
        model: "m1".to_owned(),
        choices,
        usage: usage.map(json),
    }
}

fn call(id: &str, name: &str, item_id: &str, arguments: &str, added: bool, done: bool) -> ToolCallStreamState {
    ToolCallStreamState {
        id: id.to_owned(),
        name: name.to_owned(),
        item_id: item_id.to_owned(),
        arguments: arguments.to_owned(),
        sent_item_added: added,
        sent_arguments_done: done,
    }
}

#[test]
fn test_build_response_created_event() {
    let event = build_response_created_event("resp_123", "gpt-5.4");
    assert!(event.starts_with("event: response.created\n"));
    assert!(event.contains("resp_123"));
    assert!(event.contains("gpt-5.4"));
}

#[test]
fn test_build_output_item_added() {
    let event = build_output_item_added("msg_abc");
    assert!(event.starts_with("event: response.output_item.added\n"));
    assert!(event.contains("msg_abc"));
}

#[test]
fn test_build_output_text_delta() {
    let event = build_output_text_delta("msg_abc", "Hello");
    assert!(event.starts_with("event: response.output_text.delta\n"));
    assert!(event.contains("Hello"));
}

#[test]
fn test_build_function_call_item_added() {
    let event = build_function_call_item_added("fc_123", "call_456", "get_weather");
    assert!(event.starts_with("event: response.output_item.added\n"));
    assert!(event.contains("fc_123"));
    assert!(event.contains("call_456"));
    assert!(event.contains("function_call"));
    assert!(event.contains("get_weather"));
}

#[test]
fn test_build_function_call_arguments_delta() {
    let event = build_function_call_arguments_delta("fc_123", "{\"loc");
    assert!(event.starts_with("event: response.function_call_arguments.delta\n"));
    assert!(event.contains("{\\\"loc"));
}

#[test]
fn test_build_response_completed_text_only() {
    let agg = ChunkAgg {
        text_content: "Hello!".to_string(),
        tool_calls: BTreeMap::new(),
        finish_reason: Some("stop".to_string()),
    };
    let event = build_response_completed(
        "resp_123",
        "gpt-5.4",
        &agg,
        &json(r#"{"prompt_tokens": 10, "completion_tokens": 5, "total_tokens": 15}"#),
    );
    assert!(event.starts_with("event: response.completed\n"));
    assert!(event.contains("input_tokens"));
    assert!(event.contains("output_tokens"));
}

#[test]
fn test_build_response_completed_with_tool_calls() {
    let mut tool_calls = BTreeMap::new();
    tool_calls.insert(
        0,
        ToolCallStreamState {
            id: "call_abc".to_string(),
            name: "get_weather".to_string(),
            item_id: "fc_001".to_string(),
            arguments: "{\"location\":\"Tokyo\"}".to_string(),
            sent_item_added: true,
            sent_arguments_done: true,
        },
    );
    let agg = ChunkAgg {
        text_content: String::new(),
        tool_calls,
        finish_reason: Some("tool_calls".to_string()),
    };
    let event = build_response_completed(
        "resp_456",
        "gpt-5.4",
        &agg,
        &json(r#"{"prompt_tokens": 8, "completion_tokens": 4, "total_tokens": 12}"#),
    );
    assert!(event.starts_with("event: response.completed\n"));
    assert!(event.contains("function_call"));
    assert!(event.contains("get_weather"));
    assert!(event.contains("call_abc"));
}

#[test]
fn exact_texts_of_events() {
    assert_eq!(sse_event("a", "{}"), "event: a\ndata: {}\n\n");
    assert_eq!(
        build_response_created_event("r", "m"),
        "event: response.created\ndata: {\"response\":{\"id\":\"r\",\"model\":\"m\",\
         \"object\":\"response\",\"output\":[],\"status\":\"in_progress\"},\
         \"type\":\"response.created\"}\n\n"
    );
    assert_eq!(
        build_output_text_delta("i", "a\nb"),
        "event: response.output_text.delta\ndata: {\"content_index\":0,\"delta\":\"a\\nb\",\
         \"item_id\":\"i\",\"output_index\":0,\"type\":\"response.output_text.delta\"}\n\n"
    );
    assert_eq!(
        build_function_call_arguments_done("i", "{}"),
        "event: response.function_call_arguments.done\ndata: {\"arguments\":\"{}\",\
         \"item_id\":\"i\",\"output_index\":0,\
         \"type\":\"response.function_call_arguments.done\"}\n\n"
    );
}

#[test]
fn data_of_events() {
    let one = |text: String| events(&text).remove(0);
    assert_eq!(
        one(build_output_item_added("i")),
        (
            "response.output_item.added".to_owned(),
            value(
                r#"{"type": "response.output_item.added", "output_index": 0, "item": {"id": "i",
                    "type": "message", "role": "assistant", "status": "in_progress",
                    "content": []}}"#
            )
        )
    );
    assert_eq!(
        one(build_content_part_added("i")),
        (
            "response.content_part.added".to_owned(),
            value(
                r#"{"type": "response.content_part.added", "item_id": "i", "output_index": 0,
                    "content_index": 0, "part": {"type": "output_text", "text": "",
                    "annotations": []}}"#
            )
        )
    );
    assert_eq!(
        one(build_function_call_item_added("i", "c", "n")),
        (
            "response.output_item.added".to_owned(),
            value(
                r#"{"type": "response.output_item.added", "output_index": 0, "item": {"id": "i",
                    "type": "function_call", "call_id": "c", "name": "n",
                    "status": "in_progress"}}"#
            )
        )
    );
    assert_eq!(
        one(build_function_call_item_done("i", "c", "n", "{}")),
        (
            "response.output_item.done".to_owned(),
            value(
                r#"{"type": "response.output_item.done", "output_index": 0, "item": {"id": "i",
                    "type": "function_call", "call_id": "c", "name": "n", "arguments": "{}",
                    "status": "completed"}}"#
            )
        )
    );
}

#[test]
fn end_of_the_message() {
    let list = events(&finalize_text_item("i", "t", Some("length")));
    assert_eq!(names(&list), ["response.content_part.done", "response.output_item.done"]);
    assert_eq!(
        list[0].1["part"],
        value(r#"{"type": "output_text", "text": "t", "annotations": []}"#)
    );
    assert_eq!(
        list[1].1["item"],
        value(
            r#"{"id": "i", "type": "message", "role": "assistant", "status": "incomplete",
                "content": [{"type": "output_text", "text": "t", "annotations": []}]}"#
        )
    );
    for reason in [None, Some("stop"), Some("tool_calls"), Some("content_filter"), Some("x")] {
        let list = events(&finalize_text_item("i", "t", reason));
        assert_eq!(list[1].1["item"]["status"], "completed");
    }
}

#[test]
fn completed_event_of_text() {
    let agg = ChunkAgg {
        text_content: "t".to_owned(),
        tool_calls: BTreeMap::new(),
        finish_reason: Some("length".to_owned()),
    };
    let text = build_response_completed_as("r", "m", &agg, &json(r#"{"total_tokens": 3}"#), "i");
    assert_eq!(
        events(&text)[0].1,
        value(
            r#"{"type": "response.completed", "response": {"id": "r", "object": "response",
                "model": "m", "status": "incomplete", "output": [{"type": "message", "id": "i",
                "role": "assistant", "status": "incomplete", "content": [{"type": "output_text",
                "text": "t", "annotations": []}]}], "usage": {"input_tokens": 0,
                "output_tokens": 0, "total_tokens": 3}}}"#
        )
    );
}

#[test]
fn completed_event_of_text_and_calls() {
    let mut tool_calls = BTreeMap::new();
    tool_calls.insert(5, call("b", "g", "fc_2", "2", true, true));
    tool_calls.insert(2, call("a", "f", "fc_1", "1", true, true));
    assert_eq!(indices(&tool_calls), vec![2, 5]);
    let agg = ChunkAgg {
        text_content: "t".to_owned(),
        tool_calls,
        finish_reason: Some("length".to_owned()),
    };
    let text = build_response_completed("r", "m", &agg, &json("{}"));
    let data = events(&text).remove(0).1;
    assert_eq!(data["response"]["status"], "incomplete");
    let output = data["response"]["output"].as_array().unwrap();
    assert_eq!(output.len(), 3);
    assert_eq!(output[0]["status"], "completed");
    assert!(is_hex_id(output[0]["id"].as_str().unwrap()));
    assert_eq!(
        output[1],
        value(
            r#"{"type": "function_call", "id": "a", "call_id": "a", "name": "f",
                "arguments": "1", "status": "completed"}"#
        )
    );
    assert_eq!(output[2]["call_id"], "b");
}

#[test]
fn item_identifiers_are_new() {
    let a = new_uuid_id();
    let b = new_uuid_id();
    assert!(is_hex_id(&a));
    assert!(is_hex_id(&b));
    assert_ne!(a, b);
    assert_eq!(a.as_bytes()[12], b'4');
}

#[test]
fn completion_ends_what_is_open() {
    let mut tool_calls = BTreeMap::new();
    tool_calls.insert(0, call("a", "f", "fc_1", "1", true, false));
    tool_calls.insert(1, call("b", "", "fc_2", "2", false, false));
    tool_calls.insert(2, call("c", "h", "fc_3", "3", true, true));
    let mut agg = ChunkAgg {
        text_content: "t".to_owned(),
        tool_calls,
        finish_reason: None,
    };
    let mut finalized = false;
    let text = yield_completion_events_as(&mut agg, &mut finalized, true, "i", "r", "m", &json("{}"), "n");
    let list = events(&text);
    assert_eq!(
        names(&list),
        [
            "response.content_part.done",
            "response.output_item.done",
            "response.function_call_arguments.done",
            "response.output_item.done",
            "response.completed",
        ]
    );
    assert_eq!(list[2].1["item_id"], "fc_1");
    assert_eq!(list[4].1["response"]["output"].as_array().unwrap().len(), 4);
    assert!(finalized);
    assert!(agg.tool_calls[&0].sent_arguments_done);
    assert!(!agg.tool_calls[&1].sent_arguments_done);
    let again = yield_completion_events(&mut agg, &mut finalized, true, "i", "r", "m", &json("{}"));
    assert_eq!(names(&events(&again)), ["response.completed"]);
}

#[test]
fn course_of_a_text_answer() {
    let mut stream = ResponsesStream::new();
    let mut frames = Vec::new();
    frames.extend(stream.on_chunk(&chunk(vec![choice(Some("assistant"), Some(""), None)], None)));
    frames.extend(stream.on_chunk(&chunk(vec![choice(None, Some("Hel"), None)], None)));
    frames.extend(stream.on_chunk(&chunk(vec![choice(None, Some("lo"), None)], None)));
    frames.extend(stream.on_chunk(&chunk(vec![choice(None, None, Some("stop"))], None)));
    frames.extend(stream.on_chunk(&chunk(vec![], Some(r#"{"prompt_tokens": 4}"#))));
    let quiet = stream.on_done();
    assert!(quiet.is_empty());
    let list = all_events(&frames);
    assert_eq!(
        names(&list),
        [
            "response.created",
            "response.output_item.added",
            "response.content_part.added",
            "response.output_text.delta",
            "response.output_text.delta",
            "response.content_part.done",
            "response.output_item.done",
            "response.completed",
        ]
    );
    assert_eq!(list[0].1["response"]["id"], "c1");
    assert_eq!(list[0].1["response"]["model"], "m1");
    let item_id = list[1].1["item"]["id"].as_str().unwrap().to_owned();
    assert!(is_hex_id(&item_id));
    for event in &list[2..6] {
        assert_eq!(event.1["item_id"], item_id.as_str());
    }
    assert_eq!(list[3].1["delta"], "Hel");
    assert_eq!(list[4].1["delta"], "lo");
    assert_eq!(list[5].1["part"]["text"], "Hello");
    assert_eq!(list[6].1["item"]["content"][0]["text"], "Hello");
    assert_eq!(list[7].1["response"]["output"][0]["content"][0]["text"], "Hello");
    assert_eq!(list[7].1["response"]["usage"]["input_tokens"], 4);
    for event in &list {
        assert_eq!(event.1["type"], event.0.as_str());
    }
}

#[test]
fn course_of_a_function_call() {
    let mut stream = ResponsesStream::new();
    let mut frames = Vec::new();
    frames.extend(stream.on_chunk(&chunk(
        vec![tool_choice(vec![tool_delta(0, Some("call_1"), Some("f"), Some(""))])],
        None,
    )));
    frames.extend(stream.on_chunk(&chunk(
        vec![tool_choice(vec![tool_delta(0, None, None, Some("{\"a\""))])],
        None,
    )));
    frames.extend(stream.on_chunk(&chunk(
        vec![tool_choice(vec![tool_delta(0, None, None, Some(":1}"))])],
        None,
    )));
    frames.extend(stream.on_done());
    let list = all_events(&frames);
    assert_eq!(
        names(&list),
        [
            "response.created",
            "response.output_item.added",
            "response.function_call_arguments.delta",
            "response.function_call_arguments.delta",
            "response.function_call_arguments.done",
            "response.output_item.done",
            "response.completed",
        ]
    );
    assert_eq!(list[4].1["arguments"], "{\"a\":1}");
    assert_eq!(list[5].1["item"]["arguments"], "{\"a\":1}");
    assert_eq!(list[5].1["item"]["call_id"], "call_1");
    assert_eq!(list[1].1["item"]["id"], list[4].1["item_id"]);
    let output = list[6].1["response"]["output"].as_array().unwrap();
    assert_eq!(
        output[0],
        value(
            r#"{"type": "function_call", "id": "call_1", "call_id": "call_1", "name": "f",
                "arguments": "{\"a\":1}", "status": "completed"}"#
        )
    );
}

#[test]
fn text_ends_before_a_call_begins() {
    let mut stream = ResponsesStream::new();
    let mut frames = Vec::new();
    frames.extend(stream.on_chunk(&chunk(vec![choice(None, Some("t"), None)], None)));
    frames.extend(stream.on_chunk(&chunk(
        vec![tool_choice(vec![
            tool_delta(0, Some("a"), Some("f"), Some("1")),
            tool_delta(1, Some("b"), Some("g"), Some("2")),
        ])],
        None,
    )));
    frames.extend(stream.on_done());
    let list = all_events(&frames);
    assert_eq!(
        names(&list),
        [
            "response.created",
            "response.output_item.added",
            "response.content_part.added",
            "response.output_text.delta",
            "response.content_part.done",
            "response.output_item.done",
            "response.output_item.added",
            "response.function_call_arguments.delta",
            "response.output_item.added",
            "response.function_call_arguments.delta",
            "response.function_call_arguments.done",
            "response.output_item.done",
            "response.function_call_arguments.done",
            "response.output_item.done",
            "response.completed",
        ]
    );
    assert_eq!(list[10].1["arguments"], "1");
    assert_eq!(list[12].1["arguments"], "2");
    assert_ne!(list[10].1["item_id"], list[12].1["item_id"]);
}

#[test]
fn arguments_are_held_back_until_the_call_begins() {
    let mut stream = ResponsesStream::new();
    let mut frames = Vec::new();
    frames.extend(stream.on_chunk(&chunk(
        vec![tool_choice(vec![tool_delta(0, Some("a"), None, Some("1"))])],
        None,
    )));
    assert_eq!(names(&all_events(&frames)), ["response.created"]);
    frames.extend(stream.on_chunk(&chunk(
        vec![tool_choice(vec![tool_delta(0, None, Some("f"), Some("2"))])],
        None,
    )));
    frames.extend(stream.on_chunk(&chunk(
        vec![tool_choice(vec![tool_delta(0, None, None, Some("3"))])],
        None,
    )));
    frames.extend(stream.on_done());
    let list = all_events(&frames);
    assert_eq!(
        names(&list),
        [
            "response.created",
            "response.output_item.added",
            "response.function_call_arguments.delta",
            "response.function_call_arguments.delta",
            "response.function_call_arguments.done",
            "response.output_item.done",
            "response.completed",
        ]
    );
    assert_eq!(list[1].1["item"]["id"], list[2].1["item_id"]);
    assert_eq!(list[2].1["delta"], "12");
    assert_eq!(list[3].1["delta"], "3");
    assert_eq!(list[4].1["arguments"], "123");
}

#[test]
fn role_begins_the_message_once() {
    let mut stream = ResponsesStream::new();
    let mut frames = Vec::new();
    for _ in 0..2 {
        frames.extend(stream.on_chunk(&chunk(vec![choice(Some("assistant"), None, None)], None)));
    }
    frames.extend(stream.on_chunk(&chunk(vec![choice(Some("user"), None, None)], None)));
    frames.extend(stream.on_done());
    frames.extend(stream.on_done());
    let list = all_events(&frames);
    assert_eq!(
        names(&list),
        [
            "response.created",
            "response.output_item.added",
            "response.content_part.added",
            "response.content_part.done",
            "response.output_item.done",
            "response.completed",
        ]
    );
    assert_eq!(list[1].1["item"]["id"], list[4].1["item"]["id"]);
    assert_eq!(list[4].1["item"]["content"][0]["text"], "");
}

#[test]
fn role_begins_no_message_beside_calls() {
    let mut stream = ResponsesStream::new();
    let mut both = tool_choice(vec![tool_delta(0, Some("a"), Some("f"), None)]);
    both.delta.role = Some("assistant".to_owned());
    let frames = stream.on_chunk(&chunk(vec![both], None));
    let list = all_events(&frames);
    assert_eq!(names(&list), ["response.created", "response.output_item.added"]);
    assert_eq!(list[1].1["item"]["type"], "function_call");
}

#[test]
fn stream_without_a_chunk() {
    let mut stream = ResponsesStream::new();
    let list = all_events(&stream.on_done());
    assert_eq!(names(&list), ["response.completed"]);
    assert_eq!(list[0].1["response"]["id"], "");
    assert_eq!(list[0].1["response"]["model"], "");
    assert_eq!(list[0].1["response"]["output"][0]["content"][0]["text"], "");
    assert_eq!(
        list[0].1["response"]["usage"],
        value(r#"{"input_tokens": 0, "output_tokens": 0, "total_tokens": 0}"#)
    );
}

#[test]
fn identifiers_stay_where_a_chunk_has_none() {
    let mut stream = ResponsesStream::new();
    stream.on_chunk(&chunk(vec![], None));
    let mut unnamed = chunk(vec![], Some("{}"));
    unnamed.id = String::new();
    unnamed.model = String::new();
    let list = all_events(&stream.on_chunk(&unnamed));
    assert_eq!(list[0].1["response"]["id"], "c1");
    assert_eq!(list[0].1["response"]["model"], "m1");
}

#[test]
fn text_after_a_call_follows_the_end_of_the_text() {
    let mut stream = ResponsesStream::new();
    let mut frames = Vec::new();
    frames.extend(stream.on_chunk(&chunk(vec![choice(None, Some("t"), None)], None)));
    frames.extend(stream.on_chunk(&chunk(
        vec![tool_choice(vec![tool_delta(0, Some("a"), Some("f"), None)])],
        None,
    )));
    let late = stream.on_chunk(&chunk(vec![choice(None, Some("u"), None)], None));
    assert_eq!(names(&all_events(&late)), ["response.output_text.delta"]);
    let list = all_events(&stream.on_done());
    let output = list.last().unwrap().1["response"]["output"].as_array().unwrap();
    assert_eq!(output[0]["content"][0]["text"], "tu");
    assert_eq!(output[1]["name"], "f");
}

#[test]
fn written_events_come_back() {
    let text = build_output_text_delta("i", "line\r\n\ntwo");
    let block = text.strip_suffix("\n\n").unwrap();
    assert!(!block.contains("\n\n"));
    match read_block(block.as_bytes()) {
        Some(Payload::Chunk(data)) => {
            assert_eq!(value(&data)["delta"], "line\r\n\ntwo");
            assert_eq!(value(&data)["type"], "response.output_text.delta");
        }
        _ => panic!("no data"),
    }
}

#[test]
fn steps_with_given_identifiers() {
    let mut stream = ResponsesStream::new();
    let created = stream.begin("r", "m", "item".to_owned());
    assert_eq!(created, vec![build_response_created_event("r", "m")]);
    assert!(stream.begin("", "", "other".to_owned()).is_empty());
    assert_eq!(
        stream.text("x"),
        vec![
            build_output_item_added("item"),
            build_content_part_added("item"),
            build_output_text_delta("item", "x"),
        ]
    );
    assert!(stream.text("").is_empty());
    assert!(stream.role("assistant").is_empty());
    stream.finish("length");
    assert_eq!(
        stream.tool_call(&tool_delta(3, Some("c"), Some("f"), Some("1")), "fc".to_owned()),
        vec![
            finalize_text_item("item", "x", Some("length")),
            build_function_call_item_added("fc", "c", "f"),
            build_function_call_arguments_delta("fc", "1"),
        ]
    );
    let last = stream.complete_as(&json("{}"), "msg");
    assert_eq!(last.len(), 1);
    let list = all_events(&last);
    assert_eq!(
        names(&list),
        [
            "response.function_call_arguments.done",
            "response.output_item.done",
            "response.completed",
        ]
    );
    assert_eq!(list[2].1["response"]["status"], "incomplete");
    assert_eq!(list[2].1["response"]["output"][0]["id"], "msg");
    assert!(stream.complete(&json("{}")).is_empty());
}

#[test]
fn streamed_calls_match_an_answer_in_one_piece() {
    let mut stream = ResponsesStream::new();
    stream.on_chunk(&chunk(
        vec![tool_choice(vec![
            tool_delta(1, Some("b"), Some("g"), Some("{}")),
            tool_delta(0, Some("a"), Some("f"), Some("{\"x\"")),
        ])],
        None,
    ));
    stream.on_chunk(&chunk(
        vec![tool_choice(vec![tool_delta(0, None, None, Some(":1}"))])],
        None,
    ));
    let list = all_events(&stream.on_done());
    let whole = json(
        r#"{"choices": [{"finish_reason": "tool_calls", "message": {"tool_calls": [
            {"id": "a", "function": {"name": "f", "arguments": "{\"x\":1}"}},
            {"id": "b", "function": {"name": "g", "arguments": "{}"}}]}}]}"#,
    );
    let answer = chat_completions_to_responses(whole).unwrap().to_value();
    assert_eq!(list.last().unwrap().1["response"]["output"], answer["output"]);
}

#[test]
fn unreadable_arrivals_change_nothing() {
    let mut stream = ResponsesStream::new();
    assert!(stream.on_arrival(&Arrival::Unreadable).is_empty());
    let mut frames = stream.on_arrival(&Arrival::Chunk(chunk(vec![choice(None, Some("x"), None)], None)));
    frames.extend(stream.on_arrival(&Arrival::Unreadable));
    frames.extend(stream.on_arrival(&Arrival::Done));
    frames.extend(stream.on_arrival(&Arrival::Done));
    let list = all_events(&frames);
    assert_eq!(list.first().unwrap().0, "response.created");
    assert_eq!(list.last().unwrap().0, "response.completed");
    assert_eq!(list.iter().filter(|e| e.0 == "response.created").count(), 1);
    assert_eq!(list.iter().filter(|e| e.0 == "response.completed").count(), 1);
}

#[test]
fn hyphens_are_dropped() {
    assert_eq!(drop_hyphens("a-b--c-"), "abc");
    assert_eq!(drop_hyphens(""), "");
    assert_eq!(drop_hyphens("abc"), "abc");
}

#[test]
fn sent_bytes_are_read_as_the_events() {
    let mut stream = ResponsesStream::new();
    let mut frames = stream.on_chunk(&chunk(vec![choice(None, Some("h\u{e9}\n\n[DONE]"), None)], None));
    frames.extend(stream.on_done());
    let text = frames.concat();
    let mut reader = SseReader::new();
    let found = reader.push(text.as_bytes());
    assert!(reader.buffer.is_empty());
    let list = events(&text);
    assert_eq!(found.len(), list.len());
    for (payload, event) in found.iter().zip(&list) {
        match payload {
            Payload::Chunk(data) => assert_eq!(value(data), event.1),
            Payload::Done => panic!("not an event"),
        }
    }
}

#[test]
fn text_of_a_block() {
    assert!(matches!(read_text("data: [DONE]"), Some(Payload::Done)));
    assert!(read_text("id: 1").is_none());
}

#[test]
fn nothing_follows_the_end() {
    let mut stream = ResponsesStream::new();
    let end = stream.on_arrival(&Arrival::Done);
    assert_eq!(names(&all_events(&end)), ["response.completed"]);
    let mut late = choice(Some("assistant"), Some("late"), Some("length"));
    late.delta.tool_calls = Some(vec![tool_delta(0, Some("a"), Some("f"), Some("1"))]);
    let more = chunk(vec![late], Some(r#"{"prompt_tokens": 9}"#));
    assert!(stream.on_arrival(&Arrival::Chunk(more)).is_empty());
    assert!(stream.on_arrival(&Arrival::Done).is_empty());
    assert!(stream.agg.tool_calls.is_empty());
    assert_eq!(stream.agg.text_content, "");
}

#[test]
fn usage_of_the_first_chunk_that_tells_one() {
    let mut stream = ResponsesStream::new();
    let mut frames = Vec::new();
    frames.extend(stream.on_chunk(&chunk(vec![choice(None, Some("a"), None)], None)));
    frames.extend(stream.on_chunk(&chunk(
        vec![choice(None, Some("b"), None)],
        Some(r#"{"prompt_tokens": 1}"#),
    )));
    frames.extend(stream.on_chunk(&chunk(
        vec![choice(None, Some("c"), None)],
        Some(r#"{"prompt_tokens": 2}"#),
    )));
    frames.extend(stream.on_done());
    let list = all_events(&frames);
    let last = list.last().unwrap();
    assert_eq!(last.0, "response.completed");
    assert_eq!(list.iter().filter(|e| e.0 == "response.completed").count(), 1);
    assert_eq!(last.1["response"]["usage"]["input_tokens"], 1);
    assert_eq!(last.1["response"]["output"][0]["content"][0]["text"], "ab");
}

#[test]
fn content_of_all_choices_in_order() {
    let mut stream = ResponsesStream::new();
    let two = vec![choice(None, Some("a"), None), choice(None, Some("b"), None)];
    stream.on_chunk(&chunk(two, None));
    stream.on_arrival(&Arrival::Unreadable);
    stream.on_chunk(&chunk(vec![choice(None, None, None), choice(None, Some("c"), None)], None));
    assert_eq!(stream.agg.text_content, "abc");
}

#[test]
fn message_without_text_ends_with_the_answer() {
    let mut stream = ResponsesStream::new();
    let mut frames = Vec::new();
    frames.extend(stream.on_chunk(&chunk(vec![choice(Some("assistant"), None, None)], None)));
    frames.extend(stream.on_chunk(&chunk(
        vec![tool_choice(vec![tool_delta(0, Some("a"), Some("f"), Some("{}"))])],
        None,
    )));
    frames.extend(stream.on_done());
    let list = all_events(&frames);
    assert_eq!(
        names(&list),
        [
            "response.created",
            "response.output_item.added",
            "response.output_item.added",
            "response.function_call_arguments.delta",
            "response.content_part.added",
            "response.content_part.done",
            "response.output_item.done",
            "response.function_call_arguments.done",
            "response.output_item.done",
            "response.completed",
        ]
    );
    assert_eq!(list[2].1["item"]["type"], "function_call");
    assert_eq!(list[1].1["item"]["id"], list[6].1["item"]["id"]);
    let output = list[9].1["response"]["output"].as_array().unwrap();
    assert_eq!(output.len(), 1);
    assert_eq!(output[0]["type"], "function_call");
}

#[test]
fn text_after_a_call_is_in_the_end_of_the_message() {
    let mut stream = ResponsesStream::new();
    let mut frames = Vec::new();
    frames.extend(stream.on_chunk(&chunk(vec![choice(Some("assistant"), None, None)], None)));
    frames.extend(stream.on_chunk(&chunk(
        vec![tool_choice(vec![tool_delta(0, Some("a"), Some("f"), None)])],
        None,
    )));
    frames.extend(stream.on_chunk(&chunk(vec![choice(None, Some("x"), None)], None)));
    frames.extend(stream.on_done());
    let list = all_events(&frames);
    assert_eq!(
        names(&list),
        [
            "response.created",
            "response.output_item.added",
            "response.output_item.added",
            "response.content_part.added",
            "response.output_text.delta",
            "response.content_part.done",
            "response.output_item.done",
            "response.function_call_arguments.done",
            "response.output_item.done",
            "response.completed",
        ]
    );
    let item_id = list[1].1["item"]["id"].clone();
    assert_eq!(list[5].1["part"]["text"], "x");
    assert_eq!(list[5].1["item_id"], item_id);
    assert_eq!(list[6].1["item"]["content"][0]["text"], "x");
    assert_eq!(list[6].1["item"]["id"], item_id);
}

#[test]
fn text_after_a_call_alone() {
    let mut stream = ResponsesStream::new();
    let mut frames = Vec::new();
    frames.extend(stream.on_chunk(&chunk(
        vec![tool_choice(vec![tool_delta(0, Some("a"), Some("f"), None)])],
        None,
    )));
    frames.extend(stream.on_chunk(&chunk(vec![choice(None, Some("x"), None)], None)));
    frames.extend(stream.on_chunk(&chunk(
        vec![tool_choice(vec![tool_delta(0, None, None, Some("{}"))])],
        None,
    )));
    frames.extend(stream.on_done());
    let list = all_events(&frames);
    assert_eq!(
        names(&list),
        [
            "response.created",
            "response.output_item.added",
            "response.output_item.added",
            "response.content_part.added",
            "response.output_text.delta",
            "response.function_call_arguments.delta",
            "response.content_part.done",
            "response.output_item.done",
            "response.function_call_arguments.done",
            "response.output_item.done",
            "response.completed",
        ]
    );
    assert_eq!(list[7].1["item"]["content"][0]["text"], "x");
    assert_eq!(list[8].1["arguments"], "{}");
}

#[test]
fn arguments_of_each_index_in_order() {
    let mut stream = ResponsesStream::new();
    let mut frames = Vec::new();
    for (index, piece) in [(0, "1"), (1, "a"), (0, "2"), (1, "b"), (0, "3")] {
        let (id, name) = if index == 0 { ("x", "f") } else { ("y", "g") };
        frames.extend(stream.on_chunk(&chunk(
            vec![tool_choice(vec![tool_delta(index, Some(id), Some(name), Some(piece))])],
            None,
        )));
    }
    frames.extend(stream.on_done());
    let list = all_events(&frames);
    let ends: Vec<&Value> = list
        .iter()
        .filter(|e| e.0 == "response.function_call_arguments.done")
        .map(|e| &e.1["arguments"])
        .collect();
    assert_eq!(ends, [&value(r#""123""#), &value(r#""ab""#)]);
}

#[test]
fn text_deltas_are_told_apart() {
    let pairs = [("a", "b"), ("a\",\"delta\":\"b", ""), ("", "\n\n\\\""), ("a", "\u{2028}\r\n"), ("ab", "")];
    for (i, x) in pairs.iter().enumerate() {
        let text = build_output_text_delta(x.0, x.1);
        let data = text
            .strip_prefix("event: response.output_text.delta\ndata: ")
            .unwrap()
            .strip_suffix("\n\n")
            .unwrap();
        assert!(!data.contains('\n') && !data.contains('\r'));
        let json = Json::from_text(data).unwrap();
        assert_eq!(json.get_str("item_id"), Some(x.0));
        assert_eq!(json.get_str("delta"), Some(x.1));
        for (j, y) in pairs.iter().enumerate() {
            assert_eq!(text == build_output_text_delta(y.0, y.1), i == j);
        }
    }
}
