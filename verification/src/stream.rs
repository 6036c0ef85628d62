//! A chat answer that arrives in chunks, and the events of the Responses API that it becomes.

use crate::calls::{
    calls_in_order, calls_model, in_order, indices, new_call, option_chars, AggSpec, CallSpec,
    ChunkAgg, ToolCallStreamState,
};
use crate::events::{
    all_well_formed, build_content_part_added, build_function_call_arguments_delta,
    build_function_call_arguments_done, build_function_call_item_added,
    build_function_call_item_done, build_output_item_added, build_output_text_delta,
    build_response_completed_as, build_response_created_event, completed_event, event_text,
    finalize_text_item, frame_text, message_end, Event,
};
use crate::ids::{is_item_id, new_uuid_id};
use crate::json::{Json, JsonSpec, Object};
use std::collections::BTreeMap;
use vstd::prelude::*;
use vstd::string::StringExecFns;

verus! {

/// What a chunk says of the function that a tool call calls.
pub struct ChatFunctionDelta {
    pub name: Option<String>,
    pub arguments: Option<String>,
}

/// What a chunk says of a tool call.
pub struct ChatToolCallDelta {
    pub index: usize,
    pub id: Option<String>,
    pub function: Option<ChatFunctionDelta>,
}

/// What a chunk adds to a message.
pub struct ChunkDelta {
    pub role: Option<String>,
    pub content: Option<String>,
    pub tool_calls: Option<Vec<ChatToolCallDelta>>,
}

/// A choice in a chunk.
pub struct ChunkChoice {
    pub delta: ChunkDelta,
    pub finish_reason: Option<String>,
}

/// A chunk of a chat answer.
pub struct ChatChunk {
    pub id: String,
    pub model: String,
    pub choices: Vec<ChunkChoice>,
    pub usage: Option<Json>,
}

/// The model of what a chunk says of a tool call.
#[verifier::ext_equal]
pub struct ToolDeltaSpec {
    pub index: usize,
    pub id: Option<Seq<char>>,
    pub name: Option<Seq<char>>,
    pub arguments: Option<Seq<char>>,
}

/// The model of a choice in a chunk.
#[verifier::ext_equal]
pub struct ChoiceSpec {
    pub tool_calls: Seq<ToolDeltaSpec>,
    pub content: Option<Seq<char>>,
    pub role: Option<Seq<char>>,
    pub finish_reason: Option<Seq<char>>,
}

/// The model of a chunk.
#[verifier::ext_equal]
pub struct ChunkSpec {
    pub id: Seq<char>,
    pub model: Seq<char>,
    pub choices: Seq<ChoiceSpec>,
    pub usage: Option<JsonSpec>,
}

impl View for ChatToolCallDelta {
    type V = ToolDeltaSpec;

    open spec fn view(&self) -> ToolDeltaSpec {
        ToolDeltaSpec {
            index: self.index,
            id: option_chars(self.id),
            name: match self.function {
                Some(function) => option_chars(function.name),
                None => None,
            },
            arguments: match self.function {
                Some(function) => option_chars(function.arguments),
                None => None,
            },
        }
    }
}

impl View for ChunkChoice {
    type V = ChoiceSpec;

    open spec fn view(&self) -> ChoiceSpec {
        ChoiceSpec {
            tool_calls: match self.delta.tool_calls {
                Some(calls) => calls@.map_values(|c: ChatToolCallDelta| c@),
                None => Seq::empty(),
            },
            content: option_chars(self.delta.content),
            role: option_chars(self.delta.role),
            finish_reason: option_chars(self.finish_reason),
        }
    }
}

impl View for ChatChunk {
    type V = ChunkSpec;

    open spec fn view(&self) -> ChunkSpec {
        ChunkSpec {
            id: self.id@,
            model: self.model@,
            choices: self.choices@.map_values(|c: ChunkChoice| c@),
            usage: match self.usage {
                Some(usage) => Some(usage@),
                None => None,
            },
        }
    }
}

/// What arrives of a streamed answer.
pub enum Arrival {
    /// A chunk.
    Chunk(ChatChunk),
    /// Something that is no chunk, or that was lost on the way.
    Unreadable,
    /// The end: the stream has said so, or has ended.
    Done,
}

/// The model of what arrives of a streamed answer.
#[verifier::ext_equal]
pub enum ArrivalSpec {
    Chunk(ChunkSpec),
    Unreadable,
    Done,
}

impl View for Arrival {
    type V = ArrivalSpec;

    open spec fn view(&self) -> ArrivalSpec {
        match self {
            Arrival::Chunk(chunk) => ArrivalSpec::Chunk(chunk@),
            Arrival::Unreadable => ArrivalSpec::Unreadable,
            Arrival::Done => ArrivalSpec::Done,
        }
    }
}

/// How far the conversion of an answer has come.
pub struct ResponsesStream {
    pub response_id: Option<String>,
    pub model: Option<String>,
    pub msg_item_id: Option<String>,
    pub agg: ChunkAgg,
    pub sent_response_created: bool,
    pub sent_item_added: bool,
    pub sent_content_part_added: bool,
    pub text_item_finalized: bool,
    pub completed: bool,
}

/// The model of how far the conversion of an answer has come.
#[verifier::ext_equal]
pub struct StreamSpec {
    pub response_id: Option<Seq<char>>,
    pub model: Option<Seq<char>>,
    pub msg_item_id: Option<Seq<char>>,
    pub agg: AggSpec,
    pub sent_response_created: bool,
    pub sent_item_added: bool,
    pub sent_content_part_added: bool,
    pub text_item_finalized: bool,
    pub completed: bool,
}

impl View for ResponsesStream {
    type V = StreamSpec;

    open spec fn view(&self) -> StreamSpec {
        StreamSpec {
            response_id: option_chars(self.response_id),
            model: option_chars(self.model),
            msg_item_id: option_chars(self.msg_item_id),
            agg: self.agg@,
            sent_response_created: self.sent_response_created,
            sent_item_added: self.sent_item_added,
            sent_content_part_added: self.sent_content_part_added,
            text_item_finalized: self.text_item_finalized,
            completed: self.completed,
        }
    }
}

/// The state before anything has arrived.
pub open spec fn initial() -> StreamSpec {
    StreamSpec {
        response_id: None,
        model: None,
        msg_item_id: None,
        agg: AggSpec {
            text_content: Seq::empty(),
            tool_calls: Map::empty(),
            finish_reason: None,
        },
        sent_response_created: false,
        sent_item_added: false,
        sent_content_part_added: false,
        text_item_finalized: false,
        completed: false,
    }
}

/// What happens to the conversion, one thing at a time. Where a new item may be named, `fresh` is
/// the identifier that it gets.
#[verifier::ext_equal]
pub enum Step {
    /// A chunk arrives.
    Begin { id: Seq<char>, model: Seq<char>, fresh: Seq<char> },
    /// It says something of a tool call.
    ToolCall { delta: ToolDeltaSpec, fresh: Seq<char> },
    /// It brings text.
    Text { text: Seq<char> },
    /// It names the role of the message.
    Role { role: Seq<char> },
    /// It says why the answer ends.
    Finish { reason: Seq<char> },
    /// The answer is over.
    Complete { usage: JsonSpec, fresh: Seq<char> },
}

/// The characters of a string, or none at all where it is missing.
pub open spec fn or_empty(s: Option<Seq<char>>) -> Seq<char> {
    match s {
        Some(s) => s,
        None => Seq::empty(),
    }
}

/// The new value where there is one, else the old.
pub open spec fn updated(old_value: Seq<char>, new_value: Option<Seq<char>>) -> Seq<char> {
    match new_value {
        Some(s) => s,
        None => old_value,
    }
}

/// The new value where it has any character, else the old.
pub open spec fn updated_by_text(
    old_value: Option<Seq<char>>,
    new_value: Seq<char>,
) -> Option<Seq<char>> {
    if new_value.len() > 0 {
        Some(new_value)
    } else {
        old_value
    }
}

/// A tool call after a chunk has said something of it, but for what has been sent.
pub open spec fn updated_call(call: CallSpec, delta: ToolDeltaSpec) -> CallSpec {
    CallSpec {
        id: updated(call.id, delta.id),
        name: updated(call.name, delta.name),
        arguments: call.arguments + or_empty(delta.arguments),
        ..call
    }
}

/// Whether a tool call can be announced: it has an identifier and a name, and was not announced.
pub open spec fn announces(call: CallSpec) -> bool {
    !call.sent_item_added && call.id.len() > 0 && call.name.len() > 0
}

/// Whether the text of the message is open: begun and not ended.
pub open spec fn text_open(s: StreamSpec) -> bool {
    s.sent_content_part_added && !s.text_item_finalized
}

/// Whether the message has begun and not ended, and its text has not begun.
pub open spec fn part_missing(s: StreamSpec) -> bool {
    s.sent_item_added && !s.sent_content_part_added && !s.text_item_finalized
}

/// A state in which the text of the message has begun where it was missing.
pub open spec fn with_part(s: StreamSpec) -> StreamSpec {
    StreamSpec { sent_content_part_added: s.sent_content_part_added || part_missing(s), ..s }
}

/// The frame that begins the text of the message, where it is missing.
pub open spec fn part_frames(s: StreamSpec) -> Seq<Seq<Event>> {
    if part_missing(s) {
        seq![seq![Event::PartAdded { item_id: or_empty(s.msg_item_id) }]]
    } else {
        Seq::empty()
    }
}

/// The end of the message, where its text is open.
pub open spec fn open_message_end(s: StreamSpec) -> Seq<Event> {
    if text_open(s) {
        message_end(or_empty(s.msg_item_id), s.agg.text_content, s.agg.finish_reason)
    } else {
        Seq::empty()
    }
}

/// The end of a tool call, where it was announced and not ended.
pub open spec fn call_end(call: CallSpec) -> Seq<Event> {
    if call.sent_item_added && !call.sent_arguments_done {
        seq![
            Event::ArgumentsDone { item_id: call.item_id, arguments: call.arguments },
            Event::CallDone {
                item_id: call.item_id,
                call_id: call.id,
                name: call.name,
                arguments: call.arguments,
            },
        ]
    } else {
        Seq::empty()
    }
}

/// The ends of several tool calls, in order.
pub open spec fn call_ends(calls: Seq<CallSpec>) -> Seq<Event>
    decreases calls.len(),
{
    if calls.len() == 0 {
        Seq::empty()
    } else {
        call_ends(calls.drop_last()) + call_end(calls.last())
    }
}

/// A tool call after it has been ended, where it was announced.
pub open spec fn ended(call: CallSpec) -> CallSpec {
    CallSpec { sent_arguments_done: call.sent_arguments_done || call.sent_item_added, ..call }
}

/// What has arrived of an answer, after each announced tool call has been ended.
pub open spec fn ended_agg(agg: AggSpec) -> AggSpec {
    AggSpec { tool_calls: agg.tool_calls.map_values(|c: CallSpec| ended(c)), ..agg }
}

/// The events of the end of an answer: of the message where its text is open, of each tool call, of
/// the answer itself.
pub open spec fn completion_events(
    agg: AggSpec,
    text_is_open: bool,
    msg_item_id: Seq<char>,
    response_id: Seq<char>,
    model: Seq<char>,
    usage: JsonSpec,
    fresh: Seq<char>,
) -> Seq<Event> {
    (if text_is_open {
        message_end(msg_item_id, agg.text_content, agg.finish_reason)
    } else {
        Seq::empty()
    }) + call_ends(calls_in_order(agg.tool_calls)) + seq![
        completed_event(response_id, model, agg, usage, fresh),
    ]
}

/// The events of the end of an answer in a state.
pub open spec fn completion(s: StreamSpec, usage: JsonSpec, fresh: Seq<char>) -> Seq<Event> {
    completion_events(
        s.agg,
        text_open(s),
        or_empty(s.msg_item_id),
        or_empty(s.response_id),
        or_empty(s.model),
        usage,
        fresh,
    )
}

/// The frames that announce a tool call. The message ends before it where its text is open.
pub open spec fn announcement(s: StreamSpec, call: CallSpec) -> Seq<Seq<Event>> {
    (if text_open(s) {
        seq![open_message_end(s)]
    } else {
        Seq::empty()
    }) + seq![
        seq![Event::CallAdded { item_id: call.item_id, call_id: call.id, name: call.name }],
    ]
}

/// The piece of its arguments that a tool call sends on, after a chunk has said something of it. It
/// holds its arguments back until it is announced, and then sends on all that have come.
pub open spec fn sent_piece(call: CallSpec, delta: ToolDeltaSpec) -> Seq<char> {
    if announces(call) {
        call.arguments
    } else if call.sent_item_added {
        or_empty(delta.arguments)
    } else {
        Seq::empty()
    }
}

/// The frame that passes on a piece of the arguments of a tool call, where it is not empty.
pub open spec fn argument_piece(item_id: Seq<char>, piece: Seq<char>) -> Seq<Seq<Event>> {
    if piece.len() > 0 {
        seq![seq![Event::ArgumentsDelta { item_id, delta: piece }]]
    } else {
        Seq::empty()
    }
}

/// The tool call under an index; a new one where there is none.
pub open spec fn found_call(
    calls: Map<usize, CallSpec>,
    index: usize,
    fresh: Seq<char>,
) -> CallSpec {
    if calls.contains_key(index) {
        calls[index]
    } else {
        new_call(fresh)
    }
}

/// A step: the state that it leads to, and the frames that go out, each with its events. Once the
/// answer is completed, nothing changes and nothing goes out.
pub open spec fn step(s: StreamSpec, st: Step) -> (StreamSpec, Seq<Seq<Event>>) {
    if s.completed {
        (s, Seq::empty())
    } else {
        open_step(s, st)
    }
}

/// A step while the answer is not completed.
pub open spec fn open_step(s: StreamSpec, st: Step) -> (StreamSpec, Seq<Seq<Event>>) {
    match st {
        Step::Begin { id, model, fresh } => {
            let t = StreamSpec {
                response_id: updated_by_text(s.response_id, id),
                model: updated_by_text(s.model, model),
                msg_item_id: match s.msg_item_id {
                    Some(item_id) => Some(item_id),
                    None => Some(fresh),
                },
                sent_response_created: true,
                ..s
            };
            let created = Event::Created { id: or_empty(t.response_id), model: or_empty(t.model) };
            (
                t,
                if s.sent_response_created {
                    Seq::empty()
                } else {
                    seq![seq![created]]
                },
            )
        },
        Step::ToolCall { delta, fresh } => {
            let calls = s.agg.tool_calls;
            let call = updated_call(found_call(calls, delta.index, fresh), delta);
            let is_new = announces(call);
            let kept = CallSpec { sent_item_added: call.sent_item_added || is_new, ..call };
            let t = StreamSpec {
                agg: AggSpec { tool_calls: calls.insert(delta.index, kept), ..s.agg },
                text_item_finalized: s.text_item_finalized || (is_new && text_open(s)),
                ..s
            };
            let announced = if is_new {
                announcement(s, call)
            } else {
                Seq::empty()
            };
            (t, announced + argument_piece(call.item_id, sent_piece(call, delta)))
        },
        Step::Text { text } => if text.len() == 0 {
            (s, Seq::empty())
        } else {
            let item_id = or_empty(s.msg_item_id);
            let t = StreamSpec {
                agg: AggSpec { text_content: s.agg.text_content + text, ..s.agg },
                sent_item_added: true,
                sent_content_part_added: true,
                ..s
            };
            let message = if s.sent_item_added {
                Seq::empty()
            } else {
                seq![seq![Event::MessageAdded { item_id }]]
            };
            let part = if s.sent_content_part_added {
                Seq::empty()
            } else {
                seq![seq![Event::PartAdded { item_id }]]
            };
            (t, message + part + seq![seq![Event::TextDelta { item_id, delta: text }]])
        },
        Step::Role { role } => if role == "assistant"@ && !s.sent_item_added
            && s.agg.tool_calls.is_empty() {
            (
                StreamSpec { sent_item_added: true, ..s },
                seq![seq![Event::MessageAdded { item_id: or_empty(s.msg_item_id) }]],
            )
        } else {
            (s, Seq::empty())
        },
        Step::Finish { reason } => (
            StreamSpec { agg: AggSpec { finish_reason: Some(reason), ..s.agg }, ..s },
            Seq::empty(),
        ),
        Step::Complete { usage, fresh } => {
            let t = with_part(s);
            (
                StreamSpec {
                    agg: ended_agg(s.agg),
                    text_item_finalized: s.text_item_finalized || t.sent_content_part_added,
                    completed: true,
                    ..t
                },
                part_frames(s) + seq![completion(t, usage, fresh)],
            )
        },
    }
}

/// Steps one after the other.
pub open spec fn run(s: StreamSpec, steps: Seq<Step>) -> (StreamSpec, Seq<Seq<Event>>)
    decreases steps.len(),
{
    if steps.len() == 0 {
        (s, Seq::empty())
    } else {
        let (t, sent) = run(s, steps.drop_last());
        let (u, more) = step(t, steps.last());
        (u, sent + more)
    }
}

/// Whether each event in frames is well-formed.
pub open spec fn frames_well_formed(frames: Seq<Seq<Event>>) -> bool {
    forall|i: int| 0 <= i < frames.len() ==> all_well_formed(#[trigger] frames[i])
}

/// The texts of frames.
pub open spec fn frame_texts(frames: Seq<Seq<Event>>) -> Seq<Seq<char>> {
    frames.map_values(|f: Seq<Event>| frame_text(f))
}

/// The characters of strings.
pub open spec fn texts(s: Seq<String>) -> Seq<Seq<char>> {
    s.map_values(|t: String| t@)
}

/// Whether a step led from one state to another and sent the given texts, of well-formed
/// events.
pub open spec fn took_step(s: StreamSpec, st: Step, t: StreamSpec, sent: Seq<Seq<char>>) -> bool {
    &&& t == step(s, st).0
    &&& sent == frame_texts(step(s, st).1)
    &&& frames_well_formed(step(s, st).1)
}

/// Whether steps led from one state to another and sent the given texts, of well-formed
/// events.
pub open spec fn took_steps(
    s: StreamSpec,
    steps: Seq<Step>,
    t: StreamSpec,
    sent: Seq<Seq<char>>,
) -> bool {
    &&& t == run(s, steps).0
    &&& sent == frame_texts(run(s, steps).1)
    &&& frames_well_formed(run(s, steps).1)
}

/// A frame of one event has the text of the event.
proof fn lemma_one_event(e: Event)
    ensures
        frame_text(seq![e]) == event_text(e),
{
    reveal_with_fuel(frame_text, 2);
    assert(seq![e].drop_last() =~= Seq::empty());
    assert(frame_text(seq![e]) =~= event_text(e));
}

/// The characters of a string, or none at all where it is missing.
fn as_str_or_empty(s: &Option<String>) -> (r: &str)
    ensures
        r@ == or_empty(option_chars(*s)),
{
    match s {
        Some(s) => s.as_str(),
        None => {
            let empty = "";
            proof {
                reveal_strlit("");
                assert(empty@ =~= Seq::<char>::empty());
            }
            empty
        },
    }
}

/// A copy of a string that may be missing.
fn as_option_str(s: &Option<String>) -> (r: Option<&str>)
    ensures
        match r {
            Some(t) => option_chars(*s) == Some(t@),
            None => option_chars(*s) is None,
        },
{
    match s {
        Some(s) => Some(s.as_str()),
        None => None,
    }
}

impl ResponsesStream {
    /// The state before anything has arrived.
    pub fn new() -> (r: Self)
        ensures
            r@ == initial(),
    {
        let agg = ChunkAgg {
            text_content: String::new(),
            tool_calls: BTreeMap::new(),
            finish_reason: None,
        };
        proof {
            assert(agg@.tool_calls =~= Map::empty());
        }
        ResponsesStream {
            response_id: None,
            model: None,
            msg_item_id: None,
            agg,
            sent_response_created: false,
            sent_item_added: false,
            sent_content_part_added: false,
            text_item_finalized: false,
            completed: false,
        }
    }

    /// A chunk arrives with these identifiers. The message gets the fresh one where it has none.
    pub fn begin(&mut self, id: &str, model: &str, fresh: String) -> (r: Vec<String>)
        ensures
            took_step(
                old(self)@,
                (Step::Begin { id: id@, model: model@, fresh: fresh@ }),
                final(self)@,
                texts(r@),
            ),
    {
        let mut sent: Vec<String> = Vec::new();
        if self.completed {
            assert(texts(sent@) =~= frame_texts(Seq::empty()));
            return sent;
        }
        if !id.is_empty() {
            self.response_id = Some(id.to_owned());
        }
        if !model.is_empty() {
            self.model = Some(model.to_owned());
        }
        if self.msg_item_id.is_none() {
            self.msg_item_id = Some(fresh);
        }
        if !self.sent_response_created {
            let created = build_response_created_event(
                as_str_or_empty(&self.response_id),
                as_str_or_empty(&self.model),
            );
            sent.push(created);
            self.sent_response_created = true;
        }
        proof {
            let t = self@;
            let e = Event::Created { id: or_empty(t.response_id), model: or_empty(t.model) };
            lemma_one_event(e);
            let st = Step::Begin { id: id@, model: model@, fresh: fresh@ };
            assert(texts(sent@) =~= frame_texts(step(old(self)@, st).1));
        }
        sent
    }

    /// A chunk brings text.
    pub fn text(&mut self, text: &str) -> (r: Vec<String>)
        ensures
            took_step(old(self)@, (Step::Text { text: text@ }), final(self)@, texts(r@)),
    {
        let mut sent: Vec<String> = Vec::new();
        if !self.completed && !text.is_empty() {
            if !self.sent_item_added {
                sent.push(build_output_item_added(as_str_or_empty(&self.msg_item_id)));
                self.sent_item_added = true;
            }
            if !self.sent_content_part_added {
                sent.push(build_content_part_added(as_str_or_empty(&self.msg_item_id)));
                self.sent_content_part_added = true;
            }
            self.agg.text_content.append(text);
            sent.push(build_output_text_delta(as_str_or_empty(&self.msg_item_id), text));
        }
        proof {
            let item_id = or_empty(self@.msg_item_id);
            lemma_one_event(Event::MessageAdded { item_id });
            lemma_one_event(Event::PartAdded { item_id });
            lemma_one_event(Event::TextDelta { item_id, delta: text@ });
            let st = Step::Text { text: text@ };
            assert(texts(sent@) =~= frame_texts(step(old(self)@, st).1));
        }
        sent
    }

    /// A chunk names the role of the message.
    pub fn role(&mut self, role: &str) -> (r: Vec<String>)
        ensures
            took_step(old(self)@, (Step::Role { role: role@ }), final(self)@, texts(r@)),
    {
        let mut sent: Vec<String> = Vec::new();
        proof {
            assert(self@.agg.tool_calls.dom() =~= self.agg.tool_calls@.dom());
        }
        if !self.completed && *role == *"assistant" && !self.sent_item_added
            && self.agg.tool_calls.is_empty() {
            sent.push(build_output_item_added(as_str_or_empty(&self.msg_item_id)));
            self.sent_item_added = true;
        }
        proof {
            lemma_one_event(Event::MessageAdded { item_id: or_empty(self@.msg_item_id) });
            let st = Step::Role { role: role@ };
            assert(texts(sent@) =~= frame_texts(step(old(self)@, st).1));
        }
        sent
    }

    /// A chunk says why the answer ends.
    pub fn finish(&mut self, reason: &str)
        ensures
            took_step(old(self)@, (Step::Finish { reason: reason@ }), final(self)@, Seq::empty()),
    {
        if !self.completed {
            self.agg.finish_reason = Some(reason.to_owned());
        }
        assert(frame_texts(Seq::empty()) =~= Seq::empty());
    }

    /// Begins the text of the message where the message has begun without it.
    fn add_missing_part(&mut self) -> (r: Vec<String>)
        ensures
            final(self)@ == with_part(old(self)@),
            texts(r@) == frame_texts(part_frames(old(self)@)),
            frames_well_formed(part_frames(old(self)@)),
    {
        let mut sent: Vec<String> = Vec::new();
        if self.sent_item_added && !self.sent_content_part_added && !self.text_item_finalized {
            sent.push(build_content_part_added(as_str_or_empty(&self.msg_item_id)));
            self.sent_content_part_added = true;
        }
        proof {
            lemma_one_event(Event::PartAdded { item_id: or_empty(self@.msg_item_id) });
            assert(texts(sent@) =~= frame_texts(part_frames(old(self)@)));
        }
        sent
    }

    /// Announces a tool call; the message ends before it where its text is open.
    fn announce(&mut self, call: &ToolCallStreamState) -> (r: Vec<String>)
        ensures
            final(self)@ == (StreamSpec {
                text_item_finalized: old(self)@.text_item_finalized || text_open(old(self)@),
                ..old(self)@
            }),
            texts(r@) == frame_texts(announcement(old(self)@, call@)),
            frames_well_formed(announcement(old(self)@, call@)),
    {
        let mut sent: Vec<String> = Vec::new();
        if self.sent_content_part_added && !self.text_item_finalized {
            sent.push(
                finalize_text_item(
                    as_str_or_empty(&self.msg_item_id),
                    self.agg.text_content.as_str(),
                    as_option_str(&self.agg.finish_reason),
                ),
            );
            self.text_item_finalized = true;
        }
        sent.push(
            build_function_call_item_added(
                call.item_id.as_str(),
                call.id.as_str(),
                call.name.as_str(),
            ),
        );
        proof {
            lemma_one_event(
                Event::CallAdded { item_id: call@.item_id, call_id: call@.id, name: call@.name },
            );
            assert(texts(sent@) =~= frame_texts(announcement(old(self)@, call@)));
        }
        sent
    }

    /// A chunk says something of a tool call. The call gets the fresh identifier where it is new.
    pub fn tool_call(&mut self, delta: &ChatToolCallDelta, fresh: String) -> (r: Vec<String>)
        ensures
            took_step(
                old(self)@,
                (Step::ToolCall { delta: delta@, fresh: fresh@ }),
                final(self)@,
                texts(r@),
            ),
    {
        if self.completed {
            let none: Vec<String> = Vec::new();
            assert(texts(none@) =~= frame_texts(Seq::empty()));
            return none;
        }
        let ghost before = self@;
        let mut call = take_call(&mut self.agg.tool_calls, delta.index, fresh);
        update_call(&mut call, delta);
        let ghost told = call@;
        let mut sent: Vec<String> = Vec::new();
        let is_new = !call.sent_item_added && !call.id.as_str().is_empty()
            && !call.name.as_str().is_empty();
        let mut pieces = argument_frames(&call, is_new, delta);
        if is_new {
            sent = self.announce(&call);
            call.sent_item_added = true;
        }
        let ghost first = sent@;
        let ghost second = pieces@;
        sent.append(&mut pieces);
        let ghost kept = call@;
        let ghost middle = self.agg.tool_calls@;
        self.agg.tool_calls.insert(delta.index, call);
        proof {
            let st = Step::ToolCall { delta: delta@, fresh: fresh@ };
            assert(is_new == announces(told));
            assert(self@.agg.tool_calls =~= calls_model(middle).insert(delta.index, kept));
            assert(self@.agg.tool_calls =~= before.agg.tool_calls.insert(delta.index, kept));
            assert(self@ =~= step(before, st).0);
            assert(texts(sent@) =~= texts(first) + texts(second));
            assert(texts(sent@) =~= frame_texts(step(before, st).1));
        }
        sent
    }
}

/// Passes on a piece of the arguments of a tool call.
fn argument_frames(call: &ToolCallStreamState, is_new: bool, delta: &ChatToolCallDelta) -> (r: Vec<
    String,
>)
    requires
        is_new == announces(call@),
    ensures
        texts(r@) == frame_texts(argument_piece(call@.item_id, sent_piece(call@, delta@))),
        frames_well_formed(argument_piece(call@.item_id, sent_piece(call@, delta@))),
{
    let mut sent: Vec<String> = Vec::new();
    let empty = String::new();
    let piece = if is_new {
        call.arguments.as_str()
    } else if call.sent_item_added {
        match &delta.function {
            Some(function) => as_str_or_empty(&function.arguments),
            None => empty.as_str(),
        }
    } else {
        empty.as_str()
    };
    if !piece.is_empty() {
        sent.push(build_function_call_arguments_delta(call.item_id.as_str(), piece));
    }
    proof {
        assert(piece@ =~= sent_piece(call@, delta@));
        lemma_one_event(Event::ArgumentsDelta { item_id: call@.item_id, delta: piece@ });
        assert(texts(sent@) =~= frame_texts(
            argument_piece(call@.item_id, sent_piece(call@, delta@)),
        ));
    }
    sent
}

/// Takes a tool call out of a map; a new one where there is none.
fn take_call(
    calls: &mut BTreeMap<usize, ToolCallStreamState>,
    index: usize,
    fresh: String,
) -> (r: ToolCallStreamState)
    ensures
        r@ == found_call(calls_model(old(calls)@), index, fresh@),
        final(calls)@ == old(calls)@.remove(index),
{
    match calls.remove(&index) {
        Some(call) => call,
        None => ToolCallStreamState {
            id: String::new(),
            name: String::new(),
            item_id: fresh,
            arguments: String::new(),
            sent_item_added: false,
            sent_arguments_done: false,
        },
    }
}

/// Takes in what a chunk says of a tool call.
fn update_call(call: &mut ToolCallStreamState, delta: &ChatToolCallDelta)
    ensures
        final(call)@ == updated_call(old(call)@, delta@),
{
    if let Some(id) = &delta.id {
        call.id = id.clone();
    }
    if let Some(function) = &delta.function {
        if let Some(name) = &function.name {
            call.name = name.clone();
        }
        if let Some(arguments) = &function.arguments {
            call.arguments.append(arguments.as_str());
        }
    }
    proof {
        assert(call@.arguments =~= old(call)@.arguments + or_empty(delta@.arguments));
    }
}

/// The text of one lot of events after another.
pub proof fn lemma_frame_text_add(a: Seq<Event>, b: Seq<Event>)
    ensures
        frame_text(a + b) == frame_text(a) + frame_text(b),
    decreases b.len(),
{
    if b.len() == 0 {
        assert(a + b =~= a);
        assert(frame_text(a) + frame_text(b) =~= frame_text(a));
    } else {
        lemma_frame_text_add(a, b.drop_last());
        assert((a + b).drop_last() =~= a + b.drop_last());
        assert((a + b).last() == b.last());
        assert(frame_text(a + b) =~= frame_text(a) + frame_text(b));
    }
}

/// Ends a tool call where it was announced.
fn end_call(call: &mut ToolCallStreamState) -> (r: String)
    ensures
        final(call)@ == ended(old(call)@),
        r@ == frame_text(call_end(old(call)@)),
        all_well_formed(call_end(old(call)@)),
{
    let mut text = String::new();
    if call.sent_item_added && !call.sent_arguments_done {
        text.append(
            build_function_call_arguments_done(
                call.item_id.as_str(),
                call.arguments.as_str(),
            ).as_str(),
        );
        text.append(
            build_function_call_item_done(
                call.item_id.as_str(),
                call.id.as_str(),
                call.name.as_str(),
                call.arguments.as_str(),
            ).as_str(),
        );
        proof {
            let first = call_end(call@)[0];
            let second = call_end(call@)[1];
            lemma_one_event(first);
            lemma_one_event(second);
            lemma_frame_text_add(seq![first], seq![second]);
            assert(call_end(call@) =~= seq![first] + seq![second]);
            assert(text@ =~= frame_text(call_end(call@)));
        }
        call.sent_arguments_done = true;
    }
    text
}

/// Ends each announced tool call, in the order of their indices.
fn end_calls(calls: &mut BTreeMap<usize, ToolCallStreamState>) -> (r: String)
    ensures
        calls_model(final(calls)@) == calls_model(old(calls)@).map_values(
            |c: CallSpec| ended(c),
        ),
        r@ == frame_text(call_ends(calls_in_order(calls_model(old(calls)@)))),
        all_well_formed(call_ends(calls_in_order(calls_model(old(calls)@)))),
{
    let ghost whole = calls_model(calls@);
    let ghost listed = calls_in_order(whole);
    let order = indices(calls);
    let n: usize = order.len();
    let mut text = String::new();
    proof {
        assert(whole.dom() =~= calls@.dom());
        assert(listed.take(0) =~= Seq::empty());
    }
    for i in 0..n
        invariant
            n == order@.len(),
            order@ == in_order(whole.dom()),
            order@.to_set() == whole.dom(),
            order@.no_duplicates(),
            listed == calls_in_order(whole),
            calls@.dom() == whole.dom(),
            forall|j: int| 0 <= j < i ==> calls@[#[trigger] order@[j]]@ == ended(whole[order@[j]]),
            forall|j: int| i <= j < n ==> calls@[#[trigger] order@[j]]@ == whole[order@[j]],
            text@ == frame_text(call_ends(listed.take(i as int))),
            all_well_formed(call_ends(listed.take(i as int))),
    {
        let index: usize = order[i];
        proof {
            assert(order@.to_set().contains(index));
            assert(listed[i as int] == whole[index]);
            assert(listed.take(i + 1).drop_last() =~= listed.take(i as int));
            lemma_frame_text_add(call_ends(listed.take(i as int)), call_end(whole[index]));
        }
        if let Some(mut call) = calls.remove(&index) {
            text.append(end_call(&mut call).as_str());
            calls.insert(index, call);
        }
        proof {
            assert(calls@.dom() =~= whole.dom());
        }
    }
    proof {
        assert(listed.take(n as int) =~= listed);
        let after = calls_model(calls@);
        assert forall|k: usize| whole.contains_key(k) implies #[trigger] after[k] == ended(
            whole[k],
        ) by {
            assert(order@.to_set().contains(k));
            let j = choose|j: int| 0 <= j < order@.len() && order@[j] == k;
            assert(calls@[order@[j]]@ == ended(whole[order@[j]]));
        }
        assert(after =~= whole.map_values(|c: CallSpec| ended(c)));
    }
    text
}

/// The events of the end of an answer, with a given identifier for the message in its output.
pub fn yield_completion_events_as(
    agg: &mut ChunkAgg,
    text_item_finalized: &mut bool,
    sent_content_part_added: bool,
    msg_item_id: &str,
    response_id: &str,
    model: &str,
    usage: &Json,
    item_id: &str,
) -> (r: String)
    ensures
        final(agg)@ == ended_agg(old(agg)@),
        *final(text_item_finalized) == (*old(text_item_finalized) || sent_content_part_added),
        r@ == frame_text(
            completion_events(
                old(agg)@,
                sent_content_part_added && !*old(text_item_finalized),
                msg_item_id@,
                response_id@,
                model@,
                usage@,
                item_id@,
            ),
        ),
        all_well_formed(
            completion_events(
                old(agg)@,
                sent_content_part_added && !*old(text_item_finalized),
                msg_item_id@,
                response_id@,
                model@,
                usage@,
                item_id@,
            ),
        ),
{
    let ghost before = agg@;
    let ghost text_is_open = sent_content_part_added && !*text_item_finalized;
    let mut text = String::new();
    if sent_content_part_added && !*text_item_finalized {
        text =
        finalize_text_item(
            msg_item_id,
            agg.text_content.as_str(),
            as_option_str(&agg.finish_reason),
        );
        *text_item_finalized = true;
    }
    let ghost first = if text_is_open {
        message_end(msg_item_id@, before.text_content, before.finish_reason)
    } else {
        Seq::<Event>::empty()
    };
    assert(text@ =~= frame_text(first));
    let last = build_response_completed_as(response_id, model, agg, usage, item_id);
    text.append(end_calls(&mut agg.tool_calls).as_str());
    text.append(last.as_str());
    proof {
        let ends = call_ends(calls_in_order(before.tool_calls));
        let done = completed_event(response_id@, model@, before, usage@, item_id@);
        lemma_frame_text_add(first, ends);
        lemma_one_event(done);
        lemma_frame_text_add(first + ends, seq![done]);
    }
    text
}

/// The events of the end of an answer: the message is ended where its text is open, each announced
/// tool call is ended, and the answer is completed. The message in its output gets a new
/// identifier.
pub fn yield_completion_events(
    agg: &mut ChunkAgg,
    text_item_finalized: &mut bool,
    sent_content_part_added: bool,
    msg_item_id: &str,
    response_id: &str,
    model: &str,
    usage: &Json,
) -> (r: String)
    ensures
        final(agg)@ == ended_agg(old(agg)@),
        *final(text_item_finalized) == (*old(text_item_finalized) || sent_content_part_added),
        exists|item_id: Seq<char>| #[trigger]
            is_item_id(item_id) && r@ == frame_text(
                completion_events(
                    old(agg)@,
                    sent_content_part_added && !*old(text_item_finalized),
                    msg_item_id@,
                    response_id@,
                    model@,
                    usage@,
                    item_id,
                ),
            ) && all_well_formed(
                completion_events(
                    old(agg)@,
                    sent_content_part_added && !*old(text_item_finalized),
                    msg_item_id@,
                    response_id@,
                    model@,
                    usage@,
                    item_id,
                ),
            ),
{
    let item_id = new_uuid_id();
    yield_completion_events_as(
        agg,
        text_item_finalized,
        sent_content_part_added,
        msg_item_id,
        response_id,
        model,
        usage,
        item_id.as_str(),
    )
}

/// A step without the identifier that it may hand out.
pub open spec fn blank(st: Step) -> Step {
    match st {
        Step::Begin { id, model, .. } => Step::Begin { id, model, fresh: Seq::empty() },
        Step::ToolCall { delta, .. } => Step::ToolCall { delta, fresh: Seq::empty() },
        Step::Complete { usage, .. } => Step::Complete { usage, fresh: Seq::empty() },
        _ => st,
    }
}

/// Whether the identifier that a step may hand out is an item identifier.
pub open spec fn well_named(st: Step) -> bool {
    match st {
        Step::Begin { fresh, .. } => is_item_id(fresh),
        Step::ToolCall { fresh, .. } => is_item_id(fresh),
        Step::Complete { fresh, .. } => is_item_id(fresh),
        _ => true,
    }
}

/// Whether steps are those of a script, each with an item identifier where it may hand one out.
pub open spec fn plays(script: Seq<Step>, steps: Seq<Step>) -> bool {
    &&& steps.len() == script.len()
    &&& forall|i: int|
        0 <= i < steps.len() ==> blank(#[trigger] steps[i]) == blank(script[i]) && well_named(
            steps[i],
        )
}

/// What a chunk says of a tool call, as a step.
pub open spec fn tool_call_step() -> spec_fn(ToolDeltaSpec) -> Step {
    |delta: ToolDeltaSpec| Step::ToolCall { delta, fresh: Seq::empty() }
}

/// The steps of a choice: its tool calls, its text, its role, its end.
pub open spec fn choice_script(c: ChoiceSpec) -> Seq<Step> {
    c.tool_calls.map_values(tool_call_step()) + (match c.content {
        Some(text) => seq![Step::Text { text }],
        None => Seq::empty(),
    }) + (match c.role {
        Some(role) => seq![Step::Role { role }],
        None => Seq::empty(),
    }) + (match c.finish_reason {
        Some(reason) => seq![Step::Finish { reason }],
        None => Seq::empty(),
    })
}

/// `choice_script` as a function value.
pub open spec fn choice_script_fn() -> spec_fn(ChoiceSpec) -> Seq<Step> {
    |c: ChoiceSpec| choice_script(c)
}

/// The steps of a chunk: its arrival, its choices, and the end of the answer where it tells the
/// usage.
pub open spec fn chunk_script(chunk: ChunkSpec) -> Seq<Step> {
    seq![Step::Begin { id: chunk.id, model: chunk.model, fresh: Seq::empty() }]
        + chunk.choices.flat_map(choice_script_fn()) + (match chunk.usage {
        Some(usage) => seq![Step::Complete { usage, fresh: Seq::empty() }],
        None => Seq::empty(),
    })
}

/// The step at the end of an answer that has told no usage.
pub open spec fn done_script() -> Seq<Step> {
    seq![Step::Complete { usage: JsonSpec::Object(Map::empty()), fresh: Seq::empty() }]
}

/// The steps of something that arrives. What cannot be read changes nothing.
pub open spec fn arrival_script(arrival: ArrivalSpec) -> Seq<Step> {
    match arrival {
        ArrivalSpec::Chunk(chunk) => chunk_script(chunk),
        ArrivalSpec::Unreadable => Seq::empty(),
        ArrivalSpec::Done => done_script(),
    }
}

/// `arrival_script` as a function value.
pub open spec fn arrival_script_fn() -> spec_fn(ArrivalSpec) -> Seq<Step> {
    |arrival: ArrivalSpec| arrival_script(arrival)
}

/// The steps of all that arrives of a streamed answer.
pub open spec fn session_script(arrivals: Seq<ArrivalSpec>) -> Seq<Step> {
    arrivals.flat_map(arrival_script_fn())
}

/// Whether a script led from one state to another and sent the given texts, for some item
/// identifiers.
pub open spec fn played(
    s: StreamSpec,
    script: Seq<Step>,
    t: StreamSpec,
    sent: Seq<Seq<char>>,
) -> bool {
    exists|steps: Seq<Step>| #[trigger] plays(script, steps) && took_steps(s, steps, t, sent)
}

/// Steps after steps.
pub proof fn lemma_run_add(s: StreamSpec, a: Seq<Step>, b: Seq<Step>)
    ensures
        run(s, a + b).0 == run(run(s, a).0, b).0,
        run(s, a + b).1 == run(s, a).1 + run(run(s, a).0, b).1,
    decreases b.len(),
{
    if b.len() == 0 {
        assert(a + b =~= a);
        assert(run(s, a).1 + Seq::<Seq<Event>>::empty() =~= run(s, a).1);
    } else {
        lemma_run_add(s, a, b.drop_last());
        assert((a + b).drop_last() =~= a + b.drop_last());
        assert((a + b).last() == b.last());
        assert(run(s, a + b).1 =~= run(s, a).1 + run(run(s, a).0, b).1);
    }
}

/// A script after a script.
pub proof fn lemma_played_add(
    s: StreamSpec,
    a: Seq<Step>,
    t: StreamSpec,
    x: Seq<Seq<char>>,
    b: Seq<Step>,
    u: StreamSpec,
    y: Seq<Seq<char>>,
)
    requires
        played(s, a, t, x),
        played(t, b, u, y),
    ensures
        played(s, a + b, u, x + y),
{
    let p = choose|steps: Seq<Step>| #[trigger] plays(a, steps) && took_steps(s, steps, t, x);
    let q = choose|steps: Seq<Step>| #[trigger] plays(b, steps) && took_steps(t, steps, u, y);
    lemma_run_add(s, p, q);
    assert forall|i: int| 0 <= i < (p + q).len() implies blank(#[trigger] (p + q)[i]) == blank(
        (a + b)[i],
    ) && well_named((p + q)[i]) by {
        if i < p.len() {
            assert((p + q)[i] == p[i]);
        } else {
            assert((p + q)[i] == q[i - p.len()]);
        }
    }
    assert(plays(a + b, p + q));
    assert(frame_texts(run(s, p).1 + run(t, q).1) =~= frame_texts(run(s, p).1) + frame_texts(
        run(t, q).1,
    ));
}

/// A single step plays a script of one.
proof fn lemma_played_one(s: StreamSpec, st: Step, t: StreamSpec, sent: Seq<Seq<char>>)
    requires
        took_step(s, st, t, sent),
        well_named(st),
    ensures
        played(s, seq![blank(st)], t, sent),
{
    let steps = seq![st];
    reveal_with_fuel(run, 2);
    assert(steps.drop_last() =~= Seq::empty());
    assert(Seq::<Seq<Event>>::empty() + step(s, st).1 =~= step(s, st).1);
    assert(plays(seq![blank(st)], steps));
}

/// No step plays the empty script.
proof fn lemma_played_none(s: StreamSpec)
    ensures
        played(s, Seq::empty(), s, Seq::empty()),
{
    let steps = Seq::<Step>::empty();
    assert(plays(Seq::empty(), steps));
    assert(frame_texts(Seq::empty()) =~= Seq::empty());
}

/// An item identifier, for a step that hands none out.
spec fn some_item_id() -> Seq<char> {
    Seq::new(32, |i: int| if i == 12 { '4' } else { '8' })
}

impl ResponsesStream {
    /// The answer is over. The message in its output gets the fresh identifier.
    pub fn complete_as(&mut self, usage: &Json, fresh: &str) -> (r: Vec<String>)
        ensures
            took_step(
                old(self)@,
                (Step::Complete { usage: usage@, fresh: fresh@ }),
                final(self)@,
                texts(r@),
            ),
    {
        let mut sent: Vec<String> = Vec::new();
        let ghost mut first = sent@;
        if !self.completed {
            sent = self.add_missing_part();
            proof {
                first = sent@;
            }
            let msg_item_id = as_str_or_empty(&self.msg_item_id);
            let response_id = as_str_or_empty(&self.response_id);
            let model = as_str_or_empty(&self.model);
            let frame = yield_completion_events_as(
                &mut self.agg,
                &mut self.text_item_finalized,
                self.sent_content_part_added,
                msg_item_id,
                response_id,
                model,
                usage,
                fresh,
            );
            sent.push(frame);
            self.completed = true;
        }
        proof {
            let st = Step::Complete { usage: usage@, fresh: fresh@ };
            assert(self@ =~= step(old(self)@, st).0);
            if !old(self)@.completed {
                let t = with_part(old(self)@);
                let last = seq![completion(t, usage@, fresh@)];
                assert(texts(sent@) =~= texts(first) + frame_texts(last));
                assert(frame_texts(step(old(self)@, st).1) =~= frame_texts(
                    part_frames(old(self)@),
                ) + frame_texts(last));
            }
            assert(texts(sent@) =~= frame_texts(step(old(self)@, st).1));
        }
        sent
    }

    /// The answer is over. The message in its output gets a new identifier.
    pub fn complete(&mut self, usage: &Json) -> (r: Vec<String>)
        ensures
            played(
                old(self)@,
                seq![(Step::Complete { usage: usage@, fresh: Seq::empty() })],
                final(self)@,
                texts(r@),
            ),
    {
        if self.completed {
            let sent: Vec<String> = Vec::new();
            proof {
                let st = Step::Complete { usage: usage@, fresh: some_item_id() };
                assert(texts(sent@) =~= frame_texts(step(self@, st).1));
                lemma_played_one(self@, st, self@, texts(sent@));
            }
            return sent;
        }
        let fresh = new_uuid_id();
        let sent = self.complete_as(usage, fresh.as_str());
        proof {
            let st = Step::Complete { usage: usage@, fresh: fresh@ };
            lemma_played_one(old(self)@, st, self@, texts(sent@));
        }
        sent
    }

    /// The answer is over and has told no usage: the stream has said so, or has ended.
    pub fn on_done(&mut self) -> (r: Vec<String>)
        ensures
            played(old(self)@, done_script(), final(self)@, texts(r@)),
    {
        self.complete(&Json::Object(Object::new()))
    }

    /// A choice of a chunk arrives.
    fn on_choice(&mut self, choice: &ChunkChoice) -> (r: Vec<String>)
        ensures
            played(old(self)@, choice_script(choice@), final(self)@, texts(r@)),
    {
        let ghost s = self@;
        let mut sent = self.on_tool_calls(choice);
        let ghost mut script = choice@.tool_calls.map_values(tool_call_step());
        if let Some(text) = &choice.delta.content {
            let ghost t = self@;
            let ghost x = sent@;
            let mut more = self.text(text.as_str());
            let ghost y = more@;
            sent.append(&mut more);
            proof {
                let st = Step::Text { text: text@ };
                lemma_played_one(t, st, self@, texts(y));
                lemma_played_add(s, script, t, texts(x), seq![st], self@, texts(y));
                assert(texts(sent@) =~= texts(x) + texts(y));
                script = script + seq![st];
            }
        }
        if let Some(role) = &choice.delta.role {
            let ghost t = self@;
            let ghost x = sent@;
            let mut more = self.role(role.as_str());
            let ghost y = more@;
            sent.append(&mut more);
            proof {
                let st = Step::Role { role: role@ };
                lemma_played_one(t, st, self@, texts(y));
                lemma_played_add(s, script, t, texts(x), seq![st], self@, texts(y));
                assert(texts(sent@) =~= texts(x) + texts(y));
                script = script + seq![st];
            }
        }
        if let Some(reason) = &choice.finish_reason {
            let ghost t = self@;
            self.finish(reason.as_str());
            proof {
                let st = Step::Finish { reason: reason@ };
                lemma_played_one(t, st, self@, Seq::empty());
                lemma_played_add(s, script, t, texts(sent@), seq![st], self@, Seq::empty());
                assert(texts(sent@) + Seq::empty() =~= texts(sent@));
                script = script + seq![st];
            }
        }
        proof {
            assert(script =~= choice_script(choice@));
        }
        sent
    }

    /// The tool calls of a choice arrive.
    fn on_tool_calls(&mut self, choice: &ChunkChoice) -> (r: Vec<String>)
        ensures
            played(
                old(self)@,
                choice@.tool_calls.map_values(tool_call_step()),
                final(self)@,
                texts(r@),
            ),
    {
        let ghost s = self@;
        let mut sent: Vec<String> = Vec::new();
        proof {
            lemma_played_none(s);
            assert(texts(sent@) =~= Seq::empty());
        }
        if let Some(calls) = &choice.delta.tool_calls {
            let ghost script = choice@.tool_calls.map_values(tool_call_step());
            let n: usize = calls.len();
            assert(script.take(0) =~= Seq::empty());
            for i in 0..n
                invariant
                    n == calls@.len(),
                    choice@.tool_calls == calls@.map_values(|c: ChatToolCallDelta| c@),
                    script == choice@.tool_calls.map_values(tool_call_step()),
                    played(s, script.take(i as int), self@, texts(sent@)),
            {
                let delta = &calls[i];
                let ghost t = self@;
                let ghost x = sent@;
                let ghost mut id = some_item_id();
                let mut more: Vec<String>;
                if self.agg.tool_calls.contains_key(&delta.index) {
                    more = self.tool_call(delta, String::new());
                    proof {
                        lemma_known_call(t, delta@, Seq::empty(), id);
                    }
                } else {
                    let fresh = new_uuid_id();
                    proof {
                        id = fresh@;
                    }
                    more = self.tool_call(delta, fresh);
                }
                let ghost y = more@;
                sent.append(&mut more);
                proof {
                    let st = Step::ToolCall { delta: delta@, fresh: id };
                    lemma_played_one(t, st, self@, texts(y));
                    lemma_played_add(
                        s,
                        script.take(i as int),
                        t,
                        texts(x),
                        seq![blank(st)],
                        self@,
                        texts(y),
                    );
                    assert(texts(sent@) =~= texts(x) + texts(y));
                    assert(script.take(i + 1) =~= script.take(i as int) + seq![blank(st)]);
                }
            }
            assert(script.take(n as int) =~= script);
        } else {
            assert(choice@.tool_calls.map_values(tool_call_step()) =~= Seq::empty());
        }
        sent
    }

    /// A chunk arrives. New items get new identifiers.
    pub fn on_chunk(&mut self, chunk: &ChatChunk) -> (r: Vec<String>)
        ensures
            played(old(self)@, chunk_script(chunk@), final(self)@, texts(r@)),
    {
        let ghost s = self@;
        let ghost begin = Step::Begin { id: chunk.id@, model: chunk.model@, fresh: Seq::empty() };
        let mut sent: Vec<String>;
        if self.msg_item_id.is_some() {
            sent = self.begin(chunk.id.as_str(), chunk.model.as_str(), String::new());
            proof {
                let st = Step::Begin {
                    id: chunk.id@,
                    model: chunk.model@,
                    fresh: some_item_id(),
                };
                lemma_played_one(s, st, self@, texts(sent@));
            }
        } else {
            let fresh = new_uuid_id();
            let ghost id = fresh@;
            sent = self.begin(chunk.id.as_str(), chunk.model.as_str(), fresh);
            proof {
                let st = Step::Begin { id: chunk.id@, model: chunk.model@, fresh: id };
                lemma_played_one(s, st, self@, texts(sent@));
            }
        }
        let ghost choices = chunk@.choices;
        let ghost script = seq![begin];
        let n: usize = chunk.choices.len();
        proof {
            assert(choices.take(0).map_values(choice_script_fn()) =~= Seq::empty());
            assert(script + choices.take(0).flat_map(choice_script_fn()) =~= script);
        }
        for i in 0..n
            invariant
                n == chunk.choices@.len(),
                choices == chunk.choices@.map_values(|c: ChunkChoice| c@),
                played(
                    s,
                    script + choices.take(i as int).flat_map(choice_script_fn()),
                    self@,
                    texts(sent@),
                ),
        {
            let ghost t = self@;
            let ghost x = sent@;
            let mut more = self.on_choice(&chunk.choices[i]);
            let ghost y = more@;
            sent.append(&mut more);
            proof {
                let before = script + choices.take(i as int).flat_map(choice_script_fn());
                let added = choice_script(choices[i as int]);
                lemma_played_add(s, before, t, texts(x), added, self@, texts(y));
                assert(texts(sent@) =~= texts(x) + texts(y));
                choices.lemma_flat_map_take_append(choice_script_fn(), i as int);
                assert(before + added =~= script + choices.take(i + 1).flat_map(
                    choice_script_fn(),
                ));
            }
        }
        assert(choices.take(n as int) =~= choices);
        if let Some(usage) = &chunk.usage {
            let ghost t = self@;
            let ghost x = sent@;
            let mut more = self.complete(usage);
            let ghost y = more@;
            sent.append(&mut more);
            proof {
                let before = script + choices.flat_map(choice_script_fn());
                let added = seq![Step::Complete { usage: usage@, fresh: Seq::empty() }];
                lemma_played_add(s, before, t, texts(x), added, self@, texts(y));
                assert(texts(sent@) =~= texts(x) + texts(y));
                assert(before + added =~= chunk_script(chunk@));
            }
        } else {
            assert(script + choices.flat_map(choice_script_fn()) =~= chunk_script(chunk@));
        }
        sent
    }
}

/// A tool call that is known keeps its identifier, whatever fresh one is offered.
proof fn lemma_known_call(s: StreamSpec, delta: ToolDeltaSpec, a: Seq<char>, b: Seq<char>)
    requires
        s.agg.tool_calls.contains_key(delta.index),
    ensures
        step(s, Step::ToolCall { delta, fresh: a }) == step(s, Step::ToolCall { delta, fresh: b }),
{
}

impl ResponsesStream {
    /// Something arrives.
    pub fn on_arrival(&mut self, arrival: &Arrival) -> (r: Vec<String>)
        ensures
            played(old(self)@, arrival_script(arrival@), final(self)@, texts(r@)),
    {
        match arrival {
            Arrival::Chunk(chunk) => self.on_chunk(chunk),
            Arrival::Unreadable => {
                let sent: Vec<String> = Vec::new();
                proof {
                    lemma_played_none(self@);
                    assert(texts(sent@) =~= Seq::empty());
                }
                sent
            },
            Arrival::Done => self.on_done(),
        }
    }
}

} // verus!
