//! What a streamed answer is made of: everything that all choices of all chunks say of it.

use crate::stream::{
    or_empty, plays, session_script, ArrivalSpec, ChoiceSpec, Step, ToolDeltaSpec,
};
use crate::stream_laws::reached;
use crate::told_laws::{
    after_begin, after_choice, after_choices, after_delta, after_deltas, call_told, law_all_told, told,
    Told,
};
use vstd::prelude::*;

verus! {

/// Whether something that arrives ends the answer: the end itself, or a chunk that tells the usage.
pub open spec fn ends_answer(a: ArrivalSpec) -> bool {
    match a {
        ArrivalSpec::Chunk(chunk) => chunk.usage is Some,
        ArrivalSpec::Unreadable => false,
        ArrivalSpec::Done => true,
    }
}

/// The choices of something that arrives.
pub open spec fn choices_in() -> spec_fn(ArrivalSpec) -> Seq<ChoiceSpec> {
    |a: ArrivalSpec|
        match a {
            ArrivalSpec::Chunk(chunk) => chunk.choices,
            _ => Seq::empty(),
        }
}

/// The identifier of something that arrives, where it has one.
pub open spec fn id_in() -> spec_fn(ArrivalSpec) -> Option<Seq<char>> {
    |a: ArrivalSpec|
        match a {
            ArrivalSpec::Chunk(chunk) => if chunk.id.len() > 0 {
                Some(chunk.id)
            } else {
                None
            },
            _ => None,
        }
}

/// The model that something that arrives names, where it names one.
pub open spec fn model_in() -> spec_fn(ArrivalSpec) -> Option<Seq<char>> {
    |a: ArrivalSpec|
        match a {
            ArrivalSpec::Chunk(chunk) => if chunk.model.len() > 0 {
                Some(chunk.model)
            } else {
                None
            },
            _ => None,
        }
}

/// The text of a choice.
pub open spec fn text_in() -> spec_fn(ChoiceSpec) -> Seq<char> {
    |c: ChoiceSpec|
        match c.content {
            Some(text) => text,
            None => Seq::empty(),
        }
}

/// The finish reason of a choice.
pub open spec fn reason_in() -> spec_fn(ChoiceSpec) -> Option<Seq<char>> {
    |c: ChoiceSpec| c.finish_reason
}

/// What a choice says of tool calls.
pub open spec fn words_in() -> spec_fn(ChoiceSpec) -> Seq<ToolDeltaSpec> {
    |c: ChoiceSpec| c.tool_calls
}

/// Whether something is said of the tool call under an index.
pub open spec fn said_of(index: usize) -> spec_fn(ToolDeltaSpec) -> bool {
    |d: ToolDeltaSpec| d.index == index
}

/// The identifier that a tool call is given.
pub open spec fn call_id_in() -> spec_fn(ToolDeltaSpec) -> Option<Seq<char>> {
    |d: ToolDeltaSpec| d.id
}

/// The name that a tool call is given.
pub open spec fn call_name_in() -> spec_fn(ToolDeltaSpec) -> Option<Seq<char>> {
    |d: ToolDeltaSpec| d.name
}

/// The arguments that a tool call is given.
pub open spec fn arguments_in() -> spec_fn(ToolDeltaSpec) -> Seq<char> {
    |d: ToolDeltaSpec|
        match d.arguments {
            Some(arguments) => arguments,
            None => Seq::empty(),
        }
}

/// The last of some strings, or an empty one.
pub open spec fn last_of(list: Seq<Seq<char>>) -> Seq<char> {
    if list.len() > 0 {
        list.last()
    } else {
        Seq::empty()
    }
}

/// Whether what has been told is what choices say.
spec fn is_made_of(t: Told, choices: Seq<ChoiceSpec>, index: usize) -> bool {
    let reasons = choices.filter_map(reason_in());
    &&& t.text == choices.flat_map(text_in())
    &&& t.reason is Some <==> reasons.len() > 0
    &&& t.reason is Some ==> t.reason->0 == reasons.last()
    &&& call_is_made_of(t, choices.flat_map(words_in()).filter(said_of(index)), index)
}

/// Whether what has been told of the tool call under an index is what was said of it.
spec fn call_is_made_of(t: Told, words: Seq<ToolDeltaSpec>, index: usize) -> bool {
    let call = call_told(t, index);
    &&& t.calls.contains_key(index) <==> words.len() > 0
    &&& call.id == last_of(words.filter_map(call_id_in()))
    &&& call.name == last_of(words.filter_map(call_name_in()))
    &&& call.arguments == words.flat_map(arguments_in())
}

/// One more word on tool calls.
proof fn lemma_word(t: Told, d: ToolDeltaSpec, words: Seq<ToolDeltaSpec>, index: usize)
    requires
        call_is_made_of(t, words, index),
    ensures
        call_is_made_of(
            after_delta(t, d),
            if d.index == index {
                words.push(d)
            } else {
                words
            },
            index,
        ),
        after_delta(t, d).text == t.text,
        after_delta(t, d).reason == t.reason,
        after_delta(t, d).over == t.over,
        after_delta(t, d).id == t.id,
        after_delta(t, d).model == t.model,
{
    if d.index == index {
        let more = words.push(d);
        assert(more.drop_last() =~= words);
        words.lemma_flat_map_push(arguments_in(), d);
        assert(words.flat_map(arguments_in()) + arguments_in()(d) =~= call_told(
            after_delta(t, d),
            index,
        ).arguments);
    }
}

/// More words on tool calls.
proof fn lemma_words(
    t: Told,
    deltas: Seq<ToolDeltaSpec>,
    words: Seq<ToolDeltaSpec>,
    index: usize,
)
    requires
        call_is_made_of(t, words, index),
    ensures
        call_is_made_of(after_deltas(t, deltas), words + deltas.filter(said_of(index)), index),
        after_deltas(t, deltas).text == t.text,
        after_deltas(t, deltas).reason == t.reason,
        after_deltas(t, deltas).over == t.over,
        after_deltas(t, deltas).id == t.id,
        after_deltas(t, deltas).model == t.model,
    decreases deltas.len(),
{
    reveal(Seq::filter);
    let p = said_of(index);
    if deltas.len() == 0 {
        assert(words + deltas.filter(p) =~= words);
    } else {
        let fewer = deltas.drop_last();
        let last = deltas.last();
        lemma_words(t, fewer, words, index);
        lemma_word(after_deltas(t, fewer), last, words + fewer.filter(p), index);
        if last.index == index {
            assert((words + fewer.filter(p)).push(last) =~= words + deltas.filter(p));
        }
    }
}

/// One more choice.
proof fn lemma_choice(t: Told, c: ChoiceSpec, choices: Seq<ChoiceSpec>, index: usize)
    requires
        is_made_of(t, choices, index),
    ensures
        is_made_of(after_choice(t, c), choices.push(c), index),
        after_choice(t, c).over == t.over,
        after_choice(t, c).id == t.id,
        after_choice(t, c).model == t.model,
{
    let p = said_of(index);
    let words = choices.flat_map(words_in());
    let more = choices.push(c);
    assert(more.drop_last() =~= choices);
    lemma_words(t, c.tool_calls, words.filter(p), index);
    choices.lemma_flat_map_push(words_in(), c);
    choices.lemma_flat_map_push(text_in(), c);
    assert(more.flat_map(words_in()) == words + c.tool_calls);
    Seq::filter_distributes_over_add(words, c.tool_calls, p);
    assert(more.flat_map(text_in()) == choices.flat_map(text_in()) + text_in()(c));
    assert(after_choice(t, c).text =~= more.flat_map(text_in()));
}

/// More choices.
proof fn lemma_choices(
    t: Told,
    list: Seq<ChoiceSpec>,
    choices: Seq<ChoiceSpec>,
    index: usize,
)
    requires
        is_made_of(t, choices, index),
    ensures
        is_made_of(after_choices(t, list), choices + list, index),
        after_choices(t, list).over == t.over,
        after_choices(t, list).id == t.id,
        after_choices(t, list).model == t.model,
    decreases list.len(),
{
    if list.len() == 0 {
        assert(choices + list =~= choices);
    } else {
        let fewer = list.drop_last();
        lemma_choices(t, fewer, choices, index);
        lemma_choice(after_choices(t, fewer), list.last(), choices + fewer, index);
        assert((choices + fewer).push(list.last()) =~= choices + list);
    }
}

/// What has been told is what all choices say that arrive until the answer is over.
proof fn lemma_arrivals(arrivals: Seq<ArrivalSpec>, index: usize)
    requires
        forall|i: int| 0 <= i < arrivals.len() - 1 ==> !ends_answer(#[trigger] arrivals[i]),
    ensures
        is_made_of(told(arrivals), arrivals.flat_map(choices_in()), index),
        told(arrivals).id == last_of(arrivals.filter_map(id_in())),
        told(arrivals).model == last_of(arrivals.filter_map(model_in())),
        told(arrivals).over is Some <==> arrivals.len() > 0 && ends_answer(arrivals.last()),
    decreases arrivals.len(),
{
    if arrivals.len() == 0 {
        reveal(Seq::filter);
        let none = Seq::<ChoiceSpec>::empty();
        assert(arrivals.map_values(choices_in()) =~= Seq::empty());
        assert(arrivals.flat_map(choices_in()) =~= none);
        assert(none.map_values(text_in()) =~= Seq::empty());
        assert(none.flat_map(text_in()) =~= Seq::empty());
        assert(none.map_values(words_in()) =~= Seq::empty());
        let words = Seq::<ToolDeltaSpec>::empty();
        assert(none.flat_map(words_in()) =~= words);
        assert(words.filter(said_of(index)) =~= words);
        assert(words.map_values(arguments_in()) =~= Seq::empty());
        assert(words.flat_map(arguments_in()) =~= Seq::empty());
    } else {
        let fewer = arrivals.drop_last();
        let last = arrivals.last();
        assert forall|i: int| 0 <= i < fewer.len() implies !ends_answer(#[trigger] fewer[i]) by {
            assert(fewer[i] == arrivals[i]);
        }
        lemma_arrivals(fewer, index);
        if fewer.len() > 0 {
            assert(fewer.last() == fewer[fewer.len() - 1]);
        }
        let t = told(fewer);
        let choices = fewer.flat_map(choices_in());
        fewer.lemma_flat_map_push(choices_in(), last);
        assert(fewer.push(last) =~= arrivals);
        assert(arrivals.flat_map(choices_in()) == choices + choices_in()(last));
        match last {
            ArrivalSpec::Chunk(chunk) => {
                lemma_choices(
                    after_begin(t, chunk.id, chunk.model),
                    chunk.choices,
                    choices,
                    index,
                );
            },
            _ => {
                assert(choices + choices_in()(last) =~= choices);
            },
        }
    }
}

/// A streamed answer is made of all that arrives until it is over, the last chunk included: its
/// text is the content of all choices of all chunks put together, its finish reason is the last
/// that any of them gives, and its identifier and model are the last that any chunk names. It is
/// over exactly where the last that has arrived ends it.
pub proof fn law_answer_made(arrivals: Seq<ArrivalSpec>, steps: Seq<Step>)
    requires
        plays(session_script(arrivals), steps),
        forall|i: int| 0 <= i < arrivals.len() - 1 ==> !ends_answer(#[trigger] arrivals[i]),
    ensures
        ({
            let s = reached(steps);
            let choices = arrivals.flat_map(choices_in());
            let reasons = choices.filter_map(reason_in());
            &&& s.agg.text_content == choices.flat_map(text_in())
            &&& reasons.len() == 0 ==> s.agg.finish_reason is None
            &&& reasons.len() > 0 ==> s.agg.finish_reason == Some(reasons.last())
            &&& or_empty(s.response_id) == last_of(arrivals.filter_map(id_in()))
            &&& or_empty(s.model) == last_of(arrivals.filter_map(model_in()))
            &&& s.completed <==> arrivals.len() > 0 && ends_answer(arrivals.last())
        }),
{
    lemma_arrivals(arrivals, 0);
    law_all_told(arrivals, steps);
}

/// A streamed answer has a tool call under an index exactly where any choice of any chunk says
/// something of it until the answer is over. Its identifier and its name are the last that are
/// said, and its arguments are all that are said, put together in order.
pub proof fn law_call_made(arrivals: Seq<ArrivalSpec>, steps: Seq<Step>, index: usize)
    requires
        plays(session_script(arrivals), steps),
        forall|i: int| 0 <= i < arrivals.len() - 1 ==> !ends_answer(#[trigger] arrivals[i]),
    ensures
        ({
            let calls = reached(steps).agg.tool_calls;
            let choices = arrivals.flat_map(choices_in());
            let words = choices.flat_map(words_in()).filter(said_of(index));
            &&& calls.contains_key(index) <==> words.len() > 0
            &&& calls.contains_key(index) ==> {
                &&& calls[index].id == last_of(words.filter_map(call_id_in()))
                &&& calls[index].name == last_of(words.filter_map(call_name_in()))
                &&& calls[index].arguments == words.flat_map(arguments_in())
            }
        }),
{
    lemma_arrivals(arrivals, index);
    law_all_told(arrivals, steps);
}

} // verus!
