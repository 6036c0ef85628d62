//! What holds of a streamed answer as a whole, from all that arrives of it.

use crate::call_laws::{law_all_arguments, told_arguments};
use crate::calls::{calls_in_order, CallSpec};
use crate::events::{
    all_well_formed, event_data, event_name, frame_text, sse_text, well_formed, Event,
};
use crate::json::JsonSpec;
use crate::response::token_counts;
use crate::stream::{
    arrival_script, arrival_script_fn, blank, call_end, call_ends, choice_script, choice_script_fn,
    chunk_script, completion, done_script, frame_texts, frames_well_formed, initial,
    lemma_frame_text_add, or_empty, plays, run, session_script, step, text_open, took_steps,
    tool_call_step, well_named, with_part, ArrivalSpec, ChoiceSpec, ChunkSpec, Step, StreamSpec,
};
use crate::stream_laws::{
    first_usage, heard_text, law_all_text, law_completed_once, law_completed_usage,
    law_created_first, law_created_once, law_message_ends, lemma_completed, lemma_trace_step,
    message_progress, reached, tally, trace, Kind,
};
use crate::value::json_text;
use vstd::prelude::*;

verus! {

/// The usage with which the end of the answer is told: that of the first chunk that tells one, or
/// none at all where the stream has ended before. Nothing where the answer is not over.
pub open spec fn told_usage(arrivals: Seq<ArrivalSpec>) -> Option<JsonSpec>
    decreases arrivals.len(),
{
    if arrivals.len() == 0 {
        None
    } else {
        match told_usage(arrivals.drop_last()) {
            Some(usage) => Some(usage),
            None => match arrivals.last() {
                ArrivalSpec::Chunk(chunk) => chunk.usage,
                ArrivalSpec::Unreadable => None,
                ArrivalSpec::Done => Some(JsonSpec::Object(Map::empty())),
            },
        }
    }
}

/// The text of a chunk: the content of its choices, in order.
pub open spec fn chunk_text(chunk: ChunkSpec) -> Seq<char> {
    choices_text(chunk.choices)
}

/// The content of choices, in order.
pub open spec fn choices_text(choices: Seq<ChoiceSpec>) -> Seq<char>
    decreases choices.len(),
{
    if choices.len() == 0 {
        Seq::empty()
    } else {
        choices_text(choices.drop_last()) + or_empty(choices.last().content)
    }
}

/// The text of the chunks that arrive until the answer is over, in order.
pub open spec fn told_text(arrivals: Seq<ArrivalSpec>) -> Seq<char>
    decreases arrivals.len(),
{
    if arrivals.len() == 0 {
        Seq::empty()
    } else {
        told_text(arrivals.drop_last()) + (match arrivals.last() {
            ArrivalSpec::Chunk(chunk) => if told_usage(arrivals.drop_last()) is None {
                chunk_text(chunk)
            } else {
                Seq::empty()
            },
            _ => Seq::empty(),
        })
    }
}

/// Steps after steps.
proof fn lemma_heard_add(a: Seq<Step>, b: Seq<Step>)
    ensures
        first_usage(a + b) == (if first_usage(a) is Some {
            first_usage(a)
        } else {
            first_usage(b)
        }),
        heard_text(a + b) == heard_text(a) + (if first_usage(a) is Some {
            Seq::empty()
        } else {
            heard_text(b)
        }),
    decreases b.len(),
{
    if b.len() == 0 {
        assert(a + b =~= a);
        assert(heard_text(a) + Seq::<char>::empty() =~= heard_text(a));
    } else {
        lemma_heard_add(a, b.drop_last());
        assert((a + b).drop_last() =~= a + b.drop_last());
        assert((a + b).last() == b.last());
        assert(heard_text(a + b) =~= heard_text(a) + (if first_usage(a) is Some {
            Seq::empty()
        } else {
            heard_text(b)
        }));
    }
}

/// A single step.
proof fn lemma_heard_one(st: Step)
    ensures
        first_usage(seq![st]) == (match st {
            Step::Complete { usage, .. } => Some(usage),
            _ => None,
        }),
        heard_text(seq![st]) == (match st {
            Step::Text { text } => text,
            _ => Seq::empty(),
        }),
{
    let none = Seq::<Step>::empty();
    assert(seq![st].drop_last() =~= none);
    assert(first_usage(none) is None);
    assert(heard_text(none) =~= Seq::empty());
    assert(heard_text(seq![st]) =~= (match st {
        Step::Text { text } => text,
        _ => Seq::empty(),
    }));
}

/// Steps that bring no text and do not end the answer.
proof fn lemma_quiet(steps: Seq<Step>)
    requires
        forall|i: int|
            0 <= i < steps.len() ==> !(#[trigger] steps[i] is Text) && !(steps[i] is Complete),
    ensures
        first_usage(steps) is None,
        heard_text(steps) == Seq::<char>::empty(),
    decreases steps.len(),
{
    if steps.len() > 0 {
        assert(steps.last() == steps[steps.len() - 1]);
        lemma_quiet(steps.drop_last());
        assert(heard_text(steps) =~= Seq::empty());
    }
}

/// The steps of a choice bring its content and do not end the answer.
proof fn lemma_choice_heard(c: ChoiceSpec)
    ensures
        first_usage(choice_script(c)) is None,
        heard_text(choice_script(c)) == or_empty(c.content),
{
    let calls = c.tool_calls.map_values(tool_call_step());
    let text = match c.content {
        Some(text) => seq![Step::Text { text }],
        None => Seq::empty(),
    };
    let role = match c.role {
        Some(role) => seq![Step::Role { role }],
        None => Seq::empty(),
    };
    let finish = match c.finish_reason {
        Some(reason) => seq![Step::Finish { reason }],
        None => Seq::empty(),
    };
    lemma_quiet(calls);
    lemma_quiet(role);
    lemma_quiet(finish);
    if let Some(text) = c.content {
        lemma_heard_one(Step::Text { text });
    } else {
        lemma_quiet(text);
    }
    lemma_heard_add(calls, text);
    lemma_heard_add(calls + text, role);
    lemma_heard_add(calls + text + role, finish);
    assert(choice_script(c) =~= calls + text + role + finish);
    assert(heard_text(choice_script(c)) =~= or_empty(c.content));
}

/// The steps of choices bring their content and do not end the answer.
proof fn lemma_choices_heard(choices: Seq<ChoiceSpec>)
    ensures
        first_usage(choices.flat_map(choice_script_fn())) is None,
        heard_text(choices.flat_map(choice_script_fn())) == choices_text(choices),
    decreases choices.len(),
{
    let f = choice_script_fn();
    if choices.len() == 0 {
        assert(choices.map_values(f) =~= Seq::empty());
        assert(choices.flat_map(f) =~= Seq::empty());
    } else {
        let fewer = choices.drop_last();
        let last = choices.last();
        lemma_choices_heard(fewer);
        lemma_choice_heard(last);
        assert(choices.map_values(f) =~= fewer.map_values(f).push(choice_script(last)));
        fewer.map_values(f).lemma_flatten_push(choice_script(last));
        lemma_heard_add(fewer.flat_map(f), choice_script(last));
    }
}

/// The steps of a chunk bring its text, and end the answer where it tells the usage.
proof fn lemma_chunk_heard(chunk: ChunkSpec)
    ensures
        first_usage(chunk_script(chunk)) == chunk.usage,
        heard_text(chunk_script(chunk)) == chunk_text(chunk),
{
    let begin = Step::Begin { id: chunk.id, model: chunk.model, fresh: Seq::empty() };
    let choices = chunk.choices.flat_map(choice_script_fn());
    let end = match chunk.usage {
        Some(usage) => seq![Step::Complete { usage, fresh: Seq::empty() }],
        None => Seq::empty(),
    };
    lemma_heard_one(begin);
    lemma_choices_heard(chunk.choices);
    if let Some(usage) = chunk.usage {
        lemma_heard_one(Step::Complete { usage, fresh: Seq::empty() });
    } else {
        lemma_quiet(end);
    }
    lemma_heard_add(seq![begin], choices);
    lemma_heard_add(seq![begin] + choices, end);
    assert(chunk_script(chunk) =~= seq![begin] + choices + end);
    assert(heard_text(chunk_script(chunk)) =~= chunk_text(chunk));
}

/// What arrives last takes its steps last.
pub proof fn lemma_session_push(arrivals: Seq<ArrivalSpec>, arrival: ArrivalSpec)
    ensures
        session_script(arrivals.push(arrival)) == session_script(arrivals) + arrival_script(
            arrival,
        ),
{
    let f = arrival_script_fn();
    assert(arrivals.push(arrival).map_values(f) =~= arrivals.map_values(f).push(
        arrival_script(arrival),
    ));
    arrivals.map_values(f).lemma_flatten_push(arrival_script(arrival));
}

/// The steps of all that arrives bring the text and the usage that have been told.
proof fn lemma_session_heard(arrivals: Seq<ArrivalSpec>)
    ensures
        first_usage(session_script(arrivals)) == told_usage(arrivals),
        heard_text(session_script(arrivals)) == told_text(arrivals),
    decreases arrivals.len(),
{
    if arrivals.len() == 0 {
        assert(arrivals.map_values(arrival_script_fn()) =~= Seq::empty());
        assert(session_script(arrivals) =~= Seq::empty());
    } else {
        let fewer = arrivals.drop_last();
        let last = arrivals.last();
        lemma_session_heard(fewer);
        lemma_session_push(fewer, last);
        assert(fewer.push(last) =~= arrivals);
        match last {
            ArrivalSpec::Chunk(chunk) => {
                lemma_chunk_heard(chunk);
            },
            ArrivalSpec::Unreadable => {
                lemma_quiet(arrival_script(last));
            },
            ArrivalSpec::Done => {
                lemma_heard_one(arrival_script(last)[0]);
                assert(arrival_script(last) =~= seq![arrival_script(last)[0]]);
            },
        }
        lemma_heard_add(session_script(fewer), arrival_script(last));
    }
}

/// Which identifiers are handed out makes no difference to what the steps of a script bring.
proof fn lemma_plays_heard(script: Seq<Step>, steps: Seq<Step>)
    requires
        plays(script, steps),
    ensures
        first_usage(steps) == first_usage(script),
        heard_text(steps) == heard_text(script),
    decreases steps.len(),
{
    if steps.len() > 0 {
        let fewer = script.drop_last();
        let before = steps.drop_last();
        assert forall|i: int| 0 <= i < before.len() implies blank(#[trigger] before[i]) == blank(
            fewer[i],
        ) && well_named(before[i]) by {
            assert(before[i] == steps[i]);
        }
        lemma_plays_heard(fewer, before);
        assert(blank(steps[steps.len() - 1]) == blank(script[steps.len() - 1]));
    }
}

/// A prefix of the steps plays the prefix of the script.
proof fn lemma_plays_take(script: Seq<Step>, steps: Seq<Step>, n: int)
    requires
        plays(script, steps),
        0 <= n <= steps.len(),
    ensures
        plays(script.take(n), steps.take(n)),
{
    let a = script.take(n);
    let b = steps.take(n);
    assert forall|i: int| 0 <= i < b.len() implies blank(#[trigger] b[i]) == blank(a[i])
        && well_named(b[i]) by {
        assert(b[i] == steps[i]);
    }
}

/// The text of a streamed answer is the content of all choices of all chunks that have arrived
/// until it was over, in the order of their arrival, whichever identifiers are handed out; and the
/// pieces of text that were sent are the same text.
pub proof fn law_session_text(arrivals: Seq<ArrivalSpec>, steps: Seq<Step>)
    requires
        plays(session_script(arrivals), steps),
    ensures
        reached(steps).agg.text_content == told_text(arrivals),
        message_progress(trace(steps)).text == told_text(arrivals),
{
    lemma_session_heard(arrivals);
    lemma_plays_heard(session_script(arrivals), steps);
    law_all_text(steps);
}

/// Which identifiers are handed out makes no difference to the arguments that the steps of a script
/// bring.
proof fn lemma_plays_arguments(script: Seq<Step>, steps: Seq<Step>, index: usize)
    requires
        plays(script, steps),
    ensures
        told_arguments(steps, index) == told_arguments(script, index),
    decreases steps.len(),
{
    if steps.len() > 0 {
        let n = steps.len() - 1;
        lemma_plays_take(script, steps, n);
        assert(steps.take(n) =~= steps.drop_last());
        assert(script.take(n) =~= script.drop_last());
        lemma_plays_arguments(script.drop_last(), steps.drop_last(), index);
        lemma_plays_heard(script.drop_last(), steps.drop_last());
        assert(blank(steps[n]) == blank(script[n]));
    }
}

/// The arguments of each tool call of a streamed answer are all that the chunks tell for its index
/// until the answer is over, in the order of their arrival, whichever identifiers are handed out.
pub proof fn law_session_arguments(arrivals: Seq<ArrivalSpec>, steps: Seq<Step>, index: usize)
    requires
        plays(session_script(arrivals), steps),
        reached(steps).agg.tool_calls.contains_key(index),
    ensures
        reached(steps).agg.tool_calls[index].arguments == told_arguments(
            session_script(arrivals),
            index,
        ),
{
    lemma_plays_arguments(session_script(arrivals), steps, index);
    law_all_arguments(steps, index);
}

/// A streamed answer that comes to its end is completed by exactly one event, which is the last; it
/// has the usage of the first chunk that told one before the stream ended, or no tokens at all; and
/// a message that has begun has ended.
pub proof fn law_session_completed(arrivals: Seq<ArrivalSpec>, steps: Seq<Step>)
    requires
        plays(session_script(arrivals.push(ArrivalSpec::Done)), steps),
    ensures
        ({
            let usage = match told_usage(arrivals) {
                Some(usage) => usage,
                None => JsonSpec::Object(Map::empty()),
            };
            let events = trace(steps);
            &&& tally(events, Kind::Completed) == 1
            &&& events.len() > 0
            &&& events.last() is Completed
            &&& events.last()->Completed_usage == JsonSpec::Object(token_counts(usage))
            &&& tally(events, Kind::MessageDone) == tally(events, Kind::MessageAdded)
        }),
{
    let all = arrivals.push(ArrivalSpec::Done);
    let script = session_script(all);
    assert(all.drop_last() =~= arrivals);
    lemma_session_heard(all);
    lemma_plays_heard(script, steps);
    lemma_session_push(arrivals, ArrivalSpec::Done);
    let i = script.len() - 1;
    assert(script[i] is Complete);
    assert(blank(steps[i]) == blank(script[i]));
    assert(steps[i] is Complete);
    law_completed_once(steps);
    law_completed_usage(steps);
    law_message_ends(steps);
}

/// Nothing that arrives after the end of a streamed answer is answered: the events stay the same.
pub proof fn law_nothing_after_end(
    arrivals: Seq<ArrivalSpec>,
    late: Seq<ArrivalSpec>,
    steps: Seq<Step>,
)
    requires
        told_usage(arrivals) is Some,
        plays(session_script(arrivals + late), steps),
    ensures
        trace(steps) == trace(steps.take(session_script(arrivals).len() as int)),
    decreases late.len(),
{
    let n = session_script(arrivals).len() as int;
    if late.len() == 0 {
        assert(arrivals + late =~= arrivals);
        assert(steps.take(n) =~= steps);
    } else {
        let fewer = late.drop_last();
        let last = late.last();
        let script = session_script(arrivals + late);
        let before = session_script(arrivals + fewer);
        assert(arrivals + late =~= (arrivals + fewer).push(last));
        lemma_session_push(arrivals + fewer, last);
        let m = before.len() as int;
        assert(script.take(m) =~= before);
        lemma_plays_take(script, steps, m);
        lemma_session_longer(arrivals, fewer);
        law_nothing_after_end(arrivals, fewer, steps.take(m));
        assert(steps.take(m).take(n) =~= steps.take(n));
        lemma_session_heard(arrivals + fewer);
        lemma_told_stays(arrivals, fewer);
        lemma_plays_heard(before, steps.take(m));
        lemma_silent(steps.take(m), steps.skip(m));
        assert(steps.take(m) + steps.skip(m) =~= steps);
    }
}

/// The steps of all that arrives begin with those of what arrives first.
proof fn lemma_session_longer(a: Seq<ArrivalSpec>, b: Seq<ArrivalSpec>)
    ensures
        session_script(a + b).len() >= session_script(a).len(),
        session_script(a + b).take(session_script(a).len() as int) == session_script(a),
    decreases b.len(),
{
    let n = session_script(a).len() as int;
    if b.len() == 0 {
        assert(a + b =~= a);
        assert(session_script(a).take(n) =~= session_script(a));
    } else {
        lemma_session_longer(a, b.drop_last());
        assert(a + b =~= (a + b.drop_last()).push(b.last()));
        lemma_session_push(a + b.drop_last(), b.last());
        assert(session_script(a + b).take(n) =~= session_script(a + b.drop_last()).take(n));
    }
}

/// What was told of the end stays.
proof fn lemma_told_stays(a: Seq<ArrivalSpec>, b: Seq<ArrivalSpec>)
    requires
        told_usage(a) is Some,
    ensures
        told_usage(a + b) == told_usage(a),
    decreases b.len(),
{
    if b.len() == 0 {
        assert(a + b =~= a);
    } else {
        lemma_told_stays(a, b.drop_last());
        assert((a + b).drop_last() =~= a + b.drop_last());
    }
}

/// Steps after the end send nothing.
proof fn lemma_silent(a: Seq<Step>, b: Seq<Step>)
    requires
        first_usage(a) is Some,
    ensures
        trace(a + b) == trace(a),
    decreases b.len(),
{
    if b.len() == 0 {
        assert(a + b =~= a);
    } else {
        lemma_silent(a, b.drop_last());
        lemma_heard_add(a, b.drop_last());
        lemma_completed(a + b.drop_last());
        lemma_trace_step(a + b.drop_last(), b.last());
        assert(a + b =~= (a + b.drop_last()).push(b.last()));
        assert(trace(a + b) =~= trace(a + b.drop_last()));
    }
}

/// A streamed answer of which a chunk arrives before its end is begun by exactly one event; where
/// nothing that can be read arrives before that chunk, that event is the first.
pub proof fn law_session_created(arrivals: Seq<ArrivalSpec>, steps: Seq<Step>, k: int)
    requires
        plays(session_script(arrivals), steps),
        0 <= k < arrivals.len(),
        arrivals[k] is Chunk,
        told_usage(arrivals.take(k)) is None,
    ensures
        tally(trace(steps), Kind::Created) == 1,
        (forall|j: int| 0 <= j < k ==> #[trigger] arrivals[j] is Unreadable) ==> trace(
            steps,
        ).len() > 0 && trace(steps)[0] is Created,
{
    let script = session_script(arrivals);
    let before = arrivals.take(k);
    let upto = before.push(arrivals[k]);
    assert(arrivals =~= upto + arrivals.skip(k + 1));
    lemma_session_push(before, arrivals[k]);
    lemma_session_longer(upto, arrivals.skip(k + 1));
    lemma_session_longer(before, arrivals.skip(k));
    assert(arrivals =~= before + arrivals.skip(k));
    let i = session_script(before).len() as int;
    let n = session_script(upto).len() as int;
    assert(script.take(n)[i] == script[i]);
    assert(script[i] is Begin);
    assert(blank(steps[i]) == blank(script[i]));
    lemma_plays_take(script, steps, i);
    lemma_session_heard(before);
    lemma_plays_heard(session_script(before), steps.take(i));
    law_created_once(steps, i);
    if forall|j: int| 0 <= j < k ==> #[trigger] arrivals[j] is Unreadable {
        lemma_unreadable(before);
        law_created_first(steps);
    }
}

/// What cannot be read takes no step.
proof fn lemma_unreadable(arrivals: Seq<ArrivalSpec>)
    requires
        forall|j: int| 0 <= j < arrivals.len() ==> #[trigger] arrivals[j] is Unreadable,
    ensures
        session_script(arrivals).len() == 0,
    decreases arrivals.len(),
{
    if arrivals.len() == 0 {
        assert(arrivals.map_values(arrival_script_fn()) =~= Seq::empty());
        assert(session_script(arrivals) =~= Seq::empty());
    } else {
        let fewer = arrivals.drop_last();
        assert(arrivals.last() == arrivals[arrivals.len() - 1]);
        assert forall|j: int| 0 <= j < fewer.len() implies #[trigger] fewer[j] is Unreadable by {
            assert(fewer[j] == arrivals[j]);
        }
        lemma_unreadable(fewer);
        lemma_session_push(fewer, arrivals.last());
        assert(fewer.push(arrivals.last()) =~= arrivals);
    }
}

/// What arrives takes the steps of its own script, after those of all that arrived before; a chunk
/// takes those of a chunk, and the end those of the end.
pub proof fn law_scripts(arrivals: Seq<ArrivalSpec>, arrival: ArrivalSpec)
    ensures
        session_script(Seq::empty()) == Seq::<Step>::empty(),
        session_script(arrivals.push(arrival)) == session_script(arrivals) + arrival_script(
            arrival,
        ),
        arrival is Chunk ==> arrival_script(arrival) == chunk_script(arrival->Chunk_0),
        arrival is Unreadable ==> arrival_script(arrival) == Seq::<Step>::empty(),
        arrival is Done ==> arrival_script(arrival) == done_script(),
{
    lemma_session_push(arrivals, arrival);
    assert(Seq::<ArrivalSpec>::empty().map_values(arrival_script_fn()) =~= Seq::empty());
    assert(session_script(Seq::empty()) =~= Seq::empty());
}

/// The texts that the steps of a streamed answer send are, put together, the texts of all its
/// events in order, each text that of one frame of events; the state that they lead to is the one
/// reached, and all the events are well-formed.
pub proof fn law_texts_sent(steps: Seq<Step>, t: StreamSpec, texts: Seq<Seq<char>>)
    requires
        took_steps(initial(), steps, t, texts),
    ensures
        t == reached(steps),
        texts.flatten() == frame_text(trace(steps)),
        all_well_formed(trace(steps)),
        ({
            let frames = run(initial(), steps).1;
            &&& frames.flatten() == trace(steps)
            &&& texts.len() == frames.len()
            &&& forall|i: int| 0 <= i < texts.len() ==> #[trigger] texts[i] == frame_text(frames[i])
        }),
{
    lemma_frames(run(initial(), steps).1);
}

/// Frames put together.
proof fn lemma_frames(frames: Seq<Seq<Event>>)
    requires
        frames_well_formed(frames),
    ensures
        frame_texts(frames).flatten() == frame_text(frames.flatten()),
        all_well_formed(frames.flatten()),
    decreases frames.len(),
{
    if frames.len() == 0 {
        assert(frame_texts(frames) =~= Seq::empty());
        assert(frames.flatten() =~= Seq::empty());
        assert(frame_text(frames.flatten()) =~= Seq::empty());
        assert(frame_texts(frames).flatten() =~= Seq::empty());
    } else {
        let fewer = frames.drop_last();
        let last = frames.last();
        assert(last == frames[frames.len() - 1]);
        assert forall|i: int| 0 <= i < fewer.len() implies all_well_formed(
            #[trigger] fewer[i],
        ) by {
            assert(fewer[i] == frames[i]);
        }
        lemma_frames(fewer);
        assert(frames =~= fewer.push(last));
        fewer.lemma_flatten_push(last);
        assert(frame_texts(frames) =~= frame_texts(fewer).push(frame_text(last)));
        frame_texts(fewer).lemma_flatten_push(frame_text(last));
        lemma_frame_text_add(fewer.flatten(), last);
        let all = fewer.flatten() + last;
        assert forall|i: int| 0 <= i < all.len() implies well_formed(#[trigger] all[i]) by {
            if i < fewer.flatten().len() {
                assert(all[i] == fewer.flatten()[i]);
            } else {
                assert(all[i] == last[i - fewer.flatten().len()]);
            }
        }
    }
}

/// The text of events is the text of each, one after the other: its name, and the text of its data.
pub proof fn law_frame_text(events: Seq<Event>, e: Event)
    ensures
        frame_text(Seq::empty()) == Seq::<char>::empty(),
        frame_text(events.push(e)) == frame_text(events) + sse_text(
            event_name(e),
            json_text(event_data(e)),
        ),
{
    assert(events.push(e).drop_last() =~= events);
}

/// Whether an event ends something.
pub open spec fn is_end(e: Event) -> bool {
    e is PartDone || e is MessageDone || e is ArgumentsDone || e is CallDone || e is Completed
}

/// Whether events make up one frame: a single event that ends nothing, the end of the message, or
/// the end of the answer with all that ends before it.
pub open spec fn is_frame(f: Seq<Event>) -> bool {
    ||| f.len() == 1 && !is_end(f[0])
    ||| f.len() == 2 && f[0] is PartDone && f[1] is MessageDone
    ||| f.len() > 0 && f.last() is Completed && forall|j: int|
        0 <= j < f.len() ==> is_end(#[trigger] f[j])
}

/// The ends of tool calls end something.
proof fn lemma_call_ends(calls: Seq<CallSpec>)
    ensures
        forall|j: int| 0 <= j < call_ends(calls).len() ==> is_end(#[trigger] call_ends(calls)[j]),
    decreases calls.len(),
{
    if calls.len() > 0 {
        lemma_call_ends(calls.drop_last());
        let fewer = call_ends(calls.drop_last());
        let all = call_ends(calls);
        assert forall|j: int| 0 <= j < all.len() implies is_end(#[trigger] all[j]) by {
            if j < fewer.len() {
                assert(all[j] == fewer[j]);
            } else {
                assert(all[j] == call_end(calls.last())[j - fewer.len()]);
            }
        }
    }
}

/// What a step sends at once is one frame: an event by itself, but that the message ends in one,
/// and the answer with all that is left to end in one. The end of the answer sends its text and at
/// most the event before it by which a missing text begins.
pub proof fn law_frames(s: StreamSpec, st: Step)
    ensures
        forall|i: int| 0 <= i < step(s, st).1.len() ==> is_frame(#[trigger] step(s, st).1[i]),
        st is Complete && !s.completed ==> {
            let frames = step(s, st).1;
            &&& frames.len() > 0
            &&& frames.last().last() is Completed
            &&& forall|i: int|
                0 <= i < frames.len() - 1 ==> (#[trigger] frames[i]).len() == 1
                    && frames[i][0] is PartAdded
        },
{
    if let Step::Complete { usage, fresh } = st {
        lemma_call_ends(calls_in_order(s.agg.tool_calls));
        let last = completion(with_part(s), usage, fresh);
        let ends = call_ends(calls_in_order(s.agg.tool_calls));
        assert forall|j: int| 0 <= j < last.len() implies is_end(#[trigger] last[j]) by {
            let first: int = if text_open(with_part(s)) { 2 } else { 0 };
            if first <= j < first + ends.len() {
                assert(last[j] == ends[j - first]);
            }
        }
        assert(is_frame(last));
    }
}

} // verus!
