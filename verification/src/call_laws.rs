//! What holds of the function calls in the events of every streamed answer.

use crate::calls::{calls_in_order, in_order, lemma_in_order, AggSpec, CallSpec};
use crate::events::{call_items, completed_event, completed_output, Event};
use crate::ids::is_item_id;
use crate::json::JsonSpec;
use crate::response::{call_output_fn, message_output};
use crate::stream::{
    announces, blank, call_end, call_ends, ended, found_call, open_message_end, or_empty, plays,
    sent_piece, step, updated_call, well_named, with_part, Step, StreamSpec, ToolDeltaSpec,
};
use crate::stream_laws::{
    first_usage, lemma_completed, lemma_first_usage, lemma_trace_step, part_events, reached, sent,
    trace,
};
use vstd::prelude::*;

verus! {

/// How far the function calls have come: the items of those that have begun, of those whose
/// arguments have ended and of those that have ended, and the arguments of each so far.
#[verifier::ext_equal]
pub struct CallProgress {
    pub added: Set<Seq<char>>,
    pub arguments_done: Set<Seq<char>>,
    pub done: Set<Seq<char>>,
    pub arguments: Map<Seq<char>, Seq<char>>,
}

/// The arguments that have come for an item.
pub open spec fn arguments_of(p: CallProgress, item_id: Seq<char>) -> Seq<char> {
    if p.arguments.contains_key(item_id) {
        p.arguments[item_id]
    } else {
        Seq::empty()
    }
}

/// Whether an event may come now. A function call begins once; a piece of its arguments comes after
/// it has begun and before its arguments have ended; its arguments end once, after it has begun,
/// and as the pieces that have come put together; it ends once, after its arguments, and with the
/// same arguments.
pub open spec fn call_allows(p: CallProgress, e: Event) -> bool {
    match e {
        Event::CallAdded { item_id, .. } => !p.added.contains(item_id),
        Event::ArgumentsDelta { item_id, .. } => p.added.contains(item_id)
            && !p.arguments_done.contains(item_id),
        Event::ArgumentsDone { item_id, arguments } => {
            &&& p.added.contains(item_id)
            &&& !p.arguments_done.contains(item_id)
            &&& arguments == arguments_of(p, item_id)
        },
        Event::CallDone { item_id, arguments, .. } => {
            &&& p.arguments_done.contains(item_id)
            &&& !p.done.contains(item_id)
            &&& arguments == arguments_of(p, item_id)
        },
        _ => true,
    }
}

/// How far the function calls have come after one more event.
pub open spec fn call_next(p: CallProgress, e: Event) -> CallProgress {
    match e {
        Event::CallAdded { item_id, .. } => CallProgress { added: p.added.insert(item_id), ..p },
        Event::ArgumentsDelta { item_id, delta } => CallProgress {
            arguments: p.arguments.insert(item_id, arguments_of(p, item_id) + delta),
            ..p
        },
        Event::ArgumentsDone { item_id, .. } => CallProgress {
            arguments_done: p.arguments_done.insert(item_id),
            ..p
        },
        Event::CallDone { item_id, .. } => CallProgress { done: p.done.insert(item_id), ..p },
        _ => p,
    }
}

/// How far the function calls have come after events.
pub open spec fn call_progress(events: Seq<Event>) -> CallProgress
    decreases events.len(),
{
    if events.len() == 0 {
        CallProgress {
            added: Set::empty(),
            arguments_done: Set::empty(),
            done: Set::empty(),
            arguments: Map::empty(),
        }
    } else {
        call_next(call_progress(events.drop_last()), events.last())
    }
}

/// Whether each of some events was allowed when it came.
pub open spec fn call_protocol(events: Seq<Event>) -> bool
    decreases events.len(),
{
    events.len() > 0 ==> call_protocol(events.drop_last()) && call_allows(
        call_progress(events.drop_last()),
        events.last(),
    )
}

/// Whether no two tool calls have the same item.
pub open spec fn distinct_items(calls: Map<usize, CallSpec>) -> bool {
    forall|i: usize, j: usize|
        calls.contains_key(i) && calls.contains_key(j) && i != j ==> (#[trigger] calls[i]).item_id
            != (#[trigger] calls[j]).item_id
}

/// Whether an item belongs to a tool call.
pub open spec fn named(calls: Map<usize, CallSpec>, item_id: Seq<char>) -> bool {
    exists|k: usize| calls.contains_key(k) && (#[trigger] calls[k]).item_id == item_id
}

/// Whether a tool call has come as far as it says. Its arguments are held back until it has begun.
pub open spec fn call_agrees(c: CallSpec, p: CallProgress) -> bool {
    &&& p.added.contains(c.item_id) == c.sent_item_added
    &&& p.arguments_done.contains(c.item_id) == c.sent_arguments_done
    &&& p.done.contains(c.item_id) == c.sent_arguments_done
    &&& arguments_of(p, c.item_id) == (if c.sent_item_added {
        c.arguments
    } else {
        Seq::empty()
    })
    &&& c.sent_arguments_done ==> c.sent_item_added
}

/// Whether nothing has come of an item.
pub open spec fn untouched(item_id: Seq<char>, p: CallProgress) -> bool {
    &&& !p.added.contains(item_id)
    &&& !p.arguments_done.contains(item_id)
    &&& !p.done.contains(item_id)
    &&& arguments_of(p, item_id) == Seq::<char>::empty()
}

/// Whether each tool call has come as far as it says, and nothing has come of anything else; and
/// whether no tool call has ended before the answer.
pub open spec fn calls_agree(s: StreamSpec, p: CallProgress) -> bool {
    let calls = s.agg.tool_calls;
    &&& forall|k: usize| #[trigger]
        calls.contains_key(k) ==> call_agrees(calls[k], p) && (s.completed
            || !calls[k].sent_arguments_done)
    &&& forall|x: Seq<char>| !#[trigger] named(calls, x) ==> untouched(x, p)
}

/// Whether an event tells of a function call.
pub open spec fn concerns_call(e: Event) -> bool {
    e is CallAdded || e is ArgumentsDelta || e is ArgumentsDone || e is CallDone
}

/// One more event.
proof fn lemma_call_push(events: Seq<Event>, e: Event)
    ensures
        call_progress(events.push(e)) == call_next(call_progress(events), e),
        call_protocol(events.push(e)) == (call_protocol(events) && call_allows(
            call_progress(events),
            e,
        )),
{
    assert(events.push(e).drop_last() =~= events);
}

/// Events that tell of no function call change nothing.
proof fn lemma_call_others(events: Seq<Event>, others: Seq<Event>)
    requires
        forall|i: int| 0 <= i < others.len() ==> !concerns_call(#[trigger] others[i]),
    ensures
        call_progress(events + others) == call_progress(events),
        call_protocol(events + others) == call_protocol(events),
    decreases others.len(),
{
    if others.len() == 0 {
        assert(events + others =~= events);
    } else {
        lemma_call_others(events, others.drop_last());
        lemma_call_push(events + others.drop_last(), others.last());
        assert(events + others =~= (events + others.drop_last()).push(others.last()));
        assert(!concerns_call(others[others.len() - 1]));
    }
}

/// A word on a tool call keeps to the protocol.
proof fn lemma_call_tool_call(
    events: Seq<Event>,
    s: StreamSpec,
    delta: ToolDeltaSpec,
    fresh: Seq<char>,
)
    requires
        call_protocol(events),
        calls_agree(s, call_progress(events)),
        distinct_items(step(s, Step::ToolCall { delta, fresh }).0.agg.tool_calls),
        !s.completed,
    ensures
        ({
            let st = Step::ToolCall { delta, fresh };
            let after = events + sent(s, st);
            &&& call_protocol(after)
            &&& calls_agree(step(s, st).0, call_progress(after))
        }),
{
    let st = Step::ToolCall { delta, fresh };
    let calls = s.agg.tool_calls;
    let later = step(s, st).0.agg.tool_calls;
    let p = call_progress(events);
    let known = found_call(calls, delta.index, fresh);
    let call = updated_call(known, delta);
    let item_id = call.item_id;
    let piece = sent_piece(call, delta);
    let added = Event::CallAdded { item_id, call_id: call.id, name: call.name };
    let more = Event::ArgumentsDelta { item_id, delta: piece };
    let ending = open_message_end(s);
    assert(later[delta.index].item_id == item_id);
    assert forall|k: usize| #[trigger] calls.contains_key(k) && k != delta.index implies later[k]
        == calls[k] && later.contains_key(k) && calls[k].item_id != item_id by {
        assert(later.contains_key(delta.index) && later.contains_key(k));
        assert(later[k].item_id != later[delta.index].item_id);
    }
    assert(call_agrees(known, p) && !known.sent_arguments_done) by {
        if !calls.contains_key(delta.index) {
            if named(calls, fresh) {
                let k = choose|k: usize|
                    calls.contains_key(k) && (#[trigger] calls[k]).item_id == fresh;
                assert(later[k] == calls[k]);
            }
            assert(untouched(fresh, p));
        }
    }
    let one = if announces(call) {
        (events + ending).push(added)
    } else {
        events
    };
    if announces(call) {
        lemma_call_others(events, ending);
        lemma_call_push(events + ending, added);
    }
    let two = if piece.len() > 0 {
        one.push(more)
    } else {
        one
    };
    lemma_call_push(one, more);
    assert(events + sent(s, st) =~= two);
    let q = call_progress(two);
    assert(call_agrees(later[delta.index], q)) by {
        if announces(call) {
            assert(arguments_of(call_progress(one), item_id) =~= Seq::empty());
            assert(arguments_of(q, item_id) =~= call.arguments);
        } else if call.sent_item_added {
            assert(arguments_of(q, item_id) =~= call.arguments);
        }
    }
    assert forall|x: Seq<char>| x != item_id implies {
        &&& #[trigger] q.added.contains(x) == p.added.contains(x)
        &&& q.arguments_done.contains(x) == p.arguments_done.contains(x)
        &&& q.done.contains(x) == p.done.contains(x)
        &&& arguments_of(q, x) == arguments_of(p, x)
    } by {}
    assert forall|k: usize| #[trigger] later.contains_key(k) implies call_agrees(later[k], q)
        && !later[k].sent_arguments_done by {
        if k != delta.index {
            assert(calls.contains_key(k));
            assert(q.added.contains(calls[k].item_id) == p.added.contains(calls[k].item_id));
        }
    }
    assert forall|x: Seq<char>| !#[trigger] named(later, x) implies untouched(x, q) by {
        assert(later.contains_key(delta.index));
        assert(x != item_id);
        if named(calls, x) {
            let k = choose|k: usize| calls.contains_key(k) && (#[trigger] calls[k]).item_id == x;
            if k == delta.index {
                assert(known.item_id == x);
            }
            assert(later.contains_key(k) && later[k].item_id == x);
        }
        assert(untouched(x, p));
        assert(q.added.contains(x) == p.added.contains(x));
    }
}

/// The items of the tool calls that have begun and not ended.
pub open spec fn open_items(calls: Seq<CallSpec>) -> Set<Seq<char>>
    decreases calls.len(),
{
    if calls.len() == 0 {
        Set::empty()
    } else if call_end(calls.last()).len() == 0 {
        open_items(calls.drop_last())
    } else {
        open_items(calls.drop_last()).insert(calls.last().item_id)
    }
}

/// An item is among those that have begun and not ended where one of the tool calls says so.
proof fn lemma_open_items(calls: Seq<CallSpec>, item_id: Seq<char>)
    ensures
        open_items(calls).contains(item_id) <==> exists|i: int|
            0 <= i < calls.len() && (#[trigger] calls[i]).item_id == item_id
                && calls[i].sent_item_added && !calls[i].sent_arguments_done,
    decreases calls.len(),
{
    if calls.len() > 0 {
        let fewer = calls.drop_last();
        lemma_open_items(fewer, item_id);
        assert(calls.last() == calls[calls.len() - 1]);
        if exists|i: int|
            0 <= i < fewer.len() && (#[trigger] fewer[i]).item_id == item_id
                && fewer[i].sent_item_added && !fewer[i].sent_arguments_done {
            let i = choose|i: int|
                0 <= i < fewer.len() && (#[trigger] fewer[i]).item_id == item_id
                    && fewer[i].sent_item_added && !fewer[i].sent_arguments_done;
            assert(calls[i] == fewer[i]);
        }
        if exists|i: int|
            0 <= i < calls.len() && (#[trigger] calls[i]).item_id == item_id
                && calls[i].sent_item_added && !calls[i].sent_arguments_done {
            let i = choose|i: int|
                0 <= i < calls.len() && (#[trigger] calls[i]).item_id == item_id
                    && calls[i].sent_item_added && !calls[i].sent_arguments_done;
            if i < fewer.len() {
                assert(fewer[i] == calls[i]);
            }
        }
    }
}

/// The ends of tool calls keep to the protocol.
proof fn lemma_call_ends(events: Seq<Event>, calls: Seq<CallSpec>)
    requires
        call_protocol(events),
        forall|i: int|
            0 <= i < calls.len() ==> call_agrees(#[trigger] calls[i], call_progress(events)),
        forall|i: int, j: int|
            0 <= i < j < calls.len() ==> (#[trigger] calls[i]).item_id != (
            #[trigger] calls[j]).item_id,
    ensures
        call_protocol(events + call_ends(calls)),
        ({
            let p = call_progress(events);
            call_progress(events + call_ends(calls)) == (CallProgress {
                arguments_done: p.arguments_done.union(open_items(calls)),
                done: p.done.union(open_items(calls)),
                ..p
            })
        }),
    decreases calls.len(),
{
    let p = call_progress(events);
    if calls.len() == 0 {
        assert(events + call_ends(calls) =~= events);
        assert(p.arguments_done.union(open_items(calls)) =~= p.arguments_done);
        assert(p.done.union(open_items(calls)) =~= p.done);
    } else {
        let fewer = calls.drop_last();
        let call = calls.last();
        assert forall|i: int| 0 <= i < fewer.len() implies call_agrees(#[trigger] fewer[i], p) by {
            assert(fewer[i] == calls[i]);
        }
        assert forall|i: int, j: int| 0 <= i < j < fewer.len() implies (
        #[trigger] fewer[i]).item_id != (#[trigger] fewer[j]).item_id by {
            assert(calls[i].item_id != calls[j].item_id);
        }
        lemma_call_ends(events, fewer);
        let before = events + call_ends(fewer);
        assert(call_agrees(calls[calls.len() - 1], p));
        let end = call_end(call);
        if end.len() == 0 {
            assert(events + call_ends(calls) =~= before);
        } else {
            lemma_open_items(fewer, call.item_id);
            assert(!open_items(fewer).contains(call.item_id)) by {
                assert forall|i: int| 0 <= i < fewer.len() implies (#[trigger] fewer[i]).item_id
                    != call.item_id by {
                    assert(calls[i].item_id != calls[calls.len() - 1].item_id);
                }
            }
            lemma_call_push(before, end[0]);
            lemma_call_push(before.push(end[0]), end[1]);
            assert(events + call_ends(calls) =~= before.push(end[0]).push(end[1]));
            let q = call_progress(events + call_ends(calls));
            assert(q.arguments_done =~= p.arguments_done.union(open_items(calls)));
            assert(q.done =~= p.done.union(open_items(calls)));
        }
    }
}

/// The tool calls in order are those in the map, each once.
proof fn lemma_calls_in_order(calls: Map<usize, CallSpec>)
    ensures
        forall|k: usize| #[trigger] calls.contains_key(k) ==> exists|i: int|
            0 <= i < calls_in_order(calls).len() && #[trigger] in_order(calls.dom())[i] == k,
        forall|i: int|
            0 <= i < calls_in_order(calls).len() ==> calls.contains_key(
                #[trigger] in_order(calls.dom())[i],
            ) && calls_in_order(calls)[i] == calls[in_order(calls.dom())[i]],
        forall|i: int, j: int|
            0 <= i < j < calls_in_order(calls).len() ==> #[trigger] in_order(calls.dom())[i]
                < #[trigger] in_order(calls.dom())[j],
{
    let keys = in_order(calls.dom());
    lemma_in_order(calls.dom());
    assert forall|k: usize| #[trigger] calls.contains_key(k) implies exists|i: int|
        0 <= i < calls_in_order(calls).len() && #[trigger] keys[i] == k by {
        assert(keys.to_set().contains(k));
        assert(keys.contains(k));
        let i = choose|i: int| 0 <= i < keys.len() && keys[i] == k;
        assert(keys[i] == k);
    }
    assert forall|i: int| 0 <= i < keys.len() implies calls.contains_key(#[trigger] keys[i]) by {
        assert(keys.contains(keys[i]));
        assert(keys.to_set().contains(keys[i]));
    }
}

/// The end of the answer keeps to the protocol.
proof fn lemma_call_complete(
    events: Seq<Event>,
    s: StreamSpec,
    usage: JsonSpec,
    fresh: Seq<char>,
)
    requires
        call_protocol(events),
        calls_agree(s, call_progress(events)),
        distinct_items(s.agg.tool_calls),
        !s.completed,
    ensures
        ({
            let st = Step::Complete { usage, fresh };
            let after = events + sent(s, st);
            &&& call_protocol(after)
            &&& calls_agree(step(s, st).0, call_progress(after))
        }),
{
    let st = Step::Complete { usage, fresh };
    let calls = s.agg.tool_calls;
    let later = step(s, st).0.agg.tool_calls;
    let list = calls_in_order(calls);
    let keys = in_order(calls.dom());
    let p = call_progress(events);
    let e = completed_event(or_empty(s.response_id), or_empty(s.model), s.agg, usage, fresh);
    let ending = part_events(s) + open_message_end(with_part(s));
    let one = events + ending;
    let two = one + call_ends(list);
    lemma_calls_in_order(calls);
    lemma_call_others(events, ending);
    assert forall|i: int| 0 <= i < list.len() implies call_agrees(#[trigger] list[i], p) by {
        assert(calls.contains_key(keys[i]));
    }
    assert forall|i: int, j: int| 0 <= i < j < list.len() implies (#[trigger] list[i]).item_id != (
    #[trigger] list[j]).item_id by {
        assert(keys[i] < keys[j]);
        assert(calls.contains_key(keys[i]) && calls.contains_key(keys[j]));
        assert(calls[keys[i]].item_id != calls[keys[j]].item_id);
    }
    lemma_call_ends(one, list);
    lemma_call_push(two, e);
    assert(events + sent(s, st) =~= two.push(e));
    let q = call_progress(two.push(e));
    assert forall|k: usize| #[trigger] later.contains_key(k) implies call_agrees(later[k], q) by {
        let c = calls[k];
        assert(calls.contains_key(k));
        assert(call_agrees(c, p));
        assert(later[k] == ended(c));
        lemma_open_items(list, c.item_id);
        let i = choose|i: int| 0 <= i < list.len() && #[trigger] keys[i] == k;
        assert(list[i] == c);
        if open_items(list).contains(c.item_id) {
            let j = choose|j: int|
                0 <= j < list.len() && (#[trigger] list[j]).item_id == c.item_id
                    && list[j].sent_item_added && !list[j].sent_arguments_done;
            assert(i == j);
        }
    }
    assert forall|x: Seq<char>| !#[trigger] named(later, x) implies untouched(x, q) by {
        if named(calls, x) {
            let k = choose|k: usize| calls.contains_key(k) && (#[trigger] calls[k]).item_id == x;
            assert(later.contains_key(k) && later[k].item_id == x);
        }
        assert(untouched(x, p));
        lemma_open_items(list, x);
        assert(!open_items(list).contains(x)) by {
            assert forall|i: int| 0 <= i < list.len() implies (#[trigger] list[i]).item_id != x by {
                assert(calls.contains_key(keys[i]));
            }
        }
    }
}

/// One more step keeps to the protocol.
proof fn lemma_call_step(events: Seq<Event>, s: StreamSpec, st: Step)
    requires
        call_protocol(events),
        calls_agree(s, call_progress(events)),
        distinct_items(s.agg.tool_calls),
        distinct_items(step(s, st).0.agg.tool_calls),
    ensures
        call_protocol(events + sent(s, st)),
        calls_agree(step(s, st).0, call_progress(events + sent(s, st))),
{
    if s.completed {
        assert(events + sent(s, st) =~= events);
    } else {
        match st {
            Step::ToolCall { delta, fresh } => {
                lemma_call_tool_call(events, s, delta, fresh);
            },
            Step::Complete { usage, fresh } => {
                lemma_call_complete(events, s, usage, fresh);
            },
            _ => {
                lemma_call_others(events, sent(s, st));
                assert(step(s, st).0.agg.tool_calls == s.agg.tool_calls);
            },
        }
    }
}

/// Tool calls stay, and so do their items.
proof fn lemma_items_stay(s: StreamSpec, st: Step)
    ensures
        ({
            let later = step(s, st).0.agg.tool_calls;
            forall|k: usize| #[trigger]
                s.agg.tool_calls.contains_key(k) ==> later.contains_key(k) && later[k].item_id
                    == s.agg.tool_calls[k].item_id
        }),
{
}

/// Where no two tool calls have the same item, the events of a streamed answer keep to the protocol
/// of function calls, whatever the steps; and they have come as far as the state says.
pub proof fn law_call_protocol(steps: Seq<Step>)
    requires
        distinct_items(reached(steps).agg.tool_calls),
    ensures
        call_protocol(trace(steps)),
        calls_agree(reached(steps), call_progress(trace(steps))),
    decreases steps.len(),
{
    if steps.len() == 0 {
        assert(trace(steps) =~= Seq::empty());
    } else {
        let before = steps.drop_last();
        let calls = reached(before).agg.tool_calls;
        let later = reached(steps).agg.tool_calls;
        lemma_trace_step(before, steps.last());
        assert(before.push(steps.last()) =~= steps);
        lemma_items_stay(reached(before), steps.last());
        assert forall|i: usize, j: usize|
            calls.contains_key(i) && calls.contains_key(j) && i != j implies (
        #[trigger] calls[i]).item_id != (#[trigger] calls[j]).item_id by {
            assert(later[i].item_id != later[j].item_id);
        }
        law_call_protocol(before);
        lemma_call_step(trace(before), reached(before), steps.last());
    }
}

/// Once the answer is completed, each tool call that has been announced has ended.
proof fn lemma_calls_ended(steps: Seq<Step>)
    ensures
        reached(steps).completed ==> forall|k: usize| #[trigger]
            reached(steps).agg.tool_calls.contains_key(k) ==> (reached(
                steps,
            ).agg.tool_calls[k].sent_item_added ==> reached(
                steps,
            ).agg.tool_calls[k].sent_arguments_done),
    decreases steps.len(),
{
    if steps.len() > 0 {
        let before = steps.drop_last();
        lemma_calls_ended(before);
        lemma_trace_step(before, steps.last());
        assert(before.push(steps.last()) =~= steps);
        let calls = reached(before).agg.tool_calls;
        let later = reached(steps).agg.tool_calls;
        if reached(steps).completed && !reached(before).completed {
            assert forall|k: usize| #[trigger] later.contains_key(k) implies later[k] == ended(
                calls[k],
            ) by {}
        }
    }
}

/// When the answer is completed, the arguments of each function call that has begun have ended, and
/// so has the call; nothing has ended that had not begun.
pub proof fn law_calls_end(steps: Seq<Step>)
    requires
        distinct_items(reached(steps).agg.tool_calls),
        exists|i: int| 0 <= i < steps.len() && #[trigger] steps[i] is Complete,
    ensures
        ({
            let p = call_progress(trace(steps));
            p.arguments_done == p.added && p.done == p.added
        }),
{
    let calls = reached(steps).agg.tool_calls;
    let p = call_progress(trace(steps));
    lemma_first_usage(steps);
    lemma_completed(steps);
    lemma_calls_ended(steps);
    law_call_protocol(steps);
    assert forall|x: Seq<char>|
        p.arguments_done.contains(x) == #[trigger] p.added.contains(x) && p.done.contains(x)
            == p.added.contains(x) by {
        if named(calls, x) {
            let k = choose|k: usize| calls.contains_key(k) && (#[trigger] calls[k]).item_id == x;
            assert(call_agrees(calls[k], p));
        } else {
            assert(untouched(x, p));
        }
    }
    assert(p.arguments_done =~= p.added);
    assert(p.done =~= p.added);
}

/// Whether an event is no piece of arguments, or one of a function call that has begun.
pub open spec fn follows_begin(p: CallProgress, e: Event) -> bool {
    match e {
        Event::ArgumentsDelta { item_id, .. } => p.added.contains(item_id),
        _ => true,
    }
}

/// Whether each piece of arguments comes after its function call has begun.
pub open spec fn pieces_follow(events: Seq<Event>) -> bool {
    forall|j: int|
        0 <= j < events.len() ==> follows_begin(
            call_progress(events.take(j)),
            #[trigger] events[j],
        )
}

/// One more event, which is no piece of arguments or one of a function call that has begun.
proof fn lemma_pieces_push(events: Seq<Event>, e: Event)
    requires
        pieces_follow(events),
        follows_begin(call_progress(events), e),
    ensures
        pieces_follow(events.push(e)),
{
    let all = events.push(e);
    assert forall|j: int| 0 <= j < all.len() implies follows_begin(
        call_progress(all.take(j)),
        #[trigger] all[j],
    ) by {
        if j < events.len() {
            assert(all.take(j) =~= events.take(j));
            assert(events[j] == all[j]);
        } else {
            assert(all.take(j) =~= events);
        }
    }
}

/// More events, none of which is a piece of arguments.
proof fn lemma_pieces_others(events: Seq<Event>, others: Seq<Event>)
    requires
        pieces_follow(events),
        forall|i: int| 0 <= i < others.len() ==> !(#[trigger] others[i] is ArgumentsDelta),
    ensures
        pieces_follow(events + others),
        call_progress(events).added.subset_of(call_progress(events + others).added),
    decreases others.len(),
{
    if others.len() == 0 {
        assert(events + others =~= events);
    } else {
        let before = events + others.drop_last();
        lemma_pieces_others(events, others.drop_last());
        assert(events + others =~= before.push(others.last()));
        assert(!(others[others.len() - 1] is ArgumentsDelta));
        lemma_pieces_push(before, others.last());
        lemma_call_push(before, others.last());
    }
}

/// The ends of tool calls hold no piece of arguments.
proof fn lemma_ends_no_piece(calls: Seq<CallSpec>)
    ensures
        forall|i: int|
            0 <= i < call_ends(calls).len() ==> !(#[trigger] call_ends(calls)[i] is ArgumentsDelta),
    decreases calls.len(),
{
    if calls.len() > 0 {
        lemma_ends_no_piece(calls.drop_last());
        let fewer = call_ends(calls.drop_last());
        assert forall|i: int| 0 <= i < call_ends(calls).len() implies !(
        #[trigger] call_ends(calls)[i] is ArgumentsDelta) by {
            if i < fewer.len() {
                assert(call_ends(calls)[i] == fewer[i]);
            } else {
                assert(call_ends(calls)[i] == call_end(calls.last())[i - fewer.len()]);
            }
        }
    }
}

/// Whether each tool call that has been announced has begun.
pub open spec fn all_begun(calls: Map<usize, CallSpec>, events: Seq<Event>) -> bool {
    forall|k: usize| #[trigger]
        calls.contains_key(k) && calls[k].sent_item_added ==> call_progress(events).added.contains(
            calls[k].item_id,
        )
}

/// A word on a tool call sends no piece of arguments before the call has begun.
proof fn lemma_pieces_tool_call(
    events: Seq<Event>,
    s: StreamSpec,
    delta: ToolDeltaSpec,
    fresh: Seq<char>,
)
    requires
        pieces_follow(events),
        all_begun(s.agg.tool_calls, events),
        !s.completed,
    ensures
        ({
            let st = Step::ToolCall { delta, fresh };
            let after = events + sent(s, st);
            pieces_follow(after) && all_begun(step(s, st).0.agg.tool_calls, after)
        }),
{
    let st = Step::ToolCall { delta, fresh };
    let calls = s.agg.tool_calls;
    let later = step(s, st).0.agg.tool_calls;
    let call = updated_call(found_call(calls, delta.index, fresh), delta);
    let added = Event::CallAdded { item_id: call.item_id, call_id: call.id, name: call.name };
    let piece = sent_piece(call, delta);
    let more = Event::ArgumentsDelta { item_id: call.item_id, delta: piece };
    let ending = open_message_end(s);
    let one = if announces(call) {
        (events + ending).push(added)
    } else {
        events
    };
    if announces(call) {
        lemma_pieces_others(events, ending);
        lemma_pieces_push(events + ending, added);
        lemma_call_push(events + ending, added);
    }
    assert(call_progress(events).added.subset_of(call_progress(one).added));
    assert(announces(call) || call.sent_item_added ==> call_progress(one).added.contains(
        call.item_id,
    ));
    assert forall|k: usize| #[trigger]
        later.contains_key(k) && later[k].sent_item_added implies call_progress(
        one,
    ).added.contains(later[k].item_id) by {
        if k != delta.index {
            assert(calls.contains_key(k));
        }
    }
    if piece.len() > 0 {
        lemma_pieces_push(one, more);
        lemma_call_push(one, more);
        assert(events + sent(s, st) =~= one.push(more));
    } else {
        assert(events + sent(s, st) =~= one);
    }
}

/// One more step sends no piece of arguments before the call has begun.
proof fn lemma_pieces_step(events: Seq<Event>, s: StreamSpec, st: Step)
    requires
        pieces_follow(events),
        all_begun(s.agg.tool_calls, events),
    ensures
        pieces_follow(events + sent(s, st)),
        all_begun(step(s, st).0.agg.tool_calls, events + sent(s, st)),
{
    if s.completed {
        assert(events + sent(s, st) =~= events);
    } else {
        match st {
            Step::ToolCall { delta, fresh } => {
                lemma_pieces_tool_call(events, s, delta, fresh);
            },
            _ => {
                lemma_ends_no_piece(calls_in_order(s.agg.tool_calls));
                lemma_pieces_others(events, sent(s, st));
                let calls = s.agg.tool_calls;
                let later = step(s, st).0.agg.tool_calls;
                assert forall|k: usize| #[trigger] later.contains_key(k) implies calls.contains_key(
                    k,
                ) && later[k].item_id == calls[k].item_id && later[k].sent_item_added
                    == calls[k].sent_item_added by {}
            },
        }
    }
}

/// No piece of the arguments of a function call comes before the call has begun, whatever the
/// steps.
pub proof fn law_pieces_after_begin(steps: Seq<Step>)
    ensures
        pieces_follow(trace(steps)),
        all_begun(reached(steps).agg.tool_calls, trace(steps)),
    decreases steps.len(),
{
    if steps.len() == 0 {
        assert(trace(steps) =~= Seq::empty());
    } else {
        let before = steps.drop_last();
        let st = steps.last();
        lemma_trace_step(before, st);
        assert(before.push(st) =~= steps);
        law_pieces_after_begin(before);
        lemma_pieces_step(trace(before), reached(before), st);
    }
}

/// All the arguments that steps bring for the tool call under an index before the answer is said to
/// be over, in order.
pub open spec fn told_arguments(steps: Seq<Step>, index: usize) -> Seq<char>
    decreases steps.len(),
{
    if steps.len() == 0 {
        Seq::empty()
    } else {
        told_arguments(steps.drop_last(), index) + (match steps.last() {
            Step::ToolCall { delta, .. } => if delta.index == index && first_usage(
                steps.drop_last(),
            ) is None {
                or_empty(delta.arguments)
            } else {
                Seq::empty()
            },
            _ => Seq::empty(),
        })
    }
}

/// The arguments of a tool call are all the arguments that have been brought for its index before
/// the answer was said to be over, in order; none were brought for an index without a tool call.
pub proof fn law_all_arguments(steps: Seq<Step>, index: usize)
    ensures
        reached(steps).agg.tool_calls.contains_key(index) ==> reached(
            steps,
        ).agg.tool_calls[index].arguments == told_arguments(steps, index),
        !reached(steps).agg.tool_calls.contains_key(index) ==> told_arguments(steps, index)
            == Seq::<char>::empty(),
    decreases steps.len(),
{
    if steps.len() > 0 {
        let before = steps.drop_last();
        let s = reached(before);
        law_all_arguments(before, index);
        lemma_completed(before);
        lemma_trace_step(before, steps.last());
        assert(before.push(steps.last()) =~= steps);
        let told = told_arguments(before, index);
        assert(told + Seq::<char>::empty() =~= told);
        if !s.completed {
            match steps.last() {
                Step::ToolCall { delta, fresh } => {
                    if delta.index == index && !s.agg.tool_calls.contains_key(index) {
                        assert(Seq::<char>::empty() + or_empty(delta.arguments) =~= or_empty(
                            delta.arguments,
                        ));
                    }
                },
                _ => {},
            }
        }
    }
}

/// Whether an event that ends the function call of an item carries given arguments, where it is
/// one.
pub open spec fn call_ends_with(e: Event, item: Seq<char>, whole: Seq<char>) -> bool {
    match e {
        Event::ArgumentsDone { item_id, arguments } => item_id == item ==> arguments == whole,
        Event::CallDone { item_id, arguments, .. } => item_id == item ==> arguments == whole,
        _ => true,
    }
}

/// Whether all events that end the function call of an item carry given arguments.
pub open spec fn call_all_end_with(events: Seq<Event>, item: Seq<char>, whole: Seq<char>) -> bool {
    forall|i: int| 0 <= i < events.len() ==> call_ends_with(#[trigger] events[i], item, whole)
}

/// The ends of tool calls carry the arguments of the one that has the item.
proof fn lemma_ends_carry(calls: Seq<CallSpec>, item: Seq<char>, whole: Seq<char>)
    requires
        forall|i: int|
            0 <= i < calls.len() && (#[trigger] calls[i]).item_id == item ==> calls[i].arguments
                == whole,
    ensures
        call_all_end_with(call_ends(calls), item, whole),
    decreases calls.len(),
{
    if calls.len() > 0 {
        let rest = calls.drop_last();
        assert forall|i: int|
            0 <= i < rest.len() && (#[trigger] rest[i]).item_id == item implies rest[i].arguments
            == whole by {
            assert(rest[i] == calls[i]);
        }
        lemma_ends_carry(rest, item, whole);
        let fewer = call_ends(rest);
        let all = call_ends(calls);
        assert(calls.last() == calls[calls.len() - 1]);
        assert forall|i: int| 0 <= i < all.len() implies call_ends_with(
            #[trigger] all[i],
            item,
            whole,
        ) by {
            if i < fewer.len() {
                assert(all[i] == fewer[i]);
            } else {
                assert(all[i] == call_end(calls.last())[i - fewer.len()]);
            }
        }
    }
}

/// Before the answer is completed, no event ends a function call.
proof fn lemma_no_call_end(steps: Seq<Step>, item: Seq<char>, whole: Seq<char>)
    requires
        !reached(steps).completed,
    ensures
        call_all_end_with(trace(steps), item, whole),
    decreases steps.len(),
{
    if steps.len() == 0 {
        assert(trace(steps) =~= Seq::empty());
    } else {
        let before = steps.drop_last();
        let st = steps.last();
        lemma_trace_step(before, st);
        assert(before.push(st) =~= steps);
        assert(!reached(before).completed && !(st is Complete));
        lemma_no_call_end(before, item, whole);
        let more = sent(reached(before), st);
        assert(call_all_end_with(more, item, whole));
        lemma_carry_add(trace(before), more, item, whole);
    }
}

/// Events after events that carry given arguments.
proof fn lemma_carry_add(a: Seq<Event>, b: Seq<Event>, item: Seq<char>, whole: Seq<char>)
    requires
        call_all_end_with(a, item, whole),
        call_all_end_with(b, item, whole),
    ensures
        call_all_end_with(a + b, item, whole),
{
    let all = a + b;
    assert forall|i: int| 0 <= i < all.len() implies call_ends_with(
        #[trigger] all[i],
        item,
        whole,
    ) by {
        if i < a.len() {
            assert(all[i] == a[i]);
        } else {
            assert(all[i] == b[i - a.len()]);
        }
    }
}

/// Where no two tool calls have the same item, the events that end a function call carry all the
/// arguments that have been brought for its index, in order.
pub proof fn law_done_arguments(steps: Seq<Step>, index: usize)
    requires
        distinct_items(reached(steps).agg.tool_calls),
        reached(steps).agg.tool_calls.contains_key(index),
    ensures
        call_all_end_with(
            trace(steps),
            reached(steps).agg.tool_calls[index].item_id,
            told_arguments(steps, index),
        ),
    decreases steps.len(),
{
    let later = reached(steps).agg.tool_calls;
    let item = later[index].item_id;
    let whole = told_arguments(steps, index);
    law_all_arguments(steps, index);
    if !reached(steps).completed {
        lemma_no_call_end(steps, item, whole);
    } else {
        let before = steps.drop_last();
        let st = steps.last();
        let s = reached(before);
        let calls = s.agg.tool_calls;
        lemma_trace_step(before, st);
        assert(before.push(st) =~= steps);
        if s.completed {
            law_done_arguments(before, index);
            law_all_arguments(before, index);
            assert(trace(steps) =~= trace(before));
        } else {
            lemma_no_call_end(before, item, whole);
            let list = calls_in_order(calls);
            lemma_calls_in_order(calls);
            assert forall|i: int|
                0 <= i < list.len() && (#[trigger] list[i]).item_id == item implies list[i].arguments
                == whole by {
                let k = in_order(calls.dom())[i];
                assert(calls.contains_key(k) && list[i] == calls[k]);
                assert(later.contains_key(k) && later[k] == ended(calls[k]));
                assert(later[k].item_id == item);
                if k != index {
                    assert(later[k].item_id != later[index].item_id);
                }
            }
            lemma_ends_carry(list, item, whole);
            let t = with_part(s);
            let first = part_events(s) + open_message_end(t);
            lemma_carry_add(trace(before), first, item, whole);
            lemma_carry_add(trace(before) + first, call_ends(list), item, whole);
            let last = seq![trace(steps).last()];
            assert(trace(steps) =~= trace(before) + first + call_ends(list) + last);
            lemma_carry_add(trace(before) + first + call_ends(list), last, item, whole);
        }
    }
}

/// Whether an event that ends the function call of an item ends it as it is: with its identifier,
/// its name and its arguments.
pub open spec fn ends_as(e: Event, call: CallSpec) -> bool {
    match e {
        Event::ArgumentsDone { item_id, arguments } => item_id == call.item_id ==> arguments
            == call.arguments,
        Event::CallDone { item_id, call_id, name, arguments } => item_id == call.item_id ==> call_id
            == call.id && name == call.name && arguments == call.arguments,
        _ => true,
    }
}

/// Whether all events that end the function call of an item end it as it is.
pub open spec fn all_end_as(events: Seq<Event>, call: CallSpec) -> bool {
    forall|i: int| 0 <= i < events.len() ==> ends_as(#[trigger] events[i], call)
}

/// Events after events that end a function call as it is.
proof fn lemma_end_as_add(a: Seq<Event>, b: Seq<Event>, call: CallSpec)
    requires
        all_end_as(a, call),
        all_end_as(b, call),
    ensures
        all_end_as(a + b, call),
{
    let all = a + b;
    assert forall|i: int| 0 <= i < all.len() implies ends_as(#[trigger] all[i], call) by {
        if i < a.len() {
            assert(all[i] == a[i]);
        } else {
            assert(all[i] == b[i - a.len()]);
        }
    }
}

/// The ends of tool calls end each as it is.
proof fn lemma_ends_as(calls: Seq<CallSpec>, call: CallSpec)
    requires
        forall|i: int|
            0 <= i < calls.len() && (#[trigger] calls[i]).item_id == call.item_id ==> calls[i].id
                == call.id && calls[i].name == call.name && calls[i].arguments == call.arguments,
    ensures
        all_end_as(call_ends(calls), call),
    decreases calls.len(),
{
    if calls.len() > 0 {
        let rest = calls.drop_last();
        assert forall|i: int|
            0 <= i < rest.len() && (#[trigger] rest[i]).item_id == call.item_id implies rest[i].id
            == call.id && rest[i].name == call.name && rest[i].arguments == call.arguments by {
            assert(rest[i] == calls[i]);
        }
        lemma_ends_as(rest, call);
        assert(calls.last() == calls[calls.len() - 1]);
        assert(all_end_as(call_end(calls.last()), call));
        lemma_end_as_add(call_ends(rest), call_end(calls.last()), call);
    }
}

/// Before the answer is completed, no event ends a function call.
proof fn lemma_none_ends(steps: Seq<Step>, call: CallSpec)
    requires
        !reached(steps).completed,
    ensures
        all_end_as(trace(steps), call),
    decreases steps.len(),
{
    if steps.len() == 0 {
        assert(trace(steps) =~= Seq::empty());
    } else {
        let before = steps.drop_last();
        let st = steps.last();
        lemma_trace_step(before, st);
        assert(before.push(st) =~= steps);
        assert(!reached(before).completed && !(st is Complete));
        lemma_none_ends(before, call);
        let more = sent(reached(before), st);
        assert(all_end_as(more, call));
        lemma_end_as_add(trace(before), more, call);
    }
}

/// Where no two tool calls have the same item, the events that end a function call carry the
/// identifier, the name and the arguments that the call has in the end.
pub proof fn law_done_calls(steps: Seq<Step>, index: usize)
    requires
        distinct_items(reached(steps).agg.tool_calls),
        reached(steps).agg.tool_calls.contains_key(index),
    ensures
        all_end_as(trace(steps), reached(steps).agg.tool_calls[index]),
    decreases steps.len(),
{
    let later = reached(steps).agg.tool_calls;
    let call = later[index];
    if !reached(steps).completed {
        lemma_none_ends(steps, call);
    } else {
        let before = steps.drop_last();
        let st = steps.last();
        let s = reached(before);
        let calls = s.agg.tool_calls;
        lemma_trace_step(before, st);
        assert(before.push(st) =~= steps);
        if s.completed {
            law_done_calls(before, index);
            assert(trace(steps) =~= trace(before));
        } else {
            lemma_none_ends(before, call);
            let list = calls_in_order(calls);
            lemma_calls_in_order(calls);
            assert forall|i: int|
                0 <= i < list.len() && (#[trigger] list[i]).item_id == call.item_id implies list[i].id
                == call.id && list[i].name == call.name && list[i].arguments == call.arguments by {
                let k = in_order(calls.dom())[i];
                assert(calls.contains_key(k) && list[i] == calls[k]);
                assert(later.contains_key(k) && later[k] == ended(calls[k]));
                if k != index {
                    assert(later[k].item_id != later[index].item_id);
                }
            }
            lemma_ends_as(list, call);
            let first = part_events(s) + open_message_end(with_part(s));
            lemma_end_as_add(trace(before), first, call);
            lemma_end_as_add(trace(before) + first, call_ends(list), call);
            let last = seq![trace(steps).last()];
            assert(trace(steps) =~= trace(before) + first + call_ends(list) + last);
            lemma_end_as_add(trace(before) + first + call_ends(list), last, call);
        }
    }
}

/// Whether a tool call that has arrived in pieces is what a chat message says in one piece.
pub open spec fn says_the_same(call: CallSpec, whole: JsonSpec) -> bool {
    match whole.get("function"@) {
        Some(function) => {
            &&& call.id == whole.str_or_empty("id"@)
            &&& call.name == function.str_or_empty("name"@)
            &&& call.arguments == function.str_or_empty("arguments"@)
        },
        None => false,
    }
}

/// Tool calls become the same output items whether they arrive in pieces or in one.
proof fn lemma_same_items(calls: Seq<CallSpec>, whole: Seq<JsonSpec>)
    requires
        calls.len() == whole.len(),
        forall|i: int| 0 <= i < calls.len() ==> says_the_same(#[trigger] calls[i], whole[i]),
    ensures
        whole.filter_map(call_output_fn("completed"@)) == call_items(calls),
    decreases calls.len(),
{
    if calls.len() == 0 {
        assert(whole.filter_map(call_output_fn("completed"@)) =~= call_items(calls));
    } else {
        let fewer = calls.drop_last();
        let rest = whole.drop_last();
        assert forall|i: int| 0 <= i < fewer.len() implies says_the_same(
            #[trigger] fewer[i],
            rest[i],
        ) by {
            assert(says_the_same(calls[i], whole[i]));
        }
        lemma_same_items(fewer, rest);
        assert(says_the_same(calls[calls.len() - 1], whole[calls.len() - 1]));
        assert(whole.filter_map(call_output_fn("completed"@)) =~= call_items(calls));
    }
}

/// An answer of tool calls alone that is completed has the same output whether it is streamed or
/// arrives in one piece, where the calls are the same and in the order of their indices.
pub proof fn law_streamed_calls(
    agg: AggSpec,
    item_id: Seq<char>,
    message: JsonSpec,
    whole: Seq<JsonSpec>,
)
    requires
        !agg.tool_calls.is_empty(),
        agg.text_content.len() == 0,
        message.get_array("tool_calls"@) == Some(whole),
        whole.len() == calls_in_order(agg.tool_calls).len(),
        forall|i: int|
            0 <= i < whole.len() ==> says_the_same(
                #[trigger] calls_in_order(agg.tool_calls)[i],
                whole[i],
            ),
    ensures
        completed_output(agg, item_id) == message_output(message, "completed"@),
{
    lemma_same_items(calls_in_order(agg.tool_calls), whole);
    assert(completed_output(agg, item_id) =~= call_items(calls_in_order(agg.tool_calls)));
}

/// The identifier that was at hand when something was first said of the tool call under an index,
/// before the answer was said to be over.
pub open spec fn first_named(steps: Seq<Step>, index: usize) -> Option<Seq<char>>
    decreases steps.len(),
{
    if steps.len() == 0 {
        None
    } else if first_named(steps.drop_last(), index) is Some {
        first_named(steps.drop_last(), index)
    } else if first_usage(steps.drop_last()) is Some {
        None
    } else {
        match steps.last() {
            Step::ToolCall { delta, fresh } => if delta.index == index {
                Some(fresh)
            } else {
                None
            },
            _ => None,
        }
    }
}

/// There is a tool call under an index exactly where something was said of it before the answer was
/// said to be over. Its item has the identifier that was at hand when that was first so.
pub proof fn law_call_items(steps: Seq<Step>, index: usize)
    ensures
        ({
            let calls = reached(steps).agg.tool_calls;
            &&& calls.contains_key(index) <==> first_named(steps, index) is Some
            &&& calls.contains_key(index) ==> calls[index].item_id == first_named(steps, index)->0
        }),
    decreases steps.len(),
{
    if steps.len() > 0 {
        let before = steps.drop_last();
        law_call_items(before, index);
        lemma_completed(before);
        lemma_trace_step(before, steps.last());
        assert(before.push(steps.last()) =~= steps);
    }
}

/// Whichever identifiers are handed out while a script is played, that of each tool call, that of
/// the message and that which the completed answer gives its message are identifiers for items.
pub proof fn law_items_named(script: Seq<Step>, steps: Seq<Step>, index: usize)
    requires
        plays(script, steps),
    ensures
        reached(steps).agg.tool_calls.contains_key(index) ==> is_item_id(
            reached(steps).agg.tool_calls[index].item_id,
        ),
        reached(steps).msg_item_id is Some ==> is_item_id(reached(steps).msg_item_id->0),
        forall|i: int|
            0 <= i < steps.len() && #[trigger] steps[i] is Complete ==> is_item_id(
                steps[i]->Complete_fresh,
            ),
    decreases steps.len(),
{
    law_call_items(steps, index);
    if steps.len() > 0 {
        let before = steps.drop_last();
        let shorter = script.drop_last();
        assert forall|i: int| 0 <= i < before.len() implies blank(#[trigger] before[i]) == blank(
            shorter[i],
        ) && well_named(before[i]) by {
            assert(before[i] == steps[i]);
        }
        law_items_named(shorter, before, index);
        law_call_items(before, index);
        lemma_trace_step(before, steps.last());
        assert(before.push(steps.last()) =~= steps);
        assert(well_named(steps[steps.len() - 1]));
        assert forall|i: int|
            0 <= i < steps.len() && #[trigger] steps[i] is Complete implies is_item_id(
            steps[i]->Complete_fresh,
        ) by {
            assert(well_named(steps[i]));
        }
    }
}

} // verus!
