//! The tool calls of an answer that arrives in pieces.

use std::collections::BTreeMap;
use vstd::prelude::*;

verus! {

/// What has arrived of one tool call, and what has been sent on of it.
pub struct ToolCallStreamState {
    pub id: String,
    pub name: String,
    pub item_id: String,
    pub arguments: String,
    pub sent_item_added: bool,
    pub sent_arguments_done: bool,
}

/// The model of a tool call.
#[verifier::ext_equal]
pub struct CallSpec {
    pub id: Seq<char>,
    pub name: Seq<char>,
    pub item_id: Seq<char>,
    pub arguments: Seq<char>,
    pub sent_item_added: bool,
    pub sent_arguments_done: bool,
}

impl View for ToolCallStreamState {
    type V = CallSpec;

    open spec fn view(&self) -> CallSpec {
        CallSpec {
            id: self.id@,
            name: self.name@,
            item_id: self.item_id@,
            arguments: self.arguments@,
            sent_item_added: self.sent_item_added,
            sent_arguments_done: self.sent_arguments_done,
        }
    }
}

/// What has arrived of an answer.
pub struct ChunkAgg {
    pub text_content: String,
    pub tool_calls: BTreeMap<usize, ToolCallStreamState>,
    pub finish_reason: Option<String>,
}

/// The model of what has arrived of an answer.
#[verifier::ext_equal]
pub struct AggSpec {
    pub text_content: Seq<char>,
    pub tool_calls: Map<usize, CallSpec>,
    pub finish_reason: Option<Seq<char>>,
}

impl View for ChunkAgg {
    type V = AggSpec;

    open spec fn view(&self) -> AggSpec {
        AggSpec {
            text_content: self.text_content@,
            tool_calls: calls_model(self.tool_calls@),
            finish_reason: option_chars(self.finish_reason),
        }
    }
}

/// The characters of a string that may be missing.
pub open spec fn option_chars(s: Option<String>) -> Option<Seq<char>> {
    match s {
        Some(s) => Some(s@),
        None => None,
    }
}

/// A tool call of which nothing but its item is known.
pub open spec fn new_call(item_id: Seq<char>) -> CallSpec {
    CallSpec {
        id: Seq::empty(),
        name: Seq::empty(),
        item_id,
        arguments: Seq::empty(),
        sent_item_added: false,
        sent_arguments_done: false,
    }
}

/// The models of the tool calls in a map, each under its index.
pub open spec fn calls_model(m: Map<usize, ToolCallStreamState>) -> Map<usize, CallSpec> {
    m.map_values(|c: ToolCallStreamState| c@)
}

/// Whether a sequence lists a set of indices in increasing order.
pub open spec fn lists_in_order(s: Seq<usize>, indices: Set<usize>) -> bool {
    &&& forall|i: int, j: int| 0 <= i < j < s.len() ==> #[trigger] s[i] < #[trigger] s[j]
    &&& s.to_set() == indices
}

/// A set of indices in increasing order.
pub open spec fn in_order(indices: Set<usize>) -> Seq<usize> {
    choose|s: Seq<usize>| lists_in_order(s, indices)
}

/// The tool calls in the order of their indices.
pub open spec fn calls_in_order(calls: Map<usize, CallSpec>) -> Seq<CallSpec> {
    in_order(calls.dom()).map_values(|k: usize| calls[k])
}

/// There is only one way to list a set in increasing order.
pub proof fn lemma_one_order(s: Seq<usize>, t: Seq<usize>, indices: Set<usize>)
    requires
        lists_in_order(s, indices),
        lists_in_order(t, indices),
    ensures
        s == t,
    decreases s.len(),
{
    if s.len() == 0 {
        if t.len() > 0 {
            assert(t.to_set().contains(t[0]));
            assert(s.to_set().contains(t[0]));
        }
        assert(s =~= t);
    } else {
        assert(s.to_set().contains(s.last()));
        assert(t.contains(s.last()));
        assert(t.len() > 0);
        assert(t.to_set().contains(t.last()));
        assert(s.contains(t.last()));
        let a = choose|a: int| 0 <= a < t.len() && t[a] == s.last();
        let b = choose|b: int| 0 <= b < s.len() && s[b] == t.last();
        assert(s.last() == t.last());
        let rest = indices.remove(s.last());
        lemma_order_rest(s, indices);
        lemma_order_rest(t, indices);
        lemma_one_order(s.drop_last(), t.drop_last(), rest);
        assert(s =~= s.drop_last().push(s.last()));
        assert(t =~= t.drop_last().push(t.last()));
    }
}

/// Without its last, a listing lists the rest.
proof fn lemma_order_rest(s: Seq<usize>, indices: Set<usize>)
    requires
        lists_in_order(s, indices),
        s.len() > 0,
    ensures
        lists_in_order(s.drop_last(), indices.remove(s.last())),
{
    let t = s.drop_last();
    assert forall|i: int, j: int| 0 <= i < j < t.len() implies #[trigger] t[i]
        < #[trigger] t[j] by {
        assert(s[i] < s[j]);
    }
    assert forall|k: usize| indices.remove(s.last()).contains(k) implies t.to_set().contains(k) by {
        assert(s.to_set().contains(k));
        let i = choose|i: int| 0 <= i < s.len() && s[i] == k;
        assert(t[i] == k);
    }
    assert forall|k: usize| t.to_set().contains(k) implies indices.remove(s.last()).contains(k) by {
        let i = choose|i: int| 0 <= i < t.len() && t[i] == k;
        assert(s[i] == k);
        assert(s.to_set().contains(k));
        assert(s[i] < s[s.len() - 1]);
    }
    assert(t.to_set() =~= indices.remove(s.last()));
}

/// The members of a set below a bound, in increasing order.
proof fn lemma_listing(indices: Set<usize>, bound: nat) -> (s: Seq<usize>)
    requires
        bound <= usize::MAX + 1,
    ensures
        forall|i: int, j: int| 0 <= i < j < s.len() ==> #[trigger] s[i] < #[trigger] s[j],
        forall|k: usize| #[trigger] s.contains(k) <==> indices.contains(k) && k < bound,
    decreases bound,
{
    if bound == 0 {
        Seq::empty()
    } else {
        let last = (bound - 1) as usize;
        let rest = lemma_listing(indices, (bound - 1) as nat);
        if indices.contains(last) {
            let s = rest.push(last);
            assert forall|i: int, j: int| 0 <= i < j < s.len() implies #[trigger] s[i]
                < #[trigger] s[j] by {
                if j == rest.len() {
                    assert(rest.contains(rest[i]));
                } else {
                    assert(rest[i] < rest[j]);
                }
            }
            assert forall|k: usize| #[trigger] s.contains(k) <==> indices.contains(k) && k
                < bound by {
                if s.contains(k) {
                    let i = choose|i: int| 0 <= i < s.len() && s[i] == k;
                    if i < rest.len() {
                        assert(rest[i] == k);
                        assert(rest.contains(k));
                    }
                }
                if indices.contains(k) && k < bound {
                    if k == last {
                        assert(s[rest.len() as int] == k);
                    } else {
                        assert(rest.contains(k));
                        let i = choose|i: int| 0 <= i < rest.len() && rest[i] == k;
                        assert(s[i] == k);
                    }
                }
            }
            s
        } else {
            rest
        }
    }
}

/// Each set of indices can be listed in increasing order.
pub proof fn lemma_in_order(indices: Set<usize>)
    ensures
        lists_in_order(in_order(indices), indices),
{
    let s = lemma_listing(indices, (usize::MAX + 1) as nat);
    assert(s.to_set() =~= indices) by {
        assert forall|k: usize| s.to_set().contains(k) <==> indices.contains(k) by {
            assert(s.contains(k) <==> indices.contains(k));
        }
    }
    assert(lists_in_order(s, indices));
}

/// The indices of the tool calls, in increasing order.
pub fn indices(calls: &BTreeMap<usize, ToolCallStreamState>) -> (r: Vec<usize>)
    ensures
        r@ == in_order(calls@.dom()),
        r@.to_set() == calls@.dom(),
        r@.no_duplicates(),
{
    let mut found: Vec<usize> = Vec::new();
    let source = calls.iter();
    let ghost listed = vstd::std_specs::iter::IteratorSpec::remaining(&source);
    let ghost key_of = choose|f: spec_fn((&usize, &ToolCallStreamState)) -> usize| #[trigger]
        vstd::std_specs::btree::increasing_seq(listed.map_values(f)) && forall|
            kv: (&usize, &ToolCallStreamState),
        | #[trigger] f(kv) == *kv.0;
    let ghost keys = listed.map_values(key_of);
    proof {
        assert(exists|f: spec_fn((&usize, &ToolCallStreamState)) -> usize| #[trigger]
            vstd::std_specs::btree::increasing_seq(listed.map_values(f)) && forall|
                kv: (&usize, &ToolCallStreamState),
            | #[trigger] f(kv) == *kv.0);
        vstd::std_specs::btree::axiom_increasing_seq_meaning(keys);
        assert(lists_in_order(keys, calls@.dom())) by {
            assert forall|i: int, j: int| 0 <= i < j < keys.len() implies #[trigger] keys[i]
                < #[trigger] keys[j] by {
                assert(vstd::std_specs::cmp::OrdSpec::cmp_spec(&keys[i], &keys[j]) is Less);
            }
            assert forall|k: usize| calls@.dom().contains(k) implies keys.to_set().contains(k) by {
                assert(calls@.contains_key(k));
                assert(listed.contains((&k, &calls@[k])));
                let i = choose|i: int| 0 <= i < listed.len() && listed[i] == (&k, &calls@[k]);
                assert(keys[i] == k);
            }
            assert forall|k: usize| keys.to_set().contains(k) implies calls@.dom().contains(k) by {
                let i = choose|i: int| 0 <= i < keys.len() && keys[i] == k;
                assert(calls@.contains_key(*listed[i].0));
            }
            assert(keys.to_set() =~= calls@.dom());
        }
    }
    for entry in it: source
        invariant
            it.seq() == listed,
            keys.len() == listed.len(),
            forall|i: int| 0 <= i < listed.len() ==> #[trigger] keys[i] == *listed[i].0,
            found@.len() == it.index(),
            forall|i: int| 0 <= i < found@.len() ==> #[trigger] found@[i] == keys[i],
    {
        found.push(*entry.0);
    }
    proof {
        assert(found@ =~= keys);
        lemma_one_order(keys, in_order(calls@.dom()), calls@.dom());
    }
    found
}

} // verus!
