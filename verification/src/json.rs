//! JSON values as the conversions read and build them.

use crate::value::{
    assemble, entry_keys, in_braces, integer, is_plain, json_text, map_entries, map_insert,
    map_model, map_new, number_from, on_one_line, parse_text, parsed, take_apart, value_model,
    value_text, values_model, Parts,
};
use vstd::prelude::*;

verus! {

/// A JSON number of `serde_json`. The conversions hand numbers on and never look inside.
#[verifier::external_type_specification]
#[verifier::external_body]
pub struct ExNumber(serde_json::Number);

/// `Number::clone`: the same number again.
pub assume_specification[ <serde_json::Number as Clone>::clone ](n: &serde_json::Number) -> (r:
    serde_json::Number)
    ensures
        r == *n,
;

/// What a JSON value is, whatever the order in which an object lists its members.
#[verifier::ext_equal]
pub enum JsonSpec {
    Null,
    Bool(bool),
    Number(serde_json::Number),
    Text(Seq<char>),
    Array(Seq<JsonSpec>),
    Object(Map<Seq<char>, JsonSpec>),
}

impl JsonSpec {
    /// The member of an object under a key; nothing for any other value.
    pub open spec fn get(self, key: Seq<char>) -> Option<JsonSpec> {
        match self {
            JsonSpec::Object(members) => if members.contains_key(key) {
                Some(members[key])
            } else {
                None
            },
            _ => None,
        }
    }

    /// The characters of a string; nothing for any other value.
    pub open spec fn as_str(self) -> Option<Seq<char>> {
        match self {
            JsonSpec::Text(s) => Some(s),
            _ => None,
        }
    }

    /// The items of an array; nothing for any other value.
    pub open spec fn as_array(self) -> Option<Seq<JsonSpec>> {
        match self {
            JsonSpec::Array(items) => Some(items),
            _ => None,
        }
    }

    /// The characters of the string member under a key.
    pub open spec fn get_str(self, key: Seq<char>) -> Option<Seq<char>> {
        match self.get(key) {
            Some(v) => v.as_str(),
            None => None,
        }
    }

    /// The items of the array member under a key.
    pub open spec fn get_array(self, key: Seq<char>) -> Option<Seq<JsonSpec>> {
        match self.get(key) {
            Some(v) => v.as_array(),
            None => None,
        }
    }

    /// The characters of the string member under a key, or none at all where there is no such
    /// member.
    pub open spec fn str_or_empty(self, key: Seq<char>) -> Seq<char> {
        match self.get_str(key) {
            Some(s) => s,
            None => Seq::empty(),
        }
    }
}

/// The string member of a value under a key, as a value.
pub open spec fn string_member(j: JsonSpec, key: Seq<char>) -> Option<JsonSpec> {
    match j.get_str(key) {
        Some(s) => Some(JsonSpec::Text(s)),
        None => None,
    }
}

/// The members with one set where there is a value for it.
pub open spec fn put(
    members: Map<Seq<char>, JsonSpec>,
    key: Seq<char>,
    value: Option<JsonSpec>,
) -> Map<Seq<char>, JsonSpec> {
    match value {
        Some(v) => members.insert(key, v),
        None => members,
    }
}

/// The model of a value that may be missing.
pub open spec fn option_model(value: Option<Json>) -> Option<JsonSpec> {
    match value {
        Some(v) => Some(v@),
        None => None,
    }
}

/// A JSON value.
pub enum Json {
    Null,
    Bool(bool),
    Number(serde_json::Number),
    Text(String),
    Array(Vec<Json>),
    Object(Object),
}

/// The members of a JSON object. No key occurs twice.
pub struct Object {
    entries: Vec<(String, Json)>,
}

/// The model of a value.
pub open spec fn json_model(j: Json) -> JsonSpec
    decreases j,
{
    match j {
        Json::Null => JsonSpec::Null,
        Json::Bool(b) => JsonSpec::Bool(b),
        Json::Number(n) => JsonSpec::Number(n),
        Json::Text(s) => JsonSpec::Text(s@),
        Json::Array(items) => JsonSpec::Array(items_model(items@)),
        Json::Object(o) => JsonSpec::Object(object_model(o)),
    }
}

/// The models of the values of a sequence, in order.
pub open spec fn items_model(s: Seq<Json>) -> Seq<JsonSpec>
    decreases s,
{
    if s.len() == 0 {
        Seq::empty()
    } else {
        items_model(s.drop_last()).push(json_model(s.last()))
    }
}

/// The members of an object.
pub closed spec fn object_model(o: Object) -> Map<Seq<char>, JsonSpec>
    decreases o,
{
    entries_model(o.entries@)
}

/// The members that a sequence of entries lists.
spec fn entries_model(s: Seq<(String, Json)>) -> Map<Seq<char>, JsonSpec>
    decreases s,
{
    if s.len() == 0 {
        Map::empty()
    } else {
        entries_model(s.drop_last()).insert(s.last().0@, json_model(s.last().1))
    }
}

/// Whether no key occurs twice in a sequence of entries.
spec fn keys_distinct(s: Seq<(String, Json)>) -> bool {
    forall|i: int, j: int| 0 <= i < j < s.len() ==> #[trigger] s[i].0@ != #[trigger] s[j].0@
}

impl View for Json {
    type V = JsonSpec;

    open spec fn view(&self) -> JsonSpec {
        json_model(*self)
    }
}

impl View for Object {
    type V = Map<Seq<char>, JsonSpec>;

    open spec fn view(&self) -> Map<Seq<char>, JsonSpec> {
        object_model(*self)
    }
}

/// A sequence has as many models as values, each at the place of its value.
pub broadcast proof fn lemma_items_model(s: Seq<Json>)
    ensures
        (#[trigger] items_model(s)).len() == s.len(),
        forall|i: int| 0 <= i < s.len() ==> #[trigger] items_model(s)[i] == s[i]@,
    decreases s.len(),
{
    if s.len() > 0 {
        lemma_items_model(s.drop_last());
        assert forall|i: int| 0 <= i < s.len() implies #[trigger] items_model(s)[i] == s[i]@ by {
            if i < s.len() - 1 {
                assert(items_model(s)[i] == items_model(s.drop_last())[i]);
            }
        }
    }
}

/// What entries with distinct keys list: each key with its own value, and no other key.
proof fn lemma_entries_model(s: Seq<(String, Json)>)
    requires
        keys_distinct(s),
    ensures
        forall|i: int|
            0 <= i < s.len() ==> #[trigger] entries_model(s).contains_key(s[i].0@)
                && entries_model(s)[s[i].0@] == s[i].1@,
        forall|k: Seq<char>| #[trigger]
            entries_model(s).contains_key(k) ==> exists|i: int| 0 <= i < s.len() && s[i].0@ == k,
        entries_model(s).dom().finite(),
    decreases s.len(),
{
    if s.len() > 0 {
        let rest = s.drop_last();
        assert(keys_distinct(rest));
        lemma_entries_model(rest);
        assert forall|i: int| 0 <= i < s.len() implies #[trigger] entries_model(s).contains_key(
            s[i].0@,
        ) && entries_model(s)[s[i].0@] == s[i].1@ by {
            if i < s.len() - 1 {
                assert(rest[i] == s[i]);
            }
        }
        assert forall|k: Seq<char>| #[trigger] entries_model(s).contains_key(k) implies exists|
            i: int,
        | 0 <= i < s.len() && s[i].0@ == k by {
            if k == s.last().0@ {
                assert(s[s.len() - 1].0@ == k);
            } else {
                assert(entries_model(rest).contains_key(k));
                let i = choose|i: int| 0 <= i < rest.len() && rest[i].0@ == k;
                assert(s[i].0@ == k);
            }
        }
    }
}

/// Without one of its entries, a sequence with distinct keys lists all the others.
proof fn lemma_entries_remove(s: Seq<(String, Json)>, at: int)
    requires
        keys_distinct(s),
        0 <= at < s.len(),
    ensures
        keys_distinct(s.remove(at)),
        entries_model(s.remove(at)) == entries_model(s).remove(s[at].0@),
        !entries_model(s.remove(at)).contains_key(s[at].0@),
{
    let t = s.remove(at);
    assert forall|i: int, j: int| 0 <= i < j < t.len() implies #[trigger] t[i].0@
        != #[trigger] t[j].0@ by {
        let a = if i < at { i } else { i + 1 };
        let b = if j < at { j } else { j + 1 };
        assert(t[i] == s[a] && t[j] == s[b]);
    }
    lemma_entries_model(s);
    lemma_entries_model(t);
    assert forall|k: Seq<char>| #[trigger] entries_model(t).contains_key(k) implies entries_model(
        s,
    ).contains_key(k) && k != s[at].0@ && entries_model(t)[k] == entries_model(s)[k] by {
        let i = choose|i: int| 0 <= i < t.len() && t[i].0@ == k;
        let a = if i < at { i } else { i + 1 };
        assert(t[i] == s[a]);
        assert(entries_model(t).contains_key(t[i].0@));
        assert(entries_model(s).contains_key(s[a].0@));
    }
    assert forall|k: Seq<char>| #[trigger] entries_model(s).contains_key(k) && k != s[at].0@ implies
        entries_model(t).contains_key(k) by {
        let a = choose|a: int| 0 <= a < s.len() && s[a].0@ == k;
        let i = if a < at { a } else { a - 1 };
        assert(t[i] == s[a]);
        assert(entries_model(t).contains_key(t[i].0@));
    }
    assert(entries_model(t) =~= entries_model(s).remove(s[at].0@));
}

/// The place of the entry with a key.
fn position(entries: &Vec<(String, Json)>, key: &str) -> (r: Option<usize>)
    ensures
        match r {
            Some(i) => i < entries@.len() && entries@[i as int].0@ == key@,
            None => forall|k: int| 0 <= k < entries@.len() ==> (#[trigger] entries@[k]).0@ != key@,
        },
{
    let n: usize = entries.len();
    for i in 0..n
        invariant
            n == entries@.len(),
            forall|k: int| 0 <= k < i ==> (#[trigger] entries@[k]).0@ != key@,
    {
        if *entries[i].0.as_str() == *key {
            return Some(i);
        }
    }
    None
}

impl Clone for Json {
    fn clone(&self) -> (r: Self)
        ensures
            r@ == self@,
        decreases self,
    {
        match self {
            Json::Null => Json::Null,
            Json::Bool(b) => Json::Bool(*b),
            Json::Number(n) => Json::Number(n.clone()),
            Json::Text(s) => Json::Text(s.clone()),
            Json::Array(items) => {
                let mut copy: Vec<Json> = Vec::new();
                let n: usize = items.len();
                for i in 0..n
                    invariant
                        *self == Json::Array(*items),
                        n == items@.len(),
                        copy@.len() == i,
                        forall|k: int| 0 <= k < i ==> #[trigger] copy@[k]@ == items@[k]@,
                {
                    assert(decreases_to!(*self => items@[i as int])) by {
                        assert(decreases_to!(*self => self->Array_0));
                        assert(decreases_to!(*items => items@));
                    }
                    let item = items[i].clone();
                    copy.push(item);
                }
                proof {
                    lemma_items_model(copy@);
                    lemma_items_model(items@);
                    assert(items_model(copy@) =~= items_model(items@));
                }
                Json::Array(copy)
            },
            Json::Object(o) => {
                proof {
                    use_type_invariant(o);
                }
                let mut entries: Vec<(String, Json)> = Vec::new();
                let n: usize = o.entries.len();
                for i in 0..n
                    invariant
                        *self == Json::Object(*o),
                        n == o.entries@.len(),
                        keys_distinct(o.entries@),
                        entries@.len() == i,
                        forall|k: int|
                            0 <= k < i ==> (#[trigger] entries@[k]).0@ == o.entries@[k].0@
                                && entries@[k].1@ == o.entries@[k].1@,
                        entries_model(entries@) == entries_model(o.entries@.take(i as int)),
                {
                    let key = o.entries[i].0.clone();
                    assert(decreases_to!(*self => o.entries@[i as int].1)) by {
                        assert(decreases_to!(*self => self->Object_0));
                        assert(decreases_to!(*o => o.entries));
                        assert(decreases_to!(o.entries => o.entries@));
                        assert(decreases_to!(o.entries@ => o.entries@[i as int]));
                    }
                    let value = o.entries[i].1.clone();
                    let ghost before = entries@;
                    entries.push((key, value));
                    proof {
                        assert(entries@.drop_last() =~= before);
                        assert(o.entries@.take(i + 1).drop_last() =~= o.entries@.take(i as int));
                    }
                }
                proof {
                    assert(o.entries@.take(n as int) =~= o.entries@);
                }
                Json::Object(Object { entries })
            },
        }
    }
}

/// Entries with the keys and values of a map, each once, list the map.
proof fn lemma_entries_of_map(
    s: Seq<(String, Json)>,
    keys: Seq<Seq<char>>,
    m: Map<Seq<char>, JsonSpec>,
)
    requires
        s.len() == keys.len(),
        keys.no_duplicates(),
        keys.to_set() == m.dom(),
        forall|i: int|
            0 <= i < s.len() ==> (#[trigger] s[i]).0@ == keys[i] && m[keys[i]] == s[i].1@,
    ensures
        keys_distinct(s),
        entries_model(s) == m,
{
    assert forall|i: int, j: int| 0 <= i < j < s.len() implies #[trigger] s[i].0@
        != #[trigger] s[j].0@ by {
        assert(keys[i] != keys[j]);
    }
    lemma_entries_model(s);
    assert forall|k: Seq<char>| #[trigger] entries_model(s).contains_key(k) implies m.contains_key(
        k,
    ) && m[k] == entries_model(s)[k] by {
        let i = choose|i: int| 0 <= i < s.len() && s[i].0@ == k;
        assert(entries_model(s).contains_key(s[i].0@));
        assert(keys[i] == k);
        assert(keys.to_set().contains(k));
    }
    assert forall|k: Seq<char>| #[trigger] m.contains_key(k) implies entries_model(
        s,
    ).contains_key(k) by {
        assert(keys.to_set().contains(k));
        let i = choose|i: int| 0 <= i < keys.len() && keys[i] == k;
        assert(s[i].0@ == k);
        assert(entries_model(s).contains_key(s[i].0@));
    }
    assert(entries_model(s) =~= m);
}

/// The value of the library that holds what a value of `serde_json` holds.
pub fn from_value(v: serde_json::Value) -> (r: Json)
    ensures
        r@ == value_model(v),
    decreases value_model(v),
{
    match take_apart(v) {
        Parts::Null => Json::Null,
        Parts::Bool(b) => Json::Bool(b),
        Parts::Number(n) => Json::Number(n),
        Parts::Text(s) => Json::Text(s),
        Parts::Array(items) => {
            let ghost whole = items@;
            let mut copy: Vec<Json> = Vec::new();
            for item in it: items
                invariant
                    it.seq() == whole,
                    value_model(v) == JsonSpec::Array(values_model(whole)),
                    copy@.len() == it.index(),
                    forall|k: int|
                        0 <= k < it.index() ==> #[trigger] copy@[k]@ == value_model(whole[k]),
            {
                assert(decreases_to!(value_model(v) => value_model(item))) by {
                    let models = values_model(whole);
                    assert(decreases_to!(value_model(v) => value_model(v)->Array_0));
                    assert(decreases_to!(models => models[it.index()]));
                }
                copy.push(from_value(item));
            }
            proof {
                lemma_items_model(copy@);
                assert(items_model(copy@) =~= values_model(whole));
            }
            Json::Array(copy)
        },
        Parts::Object(m) => {
            let ghost members = map_model(m);
            let listed = map_entries(m);
            let ghost whole = listed@;
            let mut entries: Vec<(String, Json)> = Vec::new();
            for entry in it: listed
                invariant
                    it.seq() == whole,
                    value_model(v) == JsonSpec::Object(members),
                    entry_keys(whole).to_set() == members.dom(),
                    forall|i: int|
                        0 <= i < whole.len() ==> members[(#[trigger] whole[i]).0@] == value_model(
                            whole[i].1,
                        ),
                    entries@.len() == it.index(),
                    forall|k: int|
                        0 <= k < it.index() ==> (#[trigger] entries@[k]).0@ == whole[k].0@
                            && entries@[k].1@ == value_model(whole[k].1),
            {
                assert(decreases_to!(value_model(v) => value_model(entry.1))) by {
                    assert(entry_keys(whole)[it.index()] == entry.0@);
                    assert(members.dom().contains(entry.0@));
                    assert(decreases_to!(value_model(v) => value_model(v)->Object_0));
                    assert(decreases_to!(members => members[entry.0@]));
                }
                let value = from_value(entry.1);
                entries.push((entry.0, value));
            }
            proof {
                lemma_entries_of_map(entries@, entry_keys(whole), members);
            }
            Json::Object(Object { entries })
        },
    }
}

impl Json {
    /// The value of `serde_json` that holds the same.
    pub fn to_value(&self) -> (r: serde_json::Value)
        ensures
            value_model(r) == self@,
        decreases self,
    {
        match self {
            Json::Null => assemble(Parts::Null),
            Json::Bool(b) => assemble(Parts::Bool(*b)),
            Json::Number(n) => assemble(Parts::Number(n.clone())),
            Json::Text(s) => assemble(Parts::Text(s.clone())),
            Json::Array(items) => {
                let mut copy: Vec<serde_json::Value> = Vec::new();
                let n: usize = items.len();
                for i in 0..n
                    invariant
                        *self == Json::Array(*items),
                        n == items@.len(),
                        copy@.len() == i,
                        forall|k: int|
                            0 <= k < i ==> value_model(#[trigger] copy@[k]) == items@[k]@,
                {
                    assert(decreases_to!(*self => items@[i as int])) by {
                        assert(decreases_to!(*self => self->Array_0));
                        assert(decreases_to!(*items => items@));
                    }
                    copy.push(items[i].to_value());
                }
                proof {
                    lemma_items_model(items@);
                    assert(values_model(copy@) =~= items_model(items@));
                }
                assemble(Parts::Array(copy))
            },
            Json::Object(o) => {
                let mut m = map_new();
                let n: usize = o.entries.len();
                for i in 0..n
                    invariant
                        *self == Json::Object(*o),
                        n == o.entries@.len(),
                        map_model(m) == entries_model(o.entries@.take(i as int)),
                {
                    assert(decreases_to!(*self => o.entries@[i as int].1)) by {
                        assert(decreases_to!(*self => self->Object_0));
                        assert(decreases_to!(*o => o.entries));
                        assert(decreases_to!(o.entries => o.entries@));
                        assert(decreases_to!(o.entries@ => o.entries@[i as int]));
                    }
                    let value = o.entries[i].1.to_value();
                    map_insert(&mut m, o.entries[i].0.clone(), value);
                    assert(o.entries@.take(i + 1).drop_last() =~= o.entries@.take(i as int));
                }
                assert(o.entries@.take(n as int) =~= o.entries@);
                assemble(Parts::Object(m))
            },
        }
    }

    /// The compact JSON text of the value.
    pub fn to_text(&self) -> (r: String)
        ensures
            r@ == json_text(self@),
            on_one_line(r@),
            self@ is Object ==> in_braces(r@),
            is_plain(self@, 100) ==> parsed(r@) == Some(self@),
    {
        match value_text(&self.to_value()) {
            Ok(s) => s,
            Err(_) => String::new(),
        }
    }

    /// The value that a JSON text tells, where it can be read.
    pub fn from_text(text: &str) -> (r: Option<Json>)
        ensures
            match r {
                Some(json) => parsed(text@) == Some(json@),
                None => parsed(text@) is None,
            },
    {
        match parse_text(text) {
            Ok(value) => Some(from_value(value)),
            Err(_) => None,
        }
    }

    /// An integer.
    pub fn integer(n: u64) -> (r: Json)
        ensures
            r@ == JsonSpec::Number(integer(n)),
    {
        Json::Number(number_from(n))
    }

    /// A string.
    pub fn text(s: &str) -> (r: Json)
        ensures
            r@ == JsonSpec::Text(s@),
    {
        Json::Text(s.to_owned())
    }

    /// The string with no character.
    pub fn empty_text() -> (r: Json)
        ensures
            r@ == JsonSpec::Text(Seq::empty()),
    {
        Json::Text(String::new())
    }

    /// A copy of the member of an object under a key.
    pub fn member(&self, key: &str) -> (r: Option<Json>)
        ensures
            option_model(r) == self@.get(key@),
    {
        match self.get(key) {
            Some(v) => Some(v.clone()),
            None => None,
        }
    }

    /// A copy of the string member of an object under a key.
    pub fn string_member(&self, key: &str) -> (r: Option<Json>)
        ensures
            option_model(r) == string_member(self@, key@),
    {
        match self.get_str(key) {
            Some(s) => Some(Json::text(s)),
            None => None,
        }
    }

    /// The member of an object under a key.
    pub fn get(&self, key: &str) -> (r: Option<&Json>)
        ensures
            match r {
                Some(v) => self@.get(key@) == Some(v@),
                None => self@.get(key@) is None,
            },
    {
        match self {
            Json::Object(o) => o.get(key),
            _ => None,
        }
    }

    /// The characters of a string.
    pub fn as_str(&self) -> (r: Option<&str>)
        ensures
            match r {
                Some(s) => self@.as_str() == Some(s@),
                None => self@.as_str() is None,
            },
    {
        match self {
            Json::Text(s) => Some(s.as_str()),
            _ => None,
        }
    }

    /// The items of an array.
    pub fn as_array(&self) -> (r: Option<&Vec<Json>>)
        ensures
            match r {
                Some(items) => self@.as_array() == Some(items_model(items@)),
                None => self@.as_array() is None,
            },
    {
        match self {
            Json::Array(items) => Some(items),
            _ => None,
        }
    }

    /// The characters of the string member under a key.
    pub fn get_str(&self, key: &str) -> (r: Option<&str>)
        ensures
            match r {
                Some(s) => self@.get_str(key@) == Some(s@),
                None => self@.get_str(key@) is None,
            },
    {
        match self.get(key) {
            Some(v) => v.as_str(),
            None => None,
        }
    }

    /// The items of the array member under a key.
    pub fn get_array(&self, key: &str) -> (r: Option<&Vec<Json>>)
        ensures
            match r {
                Some(items) => self@.get_array(key@) == Some(items_model(items@)),
                None => self@.get_array(key@) is None,
            },
    {
        match self.get(key) {
            Some(v) => v.as_array(),
            None => None,
        }
    }

    /// The characters of the string member under a key, or none at all where there is no such
    /// member.
    pub fn str_or_empty(&self, key: &str) -> (r: &str)
        ensures
            r@ == self@.str_or_empty(key@),
    {
        match self.get_str(key) {
            Some(s) => s,
            None => {
                let empty = "";
                proof {
                    reveal_strlit("");
                    assert(empty@ =~= Seq::<char>::empty());
                }
                empty
            },
        }
    }
}

impl Object {
    #[verifier::type_invariant]
    spec fn inv(self) -> bool {
        keys_distinct(self.entries@)
    }

    /// An object with no member.
    pub fn new() -> (r: Self)
        ensures
            r@ == Map::<Seq<char>, JsonSpec>::empty(),
    {
        Object { entries: Vec::new() }
    }

    /// The object with one member set, be it new or there before.
    pub fn with(self, key: &str, value: Json) -> (r: Self)
        ensures
            r@ == self@.insert(key@, value@),
    {
        proof {
            use_type_invariant(&self);
            lemma_entries_model(self.entries@);
        }
        let mut entries: Vec<(String, Json)> = self.entries;
        let ghost whole = entries@;
        if let Some(i) = position(&entries, key) {
            entries.remove(i);
            proof {
                lemma_entries_remove(whole, i as int);
            }
        }
        let ghost before = entries@;
        entries.push((key.to_owned(), value));
        proof {
            assert(entries@.drop_last() =~= before);
            assert(entries_model(entries@) =~= entries_model(whole).insert(key@, value@));
        }
        Object { entries }
    }

    /// The object with one member set where there is a value for it.
    pub fn put(self, key: &str, value: Option<Json>) -> (r: Self)
        ensures
            r@ == put(self@, key@, option_model(value)),
    {
        match value {
            Some(v) => self.with(key, v),
            None => self,
        }
    }

    /// The member under a key.
    pub fn get(&self, key: &str) -> (r: Option<&Json>)
        ensures
            match r {
                Some(v) => self@.contains_key(key@) && self@[key@] == v@,
                None => !self@.contains_key(key@),
            },
    {
        proof {
            use_type_invariant(self);
            lemma_entries_model(self.entries@);
        }
        match position(&self.entries, key) {
            Some(i) => {
                assert(entries_model(self.entries@).contains_key(self.entries@[i as int].0@));
                Some(&self.entries[i].1)
            },
            None => None,
        }
    }
}

} // verus!
