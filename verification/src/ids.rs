//! Identifiers for the items of an answer.

use vstd::prelude::*;

verus! {

/// A lower-case hexadecimal digit.
pub open spec fn is_hex(c: char) -> bool {
    ('0' <= c && c <= '9') || ('a' <= c && c <= 'f')
}

/// The digit that carries the variant of a UUID.
pub open spec fn is_variant_digit(c: char) -> bool {
    c == '8' || c == '9' || c == 'a' || c == 'b'
}

/// Where the text of a UUID has its hyphens.
pub open spec fn is_hyphen_place(i: int) -> bool {
    i == 8 || i == 13 || i == 18 || i == 23
}

/// The text of a random UUID: thirty-two digits in five groups, with its version and variant.
pub open spec fn is_uuid_text(s: Seq<char>) -> bool {
    &&& s.len() == 36
    &&& forall|i: int| 0 <= i < 36 && is_hyphen_place(i) ==> #[trigger] s[i] == '-'
    &&& forall|i: int| 0 <= i < 36 && !is_hyphen_place(i) ==> is_hex(#[trigger] s[i])
    &&& s[14] == '4'
    &&& is_variant_digit(s[19])
}

/// An item identifier: the digits of a random UUID.
pub open spec fn is_item_id(s: Seq<char>) -> bool {
    &&& s.len() == 32
    &&& forall|i: int| 0 <= i < 32 ==> is_hex(#[trigger] s[i])
    &&& s[12] == '4'
    &&& is_variant_digit(s[16])
}

/// One where a number exceeds another, else zero.
spec fn one_if_more(i: int, bound: int) -> int {
    if i > bound {
        1
    } else {
        0
    }
}

/// How many digits stand before a place in the text of a UUID.
spec fn digits_before(i: int) -> int {
    i - one_if_more(i, 8) - one_if_more(i, 13) - one_if_more(i, 18) - one_if_more(i, 23)
}

/// Where a digit stands in the text of a UUID.
spec fn place_of_digit(j: int) -> int {
    j + one_if_more(j, 7) + one_if_more(j, 11) + one_if_more(j, 15) + one_if_more(j, 19)
}

/// `uuid::Uuid::new_v4` and its `to_string`: the hyphenated lower-case text of a random UUID. Which
/// one it is rests on the random numbers of the system.
#[verifier::external_body]
fn uuid_text() -> (r: String)
    ensures
        is_uuid_text(r@),
{
    uuid::Uuid::new_v4().to_string()
}

/// A text without its hyphens.
pub open spec fn without_hyphens(s: Seq<char>) -> Seq<char> {
    s.filter(|c: char| c != '-')
}

/// One more character.
proof fn lemma_without_hyphens(s: Seq<char>, n: int)
    requires
        0 <= n < s.len(),
    ensures
        without_hyphens(s.take(n + 1)) == if s[n] == '-' {
            without_hyphens(s.take(n))
        } else {
            without_hyphens(s.take(n)).push(s[n])
        },
{
    reveal(Seq::filter);
    assert(s.take(n + 1).drop_last() =~= s.take(n));
}

/// The digits in the first characters of the text of a UUID.
proof fn lemma_first_digits(s: Seq<char>, n: int)
    requires
        is_uuid_text(s),
        0 <= n <= 36,
    ensures
        without_hyphens(s.take(n)).len() == digits_before(n),
        forall|j: int|
            0 <= j < digits_before(n) ==> #[trigger] without_hyphens(s.take(n))[j]
                == s[place_of_digit(j)],
    decreases n,
{
    if n == 0 {
        reveal(Seq::filter);
    } else {
        lemma_first_digits(s, n - 1);
        lemma_without_hyphens(s, n - 1);
    }
}

/// The text of a random UUID without its hyphens is an item identifier.
proof fn lemma_item_id(s: Seq<char>)
    requires
        is_uuid_text(s),
    ensures
        is_item_id(without_hyphens(s)),
{
    lemma_first_digits(s, 36);
    assert(s.take(36) =~= s);
    assert(without_hyphens(s)[12] == s[place_of_digit(12)]);
    assert(without_hyphens(s)[16] == s[place_of_digit(16)]);
}

/// Drops the hyphens of a text.
pub fn drop_hyphens(text: &str) -> (r: String)
    ensures
        r@ == without_hyphens(text@),
{
    let mut kept = String::new();
    proof {
        reveal(Seq::filter);
        assert(kept@ =~= without_hyphens(text@.take(0)));
    }
    for c in it: text.chars()
        invariant
            it.seq() == text@,
            kept@ == without_hyphens(text@.take(it.index())),
    {
        proof {
            lemma_without_hyphens(text@, it.index());
        }
        if c != '-' {
            kept.push(c);
        }
    }
    assert(text@.take(text@.len() as int) =~= text@);
    kept
}

/// A new identifier: the text of a random UUID without its hyphens.
pub fn new_uuid_id() -> (r: String)
    ensures
        exists|text: Seq<char>| #[trigger] is_uuid_text(text) && r@ == without_hyphens(text),
        is_item_id(r@),
{
    let text = uuid_text();
    proof {
        lemma_item_id(text@);
    }
    drop_hyphens(text.as_str())
}

/// Dropping hyphens keeps every other character, in order: it is done character by character.
pub proof fn law_without_hyphens(s: Seq<char>, c: char)
    ensures
        without_hyphens(Seq::empty()) == Seq::<char>::empty(),
        c == '-' ==> without_hyphens(s.push(c)) == without_hyphens(s),
        c != '-' ==> without_hyphens(s.push(c)) == without_hyphens(s).push(c),
{
    reveal(Seq::filter);
    assert(s.push(c).drop_last() =~= s);
}

/// An item identifier is the text of a random UUID without its hyphens: thirty-two lower-case
/// hexadecimal digits, each of them where the text has it.
pub proof fn law_item_id(text: Seq<char>)
    requires
        is_uuid_text(text),
    ensures
        ({
            let id = text.take(8) + text.subrange(9, 13) + text.subrange(14, 18) + text.subrange(
                19,
                23,
            ) + text.skip(24);
            &&& without_hyphens(text) == id
            &&& is_item_id(id)
            &&& id.len() == 32
            &&& !id.contains('-')
        }),
{
    lemma_first_digits(text, 36);
    lemma_item_id(text);
    assert(text.take(36) =~= text);
    let id = text.take(8) + text.subrange(9, 13) + text.subrange(14, 18) + text.subrange(19, 23)
        + text.skip(24);
    assert(without_hyphens(text) =~= id);
}

/// Only such a text is an item identifier.
pub proof fn law_only_item_ids(id: Seq<char>)
    requires
        is_item_id(id),
    ensures
        id.len() == 32,
        forall|i: int|
            0 <= i < 32 ==> '0' <= #[trigger] id[i] <= '9' || 'a' <= id[i] <= 'f',
        id[12] == '4',
        id[16] == '8' || id[16] == '9' || id[16] == 'a' || id[16] == 'b',
{
}

} // verus!
