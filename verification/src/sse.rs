//! Server-sent events as they arrive: from bytes to the data of each event.

use vstd::prelude::*;
use vstd::slice::slice_subrange;
use vstd::utf8::{decode_utf8, valid_utf8};

verus! {

/// What an event of a chat answer carries.
pub enum Payload {
    /// The mark that the answer is over.
    Done,
    /// The text of a chunk.
    Chunk(String),
}

/// The model of what an event carries.
#[verifier::ext_equal]
pub enum PayloadSpec {
    Done,
    Chunk(Seq<char>),
}

impl View for Payload {
    type V = PayloadSpec;

    open spec fn view(&self) -> PayloadSpec {
        match self {
            Payload::Done => PayloadSpec::Done,
            Payload::Chunk(text) => PayloadSpec::Chunk(text@),
        }
    }
}

/// The models of several payloads.
pub open spec fn payloads_model(s: Seq<Payload>) -> Seq<PayloadSpec> {
    s.map_values(|p: Payload| p@)
}

/// The text of bytes, as `String::from_utf8_lossy` reads them.
pub uninterp spec fn lossy_text(bytes: Seq<u8>) -> Seq<char>;

/// `String::from_utf8_lossy`: the characters that the bytes encode in UTF-8. Where they are not
/// valid UTF-8, nothing is said of the characters that stand in for what is not.
#[verifier::external_body]
fn decode_lossy(bytes: &[u8]) -> (r: String)
    ensures
        r@ == lossy_text(bytes@),
        valid_utf8(bytes@) ==> r@ == decode_utf8(bytes@),
{
    String::from_utf8_lossy(bytes).into_owned()
}

/// The length of the blank line that ends a block at a place: two line feeds, or two pairs of a
/// carriage return and a line feed; zero where no block ends.
pub open spec fn blank_line(b: Seq<u8>, i: int) -> int {
    if 0 <= i && i + 4 <= b.len() && b[i] == 13 && b[i + 1] == 10 && b[i + 2] == 13 && b[i + 3]
        == 10 {
        4
    } else if 0 <= i && i + 2 <= b.len() && b[i] == 10 && b[i + 1] == 10 {
        2
    } else {
        0
    }
}

/// Where the first block ends, at a place or after it.
pub open spec fn block_end(b: Seq<u8>, from: int) -> Option<int>
    decreases b.len() - from,
{
    if from >= b.len() {
        None
    } else if blank_line(b, from) > 0 {
        Some(from)
    } else {
        block_end(b, from + 1)
    }
}

/// A white space of Unicode.
pub open spec fn is_white_space(c: char) -> bool {
    ||| '\u{9}' <= c && c <= '\u{d}'
    ||| c == ' ' || c == '\u{85}' || c == '\u{a0}' || c == '\u{1680}'
    ||| '\u{2000}' <= c && c <= '\u{200a}'
    ||| c == '\u{2028}' || c == '\u{2029}' || c == '\u{202f}' || c == '\u{205f}' || c == '\u{3000}'
}

/// A text without the white space before it.
pub open spec fn trim_start(s: Seq<char>) -> Seq<char>
    decreases s.len(),
{
    if s.len() > 0 && is_white_space(s[0]) {
        trim_start(s.drop_first())
    } else {
        s
    }
}

/// A text without the white space after it.
pub open spec fn trim_end(s: Seq<char>) -> Seq<char>
    decreases s.len(),
{
    if s.len() > 0 && is_white_space(s.last()) {
        trim_end(s.drop_last())
    } else {
        s
    }
}

/// A text without the white space around it.
pub open spec fn trimmed(s: Seq<char>) -> Seq<char> {
    trim_end(trim_start(s))
}

/// The value that a line gives a field: what follows the name and a colon, without the one space
/// that may come first.
pub open spec fn field_value(line: Seq<char>, field: Seq<char>) -> Option<Seq<char>> {
    let n = field.len() as int;
    if line.len() > n && line.take(n) == field && line[n] == ':' {
        if line.len() > n + 1 && line[n + 1] == ' ' {
            Some(line.skip(n + 2))
        } else {
            Some(line.skip(n + 1))
        }
    } else {
        None
    }
}

/// How many characters stand before the first line feed.
pub open spec fn line_len(s: Seq<char>) -> int
    decreases s.len(),
{
    if s.len() == 0 || s[0] == '\n' {
        0
    } else {
        1 + line_len(s.drop_first())
    }
}

/// The first line of a text, without what ends it.
pub open spec fn first_line(s: Seq<char>) -> Seq<char> {
    let n = line_len(s);
    if 0 < n < s.len() && s[n - 1] == '\r' {
        s.take(n - 1)
    } else {
        s.take(n)
    }
}

/// The value of the first line that gives a field.
pub open spec fn first_field(s: Seq<char>, field: Seq<char>) -> Option<Seq<char>>
    decreases s.len(),
{
    match field_value(first_line(s), field) {
        Some(value) => Some(value),
        None => if 0 <= line_len(s) < s.len() {
            first_field(s.skip(line_len(s) + 1), field)
        } else {
            None
        },
    }
}

/// The text of bytes: what they encode in UTF-8, or what `String::from_utf8_lossy` makes of them
/// where they are no valid UTF-8.
pub open spec fn bytes_text(bytes: Seq<u8>) -> Seq<char> {
    if valid_utf8(bytes) {
        decode_utf8(bytes)
    } else {
        lossy_text(bytes)
    }
}

/// What the text of a block carries; nothing where it gives no data.
pub open spec fn text_payload(text: Seq<char>) -> Option<PayloadSpec> {
    match first_field(trimmed(text), "data"@) {
        Some(value) => {
            let data = trimmed(value);
            if data == "[DONE]"@ {
                Some(PayloadSpec::Done)
            } else {
                Some(PayloadSpec::Chunk(data))
            }
        },
        None => None,
    }
}

/// What a block carries; nothing where it gives no data.
pub open spec fn block_payload(block: Seq<u8>) -> Option<PayloadSpec> {
    text_payload(bytes_text(block))
}

/// What the blocks that end in some bytes carry, and the bytes that belong to no block yet.
pub open spec fn drained(b: Seq<u8>) -> (Seq<PayloadSpec>, Seq<u8>)
    decreases b.len(),
{
    match block_end(b, 0) {
        Some(i) => if 0 <= i && i + blank_line(b, i) <= b.len() && blank_line(b, i) > 0 {
            let (later, rest) = drained(b.skip(i + blank_line(b, i)));
            match block_payload(b.take(i)) {
                Some(payload) => (seq![payload] + later, rest),
                None => (later, rest),
            }
        } else {
            (Seq::empty(), b)
        },
        None => (Seq::empty(), b),
    }
}

/// Where a block ends, it ends within the bytes, and none ends before.
pub proof fn lemma_block_end(b: Seq<u8>, from: int)
    requires
        0 <= from,
    ensures
        match block_end(b, from) {
            Some(i) => from <= i < b.len() && blank_line(b, i) > 0 && i + blank_line(b, i)
                <= b.len() && forall|j: int| from <= j < i ==> #[trigger] blank_line(b, j) == 0,
            None => forall|j: int| from <= j ==> #[trigger] blank_line(b, j) == 0,
        },
    decreases b.len() - from,
{
    if from < b.len() && blank_line(b, from) == 0 {
        lemma_block_end(b, from + 1);
    }
}

/// A line is within its text.
pub proof fn lemma_line_len(s: Seq<char>)
    ensures
        0 <= line_len(s) <= s.len(),
        line_len(s) < s.len() ==> s[line_len(s)] == '\n',
        forall|i: int| 0 <= i < line_len(s) ==> #[trigger] s[i] != '\n',
    decreases s.len(),
{
    if s.len() > 0 && s[0] != '\n' {
        lemma_line_len(s.drop_first());
        let n = line_len(s.drop_first());
        assert forall|i: int| 0 <= i < line_len(s) implies #[trigger] s[i] != '\n' by {
            if i > 0 {
                assert(s.drop_first()[i - 1] == s[i]);
            }
        }
        if n < s.drop_first().len() {
            assert(s.drop_first()[n] == s[n + 1]);
        }
    }
}

/// Whether a character is white space.
fn white_space(c: char) -> (r: bool)
    ensures
        r == is_white_space(c),
{
    ('\u{9}' <= c && c <= '\u{d}') || c == ' ' || c == '\u{85}' || c == '\u{a0}' || c == '\u{1680}'
        || ('\u{2000}' <= c && c <= '\u{200a}') || c == '\u{2028}' || c == '\u{2029}'
        || c == '\u{202f}' || c == '\u{205f}' || c == '\u{3000}'
}

/// The text without the white space around it.
fn trim(s: &[char]) -> (r: &[char])
    ensures
        r@ == trimmed(s@),
{
    let n: usize = s.len();
    let mut from: usize = 0;
    assert(s@.skip(0) =~= s@);
    while from < n && white_space(s[from])
        invariant
            from <= n,
            n == s@.len(),
            trim_start(s@) == trim_start(s@.skip(from as int)),
        decreases n - from,
    {
        assert(s@.skip(from as int).drop_first() =~= s@.skip(from + 1));
        from += 1;
    }
    let mut to: usize = n;
    assert(s@.subrange(from as int, n as int) =~= s@.skip(from as int));
    while to > from && white_space(s[to - 1])
        invariant
            from <= to <= n,
            n == s@.len(),
            trimmed(s@) == trim_end(s@.subrange(from as int, to as int)),
        decreases to,
    {
        assert(s@.subrange(from as int, to as int).drop_last() =~= s@.subrange(
            from as int,
            to - 1,
        ));
        to -= 1;
    }
    slice_subrange(s, from, to)
}

/// The value that a line gives a field.
pub fn strip_sse_field<'a>(line: &'a [char], field: &[char]) -> (r: Option<&'a [char]>)
    ensures
        match r {
            Some(value) => field_value(line@, field@) == Some(value@),
            None => field_value(line@, field@) is None,
        },
{
    let n: usize = field.len();
    let len: usize = line.len();
    if len <= n {
        return None;
    }
    let mut i: usize = 0;
    while i < n
        invariant
            i <= n < len,
            n == field@.len(),
            len == line@.len(),
            forall|k: int| 0 <= k < i ==> #[trigger] line@[k] == field@[k],
        decreases n - i,
    {
        if line[i] != field[i] {
            assert(line@.take(n as int)[i as int] != field@[i as int]);
            return None;
        }
        i += 1;
    }
    assert(line@.take(n as int) =~= field@);
    if line[n] != ':' {
        return None;
    }
    if len - n > 1 && line[n + 1] == ' ' {
        assert(line@.skip(n + 2) =~= line@.subrange(n + 2, len as int));
        Some(slice_subrange(line, n + 2, len))
    } else {
        assert(line@.skip(n + 1) =~= line@.subrange(n + 1, len as int));
        Some(slice_subrange(line, n + 1, len))
    }
}

/// The length of the first line.
fn find_line_feed(s: &[char]) -> (r: usize)
    ensures
        r == line_len(s@),
        r <= s@.len(),
{
    let n: usize = s.len();
    let mut i: usize = 0;
    assert(s@.skip(0) =~= s@);
    while i < n && s[i] != '\n'
        invariant
            i <= n,
            n == s@.len(),
            line_len(s@) == i + line_len(s@.skip(i as int)),
        decreases n - i,
    {
        assert(s@.skip(i as int).drop_first() =~= s@.skip(i + 1));
        i += 1;
    }
    i
}

/// The value of the first line that gives a field.
fn find_field<'a>(s: &'a [char], field: &[char]) -> (r: Option<&'a [char]>)
    ensures
        match r {
            Some(value) => first_field(s@, field@) == Some(value@),
            None => first_field(s@, field@) is None,
        },
{
    let len: usize = s.len();
    let mut from: usize = 0;
    assert(s@.skip(0) =~= s@);
    loop
        invariant
            from <= len,
            len == s@.len(),
            first_field(s@, field@) == first_field(s@.skip(from as int), field@),
        decreases len - from,
    {
        let rest = slice_subrange(s, from, len);
        assert(rest@ =~= s@.skip(from as int));
        let n: usize = find_line_feed(rest);
        let end: usize = if 0 < n && n < len - from && rest[n - 1] == '\r' {
            n - 1
        } else {
            n
        };
        let line = slice_subrange(rest, 0, end);
        assert(line@ =~= first_line(rest@));
        match strip_sse_field(line, field) {
            Some(value) => {
                return Some(value);
            },
            None => {
                if n < len - from {
                    assert(rest@.skip(n + 1) =~= s@.skip(from + n + 1));
                    from = from + n + 1;
                } else {
                    return None;
                }
            },
        }
    }
}

/// The characters of a string.
fn chars_of(s: &str) -> (r: Vec<char>)
    ensures
        r@ == s@,
{
    let mut chars: Vec<char> = Vec::new();
    for c in it: s.chars()
        invariant
            it.seq() == s@,
            chars@ == s@.take(it.index()),
    {
        chars.push(c);
        assert(chars@ =~= s@.take(it.index() + 1));
    }
    assert(s@.take(s@.len() as int) =~= s@);
    chars
}

/// The string of some characters.
fn string_of(s: &[char]) -> (r: String)
    ensures
        r@ == s@,
{
    let mut text = String::new();
    let n: usize = s.len();
    for i in 0..n
        invariant
            n == s@.len(),
            text@ == s@.take(i as int),
    {
        text.push(s[i]);
        assert(text@ =~= s@.take(i + 1));
    }
    assert(s@.take(n as int) =~= s@);
    text
}

/// What a block carries.
pub fn read_block(block: &[u8]) -> (r: Option<Payload>)
    ensures
        match r {
            Some(payload) => block_payload(block@) == Some(payload@),
            None => block_payload(block@) is None,
        },
{
    read_text(decode_lossy(block).as_str())
}

/// What the text of a block carries.
pub fn read_text(text: &str) -> (r: Option<Payload>)
    ensures
        match r {
            Some(payload) => text_payload(text@) == Some(payload@),
            None => text_payload(text@) is None,
        },
{
    let chars = chars_of(text);
    let field = chars_of("data");
    match find_field(trim(chars.as_slice()), field.as_slice()) {
        Some(value) => {
            let data = string_of(trim(value));
            if *data.as_str() == *"[DONE]" {
                Some(Payload::Done)
            } else {
                Some(Payload::Chunk(data))
            }
        },
        None => None,
    }
}

/// Reads the events of a stream from its bytes, in whatever pieces they arrive.
pub struct SseReader {
    pub buffer: Vec<u8>,
}

/// Where the first block ends, at a place or after it.
fn find_block_end(b: &Vec<u8>, from: usize) -> (r: Option<(usize, usize)>)
    requires
        from <= b@.len(),
    ensures
        match r {
            Some((at, len)) => from <= at && at + len <= b@.len() && len > 0 && block_end(
                b@,
                from as int,
            ) == Some(at as int) && blank_line(b@, at as int) == len,
            None => block_end(b@, from as int) is None,
        },
{
    let n: usize = b.len();
    let mut i: usize = from;
    while i < n
        invariant
            from <= i <= n,
            n == b@.len(),
            block_end(b@, from as int) == block_end(b@, i as int),
        decreases n - i,
    {
        if n - i >= 4 && b[i] == 13 && b[i + 1] == 10 && b[i + 2] == 13 && b[i + 3] == 10 {
            return Some((i, 4));
        }
        if n - i >= 2 && b[i] == 10 && b[i + 1] == 10 {
            return Some((i, 2));
        }
        i += 1;
    }
    None
}

impl SseReader {
    /// A reader to which no byte has come.
    pub fn new() -> (r: Self)
        ensures
            r.buffer@ == Seq::<u8>::empty(),
    {
        SseReader { buffer: Vec::new() }
    }

    /// Takes in bytes, and hands out what the blocks that they end carry.
    pub fn push(&mut self, bytes: &[u8]) -> (r: Vec<Payload>)
        ensures
            (payloads_model(r@), final(self).buffer@) == drained(old(self).buffer@ + bytes@),
    {
        let ghost whole = self.buffer@ + bytes@;
        let n: usize = bytes.len();
        for i in 0..n
            invariant
                n == bytes@.len(),
                self.buffer@ == old(self).buffer@ + bytes@.take(i as int),
        {
            self.buffer.push(bytes[i]);
            assert(self.buffer@ =~= old(self).buffer@ + bytes@.take(i + 1));
        }
        assert(bytes@.take(n as int) =~= bytes@);
        let mut found: Vec<Payload> = Vec::new();
        let mut from: usize = 0;
        let total: usize = self.buffer.len();
        proof {
            assert(whole.skip(0) =~= whole);
            assert(payloads_model(found@) + drained(whole).0 =~= drained(whole).0);
        }
        loop
            invariant
                total == self.buffer@.len(),
                self.buffer@ == whole,
                from <= total,
                drained(whole).0 == payloads_model(found@) + drained(whole.skip(from as int)).0,
                drained(whole).1 == drained(whole.skip(from as int)).1,
            ensures
                self.buffer@ == whole,
                from <= whole.len(),
                payloads_model(found@) == drained(whole).0,
                whole.skip(from as int) == drained(whole).1,
            decreases total - from,
        {
            let ghost rest = whole.skip(from as int);
            proof {
                lemma_block_end_skip(whole, from as int, 0);
                lemma_block_end(rest, 0);
            }
            match find_block_end(&self.buffer, from) {
                Some((at, len)) => {
                    let ghost before = found@;
                    proof {
                        assert(block_end(rest, 0) == Some(at - from));
                        assert(blank_line(rest, at - from) == len);
                        assert(rest.take(at - from) =~= whole.subrange(from as int, at as int));
                        assert(rest.skip(at - from + len) =~= whole.skip(at + len));
                    }
                    match read_block(slice_subrange(self.buffer.as_slice(), from, at)) {
                        Some(payload) => {
                            found.push(payload);
                            proof {
                                assert(payloads_model(found@) =~= payloads_model(before).push(
                                    payload@,
                                ));
                                assert(payloads_model(before) + (seq![payload@] + drained(
                                    whole.skip(at + len),
                                ).0) =~= payloads_model(found@) + drained(
                                    whole.skip(at + len),
                                ).0);
                            }
                        },
                        None => {},
                    }
                    from = at + len;
                },
                None => {
                    assert(block_end(rest, 0) is None);
                    assert(payloads_model(found@) + Seq::empty() =~= payloads_model(found@));
                    break;
                },
            }
        }
        let kept = self.buffer.split_off(from);
        assert(kept@ =~= whole.skip(from as int));
        self.buffer = kept;
        found
    }
}

/// Where a block ends does not depend on what came before it.
proof fn lemma_block_end_skip(b: Seq<u8>, k: int, from: int)
    requires
        0 <= k <= b.len(),
        0 <= from,
    ensures
        block_end(b.skip(k), from) == (match block_end(b, k + from) {
            Some(i) => Some(i - k),
            None => None,
        }),
        forall|i: int| 0 <= i ==> #[trigger] blank_line(b.skip(k), i) == blank_line(b, k + i),
    decreases b.len() - k - from,
{
    if k + from < b.len() {
        lemma_block_end_skip(b, k, from + 1);
    }
}

} // verus!
