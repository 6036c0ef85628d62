//! What is read of the bytes of a stream.

use crate::events::is_data;
use crate::sse::{
    blank_line, block_end, block_payload, bytes_text, drained, field_value, first_field,
    first_line, is_white_space, lemma_block_end, lemma_line_len, line_len, lossy_text,
    text_payload, trim_end, trim_start, trimmed, PayloadSpec,
};
use crate::sse_laws::{
    bytes_on_one_line, lemma_bytes_on_one_line, lemma_data_line, lemma_first_end,
};
use crate::value::on_one_line;
use vstd::prelude::*;
use vstd::utf8::{
    decode_utf8, encode_utf8, encode_utf8_decode_utf8, encode_utf8_valid_utf8, valid_utf8,
};

verus! {

/// Whether a blank line stands at a place: two line feeds, or twice a carriage return and a line
/// feed.
pub open spec fn blank_at(b: Seq<u8>, i: int) -> bool {
    ||| 0 <= i && i + 1 < b.len() && b[i] == 10 && b[i + 1] == 10
    ||| 0 <= i && i + 3 < b.len() && b[i] == 13 && b[i + 1] == 10 && b[i + 2] == 13 && b[i + 3]
        == 10
}

/// Where no blank line stands in some bytes, they are kept, and nothing is read.
pub proof fn law_open_block(b: Seq<u8>)
    requires
        forall|i: int| 0 <= i < b.len() ==> !#[trigger] blank_at(b, i),
    ensures
        drained(b) == (Seq::<PayloadSpec>::empty(), b),
{
    lemma_block_end(b, 0);
    if let Some(i) = block_end(b, 0) {
        assert(blank_at(b, i));
    }
}

/// What stands before the first blank line is read as a block of its own, whichever of the two
/// blank lines ends it; what follows is read as if it stood alone.
pub proof fn law_first_block(block: Seq<u8>, blank: Seq<u8>, rest: Seq<u8>)
    requires
        blank == seq![10u8, 10u8] || blank == seq![13u8, 10u8, 13u8, 10u8],
        forall|i: int| 0 <= i < block.len() ==> !#[trigger] blank_at(block + blank + rest, i),
    ensures
        drained(block + blank + rest).0 == (match block_payload(block) {
            Some(payload) => seq![payload],
            None => Seq::empty(),
        }) + drained(rest).0,
        drained(block + blank + rest).1 == drained(rest).1,
{
    let b = block + blank + rest;
    let n = block.len() as int;
    assert forall|i: int| 0 <= i < n implies #[trigger] blank_line(b, i) == 0 by {
        assert(!blank_at(b, i));
    }
    assert(b[n] == blank[0] && b[n + 1] == blank[1]);
    if blank.len() == 4 {
        assert(b[n + 2] == blank[2] && b[n + 3] == blank[3]);
    }
    assert(blank_line(b, n) == blank.len());
    lemma_first_end(b, 0, n);
    assert(b.take(n) =~= block);
    assert(b.skip(n + blank.len()) =~= rest);
    assert(Seq::<PayloadSpec>::empty() + drained(rest).0 =~= drained(rest).0);
}

/// The characters that are white space: the space, the controls from the tabulator to the carriage
/// return, and outside of ASCII the next line, the no-break space, the spaces of given widths, and
/// the separators of lines and paragraphs; no other character is.
pub proof fn law_white_space(c: char)
    ensures
        c <= '\u{7f}' ==> (is_white_space(c) <==> c == ' ' || c == '\t' || c == '\n' || c == '\u{b}'
            || c == '\u{c}' || c == '\r'),
        c > '\u{7f}' ==> (is_white_space(c) <==> c == '\u{85}' || c == '\u{a0}' || c == '\u{1680}' || (
        '\u{2000}' <= c && c <= '\u{200a}') || c == '\u{2028}' || c == '\u{2029}' || c == '\u{202f}'
            || c == '\u{205f}' || c == '\u{3000}'),
{
}

/// Whether all characters are white space.
pub open spec fn all_white(s: Seq<char>) -> bool {
    forall|i: int| 0 <= i < s.len() ==> is_white_space(#[trigger] s[i])
}

/// The text that is left between white space when that is cut off at the beginning.
proof fn lemma_trim_start(s: Seq<char>) -> (white: Seq<char>)
    ensures
        s == white + trim_start(s),
        all_white(white),
        trim_start(s).len() > 0 ==> !is_white_space(trim_start(s)[0]),
    decreases s.len(),
{
    if s.len() > 0 && is_white_space(s[0]) {
        let rest = lemma_trim_start(s.drop_first());
        let white = seq![s[0]] + rest;
        let left = trim_start(s);
        assert(s =~= seq![s[0]] + (rest + left));
        assert(s =~= white + left);
        white
    } else {
        assert(s =~= Seq::empty() + s);
        Seq::empty()
    }
}

/// The text that is left between white space when that is cut off at the end.
proof fn lemma_trim_end(s: Seq<char>) -> (white: Seq<char>)
    ensures
        s == trim_end(s) + white,
        all_white(white),
        trim_end(s).len() > 0 ==> !is_white_space(trim_end(s).last()),
    decreases s.len(),
{
    if s.len() > 0 && is_white_space(s.last()) {
        let rest = lemma_trim_end(s.drop_last());
        let white = rest.push(s.last());
        let left = trim_end(s);
        assert(s =~= (left + rest).push(s.last()));
        assert(s =~= left + white);
        white
    } else {
        assert(s =~= s + Seq::empty());
        Seq::empty()
    }
}

/// Trimming cuts off white space at both ends, and nothing but that: what is left neither begins
/// nor ends with white space.
pub proof fn law_trimmed(s: Seq<char>)
    ensures
        exists|a: Seq<char>, b: Seq<char>|
            all_white(a) && all_white(b) && s == #[trigger] (a + trimmed(s) + b),
        trimmed(s).len() > 0 ==> !is_white_space(trimmed(s)[0]) && !is_white_space(
            trimmed(s).last(),
        ),
{
    let a = lemma_trim_start(s);
    let b = lemma_trim_end(trim_start(s));
    assert(s =~= a + trimmed(s) + b);
    if trimmed(s).len() > 0 {
        assert(trimmed(s)[0] == trim_start(s)[0]);
    }
}

/// The lines of a text. A line ends at a line feed, and a carriage return before that belongs to
/// the end of the line.
pub open spec fn lines(s: Seq<char>) -> Seq<Seq<char>>
    decreases s.len(),
{
    if !s.contains('\n') {
        seq![s]
    } else {
        let n = s.index_of_first('\n')->0;
        if 0 <= n < s.len() {
            let line = if n > 0 && s[n - 1] == '\r' {
                s.take(n - 1)
            } else {
                s.take(n)
            };
            seq![line] + lines(s.skip(n + 1))
        } else {
            Seq::empty()
        }
    }
}

/// The data that a line gives: what follows `data:`, without the one space that may come first.
pub open spec fn line_data(line: Seq<char>) -> Option<Seq<char>> {
    if line.len() >= 5 && line.take(5) == seq!['d', 'a', 't', 'a', ':'] {
        if line.len() > 5 && line[5] == ' ' {
            Some(line.skip(6))
        } else {
            Some(line.skip(5))
        }
    } else {
        None
    }
}

/// A line gives a field exactly where it begins with its name and a colon. The value is what comes
/// after the colon, or after the colon and one space.
pub proof fn law_field_value(field: Seq<char>, value: Seq<char>, line: Seq<char>)
    ensures
        field_value(field.push(':').push(' ') + value, field) == Some(value),
        (value.len() == 0 || value[0] != ' ') ==> field_value(field.push(':') + value, field)
            == Some(value),
        field_value(line, field) is Some <==> field.push(':').is_prefix_of(line),
{
    let n = field.len() as int;
    let spaced = field.push(':').push(' ') + value;
    assert(spaced.take(n) =~= field);
    assert(spaced.skip(n + 2) =~= value);
    let plain = field.push(':') + value;
    assert(plain.take(n) =~= field);
    assert(plain.skip(n + 1) =~= value);
    if field_value(line, field) is Some {
        assert(line.take(n + 1) =~= field.push(':')) by {
            assert forall|i: int| 0 <= i < n implies line[i] == field[i] by {
                assert(line.take(n)[i] == line[i]);
            }
        }
    }
    if field.push(':').is_prefix_of(line) {
        assert(line.take(n) =~= field);
        assert(field.push(':')[n] == ':');
    }
}

/// A line gives data exactly where it begins with the name of the field and a colon.
proof fn lemma_line_data(line: Seq<char>)
    ensures
        field_value(line, "data"@) == line_data(line),
{
    reveal_strlit("data");
    let name = seq!['d', 'a', 't', 'a', ':'];
    if line.len() >= 5 && line.take(5) == name {
        assert(line.take(4) =~= "data"@) by {
            assert forall|i: int| 0 <= i < 4 implies line.take(4)[i] == "data"@[i] by {
                assert(line.take(5)[i] == name[i]);
            }
        }
        assert(line.take(5)[4] == ':');
    } else if line.len() > 4 && line.take(4) == "data"@ && line[4] == ':' {
        assert forall|i: int| 0 <= i < 5 implies line.take(5)[i] == name[i] by {
            if i < 4 {
                assert(line.take(4)[i] == "data"@[i]);
            }
        }
        assert(line.take(5) =~= name);
    }
}

/// The first line, and those after it.
proof fn lemma_lines(s: Seq<char>)
    ensures
        lines(s).len() > 0,
        lines(s)[0] == first_line(s),
        line_len(s) < s.len() <==> s.contains('\n'),
        0 <= line_len(s) <= s.len(),
        line_len(s) < s.len() ==> lines(s).skip(1) == lines(s.skip(line_len(s) + 1)),
        line_len(s) == s.len() ==> lines(s).len() == 1,
    decreases s.len(),
{
    lemma_line_len(s);
    let n = line_len(s);
    if s.contains('\n') {
        let k = choose|k: int| 0 <= k < s.len() && s[k] == '\n';
        assert(n < s.len());
        s.index_of_first_ensures('\n');
        let m = s.index_of_first('\n')->0;
        assert(m == n) by {
            if m < n {
                assert(s[m] != '\n');
            }
        }
        assert(lines(s).skip(1) =~= lines(s.skip(n + 1)));
    } else {
        if n < s.len() {
            assert(s.contains(s[n]));
        }
        assert(first_line(s) =~= s);
    }
}

/// The data of the first of some lines that gives any.
pub open spec fn first_data(list: Seq<Seq<char>>) -> Option<Seq<char>>
    decreases list.len(),
{
    if list.len() == 0 {
        None
    } else if line_data(list[0]) is Some {
        line_data(list[0])
    } else {
        first_data(list.drop_first())
    }
}

/// The field is looked for line by line.
proof fn lemma_first_data(s: Seq<char>)
    ensures
        first_field(s, "data"@) == first_data(lines(s)),
    decreases s.len(),
{
    lemma_lines(s);
    lemma_line_data(first_line(s));
    let n = line_len(s);
    assert(lines(s).drop_first() =~= lines(s).skip(1));
    if field_value(first_line(s), "data"@) is None {
        assert(first_data(lines(s)) == first_data(lines(s).drop_first()));
        if n < s.len() {
            lemma_first_data(s.skip(n + 1));
        } else {
            assert(lines(s).drop_first().len() == 0);
            assert(first_data(lines(s).drop_first()) is None);
        }
    }
}

/// The first data among lines is found exactly where there is any.
proof fn lemma_first_data_found(list: Seq<Seq<char>>)
    ensures
        first_data(list) is Some <==> exists|i: int|
            0 <= i < list.len() && line_data(#[trigger] list[i]) is Some,
    decreases list.len(),
{
    if list.len() > 0 {
        let rest = list.drop_first();
        lemma_first_data_found(rest);
        if line_data(list[0]) is None {
            if exists|i: int| 0 <= i < rest.len() && line_data(#[trigger] rest[i]) is Some {
                let i = choose|i: int| 0 <= i < rest.len() && line_data(#[trigger] rest[i]) is Some;
                assert(list[i + 1] == rest[i]);
            }
            if exists|i: int| 0 <= i < list.len() && line_data(#[trigger] list[i]) is Some {
                let i = choose|i: int| 0 <= i < list.len() && line_data(#[trigger] list[i]) is Some;
                assert(rest[i - 1] == list[i]);
            }
        }
    }
}

/// The text of a block, once white space is cut off, carries something exactly where one of its
/// lines gives data, whatever its other lines say. What it carries is the data of the first such
/// line without the white space around it: the mark of the end where it reads so, else a chunk.
pub proof fn law_block_text(text: Seq<char>)
    ensures
        ({
            let list = lines(trimmed(text));
            let data = trimmed(first_data(list)->0);
            &&& text_payload(text) is Some <==> exists|i: int|
                0 <= i < list.len() && line_data(#[trigger] list[i]) is Some
            &&& text_payload(text) is Some ==> {
                if data == seq!['[', 'D', 'O', 'N', 'E', ']'] {
                    text_payload(text) == Some(PayloadSpec::Done)
                } else {
                    text_payload(text) == Some(PayloadSpec::Chunk(data))
                }
            }
        }),
{
    lemma_first_data(trimmed(text));
    lemma_first_data_found(lines(trimmed(text)));
    reveal_strlit("[DONE]");
    assert("[DONE]"@ =~= seq!['[', 'D', 'O', 'N', 'E', ']']);
}

/// The bytes of a block carry what the text carries that they encode; where they are no valid
/// UTF-8, what the text carries that stands in for them.
pub proof fn law_block_bytes(text: Seq<char>, bytes: Seq<u8>)
    ensures
        block_payload(encode_utf8(text)) == text_payload(text),
        valid_utf8(bytes) ==> block_payload(bytes) == text_payload(decode_utf8(bytes)),
        !valid_utf8(bytes) ==> block_payload(bytes) == text_payload(lossy_text(bytes)),
{
    broadcast use {encode_utf8_valid_utf8, encode_utf8_decode_utf8};

    assert(bytes_text(encode_utf8(text)) == text);
}

/// A block that gives data and nothing else, as a chat stream has them, is read as a chunk with
/// that data, whichever blank line ends it, and none of its bytes is left.
pub proof fn law_bare_data(data: Seq<char>, rest: Seq<u8>)
    requires
        is_data(data),
    ensures
        ({
            let block = encode_utf8(seq!['d', 'a', 't', 'a', ':', ' '] + data);
            let chunk = seq![PayloadSpec::Chunk(data)];
            let feeds = block + seq![10u8, 10u8];
            let pairs = block + seq![13u8, 10u8, 13u8, 10u8];
            &&& block_payload(block) == Some(PayloadSpec::Chunk(data))
            &&& drained(feeds) == (chunk, Seq::<u8>::empty())
            &&& drained(pairs) == (chunk, Seq::<u8>::empty())
            &&& drained(feeds + rest) == (chunk + drained(rest).0, drained(rest).1)
            &&& drained(pairs + rest) == (chunk + drained(rest).0, drained(rest).1)
        }),
{
    let line = seq!['d', 'a', 't', 'a', ':', ' '] + data;
    let block = encode_utf8(line);
    let feeds = seq![10u8, 10u8];
    let pairs = seq![13u8, 10u8, 13u8, 10u8];
    reveal_strlit("data: ");
    assert("data: "@ =~= seq!['d', 'a', 't', 'a', ':', ' ']);
    lemma_data_line(data);
    law_block_bytes(line, block);
    assert(line.last() == data.last());
    assert(trim_start(line) == line);
    assert(trim_end(line) == line);
    assert(trim_start(data) == data);
    assert(trim_end(data) == data);
    reveal_strlit("[DONE]");
    assert("[DONE]"@[0] != data[0]);
    assert(block_payload(block) == Some(PayloadSpec::Chunk(data)));
    assert(on_one_line(line)) by {
        assert forall|i: int| 0 <= i < line.len() implies #[trigger] line[i] != '\n' && line[i]
            != '\r' by {
            if i >= 6 {
                assert(line[i] == data[i - 6]);
                assert(data.contains(data[i - 6]));
            }
        }
    }
    lemma_bytes_on_one_line(line);
    let none = Seq::<u8>::empty();
    assert(drained(none) == (Seq::<PayloadSpec>::empty(), none)) by {
        law_open_block(none);
    }
    lemma_bare(block, feeds, rest);
    lemma_bare(block, pairs, rest);
    lemma_bare(block, feeds, none);
    lemma_bare(block, pairs, none);
    assert(block + feeds + none =~= block + feeds);
    assert(block + pairs + none =~= block + pairs);
    let chunk = seq![PayloadSpec::Chunk(data)];
    assert(chunk + Seq::<PayloadSpec>::empty() =~= chunk);
}

/// A block without a line end in it is read as one block.
proof fn lemma_bare(block: Seq<u8>, blank: Seq<u8>, rest: Seq<u8>)
    requires
        bytes_on_one_line(block),
        blank == seq![10u8, 10u8] || blank == seq![13u8, 10u8, 13u8, 10u8],
        block_payload(block) is Some,
    ensures
        drained(block + blank + rest) == (
            seq![block_payload(block)->0] + drained(rest).0,
            drained(rest).1,
        ),
{
    let b = block + blank + rest;
    assert forall|i: int| 0 <= i < block.len() implies !#[trigger] blank_at(b, i) by {
        assert(b[i] == block[i]);
    }
    law_first_block(block, blank, rest);
}

/// The mark of the end is read as such.
pub proof fn law_end_mark(rest: Seq<u8>)
    ensures
        ({
            let block = encode_utf8(
                seq!['d', 'a', 't', 'a', ':', ' ', '[', 'D', 'O', 'N', 'E', ']'],
            );
            drained(block + seq![10u8, 10u8] + rest) == (
                seq![PayloadSpec::Done] + drained(rest).0,
                drained(rest).1,
            )
        }),
{
    let mark = seq!['[', 'D', 'O', 'N', 'E', ']'];
    let line = seq!['d', 'a', 't', 'a', ':', ' ', '[', 'D', 'O', 'N', 'E', ']'];
    let block = encode_utf8(line);
    assert(on_one_line(line)) by {
        assert forall|i: int| 0 <= i < line.len() implies #[trigger] line[i] != '\n' && line[i]
            != '\r' by {}
    }
    assert(line.last() == ']');
    assert(trim_start(line) == line);
    assert(trim_end(line) == line);
    assert(mark.last() == ']');
    assert(trim_start(mark) == mark);
    assert(trim_end(mark) == mark);
    law_block_text(line);
    law_block_bytes(line, block);
    assert(!line.contains('\n'));
    assert(lines(line) =~= seq![line]);
    assert(line.take(5) =~= seq!['d', 'a', 't', 'a', ':']);
    assert(line.skip(6) =~= mark);
    assert(line_data(lines(line)[0]) == Some(mark));
    assert(first_data(lines(line)) == Some(mark));
    lemma_bytes_on_one_line(line);
    lemma_bare(block, seq![10u8, 10u8], rest);
}

} // verus!
