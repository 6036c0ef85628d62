//! What holds of server-sent events, read and written.

use crate::events::{
    all_well_formed, event_data, event_name, event_text, frame_text, is_data, sse_text,
    well_formed, Event,
};
use crate::json::JsonSpec;
use crate::sse::{
    blank_line, block_end, block_payload, bytes_text, drained, field_value, first_field,
    first_line, lemma_block_end, lemma_line_len, line_len, trim_end, trim_start, trimmed,
    PayloadSpec,
};
use crate::value::{integer, is_integer, is_plain, json_text, on_one_line, parsed};
use vstd::prelude::*;
use vstd::utf8::{
    char_is_scalar, char_u32_cast, encode_scalar, encode_utf8, encode_utf8_decode_utf8,
    encode_utf8_valid_utf8,
};

verus! {

/// The first block ends where a blank line stands and none before it.
pub proof fn lemma_first_end(b: Seq<u8>, from: int, at: int)
    requires
        0 <= from <= at < b.len(),
        blank_line(b, at) > 0,
        forall|j: int| from <= j < at ==> #[trigger] blank_line(b, j) == 0,
    ensures
        block_end(b, from) == Some(at),
    decreases at - from,
{
    if from < at {
        lemma_first_end(b, from + 1, at);
    }
}

/// Where a block has ended, more bytes do not move its end.
proof fn lemma_end_stays(a: Seq<u8>, b: Seq<u8>)
    requires
        block_end(a, 0) is Some,
    ensures
        block_end(a + b, 0) == block_end(a, 0),
        blank_line(a + b, block_end(a, 0)->Some_0) == blank_line(a, block_end(a, 0)->Some_0),
{
    let at = block_end(a, 0)->Some_0;
    let all = a + b;
    lemma_block_end(a, 0);
    assert forall|j: int| 0 <= j < at implies #[trigger] blank_line(all, j) == 0 by {
        assert(blank_line(a, j) == 0);
        assert(blank_line(a, at) > 0);
        if blank_line(all, j) > 0 {
            assert(all[j] == a[j]);
            if j + 1 < a.len() {
                assert(all[j + 1] == a[j + 1]);
            }
            if j + 2 < a.len() {
                assert(all[j + 2] == a[j + 2]);
            }
            if j + 3 < a.len() {
                assert(all[j + 3] == a[j + 3]);
            }
        }
    }
    lemma_first_end(all, 0, at);
}

/// It makes no difference in what pieces the bytes of a stream arrive: the blocks that end in all
/// of them are those that end in the first piece and then those that end in what it left and the
/// second.
pub proof fn law_any_pieces(a: Seq<u8>, b: Seq<u8>)
    ensures
        drained(a + b).0 == drained(a).0 + drained(drained(a).1 + b).0,
        drained(a + b).1 == drained(drained(a).1 + b).1,
    decreases a.len(),
{
    lemma_block_end(a, 0);
    match block_end(a, 0) {
        Some(i) => {
            let n = i + blank_line(a, i);
            lemma_end_stays(a, b);
            law_any_pieces(a.skip(n), b);
            assert((a + b).take(i) =~= a.take(i));
            assert((a + b).skip(n) =~= a.skip(n) + b);
            let rest = drained(a.skip(n));
            match block_payload(a.take(i)) {
                Some(payload) => {
                    assert(seq![payload] + (rest.0 + drained(rest.1 + b).0) =~= seq![payload]
                        + rest.0 + drained(rest.1 + b).0);
                },
                None => {},
            }
        },
        None => {
            assert(Seq::empty() + drained(a + b).0 =~= drained(a + b).0);
        },
    }
}

/// No block ends in the bytes that are kept for later.
pub proof fn law_no_block_kept(b: Seq<u8>)
    ensures
        block_end(drained(b).1, 0) is None,
    decreases b.len(),
{
    lemma_block_end(b, 0);
    if let Some(i) = block_end(b, 0) {
        law_no_block_kept(b.skip(i + blank_line(b, i)));
    }
}

/// An event without the blank line that ends it.
pub open spec fn event_block(name: Seq<char>, data: Seq<char>) -> Seq<char> {
    "event: "@ + name + "\ndata: "@ + data
}

/// The length of a line that ends where a line feed stands and none before it, or with the text.
proof fn lemma_line_ends(s: Seq<char>, n: int)
    requires
        0 <= n <= s.len(),
        n < s.len() ==> s[n] == '\n',
        forall|i: int| 0 <= i < n ==> #[trigger] s[i] != '\n',
    ensures
        line_len(s) == n,
{
    lemma_line_len(s);
}

/// The line that gives the data of an event.
pub proof fn lemma_data_line(data: Seq<char>)
    requires
        is_data(data),
    ensures
        first_field("data: "@ + data, "data"@) == Some(data),
{
    reveal_strlit("data: ");
    reveal_strlit("data");
    let line = "data: "@ + data;
    assert forall|i: int| 0 <= i < line.len() implies #[trigger] line[i] != '\n' by {
        if i >= 6 {
            assert(line[i] == data[i - 6]);
        }
    }
    lemma_line_ends(line, line.len() as int);
    assert(first_line(line) =~= line);
    assert(line.take(4) =~= "data"@);
    assert(line.skip(6) =~= data);
}

/// An event that is written comes back when it is read: its lines name it and give its data.
pub proof fn law_written_event(name: Seq<char>, data: Seq<char>)
    requires
        on_one_line(name),
        is_data(data),
    ensures
        ({
            let block = event_block(name, data);
            &&& sse_text(name, data) == block + "\n\n"@
            &&& forall|i: int|
                0 <= i < block.len() - 1 ==> !(#[trigger] block[i] == '\n' && block[i + 1] == '\n')
            &&& first_field(trimmed(block), "event"@) == Some(name)
            &&& first_field(trimmed(block), "data"@) == Some(data)
            &&& trimmed(data) == data
        }),
{
    reveal_strlit("event: ");
    reveal_strlit("\ndata: ");
    reveal_strlit("data: ");
    reveal_strlit("event");
    reveal_strlit("data");
    let block = event_block(name, data);
    let n = 7 + name.len() as int;
    assert(sse_text(name, data) =~= block + "\n\n"@);
    assert forall|i: int| 0 <= i < n implies #[trigger] block[i] != '\n' && (i > 0 ==> block[i]
        != '\r') by {
        if i >= 7 {
            assert(block[i] == name[i - 7]);
        }
    }
    assert(block[n] == '\n');
    assert forall|i: int| n < i < block.len() implies #[trigger] block[i] != '\n' by {
        if i >= n + 7 {
            assert(block[i] == data[i - n - 7]);
        }
    }
    assert(block.last() == data.last());
    assert(trim_start(block) == block);
    assert(trim_end(block) == block);
    assert(trim_start(data) == data);
    assert(trim_end(data) == data);
    lemma_line_ends(block, n);
    let line = block.take(n);
    assert(first_line(block) == line);
    assert(line.take(5) =~= "event"@);
    assert(line.skip(7) =~= name);
    assert(field_value(line, "data"@) is None) by {
        assert(line.take(4)[0] == 'e');
        assert("data"@[0] == 'd');
    }
    let rest = block.skip(n + 1);
    assert(rest =~= "data: "@ + data);
    lemma_data_line(data);
}

/// An event is written, whatever its name and its data, as a line with its name, a line with its
/// data and a blank line.
pub proof fn law_event_lines(name: Seq<char>, data: Seq<char>)
    ensures
        sse_text(name, data) == seq!['e', 'v', 'e', 'n', 't', ':', ' '] + name + seq![
            '\n',
            'd',
            'a',
            't',
            'a',
            ':',
            ' ',
        ] + data + seq!['\n', '\n'],
{
    reveal_strlit("event: ");
    reveal_strlit("\ndata: ");
    reveal_strlit("\n\n");
    assert("event: "@ =~= seq!['e', 'v', 'e', 'n', 't', ':', ' ']);
    assert("\ndata: "@ =~= seq!['\n', 'd', 'a', 't', 'a', ':', ' ']);
    assert("\n\n"@ =~= seq!['\n', '\n']);
}

/// The name of an event stands on one line.
proof fn lemma_name_on_one_line(e: Event)
    ensures
        on_one_line(event_name(e)),
{
    reveal_strlit("response.created");
    reveal_strlit("response.output_item.added");
    reveal_strlit("response.content_part.added");
    reveal_strlit("response.output_text.delta");
    reveal_strlit("response.content_part.done");
    reveal_strlit("response.output_item.done");
    reveal_strlit("response.function_call_arguments.delta");
    reveal_strlit("response.function_call_arguments.done");
    reveal_strlit("response.completed");
    let name = event_name(e);
    assert forall|i: int| 0 <= i < name.len() implies #[trigger] name[i] != '\n' && name[i]
        != '\r' by {}
}

/// A well-formed event comes back when it is read: its lines give its name and its data.
pub proof fn law_event_comes_back(e: Event)
    requires
        well_formed(e),
    ensures
        ({
            let block = event_block(event_name(e), json_text(event_data(e)));
            &&& event_text(e) == block + "\n\n"@
            &&& first_field(trimmed(block), "event"@) == Some(event_name(e))
            &&& first_field(trimmed(block), "data"@) == Some(json_text(event_data(e)))
        }),
{
    lemma_name_on_one_line(e);
    law_written_event(event_name(e), json_text(event_data(e)));
}

/// The data of an event says its name.
pub proof fn law_data_names_event(e: Event)
    ensures
        event_data(e).get("type"@) == Some(JsonSpec::Text(event_name(e))),
{
    reveal_strlit("type");
    reveal_strlit("output_index");
    reveal_strlit("item");
    reveal_strlit("item_id");
    reveal_strlit("content_index");
    reveal_strlit("part");
    reveal_strlit("delta");
    reveal_strlit("arguments");
    reveal_strlit("response");
    assert("type"@[0] != "item"@[0]);
    assert("type"@[0] != "part"@[0]);
    assert("type"@.len() != "output_index"@.len());
    assert("type"@.len() != "item_id"@.len());
    assert("type"@.len() != "content_index"@.len());
    assert("type"@.len() != "delta"@.len());
    assert("type"@.len() != "arguments"@.len());
    assert("type"@.len() != "response"@.len());
}

/// The bytes of a character: that of an ASCII character is its number, and no byte of another
/// character is that of an ASCII character.
proof fn lemma_scalar_bytes(c: u32)
    by (bit_vector)
    ensures
        c <= 0x7f ==> (c & 0x7f) as u8 == c,
        (0xc0 | ((c >> 6) & 0x1f) as u8) >= 0x80,
        (0xe0 | ((c >> 12) & 0x0f) as u8) >= 0x80,
        (0xf0 | ((c >> 18) & 0x7) as u8) >= 0x80,
        (0x80 | (c & 0x3f) as u8) >= 0x80,
        (0x80 | ((c >> 6) & 0x3f) as u8) >= 0x80,
        (0x80 | ((c >> 12) & 0x3f) as u8) >= 0x80,
{
}

/// Whether no byte ends a line.
pub open spec fn bytes_on_one_line(b: Seq<u8>) -> bool {
    forall|i: int| 0 <= i < b.len() ==> #[trigger] b[i] != 10 && b[i] != 13
}

/// The bytes of a text on one line end no line.
pub proof fn lemma_bytes_on_one_line(s: Seq<char>)
    requires
        on_one_line(s),
    ensures
        bytes_on_one_line(encode_utf8(s)),
        encode_utf8(s).len() >= s.len(),
    decreases s.len(),
{
    if s.len() > 0 {
        let rest = s.drop_first();
        assert(!rest.contains('\n')) by {
            if rest.contains('\n') {
                let i = choose|i: int| 0 <= i < rest.len() && rest[i] == '\n';
                assert(s[i + 1] == '\n');
            }
        }
        assert(!rest.contains('\r')) by {
            if rest.contains('\r') {
                let i = choose|i: int| 0 <= i < rest.len() && rest[i] == '\r';
                assert(s[i + 1] == '\r');
            }
        }
        lemma_bytes_on_one_line(rest);
        assert(s[0] != '\n' && s[0] != '\r') by {
            assert(s.contains(s[0]));
        }
        let c = s[0] as u32;
        let first = encode_scalar(c);
        char_is_scalar(s[0]);
        lemma_scalar_bytes(c);
        char_u32_cast(s[0], c);
        assert(c != 10 && c != 13) by {
            assert(10u32 as char == '\n' && 13u32 as char == '\r');
        }
        assert forall|i: int| 0 <= i < first.len() implies #[trigger] first[i] != 10 && first[i]
            != 13 by {}
        assert forall|i: int| 0 <= i < encode_utf8(s).len() implies #[trigger] encode_utf8(s)[i]
            != 10 && encode_utf8(s)[i] != 13 by {
            if i < first.len() {
                assert(encode_utf8(s)[i] == first[i]);
            } else {
                assert(encode_utf8(s)[i] == encode_utf8(rest)[i - first.len()]);
            }
        }
    }
}

/// The bytes of one text after another.
proof fn lemma_bytes_add(a: Seq<char>, b: Seq<char>)
    ensures
        encode_utf8(a + b) == encode_utf8(a) + encode_utf8(b),
    decreases a.len(),
{
    if a.len() == 0 {
        assert(a + b =~= b);
        assert(encode_utf8(a) + encode_utf8(b) =~= encode_utf8(b));
    } else {
        lemma_bytes_add(a.drop_first(), b);
        assert((a + b).drop_first() =~= a.drop_first() + b);
        assert(encode_utf8(a + b) =~= encode_utf8(a) + encode_utf8(b));
    }
}

/// The bytes of line feeds.
proof fn lemma_line_feeds()
    ensures
        encode_utf8(seq!['\n']) == seq![10u8],
        encode_utf8(seq!['\n', '\n']) == seq![10u8, 10u8],
{
    reveal_with_fuel(encode_utf8, 3);
    lemma_scalar_bytes(10);
    assert(seq!['\n'].drop_first() =~= Seq::empty());
    assert(seq!['\n', '\n'].drop_first() =~= seq!['\n']);
    assert(encode_scalar('\n' as u32) =~= seq![10u8]);
    assert(encode_utf8(seq!['\n']) =~= seq![10u8]);
    assert(encode_utf8(seq!['\n', '\n']) =~= seq![10u8, 10u8]);
}

/// The bytes of an event end one block, and it holds the event without its blank line.
proof fn lemma_event_bytes(name: Seq<char>, data: Seq<char>)
    requires
        on_one_line(name),
        is_data(data),
    ensures
        ({
            let bytes = encode_utf8(sse_text(name, data));
            let block = encode_utf8(event_block(name, data));
            &&& bytes == block + seq![10u8, 10u8]
            &&& block_end(bytes, 0) == Some(block.len() as int)
            &&& blank_line(bytes, block.len() as int) == 2
        }),
{
    reveal_strlit("event: ");
    reveal_strlit("\ndata: ");
    reveal_strlit("data: ");
    reveal_strlit("\n\n");
    let head = "event: "@ + name;
    let tail = "data: "@ + data;
    let feed = seq!['\n'];
    let block = event_block(name, data);
    assert(block =~= head + feed + tail);
    assert("\n\n"@ =~= seq!['\n', '\n']);
    assert(on_one_line(head)) by {
        assert forall|i: int| 0 <= i < head.len() implies #[trigger] head[i] != '\n' && head[i]
            != '\r' by {
            if i >= 7 {
                assert(head[i] == name[i - 7]);
                assert(name.contains(name[i - 7]));
            }
        }
    }
    assert(on_one_line(tail)) by {
        assert forall|i: int| 0 <= i < tail.len() implies #[trigger] tail[i] != '\n' && tail[i]
            != '\r' by {
            if i >= 6 {
                assert(tail[i] == data[i - 6]);
                assert(data.contains(data[i - 6]));
            }
        }
    }
    law_written_event(name, data);
    lemma_bytes_on_one_line(head);
    lemma_bytes_on_one_line(tail);
    lemma_line_feeds();
    lemma_bytes_add(head, feed);
    lemma_bytes_add(head + feed, tail);
    lemma_bytes_add(block, "\n\n"@);
    let h = encode_utf8(head);
    let t = encode_utf8(tail);
    let bytes = encode_utf8(sse_text(name, data));
    assert(bytes =~= h + seq![10u8] + t + seq![10u8, 10u8]);
    let n = (h.len() + 1 + t.len()) as int;
    assert forall|i: int| 0 <= i < n implies #[trigger] blank_line(bytes, i) == 0 by {
        if i < h.len() {
            assert(bytes[i] == h[i]);
        } else if i == h.len() {
            assert(bytes[i + 1] == t[0]);
        } else {
            assert(bytes[i] == t[i - h.len() - 1]);
        }
    }
    assert(bytes[n] == 10 && bytes[n + 1] == 10);
    lemma_first_end(bytes, 0, n);
}

/// The bytes of an event are read as one block that carries its data, and none of them is left.
pub proof fn law_bytes_come_back(name: Seq<char>, data: Seq<char>)
    requires
        on_one_line(name),
        is_data(data),
    ensures
        drained(encode_utf8(sse_text(name, data))) == (
            seq![PayloadSpec::Chunk(data)],
            Seq::<u8>::empty(),
        ),
{
    broadcast use {encode_utf8_valid_utf8, encode_utf8_decode_utf8};

    reveal_strlit("[DONE]");
    let bytes = encode_utf8(sse_text(name, data));
    let block = encode_utf8(event_block(name, data));
    lemma_event_bytes(name, data);
    law_written_event(name, data);
    assert("[DONE]"@[0] != data[0]);
    assert(bytes.take(block.len() as int) =~= block);
    assert(bytes_text(block) == event_block(name, data));
    assert(block_payload(block) == Some(PayloadSpec::Chunk(data)));
    let rest = bytes.skip(block.len() as int + 2);
    assert(rest =~= Seq::empty());
    assert(drained(rest) == (Seq::<PayloadSpec>::empty(), rest));
    assert(seq![PayloadSpec::Chunk(data)] + Seq::<PayloadSpec>::empty() =~= seq![
        PayloadSpec::Chunk(data),
    ]);
}

/// What is read of events that were written: the data of each.
pub open spec fn events_read(events: Seq<Event>) -> Seq<PayloadSpec> {
    events.map_values(|e: Event| PayloadSpec::Chunk(json_text(event_data(e))))
}

/// The bytes of well-formed events are read as these events, in their order, and none is left.
pub proof fn law_events_come_back(events: Seq<Event>)
    requires
        all_well_formed(events),
    ensures
        drained(encode_utf8(frame_text(events))) == (events_read(events), Seq::<u8>::empty()),
    decreases events.len(),
{
    if events.len() == 0 {
        assert(events_read(events) =~= Seq::empty());
    } else {
        let fewer = events.drop_last();
        let e = events.last();
        assert(e == events[events.len() - 1]);
        assert(all_well_formed(fewer)) by {
            assert forall|i: int| 0 <= i < fewer.len() implies well_formed(#[trigger] fewer[i]) by {
                assert(fewer[i] == events[i]);
            }
        }
        law_events_come_back(fewer);
        lemma_name_on_one_line(e);
        law_bytes_come_back(event_name(e), json_text(event_data(e)));
        lemma_bytes_add(frame_text(fewer), event_text(e));
        let a = encode_utf8(frame_text(fewer));
        let b = encode_utf8(event_text(e));
        law_any_pieces(a, b);
        assert(Seq::<u8>::empty() + b =~= b);
        assert(events_read(fewer) + seq![PayloadSpec::Chunk(json_text(event_data(e)))]
            =~= events_read(events));
    }
}

/// The data of every event but the last has no fraction in it and is not nested deeply.
proof fn lemma_plain(e: Event)
    requires
        !(e is Completed),
    ensures
        is_plain(event_data(e), 100),
{
    reveal_with_fuel(is_plain, 6);
    assert(is_integer(integer(0)));
}

/// The data of every well-formed event but the one that completes the answer is read back as it was
/// written; of that one, where the usage it tells holds no fraction and is not nested deeply.
pub proof fn law_data_parsed(e: Event)
    requires
        well_formed(e),
        e is Completed ==> is_plain(event_data(e), 100),
    ensures
        parsed(json_text(event_data(e))) == Some(event_data(e)),
{
    if !(e is Completed) {
        lemma_plain(e);
    }
}

/// The events of two pieces of text have the same text only for the same piece of the same item,
/// and their data is read back as that item and that piece.
pub proof fn law_text_deltas(
    item_a: Seq<char>,
    delta_a: Seq<char>,
    item_b: Seq<char>,
    delta_b: Seq<char>,
)
    requires
        well_formed(Event::TextDelta { item_id: item_a, delta: delta_a }),
        well_formed(Event::TextDelta { item_id: item_b, delta: delta_b }),
    ensures
        ({
            let a = Event::TextDelta { item_id: item_a, delta: delta_a };
            let b = Event::TextDelta { item_id: item_b, delta: delta_b };
            let data = parsed(json_text(event_data(a)));
            &&& event_text(a) == event_text(b) <==> item_a == item_b && delta_a == delta_b
            &&& data is Some
            &&& data->0.get("item_id"@) == Some(JsonSpec::Text(item_a))
            &&& data->0.get("delta"@) == Some(JsonSpec::Text(delta_a))
        }),
{
    let a = Event::TextDelta { item_id: item_a, delta: delta_a };
    let b = Event::TextDelta { item_id: item_b, delta: delta_b };
    law_data_parsed(a);
    law_data_parsed(b);
    lemma_text_delta_members(item_a, delta_a);
    lemma_text_delta_members(item_b, delta_b);
    if event_text(a) == event_text(b) {
        law_event_comes_back(a);
        law_event_comes_back(b);
        reveal_strlit("\n\n");
        let x = event_block(event_name(a), json_text(event_data(a)));
        let y = event_block(event_name(b), json_text(event_data(b)));
        assert(x =~= event_text(a).take(event_text(a).len() - 2));
        assert(y =~= event_text(b).take(event_text(b).len() - 2));
        assert(json_text(event_data(a)) == json_text(event_data(b)));
    }
}

/// The item and the piece in the data of a piece of text.
proof fn lemma_text_delta_members(item_id: Seq<char>, delta: Seq<char>)
    ensures
        ({
            let data = event_data(Event::TextDelta { item_id, delta });
            &&& data.get("item_id"@) == Some(JsonSpec::Text(item_id))
            &&& data.get("delta"@) == Some(JsonSpec::Text(delta))
        }),
{
    reveal_strlit("type");
    reveal_strlit("item_id");
    reveal_strlit("output_index");
    reveal_strlit("content_index");
    reveal_strlit("delta");
    assert("item_id"@.len() != "type"@.len());
    assert("item_id"@.len() != "output_index"@.len());
    assert("item_id"@.len() != "content_index"@.len());
    assert("item_id"@.len() != "delta"@.len());
}

} // verus!
