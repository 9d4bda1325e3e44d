//! What holds of messages with headers: which header gives the length of the
//! body, for any headers in any order.
use crate::desktop::lspd_frame::{
    blank_line_at, declared, declared_length, header_end, line_end, lsp_front, redeclared,
    DeclaredLength, FrontRead, LspFrameError,
};
use crate::framing::{
    colon, dropped, frame_at, header_line, headers_at, is_fault, is_received, length_header,
    line_feed, lsp_bytes, ndjson_at, ndjson_bytes, without_ending, FrameFault, FrameRead, Framed,
    FramingError, HeaderFault, HeaderLine, HeaderRead, NdjsonRead, DEFAULT_MAX_MESSAGE_SIZE,
};
use crate::framing_laws::{
    further, lemma_encoding_has_no_feed, lemma_line_feed, lemma_line_read, lemma_no_colon, lemma_read_further,
};
use crate::json::JsonView;
use crate::jsonrpc::JsonRpcMessage;
use crate::text::{
    ascii_lower, blank, char_whitespace, decimal, law_trimmed, lemma_encode_concat, number_of,
    quoted, text_at, text_starts, trimmed,
};
use vstd::prelude::*;
use vstd::utf8::{
    char_is_scalar, char_u32_cast, encode_scalar, encode_utf8, encode_utf8_decode_utf8,
    encode_utf8_valid_utf8, is_scalar, valid_utf8,
};

verus! {

/// A header: its name and its value.
pub type HeaderField = (Seq<char>, Seq<char>);

/// A header as text, on a line of its own.
pub open spec fn field_text(field: HeaderField) -> Seq<char> {
    field.0 + ":"@ + field.1 + "\r\n"@
}

/// Headers as text.
pub open spec fn block_text(fields: Seq<HeaderField>) -> Seq<char>
    decreases fields.len(),
{
    if fields.len() == 0 {
        Seq::empty()
    } else {
        field_text(fields[0]) + block_text(fields.drop_first())
    }
}

/// Whether a name and a value can stand on a line as a header.
pub open spec fn is_field(field: HeaderField) -> bool {
    !field.0.contains(':') && !field.0.contains('\n') && !field.1.contains('\n')
}

/// Whether every one of some headers can stand on a line.
pub open spec fn are_fields(fields: Seq<HeaderField>) -> bool {
    forall|i: int| 0 <= i < fields.len() ==> is_field(#[trigger] fields[i])
}

/// Whether a header is one of those that `named` picks by their names, and its
/// value is a number.
pub open spec fn gives(field: HeaderField, named: spec_fn(Seq<char>) -> bool) -> Option<usize> {
    if named(field.0) {
        Some(number_of(trimmed(field.1), usize::MAX as nat)->0 as usize)
    } else {
        None
    }
}

/// What the last header says that `named` picks by its name.
pub open spec fn last_given(
    fields: Seq<HeaderField>,
    named: spec_fn(Seq<char>) -> bool,
) -> Option<usize>
    decreases fields.len(),
{
    if fields.len() == 0 {
        None
    } else if named(fields.last().0) {
        gives(fields.last(), named)
    } else {
        last_given(fields.drop_last(), named)
    }
}

/// Whether the headers that `named` picks by their names all have numbers as
/// their values.
pub open spec fn all_numbers(
    fields: Seq<HeaderField>,
    named: spec_fn(Seq<char>) -> bool,
) -> bool {
    forall|i: int|
        0 <= i < fields.len() && named((#[trigger] fields[i]).0) ==> number_of(
            trimmed(fields[i].1),
            usize::MAX as nat,
        ) is Some
}

/// The names of the length header, in capitals or not.
pub open spec fn any_spelling() -> spec_fn(Seq<char>) -> bool {
    |name: Seq<char>| ascii_lower(name) == "content-length"@
}

/// The names of the length header in the two spellings that are usual.
pub open spec fn two_spellings() -> spec_fn(Seq<char>) -> bool {
    |name: Seq<char>| name == "Content-Length"@ || name == "content-length"@
}

proof fn lemma_last_given(
    first: HeaderField,
    rest: Seq<HeaderField>,
    named: spec_fn(Seq<char>) -> bool,
)
    ensures
        last_given(seq![first] + rest, named) == (match last_given(rest, named) {
            Some(n) => Some(n),
            None => gives(first, named),
        }),
    decreases rest.len(),
{
    let all = seq![first] + rest;
    if rest.len() == 0 {
        assert(all.drop_last() =~= Seq::<HeaderField>::empty());
        assert(all.last() == first);
        assert(last_given(all.drop_last(), named) is None);
    } else {
        lemma_last_given(first, rest.drop_last(), named);
        assert(all.drop_last() =~= seq![first] + rest.drop_last());
        assert(all.last() == rest.last());
    }
}

/// What a header line says, by the name in front of its first colon: a length
/// where the name is that of the length header, in capitals or not, and
/// nothing for any other name. An empty line ends the headers, and a line
/// without a colon is malformed.
pub proof fn law_header_line(field: HeaderField, line: Seq<char>)
    requires
        is_field(field),
        !line.contains(':'),
        !line.contains('\n'),
        line.len() > 0,
    ensures
        ascii_lower(field.0) != "content-length"@ ==> header_line(field_text(field))
            == HeaderLine::Other,
        ascii_lower(field.0) == "content-length"@ ==> header_line(field_text(field)) == (
        match number_of(trimmed(field.1), usize::MAX as nat) {
            Some(n) => HeaderLine::Length(n as usize),
            None => HeaderLine::NonNumeric(trimmed(field.1)),
        }),
        header_line("\r\n"@) == HeaderLine::Blank,
        header_line(line + "\r\n"@) == HeaderLine::Malformed(line),
        header_line(line) == HeaderLine::Malformed(line),
{
    reveal_strlit(":");
    reveal_strlit("\r\n");
    let raw = field_text(field);
    let text = field.0 + ":"@ + field.1;
    let at = field.0.len() as int;
    assert(raw.last() == "\r\n"@[1] && raw[raw.len() - 2] == "\r\n"@[0]);
    assert(without_ending(raw) =~= text);
    assert(text[at] == ":"@[0]);
    assert forall|i: int| 0 <= i < at implies #[trigger] text[i] != ':' by {
        assert(text[i] == field.0[i]);
        assert(field.0.contains(field.0[i]));
    }
    lemma_no_colon(text, 0, at);
    assert(text.take(at) =~= field.0);
    assert(text.subrange(at + 1, text.len() as int) =~= field.1);
    assert(without_ending("\r\n"@) =~= Seq::<char>::empty());
    let bare = line + "\r\n"@;
    assert(bare.last() == "\r\n"@[1] && bare[bare.len() - 2] == "\r\n"@[0]);
    assert(without_ending(bare) =~= line);
    lemma_colonless(line, 0);
    assert(line.contains(line.last()));
}

proof fn lemma_colonless(line: Seq<char>, pos: int)
    requires
        !line.contains(':'),
        0 <= pos <= line.len(),
    ensures
        colon(line, pos) == line.len(),
    decreases line.len() - pos,
{
    if pos < line.len() {
        assert(line.contains(line[pos]));
        lemma_colonless(line, pos + 1);
    }
}

/// Reading on behind some headers.
proof fn lemma_headers_read(
    buf: Seq<u8>,
    pos: int,
    fields: Seq<HeaderField>,
    at_eof: bool,
    found: Option<usize>,
)
    requires
        0 <= pos <= buf.len(),
        encode_utf8(block_text(fields)).is_prefix_of(buf.skip(pos)),
        are_fields(fields),
        all_numbers(fields, any_spelling()),
    ensures
        headers_at(buf, pos, at_eof, found) == headers_at(
            buf,
            pos + encode_utf8(block_text(fields)).len(),
            at_eof,
            match last_given(fields, any_spelling()) {
                Some(n) => Some(n),
                None => found,
            },
        ),
    decreases fields.len(),
{
    let named = any_spelling();
    if fields.len() == 0 {
        assert(block_text(fields) =~= Seq::<char>::empty());
        assert(encode_utf8(block_text(fields)).len() == 0);
    } else {
        reveal_strlit(":");
        reveal_strlit("\r\n");
        let first = fields[0];
        let rest = fields.drop_first();
        let raw = field_text(first);
        let text = first.0 + ":"@ + first.1 + seq!['\r'];
        assert(raw =~= text.push('\n'));
        lemma_encode_concat(raw, block_text(rest));
        let n = encode_utf8(raw).len() as int;
        let whole = encode_utf8(block_text(fields));
        assert(whole =~= encode_utf8(raw) + encode_utf8(block_text(rest)));
        assert forall|i: int| 0 <= i < n implies buf.subrange(pos, pos + n)[i] == encode_utf8(
            raw,
        )[i] by {
            assert(buf.skip(pos)[i] == whole[i]);
        }
        assert(buf.subrange(pos, pos + n) =~= encode_utf8(raw));
        assert forall|i: int| 0 <= i < text.len() implies #[trigger] text[i] != '\n' by {
            if i < first.0.len() {
                assert(first.0.contains(first.0[i]));
            } else if i == first.0.len() {
                assert(text[i] == ":"@[0]);
            } else if i <= first.0.len() + first.1.len() {
                assert(text[i] == first.1[i - first.0.len() - 1]);
                assert(first.1.contains(first.1[i - first.0.len() - 1]));
            }
        }
        assert(is_field(first));
        lemma_line_read(buf, pos, text, at_eof);
        law_header_line(first, seq!['x']);
        assert forall|i: int| 0 <= i < rest.len() implies is_field(#[trigger] rest[i]) by {
            assert(rest[i] == fields[i + 1]);
        }
        assert forall|i: int|
            0 <= i < rest.len() && named((#[trigger] rest[i]).0) implies number_of(
            trimmed(rest[i].1),
            usize::MAX as nat,
        ) is Some by {
            assert(rest[i] == fields[i + 1]);
        }
        let tail = encode_utf8(block_text(rest));
        assert forall|i: int| 0 <= i < tail.len() implies buf.skip(pos + n)[i] == tail[i] by {
            assert(buf.skip(pos)[n + i] == whole[n + i]);
        }
        assert(tail.is_prefix_of(buf.skip(pos + n))) by {
            assert(tail =~= buf.skip(pos + n).subrange(0, tail.len() as int));
        }
        let now = match gives(first, named) {
            Some(k) => Some(k),
            None => found,
        };
        lemma_headers_read(buf, pos + n, rest, at_eof, now);
        lemma_last_given(first, rest, named);
        assert(seq![first] + rest =~= fields);
    }
}

/// Of any headers, in any order, the last with the name of the length header,
/// in capitals or not, gives the length of the body; all others are passed
/// over. A message has exactly that many bytes behind the headers; without
/// such a header, or with a length above the bound, it is refused.
pub proof fn law_headers_give_the_length(
    fields: Seq<HeaderField>,
    body: Seq<u8>,
    rest: Seq<u8>,
    at_eof: bool,
    limit: usize,
)
    requires
        are_fields(fields),
        all_numbers(fields, any_spelling()),
    ensures
        ({
            let head = encode_utf8(block_text(fields) + "\r\n"@);
            let read = frame_at(head + body + rest, at_eof, limit);
            match last_given(fields, any_spelling()) {
                None => read == (FrameRead::Fault {
                    fault: FrameFault::Missing,
                    next: head.len() as int,
                }),
                Some(n) => {
                    &&& n > limit ==> read == (FrameRead::Fault {
                        fault: FrameFault::TooLarge(n),
                        next: head.len() as int,
                    })
                    &&& n <= limit && n == body.len() ==> read == (FrameRead::Message {
                        body,
                        next: (head.len() + body.len()) as int,
                    })
                    &&& n <= limit && n > body.len() + rest.len() && at_eof ==> read == (
                    FrameRead::Fault {
                        fault: FrameFault::UnexpectedEof,
                        next: (head.len() + body.len() + rest.len()) as int,
                    })
                    &&& n <= limit && n > body.len() + rest.len() && !at_eof ==> read
                        == FrameRead::NeedMore
                },
            }
        }),
        fields.len() > 0 ==> frame_at(encode_utf8(block_text(fields)), true, limit) == (
        FrameRead::Fault {
            fault: FrameFault::EofInHeaders,
            next: encode_utf8(block_text(fields)).len() as int,
        }),
{
    reveal_strlit("\r\n");
    let end = "\r\n"@;
    let block = block_text(fields);
    let head = encode_utf8(block + end);
    let buf = head + body + rest;
    let n = encode_utf8(block).len() as int;
    lemma_encode_concat(block, end);
    assert(encode_utf8(block).is_prefix_of(buf.skip(0))) by {
        assert(encode_utf8(block) =~= buf.skip(0).subrange(0, n));
    }
    lemma_headers_read(buf, 0, fields, at_eof, None);
    let cr = seq!['\r'];
    assert(end =~= cr.push('\n'));
    assert(buf.subrange(n, n + encode_utf8(end).len()) =~= encode_utf8(end));
    assert forall|i: int| 0 <= i < cr.len() implies #[trigger] cr[i] != '\n' by {}
    lemma_line_read(buf, n, cr, at_eof);
    assert(without_ending(end) =~= Seq::<char>::empty());
    assert(header_line(end) == HeaderLine::Blank);
    assert(head.len() == n + encode_utf8(end).len());
    assert(buf.subrange(head.len() as int, (head.len() + body.len()) as int) =~= body);
    let cut = encode_utf8(block);
    assert(cut.is_prefix_of(cut.skip(0))) by {
        assert(cut =~= cut.skip(0).subrange(0, n));
    }
    lemma_headers_read(cut, 0, fields, true, None);
    if fields.len() > 0 {
        lemma_encode_concat(field_text(fields[0]), block_text(fields.drop_first()));
        lemma_line_length(fields[0]);
        assert(cut.len() > 0);
    }
}

proof fn lemma_line_length(field: HeaderField)
    ensures
        encode_utf8(field_text(field)).len() > 0,
{
    reveal_strlit("\r\n");
    let raw = field_text(field);
    assert(raw.len() > 0);
    char_is_scalar(raw[0]);
    assert(encode_scalar(raw[0] as u32).len() > 0);
}

proof fn lemma_scalar_byte(v: u32, b: u8)
    requires
        v != b,
        b < 0x80,
        is_scalar(v),
    ensures
        forall|i: int| 0 <= i < encode_scalar(v).len() ==> #[trigger] encode_scalar(v)[i] != b,
{
    assert(v != b && v <= 0x7f ==> (v & 0x7f) as u8 != b) by (bit_vector);
    assert(b < 0x80 ==> 0xc0u8 | ((v >> 6) & 0x1f) as u8 != b && 0xe0u8 | ((v >> 12) & 0x0f) as u8
        != b && 0xf0u8 | ((v >> 18) & 0x07) as u8 != b && 0x80u8 | (v & 0x3f) as u8 != b && 0x80u8
        | ((v >> 6) & 0x3f) as u8 != b && 0x80u8 | ((v >> 12) & 0x3f) as u8 != b) by (bit_vector);
}

/// A text without a carriage return has no byte for one.
proof fn lemma_encoding_has_no_return(text: Seq<char>)
    requires
        !text.contains('\r'),
    ensures
        forall|i: int| 0 <= i < encode_utf8(text).len() ==> #[trigger] encode_utf8(text)[i] != 13,
    decreases text.len(),
{
    if text.len() > 0 {
        assert(text.contains(text[0]));
        char_is_scalar(text[0]);
        char_u32_cast(text[0], text[0] as u32);
        assert(13u32 as char == '\r');
        lemma_scalar_byte(text[0] as u32, 13);
        let rest = text.drop_first();
        assert forall|i: int| 0 <= i < rest.len() implies #[trigger] rest[i] != '\r' by {
            assert(text.contains(text[i + 1]));
        }
        lemma_encoding_has_no_return(rest);
        let head = encode_scalar(text[0] as u32);
        let tail = encode_utf8(rest);
        assert forall|i: int| 0 <= i < encode_utf8(text).len() implies #[trigger] encode_utf8(
            text,
        )[i] != 13 by {
            if i < head.len() {
                assert(encode_utf8(text)[i] == head[i]);
            } else {
                assert(encode_utf8(text)[i] == tail[i - head.len()]);
            }
        }
    }
}

/// Whether none of some headers holds a carriage return.
pub open spec fn no_returns(fields: Seq<HeaderField>) -> bool {
    forall|i: int|
        0 <= i < fields.len() ==> !(#[trigger] fields[i]).0.contains('\r') && !fields[i].1.contains(
            '\r',
        )
}

proof fn lemma_return_bytes()
    ensures
        encode_utf8("\r\n"@) == seq![13u8, 10u8],
{
    reveal_strlit("\r\n");
    let end = "\r\n"@;
    let feed = end.drop_first();
    assert(end[0] == '\r' && feed[0] == '\n');
    assert(feed.drop_first() =~= Seq::<char>::empty());
    assert(encode_utf8(feed.drop_first()) =~= Seq::<u8>::empty());
    assert('\r' as u32 == 13 && '\n' as u32 == 10);
    assert((13u32 & 0x7f) as u8 == 13u8 && (10u32 & 0x7f) as u8 == 10u8) by (bit_vector);
    assert(encode_scalar(13) =~= seq![13u8]);
    assert(encode_scalar(10) =~= seq![10u8]);
    assert(encode_utf8(feed) =~= seq![10u8]);
    assert(encode_utf8(end) =~= seq![13u8, 10u8]);
}

/// The end of some headers is where the empty line ends that follows them.
proof fn lemma_block_end(buf: Seq<u8>, pos: int, fields: Seq<HeaderField>)
    requires
        0 <= pos <= buf.len(),
        (encode_utf8(block_text(fields)) + seq![13u8, 10u8]).is_prefix_of(buf.skip(pos)),
        are_fields(fields),
        no_returns(fields),
        fields.len() > 0,
    ensures
        header_end(buf, pos) == Some(pos + encode_utf8(block_text(fields)).len() + 2),
    decreases fields.len(),
{
    reveal_strlit(":");
    reveal_strlit("\r\n");
    let first = fields[0];
    let rest = fields.drop_first();
    let line = first.0 + ":"@ + first.1;
    let raw = field_text(first);
    let whole = encode_utf8(block_text(fields)) + seq![13u8, 10u8];
    let n = encode_utf8(line).len() as int;
    lemma_return_bytes();
    assert(raw =~= line + "\r\n"@);
    lemma_encode_concat(line, "\r\n"@);
    lemma_encode_concat(raw, block_text(rest));
    let behind = encode_utf8(block_text(rest)) + seq![13u8, 10u8];
    assert(whole =~= encode_utf8(line) + seq![13u8, 10u8] + behind);
    assert(is_field(first));
    assert forall|i: int| 0 <= i < line.len() implies #[trigger] line[i] != '\r' by {
        if i < first.0.len() {
            assert(first.0.contains(first.0[i]));
        } else if i == first.0.len() {
            assert(line[i] == ":"@[0]);
        } else {
            assert(first.1.contains(first.1[i - first.0.len() - 1]));
        }
    }
    lemma_encoding_has_no_return(line);
    assert forall|i: int| 0 <= i < whole.len() implies #[trigger] buf[pos + i] == whole[i] by {
        assert(buf.skip(pos)[i] == whole[i]);
    }
    assert forall|i: int| pos <= i < pos + n implies #[trigger] buf[i] != 13 by {
        assert(buf[pos + (i - pos)] == whole[i - pos]);
        assert(whole[i - pos] == encode_utf8(line)[i - pos]);
    }
    assert(buf[pos + n] == whole[n] && whole[n] == 13);
    assert(buf[pos + (n + 1)] == whole[n + 1] && whole[n + 1] == 10);
    if rest.len() == 0 {
        assert(encode_utf8(block_text(rest)) =~= Seq::<u8>::empty());
        assert(behind =~= seq![13u8, 10u8]);
        assert(buf[pos + (n + 2)] == whole[n + 2] && whole[n + 2] == 13);
        assert(buf[pos + (n + 3)] == whole[n + 3] && whole[n + 3] == 10);
        lemma_end_at(buf, pos, pos + n);
    } else {
        let next = rest[0];
        assert(next == fields[1]);
        assert(is_field(next));
        let after = field_text(next);
        lemma_encode_concat(after, block_text(rest.drop_first()));
        assert(block_text(rest) == after + block_text(rest.drop_first()));
        let short = next.0 + ":"@ + next.1;
        assert(after =~= short + "\r\n"@);
        lemma_encode_concat(short, "\r\n"@);
        assert forall|i: int| 0 <= i < short.len() implies #[trigger] short[i] != '\r' by {
            if i < next.0.len() {
                assert(next.0.contains(next.0[i]));
            } else if i == next.0.len() {
                assert(short[i] == ":"@[0]);
            } else {
                assert(next.1.contains(next.1[i - next.0.len() - 1]));
            }
        }
        lemma_encoding_has_no_return(short);
        assert(short.len() > 0);
        char_is_scalar(short[0]);
        assert(encode_scalar(short[0] as u32).len() > 0);
        assert(encode_utf8(short).len() > 0);
        assert(behind[0] == encode_utf8(short)[0]);
        assert(buf[pos + (n + 2)] == whole[n + 2] && whole[n + 2] == behind[0]);
        lemma_no_end_before(buf, pos, pos + n);
        assert(!blank_line_at(buf, pos + n));
        assert(!blank_line_at(buf, pos + n + 1));
        assert forall|i: int| 0 <= i < rest.len() implies is_field(#[trigger] rest[i]) by {
            assert(rest[i] == fields[i + 1]);
        }
        assert forall|i: int|
            0 <= i < rest.len() implies !(#[trigger] rest[i]).0.contains('\r')
            && !rest[i].1.contains('\r') by {
            assert(rest[i] == fields[i + 1]);
        }
        let p = pos + n + 2;
        assert(behind.is_prefix_of(buf.skip(p))) by {
            assert forall|i: int| 0 <= i < behind.len() implies #[trigger] behind[i] == buf.skip(
                p,
            ).subrange(0, behind.len() as int)[i] by {
                assert(buf[pos + (n + 2 + i)] == whole[n + 2 + i]);
            }
            assert(behind =~= buf.skip(p).subrange(0, behind.len() as int));
        }
        lemma_block_end(buf, p, rest);
        assert(header_end(buf, pos + n + 1) == header_end(buf, p));
        assert(header_end(buf, pos + n) == header_end(buf, pos + n + 1));
    }
}

proof fn lemma_no_end_before(buf: Seq<u8>, pos: int, at: int)
    requires
        0 <= pos <= at,
        at + 4 <= buf.len(),
        forall|i: int| pos <= i < at ==> #[trigger] buf[i] != 13,
    ensures
        header_end(buf, pos) == header_end(buf, at),
    decreases at - pos,
{
    if pos < at {
        assert(buf[pos] != 13);
        lemma_no_end_before(buf, pos + 1, at);
    }
}

proof fn lemma_end_at(buf: Seq<u8>, pos: int, at: int)
    requires
        0 <= pos <= at,
        at + 4 <= buf.len(),
        buf[at] == 13 && buf[at + 1] == 10 && buf[at + 2] == 13 && buf[at + 3] == 10,
        forall|i: int| pos <= i < at ==> #[trigger] buf[i] != 13,
    ensures
        header_end(buf, pos) == Some(at + 4),
{
    lemma_no_end_before(buf, pos, at);
    assert(blank_line_at(buf, at));
}

proof fn lemma_line_end_at(text: Seq<char>, pos: int, at: int)
    requires
        0 <= pos <= at,
        at + 2 <= text.len(),
        text[at] == '\r' && text[at + 1] == '\n',
        forall|i: int| pos <= i < at ==> #[trigger] text[i] != '\r',
    ensures
        line_end(text, pos) == at,
    decreases at - pos,
{
    if pos < at {
        assert(text[pos] != '\r');
        lemma_line_end_at(text, pos + 1, at);
    }
}

/// What a header line declares: the value, without white space around it,
/// where the name is the length header's in one of the two spellings, and
/// else nothing.
pub proof fn law_declared(field: HeaderField)
    requires
        !field.0.contains(':'),
    ensures
        field.0 == "Content-Length"@ || field.0 == "content-length"@ ==> declared(
            field.0 + ":"@ + field.1,
        ) == Some(trimmed(field.1)),
        field.0 != "Content-Length"@ && field.0 != "content-length"@ ==> declared(
            field.0 + ":"@ + field.1,
        ) is None,
{
    reveal_strlit(":");
    reveal_strlit("Content-Length");
    reveal_strlit("content-length");
    reveal_strlit("Content-Length:");
    reveal_strlit("content-length:");
    let line = field.0 + ":"@ + field.1;
    let n = field.0.len() as int;
    assert(line[n] == ":"@[0]);
    assert("Content-Length:"@ =~= "Content-Length"@ + ":"@);
    assert("content-length:"@ =~= "content-length"@ + ":"@);
    if field.0 == "Content-Length"@ || field.0 == "content-length"@ {
        assert(line.skip(15) =~= field.1);
        assert(line.subrange(0, 15) =~= field.0 + ":"@);
        assert(text_at(line, 0, field.0 + ":"@));
    } else {
        if text_starts(line, "Content-Length:"@) {
            lemma_same_name(field, line, "Content-Length"@);
        }
        if text_starts(line, "content-length:"@) {
            lemma_same_name(field, line, "content-length"@);
        }
    }
}

proof fn lemma_same_name(field: HeaderField, line: Seq<char>, name: Seq<char>)
    requires
        !field.0.contains(':'),
        !name.contains(':'),
        line == field.0 + ":"@ + field.1,
        text_starts(line, name + ":"@),
    ensures
        field.0 == name,
{
    reveal_strlit(":");
    let start = name + ":"@;
    assert(line.subrange(0, start.len() as int) == start);
    assert forall|i: int| 0 <= i < start.len() implies line[i] == start[i] by {
        assert(line.subrange(0, start.len() as int)[i] == line[i]);
    }
    let n = field.0.len() as int;
    let m = name.len() as int;
    assert(line[n] == ':' && start[m] == ':');
    if n < m {
        assert(name[n] == line[n]);
        assert(name.contains(name[n]));
    }
    if m < n {
        assert(field.0[m] == line[m]);
        assert(field.0.contains(field.0[m]));
    }
    assert(field.0 =~= name) by {
        assert forall|i: int| 0 <= i < n implies field.0[i] == name[i] by {
            assert(line[i] == start[i]);
        }
    }
}

proof fn lemma_declared_read(
    text: Seq<char>,
    pos: int,
    fields: Seq<HeaderField>,
    found: Option<usize>,
)
    requires
        0 <= pos <= text.len(),
        text.skip(pos) == block_text(fields) + "\r\n"@,
        are_fields(fields),
        no_returns(fields),
        all_numbers(fields, two_spellings()),
    ensures
        declared_length(text, pos, found) == (match last_given(fields, two_spellings()) {
            Some(n) => DeclaredLength::Length(n),
            None => match found {
                Some(n) => DeclaredLength::Length(n),
                None => DeclaredLength::Missing,
            },
        }),
    decreases fields.len(),
{
    reveal_strlit("\r\n");
    reveal_strlit(":");
    reveal_strlit("Content-Length:");
    reveal_strlit("content-length:");
    let named = two_spellings();
    let tail = text.skip(pos);
    let total = text.len() as int;
    if fields.len() == 0 {
        assert(tail =~= "\r\n"@);
        assert(text[pos] == tail[0] && text[pos + 1] == tail[1]);
        lemma_line_end_at(text, pos, pos);
        assert(text.subrange(pos, pos) =~= Seq::<char>::empty());
        assert(declared(Seq::<char>::empty()) is None);
        let last = text.subrange(total, line_end(text, total));
        assert(last =~= Seq::<char>::empty());
        assert(declared_length(text, total, found) == (match found {
            Some(n) => DeclaredLength::Length(n),
            None => DeclaredLength::Missing,
        }));
    } else {
        let first = fields[0];
        let rest = fields.drop_first();
        let line = first.0 + ":"@ + first.1;
        let n = line.len() as int;
        assert(is_field(first));
        let behind = block_text(rest) + "\r\n"@;
        assert(tail =~= line + "\r\n"@ + behind);
        assert forall|i: int| 0 <= i < tail.len() implies #[trigger] text[pos + i] == tail[i] by {}
        assert forall|i: int| pos <= i < pos + n implies #[trigger] text[i] != '\r' by {
            let k = i - pos;
            assert(text[pos + k] == tail[k]);
            if k < first.0.len() {
                assert(first.0.contains(first.0[k]));
            } else if k == first.0.len() {
                assert(tail[k] == ":"@[0]);
            } else {
                assert(first.1.contains(first.1[k - first.0.len() - 1]));
            }
        }
        assert(text[pos + n] == tail[n] && text[pos + (n + 1)] == tail[n + 1]);
        lemma_line_end_at(text, pos, pos + n);
        assert(text.subrange(pos, pos + n) =~= line);
        law_declared(first);
        assert(tail.skip(n + 2) =~= behind);
        assert(text.skip(pos + n + 2) =~= tail.skip(n + 2));
        assert forall|i: int| 0 <= i < rest.len() implies is_field(#[trigger] rest[i]) by {
            assert(rest[i] == fields[i + 1]);
        }
        assert forall|i: int|
            0 <= i < rest.len() implies !(#[trigger] rest[i]).0.contains('\r')
            && !rest[i].1.contains('\r') by {
            assert(rest[i] == fields[i + 1]);
        }
        assert forall|i: int|
            0 <= i < rest.len() && named((#[trigger] rest[i]).0) implies number_of(
            trimmed(rest[i].1),
            usize::MAX as nat,
        ) is Some by {
            assert(rest[i] == fields[i + 1]);
        }
        let now = match gives(first, named) {
            Some(k) => Some(k),
            None => found,
        };
        assert(redeclared(line, found) == Some(now));
        lemma_declared_read(text, pos + n + 2, rest, now);
        lemma_last_given(first, rest, named);
        assert(seq![first] + rest =~= fields);
    }
}

/// Of any headers that a language server sends, in any order, the last that
/// is named `Content-Length` or `content-length` gives the length of the body;
/// all others are passed over. The body is exactly that many bytes behind the
/// headers.
pub proof fn law_server_headers_give_the_length(
    fields: Seq<HeaderField>,
    text: Seq<char>,
    rest: Seq<u8>,
    at_eof: bool,
)
    requires
        fields.len() > 0,
        are_fields(fields),
        no_returns(fields),
        all_numbers(fields, two_spellings()),
    ensures
        ({
            let head = encode_utf8(block_text(fields) + "\r\n"@);
            let body = encode_utf8(text);
            let read = lsp_front(head + body + rest, at_eof);
            match last_given(fields, two_spellings()) {
                None => read == FrontRead::Fault(LspFrameError::LengthMissing),
                Some(n) => {
                    &&& n == body.len() ==> read == (FrontRead::Message {
                        text,
                        used: (head.len() + body.len()) as int,
                    })
                    &&& n > body.len() + rest.len() && at_eof ==> read == FrontRead::Fault(
                        LspFrameError::EofInBody,
                    )
                    &&& n > body.len() + rest.len() && !at_eof ==> read == FrontRead::NeedMore
                },
            }
        }),
        lsp_front(Seq::empty(), true) == FrontRead::Over,
        lsp_front(Seq::empty(), false) == FrontRead::NeedMore,
{
    let block = block_text(fields);
    let head = encode_utf8(block + "\r\n"@);
    let body = encode_utf8(text);
    let buf = head + body + rest;
    lemma_encode_concat(block, "\r\n"@);
    lemma_return_bytes();
    assert(head.is_prefix_of(buf.skip(0))) by {
        assert(head =~= buf.skip(0).subrange(0, head.len() as int));
    }
    lemma_block_end(buf, 0, fields);
    let start = head.len() as int;
    assert(buf.take(start) =~= head);
    encode_utf8_valid_utf8(block + "\r\n"@);
    encode_utf8_decode_utf8(block + "\r\n"@);
    encode_utf8_valid_utf8(text);
    encode_utf8_decode_utf8(text);
    let all = block + "\r\n"@;
    assert(all.skip(0) =~= all);
    lemma_declared_read(all, 0, fields, None);
    assert(buf.subrange(start, start + body.len()) =~= body);
}

/// Blank lines in front of a message are passed over. The last line of a
/// stream needs no line end once nothing follows; until then more is waited
/// for.
pub proof fn law_lines(line: Seq<char>, text: Seq<char>, rest: Seq<u8>, at_eof: bool)
    requires
        !line.contains('\n'),
        blank(line),
        !text.contains('\n'),
        !blank(text),
    ensures
        ndjson_at(encode_utf8(line.push('\n')) + rest, 0, at_eof) == further(
            ndjson_at(rest, 0, at_eof),
            encode_utf8(line.push('\n')).len() as int,
        ),
        ndjson_at(encode_utf8(text), 0, true) == (NdjsonRead::Message {
            text: trimmed(text),
            next: encode_utf8(text).len() as int,
        }),
        ndjson_at(encode_utf8(text), 0, false) == (NdjsonRead::NeedMore { next: 0 }),
        ndjson_at(Seq::empty(), 0, true) == (NdjsonRead::Over { next: 0 }),
        ndjson_at(Seq::empty(), 0, false) == (NdjsonRead::NeedMore { next: 0 }),
{
    let raw = line.push('\n');
    let n = encode_utf8(raw).len() as int;
    let buf = encode_utf8(raw) + rest;
    assert(buf.subrange(0, n) =~= encode_utf8(raw));
    assert forall|i: int| 0 <= i < line.len() implies #[trigger] line[i] != '\n' by {
        assert(line.contains(line[i]));
    }
    lemma_line_read(buf, 0, line, at_eof);
    assert(blank(raw)) by {
        assert forall|i: int| 0 <= i < raw.len() implies char_whitespace(
            #[trigger] raw[i],
        ) by {
            if i < line.len() {
                assert(raw[i] == line[i]);
            }
        }
    }
    law_trimmed(raw, raw, raw, raw);
    law_trimmed(text, text, text, text);
    lemma_read_further(buf, n, 0, at_eof);
    assert(dropped(buf, n) =~= rest);
    let bytes = encode_utf8(text);
    assert forall|i: int| 0 <= i < text.len() implies #[trigger] text[i] != '\n' by {
        assert(text.contains(text[i]));
    }
    lemma_encoding_has_no_feed(text);
    lemma_feedless(bytes, 0);
    assert(bytes.subrange(0, bytes.len() as int) =~= bytes);
    encode_utf8_valid_utf8(text);
    encode_utf8_decode_utf8(text);
    if bytes.len() == 0 {
        encode_utf8_decode_utf8(Seq::<char>::empty());
        assert(encode_utf8(Seq::<char>::empty()) =~= bytes);
        assert(text =~= Seq::<char>::empty());
    }
}

proof fn lemma_feedless(buf: Seq<u8>, pos: int)
    requires
        0 <= pos <= buf.len(),
        forall|i: int| 0 <= i < buf.len() ==> #[trigger] buf[i] != 10,
    ensures
        line_feed(buf, pos) == buf.len(),
    decreases buf.len() - pos,
{
    if pos < buf.len() {
        assert(buf[pos] != 10);
        lemma_feedless(buf, pos + 1);
    }
}

/// How messages are written: the body and a line feed, or a length header,
/// an empty line and the body.
pub proof fn law_written_frames(body: Seq<u8>)
    ensures
        ndjson_bytes(body) == body + seq![10u8],
        lsp_bytes(body) == encode_utf8("Content-Length: "@) + encode_utf8(decimal(body.len()))
            + seq![13u8, 10u8, 13u8, 10u8] + body,
        DEFAULT_MAX_MESSAGE_SIZE == 16 * 1024 * 1024,
{
    lemma_return_bytes();
    reveal_strlit("\r\n");
    reveal_strlit("\r\n\r\n");
    lemma_encode_concat("Content-Length: "@, decimal(body.len()));
    lemma_encode_concat("Content-Length: "@ + decimal(body.len()), "\r\n\r\n"@);
    assert("\r\n\r\n"@ =~= "\r\n"@ + "\r\n"@);
    lemma_encode_concat("\r\n"@, "\r\n"@);
    assert(encode_utf8("\r\n\r\n"@) =~= seq![13u8, 10u8, 13u8, 10u8]);
    assert(length_header(body.len()) == "Content-Length: "@ + decimal(body.len()) + "\r\n\r\n"@);
    assert(lsp_bytes(body) =~= encode_utf8("Content-Length: "@) + encode_utf8(decimal(body.len()))
        + seq![13u8, 10u8, 13u8, 10u8] + body);
}

/// What is said of each fault in the headers.
pub proof fn law_header_fault_texts(shown: String)
    ensures
        HeaderFault::UnexpectedEof.text() == "unexpected EOF inside header block"@,
        HeaderFault::MalformedLine(shown).text() == "malformed header line: "@ + quoted(shown@),
        HeaderFault::NonNumeric(shown).text() == "non-numeric Content-Length: "@ + quoted(shown@),
        HeaderFault::Missing.text() == "missing Content-Length header"@,
{
}

/// Which error each fault of a stream becomes.
pub proof fn law_fault_errors(e: FramingError, text: Seq<char>, size: usize, limit: usize)
    ensures
        is_fault(e, FrameFault::NotText, limit) ==> e is NotText,
        is_fault(e, FrameFault::UnexpectedEof, limit) ==> e is UnexpectedEof,
        is_fault(e, FrameFault::EofInHeaders, limit) ==> e == FramingError::InvalidContentLength(
            HeaderFault::UnexpectedEof,
        ),
        is_fault(e, FrameFault::Missing, limit) ==> e == FramingError::InvalidContentLength(
            HeaderFault::Missing,
        ),
        is_fault(e, FrameFault::Malformed(text), limit) ==> (e matches
            FramingError::InvalidContentLength(HeaderFault::MalformedLine(s)) && s@ == text),
        is_fault(e, FrameFault::NonNumeric(text), limit) ==> (e matches
            FramingError::InvalidContentLength(HeaderFault::NonNumeric(s)) && s@ == text),
        is_fault(e, FrameFault::TooLarge(size), limit) ==> e == (FramingError::MessageTooLarge {
            size,
            limit,
        }),
{
}

/// A message that could be read is handed on as it was read, and one that
/// could not as the error that reading gave.
pub proof fn law_received(
    r: Result<Framed<JsonRpcMessage>, FramingError>,
    v: JsonView,
    e: serde_json::Error,
)
    ensures
        is_received(r, Ok::<JsonView, serde_json::Error>(v)) ==> (r matches Ok(Framed::Message(m))
            && m.0@ == v),
        is_received(r, Err::<JsonView, serde_json::Error>(e)) ==> (r matches Err(
            FramingError::Parse(said),
        ) && said == e),
{
}

/// Bytes on a line that are no text are refused, and used up with the line.
pub proof fn law_not_text(line: Seq<u8>, rest: Seq<u8>, at_eof: bool, limit: usize)
    requires
        !line.contains(10),
        !valid_utf8(line.push(10)),
    ensures
        frame_at(line.push(10) + rest, at_eof, limit) == (FrameRead::Fault {
            fault: FrameFault::NotText,
            next: line.len() as int + 1,
        }),
        ndjson_at(line.push(10) + rest, 0, at_eof) == (NdjsonRead::NotText {
            next: line.len() as int + 1,
        }),
{
    let raw = line.push(10);
    let buf = raw + rest;
    let n = line.len() as int;
    assert forall|i: int| 0 <= i < n implies #[trigger] buf[i] != 10 by {
        assert(buf[i] == line[i]);
        assert(line.contains(line[i]));
    }
    assert(buf[0 + n] == 10);
    lemma_line_feed(buf, 0, n);
    assert(buf.subrange(0, n + 1) =~= raw);
}

/// A length that is no number is refused with what stands in its place, and a
/// line without a colon as it is; what follows does not matter.
pub proof fn law_bad_header(
    fields: Seq<HeaderField>,
    bad: HeaderField,
    line: Seq<char>,
    rest: Seq<u8>,
    at_eof: bool,
    limit: usize,
)
    requires
        are_fields(fields),
        all_numbers(fields, any_spelling()),
        is_field(bad),
        ascii_lower(bad.0) == "content-length"@,
        number_of(trimmed(bad.1), usize::MAX as nat) is None,
        !line.contains(':'),
        !line.contains('\n'),
        line.len() > 0,
    ensures
        ({
            let head = encode_utf8(block_text(fields) + field_text(bad));
            frame_at(head + rest, at_eof, limit) == (FrameRead::Fault {
                fault: FrameFault::NonNumeric(trimmed(bad.1)),
                next: head.len() as int,
            })
        }),
        ({
            let head = encode_utf8(block_text(fields) + (line + "\r\n"@));
            frame_at(head + rest, at_eof, limit) == (FrameRead::Fault {
                fault: FrameFault::Malformed(line),
                next: head.len() as int,
            })
        }),
{
    reveal_strlit(":");
    reveal_strlit("\r\n");
    let block = block_text(fields);
    let text = bad.0 + ":"@ + bad.1 + seq!['\r'];
    assert(field_text(bad) =~= text.push('\n'));
    assert forall|i: int| 0 <= i < text.len() implies #[trigger] text[i] != '\n' by {
        if i < bad.0.len() {
            assert(bad.0.contains(bad.0[i]));
        } else if i == bad.0.len() {
            assert(text[i] == ":"@[0]);
        } else if i <= bad.0.len() + bad.1.len() {
            assert(bad.1.contains(bad.1[i - bad.0.len() - 1]));
        }
    }
    law_header_line(bad, line);
    lemma_line_behind(fields, text, rest, at_eof);
    let bare = line + seq!['\r'];
    assert(line + "\r\n"@ =~= bare.push('\n'));
    assert forall|i: int| 0 <= i < bare.len() implies #[trigger] bare[i] != '\n' by {
        if i < line.len() {
            assert(line.contains(line[i]));
        }
    }
    lemma_line_behind(fields, bare, rest, at_eof);
}

/// Reading the line behind some headers.
proof fn lemma_line_behind(
    fields: Seq<HeaderField>,
    text: Seq<char>,
    rest: Seq<u8>,
    at_eof: bool,
)
    requires
        are_fields(fields),
        all_numbers(fields, any_spelling()),
        forall|i: int| 0 <= i < text.len() ==> #[trigger] text[i] != '\n',
    ensures
        ({
            let head = encode_utf8(block_text(fields) + text.push('\n'));
            match header_line(text.push('\n')) {
                HeaderLine::Malformed(line) => headers_at(head + rest, 0, at_eof, None) == (
                HeaderRead::Malformed { line, next: head.len() as int }),
                HeaderLine::NonNumeric(value) => headers_at(head + rest, 0, at_eof, None) == (
                HeaderRead::NonNumeric { value, next: head.len() as int }),
                _ => true,
            }
        }),
{
    let block = block_text(fields);
    let raw = text.push('\n');
    let buf = encode_utf8(block + raw) + rest;
    let n = encode_utf8(block).len() as int;
    lemma_encode_concat(block, raw);
    assert(encode_utf8(block).is_prefix_of(buf.skip(0))) by {
        assert(encode_utf8(block) =~= buf.skip(0).subrange(0, n));
    }
    lemma_headers_read(buf, 0, fields, at_eof, None);
    assert(buf.subrange(n, n + encode_utf8(raw).len()) =~= encode_utf8(raw));
    lemma_line_read(buf, n, text, at_eof);
}

proof fn lemma_bad_length(
    text: Seq<char>,
    pos: int,
    front: Seq<HeaderField>,
    bad: HeaderField,
    behind: Seq<char>,
    found: Option<usize>,
)
    requires
        0 <= pos <= text.len(),
        text.skip(pos) == block_text(front) + (field_text(bad) + behind),
        are_fields(front.push(bad)),
        no_returns(front.push(bad)),
        all_numbers(front, two_spellings()),
        two_spellings()(bad.0),
        number_of(trimmed(bad.1), usize::MAX as nat) is None,
    ensures
        declared_length(text, pos, found) == DeclaredLength::NotNumber,
    decreases front.len(),
{
    reveal_strlit("\r\n");
    reveal_strlit(":");
    let named = two_spellings();
    let all = front.push(bad);
    let tail = text.skip(pos);
    let first = all[0];
    let line = first.0 + ":"@ + first.1;
    let n = line.len() as int;
    assert(is_field(first));
    let rest = if front.len() == 0 {
        behind
    } else {
        block_text(front.drop_first()) + (field_text(bad) + behind)
    };
    assert(tail =~= line + "\r\n"@ + rest) by {
        if front.len() == 0 {
            assert(block_text(front) =~= Seq::<char>::empty());
            assert(first == bad);
        } else {
            assert(first == front[0]);
        }
    }
    assert forall|i: int| 0 <= i < tail.len() implies #[trigger] text[pos + i] == tail[i] by {}
    assert forall|i: int| pos <= i < pos + n implies #[trigger] text[i] != '\r' by {
        let k = i - pos;
        assert(text[pos + k] == tail[k]);
        if k < first.0.len() {
            assert(first.0.contains(first.0[k]));
        } else if k == first.0.len() {
            assert(tail[k] == ":"@[0]);
        } else {
            assert(first.1.contains(first.1[k - first.0.len() - 1]));
        }
    }
    assert(text[pos + n] == tail[n] && text[pos + (n + 1)] == tail[n + 1]);
    lemma_line_end_at(text, pos, pos + n);
    assert(text.subrange(pos, pos + n) =~= line);
    law_declared(first);
    if front.len() > 0 {
        let after = front.drop_first();
        assert(tail.skip(n + 2) =~= rest);
        assert(text.skip(pos + n + 2) =~= tail.skip(n + 2));
        assert forall|i: int| 0 <= i < after.push(bad).len() implies is_field(
            #[trigger] after.push(bad)[i],
        ) by {
            assert(after.push(bad)[i] == all[i + 1]);
        }
        assert forall|i: int|
            0 <= i < after.push(bad).len() implies !(#[trigger] after.push(bad)[i]).0.contains('\r')
            && !after.push(bad)[i].1.contains('\r') by {
            assert(after.push(bad)[i] == all[i + 1]);
        }
        assert forall|i: int|
            0 <= i < after.len() && named((#[trigger] after[i]).0) implies number_of(
            trimmed(after[i].1),
            usize::MAX as nat,
        ) is Some by {
            assert(after[i] == front[i + 1]);
        }
        let now = match gives(first, named) {
            Some(k) => Some(k),
            None => found,
        };
        assert(front[0] == first);
        assert(redeclared(line, found) == Some(now));
        lemma_bad_length(text, pos + n + 2, after, bad, behind, now);
    }
}

proof fn lemma_block_concat(front: Seq<HeaderField>, bad: HeaderField, back: Seq<HeaderField>)
    ensures
        block_text(front + seq![bad] + back) == block_text(front) + (field_text(bad) + block_text(
            back,
        )),
    decreases front.len(),
{
    let all = front + seq![bad] + back;
    if front.len() == 0 {
        assert(all[0] == bad);
        assert(all.drop_first() =~= back);
        assert(block_text(front) =~= Seq::<char>::empty());
        assert(block_text(all) =~= block_text(front) + (field_text(bad) + block_text(back)));
    } else {
        lemma_block_concat(front.drop_first(), bad, back);
        assert(all[0] == front[0]);
        assert(all.drop_first() =~= front.drop_first() + seq![bad] + back);
        assert(block_text(all) =~= block_text(front) + (field_text(bad) + block_text(back)));
    }
}

/// A language server's length that is no number is refused, wherever it
/// stands, once all headers have arrived.
pub proof fn law_bad_server_length(
    front: Seq<HeaderField>,
    bad: HeaderField,
    back: Seq<HeaderField>,
    rest: Seq<u8>,
    at_eof: bool,
)
    requires
        are_fields(front + seq![bad] + back),
        no_returns(front + seq![bad] + back),
        all_numbers(front, two_spellings()),
        bad.0 == "Content-Length"@ || bad.0 == "content-length"@,
        number_of(trimmed(bad.1), usize::MAX as nat) is None,
    ensures
        lsp_front(
            encode_utf8(block_text(front + seq![bad] + back) + "\r\n"@) + rest,
            at_eof,
        ) == FrontRead::Fault(LspFrameError::LengthNotNumber),
{
    let fields = front + seq![bad] + back;
    let block = block_text(fields);
    let text = block + "\r\n"@;
    let head = encode_utf8(text);
    let buf = head + rest;
    lemma_encode_concat(block, "\r\n"@);
    lemma_return_bytes();
    assert(head.is_prefix_of(buf.skip(0))) by {
        assert(head =~= buf.skip(0).subrange(0, head.len() as int));
    }
    lemma_block_end(buf, 0, fields);
    assert(buf.take(head.len() as int) =~= head);
    encode_utf8_valid_utf8(text);
    encode_utf8_decode_utf8(text);
    lemma_block_concat(front, bad, back);
    let behind = block_text(back) + "\r\n"@;
    assert(text.skip(0) =~= block_text(front) + (field_text(bad) + behind));
    let upto = front.push(bad);
    assert forall|i: int| 0 <= i < upto.len() implies is_field(#[trigger] upto[i]) by {
        assert(upto[i] == fields[i]);
    }
    assert forall|i: int|
        0 <= i < upto.len() implies !(#[trigger] upto[i]).0.contains('\r')
        && !upto[i].1.contains('\r') by {
        assert(upto[i] == fields[i]);
    }
    lemma_bad_length(text, 0, front, bad, behind, None);
}

proof fn lemma_no_end(buf: Seq<u8>, pos: int)
    requires
        forall|i: int| !blank_line_at(buf, i),
    ensures
        header_end(buf, pos) is None,
    decreases buf.len() - pos,
{
    if pos + 4 <= buf.len() {
        assert(!blank_line_at(buf, pos));
        lemma_no_end(buf, pos + 1);
    }
}

/// A language server's frame needs an empty line behind its headers: until it
/// has come more is waited for, and a stream that ends before is cut off.
/// Headers and bodies that are no text are refused.
pub proof fn law_server_frame_faults(
    buf: Seq<u8>,
    fields: Seq<HeaderField>,
    body: Seq<u8>,
    rest: Seq<u8>,
    at_eof: bool,
    start: int,
)
    ensures
        buf.len() > 0 && (forall|i: int| !blank_line_at(buf, i)) ==> lsp_front(buf, true)
            == FrontRead::Fault(LspFrameError::EofInHeader) && lsp_front(buf, false)
            == FrontRead::NeedMore,
        header_end(buf, 0) == Some(start) && !valid_utf8(buf.take(start)) ==> lsp_front(buf, at_eof)
            == FrontRead::Fault(LspFrameError::HeaderNotText),
        fields.len() > 0 && are_fields(fields) && no_returns(fields) && all_numbers(
            fields,
            two_spellings(),
        ) && last_given(fields, two_spellings()) == Some(body.len() as usize) && body.len()
            <= usize::MAX && !valid_utf8(body) ==> lsp_front(
            encode_utf8(block_text(fields) + "\r\n"@) + body + rest,
            at_eof,
        ) == FrontRead::Fault(LspFrameError::BodyNotText),
{
    if forall|i: int| !blank_line_at(buf, i) {
        lemma_no_end(buf, 0);
    }
    if fields.len() > 0 && are_fields(fields) && no_returns(fields) && all_numbers(
        fields,
        two_spellings(),
    ) && last_given(fields, two_spellings()) == Some(body.len() as usize) && body.len()
        <= usize::MAX && !valid_utf8(body) {
        let block = block_text(fields);
        let text = block + "\r\n"@;
        let head = encode_utf8(text);
        let all = head + body + rest;
        lemma_encode_concat(block, "\r\n"@);
        lemma_return_bytes();
        assert(head.is_prefix_of(all.skip(0))) by {
            assert(head =~= all.skip(0).subrange(0, head.len() as int));
        }
        lemma_block_end(all, 0, fields);
        assert(all.take(head.len() as int) =~= head);
        encode_utf8_valid_utf8(text);
        encode_utf8_decode_utf8(text);
        assert(text.skip(0) =~= text);
        lemma_declared_read(text, 0, fields, None);
        assert(all.subrange(head.len() as int, (head.len() + body.len()) as int) =~= body);
    }
}

} // verus!
