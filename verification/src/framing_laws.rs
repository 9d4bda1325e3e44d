//! What holds of framing as a whole: what was framed is read back, whatever
//! follows it and however it arrives.
use crate::framing::{
    colon, dropped, frame_at, header_line, headers_at, length_header, line_at, line_feed, lsp_bytes,
    ndjson_at, ndjson_bytes, without_ending, FrameRead, HeaderLine, HeaderRead, LineRead,
    NdjsonRead,
};
use crate::text::{
    all_digits, ascii_lower, char_whitespace, decimal, digit_value, law_decimal_round_trip,
    lemma_encode_concat, trim_end, trim_start, trimmed,
};
use vstd::prelude::*;
use vstd::utf8::{
    char_is_scalar, char_u32_cast, encode_scalar, encode_utf8, encode_utf8_decode_utf8,
    encode_utf8_valid_utf8, is_scalar,
};

verus! {

proof fn lemma_scalar_bytes(v: u32)
    requires
        v != 10,
        is_scalar(v),
    ensures
        forall|i: int| 0 <= i < encode_scalar(v).len() ==> #[trigger] encode_scalar(v)[i] != 10,
{
    assert(v != 10 && v <= 0x7f ==> (v & 0x7f) as u8 != 10) by (bit_vector);
    assert(0xc0u8 | ((v >> 6) & 0x1f) as u8 != 10) by (bit_vector);
    assert(0xe0u8 | ((v >> 12) & 0x0f) as u8 != 10) by (bit_vector);
    assert(0xf0u8 | ((v >> 18) & 0x07) as u8 != 10) by (bit_vector);
    assert(0x80u8 | (v & 0x3f) as u8 != 10) by (bit_vector);
    assert(0x80u8 | ((v >> 6) & 0x3f) as u8 != 10) by (bit_vector);
    assert(0x80u8 | ((v >> 12) & 0x3f) as u8 != 10) by (bit_vector);
}

/// A text without a line feed has no line feed byte.
pub(crate) proof fn lemma_encoding_has_no_feed(text: Seq<char>)
    requires
        forall|i: int| 0 <= i < text.len() ==> #[trigger] text[i] != '\n',
    ensures
        forall|i: int| 0 <= i < encode_utf8(text).len() ==> #[trigger] encode_utf8(text)[i] != 10,
    decreases text.len(),
{
    if text.len() > 0 {
        assert(text[0] != '\n');
        char_is_scalar(text[0]);
        char_u32_cast(text[0], text[0] as u32);
        assert(10u32 as char == '\n');
        lemma_scalar_bytes(text[0] as u32);
        assert forall|i: int| 0 <= i < text.drop_first().len() implies #[trigger] text.drop_first()[i]
            != '\n' by {
            assert(text.drop_first()[i] == text[i + 1]);
        }
        lemma_encoding_has_no_feed(text.drop_first());
        let head = encode_scalar(text[0] as u32);
        let tail = encode_utf8(text.drop_first());
        assert forall|i: int| 0 <= i < encode_utf8(text).len() implies #[trigger] encode_utf8(
            text,
        )[i] != 10 by {
            if i < head.len() {
                assert(encode_utf8(text)[i] == head[i]);
            } else {
                assert(encode_utf8(text)[i] == tail[i - head.len()]);
            }
        }
    }
}

pub(crate) proof fn lemma_line_feed(buf: Seq<u8>, pos: int, n: int)
    requires
        0 <= pos,
        0 <= n,
        pos + n < buf.len(),
        forall|i: int| pos <= i < pos + n ==> #[trigger] buf[i] != 10,
        buf[pos + n] == 10,
    ensures
        line_feed(buf, pos) == pos + n,
    decreases n,
{
    if n > 0 {
        assert(buf[pos] != 10);
        lemma_line_feed(buf, pos + 1, n - 1);
    }
}

/// A line of text that stands in a buffer is read as that line.
pub(crate) proof fn lemma_line_read(buf: Seq<u8>, pos: int, text: Seq<char>, at_eof: bool)
    requires
        0 <= pos,
        pos + encode_utf8(text.push('\n')).len() <= buf.len(),
        buf.subrange(pos, pos + encode_utf8(text.push('\n')).len()) == encode_utf8(text.push('\n')),
        forall|i: int| 0 <= i < text.len() ==> #[trigger] text[i] != '\n',
    ensures
        line_at(buf, pos, at_eof) == (LineRead::Line {
            text: text.push('\n'),
            next: pos + encode_utf8(text.push('\n')).len(),
        }),
        encode_utf8(text.push('\n')).len() > 0,
{
    let full = text.push('\n');
    let feed = seq!['\n'];
    assert(full =~= text + feed);
    lemma_encode_concat(text, feed);
    assert(feed.drop_first() =~= Seq::<char>::empty());
    assert(encode_utf8(feed.drop_first()) == Seq::<u8>::empty());
    assert(10u32 & 0x7f == 10) by (bit_vector);
    assert(encode_utf8(feed) =~= seq![10u8]);
    lemma_encoding_has_no_feed(text);
    let n = encode_utf8(text).len() as int;
    let part = buf.subrange(pos, pos + n + 1);
    assert(part == encode_utf8(full));
    assert forall|i: int| pos <= i < pos + n implies #[trigger] buf[i] != 10 by {
        assert(part[i - pos] == buf[i]);
        assert(encode_utf8(full)[i - pos] == encode_utf8(text)[i - pos]);
    }
    assert(part[n] == buf[pos + n]);
    lemma_line_feed(buf, pos, n);
    encode_utf8_valid_utf8(full);
    encode_utf8_decode_utf8(full);
}

proof fn lemma_trim_end_feed(s: Seq<char>)
    ensures
        trim_end(s.push('\n')) == trim_end(s),
{
    assert(s.push('\n').drop_last() =~= s);
}

proof fn lemma_trim_feed(s: Seq<char>)
    requires
        trimmed(s).len() > 0,
    ensures
        trimmed(s.push('\n')) == trimmed(s),
    decreases s.len(),
{
    if s.len() == 0 {
        assert(trim_start(s) == s);
    } else if char_whitespace(s[0]) {
        lemma_trim_feed(s.drop_first());
        assert(s.push('\n').drop_first() =~= s.drop_first().push('\n'));
    } else {
        lemma_trim_end_feed(s);
    }
}

/// A message that was framed as a line is read back, without white space at
/// its ends, whatever follows it. The message has to have no line feed and
/// not to be blank.
pub proof fn law_ndjson_round_trip(text: Seq<char>, rest: Seq<u8>, at_eof: bool)
    requires
        forall|i: int| 0 <= i < text.len() ==> #[trigger] text[i] != '\n',
        trimmed(text).len() > 0,
    ensures
        ndjson_at(ndjson_bytes(encode_utf8(text)) + rest, 0, at_eof) == (NdjsonRead::Message {
            text: trimmed(text),
            next: ndjson_bytes(encode_utf8(text)).len() as int,
        }),
        dropped(
            ndjson_bytes(encode_utf8(text)) + rest,
            ndjson_bytes(encode_utf8(text)).len() as int,
        ) == rest,
{
    let framed = ndjson_bytes(encode_utf8(text));
    let buf = framed + rest;
    let feed = seq!['\n'];
    assert(text.push('\n') =~= text + feed);
    lemma_encode_concat(text, feed);
    assert(feed.drop_first() =~= Seq::<char>::empty());
    assert(encode_utf8(feed.drop_first()) == Seq::<u8>::empty());
    assert(10u32 & 0x7f == 10) by (bit_vector);
    assert(encode_utf8(feed) =~= seq![10u8]);
    assert(encode_utf8(text.push('\n')) =~= framed);
    assert(buf.subrange(0, framed.len() as int) =~= framed);
    lemma_line_read(buf, 0, text, at_eof);
    lemma_trim_feed(text);
    assert(dropped(buf, framed.len() as int) =~= rest);
}

pub(crate) proof fn lemma_no_colon(line: Seq<char>, pos: int, at: int)
    requires
        0 <= pos <= at < line.len(),
        forall|i: int| pos <= i < at ==> #[trigger] line[i] != ':',
        line[at] == ':',
    ensures
        colon(line, pos) == at,
    decreases at - pos,
{
    if pos < at {
        assert(line[pos] != ':');
        lemma_no_colon(line, pos + 1, at);
    }
}

proof fn lemma_trim_digits(digits: Seq<char>)
    requires
        digits.len() > 0,
        all_digits(digits),
    ensures
        trimmed(seq![' '] + digits) == digits,
{
    let s = seq![' '] + digits;
    assert(s[0] == ' ');
    assert(s.drop_first() =~= digits);
    assert(digit_value(digits[0]) < 10);
    assert(digit_value(digits[digits.len() - 1]) < 10);
    assert(!char_whitespace(digits[0]));
    assert(!char_whitespace(digits.last()));
    assert(trim_start(digits) == digits);
}

/// The length header of a frame, read as a line.
proof fn lemma_length_line(len: usize)
    ensures
        header_line(("Content-Length: "@ + decimal(len as nat) + "\r"@).push('\n'))
            == HeaderLine::Length(len),
{
    reveal_strlit("Content-Length: ");
    reveal_strlit("content-length");
    reveal_strlit("\r");
    let digits = decimal(len as nat);
    law_decimal_round_trip(len as nat);
    let raw = ("Content-Length: "@ + digits + "\r"@).push('\n');
    let line = "Content-Length: "@ + digits;
    assert(raw[raw.len() - 2] == "\r"@[0]);
    assert(without_ending(raw) =~= line);
    assert forall|i: int| 0 <= i < 14 implies #[trigger] line[i] != ':' by {
        assert(line[i] == "Content-Length: "@[i]);
    }
    assert(line[14] == ':');
    lemma_no_colon(line, 0, 14);
    assert(ascii_lower(line.take(14)) =~= "content-length"@);
    assert(line.subrange(15, line.len() as int) =~= seq![' '] + digits);
    lemma_trim_digits(digits);
}

/// A body that was framed with a length header is read back, whatever follows
/// it, where its size is within the bound.
pub proof fn law_lsp_round_trip(body: Seq<u8>, rest: Seq<u8>, at_eof: bool, limit: usize)
    requires
        body.len() <= limit,
    ensures
        frame_at(lsp_bytes(body) + rest, at_eof, limit) == (FrameRead::Message {
            body,
            next: lsp_bytes(body).len() as int,
        }),
        dropped(lsp_bytes(body) + rest, lsp_bytes(body).len() as int) == rest,
{
    let buf = lsp_bytes(body) + rest;
    lemma_frame_headers(body.len() as usize, body + rest, at_eof);
    let head = encode_utf8(length_header(body.len()));
    assert(buf =~= head + (body + rest));
    assert(buf.subrange(head.len() as int, (head.len() + body.len()) as int) =~= body);
    assert(dropped(buf, lsp_bytes(body).len() as int) =~= rest);
}

/// A body above the bound is refused by its header alone.
pub proof fn law_lsp_too_large(body: Seq<u8>, rest: Seq<u8>, at_eof: bool, limit: usize)
    requires
        limit < body.len() <= usize::MAX,
    ensures
        frame_at(encode_utf8(length_header(body.len())) + rest, at_eof, limit) == (
        FrameRead::Fault {
            fault: crate::framing::FrameFault::TooLarge(body.len() as usize),
            next: encode_utf8(length_header(body.len())).len() as int,
        }),
{
    lemma_frame_headers(body.len() as usize, rest, at_eof);
}

proof fn lemma_frame_headers(len: usize, rest: Seq<u8>, at_eof: bool)
    ensures
        headers_at(encode_utf8(length_header(len as nat)) + rest, 0, at_eof, None) == (
        HeaderRead::Done {
            length: Some(len),
            next: encode_utf8(length_header(len as nat)).len() as int,
        }),
{
    reveal_strlit("Content-Length: ");
    reveal_strlit("\r\n\r\n");
    reveal_strlit("\r");
    let header = length_header(len as nat);
    let buf = encode_utf8(header) + rest;
    let digits = decimal(len as nat);
    law_decimal_round_trip(len as nat);
    let first = "Content-Length: "@ + digits + "\r"@;
    let second = "\r"@;
    let one = first.push('\n');
    let two = second.push('\n');
    assert(header =~= one + two);
    lemma_encode_concat(one, two);
    let n1 = encode_utf8(one).len() as int;
    let n2 = encode_utf8(two).len() as int;
    assert forall|i: int| 0 <= i < first.len() implies #[trigger] first[i] != '\n' by {
        if i < 16 {
            assert(first[i] == "Content-Length: "@[i]);
        } else if i < 16 + digits.len() {
            assert(first[i] == digits[i - 16]);
            assert(digit_value(digits[i - 16]) < 10);
        } else {
            assert(first[i] == "\r"@[0]);
        }
    }
    assert(buf.subrange(0, n1) =~= encode_utf8(one));
    assert(buf.subrange(n1, n1 + n2) =~= encode_utf8(two));
    lemma_line_read(buf, 0, first, at_eof);
    lemma_line_read(buf, n1, second, at_eof);
    lemma_length_line(len);
    assert(without_ending(two) =~= Seq::<char>::empty());
    assert(header_line(two) == HeaderLine::Blank);
    assert(headers_at(buf, n1, at_eof, Some(len)) == (HeaderRead::Done {
        length: Some(len),
        next: n1 + n2,
    }));
}

/// A stream whose first header line ends in a bare line feed is refused.
pub proof fn law_lsp_refuses_bare_feed(
    line: Seq<char>,
    rest: Seq<u8>,
    at_eof: bool,
    limit: usize,
)
    requires
        forall|i: int| 0 <= i < line.len() ==> #[trigger] line[i] != '\n',
        line.len() == 0 || line.last() != '\r',
    ensures
        frame_at(encode_utf8(line.push('\n')) + rest, at_eof, limit) == (FrameRead::Fault {
            fault: crate::framing::FrameFault::Malformed(line),
            next: encode_utf8(line.push('\n')).len() as int,
        }),
{
    let raw = line.push('\n');
    let buf = encode_utf8(raw) + rest;
    assert(buf.subrange(0, encode_utf8(raw).len() as int) =~= encode_utf8(raw));
    lemma_line_read(buf, 0, line, at_eof);
    assert(raw.drop_last() =~= line);
    if line.len() > 0 {
        assert(raw[raw.len() - 2] == line.last());
    }
}

/// A line feed that has arrived stays the first one.
proof fn lemma_feed_extends(buf: Seq<u8>, more: Seq<u8>, pos: int)
    requires
        line_feed(buf, pos) < buf.len(),
    ensures
        line_feed(buf + more, pos) == line_feed(buf, pos),
        0 <= pos <= line_feed(buf, pos),
    decreases buf.len() - pos,
{
    assert((buf + more)[pos] == buf[pos]);
    if buf[pos] != 10 {
        lemma_feed_extends(buf, more, pos + 1);
    }
}

/// A line that has arrived stays as it is.
proof fn lemma_line_extends(buf: Seq<u8>, more: Seq<u8>, pos: int, at_eof: bool)
    requires
        !(line_at(buf, pos, false) is NeedMore),
    ensures
        line_at(buf + more, pos, at_eof) == line_at(buf, pos, false),
        !(line_at(buf, pos, false) is Over),
        line_at(buf, pos, false) matches LineRead::Line { text, next } ==> 0 <= pos < next
            <= buf.len(),
        line_at(buf, pos, false) matches LineRead::NotText { next } ==> next <= buf.len(),
{
    lemma_feed_extends(buf, more, pos);
    let next = line_feed(buf, pos) + 1;
    assert((buf + more).subrange(pos, next) =~= buf.subrange(pos, next));
}

/// What was read `n` bytes further on.
pub open spec fn further(r: NdjsonRead, n: int) -> NdjsonRead {
    match r {
        NdjsonRead::Message { text, next } => NdjsonRead::Message { text, next: next + n },
        NdjsonRead::NotText { next } => NdjsonRead::NotText { next: next + n },
        NdjsonRead::NeedMore { next } => NdjsonRead::NeedMore { next: next + n },
        NdjsonRead::Over { next } => NdjsonRead::Over { next: next + n },
    }
}

proof fn lemma_feed_further(buf: Seq<u8>, n: int, pos: int)
    requires
        0 <= n <= buf.len(),
        0 <= pos,
    ensures
        line_feed(buf, n + pos) == line_feed(dropped(buf, n), pos) + n,
        n + pos <= buf.len() ==> n + pos <= line_feed(buf, n + pos) <= buf.len(),
    decreases buf.len() - pos,
{
    if n + pos < buf.len() {
        assert(dropped(buf, n)[pos] == buf[n + pos]);
        if buf[n + pos] != 10 {
            lemma_feed_further(buf, n, pos + 1);
        }
    }
}

pub(crate) proof fn lemma_read_further(buf: Seq<u8>, n: int, pos: int, at_eof: bool)
    requires
        0 <= n <= buf.len(),
        0 <= pos,
    ensures
        ndjson_at(buf, n + pos, at_eof) == further(ndjson_at(dropped(buf, n), pos, at_eof), n),
    decreases buf.len() - pos,
{
    let rest = dropped(buf, n);
    if n + pos <= buf.len() {
        lemma_feed_further(buf, n, pos);
        let feed = line_feed(rest, pos);
        let next = if feed < rest.len() {
            feed + 1
        } else {
            rest.len() as int
        };
        assert(buf.subrange(n + pos, n + next) =~= rest.subrange(pos, next));
        if line_at(rest, pos, at_eof) is Line && next > pos {
            lemma_read_further(buf, n, next, at_eof);
        }
    }
}

proof fn lemma_ndjson_extends(buf: Seq<u8>, more: Seq<u8>, pos: int, at_eof: bool)
    requires
        0 <= pos <= buf.len(),
    ensures
        match ndjson_at(buf, pos, false) {
            NdjsonRead::NeedMore { next } => pos <= next <= buf.len() && ndjson_at(
                buf + more,
                pos,
                at_eof,
            ) == ndjson_at(buf + more, next, at_eof),
            NdjsonRead::Message { text, next } => next <= buf.len() && ndjson_at(
                buf + more,
                pos,
                at_eof,
            ) == ndjson_at(buf, pos, false),
            r => ndjson_at(buf + more, pos, at_eof) == r,
        },
    decreases buf.len() - pos,
{
    if !(line_at(buf, pos, false) is NeedMore) {
        lemma_line_extends(buf, more, pos, at_eof);
        if let LineRead::Line { text, next } = line_at(buf, pos, false) {
            if trimmed(text).len() == 0 {
                lemma_ndjson_extends(buf, more, next, at_eof);
            }
        }
    }
}

/// The first message of a stream of lines is the same however its bytes
/// arrive: what has been read stays as it is when more arrives, and where more
/// is needed, reading goes on behind the blank lines that were used up.
pub proof fn law_ndjson_arrival(buf: Seq<u8>, more: Seq<u8>, at_eof: bool)
    ensures
        match ndjson_at(buf, 0, false) {
            NdjsonRead::NeedMore { next } => ndjson_at(buf + more, 0, at_eof) == further(
                ndjson_at(dropped(buf, next) + more, 0, at_eof),
                next,
            ),
            r => ndjson_at(buf + more, 0, at_eof) == r,
        },
{
    lemma_ndjson_extends(buf, more, 0, at_eof);
    if let NdjsonRead::NeedMore { next } = ndjson_at(buf, 0, false) {
        lemma_read_further(buf + more, next, 0, at_eof);
        assert(dropped(buf + more, next) =~= dropped(buf, next) + more);
    }
}

proof fn lemma_headers_extend(
    buf: Seq<u8>,
    more: Seq<u8>,
    pos: int,
    at_eof: bool,
    length: Option<usize>,
)
    ensures
        match headers_at(buf, pos, false, length) {
            HeaderRead::NeedMore => true,
            HeaderRead::Done { length: n, next } => 0 <= next <= buf.len() && headers_at(
                buf + more,
                pos,
                at_eof,
                length,
            ) == headers_at(buf, pos, false, length),
            r => headers_at(buf + more, pos, at_eof, length) == r,
        },
    decreases buf.len() - pos,
{
    if !(line_at(buf, pos, false) is NeedMore) {
        lemma_line_extends(buf, more, pos, at_eof);
        if let LineRead::Line { text, next } = line_at(buf, pos, false) {
            match header_line(text) {
                HeaderLine::Length(n) => lemma_headers_extend(buf, more, next, at_eof, Some(n)),
                HeaderLine::Other => lemma_headers_extend(buf, more, next, at_eof, length),
                _ => {},
            }
        }
    }
}

/// What has been read from a stream with length headers stays as it is when
/// more bytes arrive.
pub proof fn law_lsp_arrival(buf: Seq<u8>, more: Seq<u8>, at_eof: bool, limit: usize)
    ensures
        match frame_at(buf, false, limit) {
            FrameRead::NeedMore => true,
            r => frame_at(buf + more, at_eof, limit) == r,
        },
{
    lemma_headers_extend(buf, more, 0, at_eof, None);
    if let HeaderRead::Done { length: Some(n), next } = headers_at(buf, 0, false, None) {
        if next + n <= buf.len() {
            assert((buf + more).subrange(next, next + n) =~= buf.subrange(next, next + n));
        }
    }
}

/// A frame of which only a part has arrived gives no message and no fault.
pub proof fn law_lsp_partial(body: Seq<u8>, keep: int, limit: usize)
    requires
        body.len() <= limit,
        0 <= keep < lsp_bytes(body).len(),
    ensures
        frame_at(lsp_bytes(body).take(keep), false, limit) is NeedMore,
{
    let whole = lsp_bytes(body);
    let part = whole.take(keep);
    law_lsp_arrival(part, whole.skip(keep), true, limit);
    assert(part + whole.skip(keep) =~= whole + Seq::empty());
    law_lsp_round_trip(body, Seq::empty(), true, limit);
}

/// A line of which only a part has arrived gives no message and no fault.
pub proof fn law_ndjson_partial(text: Seq<char>, keep: int)
    requires
        forall|i: int| 0 <= i < text.len() ==> #[trigger] text[i] != '\n',
        trimmed(text).len() > 0,
        0 <= keep < ndjson_bytes(encode_utf8(text)).len(),
    ensures
        ndjson_at(ndjson_bytes(encode_utf8(text)).take(keep), 0, false) is NeedMore,
{
    let whole = ndjson_bytes(encode_utf8(text));
    let part = whole.take(keep);
    lemma_ndjson_extends(part, whole.skip(keep), 0, true);
    assert(part + whole.skip(keep) =~= whole + Seq::empty());
    law_ndjson_round_trip(text, Seq::empty(), true);
}

} // verus!
