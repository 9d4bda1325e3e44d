//! Framing of JSON-RPC messages on byte streams.
//!
//! Two framings are provided: one message per line, and `Content-Length`
//! headers in front of each body. The readers take bytes as they arrive and
//! say what stands at the front of what they hold.
use crate::framing_laws::{law_lsp_round_trip, law_ndjson_round_trip};
use crate::json::{Json, JsonView};
use crate::json_text::{
    canonical, is_line, json_bytes, parsed_bytes, parsed_text, read_bytes, read_text, rereads,
    write_json,
};
use crate::jsonrpc::JsonRpcMessage;
use crate::text::{
    ascii_lower, chars_at, chars_of, concat_text, decimal, decimal_string, number_of, parse_usize,
    quote, quoted, string_of, to_ascii_lower, trim_range, trimmed, utf8_text,
};
use vstd::prelude::*;
use vstd::slice::{slice_subrange, slice_to_vec};
use vstd::utf8::{decode_utf8, encode_utf8, valid_utf8};

verus! {

/// Default bound on the size of a body: 16 MiB.
pub const DEFAULT_MAX_MESSAGE_SIZE: usize = 16_777_216;

/// The place of the first line feed at or behind `pos`, or the length of the
/// buffer.
pub open spec fn line_feed(buf: Seq<u8>, pos: int) -> int
    decreases buf.len() - pos,
{
    if pos < 0 || pos >= buf.len() {
        buf.len() as int
    } else if buf[pos] == 10 {
        pos
    } else {
        line_feed(buf, pos + 1)
    }
}

/// What reading a line gives.
pub enum LineRead {
    /// A line with its line ending, and the place behind it. The last line of
    /// a stream may have no ending.
    Line { text: Seq<char>, next: int },
    /// A line that is not UTF-8, and the place behind it.
    NotText { next: int },
    /// No whole line has arrived.
    NeedMore,
    /// The stream is over.
    Over,
}

/// The line at `pos`. `at_eof` says that nothing follows the buffer.
pub open spec fn line_at(buf: Seq<u8>, pos: int, at_eof: bool) -> LineRead {
    let feed = line_feed(buf, pos);
    if feed >= buf.len() && !at_eof {
        LineRead::NeedMore
    } else if pos >= buf.len() {
        LineRead::Over
    } else {
        let next = if feed < buf.len() {
            feed + 1
        } else {
            buf.len() as int
        };
        let bytes = buf.subrange(pos, next);
        if valid_utf8(bytes) {
            LineRead::Line { text: decode_utf8(bytes), next }
        } else {
            LineRead::NotText { next }
        }
    }
}

/// A line read from a buffer.
enum Line {
    Text { text: String, next: usize },
    NotText { next: usize },
    NeedMore,
    Over,
}

/// Reads the line at `pos`.
fn read_line(buf: &Vec<u8>, pos: usize, at_eof: bool) -> (r: Line)
    requires
        pos <= buf.len(),
    ensures
        match r {
            Line::Text { text, next } => line_at(buf@, pos as int, at_eof) == (LineRead::Line {
                text: text@,
                next: next as int,
            }) && pos < next <= buf.len(),
            Line::NotText { next } => line_at(buf@, pos as int, at_eof) == (LineRead::NotText {
                next: next as int,
            }) && pos < next <= buf.len(),
            Line::NeedMore => line_at(buf@, pos as int, at_eof) == LineRead::NeedMore,
            Line::Over => line_at(buf@, pos as int, at_eof) == LineRead::Over,
        },
{
    let mut i: usize = pos;
    while i < buf.len() && buf[i] != 10
        invariant
            pos <= i <= buf.len(),
            line_feed(buf@, i as int) == line_feed(buf@, pos as int),
        decreases buf.len() - i,
    {
        i = i + 1;
    }
    if i == buf.len() && !at_eof {
        return Line::NeedMore;
    }
    if pos == buf.len() {
        return Line::Over;
    }
    let next = if i < buf.len() {
        i + 1
    } else {
        i
    };
    match utf8_text(slice_to_vec(slice_subrange(buf.as_slice(), pos, next))) {
        Some(text) => Line::Text { text, next },
        None => Line::NotText { next },
    }
}

/// Drops the first `n` bytes of a buffer.
fn drop_front(buf: &mut Vec<u8>, n: usize)
    requires
        n <= old(buf).len(),
    ensures
        final(buf)@ == old(buf)@.subrange(n as int, old(buf)@.len() as int),
{
    let rest = buf.split_off(n);
    *buf = rest;
}

/// What reading a message from a stream of lines gives, each with the number
/// of bytes used up.
pub enum NdjsonRead {
    /// A line that is not blank, without white space at its ends.
    Message { text: Seq<char>, next: int },
    /// A line that is not UTF-8.
    NotText { next: int },
    /// No whole line has arrived that is not blank.
    NeedMore { next: int },
    /// The stream is over.
    Over { next: int },
}

/// The message at `pos`: the first line that is not blank.
pub open spec fn ndjson_at(buf: Seq<u8>, pos: int, at_eof: bool) -> NdjsonRead
    decreases buf.len() - pos,
{
    if pos < 0 || pos > buf.len() {
        NdjsonRead::Over { next: pos }
    } else {
        match line_at(buf, pos, at_eof) {
            LineRead::Line { text, next } => if trimmed(text).len() > 0 {
                NdjsonRead::Message { text: trimmed(text), next }
            } else if next <= pos {
                NdjsonRead::Over { next: pos }
            } else {
                ndjson_at(buf, next, at_eof)
            },
            LineRead::NotText { next } => NdjsonRead::NotText { next },
            LineRead::NeedMore => NdjsonRead::NeedMore { next: pos },
            LineRead::Over => NdjsonRead::Over { next: pos },
        }
    }
}

/// Why a stream could not be read.
#[derive(Debug)]
pub enum FramingError {
    /// A message is not JSON.
    Parse(serde_json::Error),
    /// A line is not UTF-8.
    NotText,
    /// The stream ended inside a body.
    UnexpectedEof,
    /// The headers are malformed or incomplete.
    InvalidContentLength(HeaderFault),
    /// A body is larger than the bound.
    MessageTooLarge { size: usize, limit: usize },
}

/// What is wrong with the headers of a message.
#[derive(Debug, PartialEq, Eq)]
pub enum HeaderFault {
    /// The stream ended inside the headers.
    UnexpectedEof,
    /// A header line without a colon, or one that ends in a bare line feed.
    MalformedLine(String),
    /// A length that is not a number.
    NonNumeric(String),
    /// No length was given.
    Missing,
}

impl HeaderFault {
    /// What is said of the fault.
    pub open spec fn text(&self) -> Seq<char> {
        match self {
            HeaderFault::UnexpectedEof => "unexpected EOF inside header block"@,
            HeaderFault::MalformedLine(line) => "malformed header line: "@ + quoted(line@),
            HeaderFault::NonNumeric(value) => "non-numeric Content-Length: "@ + quoted(value@),
            HeaderFault::Missing => "missing Content-Length header"@,
        }
    }

    /// What is said of the fault.
    pub fn message(&self) -> (r: String)
        ensures
            r@ == self.text(),
    {
        match self {
            HeaderFault::UnexpectedEof => "unexpected EOF inside header block".to_owned(),
            HeaderFault::MalformedLine(line) => concat_text(
                "malformed header line: ",
                quote(line.as_str()).as_str(),
            ),
            HeaderFault::NonNumeric(value) => concat_text(
                "non-numeric Content-Length: ",
                quote(value.as_str()).as_str(),
            ),
            HeaderFault::Missing => "missing Content-Length header".to_owned(),
        }
    }
}

/// What stands at the front of a stream.
#[derive(Debug, PartialEq, Eq)]
pub enum Framed<T> {
    /// A message.
    Message(T),
    /// More bytes are needed to tell.
    NeedMore,
    /// The stream is over.
    EndOfStream,
}

/// Whether a result is the message that reading JSON gave, or its error.
pub open spec fn is_received(
    r: Result<Framed<JsonRpcMessage>, FramingError>,
    parsed: Result<JsonView, serde_json::Error>,
) -> bool {
    match parsed {
        Ok(v) => r matches Ok(Framed::Message(m)) && m.0@ == v,
        Err(e) => r == Err::<Framed<JsonRpcMessage>, FramingError>(FramingError::Parse(e)),
    }
}

/// The message that reading JSON gave, or its error.
pub fn received(parsed: Result<Json, serde_json::Error>) -> (r: Result<
    Framed<JsonRpcMessage>,
    FramingError,
>)
    ensures
        match parsed {
            Ok(j) => r == Ok::<_, FramingError>(Framed::Message(JsonRpcMessage(j))),
            Err(e) => r == Err::<Framed<JsonRpcMessage>, _>(FramingError::Parse(e)),
        },
{
    match parsed {
        Ok(j) => Ok(Framed::Message(JsonRpcMessage(j))),
        Err(e) => Err(FramingError::Parse(e)),
    }
}

/// Reader of streams with one message per line. Blank lines are skipped.
pub struct NdjsonReader<R> {
    inner: R,
    buf: Vec<u8>,
}

impl<R> NdjsonReader<R> {
    /// The bytes that were received and not used yet.
    pub closed spec fn pending(&self) -> Seq<u8> {
        self.buf@
    }

    /// The source of bytes.
    pub closed spec fn source(&self) -> R {
        self.inner
    }

    /// A reader over a source of bytes.
    pub fn new(reader: R) -> (r: Self)
        ensures
            r.pending() == Seq::<u8>::empty(),
            r.source() == reader,
    {
        NdjsonReader { inner: reader, buf: Vec::new() }
    }

    /// The source of bytes.
    pub fn inner_mut(&mut self) -> (r: &mut R)
        ensures
            *r == old(self).source(),
            final(self).source() == *final(r),
            final(self).pending() == old(self).pending(),
    {
        &mut self.inner
    }

    /// Takes in bytes that arrived.
    pub fn feed(&mut self, bytes: &[u8])
        ensures
            final(self).pending() == old(self).pending() + bytes@,
            final(self).source() == old(self).source(),
    {
        let mut more = slice_to_vec(bytes);
        self.buf.append(&mut more);
    }

    /// The next message. A line that is not JSON is used up. What is read is
    /// as it is held: written and, where it can be reread, read again, it is
    /// the same.
    pub fn read_message(&mut self, at_eof: bool) -> (r: Result<
        Framed<JsonRpcMessage>,
        FramingError,
    >)
        ensures
            final(self).source() == old(self).source(),
            match ndjson_at(old(self).pending(), 0, at_eof) {
                NdjsonRead::Message { text, next } => is_received(r, parsed_text(text))
                    && final(self).pending() == dropped(old(self).pending(), next),
                NdjsonRead::NotText { next } => r == Err::<Framed<JsonRpcMessage>, _>(
                    FramingError::NotText,
                ) && final(self).pending() == dropped(old(self).pending(), next),
                NdjsonRead::NeedMore { next } => r == Ok::<_, FramingError>(
                    Framed::<JsonRpcMessage>::NeedMore,
                ) && final(self).pending() == dropped(old(self).pending(), next),
                NdjsonRead::Over { next } => r == Ok::<_, FramingError>(
                    Framed::<JsonRpcMessage>::EndOfStream,
                ) && final(self).pending() == dropped(old(self).pending(), next),
            },
            r matches Ok(Framed::Message(m)) ==> canonical(m.0@) == m.0@,
    {
        match self.read_line(at_eof) {
            Ok(Framed::Message(text)) => received(read_text(text.as_str())),
            Ok(Framed::NeedMore) => Ok(Framed::NeedMore),
            Ok(Framed::EndOfStream) => Ok(Framed::EndOfStream),
            Err(e) => Err(e),
        }
    }

    /// The next line that is not blank, without white space at its ends.
    pub fn read_line(&mut self, at_eof: bool) -> (r: Result<Framed<String>, FramingError>)
        ensures
            final(self).source() == old(self).source(),
            match ndjson_at(old(self).pending(), 0, at_eof) {
                NdjsonRead::Message { text, next } => (r matches Ok(Framed::Message(m)) && m@
                    == text) && final(self).pending() == dropped(old(self).pending(), next),
                NdjsonRead::NotText { next } => r == Err::<Framed<String>, _>(FramingError::NotText)
                    && final(self).pending() == dropped(old(self).pending(), next),
                NdjsonRead::NeedMore { next } => r == Ok::<_, FramingError>(
                    Framed::<String>::NeedMore,
                ) && final(self).pending() == dropped(old(self).pending(), next),
                NdjsonRead::Over { next } => r == Ok::<_, FramingError>(
                    Framed::<String>::EndOfStream,
                ) && final(self).pending() == dropped(old(self).pending(), next),
            },
    {
        let ghost buf = self.buf@;
        let mut pos: usize = 0;
        loop
            invariant
                pos <= self.buf.len(),
                self.buf@ == buf,
                buf == old(self).buf@,
                self.inner == old(self).inner,
                ndjson_at(buf, pos as int, at_eof) == ndjson_at(buf, 0, at_eof),
            decreases self.buf.len() - pos,
        {
            match read_line(&self.buf, pos, at_eof) {
                Line::Text { text, next } => {
                    let chars = chars_of(text.as_str());
                    let (lo, hi) = trim_range(&chars);
                    if lo < hi {
                        let message = string_of(&chars, lo, hi);
                        drop_front(&mut self.buf, next);
                        return Ok(Framed::Message(message));
                    }
                    assert(trimmed(text@).len() == 0);
                    pos = next;
                },
                Line::NotText { next } => {
                    drop_front(&mut self.buf, next);
                    return Err(FramingError::NotText);
                },
                Line::NeedMore => {
                    drop_front(&mut self.buf, pos);
                    return Ok(Framed::NeedMore);
                },
                Line::Over => {
                    drop_front(&mut self.buf, pos);
                    return Ok(Framed::EndOfStream);
                },
            }
        }
    }
}

/// What is left of a buffer behind its first `n` bytes.
pub open spec fn dropped(buf: Seq<u8>, n: int) -> Seq<u8> {
    buf.subrange(n, buf.len() as int)
}

/// A header line without its line ending.
pub open spec fn without_ending(line: Seq<char>) -> Seq<char> {
    if ends_in_crlf(line) {
        line.take(line.len() - 2)
    } else {
        line
    }
}

/// Whether a line ends in a carriage return and a line feed.
pub open spec fn ends_in_crlf(line: Seq<char>) -> bool {
    line.len() >= 2 && line.last() == '\n' && line[line.len() - 2] == '\r'
}

/// Whether a line ends in a line feed with no carriage return before it.
pub open spec fn ends_in_bare_feed(line: Seq<char>) -> bool {
    line.len() >= 1 && line.last() == '\n' && !ends_in_crlf(line)
}

/// The place of the first colon of a line, or its length.
pub open spec fn colon(line: Seq<char>, pos: int) -> int
    decreases line.len() - pos,
{
    if pos < 0 || pos >= line.len() {
        line.len() as int
    } else if line[pos] == ':' {
        pos
    } else {
        colon(line, pos + 1)
    }
}

/// What a header line says.
pub enum HeaderLine {
    /// The end of the headers.
    Blank,
    /// A content length.
    Length(usize),
    /// Another header.
    Other,
    /// A line without a colon, or one that ends in a bare line feed.
    Malformed(Seq<char>),
    /// A content length that is not a number.
    NonNumeric(Seq<char>),
}

/// Reads a header line, which has to end in a carriage return and a line feed.
/// The last line of a stream may have no ending.
pub open spec fn header_line(raw: Seq<char>) -> HeaderLine {
    let line = without_ending(raw);
    let at = colon(line, 0);
    if ends_in_bare_feed(raw) {
        HeaderLine::Malformed(raw.drop_last())
    } else if line.len() == 0 {
        HeaderLine::Blank
    } else if at >= line.len() {
        HeaderLine::Malformed(line)
    } else if ascii_lower(line.take(at)) == "content-length"@ {
        let value = trimmed(line.subrange(at + 1, line.len() as int));
        match number_of(value, usize::MAX as nat) {
            Some(n) => HeaderLine::Length(n as usize),
            None => HeaderLine::NonNumeric(value),
        }
    } else {
        HeaderLine::Other
    }
}

/// What the headers of a message say.
pub enum HeaderRead {
    /// The length, where one was given, and the place of the body. The last
    /// length that was given counts.
    Done { length: Option<usize>, next: int },
    /// The headers have not arrived in full.
    NeedMore,
    /// The stream is over and no header has arrived.
    Over,
    /// The stream is over inside the headers.
    UnexpectedEof { next: int },
    NotText { next: int },
    Malformed { line: Seq<char>, next: int },
    NonNumeric { value: Seq<char>, next: int },
}

/// Reads headers from `pos` on, where the message begins at 0 and `length` was
/// given so far.
pub open spec fn headers_at(buf: Seq<u8>, pos: int, at_eof: bool, length: Option<usize>) -> HeaderRead
    decreases buf.len() - pos,
{
    match line_at(buf, pos, at_eof) {
        LineRead::Line { text, next } => match header_line(text) {
            HeaderLine::Blank => HeaderRead::Done { length, next },
            HeaderLine::Malformed(line) => HeaderRead::Malformed { line, next },
            HeaderLine::NonNumeric(value) => HeaderRead::NonNumeric { value, next },
            HeaderLine::Length(n) => if next <= pos || pos > buf.len() {
                HeaderRead::NeedMore
            } else {
                headers_at(buf, next, at_eof, Some(n))
            },
            HeaderLine::Other => if next <= pos || pos > buf.len() {
                HeaderRead::NeedMore
            } else {
                headers_at(buf, next, at_eof, length)
            },
        },
        LineRead::NotText { next } => HeaderRead::NotText { next },
        LineRead::NeedMore => HeaderRead::NeedMore,
        LineRead::Over => if pos == 0 {
            HeaderRead::Over
        } else {
            HeaderRead::UnexpectedEof { next: pos }
        },
    }
}

/// What a stream with length headers begins with, and how many of its bytes
/// are used up.
pub enum FrameRead {
    Message { body: Seq<u8>, next: int },
    NeedMore,
    Over,
    Fault { fault: FrameFault, next: int },
}

/// Why a stream with length headers could not be read.
pub enum FrameFault {
    NotText,
    UnexpectedEof,
    EofInHeaders,
    Malformed(Seq<char>),
    NonNumeric(Seq<char>),
    Missing,
    TooLarge(usize),
}

/// Reads the front of a stream with length headers. Bodies above `limit` are
/// refused.
pub open spec fn frame_at(buf: Seq<u8>, at_eof: bool, limit: usize) -> FrameRead {
    match headers_at(buf, 0, at_eof, None) {
        HeaderRead::Done { length: None, next } => FrameRead::Fault {
            fault: FrameFault::Missing,
            next,
        },
        HeaderRead::Done { length: Some(n), next } => if n > limit {
            FrameRead::Fault { fault: FrameFault::TooLarge(n), next }
        } else if next + n <= buf.len() {
            FrameRead::Message { body: buf.subrange(next, next + n), next: next + n }
        } else if at_eof {
            FrameRead::Fault { fault: FrameFault::UnexpectedEof, next: buf.len() as int }
        } else {
            FrameRead::NeedMore
        },
        HeaderRead::NeedMore => FrameRead::NeedMore,
        HeaderRead::Over => FrameRead::Over,
        HeaderRead::UnexpectedEof { next } => FrameRead::Fault {
            fault: FrameFault::EofInHeaders,
            next,
        },
        HeaderRead::NotText { next } => FrameRead::Fault { fault: FrameFault::NotText, next },
        HeaderRead::Malformed { line, next } => FrameRead::Fault {
            fault: FrameFault::Malformed(line),
            next,
        },
        HeaderRead::NonNumeric { value, next } => FrameRead::Fault {
            fault: FrameFault::NonNumeric(value),
            next,
        },
    }
}

/// Whether an error is the one that a fault stands for.
pub open spec fn is_fault(e: FramingError, fault: FrameFault, limit: usize) -> bool {
    match fault {
        FrameFault::NotText => e is NotText,
        FrameFault::UnexpectedEof => e is UnexpectedEof,
        FrameFault::EofInHeaders => e == FramingError::InvalidContentLength(
            HeaderFault::UnexpectedEof,
        ),
        FrameFault::Malformed(line) => e matches FramingError::InvalidContentLength(
            HeaderFault::MalformedLine(s),
        ) && s@ == line,
        FrameFault::NonNumeric(value) => e matches FramingError::InvalidContentLength(
            HeaderFault::NonNumeric(s),
        ) && s@ == value,
        FrameFault::Missing => e == FramingError::InvalidContentLength(HeaderFault::Missing),
        FrameFault::TooLarge(size) => e == (FramingError::MessageTooLarge { size, limit }),
    }
}

/// A header line that was read.
enum Header {
    Blank,
    Length(usize),
    Other,
    Malformed(String),
    NonNumeric(String),
}

/// Reads a header line.
fn parse_header(raw: &str) -> (r: Header)
    ensures
        match r {
            Header::Blank => header_line(raw@) == HeaderLine::Blank,
            Header::Length(n) => header_line(raw@) == HeaderLine::Length(n),
            Header::Other => header_line(raw@) == HeaderLine::Other,
            Header::Malformed(s) => header_line(raw@) == HeaderLine::Malformed(s@),
            Header::NonNumeric(s) => header_line(raw@) == HeaderLine::NonNumeric(s@),
        },
{
    let chars = chars_of(raw);
    let mut end: usize = chars.len();
    if end >= 1 && chars[end - 1] == '\n' {
        if end == 1 || chars[end - 2] != '\r' {
            assert(chars@.subrange(0, end - 1) =~= raw@.drop_last());
            return Header::Malformed(string_of(&chars, 0, end - 1));
        }
        end = end - 2;
    }
    let ghost line = without_ending(raw@);
    assert(line =~= chars@.take(end as int));
    if end == 0 {
        return Header::Blank;
    }
    let mut at: usize = 0;
    while at < end && chars[at] != ':'
        invariant
            at <= end <= chars.len(),
            line == chars@.take(end as int),
            colon(line, at as int) == colon(line, 0),
        decreases end - at,
    {
        assert(line[at as int] == chars@[at as int]);
        at = at + 1;
    }
    if at == end {
        assert(chars@.subrange(0, end as int) =~= line);
        return Header::Malformed(string_of(&chars, 0, end));
    }
    assert(line[at as int] == ':');
    let name = chars_of(string_of(&chars, 0, at).as_str());
    let lower = to_ascii_lower(&name);
    assert(chars@.subrange(0, at as int) =~= line.take(at as int));
    let wanted = chars_of("content-length");
    if lower.len() == wanted.len() && chars_at(&lower, 0, &wanted) {
        assert(lower@.subrange(0, lower@.len() as int) =~= lower@);
        let value = chars_of(string_of(&chars, at + 1, end).as_str());
        assert(value@ =~= line.subrange(at + 1, line.len() as int));
        let (lo, hi) = trim_range(&value);
        let text = string_of(&value, lo, hi);
        let digits = chars_of(text.as_str());
        match parse_usize(&digits) {
            Some(n) => Header::Length(n),
            None => Header::NonNumeric(text),
        }
    } else {
        assert(lower@.len() == wanted@.len() ==> lower@.subrange(0, lower@.len() as int)
            =~= lower@);
        Header::Other
    }
}

/// Reader of streams with `Content-Length` headers. Header names may be
/// written in any case; header lines end in a carriage return and a line feed.
pub struct LspFramedReader<R> {
    inner: R,
    buf: Vec<u8>,
    max_size: usize,
}

impl<R> LspFramedReader<R> {
    /// The bytes that were received and not used yet.
    pub closed spec fn pending(&self) -> Seq<u8> {
        self.buf@
    }

    /// The source of bytes.
    pub closed spec fn source(&self) -> R {
        self.inner
    }

    /// The bound on the size of a body.
    pub closed spec fn limit(&self) -> usize {
        self.max_size
    }

    /// A reader with the default bound.
    pub fn new(reader: R) -> (r: Self)
        ensures
            r.pending() == Seq::<u8>::empty(),
            r.source() == reader,
            r.limit() == 16 * 1024 * 1024,
    {
        LspFramedReader::with_max_size(reader, DEFAULT_MAX_MESSAGE_SIZE)
    }

    /// A reader that refuses bodies above `max_size` bytes.
    pub fn with_max_size(reader: R, max_size: usize) -> (r: Self)
        ensures
            r.pending() == Seq::<u8>::empty(),
            r.source() == reader,
            r.limit() == max_size,
    {
        LspFramedReader { inner: reader, buf: Vec::new(), max_size }
    }

    /// The source of bytes.
    pub fn inner_mut(&mut self) -> (r: &mut R)
        ensures
            *r == old(self).source(),
            final(self).source() == *final(r),
            final(self).pending() == old(self).pending(),
            final(self).limit() == old(self).limit(),
    {
        &mut self.inner
    }

    /// Takes in bytes that arrived.
    pub fn feed(&mut self, bytes: &[u8])
        ensures
            final(self).pending() == old(self).pending() + bytes@,
            final(self).source() == old(self).source(),
            final(self).limit() == old(self).limit(),
    {
        let mut more = slice_to_vec(bytes);
        self.buf.append(&mut more);
    }

    /// The next message. A body that is not JSON is used up. What is read is
    /// as it is held: written and, where it can be reread, read again, it is
    /// the same.
    pub fn read_message(&mut self, at_eof: bool) -> (r: Result<
        Framed<JsonRpcMessage>,
        FramingError,
    >)
        ensures
            final(self).source() == old(self).source(),
            final(self).limit() == old(self).limit(),
            match frame_at(old(self).pending(), at_eof, old(self).limit()) {
                FrameRead::Message { body, next } => is_received(r, parsed_bytes(body))
                    && final(self).pending() == dropped(old(self).pending(), next),
                FrameRead::NeedMore => r == Ok::<_, FramingError>(
                    Framed::<JsonRpcMessage>::NeedMore,
                ) && final(self).pending() == old(self).pending(),
                FrameRead::Over => r == Ok::<_, FramingError>(
                    Framed::<JsonRpcMessage>::EndOfStream,
                ) && final(self).pending() == old(self).pending(),
                FrameRead::Fault { fault, next } => (r matches Err(e) && is_fault(
                    e,
                    fault,
                    old(self).limit(),
                )) && final(self).pending() == dropped(old(self).pending(), next),
            },
            r matches Ok(Framed::Message(m)) ==> canonical(m.0@) == m.0@,
    {
        match self.read_body(at_eof) {
            Ok(Framed::Message(body)) => received(read_bytes(body.as_slice())),
            Ok(Framed::NeedMore) => Ok(Framed::NeedMore),
            Ok(Framed::EndOfStream) => Ok(Framed::EndOfStream),
            Err(e) => Err(e),
        }
    }

    /// The body of the next message.
    pub fn read_body(&mut self, at_eof: bool) -> (r: Result<Framed<Vec<u8>>, FramingError>)
        ensures
            final(self).source() == old(self).source(),
            final(self).limit() == old(self).limit(),
            match frame_at(old(self).pending(), at_eof, old(self).limit()) {
                FrameRead::Message { body, next } => (r matches Ok(Framed::Message(m)) && m@
                    == body) && final(self).pending() == dropped(old(self).pending(), next),
                FrameRead::NeedMore => r == Ok::<_, FramingError>(Framed::<Vec<u8>>::NeedMore)
                    && final(self).pending() == old(self).pending(),
                FrameRead::Over => r == Ok::<_, FramingError>(Framed::<Vec<u8>>::EndOfStream)
                    && final(self).pending() == old(self).pending(),
                FrameRead::Fault { fault, next } => (r matches Err(e) && is_fault(
                    e,
                    fault,
                    old(self).limit(),
                )) && final(self).pending() == dropped(old(self).pending(), next),
            },
    {
        let ghost buf = self.buf@;
        let limit = self.max_size;
        let mut length: Option<usize> = None;
        let mut pos: usize = 0;
        loop
            invariant_except_break
                headers_at(buf, pos as int, at_eof, length) == headers_at(buf, 0, at_eof, None),
            invariant
                pos <= self.buf.len(),
                limit == self.max_size,
                self.buf@ == buf,
                buf == old(self).buf@,
                self.inner == old(self).inner,
                self.max_size == old(self).max_size,
            ensures
                headers_at(buf, 0, at_eof, None) == (HeaderRead::Done { length, next: pos as int }),
            decreases self.buf.len() - pos,
        {
            match read_line(&self.buf, pos, at_eof) {
                Line::Text { text, next } => match parse_header(text.as_str()) {
                    Header::Blank => {
                        pos = next;
                        break;
                    },
                    Header::Length(n) => {
                        length = Some(n);
                        pos = next;
                    },
                    Header::Other => {
                        pos = next;
                    },
                    Header::Malformed(line) => {
                        drop_front(&mut self.buf, next);
                        return Err(
                            FramingError::InvalidContentLength(HeaderFault::MalformedLine(line)),
                        );
                    },
                    Header::NonNumeric(value) => {
                        drop_front(&mut self.buf, next);
                        return Err(
                            FramingError::InvalidContentLength(HeaderFault::NonNumeric(value)),
                        );
                    },
                },
                Line::NotText { next } => {
                    drop_front(&mut self.buf, next);
                    return Err(FramingError::NotText);
                },
                Line::NeedMore => {
                    return Ok(Framed::NeedMore);
                },
                Line::Over => {
                    if pos == 0 {
                        return Ok(Framed::EndOfStream);
                    }
                    drop_front(&mut self.buf, pos);
                    return Err(FramingError::InvalidContentLength(HeaderFault::UnexpectedEof));
                },
            }
        }
        let len = match length {
            Some(n) => n,
            None => {
                drop_front(&mut self.buf, pos);
                return Err(FramingError::InvalidContentLength(HeaderFault::Missing));
            },
        };
        if len > limit {
            drop_front(&mut self.buf, pos);
            return Err(FramingError::MessageTooLarge { size: len, limit });
        }
        if len <= self.buf.len() - pos {
            let body = slice_to_vec(slice_subrange(self.buf.as_slice(), pos, pos + len));
            drop_front(&mut self.buf, pos + len);
            return Ok(Framed::Message(body));
        }
        if at_eof {
            let n = self.buf.len();
            drop_front(&mut self.buf, n);
            return Err(FramingError::UnexpectedEof);
        }
        Ok(Framed::NeedMore)
    }
}

/// The bytes of a message on a line of its own.
pub open spec fn ndjson_bytes(body: Seq<u8>) -> Seq<u8> {
    body.push(10)
}

/// The header in front of a body of `len` bytes.
pub open spec fn length_header(len: nat) -> Seq<char> {
    "Content-Length: "@ + decimal(len) + "\r\n\r\n"@
}

/// The bytes of a message with a length header.
pub open spec fn lsp_bytes(body: Seq<u8>) -> Seq<u8> {
    encode_utf8(length_header(body.len())) + body
}

/// Whether the front of a stream of lines reads as a message, with `rest`
/// behind it.
pub open spec fn ndjson_gives(buf: Seq<u8>, at_eof: bool, v: JsonView, rest: Seq<u8>) -> bool {
    match ndjson_at(buf, 0, at_eof) {
        NdjsonRead::Message { text, next } => parsed_text(text) == Ok::<
            JsonView,
            serde_json::Error,
        >(v) && dropped(buf, next) == rest,
        _ => false,
    }
}

/// Whether the front of a stream with length headers reads as a message, with
/// `rest` behind it.
pub open spec fn frame_gives(
    buf: Seq<u8>,
    at_eof: bool,
    limit: usize,
    v: JsonView,
    rest: Seq<u8>,
) -> bool {
    match frame_at(buf, at_eof, limit) {
        FrameRead::Message { body, next } => parsed_bytes(body) == Ok::<
            JsonView,
            serde_json::Error,
        >(v) && dropped(buf, next) == rest,
        _ => false,
    }
}

/// Writer of streams with one message per line.
pub struct NdjsonWriter<W> {
    inner: W,
}

impl<W> NdjsonWriter<W> {
    /// The sink of bytes.
    pub closed spec fn sink(&self) -> W {
        self.inner
    }

    /// A writer to a sink of bytes.
    pub fn new(writer: W) -> (r: Self)
        ensures
            r.sink() == writer,
    {
        NdjsonWriter { inner: writer }
    }

    /// The bytes to send for a message. Where the message can be reread, the
    /// first line of a stream that begins with them reads as the message, and
    /// what follows them is left.
    pub fn frame(message: &JsonRpcMessage) -> (r: Vec<u8>)
        ensures
            r@ == ndjson_bytes(json_bytes(message.0@)),
            rereads(canonical(message.0@)) ==> forall|rest: Seq<u8>, at_eof: bool|
                #![trigger ndjson_at(r@ + rest, 0, at_eof)]
                ndjson_gives(r@ + rest, at_eof, canonical(message.0@), rest),
    {
        let body = write_json(&message.0);
        let ghost bytes = body@;
        let framed = Self::frame_line(body);
        proof {
            let text = choose|text: Seq<char>| is_line(bytes, text);
            if rereads(canonical(message.0@)) {
                assert forall|rest: Seq<u8>, at_eof: bool|
                    #![trigger ndjson_at(framed@ + rest, 0, at_eof)]
                    ndjson_gives(framed@ + rest, at_eof, canonical(message.0@), rest) by {
                    law_ndjson_round_trip(text, rest, at_eof);
                }
            }
        }
        framed
    }

    /// The bytes to send for a line.
    pub fn frame_line(body: Vec<u8>) -> (r: Vec<u8>)
        ensures
            r@ == ndjson_bytes(body@),
    {
        let mut bytes = body;
        bytes.push(10);
        bytes
    }

    /// The sink of bytes.
    pub fn inner_mut(&mut self) -> (r: &mut W)
        ensures
            *r == old(self).sink(),
            final(self).sink() == *final(r),
    {
        &mut self.inner
    }

    /// Gives the sink back.
    pub fn into_inner(self) -> (r: W)
        ensures
            r == self.sink(),
    {
        self.inner
    }
}

/// Writer of streams with `Content-Length` headers.
pub struct LspFramedWriter<W> {
    inner: W,
}

impl<W> LspFramedWriter<W> {
    /// The sink of bytes.
    pub closed spec fn sink(&self) -> W {
        self.inner
    }

    /// A writer to a sink of bytes.
    pub fn new(writer: W) -> (r: Self)
        ensures
            r.sink() == writer,
    {
        LspFramedWriter { inner: writer }
    }

    /// The bytes to send for a message. Where the message can be reread and
    /// is within the bound, the first frame of a stream that begins with them
    /// reads as the message, and what follows them is left.
    pub fn frame(message: &JsonRpcMessage) -> (r: Vec<u8>)
        ensures
            r@ == lsp_bytes(json_bytes(message.0@)),
            rereads(canonical(message.0@)) ==> forall|rest: Seq<u8>, at_eof: bool, limit: usize|
                #![trigger frame_at(r@ + rest, at_eof, limit)]
                json_bytes(message.0@).len() <= limit ==> frame_gives(
                    r@ + rest,
                    at_eof,
                    limit,
                    canonical(message.0@),
                    rest,
                ),
    {
        let body = write_json(&message.0);
        let framed = Self::frame_body(body.as_slice());
        proof {
            if rereads(canonical(message.0@)) {
                assert forall|rest: Seq<u8>, at_eof: bool, limit: usize|
                    #![trigger frame_at(framed@ + rest, at_eof, limit)]
                    body@.len() <= limit implies frame_gives(
                    framed@ + rest,
                    at_eof,
                    limit,
                    canonical(message.0@),
                    rest,
                ) by {
                    law_lsp_round_trip(body@, rest, at_eof, limit);
                }
            }
        }
        framed
    }

    /// The bytes to send for a body.
    pub fn frame_body(body: &[u8]) -> (r: Vec<u8>)
        ensures
            r@ == lsp_bytes(body@),
    {
        let mut header = "Content-Length: ".to_owned();
        header.append(decimal_string(body.len() as u64).as_str());
        header.append("\r\n\r\n");
        let mut bytes = slice_to_vec(header.as_str().as_bytes());
        let mut tail = slice_to_vec(body);
        bytes.append(&mut tail);
        bytes
    }

    /// The sink of bytes.
    pub fn inner_mut(&mut self) -> (r: &mut W)
        ensures
            *r == old(self).sink(),
            final(self).sink() == *final(r),
    {
        &mut self.inner
    }

    /// Gives the sink back.
    pub fn into_inner(self) -> (r: W)
        ensures
            r == self.sink(),
    {
        self.inner
    }
}

} // verus!
