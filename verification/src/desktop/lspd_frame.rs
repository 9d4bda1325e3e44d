//! Reading the frames that language servers send.
//!
//! A frame is a block of header lines that ends in an empty line, and a body
//! whose length one of the lines declares. The reader here takes the header
//! as one block of text and knows the name of the length header in two
//! spellings only.
use crate::framing::{length_header, lsp_bytes};
use crate::text::{
    char_whitespace, chars_at, chars_of, decimal, digit_value, law_decimal_round_trip,
    number_of, parse_usize, string_of, text_at, text_starts, trim_range, trim_start,
    trimmed, utf8_text,
};
use vstd::prelude::*;
use vstd::slice::{slice_subrange, slice_to_vec};
use vstd::utf8::{
    decode_utf8, encode_utf8, encode_utf8_decode_utf8, encode_utf8_valid_utf8, is_ascii_chars,
    is_ascii_chars_encode_utf8, valid_utf8,
};

verus! {

/// Whether the two line ends that close a header stand at `pos`.
pub open spec fn blank_line_at(buf: Seq<u8>, pos: int) -> bool {
    &&& 0 <= pos
    &&& pos + 4 <= buf.len()
    &&& buf[pos] == 13
    &&& buf[pos + 1] == 10
    &&& buf[pos + 2] == 13
    &&& buf[pos + 3] == 10
}

/// Where the first header ends at or behind `pos`: behind its two line ends.
pub open spec fn header_end(buf: Seq<u8>, pos: int) -> Option<int>
    decreases buf.len() - pos,
{
    if pos + 4 > buf.len() {
        None
    } else if blank_line_at(buf, pos) {
        Some(pos + 4)
    } else {
        header_end(buf, pos + 1)
    }
}

/// The place of the first line end at or behind `pos`, or the length of the
/// text.
pub open spec fn line_end(text: Seq<char>, pos: int) -> int
    decreases text.len() - pos,
{
    if pos + 2 > text.len() {
        text.len() as int
    } else if text[pos] == '\r' && text[pos + 1] == '\n' {
        pos
    } else {
        line_end(text, pos + 1)
    }
}

/// What a header line declares as the length, where it does.
pub open spec fn declared(line: Seq<char>) -> Option<Seq<char>> {
    if text_starts(line, "Content-Length:"@) || text_starts(line, "content-length:"@) {
        Some(trimmed(line.skip(15)))
    } else {
        None
    }
}

/// What a header says of the length of the body.
pub enum DeclaredLength {
    Length(usize),
    Missing,
    NotNumber,
}

/// What a header line makes of what the lines before it declared; none where
/// it declares something that is not a number.
pub open spec fn redeclared(line: Seq<char>, found: Option<usize>) -> Option<Option<usize>> {
    match declared(line) {
        Some(value) => match number_of(value, usize::MAX as nat) {
            Some(n) => Some(Some(n as usize)),
            None => None,
        },
        None => Some(found),
    }
}

/// What the header lines from `pos` on say of the length, where those before
/// declared `found`. The last declaration counts.
pub open spec fn declared_length(
    text: Seq<char>,
    pos: int,
    found: Option<usize>,
) -> DeclaredLength
    decreases text.len() - pos,
{
    let end = line_end(text, pos);
    match redeclared(text.subrange(pos, end), found) {
        None => DeclaredLength::NotNumber,
        Some(now) => if pos <= end && end + 2 <= text.len() {
            declared_length(text, end + 2, now)
        } else {
            match now {
                Some(n) => DeclaredLength::Length(n),
                None => DeclaredLength::Missing,
            }
        },
    }
}

/// What the bytes of a stream begin with.
pub enum FrontRead {
    Message { text: Seq<char>, used: int },
    NeedMore,
    Over,
    Fault(LspFrameError),
}

/// Why a frame could not be read.
#[derive(Debug, Clone, Copy, PartialEq, Eq, Structural)]
pub enum LspFrameError {
    /// The stream ends inside a header.
    EofInHeader,
    /// The header is not text.
    HeaderNotText,
    /// The declared length is not a number.
    LengthNotNumber,
    /// No length is declared.
    LengthMissing,
    /// The stream ends inside a body.
    EofInBody,
    /// The body is not text.
    BodyNotText,
}

/// Reads the front of a stream of frames.
pub open spec fn lsp_front(buf: Seq<u8>, at_eof: bool) -> FrontRead {
    match header_end(buf, 0) {
        None => if !at_eof {
            FrontRead::NeedMore
        } else if buf.len() == 0 {
            FrontRead::Over
        } else {
            FrontRead::Fault(LspFrameError::EofInHeader)
        },
        Some(start) => if !valid_utf8(buf.take(start)) {
            FrontRead::Fault(LspFrameError::HeaderNotText)
        } else {
            match declared_length(decode_utf8(buf.take(start)), 0, None) {
                DeclaredLength::NotNumber => FrontRead::Fault(LspFrameError::LengthNotNumber),
                DeclaredLength::Missing => FrontRead::Fault(LspFrameError::LengthMissing),
                DeclaredLength::Length(len) => if start + len <= buf.len() {
                    let body = buf.subrange(start, start + len);
                    if valid_utf8(body) {
                        FrontRead::Message { text: decode_utf8(body), used: start + len }
                    } else {
                        FrontRead::Fault(LspFrameError::BodyNotText)
                    }
                } else if at_eof {
                    FrontRead::Fault(LspFrameError::EofInBody)
                } else {
                    FrontRead::NeedMore
                },
            }
        },
    }
}

/// What stands at the front of a stream of frames.
#[derive(Debug, PartialEq, Eq)]
pub enum LspFrame {
    /// A message, in the first `used` bytes.
    Message { text: String, used: usize },
    /// Part of a frame.
    NeedMore,
    /// Nothing, and nothing will follow.
    EndOfStream,
}

/// Finds the end of the first header.
fn find_header_end(buf: &Vec<u8>) -> (r: Option<usize>)
    ensures
        match r {
            Some(end) => header_end(buf@, 0) == Some(end as int) && 4 <= end <= buf.len(),
            None => header_end(buf@, 0) is None,
        },
{
    let mut pos: usize = 0;
    while pos < buf.len() && buf.len() - pos >= 4
        invariant
            pos <= buf.len(),
            header_end(buf@, pos as int) == header_end(buf@, 0),
        decreases buf.len() - pos,
    {
        if buf[pos] == 13 && buf[pos + 1] == 10 && buf[pos + 2] == 13 && buf[pos + 3] == 10 {
            return Some(pos + 4);
        }
        pos = pos + 1;
    }
    None
}

/// Finds the end of the line that begins at `pos`.
fn find_line_end(text: &Vec<char>, pos: usize) -> (r: usize)
    requires
        pos <= text.len(),
    ensures
        r == line_end(text@, pos as int),
        pos <= r <= text.len(),
{
    let mut at: usize = pos;
    while at < text.len() && text.len() - at >= 2
        invariant
            pos <= at <= text.len(),
            line_end(text@, at as int) == line_end(text@, pos as int),
        decreases text.len() - at,
    {
        if text[at] == '\r' && text[at + 1] == '\n' {
            return at;
        }
        at = at + 1;
    }
    text.len()
}

/// What a header says of the length of the body: an error where a declared
/// length is not a number, none where no length is declared.
fn scan_lengths(text: &Vec<char>) -> (r: Result<Option<usize>, ()>)
    ensures
        declared_length(text@, 0, None) == (match r {
            Ok(Some(n)) => DeclaredLength::Length(n),
            Ok(None) => DeclaredLength::Missing,
            Err(_) => DeclaredLength::NotNumber,
        }),
{
    let upper = chars_of("Content-Length:");
    let lower = chars_of("content-length:");
    proof {
        reveal_strlit("Content-Length:");
        reveal_strlit("content-length:");
    }
    let mut found: Option<usize> = None;
    let mut pos: usize = 0;
    loop
        invariant
            pos <= text.len(),
            upper@ == "Content-Length:"@,
            lower@ == "content-length:"@,
            upper@.len() == 15,
            lower@.len() == 15,
            declared_length(text@, pos as int, found) == declared_length(text@, 0, None),
        decreases text.len() - pos,
    {
        let end = find_line_end(text, pos);
        let ghost line = text@.subrange(pos as int, end as int);
        let line_chars = chars_of(string_of(text, pos, end).as_str());
        assert(line_chars@ == line);
        if chars_at(&line_chars, 0, &upper) || chars_at(&line_chars, 0, &lower) {
            let rest = chars_of(string_of(&line_chars, 15, line_chars.len()).as_str());
            assert(rest@ =~= line.skip(15));
            let (lo, hi) = trim_range(&rest);
            let digits = chars_of(string_of(&rest, lo, hi).as_str());
            match parse_usize(&digits) {
                Some(n) => {
                    found = Some(n);
                },
                None => {
                    return Err(());
                },
            }
        }
        if text.len() - end < 2 {
            return Ok(found);
        }
        pos = end + 2;
    }
}

/// Reads the front of a stream of frames. `at_eof` says that no bytes will
/// follow those in `buf`.
pub fn read_lsp_frame(buf: &Vec<u8>, at_eof: bool) -> (r: Result<LspFrame, LspFrameError>)
    ensures
        match lsp_front(buf@, at_eof) {
            FrontRead::Message { text, used } => r matches Ok(
                LspFrame::Message { text: t, used: u },
            ) && t@ == text && u == used && u <= buf.len(),
            FrontRead::NeedMore => r matches Ok(LspFrame::NeedMore),
            FrontRead::Over => r matches Ok(LspFrame::EndOfStream),
            FrontRead::Fault(fault) => r == Err::<LspFrame, LspFrameError>(fault),
        },
{
    let start = match find_header_end(buf) {
        Some(start) => start,
        None => {
            return if !at_eof {
                Ok(LspFrame::NeedMore)
            } else if buf.len() == 0 {
                Ok(LspFrame::EndOfStream)
            } else {
                Err(LspFrameError::EofInHeader)
            };
        },
    };
    let header = slice_to_vec(slice_subrange(buf.as_slice(), 0, start));
    assert(header@ =~= buf@.take(start as int));
    let text = match utf8_text(header) {
        Some(text) => text,
        None => {
            return Err(LspFrameError::HeaderNotText);
        },
    };
    let len = match scan_lengths(&chars_of(text.as_str())) {
        Err(_) => {
            return Err(LspFrameError::LengthNotNumber);
        },
        Ok(None) => {
            return Err(LspFrameError::LengthMissing);
        },
        Ok(Some(len)) => len,
    };
    if len > buf.len() - start {
        return if at_eof {
            Err(LspFrameError::EofInBody)
        } else {
            Ok(LspFrame::NeedMore)
        };
    }
    let body = slice_to_vec(slice_subrange(buf.as_slice(), start, start + len));
    match utf8_text(body) {
        Some(text) => Ok(LspFrame::Message { text, used: start + len }),
        None => Err(LspFrameError::BodyNotText),
    }
}

proof fn lemma_header_end(buf: Seq<u8>, pos: int, at: int)
    requires
        0 <= pos <= at,
        blank_line_at(buf, at),
        forall|i: int| pos <= i < at ==> #[trigger] buf[i] != 13,
    ensures
        header_end(buf, pos) == Some(at + 4),
    decreases at - pos,
{
    if pos < at {
        assert(buf[pos] != 13);
        lemma_header_end(buf, pos + 1, at);
    }
}

proof fn lemma_line_end(text: Seq<char>, pos: int, at: int)
    requires
        0 <= pos <= at,
        at + 2 <= text.len(),
        text[at] == '\r' && text[at + 1] == '\n',
        forall|i: int| pos <= i < at ==> #[trigger] text[i] != '\r',
    ensures
        line_end(text, pos) == at,
    decreases at - pos,
{
    if pos < at {
        assert(text[pos] != '\r');
        lemma_line_end(text, pos + 1, at);
    }
}

/// What the header of a frame says of the length.
proof fn lemma_own_header(len: usize)
    ensures
        declared_length(length_header(len as nat), 0, None) == DeclaredLength::Length(len),
{
    reveal_strlit("Content-Length: ");
    reveal_strlit("Content-Length:");
    reveal_strlit("content-length:");
    reveal_strlit("\r\n\r\n");
    let text = length_header(len as nat);
    let digits = decimal(len as nat);
    law_decimal_round_trip(len as nat);
    let d = digits.len() as int;
    assert forall|i: int| 0 <= i < 16 + d implies #[trigger] text[i] != '\r' by {
        if i < 16 {
            assert(text[i] == "Content-Length: "@[i]);
        } else {
            assert(text[i] == digits[i - 16]);
            assert(digit_value(digits[i - 16]) < 10);
        }
    }
    assert(text[16 + d] == "\r\n\r\n"@[0]);
    assert(text[17 + d] == "\r\n\r\n"@[1]);
    assert(text[18 + d] == "\r\n\r\n"@[2]);
    assert(text[19 + d] == "\r\n\r\n"@[3]);
    lemma_line_end(text, 0, 16 + d);
    let line = text.subrange(0, 16 + d);
    assert(line.subrange(0, 15) =~= "Content-Length:"@);
    assert(text_at(line, 0, "Content-Length:"@));
    let rest = line.skip(15);
    assert(rest[0] == ' ');
    assert(rest.drop_first() =~= digits);
    assert(digit_value(digits[0]) < 10);
    assert(digit_value(digits[d - 1]) < 10);
    assert(!char_whitespace(digits[0]));
    assert(!char_whitespace(digits.last()));
    assert(trim_start(digits) == digits);
    assert(trimmed(rest) == digits);
    let n = text.len() as int;
    assert(n == 20 + d);
    let last = text.subrange(n, line_end(text, n));
    assert(declared(last) is None);
    assert(declared_length(text, n, Some(len)) == DeclaredLength::Length(len));
    let blank = text.subrange(18 + d, line_end(text, 18 + d));
    assert(declared(blank) is None);
    assert(declared_length(text, 18 + d, Some(len)) == DeclaredLength::Length(len));
}

/// A message that was framed is read back, whatever follows it.
pub proof fn law_lsp_front_round_trip(text: Seq<char>, rest: Seq<u8>, at_eof: bool)
    requires
        encode_utf8(text).len() <= usize::MAX,
    ensures
        lsp_front(lsp_bytes(encode_utf8(text)) + rest, at_eof) == (FrontRead::Message {
            text,
            used: lsp_bytes(encode_utf8(text)).len() as int,
        }),
{
    reveal_strlit("Content-Length: ");
    reveal_strlit("\r\n\r\n");
    let body = encode_utf8(text);
    let len = body.len() as usize;
    let header = length_header(len as nat);
    let digits = decimal(len as nat);
    law_decimal_round_trip(len as nat);
    let d = digits.len() as int;
    let buf = lsp_bytes(body) + rest;
    assert forall|i: int| 0 <= i < header.len() implies '\0' <= #[trigger] header[i] <= '\u{7f}' by {
        if i < 16 {
            assert(header[i] == "Content-Length: "@[i]);
        } else if i < 16 + d {
            assert(header[i] == digits[i - 16]);
            assert(digit_value(digits[i - 16]) < 10);
        } else {
            assert(header[i] == "\r\n\r\n"@[i - 16 - d]);
        }
    }
    assert(is_ascii_chars(header));
    is_ascii_chars_encode_utf8(header);
    let head = encode_utf8(header);
    assert forall|i: int| 0 <= i < 16 + d implies #[trigger] buf[i] != 13 by {
        assert(buf[i] == head[i]);
        assert(head[i] == header[i] as u8);
        if i < 16 {
            assert(header[i] == "Content-Length: "@[i]);
        } else {
            assert(header[i] == digits[i - 16]);
            assert(digit_value(digits[i - 16]) < 10);
        }
    }
    assert forall|i: int| 0 <= i < 4 implies #[trigger] buf[16 + d + i] == "\r\n\r\n"@[i] as u8 by {
        assert(buf[16 + d + i] == head[16 + d + i]);
        assert(header[16 + d + i] == "\r\n\r\n"@[i]);
    }
    assert(buf[16 + d + 0] == 13 && buf[16 + d + 1] == 10 && buf[16 + d + 2] == 13
        && buf[16 + d + 3] == 10);
    lemma_header_end(buf, 0, 16 + d);
    assert(buf.take(20 + d) =~= head);
    encode_utf8_valid_utf8(header);
    encode_utf8_decode_utf8(header);
    lemma_own_header(len);
    assert(buf.subrange(20 + d, 20 + d + len) =~= body);
    encode_utf8_valid_utf8(text);
    encode_utf8_decode_utf8(text);
}

} // verus!
