//! Records: their bytes, and reading them back.
use crate::text::{concat_text, decimal, decimal_string, hex_byte, hex_char};
use crate::wal::crc::{crc32c, crc_run, update_crc, update_crc_run};
use vstd::prelude::*;
use vstd::slice::{slice_subrange, slice_to_vec};

verus! {

/// Record kinds.
#[derive(Debug, Clone, Copy, PartialEq, Eq, Structural)]
pub enum RecordKind {
    TurnStarted,
    ServerNotification,
    UserOp,
    ApprovalDecision,
    TurnCompleted,
    Sentinel,
}

/// The byte that stands for a kind.
pub open spec fn kind_byte(kind: RecordKind) -> u8 {
    match kind {
        RecordKind::TurnStarted => 0x01,
        RecordKind::ServerNotification => 0x02,
        RecordKind::UserOp => 0x03,
        RecordKind::ApprovalDecision => 0x04,
        RecordKind::TurnCompleted => 0x05,
        RecordKind::Sentinel => 0x7F,
    }
}

/// The kind that a byte stands for.
pub open spec fn kind_of(b: u8) -> Option<RecordKind> {
    if b == 0x01 {
        Some(RecordKind::TurnStarted)
    } else if b == 0x02 {
        Some(RecordKind::ServerNotification)
    } else if b == 0x03 {
        Some(RecordKind::UserOp)
    } else if b == 0x04 {
        Some(RecordKind::ApprovalDecision)
    } else if b == 0x05 {
        Some(RecordKind::TurnCompleted)
    } else if b == 0x7F {
        Some(RecordKind::Sentinel)
    } else {
        None
    }
}

impl RecordKind {
    /// The kind that a byte stands for, if any.
    pub fn from_u8(b: u8) -> (r: Option<RecordKind>)
        ensures
            r == kind_of(b),
            forall|k: RecordKind| r == Some(k) <==> #[trigger] kind_byte(k) == b,
    {
        match b {
            0x01 => Some(RecordKind::TurnStarted),
            0x02 => Some(RecordKind::ServerNotification),
            0x03 => Some(RecordKind::UserOp),
            0x04 => Some(RecordKind::ApprovalDecision),
            0x05 => Some(RecordKind::TurnCompleted),
            0x7F => Some(RecordKind::Sentinel),
            _ => None,
        }
    }

    /// The byte that stands for the kind.
    pub fn to_u8(self) -> (r: u8)
        ensures
            r == kind_byte(self),
    {
        match self {
            RecordKind::TurnStarted => 0x01,
            RecordKind::ServerNotification => 0x02,
            RecordKind::UserOp => 0x03,
            RecordKind::ApprovalDecision => 0x04,
            RecordKind::TurnCompleted => 0x05,
            RecordKind::Sentinel => 0x7F,
        }
    }

    /// Kinds after which the writer syncs the file.
    pub fn is_durability_boundary(self) -> (r: bool)
        ensures
            r == (self is TurnCompleted || self is ApprovalDecision),
    {
        matches!(self, RecordKind::TurnCompleted | RecordKind::ApprovalDecision)
    }
}

/// A kind's byte stands for that kind and no other.
pub proof fn law_kind_round_trip(kind: RecordKind, b: u8)
    ensures
        kind_of(kind_byte(kind)) == Some(kind),
        kind_of(b) == Some(kind) ==> kind_byte(kind) == b,
{
}

/// One record of a log. The payload is opaque.
#[derive(Debug, PartialEq, Eq)]
pub struct Record {
    pub kind: RecordKind,
    pub payload: Vec<u8>,
}

/// The content of a [`Record`].
pub struct RecordView {
    pub kind: RecordKind,
    pub payload: Seq<u8>,
}

impl View for Record {
    type V = RecordView;

    open spec fn view(&self) -> RecordView {
        RecordView { kind: self.kind, payload: self.payload@ }
    }
}

impl Clone for Record {
    fn clone(&self) -> (r: Self)
        ensures
            r@ == self@,
    {
        Record { kind: self.kind, payload: slice_to_vec(self.payload.as_slice()) }
    }
}

/// The contents of a run of records.
pub open spec fn record_views(s: Seq<Record>) -> Seq<RecordView> {
    Seq::new(s.len(), |i: int| s[i]@)
}

/// Why a log could not be read to its end.
#[derive(Debug, PartialEq, Eq)]
pub enum WalReadError {
    /// The file could not be read.
    Io(String),
    /// The last record is incomplete. Holds the records before it.
    Truncated { records_recovered: usize, records: Vec<Record> },
    /// A record has an unknown kind.
    InvalidKind(u8),
    /// The checksum of the record at `index` does not match. Holds the
    /// records before it.
    CrcMismatch { index: usize, records: Vec<Record> },
}

impl WalReadError {
    /// What is said of the error.
    pub open spec fn text(&self) -> Seq<char> {
        match self {
            WalReadError::Io(why) => "io: "@ + why@,
            WalReadError::Truncated { records_recovered, records: _ } => "truncated WAL after "@
                + decimal(*records_recovered as nat) + " record(s)"@,
            WalReadError::InvalidKind(b) => "invalid record kind 0x"@ + seq![
                hex_char((b / 16) as nat),
                hex_char((b % 16) as nat),
            ],
            WalReadError::CrcMismatch { index, records: _ } => "CRC mismatch at record "@
                + decimal(*index as nat),
        }
    }

    /// What is said of the error.
    pub fn message(&self) -> (r: String)
        ensures
            r@ == self.text(),
    {
        match self {
            WalReadError::Io(why) => concat_text("io: ", why.as_str()),
            WalReadError::Truncated { records_recovered, records: _ } => {
                let count = decimal_string(*records_recovered as u64);
                let mut out = concat_text("truncated WAL after ", count.as_str());
                out.append(" record(s)");
                out
            },
            WalReadError::InvalidKind(b) => concat_text(
                "invalid record kind 0x",
                hex_byte(*b).as_str(),
            ),
            WalReadError::CrcMismatch { index, records: _ } => concat_text(
                "CRC mismatch at record ",
                decimal_string(*index as u64).as_str(),
            ),
        }
    }
}

/// The four bytes of a number, least significant first.
pub open spec fn le_bytes(x: u32) -> Seq<u8> {
    seq![
        (x % 256) as u8,
        (x / 256 % 256) as u8,
        (x / 65536 % 256) as u8,
        (x / 16777216) as u8,
    ]
}

/// The number that the first four bytes stand for.
pub open spec fn le_value(s: Seq<u8>) -> u32
    recommends
        s.len() >= 4,
{
    (s[0] + 256 * s[1] + 65536 * s[2] + 16777216 * s[3]) as u32
}

/// The bytes that the checksum of a record covers.
pub open spec fn record_body(r: RecordView) -> Seq<u8> {
    seq![kind_byte(r.kind)] + r.payload
}

/// Whether the length of a record fits its length field.
pub open spec fn record_fits(r: RecordView) -> bool {
    1 + r.payload.len() <= u32::MAX
}

/// The bytes of a record.
pub open spec fn record_bytes(r: RecordView) -> Seq<u8> {
    le_bytes(record_body(r).len() as u32) + record_body(r) + le_bytes(crc32c(record_body(r)))
}

/// The bytes of a run of records.
pub open spec fn log_bytes(rs: Seq<RecordView>) -> Seq<u8>
    decreases rs.len(),
{
    if rs.len() == 0 {
        Seq::empty()
    } else {
        record_bytes(rs[0]) + log_bytes(rs.drop_first())
    }
}

/// What stands at the front of a log that is not empty.
pub enum Head {
    /// A whole record and how many bytes it takes.
    Whole { record: RecordView, size: nat },
    /// Less than a whole record, or a record of length zero.
    Incomplete,
    /// A record of unknown kind.
    UnknownKind(u8),
    /// A record whose checksum does not match.
    BadChecksum,
}

/// Reads the front of a log.
pub open spec fn head_of(buf: Seq<u8>) -> Head {
    if buf.len() < 4 {
        Head::Incomplete
    } else {
        let len = le_value(buf) as int;
        if len == 0 || buf.len() < len + 8 {
            Head::Incomplete
        } else {
            let body = buf.subrange(4, 4 + len);
            match kind_of(body[0]) {
                None => Head::UnknownKind(body[0]),
                Some(kind) => if le_value(buf.subrange(4 + len, 8 + len)) != crc32c(body) {
                    Head::BadChecksum
                } else {
                    Head::Whole {
                        record: RecordView { kind, payload: body.drop_first() },
                        size: (len + 8) as nat,
                    }
                },
            }
        }
    }
}

/// How reading a log ends.
pub enum Ending {
    Clean,
    Truncated,
    InvalidKind(u8),
    CrcMismatch,
}

/// The whole records at the front of a log, and how reading it ends.
pub open spec fn decoded(buf: Seq<u8>) -> (Seq<RecordView>, Ending)
    decreases buf.len(),
{
    if buf.len() == 0 {
        (Seq::empty(), Ending::Clean)
    } else {
        match head_of(buf) {
            Head::Whole { record, size } => {
                let (rest, ending) = decoded(buf.subrange(size as int, buf.len() as int));
                (seq![record] + rest, ending)
            },
            Head::Incomplete => (Seq::empty(), Ending::Truncated),
            Head::UnknownKind(b) => (Seq::empty(), Ending::InvalidKind(b)),
            Head::BadChecksum => (Seq::empty(), Ending::CrcMismatch),
        }
    }
}

/// The result that stands for what was decoded.
pub open spec fn decode_result(
    r: Result<Vec<Record>, WalReadError>,
    records: Seq<RecordView>,
    ending: Ending,
) -> bool {
    match ending {
        Ending::Clean => r matches Ok(v) && record_views(v@) == records,
        Ending::Truncated => r matches Err(WalReadError::Truncated { records_recovered, records: v })
            && record_views(v@) == records && records_recovered == records.len(),
        Ending::InvalidKind(b) => r matches Err(WalReadError::InvalidKind(c)) && c == b,
        Ending::CrcMismatch => r matches Err(WalReadError::CrcMismatch { index, records: v })
            && record_views(v@) == records && index == records.len(),
    }
}

/// The checksum of `kind || payload`.
pub fn compute_crc32c(kind: RecordKind, payload: &[u8]) -> (r: u32)
    ensures
        r == crc32c(seq![kind_byte(kind)] + payload@),
{
    let first = update_crc(0xFFFF_FFFF, kind.to_u8());
    let c = update_crc_run(first, payload);
    proof {
        let front = seq![kind_byte(kind)];
        assert(front.drop_last() =~= Seq::<u8>::empty());
        assert(crc_run(0xFFFF_FFFF, front.drop_last()) == 0xFFFF_FFFFu32);
        assert(crc_run(0xFFFF_FFFF, front) == first);
        lemma_crc_run_concat(0xFFFF_FFFF, front, payload@);
    }
    c ^ 0xFFFF_FFFF
}

proof fn lemma_crc_run_concat(crc: u32, a: Seq<u8>, b: Seq<u8>)
    ensures
        crc_run(crc, a + b) == crc_run(crc_run(crc, a), b),
    decreases b.len(),
{
    if b.len() == 0 {
        assert(a + b =~= a);
    } else {
        lemma_crc_run_concat(crc, a, b.drop_last());
        assert((a + b).drop_last() =~= a + b.drop_last());
        assert((a + b).last() == b.last());
    }
}

/// Appends the four bytes of `x`, least significant first.
fn push_le(out: &mut Vec<u8>, x: u32)
    ensures
        final(out)@ == old(out)@ + le_bytes(x),
{
    out.push((x % 256) as u8);
    out.push((x / 256 % 256) as u8);
    out.push((x / 65536 % 256) as u8);
    out.push((x / 16777216) as u8);
    assert(out@ =~= old(out)@ + le_bytes(x));
}

/// The number that four bytes at `pos` stand for.
fn read_le(buf: &[u8], pos: usize) -> (r: u32)
    requires
        pos + 4 <= buf.len(),
    ensures
        r == le_value(buf@.subrange(pos as int, pos + 4)),
{
    let ghost part = buf@.subrange(pos as int, pos + 4);
    assert(part[0] == buf@[pos as int] && part[1] == buf@[pos + 1] && part[2] == buf@[pos + 2]
        && part[3] == buf@[pos + 3]);
    (buf[pos] as u32) + 256 * (buf[pos + 1] as u32) + 65536 * (buf[pos + 2] as u32) + 16777216 * (
    buf[pos + 3] as u32)
}

/// The bytes of a record, or `None` where the payload is too long for the
/// length field.
pub fn encode_record(kind: RecordKind, payload: &[u8]) -> (r: Option<Vec<u8>>)
    ensures
        match r {
            Some(bytes) => record_fits(RecordView { kind, payload: payload@ }) && bytes@
                == record_bytes(RecordView { kind, payload: payload@ }),
            None => !record_fits(RecordView { kind, payload: payload@ }),
        },
{
    let ghost view = RecordView { kind, payload: payload@ };
    if payload.len() >= u32::MAX as usize {
        return None;
    }
    let len: u32 = 1 + payload.len() as u32;
    assert(len == record_body(view).len());
    let crc = compute_crc32c(kind, payload);
    let mut out: Vec<u8> = Vec::new();
    push_le(&mut out, len);
    out.push(kind.to_u8());
    let mut body = slice_to_vec(payload);
    out.append(&mut body);
    push_le(&mut out, crc);
    assert(out@ =~= record_bytes(view));
    Some(out)
}

/// Reads a log back, given what reading its file gave: its bytes, or what went
/// wrong.
pub fn replay(file: Result<Vec<u8>, String>) -> (r: Result<Vec<Record>, WalReadError>)
    ensures
        match file {
            Ok(bytes) => decode_result(r, decoded(bytes@).0, decoded(bytes@).1),
            Err(why) => r matches Err(WalReadError::Io(said)) && said@ == why@,
        },
{
    match file {
        Ok(bytes) => decode_records(bytes.as_slice()),
        Err(why) => Err(WalReadError::Io(why)),
    }
}

/// Reads the records of a log.
pub fn decode_records(buf: &[u8]) -> (r: Result<Vec<Record>, WalReadError>)
    ensures
        decode_result(r, decoded(buf@).0, decoded(buf@).1),
{
    let ghost whole = decoded(buf@);
    let n = buf.len();
    let mut out: Vec<Record> = Vec::new();
    let mut pos: usize = 0;
    assert(buf@.subrange(0, n as int) =~= buf@);
    assert(record_views(out@) + whole.0 =~= whole.0);
    while pos < n
        invariant
            pos <= n,
            n == buf.len(),
            whole == decoded(buf@),
            record_views(out@) + decoded(buf@.subrange(pos as int, n as int)).0 == whole.0,
            decoded(buf@.subrange(pos as int, n as int)).1 == whole.1,
        decreases n - pos,
    {
        let ghost rest = buf@.subrange(pos as int, n as int);
        if n - pos < 4 {
            assert(record_views(out@) =~= whole.0);
            return Err(WalReadError::Truncated { records_recovered: out.len(), records: out });
        }
        let len32 = read_le(buf, pos);
        let len = len32 as usize;
        assert(rest.subrange(0, 4) =~= buf@.subrange(pos as int, pos + 4));
        assert(le_value(rest) == le_value(rest.subrange(0, 4)));
        let left = n - pos - 4;
        if len == 0 || left < len || left - len < 4 {
            assert(record_views(out@) =~= whole.0);
            return Err(WalReadError::Truncated { records_recovered: out.len(), records: out });
        }
        let at = pos + 4;
        let ghost body = rest.subrange(4, 4 + len);
        assert(body =~= buf@.subrange(at as int, at + len));
        assert(body[0] == buf@[at as int]);
        let kind = match RecordKind::from_u8(buf[at]) {
            Some(kind) => kind,
            None => {
                return Err(WalReadError::InvalidKind(buf[at]));
            },
        };
        let payload = slice_to_vec(slice_subrange(buf, at + 1, at + len));
        assert(payload@ =~= body.drop_first());
        assert(seq![kind_byte(kind)] + payload@ =~= body);
        let stored = read_le(buf, at + len);
        assert(rest.subrange(4 + len, 8 + len) =~= buf@.subrange(at + len, at + len + 4));
        let computed = compute_crc32c(kind, payload.as_slice());
        if stored != computed {
            assert(record_views(out@) =~= whole.0);
            let index = out.len();
            return Err(WalReadError::CrcMismatch { index, records: out });
        }
        let ghost before = record_views(out@);
        let ghost record = RecordView { kind, payload: payload@ };
        out.push(Record { kind, payload });
        pos = at + len + 4;
        proof {
            let tail = buf@.subrange(pos as int, n as int);
            assert(rest.subrange(len + 8, rest.len() as int) =~= tail);
            assert(record_views(out@) =~= before + seq![record]);
            assert(before + (seq![record] + decoded(tail).0) =~= (before + seq![record]) + decoded(
                tail,
            ).0);
        }
    }
    assert(buf@.subrange(pos as int, n as int) =~= Seq::<u8>::empty());
    assert(record_views(out@) =~= whole.0);
    Ok(out)
}

} // verus!
