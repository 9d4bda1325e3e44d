//! What holds of logs as a whole: what was written is read back, and damage
//! is noticed without losing what came before it.
use crate::text::{decimal, digit_char};
use crate::wal::crc::{crc32c, law_crc_detects_byte_change};
use crate::wal::record::{
    decode_result, decoded, head_of, kind_byte, kind_of, le_bytes, le_value, log_bytes,
    record_body, record_bytes, record_fits, record_views, Ending, Head, Record, RecordKind,
    RecordView, WalReadError,
};
use vstd::prelude::*;

verus! {

/// Whether every record of a run fits its length field.
pub open spec fn all_fit(rs: Seq<RecordView>) -> bool {
    forall|i: int| 0 <= i < rs.len() ==> record_fits(#[trigger] rs[i])
}

proof fn lemma_le_round_trip(x: u32)
    ensures
        le_value(le_bytes(x)) == x,
        le_bytes(x).len() == 4,
{
    assert((x % 256) + 256 * (x / 256 % 256) + 65536 * (x / 65536 % 256) + 16777216 * (x / 16777216)
        == x);
}

/// A record in front of anything is read as that record.
proof fn lemma_head_whole(r: RecordView, tail: Seq<u8>)
    requires
        record_fits(r),
    ensures
        head_of(record_bytes(r) + tail) == (Head::Whole { record: r, size: record_bytes(r).len() }),
        record_bytes(r).len() == r.payload.len() + 9,
{
    let body = record_body(r);
    let buf = record_bytes(r) + tail;
    let len = body.len() as int;
    lemma_le_round_trip(body.len() as u32);
    lemma_le_round_trip(crc32c(body));
    assert(buf[0] == le_bytes(len as u32)[0]);
    assert(buf[1] == le_bytes(len as u32)[1]);
    assert(buf[2] == le_bytes(len as u32)[2]);
    assert(buf[3] == le_bytes(len as u32)[3]);
    assert(le_value(buf) == len);
    assert(buf.subrange(4, 4 + len) =~= body);
    assert(buf.subrange(4 + len, 8 + len) =~= le_bytes(crc32c(body)));
    assert(body.drop_first() =~= r.payload);
    assert(body[0] == kind_byte(r.kind));
}

/// Reading a record in front of anything gives the record, then what follows.
proof fn lemma_decode_step(r: RecordView, behind: Seq<u8>)
    requires
        record_fits(r),
    ensures
        decoded(record_bytes(r) + behind) == (seq![r] + decoded(behind).0, decoded(behind).1),
{
    let front = record_bytes(r);
    lemma_head_whole(r, behind);
    let buf = front + behind;
    assert(buf.len() > 0);
    assert(buf.subrange(front.len() as int, buf.len() as int) =~= behind);
}

proof fn lemma_log_split(rs: Seq<RecordView>, tail: Seq<u8>)
    requires
        rs.len() > 0,
    ensures
        log_bytes(rs) + tail == record_bytes(rs[0]) + (log_bytes(rs.drop_first()) + tail),
{
    let a = record_bytes(rs[0]);
    let b = log_bytes(rs.drop_first());
    assert((a + b) + tail =~= a + (b + tail));
}

/// Reading what was written in front of anything gives what was written, then
/// what follows.
pub proof fn law_decode_after_log(rs: Seq<RecordView>, tail: Seq<u8>)
    requires
        all_fit(rs),
    ensures
        decoded(log_bytes(rs) + tail) == (rs + decoded(tail).0, decoded(tail).1),
    decreases rs.len(),
{
    if rs.len() == 0 {
        assert(log_bytes(rs) + tail =~= tail);
        assert(rs + decoded(tail).0 =~= decoded(tail).0);
    } else {
        let rest = rs.drop_first();
        assert(record_fits(rs[0]));
        assert forall|i: int| 0 <= i < rest.len() implies record_fits(#[trigger] rest[i]) by {
            assert(rest[i] == rs[i + 1]);
        }
        law_decode_after_log(rest, tail);
        lemma_log_split(rs, tail);
        lemma_decode_step(rs[0], log_bytes(rest) + tail);
        assert(seq![rs[0]] + (rest + decoded(tail).0) =~= rs + decoded(tail).0);
    }
}

/// Reading back a log gives the records that were written, and ends cleanly.
pub proof fn law_log_round_trip(rs: Seq<RecordView>)
    requires
        all_fit(rs),
    ensures
        decoded(log_bytes(rs)) == (rs, Ending::Clean),
{
    law_decode_after_log(rs, Seq::empty());
    assert(log_bytes(rs) + Seq::<u8>::empty() =~= log_bytes(rs));
    assert(rs + Seq::<RecordView>::empty() =~= rs);
}

/// The bytes of a log to which records were appended one after the other.
pub open spec fn appended(rs: Seq<RecordView>) -> Seq<u8>
    decreases rs.len(),
{
    if rs.len() == 0 {
        Seq::empty()
    } else {
        appended(rs.drop_last()) + record_bytes(rs.last())
    }
}

proof fn lemma_log_push(rs: Seq<RecordView>, r: RecordView)
    ensures
        log_bytes(rs.push(r)) == log_bytes(rs) + record_bytes(r),
    decreases rs.len(),
{
    let all = rs.push(r);
    if rs.len() == 0 {
        assert(all.drop_first() =~= Seq::<RecordView>::empty());
        assert(log_bytes(all.drop_first()) =~= Seq::<u8>::empty());
        assert(log_bytes(all) =~= log_bytes(rs) + record_bytes(r));
    } else {
        assert(all.drop_first() =~= rs.drop_first().push(r));
        lemma_log_push(rs.drop_first(), r);
        assert(log_bytes(all) =~= log_bytes(rs) + record_bytes(r));
    }
}

proof fn lemma_appended(rs: Seq<RecordView>)
    ensures
        appended(rs) == log_bytes(rs),
    decreases rs.len(),
{
    if rs.len() > 0 {
        lemma_appended(rs.drop_last());
        lemma_log_push(rs.drop_last(), rs.last());
        assert(rs.drop_last().push(rs.last()) =~= rs);
    }
}

/// Records that were appended to a new log one after the other are replayed as
/// they were, in that order, and the log ends cleanly.
pub proof fn law_appends_are_replayed(rs: Seq<RecordView>)
    requires
        all_fit(rs),
    ensures
        decoded(appended(rs)) == (rs, Ending::Clean),
{
    lemma_appended(rs);
    law_log_round_trip(rs);
}

/// A log cut off inside its last record gives every record before it, and is
/// reported as truncated.
pub proof fn law_truncated_log(rs: Seq<RecordView>, last: RecordView, keep: int)
    requires
        all_fit(rs),
        record_fits(last),
        0 < keep < record_bytes(last).len(),
    ensures
        decoded(log_bytes(rs) + record_bytes(last).take(keep)) == (rs, Ending::Truncated),
{
    let part = record_bytes(last).take(keep);
    let body = record_body(last);
    lemma_le_round_trip(body.len() as u32);
    lemma_head_whole(last, Seq::empty());
    if keep >= 4 {
        assert(part[0] == le_bytes(body.len() as u32)[0]);
        assert(part[1] == le_bytes(body.len() as u32)[1]);
        assert(part[2] == le_bytes(body.len() as u32)[2]);
        assert(part[3] == le_bytes(body.len() as u32)[3]);
        assert(le_value(part) == body.len());
    }
    assert(head_of(part) == Head::Incomplete);
    law_decode_after_log(rs, part);
    assert(rs + Seq::<RecordView>::empty() =~= rs);
}

/// The bytes of a record whose body is `body` but whose checksum field is
/// that of another body.
pub open spec fn mismatched_bytes(body: Seq<u8>, checksum: u32) -> Seq<u8> {
    le_bytes(body.len() as u32) + body + le_bytes(checksum)
}

proof fn lemma_head_mismatch(body: Seq<u8>, checksum: u32, tail: Seq<u8>)
    requires
        0 < body.len() <= u32::MAX,
        kind_of(body[0]) is Some,
        checksum != crc32c(body),
    ensures
        head_of(mismatched_bytes(body, checksum) + tail) == Head::BadChecksum,
{
    let buf = mismatched_bytes(body, checksum) + tail;
    let len = body.len() as int;
    lemma_le_round_trip(body.len() as u32);
    lemma_le_round_trip(checksum);
    assert(buf[0] == le_bytes(len as u32)[0]);
    assert(buf[1] == le_bytes(len as u32)[1]);
    assert(buf[2] == le_bytes(len as u32)[2]);
    assert(buf[3] == le_bytes(len as u32)[3]);
    assert(le_value(buf) == len);
    assert(buf.subrange(4, 4 + len) =~= body);
    assert(buf.subrange(4 + len, 8 + len) =~= le_bytes(checksum));
}

/// A record whose stored checksum was changed is reported, behind every
/// record before it.
pub proof fn law_changed_checksum(
    rs: Seq<RecordView>,
    bad: RecordView,
    checksum: u32,
    tail: Seq<u8>,
)
    requires
        all_fit(rs),
        record_fits(bad),
        checksum != crc32c(record_body(bad)),
    ensures
        decoded(log_bytes(rs) + (mismatched_bytes(record_body(bad), checksum) + tail)) == (
            rs,
            Ending::CrcMismatch,
        ),
{
    let part = mismatched_bytes(record_body(bad), checksum) + tail;
    assert(record_body(bad)[0] == kind_byte(bad.kind));
    lemma_head_mismatch(record_body(bad), checksum, tail);
    law_decode_after_log(rs, part);
    assert(rs + Seq::<RecordView>::empty() =~= rs);
}

/// A record of which one payload byte was changed is reported, behind every
/// record before it.
pub proof fn law_changed_payload_byte(
    rs: Seq<RecordView>,
    bad: RecordView,
    i: int,
    b: u8,
    tail: Seq<u8>,
)
    requires
        all_fit(rs),
        record_fits(bad),
        0 <= i < bad.payload.len(),
        bad.payload[i] != b,
    ensures
        decoded(
            log_bytes(rs) + (mismatched_bytes(
                record_body(bad).update(i + 1, b),
                crc32c(record_body(bad)),
            ) + tail),
        ) == (rs, Ending::CrcMismatch),
{
    let body = record_body(bad);
    let changed = body.update(i + 1, b);
    assert(body[i + 1] == bad.payload[i]);
    law_crc_detects_byte_change(body, i + 1, b);
    assert(changed[0] == kind_byte(bad.kind));
    lemma_head_mismatch(changed, crc32c(body), tail);
    law_decode_after_log(rs, mismatched_bytes(changed, crc32c(body)) + tail);
    assert(rs + Seq::<RecordView>::empty() =~= rs);
}

/// The byte of each kind.
pub proof fn law_kind_bytes(b: u8)
    ensures
        kind_byte(RecordKind::TurnStarted) == 1,
        kind_byte(RecordKind::ServerNotification) == 2,
        kind_byte(RecordKind::UserOp) == 3,
        kind_byte(RecordKind::ApprovalDecision) == 4,
        kind_byte(RecordKind::TurnCompleted) == 5,
        kind_byte(RecordKind::Sentinel) == 127,
        kind_of(b) is None <==> b == 0 || 6 <= b < 127 || b > 127,
{
}

/// Where everything in a record stands: four bytes of length, the byte of the
/// kind, the payload, four bytes of checksum over the kind and the payload.
/// The length counts the kind and the payload, and both numbers have their
/// least significant byte first.
pub proof fn law_record_layout(r: RecordView, i: int)
    requires
        record_fits(r),
    ensures
        ({
            let bytes = record_bytes(r);
            let n = r.payload.len() as int;
            &&& bytes.len() == n + 9
            &&& bytes[0] + 256 * bytes[1] + 65536 * bytes[2] + 16777216 * bytes[3] == n + 1
            &&& bytes[4] == kind_byte(r.kind)
            &&& 0 <= i < n ==> bytes[5 + i] == r.payload[i]
            &&& bytes[n + 5] + 256 * bytes[n + 6] + 65536 * bytes[n + 7] + 16777216 * bytes[n + 8]
                == crc32c(seq![kind_byte(r.kind)] + r.payload)
        }),
{
    let body = record_body(r);
    lemma_le_digits(body.len() as u32);
    lemma_le_digits(crc32c(body));
    let bytes = record_bytes(r);
    let n = r.payload.len() as int;
    let head = le_bytes(body.len() as u32);
    let tail = le_bytes(crc32c(body));
    assert(bytes[0] == head[0] && bytes[1] == head[1] && bytes[2] == head[2] && bytes[3]
        == head[3]);
    assert(bytes[n + 5] == tail[0] && bytes[n + 6] == tail[1] && bytes[n + 7] == tail[2]
        && bytes[n + 8] == tail[3]);
    assert(bytes[4] == body[0]);
    if 0 <= i < n {
        assert(bytes[5 + i] == body[1 + i]);
    }
}

proof fn lemma_le_digits(x: u32)
    ensures
        le_bytes(x)[0] + 256 * le_bytes(x)[1] + 65536 * le_bytes(x)[2] + 16777216 * le_bytes(x)[3]
            == x,
{
    assert((x % 256) + 256 * (x / 256 % 256) + 65536 * (x / 65536 % 256) + 16777216 * (x / 16777216)
        == x);
}

/// A record of a kind that is not known ends the reading with that kind,
/// whatever its checksum and whatever follows; the records before it are read.
pub proof fn law_unknown_kind(rs: Seq<RecordView>, kind: u8, payload: Seq<u8>, rest: Seq<u8>)
    requires
        all_fit(rs),
        kind_of(kind) is None,
        1 + payload.len() <= u32::MAX,
        rest.len() >= 4,
    ensures
        decoded(
            log_bytes(rs) + (le_bytes((1 + payload.len()) as u32) + seq![kind] + payload + rest),
        ) == (rs, Ending::InvalidKind(kind)),
{
    let len = 1 + payload.len() as int;
    let bad = le_bytes(len as u32) + seq![kind] + payload + rest;
    law_decode_after_log(rs, bad);
    lemma_le_round_trip(len as u32);
    let head = le_bytes(len as u32);
    assert(bad[0] == head[0] && bad[1] == head[1] && bad[2] == head[2] && bad[3] == head[3]);
    assert(le_value(bad) == len);
    assert(bad.subrange(4, 4 + len)[0] == kind);
    assert(rs + Seq::<RecordView>::empty() =~= rs);
}

/// A length of zero ends the reading as a log that was cut off, whatever
/// follows; so do fewer than four bytes.
pub proof fn law_no_length(rs: Seq<RecordView>, rest: Seq<u8>)
    requires
        all_fit(rs),
    ensures
        decoded(log_bytes(rs) + (seq![0u8, 0u8, 0u8, 0u8] + rest)) == (rs, Ending::Truncated),
        0 < rest.len() < 4 ==> decoded(log_bytes(rs) + rest) == (rs, Ending::Truncated),
{
    let bad = seq![0u8, 0u8, 0u8, 0u8] + rest;
    law_decode_after_log(rs, bad);
    law_decode_after_log(rs, rest);
    assert(bad[0] == 0 && bad[1] == 0 && bad[2] == 0 && bad[3] == 0);
    assert(le_value(bad) == 0);
    assert(rs + Seq::<RecordView>::empty() =~= rs);
}

/// What the result of a reading holds: the records where it ended cleanly;
/// the records before the damage, and their number, where it was cut off or a
/// checksum was wrong; the byte of a kind that is not known.
pub proof fn law_reading_result(
    r: Result<Vec<Record>, WalReadError>,
    records: Seq<RecordView>,
    kind: u8,
)
    ensures
        decode_result(r, records, Ending::Clean) ==> r is Ok && record_views(r->Ok_0@) == records,
        decode_result(r, records, Ending::Truncated) ==> r is Err && r->Err_0 is Truncated
            && record_views(r->Err_0->Truncated_records@) == records
            && r->Err_0->records_recovered == records.len(),
        decode_result(r, records, Ending::CrcMismatch) ==> r is Err && r->Err_0 is CrcMismatch
            && record_views(r->Err_0->CrcMismatch_records@) == records && r->Err_0->index
            == records.len(),
        decode_result(r, records, Ending::InvalidKind(kind)) ==> r
            == Result::<Vec<Record>, WalReadError>::Err(WalReadError::InvalidKind(kind)),
{
}

/// What is said of each error of a reading.
pub proof fn law_read_error_texts(e: WalReadError, why: String, n: usize, d: nat)
    requires
        d < 10,
    ensures
        WalReadError::Io(why).text() == "io: "@ + why@,
        e matches WalReadError::Truncated { records_recovered, .. } ==> e.text()
            == "truncated WAL after "@ + decimal(records_recovered as nat) + " record(s)"@,
        e matches WalReadError::CrcMismatch { index, .. } ==> e.text() == "CRC mismatch at record "@
            + decimal(index as nat),
        WalReadError::InvalidKind(0xAB).text() == "invalid record kind 0x"@ + seq!['A', 'B'],
        WalReadError::InvalidKind(d as u8).text() == "invalid record kind 0x"@ + seq![
            '0',
            digit_char(d),
        ],
        WalReadError::InvalidKind((16 * d) as u8).text() == "invalid record kind 0x"@ + seq![
            digit_char(d),
            '0',
        ],
{
    let low = d as u8;
    let high = (16 * d) as u8;
    assert(low / 16 == 0 && low % 16 == d);
    assert(high / 16 == d && high % 16 == 0);
    assert(0xABu8 / 16 == 10 && 0xABu8 % 16 == 11);
    assert(digit_char(0) == '0');
}

} // verus!
