//! CRC-32C (Castagnoli).
use vstd::prelude::*;

verus! {

/// One bit of the reflected CRC register.
pub open spec fn crc_bit(crc: u32) -> u32 {
    if crc & 1 == 1 {
        (crc >> 1) ^ 0x82F6_3B78
    } else {
        crc >> 1
    }
}

/// `n` bits of the register.
pub open spec fn crc_bits(crc: u32, n: nat) -> u32
    decreases n,
{
    if n == 0 {
        crc
    } else {
        crc_bit(crc_bits(crc, (n - 1) as nat))
    }
}

/// The register after one more byte.
pub open spec fn crc_byte(crc: u32, byte: u8) -> u32 {
    crc_bits(crc ^ (byte as u32), 8)
}

/// The register after a run of bytes.
pub open spec fn crc_run(crc: u32, bytes: Seq<u8>) -> u32
    decreases bytes.len(),
{
    if bytes.len() == 0 {
        crc
    } else {
        crc_byte(crc_run(crc, bytes.drop_last()), bytes.last())
    }
}

/// The CRC-32C of a byte string.
pub open spec fn crc32c(bytes: Seq<u8>) -> u32 {
    crc_run(0xFFFF_FFFF, bytes) ^ 0xFFFF_FFFF
}

/// The register after one more byte.
pub fn update_crc(crc: u32, byte: u8) -> (r: u32)
    ensures
        r == crc_byte(crc, byte),
{
    let start: u32 = crc ^ (byte as u32);
    let mut c: u32 = start;
    let mut n: u32 = 0;
    while n < 8
        invariant
            n <= 8,
            c == crc_bits(start, n as nat),
        decreases 8 - n,
    {
        if c & 1 == 1 {
            c = (c >> 1) ^ 0x82F6_3B78;
        } else {
            c = c >> 1;
        }
        n = n + 1;
    }
    c
}

/// The register after the bytes of a slice.
pub fn update_crc_run(crc: u32, bytes: &[u8]) -> (r: u32)
    ensures
        r == crc_run(crc, bytes@),
{
    let mut c: u32 = crc;
    let mut i: usize = 0;
    assert(bytes@.take(0) =~= Seq::<u8>::empty());
    while i < bytes.len()
        invariant
            i <= bytes.len(),
            c == crc_run(crc, bytes@.take(i as int)),
        decreases bytes.len() - i,
    {
        let ghost front = bytes@.take(i + 1);
        assert(front.drop_last() =~= bytes@.take(i as int));
        assert(front.last() == bytes@[i as int]);
        c = update_crc(c, bytes[i]);
        i = i + 1;
    }
    assert(bytes@.take(i as int) =~= bytes@);
    c
}

proof fn lemma_bit_injective(a: u32, b: u32)
    requires
        crc_bit(a) == crc_bit(b),
    ensures
        a == b,
{
    assert(((if a & 1 == 1 {
        (a >> 1) ^ 0x82F6_3B78
    } else {
        a >> 1
    }) == (if b & 1 == 1 {
        (b >> 1) ^ 0x82F6_3B78
    } else {
        b >> 1
    })) ==> a == b) by (bit_vector);
}

proof fn lemma_bits_injective(a: u32, b: u32, n: nat)
    requires
        crc_bits(a, n) == crc_bits(b, n),
    ensures
        a == b,
    decreases n,
{
    if n > 0 {
        lemma_bit_injective(crc_bits(a, (n - 1) as nat), crc_bits(b, (n - 1) as nat));
        lemma_bits_injective(a, b, (n - 1) as nat);
    }
}

proof fn lemma_byte_injective(a: u32, x: u8, b: u32, y: u8)
    requires
        crc_byte(a, x) == crc_byte(b, y),
        a == b || x == y,
    ensures
        a == b && x == y,
{
    lemma_bits_injective(a ^ (x as u32), b ^ (y as u32), 8);
    assert(a ^ (x as u32) == b ^ (y as u32) && (a == b || x == y) ==> a == b && x == y)
        by (bit_vector);
}

/// Two runs that differ in one byte leave different registers.
proof fn lemma_run_differs(crc: u32, bytes: Seq<u8>, i: int, b: u8)
    requires
        0 <= i < bytes.len(),
        bytes[i] != b,
    ensures
        crc_run(crc, bytes.update(i, b)) != crc_run(crc, bytes),
    decreases bytes.len(),
{
    let other = bytes.update(i, b);
    let front = bytes.drop_last();
    if i == bytes.len() - 1 {
        assert(other.drop_last() =~= front);
        if crc_run(crc, other) == crc_run(crc, bytes) {
            lemma_byte_injective(crc_run(crc, front), other.last(), crc_run(crc, front), bytes.last());
        }
    } else {
        lemma_run_differs(crc, front, i, b);
        assert(other.drop_last() =~= front.update(i, b));
        if crc_run(crc, other) == crc_run(crc, bytes) {
            lemma_byte_injective(
                crc_run(crc, front.update(i, b)),
                other.last(),
                crc_run(crc, front),
                bytes.last(),
            );
        }
    }
}

/// Changing any single byte changes the checksum.
pub proof fn law_crc_detects_byte_change(bytes: Seq<u8>, i: int, b: u8)
    requires
        0 <= i < bytes.len(),
        bytes[i] != b,
    ensures
        crc32c(bytes.update(i, b)) != crc32c(bytes),
{
    lemma_run_differs(0xFFFF_FFFF, bytes, i, b);
    let x = crc_run(0xFFFF_FFFF, bytes);
    let y = crc_run(0xFFFF_FFFF, bytes.update(i, b));
    assert(x != y ==> x ^ 0xFFFF_FFFF != y ^ 0xFFFF_FFFF) by (bit_vector);
}

proof fn lemma_bit_linear(a: u32, b: u32)
    ensures
        crc_bit(a ^ b) == crc_bit(a) ^ crc_bit(b),
{
    assert(crc_bit(a ^ b) == crc_bit(a) ^ crc_bit(b)) by (bit_vector);
}

proof fn lemma_bits_linear(a: u32, b: u32, n: nat)
    ensures
        crc_bits(a ^ b, n) == crc_bits(a, n) ^ crc_bits(b, n),
    decreases n,
{
    if n > 0 {
        let m = (n - 1) as nat;
        lemma_bits_linear(a, b, m);
        lemma_bit_linear(crc_bits(a, m), crc_bits(b, m));
    }
}

proof fn lemma_eight_bits(crc: u32)
    ensures
        crc_bits(crc, 8) == crc_bit(
            crc_bit(crc_bit(crc_bit(crc_bit(crc_bit(crc_bit(crc_bit(crc))))))),
        ),
{
    reveal_with_fuel(crc_bits, 9);
}

proof fn lemma_bits_split(crc: u32, n: nat)
    ensures
        crc_bits(crc, n + 8) == crc_bits(crc_bits(crc, n), 8),
{
    lemma_eight_bits(crc_bits(crc, n));
    assert(crc_bits(crc, n + 1) == crc_bit(crc_bits(crc, n)));
    assert(crc_bits(crc, n + 2) == crc_bit(crc_bits(crc, n + 1)));
    assert(crc_bits(crc, n + 3) == crc_bit(crc_bits(crc, n + 2)));
    assert(crc_bits(crc, n + 4) == crc_bit(crc_bits(crc, n + 3)));
    assert(crc_bits(crc, n + 5) == crc_bit(crc_bits(crc, n + 4)));
    assert(crc_bits(crc, n + 6) == crc_bit(crc_bits(crc, n + 5)));
    assert(crc_bits(crc, n + 7) == crc_bit(crc_bits(crc, n + 6)));
    assert(crc_bits(crc, n + 8) == crc_bit(crc_bits(crc, n + 7)));
}

/// Bits that have not reached the low end are only shifted.
proof fn lemma_shift(c: u32)
    ensures
        crc_bits(c & 0xFFFF_FF00, 8) == c >> 8,
{
    let d = c & 0xFFFF_FF00;
    lemma_eight_bits(d);
    assert(crc_bit(crc_bit(crc_bit(crc_bit(crc_bit(crc_bit(crc_bit(crc_bit(c & 0xFFFF_FF00))))))))
        == c >> 8) by (bit_vector);
}

/// A byte that takes the low byte of `rest` out of a register leaves the
/// register moved on by eight bits, and `rest` without that byte.
proof fn lemma_take_byte(state: u32, rest: u32, byte: u8)
    requires
        byte as u32 == rest & 0xFF,
    ensures
        crc_byte(state ^ rest, byte) == crc_bits(state, 8) ^ (rest >> 8),
{
    let low = byte as u32;
    let high = rest & 0xFFFF_FF00;
    assert((state ^ rest) ^ low == state ^ high) by (bit_vector)
        requires
            low == rest & 0xFF,
            high == rest & 0xFFFF_FF00,
    ;
    lemma_bits_linear(state, high, 8);
    lemma_shift(rest);
}

proof fn lemma_ones_after()
    ensures
        crc_bits(0xFFFF_FFFF, 32) == 0xB798_B438,
{
    lemma_eight_bits(0xFFFF_FFFF);
    assert(crc_bit(
        crc_bit(crc_bit(crc_bit(crc_bit(crc_bit(crc_bit(crc_bit(0xFFFF_FFFFu32))))))),
    ) == 0xAD82_ACAEu32) by (bit_vector);
    lemma_eight_bits(0xAD82_ACAE);
    assert(crc_bit(
        crc_bit(crc_bit(crc_bit(crc_bit(crc_bit(crc_bit(crc_bit(0xAD82_ACAEu32))))))),
    ) == 0x0E9E_882Du32) by (bit_vector);
    lemma_eight_bits(0x0E9E_882D);
    assert(crc_bit(
        crc_bit(crc_bit(crc_bit(crc_bit(crc_bit(crc_bit(crc_bit(0x0E9E_882Du32))))))),
    ) == 0x9F9B_5C85u32) by (bit_vector);
    lemma_eight_bits(0x9F9B_5C85);
    assert(crc_bit(
        crc_bit(crc_bit(crc_bit(crc_bit(crc_bit(crc_bit(crc_bit(0x9F9B_5C85u32))))))),
    ) == 0xB798_B438u32) by (bit_vector);
    lemma_bits_split(0xFFFF_FFFF, 8);
    lemma_bits_split(0xFFFF_FFFF, 16);
    lemma_bits_split(0xFFFF_FFFF, 24);
}

/// Bytes with their own checksum behind them, least significant byte first,
/// have the checksum that is fixed for the Castagnoli polynomial; no bytes
/// have the checksum zero.
pub proof fn law_crc_residue(bytes: Seq<u8>, tail: Seq<u8>)
    requires
        tail.len() == 4,
        crc32c(bytes) == tail[0] + 256 * tail[1] + 65536 * tail[2] + 16777216 * tail[3],
    ensures
        crc32c(bytes + tail) == 0x4867_4BC7,
        crc32c(Seq::empty()) == 0,
{
    let ones: u32 = 0xFFFF_FFFF;
    assert(ones ^ ones == 0) by (bit_vector)
        requires
            ones == 0xFFFF_FFFFu32,
    ;
    let state = crc_run(0xFFFF_FFFF, bytes);
    let c = crc32c(bytes);
    let t0: u8 = tail[0];
    let t1: u8 = tail[1];
    let t2: u8 = tail[2];
    let t3: u8 = tail[3];
    assert(state == 0xFFFF_FFFFu32 ^ c) by (bit_vector)
        requires
            c == state ^ 0xFFFF_FFFFu32,
    ;
    assert(t0 as u32 == c & 0xFF && t1 as u32 == (c >> 8) & 0xFF && t2 as u32 == ((c >> 8) >> 8)
        & 0xFF && t3 as u32 == (((c >> 8) >> 8) >> 8) & 0xFF && ((((c >> 8) >> 8) >> 8) >> 8) == 0)
        by (bit_vector)
        requires
            c == t0 + 256 * t1 + 65536 * t2 + 16777216 * t3,
    ;
    let s0 = bytes + tail.take(0);
    let s1 = bytes + tail.take(1);
    let s2 = bytes + tail.take(2);
    let s3 = bytes + tail.take(3);
    let s4 = bytes + tail;
    assert(s0 =~= bytes);
    assert(s1.drop_last() =~= s0 && s1.last() == t0);
    assert(s2.drop_last() =~= s1 && s2.last() == t1);
    assert(s3.drop_last() =~= s2 && s3.last() == t2);
    assert(s4.drop_last() =~= s3 && s4.last() == t3);
    lemma_take_byte(0xFFFF_FFFF, c, t0);
    assert(crc_run(0xFFFF_FFFF, s1) == crc_bits(0xFFFF_FFFF, 8) ^ (c >> 8));
    lemma_take_byte(crc_bits(0xFFFF_FFFF, 8), c >> 8, t1);
    lemma_bits_split(0xFFFF_FFFF, 8);
    assert(crc_run(0xFFFF_FFFF, s2) == crc_bits(0xFFFF_FFFF, 16) ^ ((c >> 8) >> 8));
    lemma_take_byte(crc_bits(0xFFFF_FFFF, 16), (c >> 8) >> 8, t2);
    lemma_bits_split(0xFFFF_FFFF, 16);
    assert(crc_run(0xFFFF_FFFF, s3) == crc_bits(0xFFFF_FFFF, 24) ^ (((c >> 8) >> 8) >> 8));
    lemma_take_byte(crc_bits(0xFFFF_FFFF, 24), ((c >> 8) >> 8) >> 8, t3);
    lemma_bits_split(0xFFFF_FFFF, 24);
    lemma_ones_after();
    assert(crc_run(0xFFFF_FFFF, s4) == 0xB798_B438u32 ^ ((((c >> 8) >> 8) >> 8) >> 8));
    assert(0xB798_B438u32 ^ 0 == 0xB798_B438u32) by (bit_vector);
    assert(0xB798_B438u32 ^ 0xFFFF_FFFFu32 == 0x4867_4BC7u32) by (bit_vector);
}

} // verus!
