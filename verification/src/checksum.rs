//! CRC-16/XMODEM: the 16-bit checksum that guards every frame.
//!
//! The checksum is computed by the `crc` crate. What it computes is stated
//! here, bit by bit, and the property that makes the wire format
//! self-verifying is proved from that statement.

use crc::{Crc, CRC_16_XMODEM};
use vstd::prelude::*;

verus! {

/// One bit of polynomial division: the register moves left by one bit and the
/// generator polynomial `0x1021` is subtracted when a one falls out at the top.
pub open spec fn crc16_shift(value: u16) -> u16 {
    if value & 0x8000 != 0 {
        (value << 1) ^ 0x1021
    } else {
        value << 1
    }
}

/// The remainder that one message byte leaves: the byte placed in the upper
/// half of the register, followed by eight division steps.
pub open spec fn crc16_remainder(index: u16) -> u16 {
    let v0 = index << 8;
    let v1 = crc16_shift(v0);
    let v2 = crc16_shift(v1);
    let v3 = crc16_shift(v2);
    let v4 = crc16_shift(v3);
    let v5 = crc16_shift(v4);
    let v6 = crc16_shift(v5);
    let v7 = crc16_shift(v6);
    crc16_shift(v7)
}

/// The register after one more message byte.
pub open spec fn crc16_update(crc: u16, byte: u8) -> u16 {
    crc16_remainder(((crc >> 8) ^ (byte as u16)) & 0xff) ^ (crc << 8)
}

/// CRC-16/XMODEM of a byte sequence: polynomial `0x1021`, initial register
/// zero, no reflection of input or output, no final exclusive-or.
pub open spec fn crc16_xmodem(data: Seq<u8>) -> u16
    decreases data.len(),
{
    if data.len() == 0 {
        0
    } else {
        crc16_update(crc16_xmodem(data.drop_last()), data.last())
    }
}

/// A 16-bit value as two bytes, high byte first.
pub open spec fn be16(value: u16) -> Seq<u8> {
    seq![(value >> 8) as u8, (value & 0xff) as u8]
}

/// The 16-bit value that two bytes spell, high byte first.
pub open spec fn be16_value(high: u8, low: u8) -> u16 {
    ((high as u16) << 8) | (low as u16)
}

/// Calls `crc::Crc::<u16>::new(&CRC_16_XMODEM)`, then `digest`, `update` and
/// `finalize` of that crate.
///
/// Trusted: the result is claimed to be [`crc16_xmodem`] of the data. The
/// crate keeps a table whose entry `i` is what [`crc16_remainder`] computes for
/// `i`, and folds each byte into the register as [`crc16_update`] does; for
/// this algorithm its initial and final steps leave the register unchanged.
#[verifier::external_body]
fn crc16_digest(data: &[u8]) -> (crc: u16)
    ensures
        crc == crc16_xmodem(data@),
{
    let crc = Crc::<u16>::new(&CRC_16_XMODEM);
    let mut digest = crc.digest();
    digest.update(data);
    digest.finalize()
}

/// Computes the CRC-16/XMODEM checksum of `data`.
pub fn calc_crc(data: &[u8]) -> (crc: u16)
    ensures
        crc == crc16_xmodem(data@),
{
    crc16_digest(data)
}

/// Nothing divided leaves nothing.
proof fn lemma_remainder_of_zero()
    ensures
        crc16_remainder(0) == 0,
{
    assert(crc16_remainder(0) == 0) by (bit_vector);
}

/// Only the zero byte leaves a remainder whose lower half is zero.
proof fn lemma_remainder_low_half(index: u16)
    by (bit_vector)
    requires
        index < 256,
        crc16_remainder(index) & 0xff == 0,
    ensures
        index == 0,
{
}

/// Feeding the high byte of the register clears the upper half and moves the
/// lower half up; feeding the low byte after it clears the rest.
proof fn lemma_update_with_own_bytes(crc: u16)
    ensures
        crc16_update(crc16_update(crc, (crc >> 8) as u8), (crc & 0xff) as u8) == 0,
{
    let high = (crc >> 8) as u8;
    let low = (crc & 0xff) as u8;
    lemma_remainder_of_zero();
    assert(((crc >> 8) ^ (high as u16)) & 0xff == 0) by (bit_vector)
        requires
            high == (crc >> 8) as u8,
    ;
    assert(0u16 ^ (crc << 8) == crc << 8) by (bit_vector);
    let moved = crc16_update(crc, high);
    assert(moved == crc << 8);
    assert(((moved >> 8) ^ (low as u16)) & 0xff == 0 && 0u16 ^ (moved << 8) == 0) by (bit_vector)
        requires
            low == (crc & 0xff) as u8,
            moved == crc << 8,
    ;
}

/// Two trailing bytes bring the register to zero only if they are the
/// register's own bytes, high byte first.
proof fn lemma_update_to_zero(crc: u16, high: u8, low: u8)
    requires
        crc16_update(crc16_update(crc, high), low) == 0,
    ensures
        high == (crc >> 8) as u8,
        low == (crc & 0xff) as u8,
{
    let first = ((crc >> 8) ^ (high as u16)) & 0xff;
    let moved = crc16_update(crc, high);
    let second = ((moved >> 8) ^ (low as u16)) & 0xff;
    let r1 = crc16_remainder(first);
    let r2 = crc16_remainder(second);
    lemma_remainder_of_zero();
    assert(first < 256 && second < 256) by (bit_vector)
        requires
            first == ((crc >> 8) ^ (high as u16)) & 0xff,
            second == ((moved >> 8) ^ (low as u16)) & 0xff,
    ;
    assert(r2 & 0xff == 0) by (bit_vector)
        requires
            r2 ^ (moved << 8) == 0,
    ;
    lemma_remainder_low_half(second);
    assert(r1 & 0xff == 0) by (bit_vector)
        requires
            moved == r1 ^ (crc << 8),
            0u16 ^ (moved << 8) == 0,
    ;
    lemma_remainder_low_half(first);
    assert(high == (crc >> 8) as u8 && low == (crc & 0xff) as u8) by (bit_vector)
        requires
            ((crc >> 8) ^ (high as u16)) & 0xff == 0,
            moved == 0u16 ^ (crc << 8),
            ((moved >> 8) ^ (low as u16)) & 0xff == 0,
    ;
}

/// The checksum of a sequence that ends in two given bytes, in terms of the
/// checksum of what stands before them.
pub proof fn lemma_crc_of_trailer(data: Seq<u8>, high: u8, low: u8)
    ensures
        crc16_xmodem(data + seq![high, low]) == crc16_update(
            crc16_update(crc16_xmodem(data), high),
            low,
        ),
{
    let whole = data + seq![high, low];
    let front = data + seq![high];
    assert(whole.drop_last() =~= front);
    assert(front.drop_last() =~= data);
    assert(crc16_xmodem(whole) == crc16_update(crc16_xmodem(front), low));
    assert(crc16_xmodem(front) == crc16_update(crc16_xmodem(data), high));
}

/// Self-verification: the checksum of any data followed by its own checksum,
/// high byte first, is zero.
pub proof fn lemma_checksum_self_verifies(data: Seq<u8>)
    ensures
        crc16_xmodem(data + be16(crc16_xmodem(data))) == 0,
{
    let crc = crc16_xmodem(data);
    lemma_crc_of_trailer(data, (crc >> 8) as u8, (crc & 0xff) as u8);
    lemma_update_with_own_bytes(crc);
    assert(be16(crc) =~= seq![(crc >> 8) as u8, (crc & 0xff) as u8]);
}

/// Detection: a sequence of at least two bytes has checksum zero exactly when
/// its last two bytes are the checksum of what stands before them.
pub proof fn lemma_zero_checksum_iff_trailer_matches(frame: Seq<u8>)
    requires
        frame.len() >= 2,
    ensures
        crc16_xmodem(frame) == 0 <==> frame.subrange(frame.len() - 2, frame.len() as int) == be16(
            crc16_xmodem(frame.subrange(0, frame.len() - 2)),
        ),
{
    let n = frame.len() as int;
    let data = frame.subrange(0, n - 2);
    let trailer = frame.subrange(n - 2, n);
    let high = frame[n - 2];
    let low = frame[n - 1];
    let crc = crc16_xmodem(data);
    assert(frame =~= data + seq![high, low]);
    assert(trailer =~= seq![high, low]);
    lemma_crc_of_trailer(data, high, low);
    if crc16_xmodem(frame) == 0 {
        lemma_update_to_zero(crc, high, low);
        assert(trailer =~= be16(crc));
    }
    if trailer == be16(crc) {
        assert(be16(crc)[0] == high && be16(crc)[1] == low);
        lemma_update_with_own_bytes(crc);
    }
}

/// A sequence that begins with a byte other than zero and has checksum zero
/// holds at least one byte before its two checksum bytes.
pub proof fn lemma_nonzero_start_needs_three_bytes(frame: Seq<u8>)
    requires
        frame.len() > 0,
        frame[0] != 0,
        crc16_xmodem(frame) == 0,
    ensures
        frame.len() >= 3,
{
    if frame.len() == 1 {
        let index = ((0u16 >> 8) ^ (frame[0] as u16)) & 0xff;
        assert(frame.drop_last() =~= Seq::<u8>::empty());
        assert(crc16_xmodem(frame.drop_last()) == 0);
        assert(crc16_xmodem(frame) == crc16_update(0, frame[0]));
        let byte = frame[0];
        let rem = crc16_remainder(index);
        assert(index < 256 && index != 0 && (rem ^ (0u16 << 8) == 0 ==> rem & 0xff == 0))
            by (bit_vector)
            requires
                index == ((0u16 >> 8) ^ (byte as u16)) & 0xff,
                byte != 0,
        ;
        lemma_remainder_low_half(index);
    } else if frame.len() == 2 {
        lemma_zero_checksum_iff_trailer_matches(frame);
        assert(frame.subrange(0, 0) =~= Seq::<u8>::empty());
        assert(crc16_xmodem(Seq::<u8>::empty()) == 0);
        assert(frame.subrange(0, 2)[0] == frame[0]);
        assert(be16(0)[0] == 0) by {
            assert((0u16 >> 8) as u8 == 0) by (bit_vector);
        }
    }
}

} // verus!
