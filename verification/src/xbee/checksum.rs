//! The XBee frame checksum.
use vstd::prelude::*;

verus! {

/// The sum of all bytes of `s`, as a natural number.
pub open spec fn byte_sum(s: Seq<u8>) -> nat
    decreases s.len(),
{
    if s.len() == 0 {
        0
    } else {
        byte_sum(s.drop_last()) + s.last() as nat
    }
}

/// `checksum` is the checksum of `frame_data`: the low byte of the sum of the
/// frame data, plus the checksum, is exactly `0xFF`.
pub open spec fn checksum_ok(frame_data: Seq<u8>, checksum: u8) -> bool {
    byte_sum(frame_data) % 256 + checksum == 0xFF
}

/// The one checksum byte that `frame_data` accepts.
pub open spec fn spec_checksum(frame_data: Seq<u8>) -> u8 {
    (0xFF - byte_sum(frame_data) % 256) as u8
}

/// Checks the checksum byte of a frame: the frame data bytes are added with
/// wrap-around, and the checksum is accepted when that low byte plus the
/// checksum is exactly `0xFF`.
pub fn verify_checksum(frame_data: &[u8], checksum: u8) -> (ok: bool)
    ensures
        ok == checksum_ok(frame_data@, checksum),
{
    let mut sum: u8 = 0;
    let mut i: usize = 0;
    while i < frame_data.len()
        invariant
            i <= frame_data@.len(),
            sum == byte_sum(frame_data@.take(i as int)) % 256,
        decreases frame_data@.len() - i,
    {
        proof {
            assert(frame_data@.take(i + 1).drop_last() =~= frame_data@.take(i as int));
        }
        sum = sum.wrapping_add(frame_data[i]);
        i = i + 1;
    }
    proof {
        assert(frame_data@.take(i as int) =~= frame_data@);
    }
    (sum as u16) + (checksum as u16) == 0xFF
}

/// A frame's checksum byte is unique: exactly one byte value is accepted for
/// given frame data, and it is `0xFF` minus the low byte of the data's sum.
pub proof fn lemma_checksum_unique(frame_data: Seq<u8>, checksum: u8)
    ensures
        checksum_ok(frame_data, checksum) <==> checksum == spec_checksum(frame_data),
{
}

/// The checksum is accepted exactly when the sum of all frame data bytes and
/// the checksum byte is `0xFF` modulo 256.
pub proof fn lemma_checksum_total(frame_data: Seq<u8>, checksum: u8)
    ensures
        checksum_ok(frame_data, checksum) <==> (byte_sum(frame_data) + checksum) % 256 == 0xFF,
{
    let s = byte_sum(frame_data);
    assert((s + checksum) % 256 == (s % 256 + checksum) % 256) by (nonlinear_arith);
}

} // verus!
