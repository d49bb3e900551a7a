//! The single-slot shared-memory mailbox.  The segment's first byte is a
//! turn flag (its top bit says whether a write is pending); the remaining
//! bytes hold one frame.  A semaphore guards the segment; a party that wins
//! the semaphore but finds the turn flag against it releases and retries,
//! which turns the pair into a strict turn-alternating mailbox.  This
//! module holds the flag arithmetic, the acquire decision, and the framing
//! of response data into and out of the segment bytes.

use vstd::prelude::*;
use crate::codec::{
    le32_value, le32_bytes, res_header_bytes, ResHeader, read_le32, copy_range, RES_HEADER_LEN,
};

verus! {

/// Capacity of the response segment's data area: one header plus payload
/// must fit in it.
pub const SHM_RES_MAX_SIZE: usize = 1024 * 1024;

/// Whether a flag byte announces a pending write.
pub open spec fn spec_mask_set(b: u8) -> bool {
    b & 0x80 == 0x80
}

/// Mark the flag byte write-pending.
pub fn set_mask(seq: &mut u8)
    ensures
        *final(seq) == *old(seq) | 0x80,
        spec_mask_set(*final(seq)),
{
    let ghost b0 = *seq;
    *seq |= 0x80;
    proof {
        assert((b0 | 0x80) & 0x80 == 0x80) by (bit_vector);
    }
}

/// Mark the flag byte read-pending.
pub fn unset_mask(seq: &mut u8)
    ensures
        *final(seq) == *old(seq) & 0x7F,
        !spec_mask_set(*final(seq)),
{
    let ghost b0 = *seq;
    *seq &= 0x7F;
    proof {
        assert((b0 & 0x7F) & 0x80 != 0x80) by (bit_vector);
    }
}

/// Whether the flag byte is write-pending.
pub fn test_mask(seq: &u8) -> (r: bool)
    ensures
        r == spec_mask_set(*seq),
{
    *seq & 0x80 == 0x80
}

/// The acquire decision after winning the semaphore: proceed only when the
/// turn flag matches the caller's role — the bit set means a write is
/// pending, so the writer may act; clear means the written frame awaits its
/// reader.  On a mismatch the caller must release the semaphore, yield,
/// and retry.
pub fn acquire_turn_matches(flag: u8, write_role: bool) -> (r: bool)
    ensures
        r == (spec_mask_set(flag) == write_role),
{
    test_mask(&flag) == write_role
}

/// The release action: the party done with its turn hands the flag to the
/// other role before signalling the semaphore — a reader done reading
/// makes the next write pending, a writer done writing clears it for the
/// reader.
pub fn release_turn(flag: &mut u8, write_role: bool)
    ensures
        spec_mask_set(*final(flag)) == write_role,
        *final(flag) == if write_role {
            *old(flag) | 0x80
        } else {
            *old(flag) & 0x7F
        },
{
    if write_role {
        set_mask(flag);
    } else {
        unset_mask(flag);
    }
}

/// The bytes a response frame occupies at the head of the segment's data
/// area: header, then payload.
pub open spec fn res_frame_bytes(seq: u32, payload: Seq<u8>) -> Seq<u8> {
    res_header_bytes(ResHeader { seq, size: payload.len() as u32 }) + payload
}

/// Whether a response payload fits the fixed response segment.
pub open spec fn res_payload_fits(payload: Seq<u8>) -> bool {
    RES_HEADER_LEN + payload.len() <= SHM_RES_MAX_SIZE
}

/// Frame a response for the response mailbox.  A payload too large for the
/// segment is refused before anything is built, so the segment is never
/// overrun.
pub fn encode_res_frame(seq: u32, payload: &Vec<u8>) -> (r: Option<Vec<u8>>)
    ensures
        match r {
            Some(v) => res_payload_fits(payload@) && v@ == res_frame_bytes(seq, payload@),
            None => !res_payload_fits(payload@),
        },
{
    if payload.len() > SHM_RES_MAX_SIZE - RES_HEADER_LEN {
        return None;
    }
    let mut v: Vec<u8> = Vec::new();
    crate::codec::push_le32(&mut v, seq);
    crate::codec::push_le32(&mut v, payload.len() as u32);
    let ghost header = v@;
    proof {
        assert(header =~= res_header_bytes(ResHeader { seq, size: payload@.len() as u32 }));
    }
    let mut i: usize = 0;
    while i < payload.len()
        invariant
            i <= payload@.len(),
            v@ == header + payload@.subrange(0, i as int),
        decreases payload@.len() - i,
    {
        v.push(payload[i]);
        proof {
            assert(header + payload@.subrange(0, i as int) + seq![payload@[i as int]] =~= header
                + payload@.subrange(0, i + 1));
        }
        i = i + 1;
    }
    proof {
        assert(payload@.subrange(0, payload@.len() as int) =~= payload@);
    }
    Some(v)
}

/// Read one response frame back from the head of the segment's data area:
/// the sequence number and the payload the header announces.  Refused when
/// the bytes are too short.
pub fn decode_res_frame(bytes: &Vec<u8>) -> (r: Option<(u32, Vec<u8>)>)
    ensures
        match r {
            Some((seq, p)) => {
                &&& bytes@.len() >= RES_HEADER_LEN
                &&& seq == le32_value(bytes@[0], bytes@[1], bytes@[2], bytes@[3])
                &&& p@.len() == le32_value(bytes@[4], bytes@[5], bytes@[6], bytes@[7])
                &&& p@ == bytes@.subrange(RES_HEADER_LEN as int, RES_HEADER_LEN + p@.len())
            },
            None => bytes@.len() < RES_HEADER_LEN || bytes@.len() < RES_HEADER_LEN + le32_value(
                bytes@[4],
                bytes@[5],
                bytes@[6],
                bytes@[7],
            ),
        },
{
    if bytes.len() < RES_HEADER_LEN {
        return None;
    }
    let seq = read_le32(bytes, 0);
    let size = read_le32(bytes, 4);
    if size as usize > bytes.len() - RES_HEADER_LEN {
        return None;
    }
    let payload = copy_range(bytes, RES_HEADER_LEN, size as usize);
    Some((seq, payload))
}

/// Response round trip: any payload that fits the segment, once framed and
/// read back, yields the identical payload and sequence number.
pub proof fn lemma_res_frame_round_trip(seq: u32, payload: Seq<u8>, v: Seq<u8>)
    requires
        res_payload_fits(payload),
        v == res_frame_bytes(seq, payload),
    ensures
        v.len() >= RES_HEADER_LEN,
        le32_value(v[0], v[1], v[2], v[3]) == seq,
        le32_value(v[4], v[5], v[6], v[7]) == payload.len(),
        v.subrange(RES_HEADER_LEN as int, RES_HEADER_LEN + payload.len() as int) =~= payload,
{
    crate::codec::lemma_le32_round_trip(seq);
    crate::codec::lemma_le32_round_trip(payload.len() as u32);
    let h = res_header_bytes(ResHeader { seq, size: payload.len() as u32 });
    assert(h.len() == 8);
    assert(v[0] == le32_bytes(seq)[0]);
    assert(v[1] == le32_bytes(seq)[1]);
    assert(v[2] == le32_bytes(seq)[2]);
    assert(v[3] == le32_bytes(seq)[3]);
    assert(v[4] == le32_bytes(payload.len() as u32)[0]);
    assert(v[5] == le32_bytes(payload.len() as u32)[1]);
    assert(v[6] == le32_bytes(payload.len() as u32)[2]);
    assert(v[7] == le32_bytes(payload.len() as u32)[3]);
}

} // verus!
