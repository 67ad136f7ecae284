//! The escrow record's persisted byte layout.
//!
//! A stored record is a fixed discriminator prefix, then the fields in
//! order: seed (8 bytes, little endian), maker, deposited mint and requested
//! mint (32-byte address fields each; this model's 64-bit identities sit in
//! the low bytes, the rest are zero), receive (8 bytes), unlock time
//! (8 bytes, two's complement), and the bump byte. `decode_record` accepts a
//! byte string exactly when it is the encoding of some record, and returns
//! that record.

use vstd::prelude::*;
use vstd::bytes::lemma_auto_spec_u64_to_from_le_bytes;
use vstd::bytes::spec_u64_from_le_bytes;
use vstd::bytes::spec_u64_to_le_bytes;
use vstd::bytes::u64_from_le_bytes;
use vstd::bytes::u64_to_le_bytes;
use vstd::slice::slice_subrange;

use crate::escrow::EscrowRecord;

verus! {

/// The length of one encoded record: 8 discriminator bytes, seed, three
/// 32-byte address fields, receive, unlock time, and the bump byte.
pub const RECORD_LEN: usize = 129;

/// The discriminator prefix that marks a byte string as an escrow record.
pub open spec fn spec_discriminator() -> Seq<u8> {
    seq![101u8, 115u8, 99u8, 114u8, 111u8, 119u8, 118u8, 49u8]
}

/// A run of zero bytes.
pub open spec fn spec_zero_bytes(n: nat) -> Seq<u8> {
    Seq::new(n, |i: int| 0u8)
}

/// A 32-byte address field: the identity in the low 8 bytes, zeros above.
pub open spec fn spec_addr_bytes(id: u64) -> Seq<u8> {
    spec_u64_to_le_bytes(id) + spec_zero_bytes(24)
}

/// The unlock time's two's-complement image as an unsigned 64-bit value.
pub open spec fn spec_i64_as_u64(x: i64) -> u64 {
    if x >= 0 {
        x as u64
    } else {
        (x + 0x1_0000_0000_0000_0000) as u64
    }
}

/// The signed reading of a two's-complement 64-bit value.
pub open spec fn spec_u64_as_i64(u: u64) -> i64 {
    if u < 0x8000_0000_0000_0000 {
        u as i64
    } else {
        (u - 0x1_0000_0000_0000_0000) as i64
    }
}

/// The signed and unsigned readings invert each other.
pub proof fn lemma_i64_u64_round_trip(x: i64, u: u64)
    ensures
        spec_u64_as_i64(spec_i64_as_u64(x)) == x,
        spec_i64_as_u64(spec_u64_as_i64(u)) == u,
{
}

/// The encoding of one record.
pub open spec fn spec_encode_record(r: EscrowRecord) -> Seq<u8> {
    spec_discriminator() + spec_u64_to_le_bytes(r.seed) + spec_addr_bytes(r.maker)
        + spec_addr_bytes(r.mint_a) + spec_addr_bytes(r.mint_b) + spec_u64_to_le_bytes(r.receive)
        + spec_u64_to_le_bytes(spec_i64_as_u64(r.unlock_time)) + seq![r.bump]
}

/// Where each field stands in the encoding.
proof fn lemma_encode_fields(rec: EscrowRecord)
    ensures
        spec_encode_record(rec).len() == RECORD_LEN,
        forall|i: int|
            0 <= i < 8 ==> #[trigger] spec_encode_record(rec)[i] == spec_discriminator()[i],
        forall|i: int| 24 <= i < 48 ==> #[trigger] spec_encode_record(rec)[i] == 0u8,
        forall|i: int| 56 <= i < 80 ==> #[trigger] spec_encode_record(rec)[i] == 0u8,
        forall|i: int| 88 <= i < 112 ==> #[trigger] spec_encode_record(rec)[i] == 0u8,
        spec_encode_record(rec).subrange(8, 16) == spec_u64_to_le_bytes(rec.seed),
        spec_encode_record(rec).subrange(16, 24) == spec_u64_to_le_bytes(rec.maker),
        spec_encode_record(rec).subrange(48, 56) == spec_u64_to_le_bytes(rec.mint_a),
        spec_encode_record(rec).subrange(80, 88) == spec_u64_to_le_bytes(rec.mint_b),
        spec_encode_record(rec).subrange(112, 120) == spec_u64_to_le_bytes(rec.receive),
        spec_encode_record(rec).subrange(120, 128) == spec_u64_to_le_bytes(
            spec_i64_as_u64(rec.unlock_time),
        ),
        spec_encode_record(rec)[128] == rec.bump,
{
    lemma_auto_spec_u64_to_from_le_bytes();
    let e1 = spec_discriminator() + spec_u64_to_le_bytes(rec.seed);
    let e2 = e1 + spec_addr_bytes(rec.maker);
    let e3 = e2 + spec_addr_bytes(rec.mint_a);
    let e4 = e3 + spec_addr_bytes(rec.mint_b);
    let e5 = e4 + spec_u64_to_le_bytes(rec.receive);
    let e6 = e5 + spec_u64_to_le_bytes(spec_i64_as_u64(rec.unlock_time));
    let e7 = e6 + seq![rec.bump];
    assert(spec_encode_record(rec) == e7);
    assert(spec_addr_bytes(rec.maker).len() == 32);
    assert(spec_addr_bytes(rec.mint_a).len() == 32);
    assert(spec_addr_bytes(rec.mint_b).len() == 32);
    assert(e1.len() == 16);
    assert(e2.len() == 48);
    assert(e3.len() == 80);
    assert(e4.len() == 112);
    assert(e5.len() == 120);
    assert(e6.len() == 128);
    assert(e7.len() == 129);
    assert(spec_encode_record(rec).subrange(8, 16) =~= spec_u64_to_le_bytes(rec.seed));
    assert(spec_encode_record(rec).subrange(16, 24) =~= spec_u64_to_le_bytes(rec.maker));
    assert(spec_encode_record(rec).subrange(48, 56) =~= spec_u64_to_le_bytes(rec.mint_a));
    assert(spec_encode_record(rec).subrange(80, 88) =~= spec_u64_to_le_bytes(rec.mint_b));
    assert(spec_encode_record(rec).subrange(112, 120) =~= spec_u64_to_le_bytes(rec.receive));
    assert(spec_encode_record(rec).subrange(120, 128) =~= spec_u64_to_le_bytes(
        spec_i64_as_u64(rec.unlock_time),
    ));
}

/// Every encoding has the fixed length.
pub proof fn lemma_encode_len(r: EscrowRecord)
    ensures
        spec_encode_record(r).len() == RECORD_LEN,
{
    lemma_encode_fields(r);
}

/// The encoding determines the record: equal byte strings come from equal
/// records, so a stored record cannot be confused with any other.
pub proof fn lemma_encode_injective(r1: EscrowRecord, r2: EscrowRecord)
    requires
        spec_encode_record(r1) == spec_encode_record(r2),
    ensures
        r1 == r2,
{
    lemma_auto_spec_u64_to_from_le_bytes();
    lemma_encode_fields(r1);
    lemma_encode_fields(r2);
    assert(spec_u64_from_le_bytes(spec_u64_to_le_bytes(r1.seed)) == r1.seed);
    assert(spec_u64_from_le_bytes(spec_u64_to_le_bytes(r2.seed)) == r2.seed);
    assert(spec_u64_from_le_bytes(spec_u64_to_le_bytes(r1.maker)) == r1.maker);
    assert(spec_u64_from_le_bytes(spec_u64_to_le_bytes(r2.maker)) == r2.maker);
    assert(spec_u64_from_le_bytes(spec_u64_to_le_bytes(r1.mint_a)) == r1.mint_a);
    assert(spec_u64_from_le_bytes(spec_u64_to_le_bytes(r2.mint_a)) == r2.mint_a);
    assert(spec_u64_from_le_bytes(spec_u64_to_le_bytes(r1.mint_b)) == r1.mint_b);
    assert(spec_u64_from_le_bytes(spec_u64_to_le_bytes(r2.mint_b)) == r2.mint_b);
    assert(spec_u64_from_le_bytes(spec_u64_to_le_bytes(r1.receive)) == r1.receive);
    assert(spec_u64_from_le_bytes(spec_u64_to_le_bytes(r2.receive)) == r2.receive);
    assert(spec_u64_from_le_bytes(spec_u64_to_le_bytes(spec_i64_as_u64(r1.unlock_time)))
        == spec_i64_as_u64(r1.unlock_time));
    assert(spec_u64_from_le_bytes(spec_u64_to_le_bytes(spec_i64_as_u64(r2.unlock_time)))
        == spec_i64_as_u64(r2.unlock_time));
    lemma_i64_u64_round_trip(r1.unlock_time, 0);
    lemma_i64_u64_round_trip(r2.unlock_time, 0);
}

/// Append an address field: the identity's 8 little-endian bytes and 24
/// zero bytes.
fn push_addr_bytes(out: &mut Vec<u8>, id: u64)
    ensures
        final(out)@ == old(out)@ + spec_addr_bytes(id),
{
    let mut le = u64_to_le_bytes(id);
    let ghost base = out@;
    out.append(&mut le);
    let mut k: usize = 0;
    while k < 24
        invariant
            k <= 24,
            out@ == base + spec_u64_to_le_bytes(id) + spec_zero_bytes(k as nat),
        decreases 24 - k,
    {
        out.push(0u8);
        k = k + 1;
        proof {
            assert(out@ =~= base + spec_u64_to_le_bytes(id) + spec_zero_bytes(k as nat));
        }
    }
    proof {
        assert(out@ =~= base + spec_addr_bytes(id));
    }
}

/// Encode a record into its persisted byte layout.
pub fn encode_record(r: &EscrowRecord) -> (out: Vec<u8>)
    ensures
        out@ == spec_encode_record(*r),
        out@.len() == RECORD_LEN,
{
    proof {
        lemma_encode_fields(*r);
    }
    let mut out: Vec<u8> = Vec::new();
    out.push(101u8);
    out.push(115u8);
    out.push(99u8);
    out.push(114u8);
    out.push(111u8);
    out.push(119u8);
    out.push(118u8);
    out.push(49u8);
    proof {
        assert(out@ =~= spec_discriminator());
    }
    let mut seed_le = u64_to_le_bytes(r.seed);
    out.append(&mut seed_le);
    push_addr_bytes(&mut out, r.maker);
    push_addr_bytes(&mut out, r.mint_a);
    push_addr_bytes(&mut out, r.mint_b);
    let mut receive_le = u64_to_le_bytes(r.receive);
    out.append(&mut receive_le);
    let unlock_image: u64 = if r.unlock_time >= 0 {
        r.unlock_time as u64
    } else {
        u64::MAX - ((-(r.unlock_time + 1)) as u64)
    };
    proof {
        assert(unlock_image == spec_i64_as_u64(r.unlock_time));
    }
    let mut unlock_le = u64_to_le_bytes(unlock_image);
    out.append(&mut unlock_le);
    out.push(r.bump);
    proof {
        assert(out@ =~= spec_encode_record(*r));
    }
    out
}

/// Decode a persisted record. Returns the record whose encoding the bytes
/// are, and nothing on any byte string that encodes no record.
pub fn decode_record(bytes: &Vec<u8>) -> (r: Option<EscrowRecord>)
    ensures
        match r {
            Some(rec) => bytes@ == spec_encode_record(rec),
            None => forall|rec: EscrowRecord| bytes@ != spec_encode_record(rec),
        },
{
    proof {
        lemma_auto_spec_u64_to_from_le_bytes();
    }
    if bytes.len() != RECORD_LEN {
        proof {
            assert forall|rec: EscrowRecord| bytes@ != spec_encode_record(rec) by {
                lemma_encode_fields(rec);
            }
        }
        return None;
    }
    let disc: [u8; 8] = [101u8, 115u8, 99u8, 114u8, 111u8, 119u8, 118u8, 49u8];
    let mut k: usize = 0;
    while k < 8
        invariant
            k <= 8,
            bytes@.len() == RECORD_LEN,
            disc@ == spec_discriminator(),
            forall|j: int| 0 <= j < k as int ==> bytes@[j] == spec_discriminator()[j],
        decreases 8 - k,
    {
        if bytes[k] != disc[k] {
            proof {
                assert forall|rec: EscrowRecord| bytes@ != spec_encode_record(rec) by {
                    lemma_encode_fields(rec);
                }
            }
            return None;
        }
        k = k + 1;
    }
    let mut p: usize = 24;
    while p < 48
        invariant
            24 <= p <= 48,
            bytes@.len() == RECORD_LEN,
            forall|j: int| 24 <= j < p as int ==> bytes@[j] == 0u8,
        decreases 48 - p,
    {
        if bytes[p] != 0u8 {
            proof {
                assert forall|rec: EscrowRecord| bytes@ != spec_encode_record(rec) by {
                    lemma_encode_fields(rec);
                }
            }
            return None;
        }
        p = p + 1;
    }
    let mut p2: usize = 56;
    while p2 < 80
        invariant
            56 <= p2 <= 80,
            bytes@.len() == RECORD_LEN,
            forall|j: int| 56 <= j < p2 as int ==> bytes@[j] == 0u8,
        decreases 80 - p2,
    {
        if bytes[p2] != 0u8 {
            proof {
                assert forall|rec: EscrowRecord| bytes@ != spec_encode_record(rec) by {
                    lemma_encode_fields(rec);
                }
            }
            return None;
        }
        p2 = p2 + 1;
    }
    let mut p3: usize = 88;
    while p3 < 112
        invariant
            88 <= p3 <= 112,
            bytes@.len() == RECORD_LEN,
            forall|j: int| 88 <= j < p3 as int ==> bytes@[j] == 0u8,
        decreases 112 - p3,
    {
        if bytes[p3] != 0u8 {
            proof {
                assert forall|rec: EscrowRecord| bytes@ != spec_encode_record(rec) by {
                    lemma_encode_fields(rec);
                }
            }
            return None;
        }
        p3 = p3 + 1;
    }
    let all = bytes.as_slice();
    let seed = u64_from_le_bytes(slice_subrange(all, 8, 16));
    let maker = u64_from_le_bytes(slice_subrange(all, 16, 24));
    let mint_a = u64_from_le_bytes(slice_subrange(all, 48, 56));
    let mint_b = u64_from_le_bytes(slice_subrange(all, 80, 88));
    let receive = u64_from_le_bytes(slice_subrange(all, 112, 120));
    let unlock_image = u64_from_le_bytes(slice_subrange(all, 120, 128));
    let unlock_time: i64 = if unlock_image < 0x8000_0000_0000_0000u64 {
        unlock_image as i64
    } else {
        -((u64::MAX - unlock_image) as i64) - 1
    };
    proof {
        assert(unlock_time == spec_u64_as_i64(unlock_image));
    }
    let bump = bytes[128];
    let rec = EscrowRecord { seed, maker, mint_a, mint_b, receive, unlock_time, bump };
    proof {
        lemma_encode_fields(rec);
        lemma_i64_u64_round_trip(0, unlock_image);
        assert(spec_u64_to_le_bytes(spec_u64_from_le_bytes(bytes@.subrange(8, 16))) == bytes@
            .subrange(8, 16));
        assert(spec_u64_to_le_bytes(spec_u64_from_le_bytes(bytes@.subrange(16, 24))) == bytes@
            .subrange(16, 24));
        assert(spec_u64_to_le_bytes(spec_u64_from_le_bytes(bytes@.subrange(48, 56))) == bytes@
            .subrange(48, 56));
        assert(spec_u64_to_le_bytes(spec_u64_from_le_bytes(bytes@.subrange(80, 88))) == bytes@
            .subrange(80, 88));
        assert(spec_u64_to_le_bytes(spec_u64_from_le_bytes(bytes@.subrange(112, 120))) == bytes@
            .subrange(112, 120));
        assert(spec_u64_to_le_bytes(spec_u64_from_le_bytes(bytes@.subrange(120, 128))) == bytes@
            .subrange(120, 128));
        assert forall|i: int| 0 <= i < RECORD_LEN implies bytes@[i] == spec_encode_record(rec)[
        i] by {
            if 8 <= i < 16 {
                assert(bytes@[i] == bytes@.subrange(8, 16)[i - 8]);
                assert(spec_encode_record(rec)[i] == spec_encode_record(rec).subrange(8, 16)[i
                    - 8]);
            } else if 16 <= i < 24 {
                assert(bytes@[i] == bytes@.subrange(16, 24)[i - 16]);
                assert(spec_encode_record(rec)[i] == spec_encode_record(rec).subrange(16, 24)[i
                    - 16]);
            } else if 48 <= i < 56 {
                assert(bytes@[i] == bytes@.subrange(48, 56)[i - 48]);
                assert(spec_encode_record(rec)[i] == spec_encode_record(rec).subrange(48, 56)[i
                    - 48]);
            } else if 80 <= i < 88 {
                assert(bytes@[i] == bytes@.subrange(80, 88)[i - 80]);
                assert(spec_encode_record(rec)[i] == spec_encode_record(rec).subrange(80, 88)[i
                    - 80]);
            } else if 112 <= i < 120 {
                assert(bytes@[i] == bytes@.subrange(112, 120)[i - 112]);
                assert(spec_encode_record(rec)[i] == spec_encode_record(rec).subrange(112, 120)[i
                    - 112]);
            } else if 120 <= i < 128 {
                assert(bytes@[i] == bytes@.subrange(120, 128)[i - 120]);
                assert(spec_encode_record(rec)[i] == spec_encode_record(rec).subrange(120, 128)[i
                    - 120]);
            }
        }
        assert(bytes@ =~= spec_encode_record(rec));
    }
    Some(rec)
}

} // verus!
