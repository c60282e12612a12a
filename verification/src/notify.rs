//! Stable notification identities: a deterministic, positive, non-zero
//! 32-bit identifier derived from a marker-like seed string, so the same
//! reminder always maps to the same host notification id.

use vstd::prelude::*;
use vstd::string::{StrSliceExecFns, StringSliceAdditionalSpecFns};

verus! {

/// The FNV-1a hash of a byte string.
pub open spec fn fnv1a(bytes: Seq<u8>) -> u32
    decreases bytes.len(),
{
    if bytes.len() == 0 {
        2166136261u32
    } else {
        vstd::wrapping::u32_specs::wrapping_mul(
            fnv1a(bytes.drop_last()) ^ (bytes.last() as u32),
            16777619u32,
        )
    }
}

/// The identifier derived from a seed's bytes: the hash with the sign bit
/// cleared and the low bit set, so it is always positive and odd.
pub open spec fn spec_notif_id(bytes: Seq<u8>) -> i32 {
    ((fnv1a(bytes) & 0x7FFF_FFFEu32) | 1u32) as i32
}

/// Deterministic notification id from a seed string.
pub fn notif_id(seed: &str) -> (id: i32)
    ensures
        id == spec_notif_id(seed.spec_bytes()),
        1 <= id,
        id % 2 == 1,
{
    let bytes: Vec<u8> = seed.as_bytes_vec();
    let mut h: u32 = 2166136261;
    let mut i: usize = 0;
    proof {
        assert(bytes@.subrange(0, 0) =~= Seq::<u8>::empty());
    }
    while i < bytes.len()
        invariant
            i <= bytes@.len(),
            h == fnv1a(bytes@.subrange(0, i as int)),
        decreases bytes@.len() - i,
    {
        let b: u8 = bytes[i];
        h = (h ^ (b as u32)).wrapping_mul(16777619);
        proof {
            let pre = bytes@.subrange(0, i as int);
            let cur = bytes@.subrange(0, i + 1);
            assert(cur.drop_last() =~= pre);
            assert(cur.last() == b);
        }
        i += 1;
    }
    proof {
        assert(bytes@.subrange(0, bytes@.len() as int) =~= bytes@);
    }
    let masked: u32 = (h & 0x7FFF_FFFE) | 1;
    assert(1 <= ((h & 0x7FFF_FFFEu32) | 1u32) <= 0x7FFF_FFFFu32) by (bit_vector);
    assert(((h & 0x7FFF_FFFEu32) | 1u32) % 2 == 1) by (bit_vector);
    masked as i32
}

} // verus!
