use vstd::prelude::*;
use crate::util::{splice, u32_le_seq, u32_to_le};

verus! {

/// Decides one operation of the keyed benchmark workload from two
/// already-drawn values: a uniform draw choosing between a read and a
/// write, and a sampled key number. The operation is a read exactly
/// when the draw, taken modulo one hundred, reaches the write
/// percentage; the key is the sampled number in little-endian order,
/// padded with zeroes to the requested length.
pub fn workload_op(draw: u32, sample: u32, put_pct: u32, key_len: usize) -> (r: (bool, Vec<u8>))
    requires
        4 <= key_len,
    ensures
        r.0 <==> draw % 100 >= put_pct,
        r.1@ == u32_le_seq(sample) + Seq::new((key_len - 4) as nat, |i: int| 0u8),
{
    let is_get = draw % 100 >= put_pct;
    let mut key: Vec<u8> = vec![0u8; key_len];
    let le = u32_to_le(sample);
    splice(&mut key, 0, le.as_slice());
    proof {
        assert(key@ =~= u32_le_seq(sample) + Seq::new((key_len - 4) as nat, |i: int| 0u8));
    }
    (is_get, key)
}

} // verus!
