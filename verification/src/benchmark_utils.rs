//! Test data for the benchmarks: a data matrix filled with random bytes.
use vstd::prelude::*;

use crate::data::{FriData, rows, deal_rows};

verus! {

/// Fills `buf` with random bytes from the operating system's generator
/// (`rand_core::OsRng`, `RngCore::try_fill_bytes`), and tells whether the generator
/// gave them (`true`) or reported an error (`false`). The buffer keeps its length;
/// the bytes themselves come from the operating system and are left unsaid.
#[verifier::external_body]
fn fill_random(buf: &mut Vec<u8>) -> (filled: bool)
    ensures
        final(buf)@.len() == old(buf)@.len(),
{
    rand_core::RngCore::try_fill_bytes(&mut rand_core::OsRng, buf.as_mut_slice()).is_ok()
}

/// A `height x width` matrix of random bytes: `height * width` random bytes dealt
/// round robin over `height` rows, as `FriData::reconstruct_data_list` does; `None`
/// when the operating system's generator gives no randomness.
pub fn generate_test_data(height: usize, width: usize) -> (r: Option<FriData>)
    requires
        height * width <= usize::MAX,
    ensures
        r matches Some(d) ==> {
            &&& d.height == height
            &&& d.width == width
            &&& d.max_blob_size == height * width
            &&& exists|bytes: Seq<u8>| #![trigger deal_rows(bytes, height as nat)]
                bytes.len() == height * width && rows(d.data_list@) == deal_rows(bytes, height as nat)
        },
{
    let total = height * width;
    let mut flattened_data: Vec<u8> = Vec::new();
    let mut i: usize = 0;
    while i < total
        invariant
            i <= total,
            flattened_data@.len() == i,
        decreases total - i,
    {
        flattened_data.push(0);
        i += 1;
    }
    if !fill_random(&mut flattened_data) {
        return None;
    }
    proof {
        if height == 0 {
            assert(height * width == 0);
        }
    }
    let mut fri_data = FriData::new(height, width);
    fri_data.reconstruct_data_list(flattened_data.as_slice());
    Some(fri_data)
}

} // verus!
