//! The fixed-shape data matrix of the first Frida application: 100 rows, at
//! most `MAX_BLOB_SIZE` bytes.
use vstd::prelude::*;
use bytes::Bytes;

use crate::bytes_buf::{bytes_seq, bytes_len};
use crate::data::{rows, deal_rows, deal, copy_bytes, DataError};

verus! {

/// Rows of bytes.
#[derive(Debug)]
pub struct FriData {
    pub data_list: Vec<Vec<u8>>,
}

/// Largest merged blob that fits the matrix.
pub const MAX_BLOB_SIZE: usize = 100 * 100;

/// Deals the merged blob round robin over 100 rows (byte `i` to row `i % 100`);
/// the blob may hold at most `MAX_BLOB_SIZE` bytes.
pub fn arrange_blobs(merged_blob: &Bytes) -> (r: FriData)
    requires
        bytes_seq(*merged_blob).len() <= MAX_BLOB_SIZE,
    ensures
        rows(r.data_list@) == deal_rows(bytes_seq(*merged_blob), 100),
{
    let h: usize = 100;
    let blob = copy_bytes(merged_blob);
    FriData { data_list: deal(blob.as_slice(), h) }
}

/// `arrange_blobs` after checking the blob's size: `Err(BlobTooLarge)` when it holds
/// more than `MAX_BLOB_SIZE` bytes.
pub fn try_arrange_blobs(merged_blob: &Bytes) -> (r: Result<FriData, DataError>)
    ensures
        r is Ok <==> bytes_seq(*merged_blob).len() <= MAX_BLOB_SIZE,
        r matches Ok(d) ==> rows(d.data_list@) == deal_rows(bytes_seq(*merged_blob), 100),
        r matches Err(e) ==> e == DataError::BlobTooLarge,
{
    if bytes_len(merged_blob) <= MAX_BLOB_SIZE {
        Ok(arrange_blobs(merged_blob))
    } else {
        Err(DataError::BlobTooLarge)
    }
}

} // verus!
