//! The data matrix that a block commits to: the merged blob is dealt byte by byte,
//! round robin, into `height` rows.
use vstd::prelude::*;
use bytes::Bytes;

use crate::bytes_buf::{bytes_seq, bytes_len, bytes_at, bytes_from_vec, bytes_clone};
use crate::blob_helper::{YodaBlobData, blob_contents, frame, framed, merge_blobs, lemma_frame_push, lemma_frame_prefix_len};
use crate::frida_proofs::views;

verus! {

/// Rows of bytes, at most `height * width` bytes in all (`max_blob_size`).
#[derive(Debug, Clone, PartialEq, Eq)]
pub struct FriData {
    pub data_list: Vec<Vec<u8>>,
    pub height: usize,
    pub width: usize,
    pub max_blob_size: usize,
}

/// A transaction: the bytes it carries.
pub struct FridaTransaction {
    pub data: Bytes,
}

/// The contents of the rows.
pub open spec fn rows(v: Seq<Vec<u8>>) -> Seq<Seq<u8>> {
    v.map_values(|x: Vec<u8>| x@)
}

/// Deals the bytes of `blob`, in order, round robin over `height` rows: byte `i`
/// goes to the end of row `i % height`.
pub open spec fn deal_rows(blob: Seq<u8>, height: nat) -> Seq<Seq<u8>>
    decreases blob.len(),
{
    if blob.len() == 0 {
        Seq::new(height, |r: int| Seq::<u8>::empty())
    } else {
        let prev = deal_rows(blob.drop_last(), height);
        let r = (blob.len() - 1) % (height as int);
        prev.update(r, prev[r].push(blob.last()))
    }
}

/// The rows one after the other.
pub open spec fn concat_rows(rows: Seq<Seq<u8>>) -> Seq<u8>
    decreases rows.len(),
{
    if rows.len() == 0 {
        Seq::empty()
    } else {
        concat_rows(rows.drop_last()) + rows.last()
    }
}

proof fn lemma_deal_len(blob: Seq<u8>, height: nat)
    requires
        height > 0 || blob.len() == 0,
    ensures
        deal_rows(blob, height).len() == height,
    decreases blob.len(),
{
    if blob.len() > 0 {
        lemma_deal_len(blob.drop_last(), height);
    }
}

proof fn lemma_deal_one_row(blob: Seq<u8>)
    ensures
        deal_rows(blob, 1) =~= seq![blob],
    decreases blob.len(),
{
    if blob.len() > 0 {
        lemma_deal_one_row(blob.drop_last());
        let k = blob.len() - 1;
        assert(k % 1 == 0) by (nonlinear_arith);
        assert(blob.drop_last().push(blob.last()) =~= blob);
        let prev = deal_rows(blob.drop_last(), 1);
        assert(deal_rows(blob, 1) == prev.update(0, prev[0].push(blob.last())));
    } else {
        assert(blob =~= Seq::<u8>::empty());
    }
}

/// The rows that dealing a blob of at most `height` bytes gives: row `r` holds byte
/// `r` when there is one.
pub open spec fn short_rows(blob: Seq<u8>, height: nat) -> Seq<Seq<u8>> {
    Seq::new(height, |r: int| if r < blob.len() { seq![blob[r]] } else { Seq::<u8>::empty() })
}

proof fn lemma_deal_short(blob: Seq<u8>, height: nat)
    requires
        blob.len() <= height,
    ensures
        deal_rows(blob, height) =~= short_rows(blob, height),
    decreases blob.len(),
{
    if blob.len() > 0 {
        lemma_deal_short(blob.drop_last(), height);
        let k = blob.len() - 1;
        assert(k % (height as int) == k) by (nonlinear_arith)
            requires
                0 <= k < height,
        ;
        assert(Seq::<u8>::empty().push(blob.last()) =~= seq![blob[k]]);
    }
}

proof fn lemma_concat_short(blob: Seq<u8>, height: nat, k: int)
    requires
        blob.len() <= height,
        0 <= k <= height,
    ensures
        concat_rows(short_rows(blob, height).take(k)) =~= blob.take(if k < blob.len() { k } else { blob.len() as int }),
    decreases k,
{
    if k > 0 {
        lemma_concat_short(blob, height, k - 1);
        assert(short_rows(blob, height).take(k).drop_last() =~= short_rows(blob, height).take(k - 1));
    }
}

/// Flattening the rows of a blob dealt over `height` rows and dealing the result again
/// gives the same rows when there is a single row or when no row gets more than one
/// byte (`blob.len() <= height`); the bytes are then flattened back in order.
pub proof fn lemma_reconstruct_after_flatten(blob: Seq<u8>, height: nat)
    requires
        height > 0,
        height == 1 || blob.len() <= height,
    ensures
        concat_rows(deal_rows(blob, height)) == blob,
        deal_rows(concat_rows(deal_rows(blob, height)), height) == deal_rows(blob, height),
{
    if height == 1 {
        lemma_deal_one_row(blob);
        let one = seq![blob];
        assert(one.drop_last() =~= Seq::<Seq<u8>>::empty());
        assert(concat_rows(one.drop_last()) == Seq::<u8>::empty());
        assert(concat_rows(one) =~= blob);
    } else {
        lemma_deal_short(blob, height);
        lemma_concat_short(blob, height, height as int);
        assert(short_rows(blob, height).take(height as int) =~= short_rows(blob, height));
        assert(blob.take(blob.len() as int) =~= blob);
    }
}

proof fn lemma_rows_push(v: Seq<Vec<u8>>, x: Vec<u8>)
    ensures
        rows(v.push(x)) =~= rows(v).push(x@),
{
    assert forall|k: int| 0 <= k < v.len() + 1 implies rows(v.push(x))[k] == rows(v).push(x@)[k] by {
        if k < v.len() {
            assert(v.push(x)[k] == v[k]);
        }
    }
}

/// `height` empty rows.
fn empty_rows(height: usize) -> (r: Vec<Vec<u8>>)
    ensures
        rows(r@) == Seq::new(height as nat, |k: int| Seq::<u8>::empty()),
{
    let mut data_list: Vec<Vec<u8>> = Vec::new();
    let mut i: usize = 0;
    while i < height
        invariant
            i <= height,
            rows(data_list@) == Seq::new(i as nat, |k: int| Seq::<u8>::empty()),
        decreases height - i,
    {
        let row: Vec<u8> = Vec::new();
        proof {
            lemma_rows_push(data_list@, row);
        }
        data_list.push(row);
        i += 1;
        assert(rows(data_list@) =~= Seq::new(i as nat, |k: int| Seq::<u8>::empty()));
    }
    data_list
}

/// Appends `byte` to row `index`.
fn push_to_row(data_list: &mut Vec<Vec<u8>>, index: usize, byte: u8)
    requires
        index < old(data_list)@.len(),
    ensures
        rows(final(data_list)@) == rows(old(data_list)@).update(index as int, rows(old(data_list)@)[index as int].push(byte)),
{
    let mut row: Vec<u8> = Vec::new();
    std::mem::swap(&mut row, &mut data_list[index]);
    row.push(byte);
    data_list.set(index, row);
    assert(rows(data_list@) =~= rows(old(data_list)@).update(index as int, rows(old(data_list)@)[index as int].push(byte)));
}

/// Deals `blob` round robin over `height` rows (see `deal_rows`).
pub(crate) fn deal(blob: &[u8], height: usize) -> (r: Vec<Vec<u8>>)
    requires
        height > 0 || blob@.len() == 0,
    ensures
        rows(r@) == deal_rows(blob@, height as nat),
{
    let mut data_list = empty_rows(height);
    let mut i: usize = 0;
    assert(blob@.take(0) =~= Seq::<u8>::empty());
    while i < blob.len()
        invariant
            height > 0 || blob@.len() == 0,
            i <= blob@.len(),
            rows(data_list@) == deal_rows(blob@.take(i as int), height as nat),
        decreases blob.len() - i,
    {
        proof {
            lemma_deal_len(blob@.take(i as int), height as nat);
            assert(blob@.take(i + 1).drop_last() =~= blob@.take(i as int));
        }
        let index = i % height;
        push_to_row(&mut data_list, index, blob[i]);
        i += 1;
    }
    assert(blob@.take(blob@.len() as int) =~= blob@);
    data_list
}

/// The bytes of a buffer, in order, in a vector.
pub(crate) fn copy_bytes(b: &Bytes) -> (r: Vec<u8>)
    ensures
        r@ == bytes_seq(*b),
{
    let len = bytes_len(b);
    let mut out: Vec<u8> = Vec::new();
    let mut i: usize = 0;
    while i < len
        invariant
            len == bytes_seq(*b).len(),
            i <= len,
            out@ == bytes_seq(*b).take(i as int),
        decreases len - i,
    {
        out.push(bytes_at(b, i));
        i += 1;
        assert(out@ =~= bytes_seq(*b).take(i as int));
    }
    assert(out@ =~= bytes_seq(*b));
    out
}

impl FriData {
    /// An empty matrix of the given shape; `max_blob_size = height * width`.
    pub fn new(height: usize, width: usize) -> (r: Self)
        requires
            height * width <= usize::MAX,
        ensures
            r.data_list@.len() == 0,
            r.height == height,
            r.width == width,
            r.max_blob_size == height * width,
    {
        FriData { data_list: Vec::new(), height, width, max_blob_size: height * width }
    }

    /// Deals the merged blob round robin over `height` rows (byte `i` to row
    /// `i % height`); the blob may hold at most `max_blob_size` and `height * width`
    /// bytes.
    pub fn arrange_blobs(&mut self, merged_blob: &Bytes)
        requires
            bytes_seq(*merged_blob).len() <= old(self).max_blob_size,
            old(self).height * old(self).width <= usize::MAX,
            bytes_seq(*merged_blob).len() <= old(self).height * old(self).width,
        ensures
            rows(final(self).data_list@) == deal_rows(bytes_seq(*merged_blob), old(self).height as nat),
            final(self).height == old(self).height,
            final(self).width == old(self).width,
            final(self).max_blob_size == old(self).max_blob_size,
    {
        let blob = copy_bytes(merged_blob);
        proof {
            if self.height == 0 {
                assert(self.height * self.width == 0);
            }
        }
        self.data_list = deal(blob.as_slice(), self.height);
    }

    /// Deals `flattened_data` round robin over `height` rows (byte `i` to row
    /// `i % height`), without any size check.
    pub fn reconstruct_data_list(&mut self, flattened_data: &[u8])
        requires
            old(self).height > 0 || flattened_data@.len() == 0,
        ensures
            rows(final(self).data_list@) == deal_rows(flattened_data@, old(self).height as nat),
            final(self).height == old(self).height,
            final(self).width == old(self).width,
            final(self).max_blob_size == old(self).max_blob_size,
    {
        self.data_list = deal(flattened_data, self.height);
    }

    /// The rows one after the other.
    pub fn flatten(&self) -> (r: Vec<u8>)
        ensures
            r@ == concat_rows(rows(self.data_list@)),
    {
        let mut out: Vec<u8> = Vec::new();
        let mut i: usize = 0;
        while i < self.data_list.len()
            invariant
                i <= self.data_list@.len(),
                out@ == concat_rows(rows(self.data_list@).take(i as int)),
            decreases self.data_list.len() - i,
        {
            let row = &self.data_list[i];
            let ghost before = out@;
            let mut j: usize = 0;
            while j < row.len()
                invariant
                    j <= row@.len(),
                    out@ == before + row@.take(j as int),
                decreases row.len() - j,
            {
                out.push(row[j]);
                j += 1;
                assert(out@ =~= before + row@.take(j as int));
            }
            assert(row@.take(row@.len() as int) =~= row@);
            assert(rows(self.data_list@).take(i + 1).drop_last() =~= rows(self.data_list@).take(i as int));
            i += 1;
        }
        assert(rows(self.data_list@).take(self.data_list@.len() as int) =~= rows(self.data_list@));
        out
    }
}

impl From<FriData> for Vec<u8> {
    /// The rows of the matrix one after the other.
    fn from(fri_data: FriData) -> (r: Vec<u8>)
        ensures
            r@ == concat_rows(rows(fri_data.data_list@)),
    {
        fri_data.flatten()
    }
}

impl vstd::std_specs::convert::FromSpecImpl<FriData> for Vec<u8> {
    open spec fn obeys_from_spec() -> bool {
        false
    }

    open spec fn from_spec(v: FriData) -> Vec<u8> {
        choose|r: Vec<u8>| #[trigger] r@ == concat_rows(rows(v.data_list@))
    }
}

impl FridaTransaction {
    /// A transaction carrying `data`.
    pub fn new(data: Bytes) -> (r: Self)
        ensures
            r.data == data,
    {
        FridaTransaction { data }
    }
}

/// The data the transactions carry.
pub open spec fn transaction_contents(txs: Seq<FridaTransaction>) -> Seq<Seq<u8>> {
    txs.map_values(|t: FridaTransaction| bytes_seq(t.data))
}

/// The data matrix of a block: the transactions' data, each as one blob, merged
/// (see `frame`) and dealt round robin over `data_height` rows.
pub fn create_fri_data(transactions: &[FridaTransaction], data_height: usize, data_width: usize) -> (r: FriData)
    requires
        data_height * data_width <= usize::MAX,
        frame(transaction_contents(transactions@)).len() <= data_height * data_width,
        frame(transaction_contents(transactions@)).len() <= isize::MAX,
    ensures
        rows(r.data_list@) == deal_rows(frame(transaction_contents(transactions@)), data_height as nat),
        r.height == data_height,
        r.width == data_width,
        r.max_blob_size == data_height * data_width,
{
    let mut yoda_blob: Vec<YodaBlobData> = Vec::new();
    let mut i: usize = 0;
    while i < transactions.len()
        invariant
            i <= transactions@.len(),
            blob_contents(yoda_blob@) == transaction_contents(transactions@.take(i as int)),
        decreases transactions.len() - i,
    {
        let blob = YodaBlobData::from_raw(bytes_clone(&transactions[i].data)).unwrap();
        proof {
            let prev = transactions@.take(i as int);
            let next = transactions@.take(i + 1);
            assert(next =~= prev.push(transactions@[i as int]));
            assert(blob_contents(yoda_blob@.push(blob)) =~= blob_contents(yoda_blob@).push(bytes_seq(blob.0)));
            assert(transaction_contents(next) =~= transaction_contents(prev).push(bytes_seq(transactions@[i as int].data)));
        }
        yoda_blob.push(blob);
        i += 1;
    }
    assert(transactions@.take(transactions@.len() as int) =~= transactions@);
    let merged_blob = merge_blobs(yoda_blob.as_slice());
    let mut fri_data = FriData::new(data_height, data_width);
    fri_data.arrange_blobs(&merged_blob);
    fri_data
}

/// Why a blob cannot be laid out in a data matrix.
#[derive(Debug, Clone, Copy, PartialEq, Eq)]
pub enum DataError {
    /// The blob holds more bytes than the matrix (or the matrix's size overflows).
    BlobTooLarge,
}

impl FriData {
    /// `arrange_blobs` after checking the blob's size: `Err(BlobTooLarge)`, the
    /// matrix left as it was, when `height * width` overflows or the blob holds more
    /// than `max_blob_size` or `height * width` bytes.
    pub fn try_arrange_blobs(&mut self, merged_blob: &Bytes) -> (r: Result<(), DataError>)
        ensures
            r is Ok <==> {
                &&& bytes_seq(*merged_blob).len() <= old(self).max_blob_size
                &&& old(self).height * old(self).width <= usize::MAX
                &&& bytes_seq(*merged_blob).len() <= old(self).height * old(self).width
            },
            r is Ok ==> rows(final(self).data_list@) == deal_rows(bytes_seq(*merged_blob), old(self).height as nat),
            r is Err ==> final(self).data_list@ == old(self).data_list@,
            r matches Err(e) ==> e == DataError::BlobTooLarge,
            final(self).height == old(self).height,
            final(self).width == old(self).width,
            final(self).max_blob_size == old(self).max_blob_size,
    {
        let len = bytes_len(merged_blob);
        match self.height.checked_mul(self.width) {
            Some(capacity) => {
                if len <= self.max_blob_size && len <= capacity {
                    self.arrange_blobs(merged_blob);
                    Ok(())
                } else {
                    Err(DataError::BlobTooLarge)
                }
            },
            None => Err(DataError::BlobTooLarge),
        }
    }
}

/// Length of the merged data of the transactions (see `frame`), `None` when it
/// exceeds `isize::MAX`.
fn merged_length(transactions: &[FridaTransaction]) -> (r: Option<usize>)
    ensures
        match r {
            Some(n) => n == frame(transaction_contents(transactions@)).len() && n <= isize::MAX,
            None => frame(transaction_contents(transactions@)).len() > isize::MAX,
        },
{
    let limit: usize = isize::MAX as usize;
    let mut total: usize = 0;
    let mut i: usize = 0;
    let ghost all = transaction_contents(transactions@);
    assert(transaction_contents(transactions@.take(0)) =~= Seq::<Seq<u8>>::empty());
    while i < transactions.len()
        invariant
            all == transaction_contents(transactions@),
            i <= transactions@.len(),
            limit == isize::MAX,
            total == frame(transaction_contents(transactions@.take(i as int))).len(),
            total <= limit,
        decreases transactions.len() - i,
    {
        let len = bytes_len(&transactions[i].data);
        proof {
            assert(transactions@.take(i + 1) =~= transactions@.take(i as int).push(transactions@[i as int]));
            assert(transaction_contents(transactions@.take(i + 1)) =~= transaction_contents(transactions@.take(i as int)).push(
                bytes_seq(transactions@[i as int].data),
            ));
            lemma_frame_push(transaction_contents(transactions@.take(i as int)), bytes_seq(transactions@[i as int].data));
            assert(transaction_contents(transactions@.take(i + 1)) =~= all.take(i + 1));
            lemma_frame_prefix_len(all, i + 1);
            assert(transactions@.take(transactions@.len() as int) =~= transactions@);
        }
        if total > limit - 8 || len > limit - 8 - total {
            return None;
        }
        total = total + 8 + len;
        i += 1;
    }
    assert(transactions@.take(transactions@.len() as int) =~= transactions@);
    Some(total)
}

/// `create_fri_data` after checking sizes: `Err(BlobTooLarge)` when `height * width`
/// overflows or the merged data does not fit the matrix (or exceeds `isize::MAX`
/// bytes).
pub fn try_create_fri_data(transactions: &[FridaTransaction], data_height: usize, data_width: usize) -> (r: Result<FriData, DataError>)
    ensures
        r is Ok <==> {
            &&& data_height * data_width <= usize::MAX
            &&& frame(transaction_contents(transactions@)).len() <= data_height * data_width
            &&& frame(transaction_contents(transactions@)).len() <= isize::MAX
        },
        r matches Err(e) ==> e == DataError::BlobTooLarge,
        r matches Ok(d) ==> {
            &&& rows(d.data_list@) == deal_rows(frame(transaction_contents(transactions@)), data_height as nat)
            &&& d.height == data_height
            &&& d.width == data_width
            &&& d.max_blob_size == data_height * data_width
        },
{
    let capacity = match data_height.checked_mul(data_width) {
        Some(c) => c,
        None => return Err(DataError::BlobTooLarge),
    };
    match merged_length(transactions) {
        Some(len) => {
            if len <= capacity {
                Ok(create_fri_data(transactions, data_height, data_width))
            } else {
                Err(DataError::BlobTooLarge)
            }
        },
        None => Err(DataError::BlobTooLarge),
    }
}

impl From<FriData> for FridaTransaction {
    /// A transaction carrying the rows of the matrix one after the other.
    fn from(value: FriData) -> (r: Self)
        ensures
            bytes_seq(r.data) == concat_rows(rows(value.data_list@)),
    {
        let data: Vec<u8> = value.flatten();
        FridaTransaction { data: bytes_from_vec(data) }
    }
}

impl vstd::std_specs::convert::FromSpecImpl<FriData> for FridaTransaction {
    open spec fn obeys_from_spec() -> bool {
        false
    }

    open spec fn from_spec(v: FriData) -> FridaTransaction {
        choose|r: FridaTransaction| #[trigger] bytes_seq(r.data) == concat_rows(rows(v.data_list@))
    }
}

} // verus!
