//! Framing of blobs into one byte string: each blob is preceded by its length
//! as a big-endian `u64`,
//! `<length1> <blob1> <length2> <blob2> ...`.
use vstd::prelude::*;
use bytes::Bytes;

use crate::bytes_buf::{
    bytes_seq, bytes_mut_seq, be_bytes, from_be, lemma_be_roundtrip, bytes_len, bytes_clone,
    bytes_get_u64, bytes_slice_to, bytes_advance, bytes_mut_with_capacity, bytes_mut_put_u64,
    bytes_mut_put_bytes, bytes_mut_freeze,
};

verus! {

/// A merged byte string that does not split into framed blobs.
#[derive(Debug, Clone, Copy, PartialEq, Eq)]
pub enum Error {
    Error,
}

/// One blob of transaction data.
pub struct YodaBlobData(pub Bytes);

/// Number of bytes of a blob's length prefix.
pub const PREFIX_BYTES_NUM: usize = 8;

impl YodaBlobData {
    /// Wraps raw bytes as a blob; every byte string is accepted.
    pub fn from_raw(raw: Bytes) -> (r: Result<Self, Error>)
        ensures
            r matches Ok(b) && bytes_seq(b.0) == bytes_seq(raw),
    {
        Ok(YodaBlobData(raw))
    }
}

/// The contents of the blobs.
pub open spec fn blob_contents(blobs: Seq<YodaBlobData>) -> Seq<Seq<u8>> {
    blobs.map_values(|b: YodaBlobData| bytes_seq(b.0))
}

/// One framed blob: its length as eight big-endian bytes, then its bytes.
pub open spec fn framed(blob: Seq<u8>) -> Seq<u8> {
    be_bytes(blob.len() as u64) + blob
}

/// The framed blobs, one after the other.
pub open spec fn frame(blobs: Seq<Seq<u8>>) -> Seq<u8>
    decreases blobs.len(),
{
    if blobs.len() == 0 {
        Seq::empty()
    } else {
        framed(blobs[0]) + frame(blobs.drop_first())
    }
}

/// Splits a merged byte string back into blobs: an empty string holds no blob;
/// otherwise eight bytes give the length `n` of the next blob (read as a
/// big-endian `u64`, as a `usize`), which must be followed by at least `n` bytes.
/// `None` when the string is cut short.
pub open spec fn unframe(s: Seq<u8>) -> Option<Seq<Seq<u8>>>
    decreases s.len(),
{
    if s.len() == 0 {
        Some(Seq::empty())
    } else if s.len() < 8 {
        None
    } else {
        let n = (from_be(s.take(8)) as usize) as int;
        let rest = s.skip(8);
        if rest.len() < n {
            None
        } else {
            match unframe(rest.skip(n)) {
                Some(tail) => Some(seq![rest.take(n)] + tail),
                None => None,
            }
        }
    }
}

/// Appending a blob appends its frame.
pub proof fn lemma_frame_push(blobs: Seq<Seq<u8>>, blob: Seq<u8>)
    ensures
        frame(blobs.push(blob)) == frame(blobs) + framed(blob),
    decreases blobs.len(),
{
    if blobs.len() == 0 {
        let one = blobs.push(blob);
        assert(one.drop_first() =~= Seq::<Seq<u8>>::empty());
        assert(frame(one.drop_first()) == Seq::<u8>::empty());
        assert(frame(one) == framed(one[0]) + frame(one.drop_first()));
        assert(frame(one) =~= framed(blob));
        assert(frame(blobs) == Seq::<u8>::empty());
        assert(frame(blobs) + framed(blob) =~= framed(blob));
    } else {
        lemma_frame_push(blobs.drop_first(), blob);
        assert(blobs.push(blob).drop_first() =~= blobs.drop_first().push(blob));
        assert(frame(blobs.push(blob)) =~= frame(blobs) + framed(blob));
    }
}

/// Splitting the merge of blobs gives the blobs back (blobs longer than `usize::MAX`
/// cannot exist).
pub proof fn lemma_unframe_frame(blobs: Seq<Seq<u8>>)
    requires
        forall|i: int| 0 <= i < blobs.len() ==> (#[trigger] blobs[i]).len() <= usize::MAX,
    ensures
        unframe(frame(blobs)) == Some(blobs),
    decreases blobs.len(),
{
    if blobs.len() == 0 {
        assert(unframe(frame(blobs)) == Some(blobs));
    } else {
        let b = blobs[0];
        let s = frame(blobs);
        lemma_be_roundtrip(b.len() as u64);
        assert(s.take(8) =~= be_bytes(b.len() as u64));
        assert(s.skip(8) =~= b + frame(blobs.drop_first()));
        assert(s.skip(8).take(b.len() as int) =~= b);
        assert(s.skip(8).skip(b.len() as int) =~= frame(blobs.drop_first()));
        lemma_unframe_frame(blobs.drop_first());
        assert(seq![b] + blobs.drop_first() =~= blobs);
    }
}

/// Merging then splitting: `unmerge_blobs(&merge_blobs(blobs))` is `Ok` and gives as
/// many blobs as `blobs`, each with the same bytes, in the same order (empty blobs
/// included). Every blob a `Bytes` can hold is shorter than `usize::MAX`, and
/// `merge_blobs` asks that the merged bytes fit in `isize::MAX`, which implies it.
pub proof fn lemma_merge_unmerge_roundtrip(blobs: Seq<YodaBlobData>)
    requires
        forall|i: int| 0 <= i < blobs.len() ==> bytes_seq((#[trigger] blobs[i]).0).len() <= usize::MAX,
    ensures
        unframe(frame(blob_contents(blobs))) == Some(blob_contents(blobs)),
        unframe(frame(blob_contents(blobs))) is Some,
        unframe(frame(blob_contents(blobs))).unwrap().len() == blobs.len(),
        forall|i: int| 0 <= i < blobs.len() ==> #[trigger] unframe(frame(blob_contents(blobs))).unwrap()[i] == bytes_seq(blobs[i].0),
{
    assert forall|i: int| 0 <= i < blob_contents(blobs).len() implies (#[trigger] blob_contents(blobs)[i]).len() <= usize::MAX by {
        assert(blob_contents(blobs)[i] == bytes_seq(blobs[i].0));
    }
    lemma_unframe_frame(blob_contents(blobs));
}

proof fn lemma_contents_prefix(blobs: Seq<YodaBlobData>, i: int)
    requires
        0 <= i < blobs.len(),
    ensures
        blob_contents(blobs.take(i + 1)) =~= blob_contents(blobs.take(i)).push(bytes_seq(blobs[i].0)),
{
}

pub(crate) proof fn lemma_frame_prefix_len(blobs: Seq<Seq<u8>>, i: int)
    requires
        0 <= i <= blobs.len(),
    ensures
        frame(blobs.take(i)).len() <= frame(blobs).len(),
    decreases blobs.len() - i,
{
    if i < blobs.len() {
        lemma_frame_prefix_len(blobs, i + 1);
        assert(blobs.take(i + 1) =~= blobs.take(i).push(blobs[i]));
        lemma_frame_push(blobs.take(i), blobs[i]);
    } else {
        assert(blobs.take(i) =~= blobs);
    }
}

/// Concatenates the blobs, each preceded by its length as a big-endian `u64`.
pub fn merge_blobs(yoda_blobs: &[YodaBlobData]) -> (r: Bytes)
    requires
        frame(blob_contents(yoda_blobs@)).len() <= isize::MAX,
    ensures
        bytes_seq(r) == frame(blob_contents(yoda_blobs@)),
{
    let ghost all = blob_contents(yoda_blobs@);
    let mut capacity: usize = 0;
    let mut i: usize = 0;
    while i < yoda_blobs.len()
        invariant
            all == blob_contents(yoda_blobs@),
            frame(all).len() <= isize::MAX,
            i <= yoda_blobs@.len(),
            capacity == frame(blob_contents(yoda_blobs@.take(i as int))).len(),
        decreases yoda_blobs.len() - i,
    {
        proof {
            lemma_contents_prefix(yoda_blobs@, i as int);
            lemma_frame_push(blob_contents(yoda_blobs@.take(i as int)), bytes_seq(yoda_blobs@[i as int].0));
            assert(blob_contents(yoda_blobs@.take(i + 1)) =~= all.take(i + 1));
            lemma_frame_prefix_len(all, i + 1);
        }
        capacity = capacity + PREFIX_BYTES_NUM + bytes_len(&yoda_blobs[i].0);
        i += 1;
    }
    assert(yoda_blobs@.take(yoda_blobs@.len() as int) =~= yoda_blobs@);
    let mut buf = bytes_mut_with_capacity(capacity);
    let mut i: usize = 0;
    proof {
        assert(blob_contents(yoda_blobs@.take(0)) =~= Seq::<Seq<u8>>::empty());
    }
    while i < yoda_blobs.len()
        invariant
            all == blob_contents(yoda_blobs@),
            frame(all).len() <= isize::MAX,
            i <= yoda_blobs@.len(),
            bytes_mut_seq(buf) == frame(blob_contents(yoda_blobs@.take(i as int))),
        decreases yoda_blobs.len() - i,
    {
        let raw = &yoda_blobs[i].0;
        proof {
            lemma_contents_prefix(yoda_blobs@, i as int);
            lemma_frame_push(blob_contents(yoda_blobs@.take(i as int)), bytes_seq(*raw));
            assert(blob_contents(yoda_blobs@.take(i + 1)) =~= all.take(i + 1));
            lemma_frame_prefix_len(all, i + 1);
        }
        let len = bytes_len(raw);
        bytes_mut_put_u64(&mut buf, len as u64);
        bytes_mut_put_bytes(&mut buf, bytes_clone(raw));
        i += 1;
        assert(bytes_mut_seq(buf) =~= frame(blob_contents(yoda_blobs@.take(i as int))));
    }
    assert(yoda_blobs@.take(yoda_blobs@.len() as int) =~= yoda_blobs@);
    bytes_mut_freeze(buf)
}

/// Splits a merged byte string back into its blobs (see `unframe`); `Err` when a
/// length prefix is cut short or announces more bytes than remain.
pub fn unmerge_blobs(merged_blob: &Bytes) -> (r: Result<Vec<YodaBlobData>, Error>)
    ensures
        match r {
            Ok(blobs) => unframe(bytes_seq(*merged_blob)) == Some(blob_contents(blobs@)),
            Err(e) => unframe(bytes_seq(*merged_blob)) is None && e == Error::Error,
        },
{
    let ghost whole = bytes_seq(*merged_blob);
    let mut result: Vec<YodaBlobData> = Vec::new();
    let mut merged = bytes_clone(merged_blob);
    while bytes_len(&merged) != 0
        invariant
            whole == bytes_seq(*merged_blob),
            unframe(whole) is Some <==> unframe(bytes_seq(merged)) is Some,
            unframe(whole) is Some ==> unframe(whole).unwrap() == blob_contents(result@) + unframe(bytes_seq(merged)).unwrap(),
        decreases bytes_seq(merged).len(),
    {
        let ghost cur = bytes_seq(merged);
        if bytes_len(&merged) < PREFIX_BYTES_NUM {
            return Err(Error::Error);
        }
        let blob_len = bytes_get_u64(&mut merged) as usize;
        assert(cur.skip(8) == bytes_seq(merged));
        if bytes_len(&merged) < blob_len {
            return Err(Error::Error);
        }
        let yoda_blob = YodaBlobData(bytes_slice_to(&merged, blob_len));
        bytes_advance(&mut merged, blob_len);
        proof {
            let rest = cur.skip(8);
            assert(unframe(cur) == match unframe(rest.skip(blob_len as int)) {
                Some(tail) => Some(seq![rest.take(blob_len as int)] + tail),
                None => None::<Seq<Seq<u8>>>,
            });
            if unframe(whole) is Some {
                let tail = unframe(bytes_seq(merged)).unwrap();
                assert(blob_contents(result@.push(yoda_blob)) =~= blob_contents(result@).push(rest.take(blob_len as int)));
                assert(blob_contents(result@) + (seq![rest.take(blob_len as int)] + tail) =~= blob_contents(result@.push(yoda_blob)) + tail);
            }
        }
        result.push(yoda_blob);
    }
    assert(unframe(bytes_seq(merged)) == Some(Seq::<Seq<u8>>::empty()));
    assert(blob_contents(result@) + Seq::<Seq<u8>>::empty() =~= blob_contents(result@));
    Ok(result)
}

} // verus!
