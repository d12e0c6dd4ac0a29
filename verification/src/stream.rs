//! Byte-exact blob streaming.
//!
//! A stored payload is served by seeking a fresh read handle to its offset
//! and passing whatever chunks the handle yields through a size limiter:
//! the limiter slices the chunk that crosses the payload's end and stops
//! there, so the emitted bytes are exactly the payload no matter how the
//! underlying reads happen to be chunked.

use vstd::prelude::*;
use vstd::slice::{slice_subrange, slice_to_vec};

verus! {

/// The bytes a limiter that has already emitted `produced` of `size` bytes
/// goes on to emit, fed the given chunks in order.
pub open spec fn stream_emitted(produced: int, size: int, chunks: Seq<Seq<u8>>) -> Seq<u8>
    decreases chunks.len(),
{
    if produced >= size || chunks.len() == 0 {
        Seq::empty()
    } else if chunks.first().len() <= size - produced {
        chunks.first() + stream_emitted(produced + chunks.first().len(), size, chunks.drop_first())
    } else {
        chunks.first().take(size - produced)
    }
}

proof fn lemma_stream_emitted_prefix(produced: int, size: int, chunks: Seq<Seq<u8>>)
    requires
        0 <= size - produced <= chunks.flatten().len(),
    ensures
        stream_emitted(produced, size, chunks) == chunks.flatten().take(size - produced),
    decreases chunks.len(),
{
    let rem = size - produced;
    if chunks.len() == 0 {
        assert(chunks.flatten().take(0) =~= Seq::<u8>::empty());
    } else {
        let first = chunks.first();
        let rest = chunks.drop_first();
        assert(chunks.flatten() == first + rest.flatten());
        if produced >= size {
            assert(chunks.flatten().take(0) =~= Seq::<u8>::empty());
        } else if first.len() <= rem {
            lemma_stream_emitted_prefix(produced + first.len(), size, rest);
            assert(first + rest.flatten().take(rem - first.len()) =~= (first
                + rest.flatten()).take(rem));
        } else {
            assert(first.take(rem) =~= (first + rest.flatten()).take(rem));
        }
    }
}

/// Blob exactness: however the source chunks the bytes that follow the
/// payload's offset, a limiter of `size` bytes emits exactly the first
/// `size` of them — never fewer, never a byte beyond.
pub proof fn lemma_blob_stream_exact(size: int, chunks: Seq<Seq<u8>>)
    requires
        0 <= size <= chunks.flatten().len(),
    ensures
        stream_emitted(0, size, chunks) == chunks.flatten().take(size),
{
    lemma_stream_emitted_prefix(0, size, chunks);
}

/// A single-pass limiter over one payload: feeds of source chunks come in,
/// at most `limit` bytes in total go out.
pub struct BlobStreamer {
    produced: u64,
    size: u64,
}

impl BlobStreamer {
    /// How many bytes have been emitted so far.
    pub closed spec fn produced_bytes(&self) -> u64 {
        self.produced
    }

    /// How many bytes are to be emitted in total: the payload's size.
    pub closed spec fn limit(&self) -> u64 {
        self.size
    }

    /// A limiter for one payload of `size` bytes, nothing emitted yet.
    pub fn new(size: u64) -> (r: Self)
        ensures
            r.produced_bytes() == 0,
            r.limit() == size,
    {
        BlobStreamer { produced: 0, size }
    }

    /// True once the whole payload has been emitted: the stream's end.
    pub fn done(&self) -> (r: bool)
        ensures
            r == (self.produced_bytes() >= self.limit()),
    {
        self.produced >= self.size
    }

    /// Passes one source chunk through the limiter.  `None` means the
    /// stream already ended; a chunk that would cross the payload's end is
    /// sliced to the bytes that remain, and the stream ends there.
    pub fn next_chunk(&mut self, chunk: &Vec<u8>) -> (out: Option<Vec<u8>>)
        ensures
            final(self).limit() == old(self).limit(),
            final(self).produced_bytes() == (if old(self).produced_bytes() >= old(self).limit() {
                old(self).produced_bytes() as int
            } else if chunk@.len() <= old(self).limit() - old(self).produced_bytes() {
                old(self).produced_bytes() + chunk@.len()
            } else {
                old(self).limit() as int
            }),
            out is None <==> old(self).produced_bytes() >= old(self).limit(),
            (match out {
                None => Seq::<u8>::empty(),
                Some(v) => v@,
            }) == stream_emitted(
                old(self).produced_bytes() as int,
                old(self).limit() as int,
                seq![chunk@],
            ),
    {
        if self.produced >= self.size {
            return None;
        }
        let rem = self.size - self.produced;
        if (chunk.len() as u64) <= rem {
            self.produced = self.produced + (chunk.len() as u64);
            let out = slice_to_vec(chunk.as_slice());
            proof {
                reveal_with_fuel(stream_emitted, 2);
                assert(seq![chunk@].drop_first() =~= Seq::<Seq<u8>>::empty());
                assert(stream_emitted(
                    old(self).produced_bytes() as int,
                    old(self).limit() as int,
                    seq![chunk@],
                ) =~= chunk@);
            }
            Some(out)
        } else {
            let ru = rem as usize;
            let out = slice_to_vec(slice_subrange(chunk.as_slice(), 0, ru));
            self.produced = self.size;
            proof {
                assert(stream_emitted(
                    old(self).produced_bytes() as int,
                    old(self).limit() as int,
                    seq![chunk@],
                ) =~= chunk@.take(rem as int));
            }
            Some(out)
        }
    }
}

} // verus!
