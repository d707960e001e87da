//! Body buffering: a streaming body's chunks collected, in arrival order,
//! into one contiguous owned buffer that can be replayed downstream.

use vstd::prelude::*;

verus! {

/// The concatenation of a sequence of chunks.
pub open spec fn spec_collect(chunks: Seq<Seq<u8>>) -> Seq<u8>
    decreases chunks.len(),
{
    if chunks.len() == 0 {
        Seq::empty()
    } else {
        chunks[0] + spec_collect(chunks.drop_first())
    }
}

/// The images of a vector of chunks.
pub open spec fn chunks_view(cs: Seq<Vec<u8>>) -> Seq<Seq<u8>> {
    cs.map_values(|c: Vec<u8>| c@)
}

/// A fully-buffered request body: the one owned, contiguous byte sequence
/// a request's stream was drained into, created once per request and handed
/// onward to the next pipeline stage on success.
pub struct BufferedBody {
    bytes: Vec<u8>,
}

impl View for BufferedBody {
    type V = Seq<u8>;

    closed spec fn view(&self) -> Seq<u8> {
        self.bytes@
    }
}

impl BufferedBody {
    /// Wraps an already-contiguous byte buffer.
    pub fn from_bytes(bytes: Vec<u8>) -> (r: Self)
        ensures
            r@ == bytes@,
    {
        BufferedBody { bytes }
    }

    /// Drains `chunks` in arrival order into one contiguous buffer; the
    /// zero-chunk case yields the empty buffer.
    pub fn from_chunks(chunks: &Vec<Vec<u8>>) -> (r: Self)
        ensures
            r@ == spec_collect(chunks_view(chunks@)),
    {
        let ghost cv = chunks_view(chunks@);
        let mut out: Vec<u8> = Vec::new();
        let mut i: usize = 0;
        proof {
            assert(cv.skip(0) =~= cv);
            assert(Seq::<u8>::empty() + spec_collect(cv) =~= spec_collect(cv));
        }
        while i < chunks.len()
            invariant
                i <= chunks@.len(),
                cv == chunks_view(chunks@),
                cv.len() == chunks@.len(),
                out@ + spec_collect(cv.skip(i as int)) == spec_collect(cv),
            decreases chunks@.len() - i,
        {
            let ghost out0 = out@;
            let ghost rem = cv.skip(i as int);
            let chunk = &chunks[i];
            proof {
                assert(rem[0] == chunk@);
            }
            let mut j: usize = 0;
            while j < chunk.len()
                invariant
                    j <= chunk@.len(),
                    out@ == out0 + chunk@.take(j as int),
                decreases chunk@.len() - j,
            {
                out.push(chunk[j]);
                proof {
                    assert(out@ =~= out0 + chunk@.take(j + 1));
                }
                j += 1;
            }
            proof {
                assert(out@ =~= out0 + chunk@);
                assert(spec_collect(rem) == chunk@ + spec_collect(rem.drop_first()));
                assert(rem.drop_first() =~= cv.skip(i + 1));
                assert(out0 + (chunk@ + spec_collect(cv.skip(i + 1))) =~= (out0 + chunk@)
                    + spec_collect(cv.skip(i + 1)));
            }
            i += 1;
        }
        proof {
            assert(cv.skip(i as int) =~= Seq::<Seq<u8>>::empty());
            assert(out@ + Seq::<u8>::empty() =~= out@);
        }
        BufferedBody { bytes: out }
    }

    /// Drains owned `chunks` into one contiguous buffer; when exactly one
    /// chunk arrived, it is moved into place without a copy.
    pub fn collect(chunks: Vec<Vec<u8>>) -> (r: Self)
        ensures
            r@ == spec_collect(chunks_view(chunks@)),
    {
        let ghost cv = chunks_view(chunks@);
        let mut chunks = chunks;
        if chunks.len() == 1 {
            if let Some(bytes) = chunks.pop() {
                proof {
                    assert(cv =~= seq![bytes@]);
                    lemma_buffering_idempotent(bytes@);
                }
                return BufferedBody { bytes };
            }
        }
        Self::from_chunks(&chunks)
    }

    /// Buffers this already-buffered body once more, as a downstream stage
    /// that replays it as a single chunk would; the bytes are identical.
    pub fn rebuffer(self) -> (r: Self)
        ensures
            r@ == self@,
    {
        let ghost before = self@;
        let mut chunks: Vec<Vec<u8>> = Vec::new();
        chunks.push(self.bytes);
        let r = Self::from_chunks(&chunks);
        proof {
            assert(chunks_view(chunks@) =~= seq![before]);
            lemma_buffering_idempotent(before);
        }
        r
    }

    /// Number of buffered bytes.
    pub fn len(&self) -> (n: usize)
        ensures
            n == self@.len(),
    {
        self.bytes.len()
    }

    /// The buffered bytes, borrowed.
    pub fn as_bytes(&self) -> (r: &Vec<u8>)
        ensures
            r@ == self@,
    {
        &self.bytes
    }

    /// The buffered bytes, owned; the body is consumed.
    pub fn into_bytes(self) -> (r: Vec<u8>)
        ensures
            r@ == self@,
    {
        self.bytes
    }
}

/// Buffering is idempotent: collecting the single chunk an already-buffered
/// body replays returns the identical byte sequence.
pub proof fn lemma_buffering_idempotent(b: Seq<u8>)
    ensures
        spec_collect(seq![b]) == b,
{
    assert(spec_collect(Seq::<Seq<u8>>::empty()) == Seq::<u8>::empty());
    assert(seq![b].drop_first() =~= Seq::<Seq<u8>>::empty());
    assert(seq![b][0] == b);
    assert(b + Seq::<u8>::empty() =~= b);
}

} // verus!
