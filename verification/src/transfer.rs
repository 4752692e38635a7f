use vstd::prelude::*;
use vstd::assert_seqs_equal;

verus! {

/// Drives one file transfer: counts the bytes received against the
/// declared size and decides when the transfer is complete. The read
/// loop must stop on the declared size exactly, not on the peer closing.
pub struct TransferEngine {
    pub size: u64,
    pub received: u64,
}

impl TransferEngine {
    /// No more bytes have been accounted than the offer declared.
    pub open spec fn wf(&self) -> bool {
        self.received <= self.size
    }

    /// A fresh transfer: nothing received yet.
    pub fn new(size: u64) -> (r: TransferEngine)
        ensures
            r.wf(),
            r.size == size,
            r.received == 0,
    {
        TransferEngine { size, received: 0 }
    }

    /// How many bytes are still owed.
    pub fn remaining(&self) -> (r: u64)
        requires
            self.wf(),
        ensures
            r == self.size - self.received,
    {
        self.size - self.received
    }

    /// How many bytes the next read may take: a full buffer, or what is
    /// still owed where that is less, so the count never overshoots.
    pub fn chunk_limit(&self) -> (r: usize)
        requires
            self.wf(),
        ensures
            r as int == if self.size - self.received < 4096 {
                self.size - self.received
            } else {
                4096int
            },
    {
        let rem = self.size - self.received;
        if rem < 4096 {
            rem as usize
        } else {
            4096
        }
    }

    /// Account one received chunk.
    pub fn record_chunk(&mut self, n: usize)
        requires
            old(self).wf(),
            n <= old(self).size - old(self).received,
        ensures
            final(self).wf(),
            final(self).size == old(self).size,
            final(self).received == old(self).received + n,
    {
        self.received = self.received + (n as u64);
    }

    /// Account one received chunk and append it to the sink, in arrival
    /// order: what the sink holds is what the peer sent.
    pub fn ingest(&mut self, chunk: &[u8], sink: &mut Vec<u8>)
        requires
            old(self).wf(),
            chunk@.len() <= old(self).size - old(self).received,
        ensures
            final(self).wf(),
            final(self).size == old(self).size,
            final(self).received == old(self).received + chunk@.len(),
            final(sink)@ == old(sink)@ + chunk@,
    {
        crate::bytes::push_all(sink, chunk);
        self.received = self.received + (chunk.len() as u64);
    }

    /// Whether the declared size has been reached exactly.
    pub fn is_done(&self) -> (r: bool)
        requires
            self.wf(),
        ensures
            r == (self.received == self.size),
    {
        self.received == self.size
    }
}

/// The byte count and sink contents after a whole run of chunks has been
/// ingested, each chunk accounted and appended in order.
pub open spec fn run_transfer(received: nat, sink: Seq<u8>, chunks: Seq<Seq<u8>>) -> (nat, Seq<u8>)
    decreases chunks.len(),
{
    if chunks.len() == 0 {
        (received, sink)
    } else {
        run_transfer(received + chunks[0].len(), sink + chunks[0], chunks.skip(1))
    }
}

/// Ingesting a run of chunks accounts exactly their total length and
/// appends exactly their concatenation.
pub proof fn lemma_run_transfer(r0: nat, s0: Seq<u8>, chunks: Seq<Seq<u8>>)
    ensures
        run_transfer(r0, s0, chunks).0 == r0 + chunks.flatten().len(),
        run_transfer(r0, s0, chunks).1 == s0 + chunks.flatten(),
    decreases chunks.len(),
{
    if chunks.len() == 0 {
        assert(chunks.flatten() == Seq::<u8>::empty());
        assert_seqs_equal!(s0 + chunks.flatten() == s0);
    } else {
        lemma_run_transfer(r0 + chunks[0].len(), s0 + chunks[0], chunks.skip(1));
        assert_seqs_equal!(chunks.drop_first() == chunks.skip(1));
        assert(chunks.flatten() == chunks.first() + chunks.drop_first().flatten());
        assert_seqs_equal!((s0 + chunks[0]) + chunks.skip(1).flatten() == s0 + chunks.flatten());
    }
}

/// A peer that delivers exactly the declared size across any partial
/// reads yields a sink of exactly `size` bytes equal to the concatenation
/// of the reads, in order, and the count reaches the size exactly.
pub proof fn lemma_transfer_reconstructs(size: u64, chunks: Seq<Seq<u8>>)
    requires
        chunks.flatten().len() == size,
    ensures
        run_transfer(0, Seq::empty(), chunks) == ((size as nat, chunks.flatten())),
{
    lemma_run_transfer(0, Seq::empty(), chunks);
    assert_seqs_equal!(Seq::<u8>::empty() + chunks.flatten() == chunks.flatten());
}

} // verus!
