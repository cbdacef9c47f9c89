//! Exact-count transfers over a pipe.
//!
//! A read or a write on a pipe may move fewer bytes than asked for, or be
//! interrupted before it moves any. The types here keep the progress of one
//! transfer of a known number of bytes: the caller performs each system call
//! and hands its outcome over, and learns whether to call again, whether the
//! transfer is complete, or why it ended.
use vstd::prelude::*;
use vstd::slice::slice_subrange;

verus! {

/// Where a transfer stands after an outcome was handed over.
#[derive(Debug, Clone, Copy, PartialEq, Eq, Structural)]
pub enum Progress {
    /// Bytes remain to be moved: call again.
    Pending,
    /// Every byte has been moved.
    Complete,
    /// The peer closed its end before every byte was read.
    Closed,
    /// The system call failed with this error number.
    Failed(i32),
}

/// The outcome of one read system call.
pub enum ReadEvent {
    /// These bytes were read; none means that the end of the pipe was reached.
    Data(Vec<u8>),
    /// The call was interrupted before it read anything.
    Interrupted,
    /// The call failed with this error number.
    Failed(i32),
}

/// The outcome of one write system call.
#[derive(Debug, Clone, Copy, PartialEq, Eq, Structural)]
pub enum WriteEvent {
    /// This many bytes were written.
    Wrote(usize),
    /// The call was interrupted before it wrote anything.
    Interrupted,
    /// The call failed with this error number.
    Failed(i32),
}

/// The bytes received, and the progress, after `chunk` was read on top of
/// `received` in a read of `count` bytes.
pub open spec fn after_chunk(received: Seq<u8>, count: nat, chunk: Seq<u8>) -> (Seq<u8>, Progress) {
    let now = received + chunk;
    if now.len() == count {
        (now, Progress::Complete)
    } else if chunk.len() == 0 {
        (now, Progress::Closed)
    } else {
        (now, Progress::Pending)
    }
}

/// The bytes received, and the progress, after the chunks were read in turn,
/// stopping at the first one after which the read is no longer pending.
pub open spec fn after_chunks(received: Seq<u8>, count: nat, chunks: Seq<Seq<u8>>) -> (
    Seq<u8>,
    Progress,
)
    decreases chunks.len(),
{
    if chunks.len() == 0 {
        (received, Progress::Pending)
    } else {
        let (now, p) = after_chunk(received, count, chunks[0]);
        if p == Progress::Pending {
            after_chunks(now, count, chunks.drop_first())
        } else {
            (now, p)
        }
    }
}

/// Sum of the lengths of the chunks.
pub open spec fn total_len(chunks: Seq<Seq<u8>>) -> nat
    decreases chunks.len(),
{
    if chunks.len() == 0 {
        0
    } else {
        chunks[0].len() + total_len(chunks.drop_first())
    }
}

proof fn lemma_chunks_fill(received: Seq<u8>, count: nat, chunks: Seq<Seq<u8>>)
    requires
        chunks.len() > 0,
        forall|i: int| 0 <= i < chunks.len() ==> chunks[i].len() > 0,
        received.len() + total_len(chunks) == count,
    ensures
        after_chunks(received, count, chunks) == (received + chunks.flatten(), Progress::Complete),
    decreases chunks.len(),
{
    let rest = chunks.drop_first();
    let now = received + chunks[0];
    if chunks.len() == 1 {
        assert(rest.len() == 0);
        assert(total_len(rest) == 0);
        assert(chunks.flatten() =~= chunks[0] + rest.flatten());
        assert(rest.flatten() =~= Seq::<u8>::empty());
        assert(now =~= received + chunks.flatten());
    } else {
        assert(rest[0] == chunks[1]);
        assert(total_len(rest) >= rest[0].len());
        assert(after_chunk(received, count, chunks[0]) == (now, Progress::Pending));
        lemma_chunks_fill(now, count, rest);
        assert(now + rest.flatten() =~= received + chunks.flatten());
    }
}

/// A read fed in non-empty fragments that together hold exactly the number of
/// bytes asked for ends complete after the last fragment, never earlier, and
/// holds exactly the bytes of the fragments in order.
pub proof fn lemma_fragmented_read_completes(count: nat, chunks: Seq<Seq<u8>>)
    requires
        chunks.len() > 0,
        forall|i: int| 0 <= i < chunks.len() ==> chunks[i].len() > 0,
        total_len(chunks) == count,
    ensures
        after_chunks(Seq::empty(), count, chunks) == (chunks.flatten(), Progress::Complete),
{
    lemma_chunks_fill(Seq::empty(), count, chunks);
    assert(Seq::<u8>::empty() + chunks.flatten() =~= chunks.flatten());
}

/// A read that returns no bytes before the count is reached reports that the
/// peer closed its end, and receives nothing.
pub proof fn lemma_closed_peer(received: Seq<u8>, count: nat)
    requires
        received.len() < count,
    ensures
        after_chunk(received, count, Seq::empty()) == (received, Progress::Closed),
{
    assert(received + Seq::<u8>::empty() =~= received);
}

/// A read of an exact number of bytes.
pub struct CountedRead {
    received: Vec<u8>,
    count: usize,
}

impl CountedRead {
    /// The bytes received so far.
    pub closed spec fn received(&self) -> Seq<u8> {
        self.received@
    }

    /// The number of bytes to read in all.
    pub closed spec fn count(&self) -> nat {
        self.count as nat
    }

    /// No more bytes have been received than were asked for.
    pub open spec fn wf(&self) -> bool {
        self.received().len() <= self.count()
    }

    /// Starts a read of `count` bytes.
    pub fn new(count: usize) -> (r: CountedRead)
        ensures
            r.wf(),
            r.received() == Seq::<u8>::empty(),
            r.count() == count,
    {
        CountedRead { received: Vec::new(), count }
    }

    /// The number of bytes still to be read.
    pub fn remaining(&self) -> (r: usize)
        requires
            self.wf(),
        ensures
            r == self.count() - self.received().len(),
    {
        self.count - self.received.len()
    }

    /// Whether every byte has been read.
    pub fn is_complete(&self) -> (r: bool)
        requires
            self.wf(),
        ensures
            r == (self.received().len() == self.count()),
    {
        self.received.len() == self.count
    }

    /// Takes in the outcome of one read system call. Bytes read are appended
    /// to those received; an interruption changes nothing and asks for another
    /// call; a read of no bytes before the count is reached means that the
    /// peer closed its end.
    pub fn feed(&mut self, event: ReadEvent) -> (r: Progress)
        requires
            old(self).wf(),
            event matches ReadEvent::Data(d) ==> d@.len() <= old(self).count()
                - old(self).received().len(),
        ensures
            final(self).wf(),
            final(self).count() == old(self).count(),
            match event {
                ReadEvent::Data(d) => (final(self).received(), r) == after_chunk(
                    old(self).received(),
                    old(self).count(),
                    d@,
                ),
                ReadEvent::Interrupted => final(self).received() == old(self).received() && r
                    == Progress::Pending,
                ReadEvent::Failed(e) => final(self).received() == old(self).received() && r
                    == Progress::Failed(e),
            },
    {
        match event {
            ReadEvent::Data(d) => {
                let n = d.len();
                let mut k: usize = 0;
                let ghost start = self.received@;
                while k < n
                    invariant
                        k <= n == d@.len(),
                        self.count == old(self).count,
                        self.received@ == start + d@.subrange(0, k as int),
                        start == old(self).received@,
                        start.len() + n <= self.count,
                    decreases n - k,
                {
                    self.received.push(d[k]);
                    k = k + 1;
                    assert(self.received@ =~= start + d@.subrange(0, k as int));
                }
                assert(d@.subrange(0, n as int) =~= d@);
                if self.received.len() == self.count {
                    Progress::Complete
                } else if n == 0 {
                    Progress::Closed
                } else {
                    Progress::Pending
                }
            },
            ReadEvent::Interrupted => Progress::Pending,
            ReadEvent::Failed(e) => Progress::Failed(e),
        }
    }

    /// The bytes received.
    pub fn into_bytes(self) -> (r: Vec<u8>)
        ensures
            r@ == self.received(),
    {
        self.received
    }
}

/// A write of every byte of a buffer.
pub struct CountedWrite {
    data: Vec<u8>,
    sent: usize,
}

impl CountedWrite {
    /// The bytes to write.
    pub closed spec fn data(&self) -> Seq<u8> {
        self.data@
    }

    /// The number of bytes written so far.
    pub closed spec fn sent(&self) -> nat {
        self.sent as nat
    }

    /// No more bytes have been written than there are.
    pub open spec fn wf(&self) -> bool {
        self.sent() <= self.data().len()
    }

    /// Starts a write of `data`.
    pub fn new(data: Vec<u8>) -> (r: CountedWrite)
        ensures
            r.wf(),
            r.data() == data@,
            r.sent() == 0,
    {
        CountedWrite { data, sent: 0 }
    }

    /// The bytes still to be written.
    pub fn pending(&self) -> (r: &[u8])
        requires
            self.wf(),
        ensures
            r@ == self.data().subrange(self.sent() as int, self.data().len() as int),
    {
        slice_subrange(self.data.as_slice(), self.sent, self.data.len())
    }

    /// Whether every byte has been written.
    pub fn is_complete(&self) -> (r: bool)
        requires
            self.wf(),
        ensures
            r == (self.sent() == self.data().len()),
    {
        self.sent == self.data.len()
    }

    /// Takes in the outcome of one write system call. Bytes written are
    /// counted as sent; an interruption changes nothing and asks for another
    /// call.
    pub fn feed(&mut self, event: WriteEvent) -> (r: Progress)
        requires
            old(self).wf(),
            event matches WriteEvent::Wrote(n) ==> n <= old(self).data().len() - old(self).sent(),
        ensures
            final(self).wf(),
            final(self).data() == old(self).data(),
            match event {
                WriteEvent::Wrote(n) => {
                    &&& final(self).sent() == old(self).sent() + n
                    &&& r == if final(self).sent() == final(self).data().len() {
                        Progress::Complete
                    } else {
                        Progress::Pending
                    }
                },
                WriteEvent::Interrupted => final(self).sent() == old(self).sent() && r
                    == Progress::Pending,
                WriteEvent::Failed(e) => final(self).sent() == old(self).sent() && r
                    == Progress::Failed(e),
            },
    {
        match event {
            WriteEvent::Wrote(n) => {
                let len = self.data.len();
                self.sent = self.sent + n;
                if self.sent == len {
                    Progress::Complete
                } else {
                    Progress::Pending
                }
            },
            WriteEvent::Interrupted => Progress::Pending,
            WriteEvent::Failed(e) => Progress::Failed(e),
        }
    }
}

} // verus!
