//! The verified core of the parallel I/O engine: the shared memory
//! budget, the work-queue cursor, and the positioned merger that
//! reassembles payload chunks whatever order they arrive in.
//!
//! The threads themselves live with the caller: workers take entries
//! from the queue cursor, size their read buffers through the budget,
//! and hand `(offset, bytes)` chunks to the merger; every decision they
//! take is a call into this module, so the scheduling logic is verified
//! while the I/O around it stays ordinary code.

use vstd::prelude::*;

verus! {

/// The byte budget shared by the I/O workers.
///
/// `used` counts the payload bytes currently held in worker buffers and
/// never exceeds the budget `cap`: a chunk is granted only what fits,
/// and the first chunk of an idle engine may take the whole budget but
/// no more. Releasing what the merger has written keeps the account
/// exact.
pub struct MemoryBudget {
    used: usize,
    cap: usize,
}

impl MemoryBudget {
    /// Bytes currently held in worker buffers.
    pub closed spec fn spec_used(&self) -> usize {
        self.used
    }

    /// The configured budget.
    pub closed spec fn spec_cap(&self) -> usize {
        self.cap
    }

    /// The accounting invariant: held bytes never exceed the budget.
    pub open spec fn inv(&self) -> bool {
        self.spec_used() <= self.spec_cap() && self.spec_cap() >= 1
    }

    /// A fresh budget with nothing held.
    pub fn new(cap: usize) -> (b: MemoryBudget)
        requires
            cap >= 1,
        ensures
            b.spec_used() == 0,
            b.spec_cap() == cap,
            b.inv(),
    {
        MemoryBudget { used: 0, cap }
    }

    /// The wait predicate of a worker about to read a chunk of an entry
    /// of `entry_size` bytes: it may proceed when the engine is idle, or
    /// when the whole entry still fits beside what is already held.
    /// Waiting whenever something is held and the entry would not fit
    /// keeps progress possible even for an entry near the budget.
    pub fn may_proceed(&self, entry_size: u64) -> (r: bool)
        requires
            self.inv(),
        ensures
            r == !(self.spec_used() > 0 && self.spec_used() + entry_size >= self.spec_cap()),
    {
        !(self.used > 0 && entry_size >= (self.cap - self.used) as u64)
    }

    /// Grants the next chunk of an entry: as much of the remaining bytes
    /// as the budget allows, at least one byte. The grant is added to
    /// the account.
    pub fn take_chunk(&mut self, entry_size: u64, remaining: u64) -> (n: usize)
        requires
            old(self).inv(),
            1 <= remaining <= entry_size,
            !(old(self).spec_used() > 0 && old(self).spec_used() + entry_size >= old(
                self,
            ).spec_cap()),
        ensures
            final(self).inv(),
            final(self).spec_cap() == old(self).spec_cap(),
            n as int == vstd::math::min(
                old(self).spec_cap() - old(self).spec_used(),
                remaining as int,
            ),
            n >= 1,
            final(self).spec_used() == old(self).spec_used() + n,
    {
        let available = self.cap - self.used;
        let n: usize = if remaining < available as u64 {
            remaining as usize
        } else {
            available
        };
        self.used = self.used + n;
        n
    }

    /// Returns bytes the merger has retired. The account never goes
    /// below zero: only held bytes can be released.
    pub fn release(&mut self, n: usize)
        requires
            old(self).inv(),
            n <= old(self).spec_used(),
        ensures
            final(self).inv(),
            final(self).spec_cap() == old(self).spec_cap(),
            final(self).spec_used() == old(self).spec_used() - n,
    {
        self.used = self.used - n;
    }

    /// The extraction-side reservation: takes the whole entry if it fits
    /// beside what is held, else changes nothing and the caller handles
    /// the entry inline.
    pub fn try_reserve(&mut self, size: u64) -> (r: bool)
        requires
            old(self).inv(),
        ensures
            final(self).inv(),
            final(self).spec_cap() == old(self).spec_cap(),
            r == (old(self).spec_used() + size <= old(self).spec_cap()),
            r ==> final(self).spec_used() == old(self).spec_used() + size,
            !r ==> final(self).spec_used() == old(self).spec_used(),
    {
        if size <= self.cap as u64 && self.used as u64 <= self.cap as u64 - size {
            self.used = self.used + size as usize;
            true
        } else {
            false
        }
    }
}

/// The work queue the workers drain: a list of entry positions and a
/// cursor that each worker advances by one to claim the next entry.
pub struct EntryQueue {
    /// Positions (into the caller's entry list) still to process.
    entries: Vec<usize>,
    head: usize,
}

impl EntryQueue {
    /// The queued positions.
    pub closed spec fn spec_entries(&self) -> Seq<usize> {
        self.entries@
    }

    /// How many have been claimed.
    pub closed spec fn spec_head(&self) -> int {
        self.head as int
    }

    /// A queue over the given positions.
    pub fn new(entries: Vec<usize>) -> (q: EntryQueue)
        ensures
            q.spec_entries() == entries@,
            q.spec_head() == 0,
    {
        EntryQueue { entries, head: 0 }
    }

    /// Claims the next entry: each position is handed out exactly once,
    /// in order.
    pub fn next(&mut self) -> (r: Option<usize>)
        ensures
            final(self).spec_entries() == old(self).spec_entries(),
            old(self).spec_head() < old(self).spec_entries().len() ==> (r matches Some(v)
                && v == old(self).spec_entries()[old(self).spec_head()] && final(self).spec_head() == old(self).spec_head() + 1),
            old(self).spec_head() >= old(self).spec_entries().len() ==> r is None && final(self).spec_head() == old(self).spec_head(),
    {
        if self.head < self.entries.len() {
            let v = self.entries[self.head];
            self.head = self.head + 1;
            Some(v)
        } else {
            None
        }
    }
}

/// A positioned byte sink modelling the seekable output file: writes
/// land at absolute offsets, and a write past the end first pads the
/// gap with zeros.
pub struct SeekWriter {
    buf: Vec<u8>,
}

impl View for SeekWriter {
    type V = Seq<u8>;

    closed spec fn view(&self) -> Seq<u8> {
        self.buf@
    }
}

impl SeekWriter {
    /// A writer already holding the given bytes, cursor-independent.
    pub fn from_vec(v: Vec<u8>) -> (w: SeekWriter)
        ensures
            w@ == v@,
    {
        SeekWriter { buf: v }
    }

    /// The bytes as written.
    pub fn into_vec(self) -> (v: Vec<u8>)
        ensures
            v@ == self@,
    {
        self.buf
    }

    /// How many bytes have been written.
    pub fn len(&self) -> (n: usize)
        ensures
            n == self@.len(),
    {
        self.buf.len()
    }

    /// Writes `data` at absolute position `pos`: bytes in the window
    /// take the new values, bytes outside it keep theirs, and a gap
    /// between the old end and `pos` is zero-filled.
    pub fn write_at(&mut self, pos: usize, data: &[u8])
        ensures
            final(self)@.len() == vstd::math::max(old(self)@.len() as int, pos + data@.len()),
            forall|i: int|
                pos <= i < pos + data@.len() ==> #[trigger] final(self)@[i] == data@[i - pos],
            forall|i: int|
                0 <= i < old(self)@.len() && !(pos <= i < pos + data@.len())
                    ==> #[trigger] final(self)@[i] == old(self)@[i],
            forall|i: int|
                old(self)@.len() <= i < pos ==> #[trigger] final(self)@[i] == 0,
    {
        while self.buf.len() < pos
            invariant
                self.buf@.len() >= old(self)@.len(),
                self.buf@.len() <= vstd::math::max(old(self)@.len() as int, pos as int),
                forall|i: int|
                    0 <= i < old(self)@.len() && i < self.buf@.len() ==> #[trigger] self.buf@[i]
                        == old(self)@[i],
                forall|i: int|
                    old(self)@.len() <= i < self.buf@.len() ==> #[trigger] self.buf@[i] == 0,
            decreases pos - self.buf@.len(),
        {
            self.buf.push(0);
        }
        let n = data.len();
        let mut j: usize = 0;
        // overwrite what the window shares with the current contents
        while pos < self.buf.len() - j && j < n
            invariant
                j <= n,
                n == data@.len(),
                self.buf@.len() == vstd::math::max(old(self)@.len() as int, pos as int),
                pos + j <= self.buf@.len(),
                forall|i: int|
                    pos <= i < pos + j ==> #[trigger] self.buf@[i] == data@[i - pos],
                forall|i: int|
                    0 <= i < old(self)@.len() && !(pos <= i < pos + n) && i < self.buf@.len()
                        ==> #[trigger] self.buf@[i] == old(self)@[i],
                forall|i: int|
                    old(self)@.len() <= i < pos ==> #[trigger] self.buf@[i] == 0,
            decreases n - j,
        {
            let q = pos + j;
            self.buf[q] = data[j];
            j += 1;
        }
        // append whatever extends past the end
        while j < n
            invariant
                j <= n,
                n == data@.len(),
                self.buf@.len() == vstd::math::max(
                    vstd::math::max(old(self)@.len() as int, pos as int),
                    pos + j,
                ),
                j < n ==> self.buf@.len() == pos + j,
                forall|i: int|
                    pos <= i < pos + j ==> #[trigger] self.buf@[i] == data@[i - pos],
                forall|i: int|
                    0 <= i < old(self)@.len() && !(pos <= i < pos + n) && i < self.buf@.len()
                        ==> #[trigger] self.buf@[i] == old(self)@[i],
                forall|i: int|
                    old(self)@.len() <= i < pos ==> #[trigger] self.buf@[i] == 0,
            decreases n - j,
        {
            self.buf.push(data[j]);
            j += 1;
        }
    }
}

/// One payload chunk on its way to the merger: where it goes in the
/// payload region, and its bytes.
pub struct Chunk {
    /// Offset within the payload region.
    pub offset: u64,
    /// The bytes read from the entry file.
    pub data: Vec<u8>,
}

/// A chunk that carries the right bytes for its place in the finished
/// file, counting from `base` (where the payload region starts).
pub open spec fn chunk_valid(c: &Chunk, base: int, file: Seq<u8>) -> bool {
    &&& base + c.offset + c.data@.len() <= file.len()
    &&& c.data@ == file.subrange(base + c.offset, base + c.offset + c.data@.len())
}

/// Some chunk of the list holds the byte at position `p`.
pub open spec fn chunk_covers(chunks: Seq<Chunk>, base: int, p: int) -> bool {
    exists|k: int|
        0 <= k < chunks.len() && base + (#[trigger] chunks[k]).offset <= p < base + chunks[
            k
        ].offset + chunks[k].data@.len()
}

/// Every position of `[lo, hi)` falls inside some chunk of the list.
pub open spec fn chunks_cover(chunks: Seq<Chunk>, base: int, lo: int, hi: int) -> bool {
    forall|p: int| lo <= p < hi ==> #[trigger] chunk_covers(chunks, base, p)
}

/// The merger: consumes chunks in whatever order they arrived and
/// writes each at its own offset. Because every chunk carries the bytes
/// of its place in the finished file and together they cover the whole
/// payload region, the output is the finished file — the arrival order
/// does not matter.
pub fn merge_chunks(
    out: &mut SeekWriter,
    base: usize,
    chunks: &Vec<Chunk>,
    Ghost(file): Ghost<Seq<u8>>,
)
    requires
        old(out)@.len() == base,
        base <= file.len() <= usize::MAX,
        old(out)@ == file.subrange(0, base as int),
        forall|k: int| 0 <= k < chunks@.len() ==> chunk_valid(&chunks@[k], base as int, file),
        chunks_cover(chunks@, base as int, base as int, file.len() as int),
    ensures
        final(out)@ == file,
{
    let n = chunks.len();
    let mut k: usize = 0;
    while k < n
        invariant
            k <= n,
            n == chunks@.len(),
            base <= file.len() <= usize::MAX,
            forall|j: int| 0 <= j < n ==> chunk_valid(&chunks@[j], base as int, file),
            base <= out@.len() <= file.len(),
            forall|i: int| 0 <= i < base ==> #[trigger] out@[i] == file[i],
            forall|i: int| base <= i < out@.len() ==> #[trigger] out@[i] == file[i] || out@[i]
                == 0,
            forall|j: int|
                0 <= j < k ==> base + (#[trigger] chunks@[j]).offset + chunks@[j].data@.len()
                    <= out@.len(),
            forall|j: int, i: int|
                #![trigger chunks@[j], file[i]]
                0 <= j < k && base + chunks@[j].offset <= i < base + chunks@[
                    j
                ].offset + chunks@[j].data@.len() ==> out@[i] == file[i],
        decreases n - k,
    {
        let c = &chunks[k];
        let off = c.offset as usize;
        proof {
            assert(chunk_valid(&chunks@[k as int], base as int, file));
        }
        out.write_at(base + off, c.data.as_slice());
        proof {
            assert forall|i: int| base <= i < out@.len() implies #[trigger] out@[i] == file[i]
                || out@[i] == 0 by {
                if base + off <= i < base + off + chunks@[k as int].data@.len() {
                    assert(out@[i] == chunks@[k as int].data@[i - (base + off)]);
                    assert(file[i] == chunks@[k as int].data@[i - (base + off)]);
                }
            }
            assert forall|j: int, i: int|
                #![trigger chunks@[j], file[i]]
                0 <= j < k + 1 && base + chunks@[j].offset <= i < base + chunks@[
                    j
                ].offset + chunks@[j].data@.len() implies out@[i] == file[i] by {
                if base + off <= i < base + off + chunks@[k as int].data@.len() {
                    assert(out@[i] == chunks@[k as int].data@[i - (base + off)]);
                } else {
                    assert(i < out@.len());
                }
            }
        }
        k += 1;
    }
    proof {
        assert(out@.len() == file.len()) by {
            if out@.len() < file.len() {
                let p = out@.len() as int;
                assert(base <= p < file.len());
                assert(chunk_covers(chunks@, base as int, p));
                let j = choose|j: int|
                    0 <= j < chunks@.len() && base + (#[trigger] chunks@[j]).offset <= p < base
                        + chunks@[j].offset + chunks@[j].data@.len();
                assert(base + chunks@[j].offset + chunks@[j].data@.len() <= out@.len());
            }
        }
        assert forall|i: int| base <= i < file.len() implies #[trigger] out@[i] == file[i] by {
            assert(chunk_covers(chunks@, base as int, i));
            let j = choose|j: int|
                0 <= j < chunks@.len() && base + (#[trigger] chunks@[j]).offset <= i < base
                    + chunks@[j].offset + chunks@[j].data@.len();
        }
        assert(out@ =~= file);
    }
}

} // verus!
