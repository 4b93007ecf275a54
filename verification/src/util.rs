//! In-memory byte stream utilities: an append-only writer used to build
//! archive bytes, and a cursor reader over a byte slice, with
//! NUL-terminated string framing and little-endian integer access.

use crate::error::GmaError;
use vstd::bytes::*;
use vstd::prelude::*;
use vstd::slice::{slice_subrange, slice_to_vec};
use vstd::string::StringExecFns;

verus! {

/// Ask the command line front end to print usage, with an optional message.
pub struct PrintHelp(pub Option<&'static str>);

/// A NUL-terminated string frame: the bytes followed by one zero byte.
pub open spec fn spec_nul_str(b: Seq<u8>) -> Seq<u8> {
    b + seq![0u8]
}

/// The eight little-endian bytes of a signed 64-bit value, in two's
/// complement.
pub open spec fn spec_i64_to_le_bytes(v: i64) -> Seq<u8> {
    spec_u64_to_le_bytes(v as u64)
}

/// The signed 64-bit value read from eight little-endian bytes.
pub open spec fn spec_i64_from_le_bytes(s: Seq<u8>) -> i64 {
    spec_u64_from_le_bytes(s) as i64
}

/// The index of the first zero byte at or after `from`, if any.
pub open spec fn spec_find_nul_from(b: Seq<u8>, from: int) -> Option<int>
    decreases b.len() - from,
{
    if from < 0 || from >= b.len() {
        None
    } else if b[from] == 0 {
        Some(from)
    } else {
        spec_find_nul_from(b, from + 1)
    }
}

/// What one NUL-terminated string read takes from the front of a byte
/// string: the bytes before the first zero, and everything after it.
pub open spec fn spec_take_nul_str(b: Seq<u8>) -> Option<(Seq<u8>, Seq<u8>)> {
    match spec_find_nul_from(b, 0) {
        Some(i) => Some((b.subrange(0, i), b.skip(i + 1))),
        None => None,
    }
}

/// A scan that stopped at a zero byte pins down `spec_find_nul_from`.
pub proof fn lemma_find_nul_found(b: Seq<u8>, from: int, i: int)
    requires
        0 <= from <= i < b.len(),
        b[i] == 0,
        forall|j: int| from <= j < i ==> b[j] != 0,
    ensures
        spec_find_nul_from(b, from) == Some(i),
    decreases i - from,
{
    if from < i {
        lemma_find_nul_found(b, from + 1, i);
    }
}

/// A found zero byte lies within bounds.
pub proof fn lemma_find_nul_bounds(b: Seq<u8>, from: int)
    requires
        0 <= from,
    ensures
        spec_find_nul_from(b, from) matches Some(i) ==> from <= i < b.len() && b[i] == 0,
    decreases b.len() - from,
{
    if from < b.len() && b[from] != 0 {
        lemma_find_nul_bounds(b, from + 1);
    }
}

/// A scan that found no zero byte pins down `spec_find_nul_from`.
pub proof fn lemma_find_nul_missing(b: Seq<u8>, from: int)
    requires
        0 <= from,
        forall|j: int| from <= j < b.len() ==> b[j] != 0,
    ensures
        spec_find_nul_from(b, from) is None,
    decreases b.len() - from,
{
    if from < b.len() {
        lemma_find_nul_missing(b, from + 1);
    }
}

/// A fresh vector holding the same bytes.
pub fn copy_bytes(v: &Vec<u8>) -> (r: Vec<u8>)
    ensures
        r@ == v@,
{
    slice_to_vec(v.as_slice())
}

/// Whether two byte strings hold the same bytes.
pub fn bytes_eq(a: &[u8], b: &[u8]) -> (r: bool)
    ensures
        r == (a@ == b@),
{
    if a.len() != b.len() {
        return false;
    }
    let n = a.len();
    let mut i: usize = 0;
    while i < n
        invariant
            i <= n,
            n == a@.len(),
            n == b@.len(),
            forall|j: int| 0 <= j < i ==> a@[j] == b@[j],
        decreases n - i,
    {
        if a[i] != b[i] {
            return false;
        }
        i += 1;
    }
    proof {
        assert(a@ =~= b@);
    }
    true
}

/// An append-only byte sink holding the archive bytes built so far.
pub struct ByteWriter {
    buf: Vec<u8>,
}

impl View for ByteWriter {
    type V = Seq<u8>;

    closed spec fn view(&self) -> Seq<u8> {
        self.buf@
    }
}

/// A sink that can frame NUL-terminated strings.
pub trait WriteEx: View<V = Seq<u8>> {
    /// Emits the bytes followed by one zero byte. Does not check for
    /// embedded zeros; the caller is responsible for excluding them.
    fn write_nul_str(&mut self, bytes: &[u8])
        ensures
            final(self)@ == old(self)@ + spec_nul_str(bytes@),
    ;
}

impl ByteWriter {
    /// An empty sink.
    pub fn new() -> (w: ByteWriter)
        ensures
            w@ == Seq::<u8>::empty(),
    {
        let w = ByteWriter { buf: Vec::new() };
        proof {
            assert(w@ =~= Seq::<u8>::empty());
        }
        w
    }

    /// Appends all the bytes of a slice.
    pub fn write_all(&mut self, bytes: &[u8])
        ensures
            final(self)@ == old(self)@ + bytes@,
    {
        let n = bytes.len();
        let mut i: usize = 0;
        while i < n
            invariant
                i <= n,
                n == bytes@.len(),
                self.buf@ == old(self).buf@ + bytes@.subrange(0, i as int),
            decreases n - i,
        {
            self.buf.push(bytes[i]);
            proof {
                assert(old(self).buf@ + bytes@.subrange(0, i + 1) =~= (old(self).buf@
                    + bytes@.subrange(0, i as int)).push(bytes@[i as int]));
            }
            i += 1;
        }
        proof {
            assert(bytes@.subrange(0, bytes@.len() as int) =~= bytes@);
        }
    }

    /// Appends one byte.
    pub fn write_u8(&mut self, b: u8)
        ensures
            final(self)@ == old(self)@ + seq![b],
    {
        self.buf.push(b);
        proof {
            assert(old(self).buf@ + seq![b] =~= old(self).buf@.push(b));
        }
    }

    /// Appends an unsigned 32-bit value, little endian.
    pub fn write_u32_le(&mut self, v: u32)
        ensures
            final(self)@ == old(self)@ + spec_u32_to_le_bytes(v),
    {
        let bytes = u32_to_le_bytes(v);
        self.write_all(bytes.as_slice());
    }

    /// Appends an unsigned 64-bit value, little endian.
    pub fn write_u64_le(&mut self, v: u64)
        ensures
            final(self)@ == old(self)@ + spec_u64_to_le_bytes(v),
    {
        let bytes = u64_to_le_bytes(v);
        self.write_all(bytes.as_slice());
    }

    /// Appends a signed 64-bit value, little endian, two's complement.
    pub fn write_i64_le(&mut self, v: i64)
        ensures
            final(self)@ == old(self)@ + spec_i64_to_le_bytes(v),
    {
        let bytes = u64_to_le_bytes(v as u64);
        self.write_all(bytes.as_slice());
    }

    /// Hands the built bytes out.
    pub fn into_vec(self) -> (v: Vec<u8>)
        ensures
            v@ == self@,
    {
        self.buf
    }
}

impl WriteEx for ByteWriter {
    fn write_nul_str(&mut self, bytes: &[u8])
        ensures
            final(self)@ == old(self)@ + spec_nul_str(bytes@),
    {
        self.write_all(bytes);
        self.write_u8(0);
        proof {
            assert(old(self)@ + spec_nul_str(bytes@) =~= old(self)@ + bytes@ + seq![0u8]);
        }
    }
}

/// A cursor over a borrowed byte slice. Its view is the bytes not yet
/// consumed.
pub struct ByteReader<'a> {
    /// The whole input.
    pub data: &'a [u8],
    /// How many bytes have been consumed.
    pub pos: usize,
}

impl<'a> View for ByteReader<'a> {
    type V = Seq<u8>;

    open spec fn view(&self) -> Seq<u8> {
        if self.pos <= self.data@.len() {
            self.data@.skip(self.pos as int)
        } else {
            Seq::empty()
        }
    }
}

/// A source that can discard bytes ahead of the cursor without reading
/// them into a buffer.
pub trait IoSkip: View<V = Seq<u8>> {
    /// Jumps forward by `bytes`, failing without moving if fewer remain.
    fn skip(&mut self, bytes: u64) -> (r: Result<(), GmaError>)
        ensures
            (r is Ok) == (bytes <= old(self)@.len()),
            r is Ok ==> final(self)@ == old(self)@.skip(bytes as int),
            r is Err ==> final(self)@ == old(self)@ && r->Err_0 is UnexpectedEof,
    ;
}

impl<'a> ByteReader<'a> {
    /// The cursor has not run past the end.
    pub open spec fn wf(&self) -> bool {
        self.pos <= self.data@.len()
    }

    /// A cursor at the start of the input.
    pub fn new(data: &'a [u8]) -> (r: ByteReader<'a>)
        ensures
            r@ == data@,
            r.data@ == data@,
            r.pos == 0,
            r.wf(),
    {
        let r = ByteReader { data, pos: 0 };
        proof {
            assert(r@ =~= data@);
        }
        r
    }

    /// How many bytes remain.
    pub fn remaining(&self) -> (n: usize)
        requires
            self.wf(),
        ensures
            n == self@.len(),
    {
        self.data.len() - self.pos
    }

    /// Reads one byte.
    pub fn read_u8(&mut self, context: &str) -> (r: Result<u8, GmaError>)
        requires
            old(self).wf(),
        ensures
            final(self).wf(),
            (r is Ok) == (old(self)@.len() >= 1),
            final(self).data@ == old(self).data@,
            r is Ok ==> r->Ok_0 == old(self)@[0] && final(self)@ == old(self)@.drop_first(),
            r is Err ==> final(self)@ == old(self)@ && r->Err_0 is UnexpectedEof,
    {
        if self.pos < self.data.len() {
            let b = self.data[self.pos];
            self.pos = self.pos + 1;
            proof {
                assert(self@ =~= old(self)@.drop_first());
            }
            Ok(b)
        } else {
            Err(GmaError::UnexpectedEof { context: String::from_str(context) })
        }
    }

    /// Reads exactly `n` bytes into a fresh vector.
    pub fn read_exact_vec(&mut self, n: usize, context: &str) -> (r: Result<Vec<u8>, GmaError>)
        requires
            old(self).wf(),
        ensures
            final(self).wf(),
            (r is Ok) == (n <= old(self)@.len()),
            final(self).data@ == old(self).data@,
            r is Ok ==> r->Ok_0@ == old(self)@.subrange(0, n as int) && final(self)@ == old(self)@.skip(n as int),
            r is Err ==> final(self)@ == old(self)@ && r->Err_0 is UnexpectedEof,
    {
        if n <= self.data.len() - self.pos {
            let piece = slice_subrange(self.data, self.pos, self.pos + n);
            let v = slice_to_vec(piece);
            self.pos = self.pos + n;
            proof {
                assert(v@ =~= old(self)@.subrange(0, n as int));
                assert(self@ =~= old(self)@.skip(n as int));
            }
            Ok(v)
        } else {
            Err(GmaError::UnexpectedEof { context: String::from_str(context) })
        }
    }

    /// Reads an unsigned 32-bit value, little endian.
    pub fn read_u32_le(&mut self, context: &str) -> (r: Result<u32, GmaError>)
        requires
            old(self).wf(),
        ensures
            final(self).wf(),
            (r is Ok) == (old(self)@.len() >= 4),
            final(self).data@ == old(self).data@,
            r is Ok ==> r->Ok_0 == spec_u32_from_le_bytes(old(self)@.subrange(0, 4)) && final(self)@ == old(self)@.skip(4),
            r is Err ==> final(self)@ == old(self)@ && r->Err_0 is UnexpectedEof,
    {
        let v = self.read_exact_vec(4, context)?;
        Ok(u32_from_le_bytes(v.as_slice()))
    }

    /// Reads a signed 64-bit value, little endian, two's complement.
    pub fn read_i64_le(&mut self, context: &str) -> (r: Result<i64, GmaError>)
        requires
            old(self).wf(),
        ensures
            final(self).wf(),
            (r is Ok) == (old(self)@.len() >= 8),
            final(self).data@ == old(self).data@,
            r is Ok ==> r->Ok_0 == spec_i64_from_le_bytes(old(self)@.subrange(0, 8)) && final(self)@ == old(self)@.skip(8),
            r is Err ==> final(self)@ == old(self)@ && r->Err_0 is UnexpectedEof,
    {
        let v = self.read_exact_vec(8, context)?;
        Ok(u64_from_le_bytes(v.as_slice()) as i64)
    }

    /// Reads up to and including the next zero byte, returning the bytes
    /// before it. Fails without moving if the input ends first.
    pub fn read_nul_str(&mut self, context: &str) -> (r: Result<Vec<u8>, GmaError>)
        requires
            old(self).wf(),
        ensures
            final(self).wf(),
            (r is Ok) == (spec_take_nul_str(old(self)@) is Some),
            final(self).data@ == old(self).data@,
            r is Ok ==> {
                let (s, rest) = spec_take_nul_str(old(self)@)->Some_0;
                r->Ok_0@ == s && final(self)@ == rest
            },
            r is Err ==> final(self)@ == old(self)@ && r->Err_0 is UnexpectedEof,
    {
        let ghost view = self@;
        let mut k: usize = self.pos;
        let end = self.data.len();
        while k < end && self.data[k] != 0
            invariant
                self.pos <= k <= end,
                end == self.data@.len(),
                self.wf(),
                view == self@,
                forall|j: int| self.pos <= j < k ==> self.data@[j] != 0,
            decreases end - k,
        {
            k += 1;
        }
        if k == end {
            proof {
                assert forall|j: int| 0 <= j < view.len() implies view[j] != 0 by {
                    assert(view[j] == self.data@[self.pos + j]);
                }
                lemma_find_nul_missing(view, 0);
            }
            return Err(GmaError::UnexpectedEof { context: String::from_str(context) });
        }
        proof {
            let i = k - self.pos;
            assert(view[i] == self.data@[k as int]);
            assert forall|j: int| 0 <= j < i implies view[j] != 0 by {
                assert(view[j] == self.data@[self.pos + j]);
            }
            lemma_find_nul_found(view, 0, i);
        }
        let piece = slice_subrange(self.data, self.pos, k);
        let v = slice_to_vec(piece);
        let ghost old_pos = self.pos;
        self.pos = k + 1;
        proof {
            let i = k - old_pos;
            assert(v@ =~= view.subrange(0, i));
            assert(self@ =~= view.skip(i + 1));
        }
        Ok(v)
    }

    /// Reads up to and including the next zero byte and discards it.
    pub fn skip_nul_str(&mut self, context: &str) -> (r: Result<(), GmaError>)
        requires
            old(self).wf(),
        ensures
            final(self).wf(),
            (r is Ok) == (spec_take_nul_str(old(self)@) is Some),
            final(self).data@ == old(self).data@,
            r is Ok ==> final(self)@ == spec_take_nul_str(old(self)@)->Some_0.1,
            r is Err ==> final(self)@ == old(self)@ && r->Err_0 is UnexpectedEof,
    {
        let _ = self.read_nul_str(context)?;
        Ok(())
    }
}

impl<'a> IoSkip for ByteReader<'a> {
    fn skip(&mut self, bytes: u64) -> (r: Result<(), GmaError>)
        ensures
            (r is Ok) == (bytes <= old(self)@.len()),
            r is Ok ==> final(self)@ == old(self)@.skip(bytes as int),
            r is Err ==> final(self)@ == old(self)@ && r->Err_0 is UnexpectedEof,
            final(self).data@ == old(self).data@,
            old(self).wf() ==> final(self).wf(),
    {
        if bytes == 0 {
            proof {
                assert(self@.skip(0) =~= self@);
            }
            return Ok(());
        }
        if self.pos <= self.data.len() && bytes <= (self.data.len() - self.pos) as u64 {
            self.pos = self.pos + bytes as usize;
            proof {
                assert(self@ =~= old(self)@.skip(bytes as int));
            }
            Ok(())
        } else {
            Err(
                GmaError::UnexpectedEof {
                    context: String::from_str("skipping past entry data"),
                },
            )
        }
    }
}

} // verus!
