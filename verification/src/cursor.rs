//! Sequential reads and writes of big-endian fields over a byte buffer.

use crate::endian::{
    be_bytes, be_value, load_u16, load_u32, load_u64, store_u16, store_u32, store_u64,
};
use crate::error::SolError;
use vstd::prelude::*;
use vstd::slice::slice_subrange;

verus! {

/// A read position in a borrowed run of bytes.
pub struct Reader<'a> {
    data: &'a [u8],
    pos: usize,
}

/// What a successful read of `n` bytes does to a reader: the position moves
/// on by `n` and stays inside the source, which is untouched.
pub open spec fn advanced(pre: Reader, post: Reader, n: nat) -> bool {
    &&& post.source() == pre.source()
    &&& post.position() == pre.position() + n
    &&& post.position() <= post.source().len()
}

/// What any use of a reader keeps: the source is untouched, and the
/// position does not move back.
pub open spec fn kept(pre: Reader, post: Reader) -> bool {
    &&& post.source() == pre.source()
    &&& pre.position() <= post.position()
}

impl<'a> Reader<'a> {
    #[verifier::type_invariant]
    spec fn in_bounds(self) -> bool {
        self.pos <= self.data@.len()
    }

    /// All the bytes that this reader was made over.
    pub closed spec fn source(self) -> Seq<u8> {
        self.data@
    }

    /// How many bytes of the source have been read.
    pub closed spec fn position(self) -> nat {
        self.pos as nat
    }

    /// The bytes that have not been read yet.
    pub open spec fn unread(self) -> Seq<u8> {
        self.source().skip(self.position() as int)
    }

    /// A reader at the start of `data`.
    pub fn new(data: &'a [u8]) -> (reader: Self)
        ensures
            reader.source() == data@,
            reader.position() == 0,
    {
        Reader { data, pos: 0 }
    }

    /// The number of bytes read so far.
    pub fn offset(&self) -> (pos: usize)
        ensures
            pos == self.position(),
            pos <= self.source().len(),
    {
        proof {
            use_type_invariant(self);
        }
        self.pos
    }

    /// The number of bytes left to read.
    pub fn remaining(&self) -> (n: usize)
        ensures
            n == self.unread().len(),
            n + self.position() == self.source().len(),
    {
        proof {
            use_type_invariant(self);
        }
        self.data.len() - self.pos
    }

    /// The bytes left to read, without reading them.
    pub fn rest(&self) -> (bytes: &'a [u8])
        ensures
            bytes@ == self.unread(),
    {
        proof {
            use_type_invariant(self);
        }
        let bytes = slice_subrange(self.data, self.pos, self.data.len());
        assert(bytes@ =~= self.unread());
        bytes
    }

    /// Moves to an absolute position, which must lie inside the source or
    /// at its end.
    pub fn seek(&mut self, pos: usize) -> (res: Result<(), SolError>)
        ensures
            final(self).source() == old(self).source(),
            final(self).position() <= final(self).source().len(),
            match res {
                Ok(()) => pos <= old(self).source().len() && final(self).position() == pos,
                Err(e) => e == SolError::UnexpectedEof && pos > old(self).source().len()
                    && final(self).position() == old(self).position(),
            },
    {
        proof {
            use_type_invariant(&*self);
        }
        if pos <= self.data.len() {
            self.pos = pos;
            Ok(())
        } else {
            Err(SolError::UnexpectedEof)
        }
    }

    /// Takes the next `n` bytes, or fails without moving when fewer are left.
    pub fn read_bytes(&mut self, n: usize) -> (res: Result<&'a [u8], SolError>)
        ensures
            match res {
                Ok(bytes) => n <= old(self).unread().len() && bytes@ == old(self).unread().take(
                    n as int,
                ) && advanced(*old(self), *final(self), n as nat),
                Err(e) => e == SolError::UnexpectedEof && n > old(self).unread().len()
                    && advanced(*old(self), *final(self), 0),
            },
    {
        proof {
            use_type_invariant(&*self);
        }
        if n <= self.data.len() - self.pos {
            let bytes = slice_subrange(self.data, self.pos, self.pos + n);
            assert(bytes@ =~= self.unread().take(n as int));
            self.pos = self.pos + n;
            Ok(bytes)
        } else {
            Err(SolError::UnexpectedEof)
        }
    }

    /// Reads one byte.
    pub fn read_u8(&mut self) -> (res: Result<u8, SolError>)
        ensures
            match res {
                Ok(b) => 1 <= old(self).unread().len() && b == old(self).unread()[0] && advanced(
                    *old(self),
                    *final(self),
                    1,
                ),
                Err(e) => e == SolError::UnexpectedEof && old(self).unread().len() < 1 && advanced(
                    *old(self),
                    *final(self),
                    0,
                ),
            },
    {
        match self.read_bytes(1) {
            Ok(bytes) => Ok(bytes[0]),
            Err(e) => Err(e),
        }
    }

    /// Reads a 16-bit number, most significant byte first.
    pub fn read_u16(&mut self) -> (res: Result<u16, SolError>)
        ensures
            match res {
                Ok(n) => 2 <= old(self).unread().len() && n == be_value(
                    old(self).unread().take(2),
                ) && advanced(*old(self), *final(self), 2),
                Err(e) => e == SolError::UnexpectedEof && old(self).unread().len() < 2 && advanced(
                    *old(self),
                    *final(self),
                    0,
                ),
            },
    {
        match self.read_bytes(2) {
            Ok(bytes) => {
                assert(bytes@.subrange(0, 2) =~= bytes@);
                Ok(load_u16(bytes))
            },
            Err(e) => Err(e),
        }
    }

    /// Reads a 32-bit number, most significant byte first.
    pub fn read_u32(&mut self) -> (res: Result<u32, SolError>)
        ensures
            match res {
                Ok(n) => 4 <= old(self).unread().len() && n == be_value(
                    old(self).unread().take(4),
                ) && advanced(*old(self), *final(self), 4),
                Err(e) => e == SolError::UnexpectedEof && old(self).unread().len() < 4 && advanced(
                    *old(self),
                    *final(self),
                    0,
                ),
            },
    {
        match self.read_bytes(4) {
            Ok(bytes) => {
                assert(bytes@.subrange(0, 4) =~= bytes@);
                Ok(load_u32(bytes))
            },
            Err(e) => Err(e),
        }
    }

    /// Reads a 64-bit number, most significant byte first.  A double is
    /// read so, as the bits of its IEEE-754 pattern.
    pub fn read_u64(&mut self) -> (res: Result<u64, SolError>)
        ensures
            match res {
                Ok(n) => 8 <= old(self).unread().len() && n == be_value(
                    old(self).unread().take(8),
                ) && advanced(*old(self), *final(self), 8),
                Err(e) => e == SolError::UnexpectedEof && old(self).unread().len() < 8 && advanced(
                    *old(self),
                    *final(self),
                    0,
                ),
            },
    {
        match self.read_bytes(8) {
            Ok(bytes) => {
                assert(bytes@.subrange(0, 8) =~= bytes@);
                Ok(load_u64(bytes))
            },
            Err(e) => Err(e),
        }
    }
}

/// `bytes` with `patch` laid over it from index `at` on: what was there is
/// replaced, and the sequence grows where the patch reaches past its end.
pub open spec fn overlay(bytes: Seq<u8>, at: nat, patch: Seq<u8>) -> Seq<u8>
    recommends
        at <= bytes.len(),
{
    bytes.take(at as int) + patch + if at + patch.len() < bytes.len() {
        bytes.skip((at + patch.len()) as int)
    } else {
        Seq::empty()
    }
}

/// Laying a second patch where the first one ended is laying both at once.
pub proof fn lemma_overlay_then(bytes: Seq<u8>, at: nat, first: Seq<u8>, second: Seq<u8>)
    requires
        at <= bytes.len(),
    ensures
        overlay(overlay(bytes, at, first), at + first.len(), second) == overlay(
            bytes,
            at,
            first + second,
        ),
{
    assert(overlay(overlay(bytes, at, first), at + first.len(), second) =~= overlay(
        bytes,
        at,
        first + second,
    ));
}

/// Laying a patch inside an earlier one changes that part of the earlier
/// patch and nothing else.
pub proof fn lemma_overlay_within(
    bytes: Seq<u8>,
    at: nat,
    outer: Seq<u8>,
    inset: nat,
    inner: Seq<u8>,
)
    requires
        at <= bytes.len(),
        inset + inner.len() <= outer.len(),
    ensures
        overlay(overlay(bytes, at, outer), at + inset, inner) == overlay(
            bytes,
            at,
            outer.take(inset as int) + inner + outer.skip((inset + inner.len()) as int),
        ),
{
    assert(overlay(overlay(bytes, at, outer), at + inset, inner) =~= overlay(
        bytes,
        at,
        outer.take(inset as int) + inner + outer.skip((inset + inner.len()) as int),
    ));
}

/// A growable byte buffer with a write position, which can be moved back to
/// overwrite what was written before.
pub struct Writer {
    buf: Vec<u8>,
    pos: usize,
}

/// What a write of `patch` does to a writer: the bytes are laid over the
/// buffer at the position, which moves to their end.
pub open spec fn wrote(pre: Writer, post: Writer, patch: Seq<u8>) -> bool {
    &&& post.bytes() == overlay(pre.bytes(), pre.position(), patch)
    &&& post.position() == pre.position() + patch.len()
    &&& pre.position() <= pre.bytes().len()
}

/// Two writes, one behind the other, are one write of both runs of bytes.
pub proof fn lemma_wrote_then(pre: Writer, mid: Writer, post: Writer, first: Seq<u8>, second: Seq<u8>)
    requires
        wrote(pre, mid, first),
        wrote(mid, post, second),
    ensures
        wrote(pre, post, first + second),
{
    lemma_overlay_then(pre.bytes(), pre.position(), first, second);
}

impl Writer {
    #[verifier::type_invariant]
    spec fn in_bounds(self) -> bool {
        self.pos <= self.buf@.len()
    }

    /// Everything in the buffer.
    pub closed spec fn bytes(self) -> Seq<u8> {
        self.buf@
    }

    /// Where the next write goes.
    pub closed spec fn position(self) -> nat {
        self.pos as nat
    }

    /// An empty buffer.
    pub fn new() -> (writer: Self)
        ensures
            writer.bytes() == Seq::<u8>::empty(),
            writer.position() == 0,
    {
        Writer { buf: Vec::new(), pos: 0 }
    }

    /// The write position.
    pub fn offset(&self) -> (pos: usize)
        ensures
            pos == self.position(),
            pos <= self.bytes().len(),
    {
        proof {
            use_type_invariant(self);
        }
        self.pos
    }

    /// The number of bytes in the buffer.
    pub fn len(&self) -> (n: usize)
        ensures
            n == self.bytes().len(),
            self.position() <= n,
    {
        proof {
            use_type_invariant(self);
        }
        self.buf.len()
    }

    /// Moves the write position to a place inside the buffer or to its end.
    pub fn seek(&mut self, pos: usize) -> (res: Result<(), SolError>)
        ensures
            final(self).bytes() == old(self).bytes(),
            final(self).position() <= final(self).bytes().len(),
            match res {
                Ok(()) => pos <= old(self).bytes().len() && final(self).position() == pos,
                Err(e) => e == SolError::UnexpectedEof && pos > old(self).bytes().len()
                    && final(self).position() == old(self).position(),
            },
    {
        proof {
            use_type_invariant(&*self);
        }
        if pos <= self.buf.len() {
            self.pos = pos;
            Ok(())
        } else {
            Err(SolError::UnexpectedEof)
        }
    }

    /// Gives up the writer for its buffer.
    pub fn into_bytes(self) -> (bytes: Vec<u8>)
        ensures
            bytes@ == self.bytes(),
    {
        self.buf
    }

    /// Writes one byte at the position.
    pub fn write_u8(&mut self, b: u8)
        ensures
            wrote(*old(self), *final(self), seq![b]),
    {
        proof {
            use_type_invariant(&*self);
        }
        let at = self.pos;
        if at < self.buf.len() {
            self.buf[at] = b;
        } else {
            // The buffer leaves the writer while it grows, so that the
            // position never points past a buffer in an unknown state.
            let mut buf: Vec<u8> = Vec::new();
            self.pos = 0;
            core::mem::swap(&mut self.buf, &mut buf);
            buf.push(b);
            core::mem::swap(&mut self.buf, &mut buf);
        }
        assert(at < self.buf.len());
        self.pos = at + 1;
        assert(self.bytes() =~= overlay(old(self).bytes(), old(self).position(), seq![b]));
    }

    /// Writes a run of bytes at the position.
    pub fn write_all(&mut self, bytes: &[u8])
        ensures
            wrote(*old(self), *final(self), bytes@),
    {
        proof {
            use_type_invariant(&*self);
        }
        let mut i: usize = 0;
        assert(self.bytes() =~= overlay(old(self).bytes(), old(self).position(), bytes@.take(0)));
        while i < bytes.len()
            invariant
                i <= bytes.len(),
                old(self).position() <= old(self).bytes().len(),
                wrote(*old(self), *self, bytes@.take(i as int)),
            decreases bytes.len() - i,
        {
            self.write_u8(bytes[i]);
            proof {
                lemma_overlay_then(
                    old(self).bytes(),
                    old(self).position(),
                    bytes@.take(i as int),
                    seq![bytes@[i as int]],
                );
                assert(bytes@.take(i as int) + seq![bytes@[i as int]] =~= bytes@.take(i + 1));
            }
            i = i + 1;
        }
        assert(bytes@.take(i as int) =~= bytes@);
    }

    /// Writes a 16-bit number, most significant byte first.
    pub fn write_u16(&mut self, n: u16)
        ensures
            wrote(*old(self), *final(self), be_bytes(n as nat, 2)),
    {
        let bytes = store_u16(n);
        self.write_all(bytes.as_slice());
    }

    /// Writes a 32-bit number, most significant byte first.
    pub fn write_u32(&mut self, n: u32)
        ensures
            wrote(*old(self), *final(self), be_bytes(n as nat, 4)),
    {
        let bytes = store_u32(n);
        self.write_all(bytes.as_slice());
    }

    /// Writes a 64-bit number, most significant byte first.  A double is
    /// written so, as the bits of its IEEE-754 pattern.
    pub fn write_u64(&mut self, n: u64)
        ensures
            wrote(*old(self), *final(self), be_bytes(n as nat, 8)),
    {
        let bytes = store_u64(n);
        self.write_all(bytes.as_slice());
    }
}

} // verus!
