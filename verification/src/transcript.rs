//! The record of the bytes exchanged during a handshake, in the order of
//! the exchange.

use crate::msgs::encoding::WriteError;
use vstd::prelude::*;

verus! {

/// The most bytes that a transcript holds.
pub const TRANSCRIPT_SIZE: usize = 1024;

/// A bounded, append-only log of bytes.
pub struct Transcript {
    buf: [u8; TRANSCRIPT_SIZE],
    offset: usize,
}

impl View for Transcript {
    type V = Seq<u8>;

    /// The bytes recorded so far.
    closed spec fn view(&self) -> Seq<u8> {
        self.buf@.take(self.offset as int)
    }
}

/// The error of an append that does not fit.
pub open spec fn transcript_full() -> WriteError {
    WriteError { msg: "TRANSCRIPT", buf_size: TRANSCRIPT_SIZE }
}

impl Transcript {
    /// The write offset never passes the capacity.
    pub closed spec fn wf(&self) -> bool {
        self.offset <= TRANSCRIPT_SIZE
    }

    /// A well-formed transcript holds no more than its capacity.
    pub proof fn lemma_bounded(&self)
        requires
            self.wf(),
        ensures
            self@.len() <= TRANSCRIPT_SIZE,
    {
    }

    pub fn new() -> (t: Transcript)
        ensures
            t.wf(),
            t@ == Seq::<u8>::empty(),
    {
        let t = Transcript { buf: [0u8; TRANSCRIPT_SIZE], offset: 0 };
        assert(t@ =~= Seq::<u8>::empty());
        t
    }

    /// Appends `bytes` as they are. When they do not all fit, nothing is
    /// appended and the error is returned.
    pub fn extend(&mut self, bytes: &[u8]) -> (r: Result<(), WriteError>)
        requires
            old(self).wf(),
        ensures
            final(self).wf(),
            old(self)@.len() + bytes@.len() <= TRANSCRIPT_SIZE ==> r == Ok::<(), WriteError>(())
                && final(self)@ == old(self)@ + bytes@,
            old(self)@.len() + bytes@.len() > TRANSCRIPT_SIZE ==> r == Err::<(), WriteError>(
                transcript_full(),
            ) && final(self)@ == old(self)@,
    {
        if bytes.len() > TRANSCRIPT_SIZE - self.offset {
            return Err(WriteError::new("TRANSCRIPT", TRANSCRIPT_SIZE));
        }
        let start: usize = self.offset;
        let mut i: usize = 0;
        assert(self.buf@.take(start as int) + bytes@.take(0) =~= old(self)@);
        while i < bytes.len()
            invariant
                i <= bytes@.len(),
                start == old(self).offset,
                start + bytes@.len() <= TRANSCRIPT_SIZE,
                self.offset == start,
                self.buf@.take(start + i) == old(self)@ + bytes@.take(i as int),
            decreases bytes@.len() - i,
        {
            let ghost before = self.buf@;
            self.buf[start + i] = bytes[i];
            assert(self.buf@.take(start + i + 1) =~= before.take(start + i) + seq![bytes@[i as int]]);
            assert(bytes@.take(i + 1) =~= bytes@.take(i as int) + seq![bytes@[i as int]]);
            i += 1;
        }
        assert(bytes@.take(i as int) =~= bytes@);
        self.offset = start + i;
        Ok(())
    }

    /// Forgets all that was recorded.
    pub fn clear(&mut self)
        ensures
            final(self).wf(),
            final(self)@ == Seq::<u8>::empty(),
    {
        self.offset = 0;
        assert(self@ =~= Seq::<u8>::empty());
    }

    /// The bytes recorded so far.
    pub fn get(&self) -> (r: &[u8])
        requires
            self.wf(),
        ensures
            r@ == self@,
    {
        let all = self.buf.as_slice();
        let r = &all[0..self.offset];
        assert(r@ =~= self@);
        r
    }

    /// The number of bytes recorded so far.
    pub fn len(&self) -> (n: usize)
        requires
            self.wf(),
        ensures
            n == self@.len(),
    {
        self.offset
    }

    /// The number of bytes that can still be appended.
    pub fn remaining(&self) -> (n: usize)
        requires
            self.wf(),
        ensures
            n == TRANSCRIPT_SIZE - self@.len(),
    {
        TRANSCRIPT_SIZE - self.offset
    }
}

} // verus!
