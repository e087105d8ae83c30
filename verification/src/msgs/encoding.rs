//! Cursors over caller-owned buffers: an append-only `Writer` and a `Reader`
//! that hands out whole bytes or windows of up to seven bits.

use vstd::arithmetic::power2::lemma2_to64;
use vstd::arithmetic::power2::lemma_pow2_unfold;
use vstd::arithmetic::power2::pow2;
use vstd::prelude::*;

verus! {

/// A write ran out of room: the message being written and the size of the
/// buffer that was too small for it.
#[derive(Debug, Clone, Copy, PartialEq, Eq)]
pub struct WriteError {
    pub msg: &'static str,
    pub buf_size: usize,
}

impl WriteError {
    pub fn new(msg: &'static str, buf_size: usize) -> (e: WriteError)
        ensures
            e == (WriteError { msg, buf_size }),
    {
        WriteError { msg, buf_size }
    }
}

/// The buffer `buf` after the bytes of `s` were laid over it from index
/// `off` on; what does not fit is cut off.
pub open spec fn written(buf: Seq<u8>, off: int, s: Seq<u8>) -> Seq<u8> {
    Seq::new(buf.len(), |i: int| if off <= i < off + s.len() { s[i - off] } else { buf[i] })
}

/// What a `Writer` is to its contracts: the message it writes, the whole
/// buffer under it and the number of bytes written so far.
pub struct WriterState {
    pub msg: &'static str,
    pub buf: Seq<u8>,
    pub offset: int,
}

/// What a write of `s` leaves behind and returns: the bytes land at the old
/// offset and the new offset is returned, or the buffer is filled to its end
/// and the error names the message and the buffer's size.
pub open spec fn write_result(
    pre: WriterState,
    post: WriterState,
    s: Seq<u8>,
    r: Result<usize, WriteError>,
) -> bool {
    &&& 0 <= post.offset <= post.buf.len()
    &&& post.msg == pre.msg
    &&& post.buf == written(pre.buf, pre.offset, s)
    &&& if pre.offset + s.len() <= pre.buf.len() {
        &&& post.offset == pre.offset + s.len()
        &&& r == Ok::<usize, WriteError>(post.offset as usize)
    } else {
        &&& post.offset == pre.buf.len()
        &&& r == Err::<usize, WriteError>(
            WriteError { msg: pre.msg, buf_size: pre.buf.len() as usize },
        )
    }
}

/// A write that failed has also failed as the start of any longer write.
pub proof fn lemma_write_failed(
    pre: WriterState,
    post: WriterState,
    s1: Seq<u8>,
    s2: Seq<u8>,
    r: Result<usize, WriteError>,
)
    requires
        0 <= pre.offset <= pre.buf.len(),
        write_result(pre, post, s1, r),
        r is Err,
    ensures
        write_result(pre, post, s1 + s2, r),
{
    assert(written(pre.buf, pre.offset, s1) =~= written(pre.buf, pre.offset, s1 + s2));
}

/// Two writes in a row are one write of the two sequences joined.
pub proof fn lemma_write_then(
    pre: WriterState,
    mid: WriterState,
    post: WriterState,
    s1: Seq<u8>,
    s2: Seq<u8>,
    r1: Result<usize, WriteError>,
    r2: Result<usize, WriteError>,
)
    requires
        0 <= pre.offset <= pre.buf.len(),
        write_result(pre, mid, s1, r1),
        r1 is Ok,
        write_result(mid, post, s2, r2),
    ensures
        write_result(pre, post, s1 + s2, r2),
{
    assert(written(mid.buf, mid.offset, s2) =~= written(pre.buf, pre.offset, s1 + s2));
}

/// An append-only cursor over a caller-owned buffer. The fields are public
/// so that a contract can say what the caller's buffer holds once the writer
/// is gone; every method asks for `wf`.
pub struct Writer<'a> {
    pub msg: &'static str,
    pub buf: &'a mut [u8],
    pub offset: usize,
}

impl<'a> Writer<'a> {
    /// The cursor never leaves the buffer.
    pub open spec fn wf(&self) -> bool {
        self.offset <= self.buf@.len()
    }

    /// The whole buffer under the cursor, written part and unwritten.
    pub open spec fn bytes(&self) -> Seq<u8> {
        self.buf@
    }

    pub open spec fn state(&self) -> WriterState {
        WriterState { msg: self.msg, buf: self.buf@, offset: self.offset as int }
    }

    pub fn new(msg: &'static str, buf: &'a mut [u8]) -> (w: Writer<'a>)
        ensures
            w.wf(),
            w.msg == msg,
            w.offset == 0,
            w.buf@ == old(buf)@,
            final(w.buf)@ == final(buf)@,
    {
        Writer { msg, buf, offset: 0 }
    }

    /// Append a byte onto the buffer.
    ///
    /// Returns the amount of the buffer used, or an error if the buffer is
    /// full; a full buffer is left as it was.
    pub fn push(&mut self, value: u8) -> (r: Result<usize, WriteError>)
        requires
            old(self).wf(),
        ensures
            write_result(old(self).state(), final(self).state(), seq![value], r),
            final(final(self).buf)@ == final(old(self).buf)@,
            r is Ok <==> old(self).offset < old(self).buf@.len(),
            r is Ok ==> final(self).buf@ == old(self).buf@.update(old(self).offset as int, value),
            r is Err ==> final(self).buf@ == old(self).buf@,
    {
        if self.full() {
            assert(written(self.buf@, self.offset as int, seq![value]) =~= self.buf@);
            Err(WriteError::new(self.msg, self.buf.len()))
        } else {
            assert(written(self.buf@, self.offset as int, seq![value]) =~= self.buf@.update(
                self.offset as int,
                value,
            ));
            self.buf[self.offset] = value;
            self.offset += 1;
            Ok(self.offset)
        }
    }

    /// Appends the bytes of `bytes` one after the other and stops at the
    /// first that does not fit.
    pub fn extend(&mut self, bytes: &[u8]) -> (r: Result<usize, WriteError>)
        requires
            old(self).wf(),
        ensures
            write_result(old(self).state(), final(self).state(), bytes@, r),
            final(final(self).buf)@ == final(old(self).buf)@,
    {
        let ghost pre = self.state();
        let mut i: usize = 0;
        assert(written(pre.buf, pre.offset, bytes@.take(0)) =~= pre.buf);
        while i < bytes.len()
            invariant
                i <= bytes@.len(),
                self.wf(),
                pre == old(self).state(),
                0 <= pre.offset <= pre.buf.len(),
                write_result(pre, self.state(), bytes@.take(i as int), Ok::<usize, WriteError>(self.offset)),
                final(self.buf)@ == final(old(self).buf)@,
            decreases bytes@.len() - i,
        {
            let ghost mid = self.state();
            let r = self.push(bytes[i]);
            proof {
                assert(bytes@.take(i as int) + seq![bytes@[i as int]] =~= bytes@.take(i + 1));
                lemma_write_then(
                    pre,
                    mid,
                    self.state(),
                    bytes@.take(i as int),
                    seq![bytes@[i as int]],
                    Ok::<usize, WriteError>(mid.offset as usize),
                    r,
                );
            }
            if r.is_err() {
                proof {
                    assert(bytes@.take(i + 1) + bytes@.skip(i + 1) =~= bytes@);
                    lemma_write_failed(pre, self.state(), bytes@.take(i + 1), bytes@.skip(i + 1), r);
                }
                return r;
            }
            i += 1;
        }
        assert(bytes@.take(i as int) =~= bytes@);
        Ok(self.offset)
    }

    pub fn full(&self) -> (b: bool)
        requires
            self.wf(),
        ensures
            b == (self.offset == self.bytes().len()),
    {
        self.offset == self.buf.len()
    }

    pub fn offset(&self) -> (n: usize)
        ensures
            n == self.offset,
    {
        self.offset
    }
}

/// Why a read failed.
#[derive(Debug, Clone, Copy, PartialEq, Eq, Structural)]
pub enum ReadErrorKind {
    /// The message code matched but the protocol version did not.
    Header,
    /// The buffer ended before the read was complete.
    Empty,
    /// A reserved byte or bit was set.
    ReservedBytesNotZero,
    /// A list announced more entries than a message may carry.
    TooManyEntries,
    /// An attempt to read one or more bytes not on a byte boundary.
    Unaligned,
    /// An attempt to read more than 7 bits at once.
    TooManyBits,
}

/// A read failed: the message being read and the reason.
#[derive(Debug, Clone, Copy, PartialEq, Eq)]
pub struct ReadError {
    pub msg: &'static str,
    pub kind: ReadErrorKind,
}

impl ReadError {
    pub fn new(msg: &'static str, kind: ReadErrorKind) -> (e: ReadError)
        ensures
            e == (ReadError { msg, kind }),
    {
        ReadError { msg, kind }
    }
}

/// Bit `i` of the buffer, counting from the most significant bit of the
/// first byte.
pub open spec fn bit_at(buf: Seq<u8>, i: int) -> int {
    ((buf[i / 8] >> ((7 - i % 8) as u8)) & 1) as int
}

/// The number spelled by the `count` bits from bit `pos` on, the first of
/// them the most significant.
pub open spec fn bits_at(buf: Seq<u8>, pos: int, count: nat) -> int
    decreases count,
{
    if count == 0 {
        0
    } else {
        2 * bits_at(buf, pos, (count - 1) as nat) + bit_at(buf, pos + count - 1)
    }
}

/// The `count` bits of the 16-bit window `w` that start `skip` bits below its
/// top.
pub open spec fn window_bits(w: u16, skip: u16, count: u16) -> u16 {
    (w >> ((16 - skip - count) as u16)) & ((((1u16 << count)) - 1) as u16)
}

/// A window over two neighbouring bytes holds, bit for bit, what `bits_at`
/// reads from the buffer.
proof fn lemma_window_bits(buf: Seq<u8>, byte: int, lo: u8, skip: u16, count: u16)
    requires
        0 <= byte < buf.len(),
        skip < 8,
        count <= 7,
        skip + count > 8 ==> byte + 1 < buf.len() && lo == buf[byte + 1],
    ensures
        window_bits(((buf[byte] as u16) << 8) | (lo as u16), skip, count) == bits_at(
            buf,
            byte * 8 + skip,
            count as nat,
        ),
        window_bits(((buf[byte] as u16) << 8) | (lo as u16), skip, count) < 128,
    decreases count,
{
    let hi = buf[byte];
    let w = ((hi as u16) << 8) | (lo as u16);
    assert(window_bits(w, skip, count) < 128) by (bit_vector)
        requires
            count <= 7,
            skip < 8,
    ;
    if count == 0 {
        assert(window_bits(w, skip, 0) == 0) by (bit_vector)
            requires
                skip < 8,
        ;
    } else {
        let less = (count - 1) as u16;
        lemma_window_bits(buf, byte, lo, skip, less);
        let j = (skip + count - 1) as u16;
        assert(window_bits(w, skip, count) == 2 * window_bits(w, skip, less) + ((w >> ((15 - j) as u16))
            & 1)) by (bit_vector)
            requires
                skip < 8,
                1 <= count <= 7,
                less == count - 1,
                j == skip + count - 1,
        ;
        let pos = byte * 8 + j;
        if j < 8 {
            assert(pos / 8 == byte && pos % 8 == j as int);
            assert(((w >> ((15 - j) as u16)) & 1) == ((hi >> ((7 - j) as u8)) & 1) as u16) by (bit_vector)
                requires
                    j < 8,
                    w == ((hi as u16) << 8) | (lo as u16),
            ;
        } else {
            assert(pos / 8 == byte + 1 && pos % 8 == j - 8);
            assert(((w >> ((15 - j) as u16)) & 1) == ((lo >> ((15 - j) as u8)) & 1) as u16) by (bit_vector)
                requires
                    8 <= j < 16,
                    w == ((hi as u16) << 8) | (lo as u16),
            ;
        }
    }
}

/// The two halves of a byte, as two reads of four bits see them: first the
/// high half, then the low half.
pub proof fn lemma_nibbles(buf: Seq<u8>, byte: int)
    requires
        0 <= byte < buf.len(),
    ensures
        bits_at(buf, byte * 8, 4) == buf[byte] / 16,
        bits_at(buf, byte * 8 + 4, 4) == buf[byte] % 16,
{
    let hi = buf[byte];
    lemma_window_bits(buf, byte, 0, 0, 4);
    lemma_window_bits(buf, byte, 0, 4, 4);
    assert(window_bits(((hi as u16) << 8) | (0u8 as u16), 0, 4) == hi / 16) by (bit_vector);
    assert(window_bits(((hi as u16) << 8) | (0u8 as u16), 4, 4) == hi % 16) by (bit_vector);
}

/// Bits read in two steps spell the same number as the same bits read at
/// once: the bits of the first step stand above those of the second.
pub proof fn lemma_bits_joined(buf: Seq<u8>, pos: int, first: nat, second: nat)
    ensures
        bits_at(buf, pos, first + second) == bits_at(buf, pos, first) * pow2(second) + bits_at(
            buf,
            pos + first,
            second,
        ),
    decreases second,
{
    if second == 0 {
        lemma2_to64();
    } else {
        let less = (second - 1) as nat;
        lemma_bits_joined(buf, pos, first, less);
        lemma_pow2_unfold(second);
        assert((first + second - 1) as nat == first + less);
        assert(bits_at(buf, pos, first) * (2 * pow2(less)) == 2 * (bits_at(buf, pos, first) * pow2(
            less,
        ))) by (nonlinear_arith);
    }
}

/// The eight bits of a byte, read from its first bit on, spell the byte.
pub proof fn lemma_bits_of_byte(buf: Seq<u8>, byte: int)
    requires
        0 <= byte < buf.len(),
    ensures
        bits_at(buf, byte * 8, 8) == buf[byte],
{
    lemma_nibbles(buf, byte);
    lemma_bits_joined(buf, byte * 8, 4, 4);
    lemma2_to64();
}

/// A cursor over a caller-owned buffer that reads whole bytes, or up to
/// seven bits at a time from the most significant bit of each byte down.
pub struct Reader<'a> {
    msg: &'static str,
    buf: &'a [u8],
    byte_offset: usize,
    bit_offset: u8,
}

impl<'a> Reader<'a> {
    /// The cursor stays inside the buffer, and at its end it stands on a byte
    /// boundary.
    pub closed spec fn wf(&self) -> bool {
        &&& self.byte_offset <= self.buf@.len()
        &&& self.bit_offset < 8
        &&& self.byte_offset == self.buf@.len() ==> self.bit_offset == 0
    }

    /// The message that errors are reported for.
    pub closed spec fn msg(&self) -> &'static str {
        self.msg
    }

    /// The buffer being read.
    pub closed spec fn bytes(&self) -> Seq<u8> {
        self.buf@
    }

    /// The cursor, as a count of bits from the start of the buffer.
    pub closed spec fn pos(&self) -> int {
        self.byte_offset * 8 + self.bit_offset
    }

    pub fn new(msg: &'static str, buf: &'a [u8]) -> (r: Reader<'a>)
        ensures
            r.wf(),
            r.msg() == msg,
            r.bytes() == buf@,
            r.pos() == 0,
    {
        Reader { msg, buf, byte_offset: 0, bit_offset: 0 }
    }

    /// The message that errors are reported for.
    pub fn name(&self) -> (n: &'static str)
        ensures
            n == self.msg(),
    {
        self.msg
    }

    /// Reads the next whole byte. Fails with `Unaligned` when the cursor is
    /// inside a byte and with `Empty` at the end of the buffer; a failed read
    /// leaves the cursor where it was.
    pub fn read_byte(&mut self) -> (r: Result<u8, ReadError>)
        requires
            old(self).wf(),
        ensures
            final(self).wf(),
            final(self).msg() == old(self).msg(),
            final(self).bytes() == old(self).bytes(),
            0 <= old(self).pos() <= 8 * old(self).bytes().len(),
            old(self).pos() % 8 != 0 ==> r == Err::<u8, ReadError>(
                ReadError { msg: old(self).msg(), kind: ReadErrorKind::Unaligned },
            ),
            old(self).pos() % 8 == 0 && old(self).pos() == 8 * old(self).bytes().len() ==> r
                == Err::<u8, ReadError>(
                ReadError { msg: old(self).msg(), kind: ReadErrorKind::Empty },
            ),
            old(self).pos() % 8 == 0 && old(self).pos() < 8 * old(self).bytes().len() ==> r
                == Ok::<u8, ReadError>(old(self).bytes()[old(self).pos() / 8]),
            r is Ok ==> final(self).pos() == old(self).pos() + 8,
            r is Err ==> final(self).pos() == old(self).pos(),
    {
        if !self.aligned() {
            return Err(ReadError::new(self.msg, ReadErrorKind::Unaligned));
        }
        if self.empty() {
            return Err(ReadError::new(self.msg, ReadErrorKind::Empty));
        }
        let b = self.buf[self.byte_offset];
        self.byte_offset += 1;
        Ok(b)
    }

    /// Reads up to 7 bits at a time, the first bit read the most significant
    /// of the result. The read does not have to be aligned and may cross
    /// into the next byte. Fails with `TooManyBits` for more than 7 bits and
    /// with `Empty` when fewer than `count` bits are left; a failed read
    /// leaves the cursor where it was. A read of no bits returns 0.
    pub fn read_bits(&mut self, count: u8) -> (r: Result<u8, ReadError>)
        requires
            old(self).wf(),
        ensures
            final(self).wf(),
            final(self).msg() == old(self).msg(),
            final(self).bytes() == old(self).bytes(),
            0 <= old(self).pos() <= 8 * old(self).bytes().len(),
            count > 7 ==> r == Err::<u8, ReadError>(
                ReadError { msg: old(self).msg(), kind: ReadErrorKind::TooManyBits },
            ),
            count <= 7 && old(self).pos() + count > 8 * old(self).bytes().len() ==> r == Err::<
                u8,
                ReadError,
            >(ReadError { msg: old(self).msg(), kind: ReadErrorKind::Empty }),
            count <= 7 && old(self).pos() + count <= 8 * old(self).bytes().len() ==> (r matches Ok(
                b,
            ) && b == bits_at(old(self).bytes(), old(self).pos(), count as nat)),
            r is Ok ==> final(self).pos() == old(self).pos() + count,
            r is Err ==> final(self).pos() == old(self).pos(),
    {
        if count > 7 {
            return Err(ReadError::new(self.msg, ReadErrorKind::TooManyBits));
        }
        if count == 0 {
            return Ok(0);
        }
        if self.byte_offset == self.buf.len() {
            return Err(ReadError::new(self.msg, ReadErrorKind::Empty));
        }
        let end: u8 = self.bit_offset + count;
        let last: bool = self.byte_offset + 1 == self.buf.len();
        if end > 8 && last {
            return Err(ReadError::new(self.msg, ReadErrorKind::Empty));
        }
        let hi: u8 = self.buf[self.byte_offset];
        let lo: u8 = if last {
            0
        } else {
            self.buf[self.byte_offset + 1]
        };
        let w: u16 = ((hi as u16) << 8) | (lo as u16);
        let shift: u16 = 16 - (end as u16);
        let width: u16 = count as u16;
        assert((1u16 << width) >= 1) by (bit_vector)
            requires
                width <= 7,
        ;
        let mask: u16 = (1u16 << width) - 1;
        let bits: u16 = (w >> shift) & mask;
        proof {
            lemma_window_bits(
                self.buf@,
                self.byte_offset as int,
                lo,
                self.bit_offset as u16,
                count as u16,
            );
        }
        if end >= 8 {
            self.byte_offset += 1;
            self.bit_offset = end - 8;
        } else {
            self.bit_offset = end;
        }
        Ok(bits as u8)
    }

    /// Whether every bit of the buffer has been read.
    pub fn empty(&self) -> (b: bool)
        requires
            self.wf(),
        ensures
            b == (self.pos() == 8 * self.bytes().len()),
    {
        self.buf.len() == self.byte_offset
    }

    /// Whether the cursor stands on a byte boundary.
    pub fn aligned(&self) -> (b: bool)
        requires
            self.wf(),
        ensures
            b == (self.pos() % 8 == 0),
    {
        self.bit_offset == 0
    }

    /// The number of bytes not yet read to their end.
    pub fn left(&self) -> (n: usize)
        requires
            self.wf(),
        ensures
            n == self.bytes().len() - self.pos() / 8,
    {
        self.buf.len() - self.byte_offset
    }
}

} // verus!
