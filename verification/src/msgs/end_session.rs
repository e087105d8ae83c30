//! The bodies of the two messages that end a session.

use crate::msgs::encoding::write_result;
use crate::msgs::encoding::ReadError;
use crate::msgs::encoding::ReadErrorKind;
use crate::msgs::encoding::Reader;
use crate::msgs::encoding::WriteError;
use crate::msgs::encoding::Writer;
use vstd::prelude::*;

verus! {

/// Bit 0 of the attributes: keep the negotiated state when the session ends.
pub const PRESERVE_NEGOTIATED_STATE: u8 = 0b0000_0001;

/// The attribute flags of a request to end a session.
#[derive(Debug, Clone, Copy, Default, PartialEq, Eq, Structural)]
pub struct SpdmEndSessionRequestAttributes {
    bits: u8,
}

impl SpdmEndSessionRequestAttributes {
    /// The flags as a byte.
    pub closed spec fn spec_bits(&self) -> u8 {
        self.bits
    }

    /// No bit is set but those that have a meaning.
    pub open spec fn wf(&self) -> bool {
        self.spec_bits() <= PRESERVE_NEGOTIATED_STATE
    }

    /// No flag set.
    pub fn empty() -> (a: Self)
        ensures
            a.spec_bits() == 0,
    {
        SpdmEndSessionRequestAttributes { bits: 0 }
    }

    /// Every flag set.
    pub fn all() -> (a: Self)
        ensures
            a.spec_bits() == PRESERVE_NEGOTIATED_STATE,
    {
        SpdmEndSessionRequestAttributes { bits: PRESERVE_NEGOTIATED_STATE }
    }

    /// The flag that keeps the negotiated state, alone.
    pub fn preserve_negotiated_state() -> (a: Self)
        ensures
            a.spec_bits() == PRESERVE_NEGOTIATED_STATE,
    {
        SpdmEndSessionRequestAttributes { bits: PRESERVE_NEGOTIATED_STATE }
    }

    pub fn bits(&self) -> (b: u8)
        ensures
            b == self.spec_bits(),
    {
        self.bits
    }

    /// The flags that a byte spells, or `None` when a bit without a meaning
    /// is set.
    pub fn from_bits(bits: u8) -> (r: Option<Self>)
        ensures
            bits <= PRESERVE_NEGOTIATED_STATE ==> (r matches Some(a) && a.spec_bits() == bits),
            bits > PRESERVE_NEGOTIATED_STATE ==> r is None,
    {
        if bits > PRESERVE_NEGOTIATED_STATE {
            None
        } else {
            Some(SpdmEndSessionRequestAttributes { bits })
        }
    }

    pub fn encode(&self, bytes: &mut Writer) -> (r: Result<usize, WriteError>)
        requires
            old(bytes).wf(),
        ensures
            write_result(old(bytes).state(), final(bytes).state(), seq![self.spec_bits()], r),
            final(final(bytes).buf)@ == final(old(bytes).buf)@,
    {
        bytes.push(self.bits)
    }

    /// Reads one byte of flags. A byte with a bit set that has no meaning is
    /// read and refused.
    pub fn read(r: &mut Reader) -> (res: Result<SpdmEndSessionRequestAttributes, ReadError>)
        requires
            old(r).wf(),
        ensures
            final(r).wf(),
            final(r).msg() == old(r).msg(),
            final(r).bytes() == old(r).bytes(),
            match attributes_at(old(r).bytes(), old(r).pos()) {
                Ok(bits) => (res matches Ok(a) && a.spec_bits() == bits),
                Err(kind) => res == Err::<SpdmEndSessionRequestAttributes, ReadError>(
                    ReadError { msg: old(r).msg(), kind },
                ),
            },
            final(r).pos() == old(r).pos() + 8 * whole_bytes_at(old(r).bytes(), old(r).pos(), 1),
    {
        let bits = match r.read_byte() {
            Ok(b) => b,
            Err(e) => {
                return Err(e);
            },
        };
        match SpdmEndSessionRequestAttributes::from_bits(bits) {
            Some(a) => Ok(a),
            None => Err(ReadError::new(r.name(), ReadErrorKind::ReservedBytesNotZero)),
        }
    }
}

/// How many whole bytes, up to `want`, can be read from bit `pos` on: none
/// from inside a byte, else as many as are left.
pub open spec fn whole_bytes_at(buf: Seq<u8>, pos: int, want: int) -> int {
    if pos % 8 != 0 {
        0
    } else if buf.len() - pos / 8 < want {
        buf.len() - pos / 8
    } else {
        want
    }
}

/// The flags read at bit `pos`, or why none are read.
pub open spec fn attributes_at(buf: Seq<u8>, pos: int) -> Result<u8, ReadErrorKind> {
    if pos % 8 != 0 {
        Err(ReadErrorKind::Unaligned)
    } else if pos / 8 >= buf.len() {
        Err(ReadErrorKind::Empty)
    } else if buf[pos / 8] > PRESERVE_NEGOTIATED_STATE {
        Err(ReadErrorKind::ReservedBytesNotZero)
    } else {
        Ok(buf[pos / 8])
    }
}

/// The request to end a session: one byte of flags and one reserved byte.
#[derive(Debug, Copy, Clone, Default, PartialEq, Eq, Structural)]
pub struct SpdmEndSessionRequestPayload {
    pub end_session_request_attributes: SpdmEndSessionRequestAttributes,
}

/// The flags of the request read at bit `pos`, or why none is read: the
/// flags must be readable, and the reserved byte behind them must be there;
/// what it holds is not looked at.
pub open spec fn end_session_request_at(buf: Seq<u8>, pos: int) -> Result<u8, ReadErrorKind> {
    match attributes_at(buf, pos) {
        Err(kind) => Err(kind),
        Ok(bits) => if pos / 8 + 1 >= buf.len() {
            Err(ReadErrorKind::Empty)
        } else {
            Ok(bits)
        },
    }
}

impl SpdmEndSessionRequestPayload {
    /// The two bytes of the body: the flags, then zero.
    pub open spec fn body(&self) -> Seq<u8> {
        seq![self.end_session_request_attributes.spec_bits(), 0u8]
    }

    pub fn spdm_encode(&self, bytes: &mut Writer) -> (r: Result<usize, WriteError>)
        requires
            old(bytes).wf(),
        ensures
            write_result(old(bytes).state(), final(bytes).state(), self.body(), r),
            final(final(bytes).buf)@ == final(old(bytes).buf)@,
    {
        let body: [u8; 2] = [self.end_session_request_attributes.bits(), 0];
        let r = bytes.extend(body.as_slice());
        assert(body@ =~= self.body());
        r
    }

    /// Reads the flags and the reserved byte. The cursor moves over the bytes
    /// that were read: both, or the flags alone when they are refused.
    pub fn spdm_read(r: &mut Reader) -> (res: Result<SpdmEndSessionRequestPayload, ReadError>)
        requires
            old(r).wf(),
        ensures
            final(r).wf(),
            final(r).msg() == old(r).msg(),
            final(r).bytes() == old(r).bytes(),
            match end_session_request_at(old(r).bytes(), old(r).pos()) {
                Ok(bits) => (res matches Ok(p) && p.end_session_request_attributes.spec_bits()
                    == bits),
                Err(kind) => res == Err::<SpdmEndSessionRequestPayload, ReadError>(
                    ReadError { msg: old(r).msg(), kind },
                ),
            },
            final(r).pos() == old(r).pos() + 8 * whole_bytes_at(
                old(r).bytes(),
                old(r).pos(),
                if attributes_at(old(r).bytes(), old(r).pos()) is Ok {
                    2
                } else {
                    1
                },
            ),
    {
        // param1
        let end_session_request_attributes = match SpdmEndSessionRequestAttributes::read(r) {
            Ok(a) => a,
            Err(e) => {
                return Err(e);
            },
        };
        // param2
        match r.read_byte() {
            Ok(_) => Ok(SpdmEndSessionRequestPayload { end_session_request_attributes }),
            Err(e) => Err(e),
        }
    }
}

/// The answer to a request to end a session: two reserved bytes.
#[derive(Debug, Copy, Clone, Default, PartialEq, Eq, Structural)]
pub struct SpdmEndSessionResponsePayload {}

/// Why no answer is read at bit `pos`, if none is: its two bytes must be
/// there; what they hold is not looked at.
pub open spec fn end_session_response_error(buf: Seq<u8>, pos: int) -> Option<ReadErrorKind> {
    if pos % 8 != 0 {
        Some(ReadErrorKind::Unaligned)
    } else if pos / 8 + 1 >= buf.len() {
        Some(ReadErrorKind::Empty)
    } else {
        None
    }
}

impl SpdmEndSessionResponsePayload {
    /// The two bytes of the body, both zero.
    pub open spec fn body(&self) -> Seq<u8> {
        seq![0u8, 0u8]
    }

    pub fn spdm_encode(&self, bytes: &mut Writer) -> (r: Result<usize, WriteError>)
        requires
            old(bytes).wf(),
        ensures
            write_result(old(bytes).state(), final(bytes).state(), self.body(), r),
            final(final(bytes).buf)@ == final(old(bytes).buf)@,
    {
        let body: [u8; 2] = [0, 0];
        let r = bytes.extend(body.as_slice());
        assert(body@ =~= self.body());
        r
    }

    pub fn spdm_read(r: &mut Reader) -> (res: Result<SpdmEndSessionResponsePayload, ReadError>)
        requires
            old(r).wf(),
        ensures
            final(r).wf(),
            final(r).msg() == old(r).msg(),
            final(r).bytes() == old(r).bytes(),
            match end_session_response_error(old(r).bytes(), old(r).pos()) {
                None => res == Ok::<SpdmEndSessionResponsePayload, ReadError>(
                    SpdmEndSessionResponsePayload {  },
                ),
                Some(kind) => res == Err::<SpdmEndSessionResponsePayload, ReadError>(
                    ReadError { msg: old(r).msg(), kind },
                ),
            },
            final(r).pos() == old(r).pos() + 8 * whole_bytes_at(old(r).bytes(), old(r).pos(), 2),
    {
        // param1
        match r.read_byte() {
            Ok(_) => {},
            Err(e) => {
                return Err(e);
            },
        }
        // param2
        match r.read_byte() {
            Ok(_) => Ok(SpdmEndSessionResponsePayload {  }),
            Err(e) => Err(e),
        }
    }
}

/// A request to end a session that was written is read back with the same
/// flags.
pub proof fn lemma_end_session_request_round_trip(p: SpdmEndSessionRequestPayload)
    requires
        p.end_session_request_attributes.wf(),
    ensures
        end_session_request_at(p.body(), 0) == Ok::<u8, ReadErrorKind>(
            p.end_session_request_attributes.spec_bits(),
        ),
{
}

/// An answer that was written is read back without error.
pub proof fn lemma_end_session_response_round_trip(p: SpdmEndSessionResponsePayload)
    ensures
        end_session_response_error(p.body(), 0) is None,
{
}

} // verus!
