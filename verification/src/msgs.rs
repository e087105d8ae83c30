//! Message framing: the two-byte header shared by every message.

pub mod encoding;
pub mod end_session;
pub mod version;

use crate::msgs::encoding::lemma_write_failed;
use crate::msgs::encoding::lemma_write_then;
use crate::msgs::encoding::write_result;
use crate::msgs::encoding::written;
use crate::msgs::encoding::ReadError;
use crate::msgs::encoding::ReadErrorKind;
use crate::msgs::encoding::WriteError;
use crate::msgs::encoding::Writer;
use vstd::prelude::*;

verus! {

/// The number of bytes in front of every message body.
pub const HEADER_SIZE: usize = 2;

/// What a look at a header returns for a message with the given name,
/// version and code: `Ok(false)` for another message's code, whatever the
/// version byte; `Ok(true)` for this code under this version; an error for
/// this code under another version.
pub open spec fn header_result(name: &'static str, version: u8, code: u8, buf: Seq<u8>) -> Result<
    bool,
    ReadError,
> {
    if buf[1] != code {
        Ok(false)
    } else if buf[0] == version {
        Ok(true)
    } else {
        Err(ReadError { msg: name, kind: ReadErrorKind::Header })
    }
}

/// The whole message on the wire: version, code, body.
pub open spec fn frame(version: u8, code: u8, body: Seq<u8>) -> Seq<u8> {
    seq![version, code] + body
}

/// The code is looked at first: under another code the version byte does
/// not matter, and under this code it alone decides between a match and an
/// error.
pub proof fn lemma_header_by_code(name: &'static str, version: u8, code: u8, buf: Seq<u8>)
    requires
        buf.len() >= 2,
    ensures
        buf[1] != code ==> header_result(name, version, code, buf) == Ok::<bool, ReadError>(false),
        buf[1] == code && buf[0] != version ==> header_result(name, version, code, buf) == Err::<
            bool,
            ReadError,
        >(ReadError { msg: name, kind: ReadErrorKind::Header }),
        buf[1] == code && buf[0] == version ==> header_result(name, version, code, buf) == Ok::<
            bool,
            ReadError,
        >(true),
{
}

/// A message written to the start of a buffer with room for it stands
/// there whole: the header, then the body, then what the buffer held before.
pub proof fn lemma_frame_written(version: u8, code: u8, body: Seq<u8>, buf: Seq<u8>)
    requires
        buf.len() >= 2 + body.len(),
    ensures
        written(buf, 0, frame(version, code, body))[0] == version,
        written(buf, 0, frame(version, code, body))[1] == code,
        written(buf, 0, frame(version, code, body)).subrange(2, buf.len() as int) == body
            + buf.subrange(2 + body.len() as int, buf.len() as int),
{
    let out = written(buf, 0, frame(version, code, body));
    assert(out.subrange(2, buf.len() as int) =~= body + buf.subrange(
        2 + body.len() as int,
        buf.len() as int,
    ));
}

/// A protocol message: its name, the two bytes of its header, and its body.
pub trait Msg {
    /// The name, written as in the protocol's documents (UPPER_SNAKE_CASE).
    spec fn spec_name() -> &'static str;

    spec fn spec_version() -> u8;

    spec fn spec_code() -> u8;

    /// Whether this value can be written at all.
    spec fn valid(&self) -> bool;

    /// The bytes of the body.
    spec fn body(&self) -> Seq<u8>;

    fn name() -> (r: &'static str)
        ensures
            r == Self::spec_name(),
    ;

    fn spdm_version() -> (r: u8)
        ensures
            r == Self::spec_version(),
    ;

    fn spdm_code() -> (r: u8)
        ensures
            r == Self::spec_code(),
    ;

    fn write_body(&self, w: &mut Writer) -> (r: Result<usize, WriteError>)
        requires
            old(w).wf(),
            self.valid(),
        ensures
            write_result(old(w).state(), final(w).state(), self.body(), r),
            final(final(w).buf)@ == final(old(w).buf)@,
    ;

    /// Parse the 2 byte message header and ensure the version field is
    /// correct for the given message type.
    ///
    /// Returns `Ok(true)` if the header is of the given type and has a
    /// correct version, `Ok(false)` if the header is another message type,
    /// and an error if the version is wrong for this message type.
    fn parse_header(buf: &[u8]) -> (r: Result<bool, ReadError>)
        requires
            buf@.len() >= 2,
        ensures
            r == header_result(Self::spec_name(), Self::spec_version(), Self::spec_code(), buf@),
    {
        if buf[1] != Self::spdm_code() {
            Ok(false)
        } else {
            if buf[0] == Self::spdm_version() {
                Ok(true)
            } else {
                Err(ReadError::new(Self::name(), ReadErrorKind::Header))
            }
        }
    }

    /// Writes header and body to the start of `buf`. Returns the length of
    /// the message, or an error when `buf` is too short for it; the part that
    /// did fit is then written all the same.
    fn write(&self, buf: &mut [u8]) -> (r: Result<usize, WriteError>)
        requires
            self.valid(),
        ensures
            final(buf)@ == written(old(buf)@, 0, frame(Self::spec_version(), Self::spec_code(), self.body())),
            frame(Self::spec_version(), Self::spec_code(), self.body()).len() <= old(buf)@.len() ==> r == Ok::<usize, WriteError>(
                frame(Self::spec_version(), Self::spec_code(), self.body()).len() as usize,
            ),
            frame(Self::spec_version(), Self::spec_code(), self.body()).len() > old(buf)@.len() ==> r == Err::<usize, WriteError>(
                WriteError { msg: Self::spec_name(), buf_size: old(buf)@.len() as usize },
            ),
    {
        let mut w = Writer::new(Self::name(), buf);
        let ghost pre = w.state();
        let r1 = Self::write_header(&mut w);
        let ghost mid = w.state();
        if r1.is_err() {
            proof {
                lemma_write_failed(pre, mid, seq![Self::spec_version(), Self::spec_code()], self.body(), r1);
            }
            return r1;
        }
        let r2 = self.write_body(&mut w);
        proof {
            lemma_write_then(
                pre,
                mid,
                w.state(),
                seq![Self::spec_version(), Self::spec_code()],
                self.body(),
                r1,
                r2,
            );
        }
        r2
    }

    fn write_header(w: &mut Writer) -> (r: Result<usize, WriteError>)
        requires
            old(w).wf(),
        ensures
            write_result(
                old(w).state(),
                final(w).state(),
                seq![Self::spec_version(), Self::spec_code()],
                r,
            ),
            final(final(w).buf)@ == final(old(w).buf)@,
    {
        let ghost pre = w.state();
        let r1 = w.push(Self::spdm_version());
        let ghost mid = w.state();
        if r1.is_err() {
            proof {
                lemma_write_failed(pre, mid, seq![Self::spec_version()], seq![Self::spec_code()], r1);
                assert(seq![Self::spec_version()] + seq![Self::spec_code()] =~= seq![
                    Self::spec_version(),
                    Self::spec_code(),
                ]);
            }
            return r1;
        }
        let r2 = w.push(Self::spdm_code());
        proof {
            lemma_write_then(
                pre,
                mid,
                w.state(),
                seq![Self::spec_version()],
                seq![Self::spec_code()],
                r1,
                r2,
            );
            assert(seq![Self::spec_version()] + seq![Self::spec_code()] =~= seq![
                Self::spec_version(),
                Self::spec_code(),
            ]);
        }
        r2
    }
}

} // verus!
