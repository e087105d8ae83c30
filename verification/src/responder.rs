//! The responder's entry point for version negotiation: it looks at the
//! header to see whose message arrived, refuses what is malformed with a
//! typed error, and writes the answer.

use crate::msgs::encoding::written;
use crate::msgs::encoding::ReadError;
use crate::msgs::encoding::ReadErrorKind;
use crate::msgs::encoding::WriteError;
use crate::msgs::frame;
use crate::msgs::header_result;
use crate::msgs::version::default_versions;
use crate::msgs::version::entries_bytes;
use crate::msgs::version::get_version_body_error;
use crate::msgs::version::GetVersion;
use crate::msgs::version::Version;
use crate::msgs::Msg;
use crate::msgs::HEADER_SIZE;
use vstd::prelude::*;

verus! {

#[derive(Debug, Clone, PartialEq, Eq)]
pub enum ResponderError {
    Write(WriteError),
    Read(ReadError),
    /// Another message arrived than the one expected; `got` is its code.
    UnexpectedMsg { expected: &'static str, got: u8 },
}

/// Why a request is refused as a version query, if it is. The checks come in
/// this order: the length of the header, the header, the body.
pub open spec fn get_version_fault(req: Seq<u8>) -> Option<ResponderError> {
    let name = GetVersion::spec_name();
    if req.len() < 2 {
        Some(ResponderError::Read(ReadError { msg: name, kind: ReadErrorKind::Empty }))
    } else {
        match header_result(name, GetVersion::spec_version(), GetVersion::spec_code(), req) {
            Ok(false) => Some(ResponderError::UnexpectedMsg { expected: name, got: req[1] }),
            Err(e) => Some(ResponderError::Read(e)),
            Ok(true) => match get_version_body_error(req.subrange(2, req.len() as int)) {
                Some(kind) => Some(ResponderError::Read(ReadError { msg: name, kind })),
                None => None,
            },
        }
    }
}

/// The bytes of the answer: the list of the published versions.
pub open spec fn version_frame() -> Seq<u8> {
    frame(
        Version::spec_version(),
        Version::spec_code(),
        seq![0u8, 0u8, 0u8, 2u8] + entries_bytes(default_versions()),
    )
}

/// Answers a version query. A request that is no well-formed version query
/// is refused and `rsp` is left as it was. Else the list of the published
/// versions is written to the start of `rsp` and its length returned, or a
/// write error when `rsp` is too short for it.
pub fn handle_msg(req: &[u8], rsp: &mut [u8]) -> (r: Result<usize, ResponderError>)
    ensures
        match get_version_fault(req@) {
            Some(e) => r == Err::<usize, ResponderError>(e) && final(rsp)@ == old(rsp)@,
            None => {
                &&& final(rsp)@ == written(old(rsp)@, 0, version_frame())
                &&& old(rsp)@.len() >= version_frame().len() ==> r == Ok::<usize, ResponderError>(
                    version_frame().len() as usize,
                )
                &&& old(rsp)@.len() < version_frame().len() ==> r == Err::<usize, ResponderError>(
                    ResponderError::Write(
                        WriteError { msg: Version::spec_name(), buf_size: old(rsp)@.len() as usize },
                    ),
                )
            },
        },
{
    if req.len() < HEADER_SIZE {
        return Err(ResponderError::Read(ReadError::new(GetVersion::name(), ReadErrorKind::Empty)));
    }
    match GetVersion::parse_header(req) {
        Ok(true) => {},
        Ok(false) => {
            return Err(ResponderError::UnexpectedMsg { expected: GetVersion::name(), got: req[1] });
        },
        Err(e) => {
            return Err(ResponderError::Read(e));
        },
    }
    match GetVersion::parse_body(&req[HEADER_SIZE..req.len()]) {
        Ok(_) => {},
        Err(e) => {
            return Err(ResponderError::Read(e));
        },
    }
    let version = Version::default();
    match version.write(rsp) {
        Ok(n) => Ok(n),
        Err(e) => Err(ResponderError::Write(e)),
    }
}

} // verus!
