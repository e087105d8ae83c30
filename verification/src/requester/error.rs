//! What can go wrong on the requester's side.

use crate::msgs::encoding::ReadError;
use crate::msgs::encoding::WriteError;
use crate::msgs::version::Version;
use vstd::prelude::*;
use vstd::std_specs::convert::FromSpecImpl;

verus! {

#[derive(Debug, Clone, PartialEq, Eq)]
pub enum RequesterError {
    Write(WriteError),
    Read(ReadError),
    /// Another message arrived than the phase expects; `got` is its code.
    UnexpectedMsg { expected: &'static str, got: u8 },
    //
    // Version related messages
    //
    /// The responder listed more versions than a list may carry.
    TooManyVersions,
    /// None of the versions that the responder listed is spoken here.
    NoSupportedVersions { received: Version },
}

impl From<WriteError> for RequesterError {
    fn from(e: WriteError) -> (r: Self) {
        RequesterError::Write(e)
    }
}

impl FromSpecImpl<WriteError> for RequesterError {
    open spec fn obeys_from_spec() -> bool {
        true
    }

    open spec fn from_spec(e: WriteError) -> Self {
        RequesterError::Write(e)
    }
}

impl From<ReadError> for RequesterError {
    fn from(e: ReadError) -> (r: Self) {
        RequesterError::Read(e)
    }
}

impl FromSpecImpl<ReadError> for RequesterError {
    open spec fn obeys_from_spec() -> bool {
        true
    }

    open spec fn from_spec(e: ReadError) -> Self {
        RequesterError::Read(e)
    }
}

} // verus!
