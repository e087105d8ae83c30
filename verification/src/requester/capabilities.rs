//! The phase that follows version negotiation.

use crate::msgs::version::VersionEntry;
use vstd::prelude::*;

verus! {

/// After version negotiation, capabilities are negotiated. The state holds
/// the version that both sides agreed on and nothing else.
#[derive(Debug)]
pub struct CapabilitiesState {
    version: VersionEntry,
}

impl CapabilitiesState {
    /// The version that was negotiated.
    pub closed spec fn negotiated(&self) -> VersionEntry {
        self.version
    }

    pub fn new(version: VersionEntry) -> (s: CapabilitiesState)
        ensures
            s.negotiated() == version,
    {
        CapabilitiesState { version }
    }

    pub fn version(&self) -> (v: VersionEntry)
        ensures
            v == self.negotiated(),
    {
        self.version
    }
}

} // verus!
