//! A requester follows the typestate pattern: each phase of the negotiation
//! is a type of its own, and a transition consumes the state that it leaves.
//!
//! The states hold as little as they can. Large state, such as the
//! transcript, is passed in where it is needed, so that a state stays cheap
//! to move and can be sent between threads.

pub mod capabilities;
pub mod error;
pub mod version;

pub use capabilities::CapabilitiesState;
pub use error::RequesterError;
pub use version::VersionState;

use vstd::prelude::*;

verus! {

/// The state that every negotiation starts in.
pub fn start() -> (s: VersionState)
    ensures
        s == (VersionState {  }),
{
    VersionState {  }
}

} // verus!
