//! Wire codec and requester-side negotiation for a device attestation
//! protocol: fixed-buffer encoding, message framing, the transcript of the
//! bytes exchanged, and the typestate machine that negotiates a version.

pub mod msgs;
pub mod transcript;

pub use transcript::Transcript;
pub mod requester;
pub mod responder;
