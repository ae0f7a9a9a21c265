use vstd::prelude::*;

verus! {

/// Why the scheduler rejects a feed registration.
#[derive(Clone, Copy, Debug, PartialEq, Eq, Structural)]
pub enum RegistrationError {
    /// The cadence string does not follow the five/six-field grammar.
    InvalidScheduleExpression,
    /// A job for the same feed identity is already registered.
    DuplicateJob,
}

/// A fetch cycle failed before any item was seen (network or parse
/// trouble in the feed source). The cycle is abandoned; nothing changes.
#[derive(Clone, Copy, Debug, PartialEq, Eq, Structural)]
pub struct FetchError;

/// A single publish attempt failed in the sink (transient transport
/// trouble). The item is left unrecorded so the next cycle retries it.
#[derive(Clone, Copy, Debug, PartialEq, Eq, Structural)]
pub struct PublishError;

} // verus!
