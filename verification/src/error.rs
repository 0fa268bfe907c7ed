use vstd::prelude::*;

verus! {

/// The failures this layer reports. Every operation returns a result rather
/// than aborting; there is no internal retry anywhere.
#[derive(Debug, Clone)]
pub enum Error {
    /// A payload could not be encoded or decoded.
    Serde(String),
    /// A transport-level send or receive failure.
    Io(String),
    /// The event channel closed with no further events possible, or an
    /// addressed push named an identity that is not registered.
    Disconnected,
}

impl Error {
    /// True exactly on the `Disconnected` variant.
    pub fn is_disconnected(&self) -> (r: bool)
        ensures
            r == (self is Disconnected),
    {
        matches!(self, Error::Disconnected)
    }

    /// True exactly on the `Serde` variant.
    pub fn is_serde(&self) -> (r: bool)
        ensures
            r == (self is Serde),
    {
        matches!(self, Error::Serde(_))
    }

    /// True exactly on the `Io` variant.
    pub fn is_io(&self) -> (r: bool)
        ensures
            r == (self is Io),
    {
        matches!(self, Error::Io(_))
    }
}

} // verus!
