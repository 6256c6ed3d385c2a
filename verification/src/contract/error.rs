use vstd::prelude::*;

verus! {

/// Errors of the registry's entry points. Their codes are stable and part
/// of the public interface.
#[derive(Clone, Copy, Debug, PartialEq, Eq, PartialOrd, Ord)]
pub enum Error {
    EventAlreadyExists,
    EventNotFound,
    BadgeAlreadyMinted,
}

impl Error {
    pub open spec fn spec_code(self) -> u32 {
        match self {
            Error::EventAlreadyExists => 1,
            Error::EventNotFound => 2,
            Error::BadgeAlreadyMinted => 3,
        }
    }

    /// The error's stable numeric code.
    pub fn code(&self) -> (c: u32)
        ensures
            c == self.spec_code(),
    {
        match self {
            Error::EventAlreadyExists => 1,
            Error::EventNotFound => 2,
            Error::BadgeAlreadyMinted => 3,
        }
    }
}

} // verus!
