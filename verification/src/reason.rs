//! Protocol-level outcome codes carried in response packets.

use vstd::prelude::*;

verus! {

/// Outcome of a request, reported back to the client in the response
/// packet. The numeric wire encoding of these codes belongs to the
/// transport layer; the core works with them symbolically.
#[derive(Clone, Copy, Debug, PartialEq, Eq, Structural)]
pub enum ReasonCode {
    Success,
    DatabaseError,
    NotLoggedIn,
    Unauthorized,
    NoSuchCitizen,
    NameAlreadyUsed,
    UnableToChangeCitizen,
    NoSuchLicense,
    WorldAlreadyExists,
    UnableToInsertName,
    UnableToChangeLicense,
    NameTooShort,
    NameTooLong,
    NameContainsInvalidBlank,
    NameEndsWithBlank,
    NameContainsNonalphanumericChar,
    ContactAddBlocked,
    UnableToSetContact,
    TelegramBlocked,
    UnableToSendTelegram,
    UnableToGetTelegram,
    NoSuchEjection,
}

impl ReasonCode {
    /// True for the code that reports a request carried out in full.
    pub fn is_success(&self) -> (r: bool)
        ensures
            r == (*self == ReasonCode::Success),
    {
        matches!(self, ReasonCode::Success)
    }
}

} // verus!
