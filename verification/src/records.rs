//! The rows of the directory store, and the three-valued outcome every
//! directory call reports.

use vstd::prelude::*;
use crate::contact_options::ContactOptions;

verus! {

/// Outcome of a directory call. Handlers must tell "no row" (a success
/// carrying an empty option) from a transient storage failure, because the
/// two map to different reason codes on the wire.
#[derive(Clone, Copy, Debug)]
pub enum DatabaseResult<T> {
    Success(T),
    DatabaseError,
}

impl<T> DatabaseResult<T> {
    /// True when the call reached the store and came back.
    pub fn is_ok(&self) -> (r: bool)
        ensures
            r == (*self matches DatabaseResult::Success(_)),
    {
        matches!(self, DatabaseResult::Success(_))
    }

    /// True when the call failed in storage.
    pub fn is_err(&self) -> (r: bool)
        ensures
            r == (*self matches DatabaseResult::DatabaseError),
    {
        matches!(self, DatabaseResult::DatabaseError)
    }
}

/// A registered citizen account.
#[derive(Clone, Debug)]
pub struct CitizenQuery {
    pub id: u32,
    pub changed: u32,
    pub name: String,
    pub password: String,
    pub email: String,
    pub priv_pass: String,
    pub comment: String,
    pub url: String,
    pub immigration: u32,
    pub expiration: u32,
    pub last_login: u32,
    pub last_address: u32,
    pub total_time: u32,
    pub bot_limit: u32,
    pub beta: u32,
    pub cav_enabled: u32,
    pub cav_template: u32,
    pub enabled: u32,
    pub privacy: u32,
    pub trial: u32,
}

/// A world license: authorization for a world name, with caps and flags.
#[derive(Clone, Debug)]
pub struct LicenseQuery {
    pub id: u32,
    pub name: String,
    pub password: String,
    pub email: String,
    pub comment: String,
    pub creation: u32,
    pub expiration: u32,
    pub last_start: u32,
    pub last_address: u32,
    pub users: u32,
    pub world_size: u32,
    pub hidden: u32,
    pub changed: u32,
    pub tourists: u32,
    pub voip: u32,
    pub plugins: u32,
}

/// A directional contact edge from `citizen` toward `contact`, with its
/// option bits. The row with `contact == 0` stores the owner's default
/// mask.
#[derive(Clone, Copy, Debug, PartialEq, Eq, Structural)]
pub struct ContactQuery {
    pub citizen: u32,
    pub contact: u32,
    pub options: ContactOptions,
}

/// A stored message from one citizen to another. Delivery is monotonic:
/// once delivered, never undelivered.
#[derive(Clone, Debug)]
pub struct TelegramQuery {
    pub id: u32,
    pub to: u32,
    pub from: u32,
    pub timestamp: u32,
    pub message: String,
    pub delivered: bool,
}

/// An ejection of a client address, keyed by IPv4 address as an integer.
#[derive(Clone, Debug)]
pub struct EjectionQuery {
    pub address: u32,
    pub expiration: u32,
    pub creation: u32,
    pub comment: String,
}

} // verus!
