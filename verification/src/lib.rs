//! The universe server core for a persistent virtual-worlds network:
//! the connection registry and its sessions, the packet dispatch fabric,
//! the citizen/license/contact/telegram/ejection directory with its
//! relational contract, and the per-player tab views derived from them.
//!
//! The surrounding program owns the sockets, the wire encryption and the
//! numeric encodings; this crate works on decoded packets and plain
//! values, and every function in it is verified against its contract.

pub mod citizen;
pub mod config;
pub mod connection;
pub mod contact;
pub mod contact_options;
pub mod database;
pub mod dispatch;
pub mod eject;
pub mod laws;
pub mod license;
pub mod packet;
pub mod reason;
pub mod records;
pub mod server;
pub mod tabs;
pub mod telegram;
pub mod text;
pub mod timestamp;
pub mod user_list;
pub mod world_name;

use vstd::prelude::*;

verus! {

} // verus!
