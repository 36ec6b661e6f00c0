//! Per-contact preference bits.
//!
//! A contact edge `(owner, other)` carries a bitset of options. The bits come
//! in pairs, one pair per preference group. Within each pair the low bit (the
//! `*_BLOCKED` name) is the stored preference — set means the avenue is
//! blocked — and the high bit (the `*_ALLOWED` name, kept from the protocol
//! era) records that the owner has explicitly set the group. In a change
//! delta the high bit selects the group for writing: a group whose high bit
//! is clear in the delta is left untouched by `apply_changes`.

use vstd::prelude::*;

verus! {

/// Friend-request group, stored preference bit. Set on the requester's edge
/// while the request is pending.
pub const FRIEND_REQUEST_BLOCKED: u32 = 0x0001;
/// Friend-request group, explicit-setting bit. An edge with this bit clear
/// is open to confirmation.
pub const FRIEND_REQUEST_ALLOWED: u32 = 0x0002;
/// Telegram group, stored preference bit.
pub const TELEGRAMS_BLOCKED: u32 = 0x0004;
/// Telegram group, explicit-setting bit.
pub const TELEGRAMS_ALLOWED: u32 = 0x0008;
/// Chat group, stored preference bit.
pub const CHAT_BLOCKED: u32 = 0x0010;
/// Chat group, explicit-setting bit.
pub const CHAT_ALLOWED: u32 = 0x0020;
/// Status group, stored preference bit.
pub const STATUS_BLOCKED: u32 = 0x0040;
/// Status group, explicit-setting bit.
pub const STATUS_ALLOWED: u32 = 0x0080;
/// Whole-contact group, stored preference bit: every avenue is blocked.
pub const ALL_BLOCKED: u32 = 0x0100;
/// Whole-contact group, explicit-setting bit.
pub const ALL_ALLOWED: u32 = 0x0200;

/// Every bit that belongs to some preference group.
pub const KNOWN_OPTION_BITS: u32 = 0x03ff;

/// True when every bit of `flag` is set in `bits`.
pub open spec fn has_flag(bits: u32, flag: u32) -> bool {
    bits & flag == flag
}

/// The pairs selected for writing by a change delta: both bits of every
/// group whose explicit-setting bit the delta carries.
pub open spec fn spec_touch_mask(delta: u32) -> u32 {
    (if delta & FRIEND_REQUEST_ALLOWED != 0 {
        0x0003u32
    } else {
        0u32
    }) | (if delta & TELEGRAMS_ALLOWED != 0 {
        0x000cu32
    } else {
        0u32
    }) | (if delta & CHAT_ALLOWED != 0 {
        0x0030u32
    } else {
        0u32
    }) | (if delta & STATUS_ALLOWED != 0 {
        0x00c0u32
    } else {
        0u32
    }) | (if delta & ALL_ALLOWED != 0 {
        0x0300u32
    } else {
        0u32
    })
}

/// Group-wise merge of a change delta into stored options: each group the
/// delta touches is overwritten with the delta's pair, every other group
/// keeps the stored pair.
pub open spec fn spec_apply_changes(orig: u32, delta: u32) -> u32 {
    (orig & !spec_touch_mask(delta)) | (delta & spec_touch_mask(delta))
}

/// The bitset of options stored on one directional contact edge.
#[derive(Clone, Copy, Debug, PartialEq, Eq, Structural)]
pub struct ContactOptions {
    pub bits: u32,
}

impl ContactOptions {
    /// No preference set in any group.
    pub fn empty() -> (r: ContactOptions)
        ensures
            r.bits == 0,
    {
        ContactOptions { bits: 0 }
    }

    /// Accepts a wire value only when it holds no unknown bits.
    pub fn from_bits(bits: u32) -> (r: Option<ContactOptions>)
        ensures
            r matches Some(o) ==> o.bits == bits,
            r is Some <==> bits & !KNOWN_OPTION_BITS == 0,
    {
        if bits & !KNOWN_OPTION_BITS == 0 {
            Some(ContactOptions { bits })
        } else {
            None
        }
    }

    /// Keeps the known bits of a wire value and drops the rest.
    pub fn from_bits_truncate(bits: u32) -> (r: ContactOptions)
        ensures
            r.bits == bits & KNOWN_OPTION_BITS,
    {
        ContactOptions { bits: bits & KNOWN_OPTION_BITS }
    }

    /// The raw bit pattern, as persisted and as sent on the wire.
    pub fn bits(&self) -> (r: u32)
        ensures
            r == self.bits,
    {
        self.bits
    }

    /// True when every bit of `flag` is set.
    pub fn contains(&self, flag: u32) -> (r: bool)
        ensures
            r == has_flag(self.bits, flag),
    {
        self.bits & flag == flag
    }

    /// Sets every bit of `flag`.
    pub fn insert(&mut self, flag: u32)
        ensures
            final(self).bits == old(self).bits | flag,
    {
        self.bits = self.bits | flag;
    }

    /// Clears every bit of `flag`.
    pub fn remove(&mut self, flag: u32)
        ensures
            final(self).bits == old(self).bits & !flag,
    {
        self.bits = self.bits & !flag;
    }

    /// True when the owner of the edge has not explicitly settled the
    /// friend-request group, so a pending request on it may be confirmed.
    pub fn is_friend_request_allowed(&self) -> (r: bool)
        ensures
            r == !has_flag(self.bits, FRIEND_REQUEST_ALLOWED),
    {
        self.bits & FRIEND_REQUEST_ALLOWED != FRIEND_REQUEST_ALLOWED
    }

    /// Merges a change delta into these options, group by group: a group is
    /// overwritten with the delta's pair exactly when the delta carries the
    /// group's explicit-setting bit, and is kept as stored otherwise.
    pub fn apply_changes(&self, delta: ContactOptions) -> (r: ContactOptions)
        ensures
            r.bits == spec_apply_changes(self.bits, delta.bits),
    {
        let mask: u32 = (if delta.bits & FRIEND_REQUEST_ALLOWED != 0 {
            0x0003u32
        } else {
            0u32
        }) | (if delta.bits & TELEGRAMS_ALLOWED != 0 {
            0x000cu32
        } else {
            0u32
        }) | (if delta.bits & CHAT_ALLOWED != 0 {
            0x0030u32
        } else {
            0u32
        }) | (if delta.bits & STATUS_ALLOWED != 0 {
            0x00c0u32
        } else {
            0u32
        }) | (if delta.bits & ALL_ALLOWED != 0 {
            0x0300u32
        } else {
            0u32
        });
        assert(mask == spec_touch_mask(delta.bits));
        ContactOptions { bits: (self.bits & !mask) | (delta.bits & mask) }
    }
}

} // verus!
