//! The cross-cutting guarantees of the contact subsystem, stated once and
//! proved from what the store's contracts say.

use vstd::prelude::*;
use crate::contact_options::{has_flag, ALL_BLOCKED, FRIEND_REQUEST_ALLOWED, KNOWN_OPTION_BITS};
use crate::database::{citizen_with_name, contact_of, spec_contact_blocked, UniverseDatabase};
use crate::contact::spec_try_add;
use crate::packet::{AWPacket, PacketValue, VarID};
use crate::reason::ReasonCode;
use crate::tabs::is_mutual;

verus! {

/// The two directions of a contact pair are independent rows, and an
/// accepted mutual friendship holds exactly when both directional edges
/// exist with the friend-request group unsettled.
pub proof fn lemma_mutual_friendship(db: UniverseDatabase, a: u32, b: u32)
    ensures
        is_mutual(db, a, b) <==> ((contact_of(db.contacts@, a, b) matches Some(oa) && !has_flag(
            oa.bits,
            FRIEND_REQUEST_ALLOWED,
        )) && (contact_of(db.contacts@, b, a) matches Some(ob) && !has_flag(
            ob.bits,
            FRIEND_REQUEST_ALLOWED,
        ))),
{
}

/// A second friend request across a pair that already has an edge in
/// either direction is refused, whichever side asks: in particular, after
/// one side's request is stored, the other side's opposite request
/// reports that the contact cannot be set.
pub proof fn lemma_repeat_add_refused(db: UniverseDatabase, p: AWPacket, a: u32, b: u32)
    requires
        p.spec_get(VarID::ContactListName) matches Some(PacketValue::Text(nm))
            && citizen_with_name(db.citizens@, nm@) matches Some(c) && c.id == a,
        p.spec_get(VarID::ContactListOptions) matches Some(PacketValue::Uint(_)),
        contact_of(db.contacts@, a, b) is Some || contact_of(db.contacts@, b, a) is Some,
        !(match p.spec_get(VarID::ContactListOptions) {
            Some(PacketValue::Uint(opts)) => spec_contact_blocked(db.contacts@, a, b) && !has_flag(
                opts & KNOWN_OPTION_BITS,
                ALL_BLOCKED,
            ),
            _ => false,
        }),
    ensures
        spec_try_add(Some(b), p, db) == Err::<(u32, u32), ReasonCode>(
            ReasonCode::UnableToSetContact,
        ),
{
}

} // verus!
