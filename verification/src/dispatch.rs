//! The packet dispatch fabric: one inbound packet, one handler, chosen by
//! packet type. Authorization is the handlers' business, not the
//! dispatcher's: a single packet type may be accepted from some roles and
//! refused from others.

use vstd::prelude::*;
use crate::packet::{AWPacket, PacketType};
use crate::server::UniverseServer;

verus! {

/// Routes one decoded packet from the connection to its handler: per
/// packet type the matching handler's whole contract holds of the new
/// state; a packet of an unrecognized type is dropped without effect.
pub fn route_packet(server: &mut UniverseServer, cid: u32, packet: &AWPacket)
    requires
        old(server).wf(),
    ensures
        final(server).wf(),
        match packet.packet_type {
            PacketType::CitizenChange => crate::citizen::citizen_change_post(
                *old(server),
                *final(server),
                cid,
                *packet,
            ),
            PacketType::ContactAdd => crate::contact::contact_add_post(
                *old(server),
                *final(server),
                cid,
                *packet,
            ),
            PacketType::ContactChange => crate::contact::contact_change_post(
                *old(server),
                *final(server),
                cid,
                *packet,
            ),
            PacketType::ContactConfirm => crate::contact::contact_confirm_post(
                *old(server),
                *final(server),
                cid,
                *packet,
            ),
            PacketType::ContactDelete => crate::contact::contact_delete_post(
                *old(server),
                *final(server),
                cid,
                *packet,
            ),
            PacketType::ContactList => crate::contact::contact_list_post(
                *old(server),
                *final(server),
                cid,
                *packet,
            ),
            PacketType::EjectAdd => crate::eject::eject_add_post(
                *old(server),
                *final(server),
                cid,
                *packet,
            ),
            PacketType::EjectLookup => crate::eject::eject_lookup_post(
                *old(server),
                *final(server),
                cid,
                *packet,
            ),
            PacketType::EjectNext => crate::eject::eject_next_post(
                *old(server),
                *final(server),
                cid,
                *packet,
            ),
            PacketType::EjectPrev => crate::eject::eject_prev_post(
                *old(server),
                *final(server),
                cid,
                *packet,
            ),
            PacketType::LicenseAdd => crate::license::license_add_post(
                *old(server),
                *final(server),
                cid,
                *packet,
            ),
            PacketType::LicenseByName => crate::license::license_by_name_post(
                *old(server),
                *final(server),
                cid,
                *packet,
            ),
            PacketType::LicenseChange => crate::license::license_change_post(
                *old(server),
                *final(server),
                cid,
                *packet,
            ),
            PacketType::LicenseNext => crate::license::license_next_post(
                *old(server),
                *final(server),
                cid,
                *packet,
            ),
            PacketType::LicensePrev => crate::license::license_prev_post(
                *old(server),
                *final(server),
                cid,
                *packet,
            ),
            PacketType::SetAfk => crate::contact::set_afk_post(
                *old(server),
                *final(server),
                cid,
                *packet,
            ),
            PacketType::TelegramSend => crate::telegram::telegram_send_post(
                *old(server),
                *final(server),
                cid,
                *packet,
            ),
            PacketType::TelegramDeliver => crate::telegram::telegram_get_post(
                *old(server),
                *final(server),
                cid,
                *packet,
            ),
            PacketType::UserList => crate::user_list::user_list_post(
                *old(server),
                *final(server),
                cid,
                *packet,
            ),
            _ => *final(server) == *old(server),
        },
{
    match packet.packet_type {
        PacketType::CitizenChange => crate::citizen::citizen_change(server, cid, packet),
        PacketType::ContactAdd => crate::contact::contact_add(server, cid, packet),
        PacketType::ContactChange => crate::contact::contact_change(server, cid, packet),
        PacketType::ContactConfirm => crate::contact::contact_confirm(server, cid, packet),
        PacketType::ContactDelete => crate::contact::contact_delete(server, cid, packet),
        PacketType::ContactList => crate::contact::contact_list(server, cid, packet),
        PacketType::EjectAdd => crate::eject::eject_add(server, cid, packet),
        PacketType::EjectLookup => crate::eject::eject_lookup(server, cid, packet),
        PacketType::EjectNext => crate::eject::eject_next(server, cid, packet),
        PacketType::EjectPrev => crate::eject::eject_prev(server, cid, packet),
        PacketType::LicenseAdd => crate::license::license_add(server, cid, packet),
        PacketType::LicenseByName => crate::license::license_by_name(server, cid, packet),
        PacketType::LicenseChange => crate::license::license_change(server, cid, packet),
        PacketType::LicenseNext => crate::license::license_next(server, cid, packet),
        PacketType::LicensePrev => crate::license::license_prev(server, cid, packet),
        PacketType::SetAfk => crate::contact::set_afk(server, cid, packet),
        PacketType::TelegramSend => crate::telegram::telegram_send(server, cid, packet),
        PacketType::TelegramDeliver => crate::telegram::telegram_get(server, cid, packet),
        PacketType::UserList => crate::user_list::user_list(server, cid, packet),
        _ => {},
    }
}

} // verus!
