//! Contacts: friend requests, confirmation, deletion, option changes, and
//! presence toggling.

use vstd::prelude::*;
use crate::connection::{conn_citizen, conn_exists, lemma_conn_views_at, UniverseConnection};
use crate::contact_options::{has_flag, spec_apply_changes, ContactOptions, ALL_BLOCKED,
    FRIEND_REQUEST_ALLOWED, FRIEND_REQUEST_BLOCKED, KNOWN_OPTION_BITS};
use crate::database::{citizen_with_id, citizen_with_name, contact_of, spec_contact_blocked,
    undelivered_to, UniverseDatabase};
use crate::packet::{find_var, AWPacket, PacketType, PacketValue, VarID};
use crate::reason::ReasonCode;
use crate::records::DatabaseResult;
use crate::server::UniverseServer;
use crate::tabs::{is_mutual, regenerate_contact_list, regenerate_contact_list_and_mutuals};
use crate::timestamp::unix_epoch_timestamp_u32;

verus! {

/// The decimal digit character for a value below ten.
pub open spec fn digit_char(d: int) -> char {
    if d == 0 {
        '0'
    } else if d == 1 {
        '1'
    } else if d == 2 {
        '2'
    } else if d == 3 {
        '3'
    } else if d == 4 {
        '4'
    } else if d == 5 {
        '5'
    } else if d == 6 {
        '6'
    } else if d == 7 {
        '7'
    } else if d == 8 {
        '8'
    } else {
        '9'
    }
}

/// The decimal rendering of a number, most significant digit first, no
/// leading zeroes.
pub open spec fn u32_decimal(n: int) -> Seq<char>
    decreases n,
{
    if n < 10 {
        seq![digit_char(n)]
    } else {
        u32_decimal(n / 10).push(digit_char(n % 10))
    }
}

/// The body of the synthetic telegram that renders a friend request in
/// the client: a newline, a marker byte, the requester's id in
/// parentheses, the requester's name, and a newline. The literal format
/// is the wire contract.
pub open spec fn friend_request_body(from: u32, name: Seq<char>) -> Seq<char> {
    seq!['\n', '\x01', '('] + u32_decimal(from as int) + seq![')'] + name + seq!['\n']
}

/// Relies on format!: renders the requester's id in decimal between the
/// fixed frame characters, followed by the requester's name.
#[verifier::external_body]
fn format_friend_request(from: u32, name: &str) -> (r: String)
    ensures
        r@ == friend_request_body(from, name@),
{
    format!("\n\x01({from}){name}\n")
}

/// The outcome a friend request is owed. A request toward someone who has
/// blocked the requester outright is refused, unless the requester set
/// the whole-contact blocked bit too; a pair with any existing edge in
/// either direction cannot receive a new request.
pub open spec fn spec_try_add(
    cit: Option<u32>,
    p: AWPacket,
    db: UniverseDatabase,
) -> Result<(u32, u32), ReasonCode> {
    match cit {
        None => Err(ReasonCode::NotLoggedIn),
        Some(self_id) => match p.spec_get(VarID::ContactListName) {
            Some(PacketValue::Text(nm)) => match p.spec_get(VarID::ContactListOptions) {
                Some(PacketValue::Uint(opts)) => match citizen_with_name(db.citizens@, nm@) {
                    None => Err(ReasonCode::NoSuchCitizen),
                    Some(target) => if spec_contact_blocked(db.contacts@, target.id, self_id)
                        && !has_flag(opts & KNOWN_OPTION_BITS, ALL_BLOCKED) {
                        Err(ReasonCode::ContactAddBlocked)
                    } else if contact_of(db.contacts@, self_id, target.id) is Some || contact_of(
                        db.contacts@,
                        target.id,
                        self_id,
                    ) is Some {
                        Err(ReasonCode::UnableToSetContact)
                    } else {
                        Ok((self_id, target.id))
                    },
                },
                _ => Err(ReasonCode::NoSuchCitizen),
            },
            _ => Err(ReasonCode::NoSuchCitizen),
        },
    }
}

/// The option bits a pending request is stored with: the requested bits
/// with the friend-request group forced to pending.
pub open spec fn pending_bits(opts: u32) -> u32 {
    ((opts & KNOWN_OPTION_BITS) & !FRIEND_REQUEST_ALLOWED) | FRIEND_REQUEST_BLOCKED
}

/// Validates a friend request and stores the requester's pending edge.
pub fn try_add_contact(
    conn: &UniverseConnection,
    packet: &AWPacket,
    database: &mut UniverseDatabase,
) -> (r: Result<(u32, u32), ReasonCode>)
    requires
        old(database).wf(),
    ensures
        final(database).wf(),
        final(database).citizens@ == old(database).citizens@,
        final(database).licenses@ == old(database).licenses@,
        final(database).telegrams@ == old(database).telegrams@,
        final(database).ejections@ == old(database).ejections@,
        final(database).next_license_id == old(database).next_license_id,
        final(database).next_telegram_id == old(database).next_telegram_id,
        r == spec_try_add(conn.spec_citizen_id(), *packet, *old(database)),
        r is Err ==> final(database).contacts@ == old(database).contacts@,
        r matches Ok((self_id, other)) ==> {
            &&& (packet.spec_get(VarID::ContactListOptions) matches Some(PacketValue::Uint(opts))
                && contact_of(final(database).contacts@, self_id, other) matches Some(o) && o.bits
                == pending_bits(opts))
            &&& forall|a: u32, b: u32|
                !(a == self_id && b == other) ==> contact_of(final(database).contacts@, a, b)
                    == contact_of(old(database).contacts@, a, b)
        },
{
    let citizen_id = match conn.citizen_id() {
        Some(c) => c,
        None => {
            return Err(ReasonCode::NotLoggedIn);
        },
    };
    let contact_name = match packet.get_string(VarID::ContactListName) {
        Some(x) => x,
        None => {
            return Err(ReasonCode::NoSuchCitizen);
        },
    };
    let contact_options = match packet.get_uint(VarID::ContactListOptions) {
        Some(x) => x,
        None => {
            return Err(ReasonCode::NoSuchCitizen);
        },
    };
    let contact_citizen = match database.citizen_by_name(contact_name.as_str()) {
        DatabaseResult::Success(Some(c)) => c,
        _ => {
            return Err(ReasonCode::NoSuchCitizen);
        },
    };
    let mut options = ContactOptions::from_bits_truncate(contact_options);
    let other_has_blocked_you = database.contact_blocked(contact_citizen.id, citizen_id);
    if other_has_blocked_you && !options.contains(ALL_BLOCKED) {
        return Err(ReasonCode::ContactAddBlocked);
    }
    let source_has_contact = match database.contact_get(citizen_id, contact_citizen.id) {
        DatabaseResult::Success(Some(_)) => true,
        _ => false,
    };
    let target_has_contact = match database.contact_get(contact_citizen.id, citizen_id) {
        DatabaseResult::Success(Some(_)) => true,
        _ => false,
    };
    if source_has_contact || target_has_contact {
        return Err(ReasonCode::UnableToSetContact);
    }
    options.remove(FRIEND_REQUEST_ALLOWED);
    options.insert(FRIEND_REQUEST_BLOCKED);
    match database.contact_set(citizen_id, contact_citizen.id, options.bits()) {
        DatabaseResult::Success(_) => Ok((citizen_id, contact_citizen.id)),
        DatabaseResult::DatabaseError => Err(ReasonCode::UnableToSetContact),
    }
}

/// Stores the synthetic friend-request telegram for the target and nudges
/// the target's live connection, best effort.
pub fn alert_friend_request(from: u32, to: u32, server: &mut UniverseServer, now: u32)
    requires
        old(server).wf(),
    ensures
        final(server).wf(),
        final(server).database.citizens@ == old(server).database.citizens@,
        final(server).database.licenses@ == old(server).database.licenses@,
        final(server).database.contacts@ == old(server).database.contacts@,
        final(server).database.ejections@ == old(server).database.ejections@,
        (citizen_with_id(old(server).database.citizens@, from) is Some && old(
            server,
        ).database.next_telegram_id < u32::MAX) ==> undelivered_to(
            final(server).database.telegrams@,
            to,
        ).len() == undelivered_to(old(server).database.telegrams@, to).len() + 1,
        match citizen_with_id(old(server).database.citizens@, from) {
            Some(me) => old(server).database.next_telegram_id < u32::MAX ==> exists|
                p: int,
                t: crate::records::TelegramQuery,
            |
                {
                    &&& 0 <= p <= old(server).database.telegrams@.len()
                    &&& #[trigger] final(server).database.telegrams@ == old(
                        server,
                    ).database.telegrams@.insert(p, t)
                    &&& t.to == to
                    &&& t.from == from
                    &&& t.timestamp == now
                    &&& !t.delivered
                    &&& t.message@ == friend_request_body(from, me.name@)
                },
            None => true,
        },
        forall|c: u32| c != to ==> undelivered_to(final(server).database.telegrams@, c)
            == undelivered_to(old(server).database.telegrams@, c),
        final(server).connections.connections@.len() == old(
            server,
        ).connections.connections@.len(),
        forall|i: int|
            0 <= i < old(server).connections.connections@.len() ==> {
                &&& (#[trigger] final(server).connections.connections@[i]).cid == old(
                    server,
                ).connections.connections@[i].cid
                &&& final(server).connections.connections@[i].address == old(
                    server,
                ).connections.connections@[i].address
                &&& final(server).connections.connections@[i].client == old(
                    server,
                ).connections.connections@[i].client
            },
        forall|i: int|
            0 <= i < old(server).connections.connections@.len() && (#[trigger] old(
                server,
            ).connections.connections@[i]).spec_citizen_id() != Some(to)
                ==> final(server).connections.connections@[i].outgoing@ == old(
                server,
            ).connections.connections@[i].outgoing@,
        forall|i: int|
            0 <= i < old(server).connections.connections@.len() ==> {
                let q0 = old(server).connections.connections@[i].outgoing@;
                let q1 = (#[trigger] final(server).connections.connections@[i]).outgoing@;
                &&& q1.len() >= q0.len()
                &&& q1.take(q0.len() as int) == q0
                &&& forall|m: int|
                    q0.len() <= m < q1.len() ==> (#[trigger] q1[m]).packet_type
                        == PacketType::TelegramNotify
            },
{
    let citizen = match server.database.citizen_by_number(from) {
        DatabaseResult::Success(Some(c)) => c,
        _ => {
            return ;
        },
    };
    let body = format_friend_request(from, citizen.name.as_str());
    match server.database.telegram_add(to, from, now, body.as_str()) {
        DatabaseResult::Success(_) => {},
        DatabaseResult::DatabaseError => {
            return ;
        },
    }
    let ghost spre = server.connections.connections@;
    match server.connections.get_by_citizen_id(to) {
        Some(target_cid) => {
            crate::telegram::send_telegram_update_available(server, target_cid);
        },
        None => {},
    }
    proof {
        let s1 = server.connections.connections@;
        assert forall|i: int| 0 <= i < spre.len() implies {
            let q0 = spre[i].outgoing@;
            let q1 = (#[trigger] s1[i]).outgoing@;
            &&& q1.len() >= q0.len()
            &&& q1.take(q0.len() as int) == q0
            &&& forall|m: int|
                q0.len() <= m < q1.len() ==> (#[trigger] q1[m]).packet_type
                    == PacketType::TelegramNotify
        } by {
            if s1[i].outgoing@ == spre[i].outgoing@ {
                assert(s1[i].outgoing@.take(spre[i].outgoing@.len() as int)
                    =~= spre[i].outgoing@);
            }
        }
    }
}

/// The requester's queue after a friend request: exactly one ContactAdd
/// response was queued, carrying the reason code — and on success the
/// target's id; everything else queued alongside is a telegram
/// notification or a contact tab line.
pub open spec fn contact_add_response_region(
    q0: Seq<AWPacket>,
    q1: Seq<AWPacket>,
    rc: ReasonCode,
    target: Option<u32>,
) -> bool {
    &&& q1.len() > q0.len()
    &&& q1.take(q0.len() as int) == q0
    &&& exists|m0: int|
        {
            &&& q0.len() <= m0 < q1.len()
            &&& (#[trigger] q1[m0]).packet_type == PacketType::ContactAdd
            &&& find_var(q1[m0].vars@, VarID::ReasonCode) == Some(PacketValue::Reason(rc))
            &&& match target {
                Some(t) => find_var(q1[m0].vars@, VarID::ContactListCitizenID) == Some(
                    PacketValue::Uint(t),
                ),
                None => true,
            }
            &&& forall|m: int|
                q0.len() <= m < q1.len() && m != m0 ==> ((#[trigger] q1[m]).packet_type
                    == PacketType::TelegramNotify || q1[m].packet_type == PacketType::ContactList)
        }
}

/// Everything `contact_add_at` promises at one clock reading, as one
/// predicate over the server states.
pub open spec fn contact_add_at_post(pre: UniverseServer, post: UniverseServer, cid: u32, packet: AWPacket, now: u32) -> bool {
    &&& (post.wf())
    &&& (post.database.citizens@ == pre.database.citizens@)
    &&& (post.database.licenses@ == pre.database.licenses@)
    &&& (post.database.ejections@ == pre.database.ejections@)
    &&& (!conn_exists(pre.connections.connections@, cid) ==> post.connections
            == pre.connections && post.database == pre.database)
    &&& (conn_exists(pre.connections.connections@, cid) ==> {
            let s0 = pre.connections.connections@;
            let s1 = post.connections.connections@;
            let db0 = pre.database;
            let db1 = post.database;
            &&& match spec_try_add(conn_citizen(s0, cid), packet, db0) {
                Err(e) => {
                    &&& db1.contacts@ == db0.contacts@
                    &&& db1.telegrams@ == db0.telegrams@
                    &&& forall|i: int|
                        0 <= i < s0.len() && (#[trigger] s0[i]).cid == cid
                            ==> contact_add_response_region(
                            s0[i].outgoing@,
                            s1[i].outgoing@,
                            e,
                            None,
                        )
                },
                Ok((self_id, other)) => {
                    &&& (packet.spec_get(VarID::ContactListOptions) matches Some(
                        PacketValue::Uint(opts),
                    ) && contact_of(db1.contacts@, self_id, other) matches Some(o) && o.bits
                        == pending_bits(opts))
                    &&& forall|a: u32, b: u32|
                        !(a == self_id && b == other) ==> contact_of(db1.contacts@, a, b)
                            == contact_of(db0.contacts@, a, b)
                    &&& (citizen_with_id(db0.citizens@, self_id) is Some
                        && db0.next_telegram_id < u32::MAX) ==> undelivered_to(
                        db1.telegrams@,
                        other,
                    ).len() == undelivered_to(db0.telegrams@, other).len() + 1
                    &&& forall|i: int|
                        0 <= i < s0.len() && (#[trigger] s0[i]).cid == cid
                            ==> contact_add_response_region(
                            s0[i].outgoing@,
                            s1[i].outgoing@,
                            ReasonCode::Success,
                            Some(other),
                        )
                },
            }
        })
}

/// Handles a friend request at a known clock reading: stores the pending
/// edge, tells the target, answers the requester, and refreshes the
/// requester's contact tab.
pub fn contact_add_at(server: &mut UniverseServer, cid: u32, packet: &AWPacket, now: u32)
    requires
        old(server).wf(),
    ensures
        contact_add_at_post(*old(server), *final(server), cid, *packet, now),
{
    let idx = match server.connections.index_by_cid(cid) {
        Some(i) => i,
        None => {
            return ;
        },
    };
    proof {
        lemma_conn_views_at(server.connections.connections@, idx as int, cid);
    }
    let outcome = {
        let conn = &server.connections.connections[idx];
        try_add_contact(conn, packet, &mut server.database)
    };
    let mut response = AWPacket::new(PacketType::ContactAdd);
    let rc: ReasonCode;
    match outcome {
        Ok((cit_id, cont_id)) => {
            alert_friend_request(cit_id, cont_id, server, now);
            response.add_uint(VarID::ContactListCitizenID, cont_id);
            rc = ReasonCode::Success;
        },
        Err(x) => {
            rc = x;
        },
    }
    response.add_reason(rc);
    proof {
        if response.vars@.len() == 2 {
            crate::packet::lemma_find_var_at(response.vars@, VarID::ContactListCitizenID, 0);
            crate::packet::lemma_find_var_at(response.vars@, VarID::ReasonCode, 1);
        } else {
            crate::packet::lemma_find_var_at(response.vars@, VarID::ReasonCode, 0);
        }
    }
    proof {
        assert(server.connections.connections@[idx as int].cid == cid);
    }
    let ghost s0g = old(server).connections.connections@;
    let ghost sa = server.connections.connections@;
    server.connections.respond_packet(idx, response);
    let ghost sb = server.connections.connections@;
    proof {
        assert forall|i: int| 0 <= i < sa.len() && (#[trigger] sa[i]).cid == cid implies
            sb[i].outgoing@ == sa[i].outgoing@.push(response) by {}
    }
    regenerate_contact_list(server, cid);
    proof {
        let s1 = server.connections.connections@;
        assert forall|i: int| 0 <= i < s0g.len() && (#[trigger] s0g[i]).cid == cid implies
            contact_add_response_region(s0g[i].outgoing@, s1[i].outgoing@, rc, match outcome {
                Ok((c, o)) => Some(o),
                Err(_) => None,
            }) by {
            assert(i == idx as int);
            let q0 = s0g[i].outgoing@;
            let qa = sa[i].outgoing@;
            let qb = sb[i].outgoing@;
            let q1 = s1[i].outgoing@;
            assert(qb == qa.push(response));
            assert(q1.take(qb.len() as int) == qb);
            assert(qa.len() >= q0.len() && qa.take(q0.len() as int) == q0);
            let m0 = qa.len() as int;
            assert(q1[m0] == qb[m0]);
            assert(qb[m0] == response);
            assert(q1.take(q0.len() as int) =~= q0) by {
                assert forall|m: int| 0 <= m < q0.len() implies q1[m] == q0[m] by {
                    assert(q1[m] == q1.take(qb.len() as int)[m]);
                    assert(qb[m] == qa[m]);
                    assert(qa[m] == qa.take(q0.len() as int)[m]);
                }
            }
            assert forall|m: int| q0.len() <= m < q1.len() && m != m0 implies ((
            #[trigger] q1[m]).packet_type == PacketType::TelegramNotify || q1[m].packet_type
                == PacketType::ContactList) by {
                if m < qa.len() {
                    assert(q1[m] == q1.take(qb.len() as int)[m]);
                    assert(qb[m] == qa[m]);
                    assert(qa[m].packet_type == PacketType::TelegramNotify);
                } else if m < qb.len() {
                    assert(false);
                } else {
                    assert(q1[m].packet_type == PacketType::ContactList);
                }
            }
            assert(q0.len() <= m0 < q1.len() && q1[m0].packet_type == PacketType::ContactAdd
                && find_var(q1[m0].vars@, VarID::ReasonCode) == Some(PacketValue::Reason(rc))
                && match (match outcome {
                Ok((c, o)) => Some(o),
                Err(_) => None,
            }) {
                Some(t) => find_var(q1[m0].vars@, VarID::ContactListCitizenID) == Some(
                    PacketValue::Uint(t),
                ),
                None => true,
            });
        }
    }
}

/// Everything `contact_add` promises, as one predicate over the server
/// states; the dispatcher promises it per packet type.
pub open spec fn contact_add_post(pre: UniverseServer, post: UniverseServer, cid: u32, packet: AWPacket) -> bool {
    exists|t: u32| #[trigger] contact_add_at_post(pre, post, cid, packet, t)
}

/// Handles a friend request: reads the clock and hands on.
pub fn contact_add(server: &mut UniverseServer, cid: u32, packet: &AWPacket)
    requires
        old(server).wf(),
    ensures
        contact_add_post(*old(server), *final(server), cid, *packet),
{
    let now = unix_epoch_timestamp_u32();
    contact_add_at(server, cid, packet, now);
}

/// Whether a confirm request is a denial: the options variable carries a
/// signed minus one, or is absent altogether.
pub open spec fn is_deny(p: AWPacket) -> bool {
    ||| p.spec_get(VarID::ContactListOptions) == Some(PacketValue::Int(-1i32))
    ||| p.spec_get(VarID::ContactListOptions) is None
}

/// The outcome a confirmation is owed: a denial — explicit, or an absent
/// options variable — is silently accepted; an acceptance needs a pending
/// edge from the other citizen whose friend-request group is open.
pub open spec fn spec_try_confirm(
    cit: Option<u32>,
    p: AWPacket,
    db: UniverseDatabase,
) -> Result<(), ReasonCode> {
    match cit {
        None => Err(ReasonCode::NotLoggedIn),
        Some(self_id) => match p.spec_get(VarID::ContactListCitizenID) {
            Some(PacketValue::Uint(other)) => if is_deny(p) {
                Ok(())
            } else {
                match p.spec_get(VarID::ContactListOptions) {
                    Some(PacketValue::Uint(_)) => match contact_of(db.contacts@, other, self_id) {
                        None => Err(ReasonCode::UnableToSetContact),
                        Some(o) => if has_flag(o.bits, FRIEND_REQUEST_ALLOWED) {
                            Err(ReasonCode::UnableToSetContact)
                        } else {
                            Ok(())
                        },
                    },
                    _ => Err(ReasonCode::NoSuchCitizen),
                }
            },
            _ => Err(ReasonCode::NoSuchCitizen),
        },
    }
}

/// Confirms or denies a pending friend request. A confirmed pair gets
/// both directional edges cleared to zero: a mutual friendship,
/// whatever options the confirmation carried.
pub fn try_contact_confirm(
    conn: &UniverseConnection,
    packet: &AWPacket,
    database: &mut UniverseDatabase,
) -> (r: Result<(), ReasonCode>)
    requires
        old(database).wf(),
    ensures
        final(database).wf(),
        final(database).citizens@ == old(database).citizens@,
        final(database).licenses@ == old(database).licenses@,
        final(database).telegrams@ == old(database).telegrams@,
        final(database).ejections@ == old(database).ejections@,
        final(database).next_license_id == old(database).next_license_id,
        final(database).next_telegram_id == old(database).next_telegram_id,
        r == spec_try_confirm(conn.spec_citizen_id(), *packet, *old(database)),
        r is Err || is_deny(*packet) ==> final(database).contacts@ == old(database).contacts@,
        match (conn.spec_citizen_id(), packet.spec_get(VarID::ContactListCitizenID)) {
            (Some(self_id), Some(PacketValue::Uint(other))) => (r is Ok && !is_deny(*packet))
                ==> {
                &&& (contact_of(final(database).contacts@, self_id, other) matches Some(oa)
                    && oa.bits == 0)
                &&& (contact_of(final(database).contacts@, other, self_id) matches Some(ob)
                    && ob.bits == 0)
                &&& is_mutual(*final(database), self_id, other)
                &&& forall|a: u32, b: u32|
                    !(a == self_id && b == other) && !(a == other && b == self_id) ==> contact_of(
                        final(database).contacts@,
                        a,
                        b,
                    ) == contact_of(old(database).contacts@, a, b)
            },
            _ => true,
        },
{
    let citizen_id = match conn.citizen_id() {
        Some(c) => c,
        None => {
            return Err(ReasonCode::NotLoggedIn);
        },
    };
    let contact_id = match packet.get_uint(VarID::ContactListCitizenID) {
        Some(x) => x,
        None => {
            return Err(ReasonCode::NoSuchCitizen);
        },
    };
    match packet.get_int(VarID::ContactListOptions) {
        Some(x) => {
            if x == -1 {
                // An explicit denial: accepted silently, nothing stored.
                return Ok(());
            }
        },
        None => {
            if !packet.has_var(VarID::ContactListOptions) {
                // No options at all: a denial too, accepted silently.
                return Ok(());
            }
        },
    }
    match packet.get_uint(VarID::ContactListOptions) {
        Some(_) => {},
        None => {
            return Err(ReasonCode::NoSuchCitizen);
        },
    }
    let target_options = match database.contact_get(contact_id, citizen_id) {
        DatabaseResult::Success(Some(c)) => c.options,
        _ => {
            return Err(ReasonCode::UnableToSetContact);
        },
    };
    if !target_options.is_friend_request_allowed() {
        return Err(ReasonCode::UnableToSetContact);
    }
    match database.contact_set(citizen_id, contact_id, 0) {
        DatabaseResult::Success(_) => {},
        DatabaseResult::DatabaseError => {
            return Err(ReasonCode::UnableToSetContact);
        },
    }
    match database.contact_set(contact_id, citizen_id, 0) {
        DatabaseResult::Success(_) => {},
        DatabaseResult::DatabaseError => {
            return Err(ReasonCode::UnableToSetContact);
        },
    }
    proof {
        assert((0u32 & 0x0002u32) == 0x0000u32) by (bit_vector);
        assert(!has_flag(0u32, FRIEND_REQUEST_ALLOWED));
    }
    Ok(())
}

/// Everything `contact_confirm` promises, as one predicate over the server
/// states; the dispatcher promises it per packet type.
pub open spec fn contact_confirm_post(pre: UniverseServer, post: UniverseServer, cid: u32, packet: AWPacket) -> bool {
    &&& (post.wf())
    &&& (post.database.citizens@ == pre.database.citizens@)
    &&& (post.database.licenses@ == pre.database.licenses@)
    &&& (post.database.telegrams@ == pre.database.telegrams@)
    &&& (post.database.ejections@ == pre.database.ejections@)
    &&& (!conn_exists(pre.connections.connections@, cid) ==> post.connections
            == pre.connections && post.database == pre.database)
    &&& (conn_exists(pre.connections.connections@, cid) ==> {
            let s0 = pre.connections.connections@;
            let s1 = post.connections.connections@;
            let db0 = pre.database;
            let db1 = post.database;
            &&& (spec_try_confirm(conn_citizen(s0, cid), packet, db0) is Err || is_deny(packet))
                ==> db1.contacts@ == db0.contacts@
            &&& match (conn_citizen(s0, cid), packet.spec_get(VarID::ContactListCitizenID)) {
                (Some(self_id), Some(PacketValue::Uint(other))) => (spec_try_confirm(
                    conn_citizen(s0, cid),
                    packet,
                    db0,
                ) is Ok && !is_deny(packet)) ==> is_mutual(db1, self_id, other),
                _ => true,
            }
            &&& forall|i: int|
                0 <= i < s0.len() && (#[trigger] s0[i]).cid == cid ==> {
                    &&& s1[i].outgoing@.len() > s0[i].outgoing@.len()
                    &&& s1[i].outgoing@[s0[i].outgoing@.len() as int].packet_type
                        == PacketType::ContactConfirm
                    &&& find_var(
                        s1[i].outgoing@[s0[i].outgoing@.len() as int].vars@,
                        VarID::ReasonCode,
                    ) == Some(
                        PacketValue::Reason(
                            match spec_try_confirm(conn_citizen(s0, cid), packet, db0) {
                                Ok(_) => ReasonCode::Success,
                                Err(e) => e,
                            },
                        ),
                    )
                }
        })
}

/// Handles a confirmation: applies it, answers, and refreshes this
/// player's contact tab and the mutuals' tabs.
pub fn contact_confirm(server: &mut UniverseServer, cid: u32, packet: &AWPacket)
    requires
        old(server).wf(),
    ensures
        contact_confirm_post(*old(server), *final(server), cid, *packet),
{
    let idx = match server.connections.index_by_cid(cid) {
        Some(i) => i,
        None => {
            return ;
        },
    };
    proof {
        lemma_conn_views_at(server.connections.connections@, idx as int, cid);
    }
    let outcome = {
        let conn = &server.connections.connections[idx];
        try_contact_confirm(conn, packet, &mut server.database)
    };
    let rc = match outcome {
        Ok(_) => ReasonCode::Success,
        Err(x) => x,
    };
    server.connections.respond(idx, PacketType::ContactConfirm, rc);
    regenerate_contact_list_and_mutuals(server, cid);
}

/// Everything `contact_delete` promises, as one predicate over the server
/// states; the dispatcher promises it per packet type.
pub open spec fn contact_delete_post(pre: UniverseServer, post: UniverseServer, cid: u32, packet: AWPacket) -> bool {
    &&& (post.wf())
    &&& (post.database.citizens@ == pre.database.citizens@)
    &&& (post.database.licenses@ == pre.database.licenses@)
    &&& (post.database.telegrams@ == pre.database.telegrams@)
    &&& (post.database.ejections@ == pre.database.ejections@)
    &&& (!(packet.spec_get(VarID::ContactListCitizenID) matches Some(PacketValue::Uint(_))) ==> (
        post.connections == pre.connections && post.database == pre.database))
    &&& (conn_exists(pre.connections.connections@, cid) ==> match (
            conn_citizen(pre.connections.connections@, cid),
            packet.spec_get(VarID::ContactListCitizenID),
        ) {
            (Some(self_id), Some(PacketValue::Uint(other))) => {
            let s0 = pre.connections.connections@;
            let db0 = pre.database;
            let db1 = post.database;
            {
                &&& contact_of(db1.contacts@, self_id, other) is None
                &&& !spec_contact_blocked(db0.contacts@, other, self_id) ==> contact_of(
                    db1.contacts@,
                    other,
                    self_id,
                ) is None
                &&& (spec_contact_blocked(db0.contacts@, other, self_id) && other != self_id)
                    ==> contact_of(db1.contacts@, other, self_id) == contact_of(
                    db0.contacts@,
                    other,
                    self_id,
                )
                &&& forall|a: u32, b: u32|
                    !(a == self_id && b == other) && !(a == other && b == self_id) ==> contact_of(
                        db1.contacts@,
                        a,
                        b,
                    ) == contact_of(db0.contacts@, a, b)
                &&& forall|i: int|
                    0 <= i < s0.len() && (#[trigger] s0[i]).cid == cid ==> {
                        let s1c = post.connections.connections@;
                        &&& s1c[i].outgoing@.len() > s0[i].outgoing@.len()
                        &&& s1c[i].outgoing@[s0[i].outgoing@.len() as int].packet_type
                            == PacketType::ContactDelete
                        &&& find_var(
                            s1c[i].outgoing@[s0[i].outgoing@.len() as int].vars@,
                            VarID::ReasonCode,
                        ) == Some(PacketValue::Reason(ReasonCode::Success))
                    }
                &&& forall|i: int|
                    0 <= i < s0.len() && (#[trigger] s0[i]).cid == cid
                        ==> match post.connections.connections@[i].client {
                        Some(crate::connection::ClientInfo::Player(p1)) => crate::tabs::tab_matches(
                            db1,
                            post.connections.connections@,
                            self_id,
                            p1.tabs.contact_list.current@,
                        ),
                        _ => false,
                    }
                &&& forall|i: int|
                    0 <= i < s0.len() && (#[trigger] s0[i]).cid != cid
                        && s0[i].spec_citizen_id() == Some(other)
                        ==> match post.connections.connections@[i].client {
                        Some(crate::connection::ClientInfo::Player(p1)) => crate::tabs::tab_matches(
                            db1,
                            post.connections.connections@,
                            other,
                            p1.tabs.contact_list.current@,
                        ),
                        _ => false,
                    }
            }
            },
            _ => true,
        })
}

/// Handles an unfriending: removes this player's edge, and the other
/// side's edge too unless the other side has blocked this player; then
/// refreshes both contact tabs.
pub fn contact_delete(server: &mut UniverseServer, cid: u32, packet: &AWPacket)
    requires
        old(server).wf(),
    ensures
        contact_delete_post(*old(server), *final(server), cid, *packet),
{
    let other_cit_id = match packet.get_uint(VarID::ContactListCitizenID) {
        Some(x) => x,
        None => {
            return ;
        },
    };
    let idx = match server.connections.index_by_cid(cid) {
        Some(i) => i,
        None => {
            return ;
        },
    };
    proof {
        lemma_conn_views_at(server.connections.connections@, idx as int, cid);
    }
    let self_cit_id = match {
        let conn = &server.connections.connections[idx];
        conn.citizen_id()
    } {
        Some(c) => c,
        None => {
            return ;
        },
    };
    let blocked_by_other_person = server.database.contact_blocked(other_cit_id, self_cit_id);
    let rc: ReasonCode = match server.database.contact_delete(self_cit_id, other_cit_id) {
        DatabaseResult::Success(_) => {
            if !blocked_by_other_person {
                let _ = server.database.contact_delete(other_cit_id, self_cit_id);
            }
            ReasonCode::Success
        },
        DatabaseResult::DatabaseError => ReasonCode::UnableToSetContact,
    };
    let ghost s0g = old(server).connections.connections@;
    let ghost dbg = server.database;
    server.connections.respond(idx, PacketType::ContactDelete, rc);
    let ghost sa = server.connections.connections@;
    proof {
        assert(crate::connection::same_presence(s0g, sa)) by {
            assert forall|j: int| 0 <= j < s0g.len() implies (#[trigger] sa[j]).spec_citizen_id()
                == s0g[j].spec_citizen_id() && match (s0g[j].client, sa[j].client) {
                (
                    Some(crate::connection::ClientInfo::Player(pa)),
                    Some(crate::connection::ClientInfo::Player(pb)),
                ) => pb.afk == pa.afk,
                (Some(crate::connection::ClientInfo::Player(_)), _) => false,
                (x, y) => y == x,
            } by {
                assert(sa[j].client == s0g[j].client);
                assert(sa[j].spec_citizen_id() == s0g[j].spec_citizen_id());
            }
        }
        assert(sa[idx as int].cid == cid);
        crate::connection::lemma_conn_views_at(sa, idx as int, cid);
    }
    regenerate_contact_list(server, cid);
    let ghost sb = server.connections.connections@;
    match server.connections.get_by_citizen_id(other_cit_id) {
        Some(other_cid) => {
            regenerate_contact_list(server, other_cid);
        },
        None => {},
    }
    proof {
        let s1 = server.connections.connections@;
        crate::connection::lemma_same_presence_trans(s0g, sa, sb);
        crate::connection::lemma_same_presence_trans(
            s0g,
            sb,
            s1,
        );
        assert forall|i: int| 0 <= i < s0g.len() && (#[trigger] s0g[i]).cid == cid implies
            match s1[i].client {
            Some(crate::connection::ClientInfo::Player(p1)) => crate::tabs::tab_matches(
                dbg,
                s1,
                self_cit_id,
                p1.tabs.contact_list.current@,
            ),
            _ => false,
        } by {
            assert(i == idx as int);
            if s1[i].client == sb[i].client {
                // The second regeneration did not touch this connection.
                match sb[i].client {
                    Some(crate::connection::ClientInfo::Player(p1)) => {
                        assert(crate::tabs::tab_matches(
                            dbg,
                            sa,
                            self_cit_id,
                            p1.tabs.contact_list.current@,
                        ));
                        crate::connection::lemma_same_presence_sym(s0g, sa);
                        crate::connection::lemma_same_presence_trans(sa, s0g, s1);
                        crate::tabs::lemma_tab_matches_presence(
                            dbg,
                            sa,
                            s1,
                            self_cit_id,
                            p1.tabs.contact_list.current@,
                        );
                    },
                    _ => {
                        assert(false);
                    },
                }
            } else {
                // The second regeneration replaced this connection's tab:
                // it targeted this very connection.
                assert(sb[i].cid == cid);
                match s1[i].client {
                    Some(crate::connection::ClientInfo::Player(p1)) => {
                        assert(crate::connection::conn_citizen(sb, cid)
                            == sb[i].spec_citizen_id());
                        assert(crate::tabs::tab_matches(
                            dbg,
                            sb,
                            self_cit_id,
                            p1.tabs.contact_list.current@,
                        ));
                        crate::connection::lemma_same_presence_sym(s0g, sb);
                        crate::connection::lemma_same_presence_trans(sb, s0g, s1);
                        crate::tabs::lemma_tab_matches_presence(
                            dbg,
                            sb,
                            s1,
                            self_cit_id,
                            p1.tabs.contact_list.current@,
                        );
                    },
                    _ => {
                        assert(false);
                    },
                }
            }
        }
    }
}

/// Everything `contact_change` promises, as one predicate over the server
/// states; the dispatcher promises it per packet type.
pub open spec fn contact_change_post(pre: UniverseServer, post: UniverseServer, cid: u32, packet: AWPacket) -> bool {
    &&& (post.wf())
    &&& (post.database.licenses@ == pre.database.licenses@)
    &&& (post.database.telegrams@ == pre.database.telegrams@)
    &&& (post.database.ejections@ == pre.database.ejections@)
    &&& (!(packet.spec_get(VarID::ContactListOptions) matches Some(PacketValue::Uint(delta))
            && (delta & !KNOWN_OPTION_BITS) == 0) ==> (post.connections == pre.connections && post.database == pre.database))
    &&& (!(packet.spec_get(VarID::ContactListCitizenID) matches Some(PacketValue::Uint(_))) ==> (
        post.connections == pre.connections && post.database == pre.database))
    &&& ((conn_exists(pre.connections.connections@, cid) && conn_citizen(
            pre.connections.connections@,
            cid,
        ) is None) ==> (post.connections == pre.connections
            && post.database == pre.database))
    &&& (conn_exists(pre.connections.connections@, cid) ==> match (
            conn_citizen(pre.connections.connections@, cid),
            packet.spec_get(VarID::ContactListOptions),
            packet.spec_get(VarID::ContactListCitizenID),
        ) {
            (Some(self_id), Some(PacketValue::Uint(delta)), Some(PacketValue::Uint(other))) => (
            delta & !KNOWN_OPTION_BITS) == 0 ==> {
            let db0 = pre.database;
            let db1 = post.database;
            &&& (contact_of(db0.contacts@, self_id, other) is None && other != 0)
                ==> (post.connections == pre.connections && db1 == db0)
            &&& (contact_of(db0.contacts@, self_id, other) is Some || other == 0) ==> {
                let orig = match contact_of(db0.contacts@, self_id, other) {
                    Some(o) => o.bits,
                    None => 0u32,
                };
                &&& !(has_flag(spec_apply_changes(orig, delta), ALL_BLOCKED) && other == self_id) ==> (contact_of(
                    db1.contacts@,
                    self_id,
                    other,
                ) matches Some(o1) && o1.bits == spec_apply_changes(orig, delta))
                &&& (has_flag(spec_apply_changes(orig, delta), ALL_BLOCKED) && other != self_id) ==> contact_of(
                    db1.contacts@,
                    other,
                    self_id,
                ) is None
                &&& (!has_flag(spec_apply_changes(orig, delta), ALL_BLOCKED) && !(other == self_id)) ==> contact_of(
                    db1.contacts@,
                    other,
                    self_id,
                ) == contact_of(db0.contacts@, other, self_id)
                &&& forall|a: u32, b: u32|
                    !(a == self_id && b == other) && !(a == other && b == self_id) ==> contact_of(
                        db1.contacts@,
                        a,
                        b,
                    ) == contact_of(db0.contacts@, a, b)
                &&& (other == 0 && citizen_with_id(db0.citizens@, self_id) is Some)
                    ==> match citizen_with_id(db1.citizens@, self_id) {
                    Some(c) => c.privacy == spec_apply_changes(orig, delta),
                    None => false,
                }
                &&& other != 0 ==> db1.citizens@ == db0.citizens@
            }
            },
            _ => true,
        })
}

/// Handles an option change. A zero target updates the player's default
/// mask and persists it to the account's privacy field; otherwise the
/// delta is merged into the existing edge. When the merged options block
/// the contact outright, the other side's edge is removed too.
#[verifier::rlimit(100)]
pub fn contact_change(server: &mut UniverseServer, cid: u32, packet: &AWPacket)
    requires
        old(server).wf(),
    ensures
        contact_change_post(*old(server), *final(server), cid, *packet),
{
    let option_changes = match packet.get_uint(VarID::ContactListOptions) {
        Some(x) => match ContactOptions::from_bits(x) {
            Some(o) => o,
            None => {
                return ;
            },
        },
        None => {
            return ;
        },
    };
    let contact_cit_id = match packet.get_uint(VarID::ContactListCitizenID) {
        Some(x) => x,
        None => {
            return ;
        },
    };
    let idx = match server.connections.index_by_cid(cid) {
        Some(i) => i,
        None => {
            return ;
        },
    };
    proof {
        lemma_conn_views_at(server.connections.connections@, idx as int, cid);
    }
    let self_citizen_id = match {
        let conn = &server.connections.connections[idx];
        conn.citizen_id()
    } {
        Some(c) => c,
        None => {
            return ;
        },
    };
    let original_options = match server.database.contact_get(self_citizen_id, contact_cit_id) {
        DatabaseResult::Success(Some(q)) => q.options,
        _ => {
            if contact_cit_id == 0 {
                ContactOptions::empty()
            } else {
                return ;
            }
        },
    };
    let new_options = original_options.apply_changes(option_changes);
    let _ = server.database.contact_set(self_citizen_id, contact_cit_id, new_options.bits());
    if new_options.contains(ALL_BLOCKED) {
        let _ = server.database.contact_delete(contact_cit_id, self_citizen_id);
    }
    if contact_cit_id == 0 {
        match server.database.citizen_by_number(self_citizen_id) {
            DatabaseResult::Success(Some(cit_q)) => {
                let mut cit_q = cit_q;
                cit_q.privacy = new_options.bits();
                proof {
                    let cs = server.database.citizens@;
                    crate::database::lemma_citizen_with_name_index(cs, cit_q.name@);
                    assert forall|j: int|
                        0 <= j < cs.len() && crate::text::eq_ignore_case(
                            (#[trigger] cs[j]).name@,
                            cit_q.name@,
                        ) implies cs[j].id == cit_q.id by {
                        match citizen_with_name(cs, cit_q.name@) {
                            Some(c) => {
                                let k = choose|k: int|
                                    0 <= k < cs.len() && cs[k] == c && crate::text::eq_ignore_case(
                                        cs[k].name@,
                                        cit_q.name@,
                                    );
                                crate::database::lemma_citizen_with_id_index(cs, cit_q.id);
                                if j != k {
                                    if j < k {
                                        assert(!crate::text::eq_ignore_case(
                                            cs[j].name@,
                                            cs[k].name@,
                                        ));
                                    } else {
                                        assert(!crate::text::eq_ignore_case(
                                            cs[k].name@,
                                            cs[j].name@,
                                        ));
                                    }
                                    crate::database::lemma_eq_ignore_case_facts(
                                        cs[j].name@,
                                        cs[k].name@,
                                        cit_q.name@,
                                    );
                                    assert(false);
                                }
                            },
                            None => {},
                        }
                    }
                }
                let _ = server.database.citizen_change(&cit_q);
            },
            _ => {},
        }
    }
    regenerate_contact_list_and_mutuals(server, cid);
}

/// Everything `set_afk` promises, as one predicate over the server
/// states; the dispatcher promises it per packet type.
pub open spec fn set_afk_post(pre: UniverseServer, post: UniverseServer, cid: u32, packet: AWPacket) -> bool {
    &&& (post.wf())
    &&& (post.database.citizens@ == pre.database.citizens@)
    &&& (post.database.licenses@ == pre.database.licenses@)
    &&& (post.database.contacts@ == pre.database.contacts@)
    &&& (post.database.telegrams@ == pre.database.telegrams@)
    &&& (post.database.ejections@ == pre.database.ejections@)
    &&& (!(packet.spec_get(VarID::AFKStatus) matches Some(PacketValue::Uint(_)))
            ==> (post.connections == pre.connections && post.database
            == pre.database))
    &&& (conn_exists(pre.connections.connections@, cid) ==> match (
            conn_citizen(pre.connections.connections@, cid),
            packet.spec_get(VarID::AFKStatus),
        ) {
            (Some(owner0), Some(PacketValue::Uint(status))) => {
            let s0 = pre.connections.connections@;
            let s1 = post.connections.connections@;
            &&& forall|i: int|
                0 <= i < s0.len() && (#[trigger] s0[i]).cid == cid ==> match s1[i].client {
                    Some(crate::connection::ClientInfo::Player(p1)) => p1.afk == (status != 0),
                    _ => false,
                }
            &&& forall|j: int|
                0 <= j < s0.len() && (#[trigger] s0[j]).cid != cid && !(match s0[j].spec_citizen_id() {
                    Some(c) => is_mutual(pre.database, owner0, c),
                    _ => false,
                }) ==> s1[j] == s0[j]
            &&& forall|j: int|
                0 <= j < s0.len() && (#[trigger] s0[j]).cid != cid ==> match s0[j].spec_citizen_id() {
                    Some(c) => (c != 0 && is_mutual(pre.database, owner0, c))
                        ==> match s1[j].client {
                        Some(crate::connection::ClientInfo::Player(p1)) => crate::tabs::tab_matches(
                            pre.database,
                            s1,
                            c,
                            p1.tabs.contact_list.current@,
                        ),
                        _ => false,
                    },
                    None => true,
                }
            },
            _ => true,
        })
}

/// Handles a presence toggle: flips the away flag on the citizen session
/// and refreshes this player's contact tab and every online mutual
/// friend's, so their lists show the change; other connections see
/// nothing.
pub fn set_afk(server: &mut UniverseServer, cid: u32, packet: &AWPacket)
    requires
        old(server).wf(),
    ensures
        set_afk_post(*old(server), *final(server), cid, *packet),
{
    let idx = match server.connections.index_by_cid(cid) {
        Some(i) => i,
        None => {
            return ;
        },
    };
    proof {
        lemma_conn_views_at(server.connections.connections@, idx as int, cid);
    }
    let afk_status = match packet.get_uint(VarID::AFKStatus) {
        Some(x) => x,
        None => {
            return ;
        },
    };
    let is_afk = afk_status != 0;
    let ghost s0g = old(server).connections.connections@;
    let changed = server.connections.set_afk_flag(idx, is_afk);
    if !changed {
        return ;
    }
    let ghost sm = server.connections.connections@;
    proof {
        lemma_conn_views_at(sm, idx as int, cid);
        assert(crate::connection::conn_citizen(sm, cid) == crate::connection::conn_citizen(
            s0g,
            cid,
        ));
    }
    regenerate_contact_list_and_mutuals(server, cid);
    proof {
        let s1 = server.connections.connections@;
        match crate::connection::conn_citizen(s0g, cid) {
            Some(owner0) => {
                assert forall|j: int|
                    0 <= j < s0g.len() && (#[trigger] s0g[j]).cid != cid implies match s0g[j].spec_citizen_id() {
                    Some(c) => (c != 0 && is_mutual(old(server).database, owner0, c))
                        ==> match s1[j].client {
                        Some(crate::connection::ClientInfo::Player(p1)) => crate::tabs::tab_matches(
                            old(server).database,
                            s1,
                            c,
                            p1.tabs.contact_list.current@,
                        ),
                        _ => false,
                    },
                    None => true,
                } by {
                    assert(sm[j].cid == s0g[j].cid);
                    assert(sm[j].spec_citizen_id() == s0g[j].spec_citizen_id());
                }
            },
            None => {},
        }
    }
}

/// How many contact lines fit one delivery, bounded by the transport's
/// packet size.
pub const CONTACT_LIST_CHUNK: usize = 64;

/// Everything `contact_list` promises, as one predicate over the server
/// states; the dispatcher promises it per packet type.
pub open spec fn contact_list_post(pre: UniverseServer, post: UniverseServer, cid: u32, packet: AWPacket) -> bool {
    &&& (post.wf())
    &&& (post.database == pre.database)
    &&& (!(packet.spec_get(VarID::ContactListCitizenID) matches Some(PacketValue::Uint(_))) ==> (
        post.connections == pre.connections && post.database == pre.database))
    &&& (post.connections.connections@.len() == pre.connections.connections@.len())
    &&& (forall|j: int|
            0 <= j < pre.connections.connections@.len() && (#[trigger] pre.connections.connections@[j]).cid != cid ==> post.connections.connections@[j]
                == pre.connections.connections@[j])
    &&& (match packet.spec_get(VarID::ContactListCitizenID) {
            Some(PacketValue::Uint(start)) => forall|j: int|
            0 <= j < pre.connections.connections@.len() && (#[trigger] pre.connections.connections@[j]).cid == cid ==> {
            let c0 = pre.connections.connections@[j];
            let c1 = post.connections.connections@[j];
            &&& c1.cid == c0.cid
            &&& c1.outgoing@.take(c0.outgoing@.len() as int) == c0.outgoing@
            &&& match c1.client {
                Some(crate::connection::ClientInfo::Player(p1)) => {
                    let tab = p1.tabs.contact_list.current@;
                    let pg = crate::tabs::entries_from(tab, start);
                    let cnt = if pg.len() <= CONTACT_LIST_CHUNK as int {
                        pg.len() as int
                    } else {
                        CONTACT_LIST_CHUNK as int
                    };
                    &&& (match conn_citizen(pre.connections.connections@, cid) {
                        Some(owner) => crate::tabs::tab_matches(
                            pre.database,
                            post.connections.connections@,
                            owner,
                            tab,
                        ),
                        None => true,
                    })
                    &&& c1.outgoing@.len() >= c0.outgoing@.len() + cnt
                    &&& forall|m: int|
                        0 <= m < cnt ==> crate::tabs::entry_packet_renders(
                            #[trigger] c1.outgoing@[c1.outgoing@.len() - cnt + m],
                            pg[m],
                        )
                },
                _ => true,
            }
        },
            _ => true,
        })
}

/// Handles a contact-list request: refreshes the tab, then sends the
/// lines of the fresh current snapshot whose citizen id is at least the
/// supplied starting id, in snapshot order, as one size-capped batch.
#[verifier::loop_isolation(false)]
#[verifier::rlimit(100)]
pub fn contact_list(server: &mut UniverseServer, cid: u32, packet: &AWPacket)
    requires
        old(server).wf(),
    ensures
        contact_list_post(*old(server), *final(server), cid, *packet),
{
    let starting_id = match packet.get_uint(VarID::ContactListCitizenID) {
        Some(x) => x,
        None => {
            return ;
        },
    };
    let ghost s0g = old(server).connections.connections@;
    regenerate_contact_list(server, cid);
    let idx = match server.connections.index_by_cid(cid) {
        Some(i) => i,
        None => {
            return ;
        },
    };
    let ghost smid = server.connections.connections@;
    proof {
        lemma_conn_views_at(smid, idx as int, cid);
        assert(s0g[idx as int].cid == cid);
    }
    let mut page: Vec<AWPacket> = Vec::new();
    let ghost mut matched: Seq<crate::tabs::ContactEntry> = Seq::empty();
    {
        let conn = &server.connections.connections[idx];
        match &conn.client {
            Some(crate::connection::ClientInfo::Player(p)) => {
                let cur = &p.tabs.contact_list.current;
                let n = cur.len();
                let mut i: usize = 0;
                assert(cur@.skip(0) =~= cur@);
                assert(crate::tabs::entries_from(cur@, starting_id) =~= matched
                    + crate::tabs::entries_from(cur@.skip(0), starting_id));
                while i < n
                    invariant
                        i <= n,
                        n == cur@.len(),
                        crate::tabs::entries_from(cur@, starting_id) == matched
                            + crate::tabs::entries_from(cur@.skip(i as int), starting_id),
                        page@.len() == (if matched.len() <= CONTACT_LIST_CHUNK as int {
                            matched.len() as int
                        } else {
                            CONTACT_LIST_CHUNK as int
                        }),
                        forall|m: int|
                            0 <= m < page@.len() ==> crate::tabs::entry_packet_renders(
                                #[trigger] page@[m],
                                matched[m],
                            ),
                    decreases n - i,
                {
                    assert(cur@.skip(i as int)[0] == cur@[i as int]);
                    assert(cur@.skip(i as int).skip(1) =~= cur@.skip(i + 1));
                    if cur[i].cit_id >= starting_id {
                        proof {
                            assert(crate::tabs::entries_from(cur@.skip(i as int), starting_id)
                                == seq![cur@[i as int]] + crate::tabs::entries_from(
                                cur@.skip(i + 1),
                                starting_id,
                            ));
                        }
                        if page.len() < CONTACT_LIST_CHUNK {
                            let pk = crate::tabs::entry_packet(&cur[i]);
                            page.push(pk);
                        }
                        proof {
                            matched = matched.push(cur@[i as int]);
                            assert(crate::tabs::entries_from(cur@, starting_id) =~= matched
                                + crate::tabs::entries_from(cur@.skip(i + 1), starting_id));
                        }
                    }
                    i = i + 1;
                }
                assert(cur@.skip(n as int) =~= Seq::<crate::tabs::ContactEntry>::empty());
                assert(crate::tabs::entries_from(cur@, starting_id) =~= matched);
            },
            _ => {},
        }
    }
    let ghost pageorig = page@;
    let total = page.len();
    let mut sent: usize = 0;
    while sent < total
        invariant
            sent <= total,
            total == pageorig.len(),
            server.database == old(server).database,
            idx < server.connections.connections@.len(),
            server.connections.wf(),
            server.connections.connections@.len() == smid.len(),
            page@ == pageorig.skip(sent as int),
            forall|j: int|
                0 <= j < smid.len() && j != idx as int ==> server.connections.connections@[j]
                    == smid[j],
            server.connections.connections@[idx as int].cid == smid[idx as int].cid,
            server.connections.connections@[idx as int].address == smid[idx as int].address,
            server.connections.connections@[idx as int].client == smid[idx as int].client,
            server.connections.connections@[idx as int].outgoing@ == smid[idx as int].outgoing@
                + pageorig.take(sent as int),
        decreases total - sent,
    {
        let ghost scur = server.connections.connections@;
        assert(page@[0] == pageorig[sent as int]);
        let pk = page.remove(0);
        server.connections.send_to_index(idx, pk);
        proof {
            let snew = server.connections.connections@;
            assert(page@ =~= pageorig.skip(sent + 1));
            assert(snew[idx as int].outgoing@ == scur[idx as int].outgoing@.push(pk));
            assert(snew[idx as int].outgoing@ =~= smid[idx as int].outgoing@ + pageorig.take(
                sent + 1,
            ));
            assert forall|a: int, b: int| 0 <= a < b < snew.len() implies snew[a].cid
                != snew[b].cid by {
                assert(snew[a].cid == scur[a].cid);
                assert(snew[b].cid == scur[b].cid);
            }
            assert forall|a: int, b: int| 0 <= a < b < snew.len() implies !(
            snew[a].spec_citizen_id() is Some && snew[a].spec_citizen_id()
                == snew[b].spec_citizen_id()) by {
                assert(snew[a].client == scur[a].client);
                assert(snew[b].client == scur[b].client);
                assert(snew[a].spec_citizen_id() == scur[a].spec_citizen_id());
                assert(snew[b].spec_citizen_id() == scur[b].spec_citizen_id());
                assert(!(scur[a].spec_citizen_id() is Some && scur[a].spec_citizen_id()
                    == scur[b].spec_citizen_id()));
            }
        }
        sent = sent + 1;
    }
    proof {
        let s1 = server.connections.connections@;
        assert(s1[idx as int].outgoing@ == smid[idx as int].outgoing@ + pageorig.take(
            total as int,
        ));
        assert(pageorig.take(total as int) =~= pageorig);
        assert forall|j: int|
            0 <= j < s0g.len() && (#[trigger] s0g[j]).cid == cid implies j == idx as int by {
            assert(smid[j].cid == s0g[j].cid);
            if j < idx as int {
                assert(smid[j].cid != smid[idx as int].cid);
            } else if j > idx as int {
                assert(smid[idx as int].cid != smid[j].cid);
            }
        }
        let q0 = s0g[idx as int].outgoing@;
        assert(smid[idx as int].outgoing@.take(q0.len() as int) == q0);
        assert(s1[idx as int].outgoing@.take(q0.len() as int) =~= q0) by {
            assert forall|m: int| 0 <= m < q0.len() implies s1[idx as int].outgoing@[m]
                == q0[m] by {
                assert(s1[idx as int].outgoing@[m] == smid[idx as int].outgoing@[m]);
                assert(smid[idx as int].outgoing@[m] == smid[idx as int].outgoing@.take(
                    q0.len() as int,
                )[m]);
            }
        }
        match conn_citizen(s0g, cid) {
            Some(owner) => {
                match s1[idx as int].client {
                    Some(crate::connection::ClientInfo::Player(p1)) => {
                        assert(s1[idx as int].client == smid[idx as int].client);
                        assert(crate::tabs::tab_matches(
                            old(server).database,
                            s0g,
                            owner,
                            p1.tabs.contact_list.current@,
                        ));
                        assert(crate::connection::same_presence(s0g, smid));
                        assert(crate::connection::same_presence(smid, s1)) by {
                            assert forall|j: int| 0 <= j < smid.len() implies (
                            #[trigger] s1[j]).spec_citizen_id() == smid[j].spec_citizen_id()
                                && match (smid[j].client, s1[j].client) {
                                (
                                    Some(crate::connection::ClientInfo::Player(pa)),
                                    Some(crate::connection::ClientInfo::Player(pb)),
                                ) => pb.afk == pa.afk,
                                (Some(crate::connection::ClientInfo::Player(_)), _) => false,
                                (x, y) => y == x,
                            } by {
                                assert(s1[j].client == smid[j].client);
                            }
                        }
                        crate::connection::lemma_same_presence_trans(s0g, smid, s1);
                        crate::tabs::lemma_tab_matches_presence(
                            old(server).database,
                            s0g,
                            s1,
                            owner,
                            p1.tabs.contact_list.current@,
                        );
                    },
                    _ => {},
                }
            },
            None => {},
        }
    }
}

} // verus!
