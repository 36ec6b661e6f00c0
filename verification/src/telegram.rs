//! Stored messages: sending, and delivery of the oldest undelivered one.

use vstd::prelude::*;
use crate::connection::{conn_citizen, conn_exists, lemma_conn_views_at, sent_response,
    UniverseConnection};
use crate::database::{citizen_with_name, citizen_with_id, spec_telegrams_allowed, undelivered_to,
    lemma_undelivered_mark, UniverseDatabase};
use crate::packet::{find_var, AWPacket, PacketType, PacketValue, VarID};
use crate::reason::ReasonCode;
use crate::records::{DatabaseResult, TelegramQuery};
use crate::server::UniverseServer;
use crate::timestamp::unix_epoch_timestamp_u32;

verus! {

/// The outcome a telegram send is owed, given the sender's login, the
/// request, and the directory: the target's citizen id on success, the
/// reason otherwise. Either side blocking telegrams blocks the send.
pub open spec fn spec_try_send(
    cit: Option<u32>,
    p: AWPacket,
    db: UniverseDatabase,
) -> Result<u32, ReasonCode> {
    match cit {
        None => Err(ReasonCode::NotLoggedIn),
        Some(self_id) => match p.spec_get(VarID::TelegramTo) {
            Some(PacketValue::Text(to_name)) => match p.spec_get(VarID::TelegramMessage) {
                Some(PacketValue::Text(_)) => match citizen_with_name(db.citizens@, to_name@) {
                    None => Err(ReasonCode::NoSuchCitizen),
                    Some(target) => if !spec_telegrams_allowed(db.contacts@, self_id, target.id)
                        || !spec_telegrams_allowed(db.contacts@, target.id, self_id) {
                        Err(ReasonCode::TelegramBlocked)
                    } else if db.next_telegram_id == u32::MAX {
                        Err(ReasonCode::UnableToSendTelegram)
                    } else {
                        Ok(target.id)
                    },
                },
                _ => Err(ReasonCode::UnableToSendTelegram),
            },
            _ => Err(ReasonCode::NoSuchCitizen),
        },
    }
}

/// Validates and stores a telegram from the connection's citizen to the
/// named target, timestamped `now`. On failure nothing is stored; on
/// success the target's undelivered queue grows by the one message.
pub fn try_send_telegram_from_packet(
    conn: &UniverseConnection,
    packet: &AWPacket,
    database: &mut UniverseDatabase,
    now: u32,
) -> (r: Result<u32, ReasonCode>)
    requires
        old(database).wf(),
    ensures
        final(database).wf(),
        final(database).citizens@ == old(database).citizens@,
        final(database).licenses@ == old(database).licenses@,
        final(database).contacts@ == old(database).contacts@,
        final(database).ejections@ == old(database).ejections@,
        r == spec_try_send(conn.spec_citizen_id(), *packet, *old(database)),
        r is Err ==> final(database).telegrams@ == old(database).telegrams@,
        r matches Ok(target) ==> {
            &&& undelivered_to(final(database).telegrams@, target).len() == undelivered_to(
                old(database).telegrams@,
                target,
            ).len() + 1
            &&& forall|c: u32| c != target ==> undelivered_to(final(database).telegrams@, c)
                == undelivered_to(old(database).telegrams@, c)
            &&& exists|p: int, t: TelegramQuery|
                {
                    &&& 0 <= p <= old(database).telegrams@.len()
                    &&& final(database).telegrams@ == old(database).telegrams@.insert(p, t)
                    &&& t.to == target
                    &&& conn.spec_citizen_id() == Some(t.from)
                    &&& t.timestamp == now
                    &&& (packet.spec_get(VarID::TelegramMessage) matches Some(PacketValue::Text(m))
                        && t.message@ == m@)
                    &&& !t.delivered
                }
        },
{
    let citizen_id = match conn.citizen_id() {
        Some(c) => c,
        None => {
            return Err(ReasonCode::NotLoggedIn);
        },
    };
    let username_to = match packet.get_string(VarID::TelegramTo) {
        Some(x) => x,
        None => {
            return Err(ReasonCode::NoSuchCitizen);
        },
    };
    let message = match packet.get_string(VarID::TelegramMessage) {
        Some(x) => x,
        None => {
            return Err(ReasonCode::UnableToSendTelegram);
        },
    };
    let target_citizen = match database.citizen_by_name(username_to.as_str()) {
        DatabaseResult::Success(Some(target)) => target,
        DatabaseResult::Success(None) => {
            return Err(ReasonCode::NoSuchCitizen);
        },
        DatabaseResult::DatabaseError => {
            return Err(ReasonCode::DatabaseError);
        },
    };
    let you_allow_telegrams = match database.contact_telegrams_allowed(
        citizen_id,
        target_citizen.id,
    ) {
        DatabaseResult::Success(allowed) => allowed,
        DatabaseResult::DatabaseError => {
            return Err(ReasonCode::DatabaseError);
        },
    };
    let they_allow_telegrams = match database.contact_telegrams_allowed(
        target_citizen.id,
        citizen_id,
    ) {
        DatabaseResult::Success(allowed) => allowed,
        DatabaseResult::DatabaseError => {
            return Err(ReasonCode::DatabaseError);
        },
    };
    if !you_allow_telegrams || !they_allow_telegrams {
        return Err(ReasonCode::TelegramBlocked);
    }
    match database.telegram_add(target_citizen.id, citizen_id, now, message.as_str()) {
        DatabaseResult::Success(_) => Ok(target_citizen.id),
        DatabaseResult::DatabaseError => Err(ReasonCode::UnableToSendTelegram),
    }
}

/// Tells a connection that a new telegram awaits it.
pub fn send_telegram_update_available(server: &mut UniverseServer, target_cid: u32)
    requires
        old(server).wf(),
    ensures
        final(server).wf(),
        final(server).database == old(server).database,
        !conn_exists(old(server).connections.connections@, target_cid)
            ==> final(server).connections == old(server).connections,
        conn_exists(old(server).connections.connections@, target_cid) ==> {
            let s0 = old(server).connections.connections@;
            let s1 = final(server).connections.connections@;
            &&& s1.len() == s0.len()
            &&& forall|i: int|
                0 <= i < s0.len() && (#[trigger] s0[i]).cid != target_cid ==> s1[i] == s0[i]
            &&& forall|i: int|
                0 <= i < s0.len() && (#[trigger] s0[i]).cid == target_cid ==> {
                    &&& s1[i].cid == s0[i].cid
                    &&& s1[i].client == s0[i].client
                    &&& s1[i].address == s0[i].address
                    &&& s1[i].outgoing@.len() == s0[i].outgoing@.len() + 1
                    &&& s1[i].outgoing@.take(s0[i].outgoing@.len() as int) == s0[i].outgoing@
                    &&& s1[i].outgoing@.last().packet_type == PacketType::TelegramNotify
                }
        },
{
    let idx = match server.connections.index_by_cid(target_cid) {
        Some(i) => i,
        None => {
            return ;
        },
    };
    proof {
        lemma_conn_views_at(server.connections.connections@, idx as int, target_cid);
    }
    let p = AWPacket::new(PacketType::TelegramNotify);
    let ghost s0 = server.connections.connections@;
    server.connections.respond_packet(idx, p);
    proof {
        let s1 = server.connections.connections@;
        assert forall|i: int| 0 <= i < s0.len() && (#[trigger] s0[i]).cid == target_cid implies
            s1[i].outgoing@.len() == s0[i].outgoing@.len() + 1 && s1[i].outgoing@.take(
            s0[i].outgoing@.len() as int,
        ) == s0[i].outgoing@ && s1[i].outgoing@.last().packet_type
            == PacketType::TelegramNotify by {
            assert(s1[i].outgoing@ == s0[i].outgoing@.push(p));
            assert(s1[i].outgoing@.take(s0[i].outgoing@.len() as int) =~= s0[i].outgoing@);
        }
    }
}

/// What a successful send leaves behind: the telegram stored for the
/// target, one success response to the sender, and one notification to
/// the target's live connection — also when the sender addressed their
/// own citizen, whose queue then carries the notification before the
/// response.
pub open spec fn telegram_send_effects(
    s0: Seq<crate::connection::UniverseConnection>,
    s1: Seq<crate::connection::UniverseConnection>,
    db0: UniverseDatabase,
    db1: UniverseDatabase,
    cid: u32,
    target: u32,
) -> bool {
    &&& s1.len() == s0.len()
    &&& forall|i: int|
        0 <= i < s0.len() && (#[trigger] s0[i]).cid == cid ==> {
            &&& s1[i].cid == s0[i].cid
            &&& s1[i].client == s0[i].client
            &&& (s0[i].spec_citizen_id() != Some(target) ==> {
                &&& s1[i].outgoing@.len() == s0[i].outgoing@.len() + 1
                &&& s1[i].outgoing@.last().packet_type == PacketType::TelegramSend
                &&& find_var(s1[i].outgoing@.last().vars@, VarID::ReasonCode) == Some(
                    PacketValue::Reason(ReasonCode::Success),
                )
            })
            &&& (s0[i].spec_citizen_id() == Some(target) ==> {
                &&& s1[i].outgoing@.len() == s0[i].outgoing@.len() + 2
                &&& s1[i].outgoing@[s0[i].outgoing@.len() as int].packet_type
                    == PacketType::TelegramNotify
                &&& s1[i].outgoing@.last().packet_type == PacketType::TelegramSend
                &&& find_var(s1[i].outgoing@.last().vars@, VarID::ReasonCode) == Some(
                    PacketValue::Reason(ReasonCode::Success),
                )
            })
        }
    &&& forall|i: int|
        0 <= i < s0.len() && (#[trigger] s0[i]).cid != cid && s0[i].spec_citizen_id() != Some(
            target,
        ) ==> s1[i] == s0[i]
    &&& forall|i: int|
        0 <= i < s0.len() && (#[trigger] s0[i]).cid != cid && s0[i].spec_citizen_id() == Some(
            target,
        ) ==> {
            &&& s1[i].cid == s0[i].cid
            &&& s1[i].client == s0[i].client
            &&& s1[i].outgoing@.len() == s0[i].outgoing@.len() + 1
            &&& s1[i].outgoing@.last().packet_type == PacketType::TelegramNotify
        }
    &&& undelivered_to(db1.telegrams@, target).len() == undelivered_to(
        db0.telegrams@,
        target,
    ).len() + 1
    &&& forall|c: u32| c != target ==> undelivered_to(db1.telegrams@, c) == undelivered_to(
        db0.telegrams@,
        c,
    )
}

/// Handles a telegram send at a known clock reading: validates, stores,
/// nudges the target's live connection if any, and answers the sender.
pub fn telegram_send_at(server: &mut UniverseServer, cid: u32, packet: &AWPacket, now: u32)
    requires
        old(server).wf(),
    ensures
        final(server).wf(),
        final(server).database.citizens@ == old(server).database.citizens@,
        final(server).database.licenses@ == old(server).database.licenses@,
        final(server).database.contacts@ == old(server).database.contacts@,
        final(server).database.ejections@ == old(server).database.ejections@,
        !conn_exists(old(server).connections.connections@, cid) ==> final(server).connections
            == old(server).connections && final(server).database == old(server).database,
        conn_exists(old(server).connections.connections@, cid) ==> {
            let s0 = old(server).connections.connections@;
            let s1 = final(server).connections.connections@;
            let db0 = old(server).database;
            let db1 = final(server).database;
            &&& match spec_try_send(conn_citizen(s0, cid), *packet, db0) {
                Err(e) => sent_response(s0, s1, cid, PacketType::TelegramSend, e)
                    && db1.telegrams@ == db0.telegrams@,
                Ok(target) => telegram_send_effects(s0, s1, db0, db1, cid, target),
            }
        },
{
    let idx = match server.connections.index_by_cid(cid) {
        Some(i) => i,
        None => {
            return ;
        },
    };
    proof {
        lemma_conn_views_at(server.connections.connections@, idx as int, cid);
    }
    let outcome = {
        let conn = &server.connections.connections[idx];
        try_send_telegram_from_packet(conn, packet, &mut server.database, now)
    };
    let ghost s0 = old(server).connections.connections@;
    match outcome {
        Ok(target_id) => {
            match server.connections.get_by_citizen_id(target_id) {
                Some(target_cid) => {
                    send_telegram_update_available(server, target_cid);
                },
                None => {},
            }
            let ghost sm = server.connections.connections@;
            proof {
                assert(sm[idx as int].cid == cid);
                assert forall|j: int, k: int| 0 <= j < k < sm.len() implies sm[j].cid
                    != sm[k].cid by {
                    assert(sm[j].cid == s0[j].cid);
                    assert(sm[k].cid == s0[k].cid);
                }
            }
            server.connections.respond(idx, PacketType::TelegramSend, ReasonCode::Success);
            proof {
                let s1 = server.connections.connections@;
                assert forall|i: int| 0 <= i < s0.len() && (#[trigger] s0[i]).cid == cid implies {
                    &&& s1[i].cid == s0[i].cid
                    &&& s1[i].client == s0[i].client
                    &&& (s0[i].spec_citizen_id() != Some(target_id) ==> {
                        &&& s1[i].outgoing@.len() == s0[i].outgoing@.len() + 1
                        &&& s1[i].outgoing@.last().packet_type == PacketType::TelegramSend
                        &&& find_var(s1[i].outgoing@.last().vars@, VarID::ReasonCode) == Some(
                            PacketValue::Reason(ReasonCode::Success),
                        )
                    })
                    &&& (s0[i].spec_citizen_id() == Some(target_id) ==> {
                        &&& s1[i].outgoing@.len() == s0[i].outgoing@.len() + 2
                        &&& s1[i].outgoing@[s0[i].outgoing@.len() as int].packet_type
                            == PacketType::TelegramNotify
                        &&& s1[i].outgoing@.last().packet_type == PacketType::TelegramSend
                        &&& find_var(s1[i].outgoing@.last().vars@, VarID::ReasonCode) == Some(
                            PacketValue::Reason(ReasonCode::Success),
                        )
                    })
                } by {
                    assert(i == idx as int);
                    if s0[i].spec_citizen_id() == Some(target_id) {
                        assert(sm[i].outgoing@.len() == s0[i].outgoing@.len() + 1);
                        assert(sm[i].outgoing@.last().packet_type == PacketType::TelegramNotify);
                        assert(s1[i].outgoing@[s0[i].outgoing@.len() as int] == sm[
                            i
                        ].outgoing@.last());
                    } else {
                        assert(sm[i] == s0[i]);
                    }
                }
            }
        },
        Err(rc) => {
            server.connections.respond(idx, PacketType::TelegramSend, rc);
        },
    }
}

/// Everything `telegram_send` promises, as one predicate over the server
/// states; the dispatcher promises it per packet type.
pub open spec fn telegram_send_post(pre: UniverseServer, post: UniverseServer, cid: u32, packet: AWPacket) -> bool {
    &&& (post.wf())
    &&& (post.database.citizens@ == pre.database.citizens@)
    &&& (post.database.licenses@ == pre.database.licenses@)
    &&& (post.database.contacts@ == pre.database.contacts@)
    &&& (post.database.ejections@ == pre.database.ejections@)
    &&& (conn_exists(pre.connections.connections@, cid) ==> match spec_try_send(
            conn_citizen(pre.connections.connections@, cid),
            packet,
            pre.database,
        ) {
            Err(e) => sent_response(
                pre.connections.connections@,
                post.connections.connections@,
                cid,
                PacketType::TelegramSend,
                e,
            ) && post.database.telegrams@ == pre.database.telegrams@,
            Ok(target) => telegram_send_effects(
                pre.connections.connections@,
                post.connections.connections@,
                pre.database,
                post.database,
                cid,
                target,
            ),
        })
}

/// Handles a telegram send: reads the clock and hands on.
pub fn telegram_send(server: &mut UniverseServer, cid: u32, packet: &AWPacket)
    requires
        old(server).wf(),
    ensures
        telegram_send_post(*old(server), *final(server), cid, *packet),
{
    let now = unix_epoch_timestamp_u32();
    telegram_send_at(server, cid, packet, now);
}

/// Pops the oldest undelivered telegram for the connection's citizen,
/// marking it delivered; the flag reports whether more remain. The spare
/// flag is true iff at least two were waiting when the call was made.
pub fn try_telegram_get(
    conn: &UniverseConnection,
    _packet: &AWPacket,
    database: &mut UniverseDatabase,
) -> (r: Result<(TelegramQuery, bool), ReasonCode>)
    requires
        old(database).wf(),
    ensures
        final(database).wf(),
        final(database).citizens@ == old(database).citizens@,
        final(database).licenses@ == old(database).licenses@,
        final(database).contacts@ == old(database).contacts@,
        final(database).ejections@ == old(database).ejections@,
        conn.spec_citizen_id() is None ==> (r == Err::<(TelegramQuery, bool), ReasonCode>(
            ReasonCode::UnableToGetTelegram,
        ) && final(database).telegrams@ == old(database).telegrams@),
        conn.spec_citizen_id() matches Some(cit) ==> {
            let queue = undelivered_to(old(database).telegrams@, cit);
            &&& queue.len() == 0 ==> (r == Err::<(TelegramQuery, bool), ReasonCode>(
                ReasonCode::UnableToGetTelegram,
            ) && final(database).telegrams@ == old(database).telegrams@)
            &&& queue.len() > 0 ==> {
                &&& r matches Ok((t, more)) && crate::database::same_telegram(t, queue[0]) && more
                    == (queue.len() >= 2)
                &&& undelivered_to(final(database).telegrams@, cit) =~= queue.skip(1)
                &&& forall|c: u32|
                    c != cit ==> undelivered_to(final(database).telegrams@, c) =~= undelivered_to(
                        old(database).telegrams@,
                        c,
                    )
            }
        },
{
    let citizen_id = match conn.citizen_id() {
        Some(c) => c,
        None => {
            return Err(ReasonCode::UnableToGetTelegram);
        },
    };
    let telegrams = match database.telegram_get_undelivered(citizen_id) {
        DatabaseResult::Success(t) => t,
        DatabaseResult::DatabaseError => {
            return Err(ReasonCode::DatabaseError);
        },
    };
    if telegrams.len() == 0 {
        return Err(ReasonCode::UnableToGetTelegram);
    }
    let more_remain = telegrams.len() >= 2;
    let first = telegrams[0].duplicate();
    let ghost t0 = database.telegrams@;
    database.telegram_mark_delivered(first.id);
    proof {
        let t1 = database.telegrams@;
        let queue = undelivered_to(t0, citizen_id);
        lemma_undelivered_mark(t0, t1, first.id, citizen_id);
        assert(undelivered_to(t1, citizen_id) =~= queue.skip(1));
        assert forall|c: u32| c != citizen_id implies undelivered_to(t1, c) =~= undelivered_to(
            t0,
            c,
        ) by {
            lemma_undelivered_mark_other(t0, queue[0], citizen_id);
            lemma_undelivered_mark(t0, t1, first.id, c);
        }
    }
    Ok((first, more_remain))
}

/// An undelivered telegram belongs to no other citizen's queue: its
/// addressee is fixed.
proof fn lemma_undelivered_mark_other(s: Seq<TelegramQuery>, t: TelegramQuery, cit: u32)
    requires
        undelivered_to(s, cit).len() > 0,
        t == undelivered_to(s, cit)[0],
    ensures
        forall|k: int|
            0 <= k < s.len() && (#[trigger] s[k]).id == t.id && s[k] == t ==> (s[k].to == cit
                && !s[k].delivered),
        t.to == cit,
        !t.delivered,
    decreases s.len(),
{
    if s.len() > 0 {
        if s[0].to == cit && !s[0].delivered {
            assert(undelivered_to(s, cit) == seq![s[0]] + undelivered_to(s.skip(1), cit));
            if undelivered_to(s, cit)[0] == s[0] {
            }
        } else {
            lemma_undelivered_mark_other(s.skip(1), t, cit);
        }
    }
}

/// The sender name a delivery shows: the stored casing, or a placeholder
/// when the sender's account is gone.
pub open spec fn spec_sender_name(db: UniverseDatabase, from: u32) -> Seq<char> {
    match citizen_with_id(db.citizens@, from) {
        Some(c) => c.name@,
        None => "<unknown>"@,
    }
}

/// Everything `telegram_get_at` promises at one clock reading, as one
/// predicate over the server states.
pub open spec fn telegram_get_at_post(pre: UniverseServer, post: UniverseServer, cid: u32, packet: AWPacket, now: u32) -> bool {
    &&& (post.wf())
    &&& (post.database.citizens@ == pre.database.citizens@)
    &&& (post.database.licenses@ == pre.database.licenses@)
    &&& (post.database.contacts@ == pre.database.contacts@)
    &&& (post.database.ejections@ == pre.database.ejections@)
    &&& (!conn_exists(pre.connections.connections@, cid) ==> post.connections
            == pre.connections && post.database == pre.database)
    &&& (conn_exists(pre.connections.connections@, cid) ==> {
            let s0 = pre.connections.connections@;
            let s1 = post.connections.connections@;
            let db0 = pre.database;
            let db1 = post.database;
            &&& conn_citizen(s0, cid) is None ==> (sent_response(s0, s1, cid,
            PacketType::TelegramDeliver, ReasonCode::UnableToGetTelegram) && db1.telegrams@
                == db0.telegrams@)
            &&& conn_citizen(s0, cid) matches Some(cit) ==> {
                let queue = undelivered_to(db0.telegrams@, cit);
                &&& queue.len() == 0 ==> (sent_response(s0, s1, cid, PacketType::TelegramDeliver,
                ReasonCode::UnableToGetTelegram) && db1.telegrams@ == db0.telegrams@)
                &&& queue.len() > 0 ==> {
                    &&& sent_response(s0, s1, cid, PacketType::TelegramDeliver,
                    ReasonCode::Success)
                    &&& undelivered_to(db1.telegrams@, cit) =~= queue.skip(1)
                    &&& forall|c: u32| c != cit ==> undelivered_to(db1.telegrams@, c)
                        =~= undelivered_to(db0.telegrams@, c)
                    &&& forall|i: int|
                        0 <= i < s0.len() && (#[trigger] s0[i]).cid == cid ==> {
                            &&& (find_var(s1[i].outgoing@.last().vars@, VarID::TelegramMessage)
                                matches Some(PacketValue::Text(m)) && m@ == queue[0].message@)
                            &&& find_var(
                                s1[i].outgoing@.last().vars@,
                                VarID::TelegramsMoreRemain,
                            ) == Some(
                                PacketValue::Byte(
                                    if queue.len() >= 2 {
                                        1u8
                                    } else {
                                        0u8
                                    },
                                ),
                            )
                            &&& find_var(s1[i].outgoing@.last().vars@, VarID::TelegramAge) == Some(
                                PacketValue::Uint(
                                    if now >= queue[0].timestamp {
                                        (now - queue[0].timestamp) as u32
                                    } else {
                                        0u32
                                    },
                                ),
                            )
                            &&& (find_var(
                                s1[i].outgoing@.last().vars@,
                                VarID::TelegramCitizenName,
                            ) matches Some(PacketValue::Text(nm)) && nm@ == spec_sender_name(
                                db0,
                                queue[0].from,
                            ))
                        }
                }
            }
        })
}

/// Handles a telegram fetch at a known clock reading: delivers the oldest
/// undelivered telegram, marks it delivered, and reports whether at least
/// two were waiting when the call was made.
#[verifier::rlimit(60)]
pub fn telegram_get_at(server: &mut UniverseServer, cid: u32, packet: &AWPacket, now: u32)
    requires
        old(server).wf(),
    ensures
        telegram_get_at_post(*old(server), *final(server), cid, *packet, now),
{
    let idx = match server.connections.index_by_cid(cid) {
        Some(i) => i,
        None => {
            return ;
        },
    };
    proof {
        lemma_conn_views_at(server.connections.connections@, idx as int, cid);
    }
    let outcome = {
        let conn = &server.connections.connections[idx];
        try_telegram_get(conn, packet, &mut server.database)
    };
    match outcome {
        Err(rc) => {
            server.connections.respond(idx, PacketType::TelegramDeliver, rc);
        },
        Ok((telegram, more_remain)) => {
            let from_name: String = match server.database.citizen_by_number(telegram.from) {
                DatabaseResult::Success(Some(cit)) => cit.name,
                _ => "<unknown>".to_owned(),
            };
            let age: u32 = if now >= telegram.timestamp {
                now - telegram.timestamp
            } else {
                0
            };
            let mut p = AWPacket::new(PacketType::TelegramDeliver);
            p.add_string(VarID::TelegramCitizenName, from_name);
            p.add_uint(VarID::TelegramAge, age);
            p.add_string(VarID::TelegramMessage, telegram.message);
            p.add_byte(
                VarID::TelegramsMoreRemain,
                if more_remain {
                    1
                } else {
                    0
                },
            );
            p.add_reason(ReasonCode::Success);
            proof {
                let vs = p.vars@;
                assert(vs.len() == 5);
                crate::packet::lemma_find_var_at(vs, VarID::TelegramCitizenName, 0);
                crate::packet::lemma_find_var_at(vs, VarID::TelegramAge, 1);
                crate::packet::lemma_find_var_at(vs, VarID::TelegramMessage, 2);
                crate::packet::lemma_find_var_at(vs, VarID::TelegramsMoreRemain, 3);
                crate::packet::lemma_find_var_at(vs, VarID::ReasonCode, 4);
            }
            let ghost sm = server.connections.connections@;
            server.connections.respond_packet(idx, p);
            proof {
                let s1 = server.connections.connections@;
                assert forall|i: int| 0 <= i < sm.len() && (#[trigger] sm[i]).cid == cid implies
                    s1[i].outgoing@.last() == p && s1[i].outgoing@.len() == sm[i].outgoing@.len()
                    + 1 by {
                    assert(s1[i].outgoing@ == sm[i].outgoing@.push(p));
                }
            }
        },
    }
}

/// Everything `telegram_get` promises, as one predicate over the server
/// states; the dispatcher promises it per packet type.
pub open spec fn telegram_get_post(pre: UniverseServer, post: UniverseServer, cid: u32, packet: AWPacket) -> bool {
    exists|t: u32| #[trigger] telegram_get_at_post(pre, post, cid, packet, t)
}

/// Handles a telegram fetch: reads the clock and hands on.
pub fn telegram_get(server: &mut UniverseServer, cid: u32, packet: &AWPacket)
    requires
        old(server).wf(),
    ensures
        telegram_get_post(*old(server), *final(server), cid, *packet),
{
    let now = unix_epoch_timestamp_u32();
    telegram_get_at(server, cid, packet, now);
}

} // verus!
