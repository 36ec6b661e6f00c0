//! Address ejections: administrator-only bans keyed by IPv4 address.

use vstd::prelude::*;
use crate::connection::{conn_admin, conn_exists, lemma_conn_views_at, sent_response};
use crate::database::ejection_at;
use crate::packet::{AWPacket, PacketType, PacketValue, VarID};
use crate::reason::ReasonCode;
use crate::records::DatabaseResult;
use crate::server::UniverseServer;
use crate::timestamp::unix_epoch_timestamp_u32;

verus! {

/// Which neighbour of an address a lookup asks for.
#[derive(Clone, Copy, Debug, PartialEq, Eq, Structural)]
pub enum EjectionLookupMethod {
    Previous,
    Exact,
    Next,
}

/// The fields an ejection request must carry.
pub struct EjectAddParams {
    pub address: u32,
    pub expiration: u32,
    pub comment: String,
}

/// Which field an ejection request lacked.
#[derive(Clone, Copy, Debug, PartialEq, Eq, Structural)]
pub enum EjectAddParamsError {
    Address,
    Expiration,
    Comment,
}

/// Every variable an ejection request carries is present with its type.
pub open spec fn eject_params_complete(p: AWPacket) -> bool {
    &&& p.spec_get(VarID::EjectionAddress) matches Some(PacketValue::Uint(_))
    &&& p.spec_get(VarID::EjectionExpiration) matches Some(PacketValue::Uint(_))
    &&& p.spec_get(VarID::EjectionComment) matches Some(PacketValue::Text(_))
}

impl EjectAddParams {
    /// Reads the ejection parameters out of a request packet.
    pub fn try_from(value: &AWPacket) -> (r: Result<EjectAddParams, EjectAddParamsError>)
        ensures
            r is Ok <==> eject_params_complete(*value),
            r matches Ok(pa) ==> {
                &&& value.spec_get(VarID::EjectionAddress) == Some(PacketValue::Uint(pa.address))
                &&& value.spec_get(VarID::EjectionExpiration) == Some(
                    PacketValue::Uint(pa.expiration),
                )
                &&& (value.spec_get(VarID::EjectionComment) matches Some(PacketValue::Text(c))
                    && pa.comment@ == c@)
            },
    {
        let address = match value.get_uint(VarID::EjectionAddress) {
            Some(x) => x,
            None => {
                return Err(EjectAddParamsError::Address);
            },
        };
        let expiration = match value.get_uint(VarID::EjectionExpiration) {
            Some(x) => x,
            None => {
                return Err(EjectAddParamsError::Expiration);
            },
        };
        let comment = match value.get_string(VarID::EjectionComment) {
            Some(x) => x,
            None => {
                return Err(EjectAddParamsError::Comment);
            },
        };
        Ok(EjectAddParams { address, expiration, comment })
    }
}

/// Everything `eject_add_at` promises at one clock reading, as one
/// predicate over the server states.
pub open spec fn eject_add_at_post(pre: UniverseServer, post: UniverseServer, cid: u32, packet: AWPacket, now: u32) -> bool {
    &&& (post.wf())
    &&& (post.database.citizens@ == pre.database.citizens@)
    &&& (post.database.licenses@ == pre.database.licenses@)
    &&& (post.database.contacts@ == pre.database.contacts@)
    &&& (post.database.telegrams@ == pre.database.telegrams@)
    &&& (!conn_exists(pre.connections.connections@, cid) ==> post.connections
            == pre.connections && post.database == pre.database)
    &&& (conn_exists(pre.connections.connections@, cid) ==> {
            let s0 = pre.connections.connections@;
            let s1 = post.connections.connections@;
            let db0 = pre.database;
            let db1 = post.database;
            &&& !conn_admin(s0, cid) ==> (s1 == s0 && db1 == db0)
            &&& conn_admin(s0, cid) ==> {
                &&& !eject_params_complete(packet) ==> (s1 == s0 && db1 == db0)
                &&& eject_params_complete(packet) ==> match (
                    packet.spec_get(VarID::EjectionAddress),
                    packet.spec_get(VarID::EjectionExpiration),
                    packet.spec_get(VarID::EjectionComment),
                ) {
                    (
                        Some(PacketValue::Uint(addr)),
                        Some(PacketValue::Uint(exp)),
                        Some(PacketValue::Text(cm)),
                    ) => {
                        &&& (ejection_at(db1.ejections@, addr) matches Some(e) && e.address
                            == addr && e.expiration == exp && e.creation == now && e.comment@
                            == cm@)
                        &&& forall|a: u32| a != addr ==> ejection_at(db1.ejections@, a)
                            == ejection_at(db0.ejections@, a)
                        &&& sent_response(s0, s1, cid, PacketType::EjectResult,
                        ReasonCode::Success)
                    },
                    _ => true,
                }
            }
        })
}

/// Handles an ejection write at a known clock reading. Only an
/// administrator may; a request that lacks a field is dropped.
pub fn eject_add_at(server: &mut UniverseServer, cid: u32, packet: &AWPacket, now: u32)
    requires
        old(server).wf(),
    ensures
        eject_add_at_post(*old(server), *final(server), cid, *packet, now),
{
    let idx = match server.connections.index_by_cid(cid) {
        Some(i) => i,
        None => {
            return ;
        },
    };
    proof {
        lemma_conn_views_at(server.connections.connections@, idx as int, cid);
    }
    let is_admin = {
        let conn = &server.connections.connections[idx];
        conn.has_admin_permissions()
    };
    if !is_admin {
        return ;
    }
    let params = match EjectAddParams::try_from(packet) {
        Ok(p) => p,
        Err(_) => {
            return ;
        },
    };
    let rc = match server.database.ejection_set(
        params.address,
        params.expiration,
        now,
        params.comment.as_str(),
    ) {
        DatabaseResult::Success(_) => ReasonCode::Success,
        DatabaseResult::DatabaseError => ReasonCode::DatabaseError,
    };
    server.connections.respond(idx, PacketType::EjectResult, rc);
}

/// Everything `eject_add` promises, as one predicate over the server
/// states; the dispatcher promises it per packet type.
pub open spec fn eject_add_post(pre: UniverseServer, post: UniverseServer, cid: u32, packet: AWPacket) -> bool {
    exists|t: u32| #[trigger] eject_add_at_post(pre, post, cid, packet, t)
}

/// Handles an ejection write: reads the clock and hands on.
pub fn eject_add(server: &mut UniverseServer, cid: u32, packet: &AWPacket)
    requires
        old(server).wf(),
    ensures
        eject_add_post(*old(server), *final(server), cid, *packet),
{
    let now = unix_epoch_timestamp_u32();
    eject_add_at(server, cid, packet, now);
}

/// Whether a stored ejection row is the one the method owes for the
/// queried address at the given clock reading: the exact row while still
/// in force, or the extremal neighbour below or above.
pub open spec fn eject_method_matches(
    db: crate::database::UniverseDatabase,
    address: u32,
    method: EjectionLookupMethod,
    now: u32,
    j: int,
) -> bool {
    &&& 0 <= j < db.ejections@.len()
    &&& match method {
        EjectionLookupMethod::Exact => db.ejections@[j].address == address
            && db.ejections@[j].expiration > now,
        EjectionLookupMethod::Previous => db.ejections@[j].address < address && (forall|k: int|
            0 <= k < db.ejections@.len() && (#[trigger] db.ejections@[k]).address < address
                ==> db.ejections@[k].address <= db.ejections@[j].address),
        EjectionLookupMethod::Next => db.ejections@[j].address > address && (forall|k: int|
            0 <= k < db.ejections@.len() && (#[trigger] db.ejections@[k]).address > address
                ==> db.ejections@[k].address >= db.ejections@[j].address),
    }
}

/// The variables of a found-ejection response, in order: the row's
/// fields, then the success code.
pub open spec fn eject_response_vars(
    vs: Seq<(VarID, PacketValue)>,
    e: crate::records::EjectionQuery,
) -> bool {
    &&& vs.len() == 5
    &&& vs[0] == (VarID::EjectionAddress, PacketValue::Uint(e.address))
    &&& vs[1] == (VarID::EjectionExpiration, PacketValue::Uint(e.expiration))
    &&& vs[2] == (VarID::EjectionCreation, PacketValue::Uint(e.creation))
    &&& vs[3].0 == VarID::EjectionComment
    &&& (vs[3].1 matches PacketValue::Text(t) && t@ == e.comment@)
    &&& vs[4] == (VarID::ReasonCode, PacketValue::Reason(ReasonCode::Success))
}

/// What an ejection lookup promises the caller: the reason code matches
/// the directory, and a found row's fields ride in the response.
pub open spec fn eject_lookup_outcome(
    s0: Seq<crate::connection::UniverseConnection>,
    s1: Seq<crate::connection::UniverseConnection>,
    db: crate::database::UniverseDatabase,
    cid: u32,
    address: u32,
    method: EjectionLookupMethod,
    now: u32,
) -> bool {
    &&& (exists|j: int| #[trigger] eject_method_matches(db, address, method, now, j)) ==> {
        &&& sent_response(s0, s1, cid, PacketType::EjectResult, ReasonCode::Success)
        &&& forall|i: int|
            0 <= i < s0.len() && (#[trigger] s0[i]).cid == cid ==> exists|j: int|
                #[trigger] eject_method_matches(db, address, method, now, j)
                    && eject_response_vars(s1[i].outgoing@.last().vars@, db.ejections@[j])
    }
    &&& !(exists|j: int| #[trigger] eject_method_matches(db, address, method, now, j))
        ==> sent_response(s0, s1, cid, PacketType::EjectResult, ReasonCode::NoSuchEjection)
}

/// Looks an ejection up by the method and answers with its fields; the
/// exact method reports only an ejection still in force at the given
/// clock reading.
pub fn eject_lookup_by_method(
    server: &mut UniverseServer,
    cid: u32,
    address: u32,
    method: EjectionLookupMethod,
    now: u32,
)
    requires
        old(server).wf(),
    ensures
        final(server).wf(),
        final(server).database == old(server).database,
        !conn_exists(old(server).connections.connections@, cid) ==> final(server).connections
            == old(server).connections,
        conn_exists(old(server).connections.connections@, cid) ==> eject_lookup_outcome(
            old(server).connections.connections@,
            final(server).connections.connections@,
            old(server).database,
            cid,
            address,
            method,
            now,
        ),
        (conn_exists(old(server).connections.connections@, cid) && method
            != EjectionLookupMethod::Exact) ==> forall|t: u32|
            #[trigger] eject_lookup_outcome(
                old(server).connections.connections@,
                final(server).connections.connections@,
                old(server).database,
                cid,
                address,
                method,
                t,
            ),
{
    let idx = match server.connections.index_by_cid(cid) {
        Some(i) => i,
        None => {
            return ;
        },
    };
    proof {
        lemma_conn_views_at(server.connections.connections@, idx as int, cid);
    }
    let looked_up = match method {
        EjectionLookupMethod::Previous => server.database.ejection_prev(address),
        EjectionLookupMethod::Exact => server.database.ejection_lookup(address, now),
        EjectionLookupMethod::Next => server.database.ejection_next(address),
    };
    match looked_up {
        DatabaseResult::Success(Some(e)) => {
            let ghost dbg = server.database;
            proof {
                if method == EjectionLookupMethod::Exact {
                    crate::database::lemma_ejection_at_index(dbg.ejections@, address);
                }
            }
            let ghost wj: int = choose|j: int|
                0 <= j < dbg.ejections@.len() && crate::database::same_ejection(
                    e,
                    #[trigger] dbg.ejections@[j],
                );
            proof {
                assert(eject_method_matches(dbg, address, method, now, wj));
            }
            let mut p = AWPacket::new(PacketType::EjectResult);
            p.add_uint(VarID::EjectionAddress, e.address);
            p.add_uint(VarID::EjectionExpiration, e.expiration);
            p.add_uint(VarID::EjectionCreation, e.creation);
            p.add_string(VarID::EjectionComment, e.comment);
            p.add_reason(ReasonCode::Success);
            proof {
                crate::packet::lemma_find_var_at(p.vars@, VarID::ReasonCode, 4);
                assert(eject_response_vars(p.vars@, dbg.ejections@[wj]));
            }
            let ghost sa = server.connections.connections@;
            server.connections.respond_packet(idx, p);
            proof {
                let sb = server.connections.connections@;
                assert forall|i: int| 0 <= i < sa.len() && (#[trigger] sa[i]).cid == cid implies
                    sb[i].outgoing@.len() == sa[i].outgoing@.len() + 1 && sb[i].outgoing@.last()
                    == p && (exists|j: int|
                    #[trigger] eject_method_matches(dbg, address, method, now, j)
                        && eject_response_vars(sb[i].outgoing@.last().vars@, dbg.ejections@[j]))
                    by {
                    assert(sb[i].outgoing@ == sa[i].outgoing@.push(p));
                    assert(eject_method_matches(dbg, address, method, now, wj)
                        && eject_response_vars(sb[i].outgoing@.last().vars@, dbg.ejections@[wj]));
                }
                if method != EjectionLookupMethod::Exact {
                    assert forall|t: u32| #[trigger] eject_lookup_outcome(
                        sa,
                        sb,
                        dbg,
                        cid,
                        address,
                        method,
                        t,
                    ) by {
                        assert(eject_method_matches(dbg, address, method, t, wj));
                        assert forall|i: int| 0 <= i < sa.len() && (#[trigger] sa[i]).cid == cid
                            implies exists|j: int|
                            #[trigger] eject_method_matches(dbg, address, method, t, j)
                                && eject_response_vars(
                                sb[i].outgoing@.last().vars@,
                                dbg.ejections@[j],
                            ) by {
                            assert(eject_method_matches(dbg, address, method, t, wj)
                                && eject_response_vars(
                                sb[i].outgoing@.last().vars@,
                                dbg.ejections@[wj],
                            ));
                        }
                    }
                }
            }
        },
        _ => {
            proof {
                if method == EjectionLookupMethod::Exact {
                    crate::database::lemma_ejection_at_index(server.database.ejections@, address);
                    assert forall|j: int| !(#[trigger] eject_method_matches(
                        server.database,
                        address,
                        method,
                        now,
                        j,
                    )) by {
                        if 0 <= j < server.database.ejections@.len()
                            && server.database.ejections@[j].address == address {
                            match ejection_at(server.database.ejections@, address) {
                                Some(e0) => {},
                                None => {
                                    assert(server.database.ejections@[j].address != address);
                                },
                            }
                        }
                    }
                }
            }
            let ghost sa = server.connections.connections@;
            let ghost dbg = server.database;
            server.connections.respond(idx, PacketType::EjectResult, ReasonCode::NoSuchEjection);
            proof {
                let sb = server.connections.connections@;
                if method != EjectionLookupMethod::Exact {
                    assert forall|t: u32| #[trigger] eject_lookup_outcome(
                        sa,
                        sb,
                        dbg,
                        cid,
                        address,
                        method,
                        t,
                    ) by {
                        assert forall|j: int| !(#[trigger] eject_method_matches(
                            dbg,
                            address,
                            method,
                            t,
                            j,
                        )) by {}
                    }
                }
            }
        },
    }
}

/// Everything `eject_prev` promises, as one predicate over the server
/// states; the dispatcher promises it per packet type.
pub open spec fn eject_prev_post(pre: UniverseServer, post: UniverseServer, cid: u32, packet: AWPacket) -> bool {
    &&& (post.wf())
    &&& (post.database == pre.database)
    &&& (conn_exists(pre.connections.connections@, cid) && !conn_admin(
            pre.connections.connections@,
            cid,
        ) ==> post.connections == pre.connections)
    &&& (!(packet.spec_get(VarID::EjectionAddress) matches Some(PacketValue::Uint(_)))
            ==> post.connections == pre.connections)
    &&& ((conn_exists(pre.connections.connections@, cid) && conn_admin(
            pre.connections.connections@,
            cid,
        )) ==> match packet.spec_get(VarID::EjectionAddress) {
            Some(PacketValue::Uint(address)) => eject_lookup_outcome(
                pre.connections.connections@,
                post.connections.connections@,
                pre.database,
                cid,
                address,
                EjectionLookupMethod::Previous,
                0,
            ),
            _ => true,
        })
}

/// Handles a lookup of the nearest ejection below an address; only an
/// administrator may ask, and an unauthorized or incomplete ask is
/// dropped. The neighbour methods do not read the clock.
pub fn eject_prev(server: &mut UniverseServer, cid: u32, packet: &AWPacket)
    requires
        old(server).wf(),
    ensures
        eject_prev_post(*old(server), *final(server), cid, *packet),
{
    let idx = match server.connections.index_by_cid(cid) {
        Some(i) => i,
        None => {
            return ;
        },
    };
    proof {
        lemma_conn_views_at(server.connections.connections@, idx as int, cid);
    }
    let is_admin = {
        let conn = &server.connections.connections[idx];
        conn.has_admin_permissions()
    };
    if !is_admin {
        return ;
    }
    let address = match packet.get_uint(VarID::EjectionAddress) {
        Some(x) => x,
        None => {
            return ;
        },
    };
    let now = unix_epoch_timestamp_u32();
    eject_lookup_by_method(server, cid, address, EjectionLookupMethod::Previous, now);
}

/// Everything `eject_next` promises, as one predicate over the server
/// states; the dispatcher promises it per packet type.
pub open spec fn eject_next_post(pre: UniverseServer, post: UniverseServer, cid: u32, packet: AWPacket) -> bool {
    &&& (post.wf())
    &&& (post.database == pre.database)
    &&& (conn_exists(pre.connections.connections@, cid) && !conn_admin(
            pre.connections.connections@,
            cid,
        ) ==> post.connections == pre.connections)
    &&& (!(packet.spec_get(VarID::EjectionAddress) matches Some(PacketValue::Uint(_)))
            ==> post.connections == pre.connections)
    &&& ((conn_exists(pre.connections.connections@, cid) && conn_admin(
            pre.connections.connections@,
            cid,
        )) ==> match packet.spec_get(VarID::EjectionAddress) {
            Some(PacketValue::Uint(address)) => eject_lookup_outcome(
                pre.connections.connections@,
                post.connections.connections@,
                pre.database,
                cid,
                address,
                EjectionLookupMethod::Next,
                0,
            ),
            _ => true,
        })
}

/// Handles a lookup of the nearest ejection above an address; only an
/// administrator may ask, and an unauthorized or incomplete ask is
/// dropped. The neighbour methods do not read the clock.
pub fn eject_next(server: &mut UniverseServer, cid: u32, packet: &AWPacket)
    requires
        old(server).wf(),
    ensures
        eject_next_post(*old(server), *final(server), cid, *packet),
{
    let idx = match server.connections.index_by_cid(cid) {
        Some(i) => i,
        None => {
            return ;
        },
    };
    proof {
        lemma_conn_views_at(server.connections.connections@, idx as int, cid);
    }
    let is_admin = {
        let conn = &server.connections.connections[idx];
        conn.has_admin_permissions()
    };
    if !is_admin {
        return ;
    }
    let address = match packet.get_uint(VarID::EjectionAddress) {
        Some(x) => x,
        None => {
            return ;
        },
    };
    let now = unix_epoch_timestamp_u32();
    eject_lookup_by_method(server, cid, address, EjectionLookupMethod::Next, now);
}

/// Handles an exact ejection lookup at a known clock reading; only an
/// administrator may ask, and an unauthorized or incomplete ask is
/// dropped. The answer reports only an ejection still in force.
pub fn eject_lookup_at(server: &mut UniverseServer, cid: u32, packet: &AWPacket, now: u32)
    requires
        old(server).wf(),
    ensures
        final(server).wf(),
        final(server).database == old(server).database,
        conn_exists(old(server).connections.connections@, cid) && !conn_admin(
            old(server).connections.connections@,
            cid,
        ) ==> final(server).connections == old(server).connections,
        !(packet.spec_get(VarID::EjectionAddress) matches Some(PacketValue::Uint(_)))
            ==> final(server).connections == old(server).connections,
        (conn_exists(old(server).connections.connections@, cid) && conn_admin(
            old(server).connections.connections@,
            cid,
        )) ==> match packet.spec_get(VarID::EjectionAddress) {
            Some(PacketValue::Uint(address)) => eject_lookup_outcome(
                old(server).connections.connections@,
                final(server).connections.connections@,
                old(server).database,
                cid,
                address,
                EjectionLookupMethod::Exact,
                now,
            ),
            _ => true,
        },
{
    let idx = match server.connections.index_by_cid(cid) {
        Some(i) => i,
        None => {
            return ;
        },
    };
    proof {
        lemma_conn_views_at(server.connections.connections@, idx as int, cid);
    }
    let is_admin = {
        let conn = &server.connections.connections[idx];
        conn.has_admin_permissions()
    };
    if !is_admin {
        return ;
    }
    let address = match packet.get_uint(VarID::EjectionAddress) {
        Some(x) => x,
        None => {
            return ;
        },
    };
    eject_lookup_by_method(server, cid, address, EjectionLookupMethod::Exact, now);
}

/// Everything `eject_lookup` promises, as one predicate over the server
/// states; the dispatcher promises it per packet type.
pub open spec fn eject_lookup_post(pre: UniverseServer, post: UniverseServer, cid: u32, packet: AWPacket) -> bool {
    &&& (post.wf())
    &&& (post.database == pre.database)
    &&& (conn_exists(pre.connections.connections@, cid) && !conn_admin(
            pre.connections.connections@,
            cid,
        ) ==> post.connections == pre.connections)
    &&& (!(packet.spec_get(VarID::EjectionAddress) matches Some(PacketValue::Uint(_)))
            ==> post.connections == pre.connections)
    &&& ((conn_exists(pre.connections.connections@, cid) && conn_admin(
            pre.connections.connections@,
            cid,
        )) ==> match packet.spec_get(VarID::EjectionAddress) {
            Some(PacketValue::Uint(address)) => exists|t: u32|
                #[trigger] eject_lookup_outcome(
                    pre.connections.connections@,
                    post.connections.connections@,
                    pre.database,
                    cid,
                    address,
                    EjectionLookupMethod::Exact,
                    t,
                ),
            _ => true,
        })
}

/// Handles an exact ejection lookup: reads the clock and hands on. The
/// outcome holds for the clock reading the call was made at.
pub fn eject_lookup(server: &mut UniverseServer, cid: u32, packet: &AWPacket)
    requires
        old(server).wf(),
    ensures
        eject_lookup_post(*old(server), *final(server), cid, *packet),
{
    let now = unix_epoch_timestamp_u32();
    eject_lookup_at(server, cid, packet, now);
}

} // verus!
