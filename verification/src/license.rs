//! World license administration: add, change, and name iteration.

use vstd::prelude::*;
use crate::connection::{conn_admin, conn_exists, lemma_conn_views_at, sent_response};
use crate::database::{license_with_id, license_with_name};
use crate::packet::{find_var, lemma_find_var_absent, lemma_find_var_push, AWPacket, PacketType,
    PacketValue, VarID};
use crate::reason::ReasonCode;
use crate::records::{DatabaseResult, LicenseQuery};
use crate::server::UniverseServer;
use crate::text::str_lt;
use crate::world_name::{check_valid_world_name, spec_check_world_name};

verus! {

/// Which neighbour of a world name a lookup asks for.
#[derive(Clone, Copy, Debug, PartialEq, Eq, Structural)]
pub enum WorldLicenseLookupMethod {
    Previous,
    Exact,
    Next,
}

/// Every variable a license carries on the wire is present with its type.
pub open spec fn lic_packet_complete(p: AWPacket) -> bool {
    &&& p.spec_get(VarID::WorldName) matches Some(PacketValue::Text(_))
    &&& p.spec_get(VarID::WorldLicensePassword) matches Some(PacketValue::Text(_))
    &&& p.spec_get(VarID::WorldLicenseEmail) matches Some(PacketValue::Text(_))
    &&& p.spec_get(VarID::WorldLicenseComment) matches Some(PacketValue::Text(_))
    &&& p.spec_get(VarID::WorldLicenseExpiration) matches Some(PacketValue::Uint(_))
    &&& p.spec_get(VarID::WorldLicenseHidden) matches Some(PacketValue::Uint(_))
    &&& p.spec_get(VarID::WorldLicenseTourists) matches Some(PacketValue::Uint(_))
    &&& p.spec_get(VarID::WorldLicenseUsers) matches Some(PacketValue::Uint(_))
    &&& p.spec_get(VarID::WorldLicenseRange) matches Some(PacketValue::Uint(_))
    &&& p.spec_get(VarID::WorldLicenseVoip) matches Some(PacketValue::Uint(_))
    &&& p.spec_get(VarID::WorldLicensePlugins) matches Some(PacketValue::Uint(_))
}

/// Reads a license out of a request packet. The id and the server-owned
/// timestamps come back zero: the store assigns them.
pub fn license_from_packet(packet: &AWPacket) -> (r: Result<LicenseQuery, String>)
    ensures
        r is Ok <==> lic_packet_complete(*packet),
        r matches Ok(l) ==> {
            &&& packet.spec_get(VarID::WorldName) matches Some(PacketValue::Text(s)) && l.name@
                == s@
            &&& packet.spec_get(VarID::WorldLicensePassword) matches Some(PacketValue::Text(s))
                && l.password@ == s@
            &&& packet.spec_get(VarID::WorldLicenseEmail) matches Some(PacketValue::Text(s))
                && l.email@ == s@
            &&& packet.spec_get(VarID::WorldLicenseComment) matches Some(PacketValue::Text(s))
                && l.comment@ == s@
            &&& packet.spec_get(VarID::WorldLicenseExpiration) matches Some(PacketValue::Uint(u))
                && l.expiration == u
            &&& packet.spec_get(VarID::WorldLicenseHidden) matches Some(PacketValue::Uint(u))
                && l.hidden == u
            &&& packet.spec_get(VarID::WorldLicenseTourists) matches Some(PacketValue::Uint(u))
                && l.tourists == u
            &&& packet.spec_get(VarID::WorldLicenseUsers) matches Some(PacketValue::Uint(u))
                && l.users == u
            &&& packet.spec_get(VarID::WorldLicenseRange) matches Some(PacketValue::Uint(u))
                && l.world_size == u
            &&& packet.spec_get(VarID::WorldLicenseVoip) matches Some(PacketValue::Uint(u))
                && l.voip == u
            &&& packet.spec_get(VarID::WorldLicensePlugins) matches Some(PacketValue::Uint(u))
                && l.plugins == u
            &&& l.id == 0
            &&& l.creation == 0
            &&& l.last_start == 0
            &&& l.last_address == 0
            &&& l.changed == 0
        },
{
    let name = match packet.get_string(VarID::WorldName) {
        Some(x) => x,
        None => {
            return Err("No world name".to_owned());
        },
    };
    let password = match packet.get_string(VarID::WorldLicensePassword) {
        Some(x) => x,
        None => {
            return Err("No world password".to_owned());
        },
    };
    let email = match packet.get_string(VarID::WorldLicenseEmail) {
        Some(x) => x,
        None => {
            return Err("No license email".to_owned());
        },
    };
    let comment = match packet.get_string(VarID::WorldLicenseComment) {
        Some(x) => x,
        None => {
            return Err("No license comment".to_owned());
        },
    };
    let expiration = match packet.get_uint(VarID::WorldLicenseExpiration) {
        Some(x) => x,
        None => {
            return Err("No license expiration".to_owned());
        },
    };
    let hidden = match packet.get_uint(VarID::WorldLicenseHidden) {
        Some(x) => x,
        None => {
            return Err("No license hidden".to_owned());
        },
    };
    let tourists = match packet.get_uint(VarID::WorldLicenseTourists) {
        Some(x) => x,
        None => {
            return Err("No license tourists".to_owned());
        },
    };
    let users = match packet.get_uint(VarID::WorldLicenseUsers) {
        Some(x) => x,
        None => {
            return Err("No license users".to_owned());
        },
    };
    let world_size = match packet.get_uint(VarID::WorldLicenseRange) {
        Some(x) => x,
        None => {
            return Err("No license world size".to_owned());
        },
    };
    let voip = match packet.get_uint(VarID::WorldLicenseVoip) {
        Some(x) => x,
        None => {
            return Err("No license voip".to_owned());
        },
    };
    let plugins = match packet.get_uint(VarID::WorldLicensePlugins) {
        Some(x) => x,
        None => {
            return Err("No license plugins".to_owned());
        },
    };
    Ok(
        LicenseQuery {
            id: 0,
            name,
            password,
            email,
            comment,
            expiration,
            last_start: 0,
            last_address: 0,
            users,
            world_size,
            hidden,
            changed: 0,
            tourists,
            voip,
            plugins,
            creation: 0,
        },
    )
}

/// Renders a license as response variables: everyone sees the name, id,
/// user cap and size; only an administrator sees the rest. The filtering
/// is a security boundary.
pub fn license_to_vars(lic: &LicenseQuery, admin: bool) -> (r: Vec<(VarID, PacketValue)>)
    ensures
        admin ==> r@.len() == 15,
        !admin ==> r@.len() == 4,
        r@[0].0 == VarID::WorldName,
        r@[0].1 matches PacketValue::Text(s) && s@ == lic.name@,
        r@[1] == (VarID::WorldLicenseID, PacketValue::Uint(lic.id)),
        r@[2] == (VarID::WorldLicenseUsers, PacketValue::Uint(lic.users)),
        r@[3] == (VarID::WorldLicenseRange, PacketValue::Uint(lic.world_size)),
        admin ==> {
            &&& r@[4].0 == VarID::WorldLicensePassword
            &&& (r@[4].1 matches PacketValue::Text(s) && s@ == lic.password@)
            &&& r@[5].0 == VarID::WorldLicenseEmail
            &&& (r@[5].1 matches PacketValue::Text(s) && s@ == lic.email@)
            &&& r@[6].0 == VarID::WorldLicenseComment
            &&& (r@[6].1 matches PacketValue::Text(s) && s@ == lic.comment@)
            &&& r@[7] == (VarID::WorldLicenseCreation, PacketValue::Uint(lic.creation))
            &&& r@[8] == (VarID::WorldLicenseExpiration, PacketValue::Uint(lic.expiration))
            &&& r@[9] == (VarID::WorldLicenseLastStart, PacketValue::Uint(lic.last_start))
            &&& r@[10] == (VarID::WorldLicenseLastAddress, PacketValue::Uint(lic.last_address))
            &&& r@[11] == (VarID::WorldLicenseTourists, PacketValue::Uint(lic.tourists))
            &&& r@[12] == (VarID::WorldLicenseHidden, PacketValue::Uint(lic.hidden))
            &&& r@[13] == (VarID::WorldLicenseVoip, PacketValue::Uint(lic.voip))
            &&& r@[14] == (VarID::WorldLicensePlugins, PacketValue::Uint(lic.plugins))
        },
        forall|i: int| 0 <= i < r@.len() ==> (#[trigger] r@[i]).0 != VarID::ReasonCode,
        forall|i: int| 0 < i < r@.len() ==> (#[trigger] r@[i]).0 != VarID::WorldName,
{
    let mut result: Vec<(VarID, PacketValue)> = Vec::new();
    result.push((VarID::WorldName, PacketValue::Text(lic.name.clone())));
    result.push((VarID::WorldLicenseID, PacketValue::Uint(lic.id)));
    result.push((VarID::WorldLicenseUsers, PacketValue::Uint(lic.users)));
    result.push((VarID::WorldLicenseRange, PacketValue::Uint(lic.world_size)));
    if admin {
        result.push((VarID::WorldLicensePassword, PacketValue::Text(lic.password.clone())));
        result.push((VarID::WorldLicenseEmail, PacketValue::Text(lic.email.clone())));
        result.push((VarID::WorldLicenseComment, PacketValue::Text(lic.comment.clone())));
        result.push((VarID::WorldLicenseCreation, PacketValue::Uint(lic.creation)));
        result.push((VarID::WorldLicenseExpiration, PacketValue::Uint(lic.expiration)));
        result.push((VarID::WorldLicenseLastStart, PacketValue::Uint(lic.last_start)));
        result.push((VarID::WorldLicenseLastAddress, PacketValue::Uint(lic.last_address)));
        result.push((VarID::WorldLicenseTourists, PacketValue::Uint(lic.tourists)));
        result.push((VarID::WorldLicenseHidden, PacketValue::Uint(lic.hidden)));
        result.push((VarID::WorldLicenseVoip, PacketValue::Uint(lic.voip)));
        result.push((VarID::WorldLicensePlugins, PacketValue::Uint(lic.plugins)));
    }
    result
}

/// Everything `license_add` promises, as one predicate over the server
/// states; the dispatcher promises it per packet type.
pub open spec fn license_add_post(pre: UniverseServer, post: UniverseServer, cid: u32, packet: AWPacket) -> bool {
    &&& (post.wf())
    &&& (post.database.citizens@ == pre.database.citizens@)
    &&& (post.database.contacts@ == pre.database.contacts@)
    &&& (post.database.telegrams@ == pre.database.telegrams@)
    &&& (post.database.ejections@ == pre.database.ejections@)
    &&& (!conn_exists(pre.connections.connections@, cid) ==> post.connections
            == pre.connections && post.database == pre.database)
    &&& (conn_exists(pre.connections.connections@, cid) ==> {
            let s0 = pre.connections.connections@;
            let s1 = post.connections.connections@;
            let db0 = pre.database;
            let db1 = post.database;
            &&& match packet.spec_get(VarID::WorldName) {
                Some(PacketValue::Text(nm)) => {
                    &&& !conn_admin(s0, cid) ==> (sent_response(s0, s1, cid,
                PacketType::LicenseChangeResult, ReasonCode::Unauthorized) && db1 == db0)
                &&& conn_admin(s0, cid) ==> {
                    &&& !lic_packet_complete(packet) ==> (s1 == s0 && db1 == db0)
                    &&& lic_packet_complete(packet) ==> {
                        &&& match spec_check_world_name(nm@) {
                            Err(rc) => sent_response(s0, s1, cid, PacketType::LicenseChangeResult,
                            rc) && db1 == db0,
                            Ok(_) => true,
                        }
                        &&& spec_check_world_name(nm@) is Ok ==> {
                            &&& license_with_name(db0.licenses@, nm@) is Some ==> (sent_response(
                                s0,
                                s1,
                                cid,
                                PacketType::LicenseChangeResult,
                                ReasonCode::WorldAlreadyExists,
                            ) && db1 == db0)
                            &&& license_with_name(db0.licenses@, nm@) is None ==> {
                                &&& db0.next_license_id == u32::MAX ==> (sent_response(s0, s1,
                                cid, PacketType::LicenseChangeResult,
                                ReasonCode::UnableToInsertName) && db1.licenses@
                                    == db0.licenses@)
                                &&& db0.next_license_id < u32::MAX ==> {
                                    &&& sent_response(s0, s1, cid,
                                    PacketType::LicenseChangeResult, ReasonCode::Success)
                                    &&& db1.licenses@.len() == db0.licenses@.len() + 1
                                    &&& license_with_name(db1.licenses@, nm@) matches Some(l)
                                        && l.id == db0.next_license_id
                                }
                            }
                        }
                    }
                }
                },
                _ => sent_response(s0, s1, cid, PacketType::LicenseChangeResult,
                ReasonCode::NameContainsInvalidBlank) && db1 == db0,
            }
        })
}

/// Handles a request to add a world license. Only an administrator may;
/// the name must be acceptable and free, and an unacceptable name is
/// answered with the rule it breaks; on success the new license is stored
/// under a fresh id.
pub fn license_add(server: &mut UniverseServer, cid: u32, packet: &AWPacket)
    requires
        old(server).wf(),
    ensures
        license_add_post(*old(server), *final(server), cid, *packet),
{
    let idx = match server.connections.index_by_cid(cid) {
        Some(i) => i,
        None => {
            return ;
        },
    };
    proof {
        lemma_conn_views_at(server.connections.connections@, idx as int, cid);
    }
    let world_name = match packet.get_string(VarID::WorldName) {
        Some(x) => x,
        None => {
            server.connections.respond(
                idx,
                PacketType::LicenseChangeResult,
                ReasonCode::NameContainsInvalidBlank,
            );
            return ;
        },
    };
    let is_admin = {
        let conn = &server.connections.connections[idx];
        conn.has_admin_permissions()
    };
    if !is_admin {
        server.connections.respond(idx, PacketType::LicenseChangeResult, ReasonCode::Unauthorized);
        return ;
    }
    let lic = match license_from_packet(packet) {
        Ok(x) => x,
        Err(_) => {
            return ;
        },
    };
    match check_valid_world_name(lic.name.as_str()) {
        Ok(_) => {},
        Err(rc) => {
            server.connections.respond(idx, PacketType::LicenseChangeResult, rc);
            return ;
        },
    }
    match server.database.license_by_name(lic.name.as_str()) {
        DatabaseResult::Success(Some(_)) => {
            server.connections.respond(
                idx,
                PacketType::LicenseChangeResult,
                ReasonCode::WorldAlreadyExists,
            );
            return ;
        },
        DatabaseResult::Success(None) => {},
        DatabaseResult::DatabaseError => {
            server.connections.respond(
                idx,
                PacketType::LicenseChangeResult,
                ReasonCode::DatabaseError,
            );
            return ;
        },
    }
    match server.database.license_add(&lic) {
        DatabaseResult::Success(Some(_)) => {
            server.connections.respond(idx, PacketType::LicenseChangeResult, ReasonCode::Success);
        },
        _ => {
            server.connections.respond(
                idx,
                PacketType::LicenseChangeResult,
                ReasonCode::UnableToInsertName,
            );
        },
    }
}

/// What a name lookup promises: the reason code matches the directory,
/// and a found license's name rides in the response.
pub open spec fn license_lookup_post(
    s0: Seq<crate::connection::UniverseConnection>,
    s1: Seq<crate::connection::UniverseConnection>,
    db: crate::database::UniverseDatabase,
    cid: u32,
    packet: AWPacket,
    method: WorldLicenseLookupMethod,
) -> bool {
    &&& !conn_admin(s0, cid) ==> sent_response(s0, s1, cid, PacketType::LicenseResult,
    ReasonCode::Unauthorized)
    &&& conn_admin(s0, cid) ==> match packet.spec_get(VarID::WorldName) {
        Some(PacketValue::Text(nm)) => {
            &&& found_license(db, nm@, method) is Some ==> {
                &&& sent_response(s0, s1, cid, PacketType::LicenseResult, ReasonCode::Success)
                &&& forall|i: int|
                    0 <= i < s0.len() && (#[trigger] s0[i]).cid == cid ==> exists|j: int|
                        #[trigger] method_matches(db, nm@, method, j) && license_response_vars(
                            s1[i].outgoing@.last().vars@,
                            db.licenses@[j],
                        )
            }
            &&& found_license(db, nm@, method) is None ==> sent_response(s0, s1, cid,
            PacketType::LicenseResult, ReasonCode::NoSuchLicense)
        },
        _ => s1 == s0,
    }
}

/// The license a lookup method finds for a queried name: the exact row,
/// or a row whose name is the greatest below or least above the query.
pub open spec fn found_license(
    db: crate::database::UniverseDatabase,
    nm: Seq<char>,
    method: WorldLicenseLookupMethod,
) -> Option<LicenseQuery> {
    match method {
        WorldLicenseLookupMethod::Exact => license_with_name(db.licenses@, nm),
        WorldLicenseLookupMethod::Previous => if exists|i: int|
            0 <= i < db.licenses@.len() && str_lt((#[trigger] db.licenses@[i]).name@, nm) {
            Some(
                db.licenses@[choose|i: int|
                    0 <= i < db.licenses@.len() && str_lt((#[trigger] db.licenses@[i]).name@, nm)
                        && (forall|j: int|
                        0 <= j < db.licenses@.len() && str_lt(
                            (#[trigger] db.licenses@[j]).name@,
                            nm,
                        ) ==> !str_lt(db.licenses@[i].name@, db.licenses@[j].name@))],
            )
        } else {
            None
        },
        WorldLicenseLookupMethod::Next => if exists|i: int|
            0 <= i < db.licenses@.len() && str_lt(nm, (#[trigger] db.licenses@[i]).name@) {
            Some(
                db.licenses@[choose|i: int|
                    0 <= i < db.licenses@.len() && str_lt(nm, (#[trigger] db.licenses@[i]).name@)
                        && (forall|j: int|
                        0 <= j < db.licenses@.len() && str_lt(
                            nm,
                            (#[trigger] db.licenses@[j]).name@,
                        ) ==> !str_lt(db.licenses@[j].name@, db.licenses@[i].name@))],
            )
        } else {
            None
        },
    }
}

/// Whether a stored row is the one the method owes for the queried name:
/// the exact match, or the extremal neighbour below or above.
pub open spec fn method_matches(
    db: crate::database::UniverseDatabase,
    nm: Seq<char>,
    method: WorldLicenseLookupMethod,
    j: int,
) -> bool {
    &&& 0 <= j < db.licenses@.len()
    &&& match method {
        WorldLicenseLookupMethod::Exact => db.licenses@[j].name@ == nm,
        WorldLicenseLookupMethod::Previous => str_lt(db.licenses@[j].name@, nm) && (forall|k: int|
            0 <= k < db.licenses@.len() && str_lt((#[trigger] db.licenses@[k]).name@, nm)
                ==> !str_lt(db.licenses@[j].name@, db.licenses@[k].name@)),
        WorldLicenseLookupMethod::Next => str_lt(nm, db.licenses@[j].name@) && (forall|k: int|
            0 <= k < db.licenses@.len() && str_lt(nm, (#[trigger] db.licenses@[k]).name@)
                ==> !str_lt(db.licenses@[k].name@, db.licenses@[j].name@)),
    }
}

/// The variables of a found-license response, in order: every field of
/// the row, then the success code. Lookups answer administrators only, so
/// the sensitive fields are always included here.
pub open spec fn license_response_vars(vs: Seq<(VarID, PacketValue)>, l: LicenseQuery) -> bool {
    &&& vs.len() == 16
    &&& vs[0].0 == VarID::WorldName
    &&& (vs[0].1 matches PacketValue::Text(t) && t@ == l.name@)
    &&& vs[1] == (VarID::WorldLicenseID, PacketValue::Uint(l.id))
    &&& vs[2] == (VarID::WorldLicenseUsers, PacketValue::Uint(l.users))
    &&& vs[3] == (VarID::WorldLicenseRange, PacketValue::Uint(l.world_size))
    &&& vs[4].0 == VarID::WorldLicensePassword
    &&& (vs[4].1 matches PacketValue::Text(t) && t@ == l.password@)
    &&& vs[5].0 == VarID::WorldLicenseEmail
    &&& (vs[5].1 matches PacketValue::Text(t) && t@ == l.email@)
    &&& vs[6].0 == VarID::WorldLicenseComment
    &&& (vs[6].1 matches PacketValue::Text(t) && t@ == l.comment@)
    &&& vs[7] == (VarID::WorldLicenseCreation, PacketValue::Uint(l.creation))
    &&& vs[8] == (VarID::WorldLicenseExpiration, PacketValue::Uint(l.expiration))
    &&& vs[9] == (VarID::WorldLicenseLastStart, PacketValue::Uint(l.last_start))
    &&& vs[10] == (VarID::WorldLicenseLastAddress, PacketValue::Uint(l.last_address))
    &&& vs[11] == (VarID::WorldLicenseTourists, PacketValue::Uint(l.tourists))
    &&& vs[12] == (VarID::WorldLicenseHidden, PacketValue::Uint(l.hidden))
    &&& vs[13] == (VarID::WorldLicenseVoip, PacketValue::Uint(l.voip))
    &&& vs[14] == (VarID::WorldLicensePlugins, PacketValue::Uint(l.plugins))
    &&& vs[15] == (VarID::ReasonCode, PacketValue::Reason(ReasonCode::Success))
}

/// Looks a license up by the method and answers with its fields; only an
/// administrator may ask, and only an administrator sees the sensitive
/// fields.
#[verifier::loop_isolation(false)]
#[verifier::rlimit(60)]
pub fn send_license_lookup(
    server: &mut UniverseServer,
    cid: u32,
    packet: &AWPacket,
    method: WorldLicenseLookupMethod,
)
    requires
        old(server).wf(),
    ensures
        final(server).wf(),
        final(server).database == old(server).database,
        !conn_exists(old(server).connections.connections@, cid) ==> final(server).connections
            == old(server).connections,
        conn_exists(old(server).connections.connections@, cid) ==> license_lookup_post(
            old(server).connections.connections@,
            final(server).connections.connections@,
            old(server).database,
            cid,
            *packet,
            method,
        ),
{
    let idx = match server.connections.index_by_cid(cid) {
        Some(i) => i,
        None => {
            return ;
        },
    };
    proof {
        lemma_conn_views_at(server.connections.connections@, idx as int, cid);
    }
    let is_admin = {
        let conn = &server.connections.connections[idx];
        conn.has_admin_permissions()
    };
    if !is_admin {
        server.connections.respond(idx, PacketType::LicenseResult, ReasonCode::Unauthorized);
        return ;
    }
    let world_name = match packet.get_string(VarID::WorldName) {
        Some(x) => x,
        None => {
            return ;
        },
    };
    let looked_up = match method {
        WorldLicenseLookupMethod::Previous => server.database.license_prev(world_name.as_str()),
        WorldLicenseLookupMethod::Exact => server.database.license_by_name(world_name.as_str()),
        WorldLicenseLookupMethod::Next => server.database.license_next(world_name.as_str()),
    };
    match looked_up {
        DatabaseResult::Success(Some(lic)) => {
            let p = license_response_packet(&lic);
            let ghost dbg = server.database;
            proof {
                if method == WorldLicenseLookupMethod::Exact {
                    crate::database::lemma_license_with_name_index(dbg.licenses@, world_name@);
                    match license_with_name(dbg.licenses@, world_name@) {
                        Some(c) => {
                            let k = choose|k: int|
                                0 <= k < dbg.licenses@.len() && #[trigger] dbg.licenses@[k] == c
                                    && dbg.licenses@[k].name@ == world_name@;
                            assert(crate::database::same_license(lic, dbg.licenses@[k]));
                        },
                        None => {},
                    }
                }
            }
            let ghost wj: int = choose|j: int|
                0 <= j < dbg.licenses@.len() && crate::database::same_license(
                    lic,
                    #[trigger] dbg.licenses@[j],
                );
            proof {
                assert(license_response_vars(p.vars@, dbg.licenses@[wj]));
                match method {
                    WorldLicenseLookupMethod::Exact => {
                        assert(dbg.licenses@[wj].name@ == world_name@);
                    },
                    WorldLicenseLookupMethod::Previous => {
                        assert(dbg.licenses@[wj].name@ == lic.name@);
                        assert forall|k: int|
                            0 <= k < dbg.licenses@.len() && str_lt(
                                (#[trigger] dbg.licenses@[k]).name@,
                                world_name@,
                            ) implies !str_lt(dbg.licenses@[wj].name@, dbg.licenses@[k].name@) by {
                            assert(!str_lt(lic.name@, dbg.licenses@[k].name@));
                        }
                    },
                    WorldLicenseLookupMethod::Next => {
                        assert(dbg.licenses@[wj].name@ == lic.name@);
                        assert forall|k: int|
                            0 <= k < dbg.licenses@.len() && str_lt(
                                world_name@,
                                (#[trigger] dbg.licenses@[k]).name@,
                            ) implies !str_lt(dbg.licenses@[k].name@, dbg.licenses@[wj].name@) by {
                            assert(!str_lt(dbg.licenses@[k].name@, lic.name@));
                        }
                    },
                }
                assert(method_matches(dbg, world_name@, method, wj));
            }
            let ghost s0 = server.connections.connections@;
            server.connections.respond_packet(idx, p);
            proof {
                let s1 = server.connections.connections@;
                assert forall|i: int| 0 <= i < s0.len() && (#[trigger] s0[i]).cid == cid implies
                    s1[i].outgoing@.len() == s0[i].outgoing@.len() + 1
                    && s1[i].outgoing@.last().packet_type == PacketType::LicenseResult && find_var(
                    s1[i].outgoing@.last().vars@,
                    VarID::ReasonCode,
                ) == Some(PacketValue::Reason(ReasonCode::Success)) && (exists|j: int|
                    #[trigger] method_matches(dbg, world_name@, method, j) && license_response_vars(
                        s1[i].outgoing@.last().vars@,
                        dbg.licenses@[j],
                    )) by {
                    assert(s1[i].outgoing@ == s0[i].outgoing@.push(p));
                    assert(method_matches(dbg, world_name@, method, wj) && license_response_vars(
                        s1[i].outgoing@.last().vars@,
                        dbg.licenses@[wj],
                    ));
                }
            }
        },
        DatabaseResult::Success(None) => {
            server.connections.respond(idx, PacketType::LicenseResult, ReasonCode::NoSuchLicense);
        },
        DatabaseResult::DatabaseError => {
            server.connections.respond(idx, PacketType::LicenseResult, ReasonCode::DatabaseError);
        },
    }
}

/// Builds the packet a successful license lookup or change answers with:
/// every field of the row, then the success code.
#[verifier::loop_isolation(false)]
fn license_response_packet(lic: &LicenseQuery) -> (p: AWPacket)
    ensures
        p.packet_type == PacketType::LicenseResult,
        license_response_vars(p.vars@, *lic),
        find_var(p.vars@, VarID::ReasonCode) == Some(PacketValue::Reason(ReasonCode::Success)),
{
    let mut vars = license_to_vars(lic, true);
    let ghost vorig = vars@;
    let mut p = AWPacket::new(PacketType::LicenseResult);
    let nvars = vars.len();
    let mut k: usize = 0;
    assert(vars@ =~= vorig.skip(0));
    assert(p.vars@ =~= vorig.take(0));
    while k < nvars
        invariant
            k <= nvars,
            nvars == vorig.len(),
            vars@ == vorig.skip(k as int),
            p.packet_type == PacketType::LicenseResult,
            p.vars@ == vorig.take(k as int),
        decreases nvars - k,
    {
        assert(vars@[0] == vorig[k as int]);
        let entry = vars.remove(0);
        p.add_var(entry.0, entry.1);
        proof {
            assert(vars@ =~= vorig.skip(k + 1));
            assert(p.vars@ =~= vorig.take(k + 1));
        }
        k = k + 1;
    }
    assert(p.vars@ =~= vorig);
    p.add_reason(ReasonCode::Success);
    proof {
        assert(p.vars@.len() == 16);
        assert forall|m: int| 0 <= m < 15 implies (#[trigger] p.vars@[m]).0
            != VarID::ReasonCode by {
            assert(p.vars@[m] == vorig[m]);
        }
        crate::packet::lemma_find_var_at(p.vars@, VarID::ReasonCode, 15);
    }
    p
}

/// Everything `license_by_name` promises, as one predicate over the server
/// states; the dispatcher promises it per packet type.
pub open spec fn license_by_name_post(pre: UniverseServer, post: UniverseServer, cid: u32, packet: AWPacket) -> bool {
    &&& (post.wf())
    &&& (post.database == pre.database)
    &&& (!conn_exists(pre.connections.connections@, cid) ==> post.connections
            == pre.connections)
    &&& (conn_exists(pre.connections.connections@, cid) ==> license_lookup_post(
            pre.connections.connections@,
            post.connections.connections@,
            pre.database,
            cid,
            packet,
            WorldLicenseLookupMethod::Exact,
        ))
}

/// Handles an exact license lookup.
pub fn license_by_name(server: &mut UniverseServer, cid: u32, packet: &AWPacket)
    requires
        old(server).wf(),
    ensures
        license_by_name_post(*old(server), *final(server), cid, *packet),
{
    send_license_lookup(server, cid, packet, WorldLicenseLookupMethod::Exact);
}

/// Everything `license_next` promises, as one predicate over the server
/// states; the dispatcher promises it per packet type.
pub open spec fn license_next_post(pre: UniverseServer, post: UniverseServer, cid: u32, packet: AWPacket) -> bool {
    &&& (post.wf())
    &&& (post.database == pre.database)
    &&& (!conn_exists(pre.connections.connections@, cid) ==> post.connections
            == pre.connections)
    &&& (conn_exists(pre.connections.connections@, cid) ==> license_lookup_post(
            pre.connections.connections@,
            post.connections.connections@,
            pre.database,
            cid,
            packet,
            WorldLicenseLookupMethod::Next,
        ))
}

/// Handles a lookup of the next license by name.
pub fn license_next(server: &mut UniverseServer, cid: u32, packet: &AWPacket)
    requires
        old(server).wf(),
    ensures
        license_next_post(*old(server), *final(server), cid, *packet),
{
    send_license_lookup(server, cid, packet, WorldLicenseLookupMethod::Next);
}

/// Everything `license_prev` promises, as one predicate over the server
/// states; the dispatcher promises it per packet type.
pub open spec fn license_prev_post(pre: UniverseServer, post: UniverseServer, cid: u32, packet: AWPacket) -> bool {
    &&& (post.wf())
    &&& (post.database == pre.database)
    &&& (!conn_exists(pre.connections.connections@, cid) ==> post.connections
            == pre.connections)
    &&& (conn_exists(pre.connections.connections@, cid) ==> license_lookup_post(
            pre.connections.connections@,
            post.connections.connections@,
            pre.database,
            cid,
            packet,
            WorldLicenseLookupMethod::Previous,
        ))
}

/// Handles a lookup of the previous license by name.
pub fn license_prev(server: &mut UniverseServer, cid: u32, packet: &AWPacket)
    requires
        old(server).wf(),
    ensures
        license_prev_post(*old(server), *final(server), cid, *packet),
{
    send_license_lookup(server, cid, packet, WorldLicenseLookupMethod::Previous);
}

/// Everything `license_change` promises, as one predicate over the server
/// states; the dispatcher promises it per packet type.
pub open spec fn license_change_post(pre: UniverseServer, post: UniverseServer, cid: u32, packet: AWPacket) -> bool {
    &&& (post.wf())
    &&& (post.database.citizens@ == pre.database.citizens@)
    &&& (post.database.contacts@ == pre.database.contacts@)
    &&& (post.database.telegrams@ == pre.database.telegrams@)
    &&& (post.database.ejections@ == pre.database.ejections@)
    &&& (!conn_exists(pre.connections.connections@, cid) ==> post.connections
            == pre.connections && post.database == pre.database)
    &&& (conn_exists(pre.connections.connections@, cid) ==> {
            let s0 = pre.connections.connections@;
            let s1 = post.connections.connections@;
            let db0 = pre.database;
            let db1 = post.database;
            &&& !conn_admin(s0, cid) ==> (sent_response(s0, s1, cid, PacketType::LicenseResult,
            ReasonCode::Unauthorized) && db1 == db0)
            &&& conn_admin(s0, cid) ==> {
                &&& !lic_packet_complete(packet) ==> (s1 == s0 && db1 == db0)
                &&& lic_packet_complete(packet) ==> match packet.spec_get(VarID::WorldName) {
                    Some(PacketValue::Text(nm)) => {
                        &&& match spec_check_world_name(nm@) {
                            Err(rc) => sent_response(s0, s1, cid, PacketType::LicenseResult, rc)
                                && db1 == db0,
                            Ok(_) => true,
                        }
                        &&& spec_check_world_name(nm@) is Ok ==> match license_with_name(
                            db0.licenses@,
                            nm@,
                        ) {
                            None => sent_response(s0, s1, cid, PacketType::LicenseResult,
                            ReasonCode::NoSuchLicense) && db1 == db0,
                            Some(orig) => {
                                &&& sent_response(s0, s1, cid, PacketType::LicenseResult,
                                ReasonCode::Success)
                                &&& db1.licenses@.len() == db0.licenses@.len()
                                &&& match license_with_name(db1.licenses@, nm@) {
                                    Some(l1) => {
                                        &&& l1.id == orig.id
                                        &&& l1.name@ == orig.name@
                                        &&& l1.creation == orig.creation
                                        &&& l1.last_start == orig.last_start
                                        &&& l1.last_address == orig.last_address
                                        &&& (packet.spec_get(VarID::WorldLicensePassword)
                                            matches Some(PacketValue::Text(v)) && l1.password@
                                            == v@)
                                        &&& (packet.spec_get(VarID::WorldLicenseEmail)
                                            matches Some(PacketValue::Text(v)) && l1.email@ == v@)
                                        &&& (packet.spec_get(VarID::WorldLicenseComment)
                                            matches Some(PacketValue::Text(v)) && l1.comment@
                                            == v@)
                                        &&& (packet.spec_get(VarID::WorldLicenseExpiration)
                                            matches Some(PacketValue::Uint(v)) && l1.expiration
                                            == v)
                                        &&& (packet.spec_get(VarID::WorldLicenseUsers)
                                            matches Some(PacketValue::Uint(v)) && l1.users == v)
                                        &&& (packet.spec_get(VarID::WorldLicenseRange)
                                            matches Some(PacketValue::Uint(v)) && l1.world_size
                                            == v)
                                        &&& (packet.spec_get(VarID::WorldLicenseHidden)
                                            matches Some(PacketValue::Uint(v)) && l1.hidden == v)
                                        &&& (packet.spec_get(VarID::WorldLicenseTourists)
                                            matches Some(PacketValue::Uint(v)) && l1.tourists
                                            == v)
                                        &&& (packet.spec_get(VarID::WorldLicenseVoip)
                                            matches Some(PacketValue::Uint(v)) && l1.voip == v)
                                        &&& (packet.spec_get(VarID::WorldLicensePlugins)
                                            matches Some(PacketValue::Uint(v)) && l1.plugins == v)
                                        &&& forall|i: int|
                                            0 <= i < s0.len() && (#[trigger] s0[i]).cid == cid
                                                ==> license_response_vars(
                                                s1[i].outgoing@.last().vars@,
                                                l1,
                                            )
                                    },
                                    None => false,
                                }
                            },
                        }
                    },
                    _ => true,
                }
            }
        })
}

/// Handles a request to change a world license. Only an administrator
/// may. The stored id, name, creation time, last start and last address
/// are preserved; the password, email, comment, expiration, caps and
/// flags are overwritten from the request.
#[verifier::loop_isolation(false)]
#[verifier::rlimit(60)]
pub fn license_change(server: &mut UniverseServer, cid: u32, packet: &AWPacket)
    requires
        old(server).wf(),
    ensures
        license_change_post(*old(server), *final(server), cid, *packet),
{
    let idx = match server.connections.index_by_cid(cid) {
        Some(i) => i,
        None => {
            return ;
        },
    };
    proof {
        lemma_conn_views_at(server.connections.connections@, idx as int, cid);
    }
    let is_admin = {
        let conn = &server.connections.connections[idx];
        conn.has_admin_permissions()
    };
    if !is_admin {
        server.connections.respond(idx, PacketType::LicenseResult, ReasonCode::Unauthorized);
        return ;
    }
    let changed_lic = match license_from_packet(packet) {
        Ok(x) => x,
        Err(_) => {
            return ;
        },
    };
    match check_valid_world_name(changed_lic.name.as_str()) {
        Ok(_) => {},
        Err(rc) => {
            server.connections.respond(idx, PacketType::LicenseResult, rc);
            return ;
        },
    }
    let original_lic = match server.database.license_by_name(changed_lic.name.as_str()) {
        DatabaseResult::Success(Some(lic)) => lic,
        DatabaseResult::Success(None) => {
            server.connections.respond(idx, PacketType::LicenseResult, ReasonCode::NoSuchLicense);
            return ;
        },
        DatabaseResult::DatabaseError => {
            server.connections.respond(idx, PacketType::LicenseResult, ReasonCode::DatabaseError);
            return ;
        },
    };
    let new_lic = LicenseQuery {
        id: original_lic.id,
        name: original_lic.name.clone(),
        password: changed_lic.password.clone(),
        email: changed_lic.email.clone(),
        comment: changed_lic.comment.clone(),
        creation: original_lic.creation,
        expiration: changed_lic.expiration,
        last_start: original_lic.last_start,
        last_address: original_lic.last_address,
        users: changed_lic.users,
        world_size: changed_lic.world_size,
        hidden: changed_lic.hidden,
        changed: 0,
        tourists: changed_lic.tourists,
        voip: changed_lic.voip,
        plugins: changed_lic.plugins,
    };
    proof {
        let ls = server.database.licenses@;
        crate::database::lemma_license_with_name_index(ls, changed_lic.name@);
        assert forall|j: int| 0 <= j < ls.len() && (#[trigger] ls[j]).name@ == new_lic.name@
            implies ls[j].id == new_lic.id by {
            match license_with_name(ls, changed_lic.name@) {
                Some(c) => {
                    let k = choose|k: int|
                        0 <= k < ls.len() && #[trigger] ls[k] == c && ls[k].name@
                            == changed_lic.name@;
                    if j != k {
                        assert(ls[j].name@ != ls[k].name@);
                    }
                },
                None => {},
            }
        }
        crate::database::lemma_license_with_id_index(ls, new_lic.id);
        if license_with_id(ls, new_lic.id) is None {
            match license_with_name(ls, changed_lic.name@) {
                Some(c) => {
                    let k = choose|k: int|
                        0 <= k < ls.len() && #[trigger] ls[k] == c && ls[k].name@
                            == changed_lic.name@;
                    assert(ls[k].id == new_lic.id);
                    assert(false);
                },
                None => {},
            }
        }
    }
    if server.database.license_change(&new_lic).is_err() {
        server.connections.respond(idx, PacketType::LicenseResult, ReasonCode::UnableToChangeLicense);
        return ;
    }
    match server.database.license_by_name(new_lic.name.as_str()) {
        DatabaseResult::Success(Some(lic2)) => {
            let p = license_response_packet(&lic2);
            let ghost db1g = server.database;
            proof {
                match license_with_name(db1g.licenses@, new_lic.name@) {
                    Some(l1) => {
                        assert(license_response_vars(p.vars@, l1));
                    },
                    None => {},
                }
            }
            let ghost sa = server.connections.connections@;
            server.connections.respond_packet(idx, p);
            proof {
                let sb = server.connections.connections@;
                assert forall|i: int| 0 <= i < sa.len() && (#[trigger] sa[i]).cid == cid implies
                    sb[i].outgoing@.len() == sa[i].outgoing@.len() + 1 && sb[i].outgoing@.last()
                    == p by {
                    assert(sb[i].outgoing@ == sa[i].outgoing@.push(p));
                }
            }
        },
        _ => {
            server.connections.respond(idx, PacketType::LicenseResult, ReasonCode::Success);
        },
    }
}

} // verus!
