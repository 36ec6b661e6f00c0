//! Citizen account changes and their authorization rules.

use vstd::prelude::*;
use crate::connection::{conn_admin, conn_citizen, conn_exists, lemma_conn_views_at, sent_response};
use crate::database::{citizen_with_id, citizen_with_name, UniverseDatabase};
use crate::packet::{AWPacket, PacketType, PacketValue, VarID};
use crate::reason::ReasonCode;
use crate::records::{CitizenQuery, DatabaseResult};
use crate::server::UniverseServer;
use crate::text::eq_ignore_case;

verus! {

/// Every variable a citizen change carries on the wire is present with
/// its type.
pub open spec fn cit_packet_complete(p: AWPacket) -> bool {
    &&& p.spec_get(VarID::CitizenName) matches Some(PacketValue::Text(_))
    &&& p.spec_get(VarID::CitizenNumber) matches Some(PacketValue::Uint(_))
    &&& p.spec_get(VarID::CitizenEmail) matches Some(PacketValue::Text(_))
    &&& p.spec_get(VarID::CitizenPrivilegePassword) matches Some(PacketValue::Text(_))
    &&& p.spec_get(VarID::CitizenExpiration) matches Some(PacketValue::Uint(_))
    &&& p.spec_get(VarID::CitizenBotLimit) matches Some(PacketValue::Uint(_))
    &&& p.spec_get(VarID::BetaUser) matches Some(PacketValue::Uint(_))
    &&& p.spec_get(VarID::CitizenEnabled) matches Some(PacketValue::Uint(_))
    &&& p.spec_get(VarID::CitizenComment) matches Some(PacketValue::Text(_))
    &&& p.spec_get(VarID::CitizenPassword) matches Some(PacketValue::Text(_))
    &&& p.spec_get(VarID::CitizenURL) matches Some(PacketValue::Text(_))
    &&& p.spec_get(VarID::CAVTemplate) matches Some(PacketValue::Uint(_))
    &&& p.spec_get(VarID::CAVEnabled) matches Some(PacketValue::Uint(_))
    &&& p.spec_get(VarID::CitizenPrivacy) matches Some(PacketValue::Uint(_))
    &&& p.spec_get(VarID::TrialUser) matches Some(PacketValue::Uint(_))
}

/// Reads the changed citizen out of a request packet. Server-owned fields
/// come back zero; the store and the change policy decide them.
pub fn citizen_from_packet(packet: &AWPacket) -> (r: Result<CitizenQuery, String>)
    ensures
        r is Ok <==> cit_packet_complete(*packet),
        r matches Ok(c) ==> {
            &&& packet.spec_get(VarID::CitizenName) matches Some(PacketValue::Text(s)) && c.name@
                == s@
            &&& packet.spec_get(VarID::CitizenNumber) matches Some(PacketValue::Uint(u)) && c.id
                == u
            &&& packet.spec_get(VarID::CitizenEmail) matches Some(PacketValue::Text(s)) && c.email@
                == s@
            &&& packet.spec_get(VarID::CitizenPrivilegePassword) matches Some(PacketValue::Text(s))
                && c.priv_pass@ == s@
            &&& packet.spec_get(VarID::CitizenExpiration) matches Some(PacketValue::Uint(u))
                && c.expiration == u
            &&& packet.spec_get(VarID::CitizenBotLimit) matches Some(PacketValue::Uint(u))
                && c.bot_limit == u
            &&& packet.spec_get(VarID::BetaUser) matches Some(PacketValue::Uint(u)) && c.beta == u
            &&& packet.spec_get(VarID::CitizenEnabled) matches Some(PacketValue::Uint(u))
                && c.enabled == u
            &&& packet.spec_get(VarID::CitizenComment) matches Some(PacketValue::Text(s))
                && c.comment@ == s@
            &&& packet.spec_get(VarID::CitizenPassword) matches Some(PacketValue::Text(s))
                && c.password@ == s@
            &&& packet.spec_get(VarID::CitizenURL) matches Some(PacketValue::Text(s)) && c.url@
                == s@
            &&& packet.spec_get(VarID::CAVTemplate) matches Some(PacketValue::Uint(u))
                && c.cav_template == u
            &&& packet.spec_get(VarID::CAVEnabled) matches Some(PacketValue::Uint(u))
                && c.cav_enabled == u
            &&& packet.spec_get(VarID::CitizenPrivacy) matches Some(PacketValue::Uint(u))
                && c.privacy == u
            &&& packet.spec_get(VarID::TrialUser) matches Some(PacketValue::Uint(u)) && c.trial
                == u
            &&& c.changed == 0
            &&& c.immigration == 0
            &&& c.last_login == 0
            &&& c.last_address == 0
            &&& c.total_time == 0
        },
{
    let username = match packet.get_string(VarID::CitizenName) {
        Some(x) => x,
        None => {
            return Err("No citizen name".to_owned());
        },
    };
    let citizen_id = match packet.get_uint(VarID::CitizenNumber) {
        Some(x) => x,
        None => {
            return Err("No citizen number".to_owned());
        },
    };
    let email = match packet.get_string(VarID::CitizenEmail) {
        Some(x) => x,
        None => {
            return Err("No citizen email".to_owned());
        },
    };
    let priv_pass = match packet.get_string(VarID::CitizenPrivilegePassword) {
        Some(x) => x,
        None => {
            return Err("No citizen privilege password".to_owned());
        },
    };
    let expiration = match packet.get_uint(VarID::CitizenExpiration) {
        Some(x) => x,
        None => {
            return Err("No citizen expiration".to_owned());
        },
    };
    let bot_limit = match packet.get_uint(VarID::CitizenBotLimit) {
        Some(x) => x,
        None => {
            return Err("No citizen bot limit".to_owned());
        },
    };
    let beta = match packet.get_uint(VarID::BetaUser) {
        Some(x) => x,
        None => {
            return Err("No citizen beta user".to_owned());
        },
    };
    let enabled = match packet.get_uint(VarID::CitizenEnabled) {
        Some(x) => x,
        None => {
            return Err("No citizen enabled".to_owned());
        },
    };
    let comment = match packet.get_string(VarID::CitizenComment) {
        Some(x) => x,
        None => {
            return Err("No citizen comment".to_owned());
        },
    };
    let password = match packet.get_string(VarID::CitizenPassword) {
        Some(x) => x,
        None => {
            return Err("No citizen password".to_owned());
        },
    };
    let url = match packet.get_string(VarID::CitizenURL) {
        Some(x) => x,
        None => {
            return Err("No citizen url".to_owned());
        },
    };
    let cav_template = match packet.get_uint(VarID::CAVTemplate) {
        Some(x) => x,
        None => {
            return Err("No citizen cav template".to_owned());
        },
    };
    let cav_enabled = match packet.get_uint(VarID::CAVEnabled) {
        Some(x) => x,
        None => {
            return Err("No citizen cav enabled".to_owned());
        },
    };
    let privacy = match packet.get_uint(VarID::CitizenPrivacy) {
        Some(x) => x,
        None => {
            return Err("No citizen privacy".to_owned());
        },
    };
    let trial = match packet.get_uint(VarID::TrialUser) {
        Some(x) => x,
        None => {
            return Err("No citizen trial".to_owned());
        },
    };
    Ok(
        CitizenQuery {
            id: citizen_id,
            changed: 0,
            name: username,
            password,
            email,
            priv_pass,
            comment,
            url,
            immigration: 0,
            expiration,
            last_login: 0,
            last_address: 0,
            total_time: 0,
            bot_limit,
            beta,
            cav_enabled,
            cav_template,
            enabled,
            privacy,
            trial,
        },
    )
}

/// Whether another citizen already holds the name under case folding.
pub open spec fn name_collides(db: UniverseDatabase, name: Seq<char>, id: u32) -> bool {
    citizen_with_name(db.citizens@, name) matches Some(m) && m.id != id
}

/// Applies an account change. A non-administrator's change only reaches
/// the self-serve fields: name, password, email, privilege password, url,
/// avatar template and flag, and the privacy mask. Only an administrator
/// reaches the comment, expiration, bot limit, and the beta, enabled and
/// trial flags. The id, registration time, last login, last address and
/// accumulated time are never written from a change.
pub fn modify_citizen(
    original: &CitizenQuery,
    changed: &CitizenQuery,
    database: &mut UniverseDatabase,
    admin: bool,
) -> (r: Result<(), ReasonCode>)
    requires
        old(database).wf(),
    ensures
        final(database).wf(),
        final(database).licenses@ == old(database).licenses@,
        final(database).contacts@ == old(database).contacts@,
        final(database).telegrams@ == old(database).telegrams@,
        final(database).ejections@ == old(database).ejections@,
        final(database).next_license_id == old(database).next_license_id,
        final(database).next_telegram_id == old(database).next_telegram_id,
        name_collides(*old(database), changed.name@, original.id) ==> (r == Err::<
            (),
            ReasonCode,
        >(ReasonCode::NameAlreadyUsed) && final(database).citizens@ == old(database).citizens@),
        !name_collides(*old(database), changed.name@, original.id) ==> {
            &&& r is Ok
            &&& citizen_with_id(old(database).citizens@, original.id) is None
                ==> final(database).citizens@ == old(database).citizens@
            &&& citizen_with_id(old(database).citizens@, original.id) is Some ==> {
                &&& forall|id2: u32|
                    id2 != original.id ==> citizen_with_id(final(database).citizens@, id2)
                        == citizen_with_id(old(database).citizens@, id2)
                &&& match citizen_with_id(final(database).citizens@, original.id) {
                    Some(c) => {
                        &&& c.id == original.id
                        &&& c.name@ == changed.name@
                        &&& c.password@ == changed.password@
                        &&& c.email@ == changed.email@
                        &&& c.priv_pass@ == changed.priv_pass@
                        &&& c.url@ == changed.url@
                        &&& c.cav_template == changed.cav_template
                        &&& c.cav_enabled == changed.cav_enabled
                        &&& c.privacy == changed.privacy
                        &&& c.comment@ == (if admin {
                            changed.comment@
                        } else {
                            original.comment@
                        })
                        &&& c.expiration == (if admin {
                            changed.expiration
                        } else {
                            original.expiration
                        })
                        &&& c.bot_limit == (if admin {
                            changed.bot_limit
                        } else {
                            original.bot_limit
                        })
                        &&& c.beta == (if admin {
                            changed.beta
                        } else {
                            original.beta
                        })
                        &&& c.enabled == (if admin {
                            changed.enabled
                        } else {
                            original.enabled
                        })
                        &&& c.trial == (if admin {
                            changed.trial
                        } else {
                            original.trial
                        })
                        &&& c.immigration == original.immigration
                        &&& c.last_login == original.last_login
                        &&& c.last_address == original.last_address
                        &&& c.total_time == original.total_time
                    },
                    None => false,
                }
            }
        },
{
    match database.citizen_by_name(changed.name.as_str()) {
        DatabaseResult::Success(Some(matching_cit)) => {
            if matching_cit.id != original.id {
                return Err(ReasonCode::NameAlreadyUsed);
            }
        },
        DatabaseResult::Success(None) => {},
        DatabaseResult::DatabaseError => {
            return Err(ReasonCode::DatabaseError);
        },
    }
    let cit_query = CitizenQuery {
        id: original.id,
        changed: 0,
        name: changed.name.clone(),
        password: changed.password.clone(),
        email: changed.email.clone(),
        priv_pass: changed.priv_pass.clone(),
        comment: if admin {
            changed.comment.clone()
        } else {
            original.comment.clone()
        },
        url: changed.url.clone(),
        immigration: original.immigration,
        expiration: if admin {
            changed.expiration
        } else {
            original.expiration
        },
        last_login: original.last_login,
        last_address: original.last_address,
        total_time: original.total_time,
        bot_limit: if admin {
            changed.bot_limit
        } else {
            original.bot_limit
        },
        beta: if admin {
            changed.beta
        } else {
            original.beta
        },
        cav_enabled: changed.cav_enabled,
        cav_template: changed.cav_template,
        enabled: if admin {
            changed.enabled
        } else {
            original.enabled
        },
        privacy: changed.privacy,
        trial: if admin {
            changed.trial
        } else {
            original.trial
        },
    };
    proof {
        let cs = database.citizens@;
        crate::database::lemma_citizen_with_name_index(cs, changed.name@);
        assert forall|j: int|
            0 <= j < cs.len() && eq_ignore_case((#[trigger] cs[j]).name@, cit_query.name@)
                implies cs[j].id == cit_query.id by {
            match citizen_with_name(cs, changed.name@) {
                Some(c) => {
                    let k = choose|k: int|
                        0 <= k < cs.len() && cs[k] == c && eq_ignore_case(
                            cs[k].name@,
                            changed.name@,
                        );
                    if j != k {
                        if j < k {
                            assert(!eq_ignore_case(cs[j].name@, cs[k].name@));
                        } else {
                            assert(!eq_ignore_case(cs[k].name@, cs[j].name@));
                        }
                        crate::database::lemma_eq_ignore_case_facts(
                            cs[j].name@,
                            cs[k].name@,
                            changed.name@,
                        );
                        assert(false);
                    }
                },
                None => {},
            }
        }
    }
    match database.citizen_change(&cit_query) {
        DatabaseResult::Success(_) => Ok(()),
        DatabaseResult::DatabaseError => Err(ReasonCode::UnableToChangeCitizen),
    }
}

/// Everything `citizen_change` promises, as one predicate over the server
/// states; the dispatcher promises it per packet type.
pub open spec fn citizen_change_post(pre: UniverseServer, post: UniverseServer, cid: u32, packet: AWPacket) -> bool {
    &&& (post.wf())
    &&& (post.database.licenses@ == pre.database.licenses@)
    &&& (post.database.contacts@ == pre.database.contacts@)
    &&& (post.database.telegrams@ == pre.database.telegrams@)
    &&& (post.database.ejections@ == pre.database.ejections@)
    &&& (!cit_packet_complete(packet) ==> post.connections == pre.connections
            && post.database == pre.database)
    &&& (cit_packet_complete(packet) && !conn_exists(pre.connections.connections@, cid)
            ==> post.connections == pre.connections && post.database
            == pre.database)
    &&& (cit_packet_complete(packet) && conn_exists(pre.connections.connections@, cid)
            ==> {
            let s0 = pre.connections.connections@;
            let s1 = post.connections.connections@;
            let db0 = pre.database;
            let db1 = post.database;
            &&& conn_citizen(s0, cid) is None ==> (sent_response(s0, s1, cid,
            PacketType::CitizenChangeResult, ReasonCode::Success) && db1 == db0)
            &&& match (conn_citizen(s0, cid), packet.spec_get(VarID::CitizenNumber)) {
                (Some(self_id), Some(PacketValue::Uint(target))) => {
                    &&& target != self_id && !conn_admin(s0, cid) ==> (sent_response(s0, s1, cid,
                    PacketType::CitizenChangeResult, ReasonCode::Unauthorized) && db1 == db0)
                    &&& (target == self_id || conn_admin(s0, cid)) ==> {
                        &&& citizen_with_id(db0.citizens@, target) is None ==> (sent_response(s0,
                        s1, cid, PacketType::CitizenChangeResult, ReasonCode::NoSuchCitizen)
                            && db1 == db0)
                        &&& citizen_with_id(db0.citizens@, target) is Some ==> {
                            &&& match packet.spec_get(VarID::CitizenName) {
                                Some(PacketValue::Text(nm)) => {
                                    &&& name_collides(db0, nm@, target) ==> (sent_response(s0, s1,
                                    cid, PacketType::CitizenChangeResult,
                                    ReasonCode::NameAlreadyUsed) && db1.citizens@
                                        == db0.citizens@)
                                    &&& !name_collides(db0, nm@, target) ==> {
                                        &&& sent_response(s0, s1, cid,
                                        PacketType::CitizenChangeResult, ReasonCode::Success)
                                        &&& !conn_admin(s0, cid) ==> match (
                                        citizen_with_id(db0.citizens@, target),
                                        citizen_with_id(db1.citizens@, target),
                                        ) {
                                            (Some(before), Some(after)) => {
                                                &&& after.comment@ == before.comment@
                                                &&& after.expiration == before.expiration
                                                &&& after.bot_limit == before.bot_limit
                                                &&& after.beta == before.beta
                                                &&& after.enabled == before.enabled
                                                &&& after.trial == before.trial
                                            },
                                            _ => false,
                                        }
                                    }
                                },
                                _ => true,
                            }
                        }
                    }
                },
                _ => true,
            }
        })
}

/// Handles a citizen change request: the caller must be the citizen in
/// question or an administrator, the target must exist, and the new name
/// must not collide.
pub fn citizen_change(server: &mut UniverseServer, cid: u32, packet: &AWPacket)
    requires
        old(server).wf(),
    ensures
        citizen_change_post(*old(server), *final(server), cid, *packet),
{
    let changed_info = match citizen_from_packet(packet) {
        Ok(x) => x,
        Err(_) => {
            return ;
        },
    };
    let idx = match server.connections.index_by_cid(cid) {
        Some(i) => i,
        None => {
            return ;
        },
    };
    proof {
        lemma_conn_views_at(server.connections.connections@, idx as int, cid);
    }
    let (self_citizen, is_admin) = {
        let conn = &server.connections.connections[idx];
        (conn.citizen_id(), conn.has_admin_permissions())
    };
    let mut rc = ReasonCode::Success;
    match self_citizen {
        Some(player_cit_id) => {
            if changed_info.id != player_cit_id && !is_admin {
                rc = ReasonCode::Unauthorized;
            } else {
                match server.database.citizen_by_number(changed_info.id) {
                    DatabaseResult::Success(Some(original_info)) => {
                        match modify_citizen(
                            &original_info,
                            &changed_info,
                            &mut server.database,
                            is_admin,
                        ) {
                            Ok(_) => {},
                            Err(x) => {
                                rc = x;
                            },
                        }
                    },
                    DatabaseResult::Success(None) => {
                        rc = ReasonCode::NoSuchCitizen;
                    },
                    DatabaseResult::DatabaseError => {
                        rc = ReasonCode::DatabaseError;
                    },
                }
            }
        },
        None => {},
    }
    server.connections.respond(idx, PacketType::CitizenChangeResult, rc);
}

} // verus!
