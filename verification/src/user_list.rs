//! The user-list tab: which players are connected, delivered in pages.

use vstd::prelude::*;
use crate::connection::{ClientInfo, UniverseConnection};
use crate::packet::{AWPacket, PacketType, PacketValue, VarID};
use crate::server::UniverseServer;
use crate::tabs::PlayerEntry;

verus! {

/// How many lines fit one delivery, bounded by the transport's packet
/// size.
pub const USER_LIST_CHUNK: usize = 64;

/// The lines of a snapshot whose key is at least the continuation id, in
/// snapshot order.
pub open spec fn players_from(cur: Seq<PlayerEntry>, k: u32) -> Seq<PlayerEntry>
    decreases cur.len(),
{
    if cur.len() == 0 {
        Seq::empty()
    } else if cur[0].cid >= k {
        seq![cur[0]] + players_from(cur.skip(1), k)
    } else {
        players_from(cur.skip(1), k)
    }
}

/// Whether a packet renders one user-list line.
pub open spec fn player_entry_renders(pk: AWPacket, e: PlayerEntry) -> bool {
    &&& pk.packet_type == PacketType::UserList
    &&& crate::packet::find_var(pk.vars@, VarID::UserListID) == Some(PacketValue::Uint(e.cid))
    &&& crate::packet::find_var(pk.vars@, VarID::UserListCitizenID) == Some(
        PacketValue::Uint(e.cit_id),
    )
    &&& (crate::packet::find_var(pk.vars@, VarID::UserListName) matches Some(PacketValue::Text(t))
        && t@ == e.username@)
}

/// The continuation key a request carries; a missing variable means the
/// start of the list.
pub open spec fn spec_continuation(p: AWPacket) -> u32 {
    match p.spec_get(VarID::UserListContinuationID) {
        Some(PacketValue::Uint(u)) => u,
        _ => 0,
    }
}

/// The connections that carry player sessions, in registry order.
pub open spec fn player_conns(s: Seq<UniverseConnection>) -> Seq<UniverseConnection>
    decreases s.len(),
{
    if s.len() == 0 {
        Seq::empty()
    } else if s[0].client matches Some(ClientInfo::Player(_)) {
        seq![s[0]] + player_conns(s.skip(1))
    } else {
        player_conns(s.skip(1))
    }
}

/// Whether one user-list line renders one connection: the connection id,
/// the player's display name, citizen id (zero for a tourist) and away
/// flag.
pub open spec fn entry_matches_conn(e: PlayerEntry, c: UniverseConnection) -> bool {
    &&& e.cid == c.cid
    &&& match c.client {
        Some(ClientInfo::Player(p)) => {
            &&& e.username@ == p.username@
            &&& e.afk == p.afk
            &&& e.cit_id == (match p.citizen {
                Some(cs) => cs.cit_id,
                None => 0u32,
            })
        },
        _ => false,
    }
}

/// A correct player-list tab: one line per player connection, in registry
/// order.
pub open spec fn player_tab_matches(s: Seq<UniverseConnection>, cur: Seq<PlayerEntry>) -> bool {
    let pc = player_conns(s);
    &&& cur.len() == pc.len()
    &&& forall|k: int| 0 <= k < pc.len() ==> #[trigger] entry_matches_conn(cur[k], pc[k])
}

/// Rebuilds the player-list tab of the player at connection `cid` from
/// the live registry.
#[verifier::loop_isolation(false)]
#[verifier::rlimit(100)]
pub fn regenerate_player_list(server: &mut UniverseServer, cid: u32)
    requires
        old(server).wf(),
    ensures
        final(server).wf(),
        final(server).database == old(server).database,
        final(server).connections.connections@.len() == old(
            server,
        ).connections.connections@.len(),
        forall|j: int|
            0 <= j < old(server).connections.connections@.len() && (#[trigger] old(
                server,
            ).connections.connections@[j]).cid != cid ==> final(server).connections.connections@[j]
                == old(server).connections.connections@[j],
        forall|j: int|
            (0 <= j < old(server).connections.connections@.len() && (#[trigger] old(
                server,
            ).connections.connections@[j]).cid == cid && (old(
                server,
            ).connections.connections@[j].client matches Some(ClientInfo::Player(_))))
                ==> match final(server).connections.connections@[j].client {
                Some(ClientInfo::Player(p1)) => player_tab_matches(
                    old(server).connections.connections@,
                    p1.tabs.player_list.current@,
                ),
                _ => false,
            },
{
    let idx = match server.connections.index_by_cid(cid) {
        Some(i) => i,
        None => {
            return ;
        },
    };
    proof {
        crate::connection::lemma_conn_views_at(server.connections.connections@, idx as int, cid);
    }
    let n = server.connections.connections.len();
    let mut entries: Vec<PlayerEntry> = Vec::new();
    let mut i: usize = 0;
    let ghost s0 = server.connections.connections@;
    let ghost mut processed: Seq<UniverseConnection> = Seq::empty();
    assert(s0.skip(0) =~= s0);
    assert(player_conns(s0) =~= processed + player_conns(s0.skip(0)));
    while i < n
        invariant
            i <= n,
            n == s0.len(),
            s0 == server.connections.connections@,
            *server == *old(server),
            player_conns(s0) == processed + player_conns(s0.skip(i as int)),
            entries@.len() == processed.len(),
            forall|k: int|
                0 <= k < entries@.len() ==> #[trigger] entry_matches_conn(
                    entries@[k],
                    processed[k],
                ),
        decreases n - i,
    {
        assert(s0.skip(i as int)[0] == s0[i as int]);
        assert(s0.skip(i as int).skip(1) =~= s0.skip(i + 1));
        let conn = &server.connections.connections[i];
        match &conn.client {
            Some(ClientInfo::Player(p)) => {
                let ghost entries0 = entries@;
                let ghost processed0 = processed;
                let en = PlayerEntry {
                    cid: conn.cid,
                    username: p.username.clone(),
                    cit_id: match &p.citizen {
                        Some(cs) => cs.cit_id,
                        None => 0,
                    },
                    afk: p.afk,
                };
                entries.push(en);
                proof {
                    assert(player_conns(s0.skip(i as int)) == seq![s0[i as int]] + player_conns(
                        s0.skip(i + 1),
                    ));
                    processed = processed.push(s0[i as int]);
                    assert(player_conns(s0) =~= processed + player_conns(s0.skip(i + 1)));
                    assert(entry_matches_conn(entries@.last(), s0[i as int]));
                    assert forall|k: int|
                        0 <= k < entries@.len() implies #[trigger] entry_matches_conn(
                        entries@[k],
                        processed[k],
                    ) by {
                        if k < entries@.len() - 1 {
                            assert(entries@[k] == entries0[k]);
                            assert(processed[k] == processed0[k]);
                        } else {
                            assert(entries@[k] == entries@.last());
                            assert(processed[k] == s0[i as int]);
                        }
                    }
                }
            },
            _ => {},
        }
        i = i + 1;
    }
    assert(s0.skip(n as int) =~= Seq::<UniverseConnection>::empty());
    assert(player_conns(s0) =~= processed);
    let _ = server.connections.set_player_tab(idx, entries);
}

/// Renders one user-list line as a packet.
pub fn player_entry_packet(e: &PlayerEntry) -> (r: AWPacket)
    ensures
        r.packet_type == PacketType::UserList,
        crate::packet::find_var(r.vars@, VarID::UserListID) == Some(PacketValue::Uint(e.cid)),
        crate::packet::find_var(r.vars@, VarID::UserListCitizenID) == Some(
            PacketValue::Uint(e.cit_id),
        ),
        crate::packet::find_var(r.vars@, VarID::UserListName) matches Some(PacketValue::Text(s))
            && s@ == e.username@,
{
    let mut p = AWPacket::new(PacketType::UserList);
    p.add_uint(VarID::UserListID, e.cid);
    p.add_string(VarID::UserListName, e.username.clone());
    p.add_uint(VarID::UserListCitizenID, e.cit_id);
    proof {
        crate::packet::lemma_find_var_at(p.vars@, VarID::UserListID, 0);
        crate::packet::lemma_find_var_at(p.vars@, VarID::UserListName, 1);
        crate::packet::lemma_find_var_at(p.vars@, VarID::UserListCitizenID, 2);
    }
    p
}

/// Everything `user_list` promises, as one predicate over the server
/// states; the dispatcher promises it per packet type.
pub open spec fn user_list_post(pre: UniverseServer, post: UniverseServer, cid: u32, packet: AWPacket) -> bool {
    &&& (post.wf())
    &&& (post.database == pre.database)
    &&& (post.connections.connections@.len() == pre.connections.connections@.len())
    &&& (forall|j: int|
            0 <= j < pre.connections.connections@.len() && (#[trigger] pre.connections.connections@[j]).cid != cid ==> post.connections.connections@[j]
                == pre.connections.connections@[j])
    &&& (forall|j: int|
            0 <= j < pre.connections.connections@.len() && (#[trigger] pre.connections.connections@[j]).cid == cid ==> {
                let c0 = pre.connections.connections@[j];
                let c1 = post.connections.connections@[j];
                &&& c1.cid == c0.cid
                &&& c1.client == c0.client
                &&& match c0.client {
                    Some(ClientInfo::Player(p0)) => {
                        let pg = players_from(
                            p0.tabs.player_list.current@,
                            spec_continuation(packet),
                        );
                        let cnt = if pg.len() <= USER_LIST_CHUNK as int {
                            pg.len() as int
                        } else {
                            USER_LIST_CHUNK as int
                        };
                        &&& c1.outgoing@.len() == c0.outgoing@.len() + cnt
                        &&& c1.outgoing@.take(c0.outgoing@.len() as int) == c0.outgoing@
                        &&& forall|m: int|
                            0 <= m < cnt ==> player_entry_renders(
                                #[trigger] c1.outgoing@[c0.outgoing@.len() + m],
                                pg[m],
                            )
                    },
                    _ => c1.address == c0.address && c1.outgoing@ == c0.outgoing@,
                }
            })
}

/// Handles a user-list request: sends the lines of the current snapshot
/// whose key is at least the supplied continuation id, in snapshot order,
/// as one size-capped page.
#[verifier::loop_isolation(false)]
#[verifier::rlimit(100)]
pub fn user_list(server: &mut UniverseServer, cid: u32, packet: &AWPacket)
    requires
        old(server).wf(),
    ensures
        user_list_post(*old(server), *final(server), cid, *packet),
{
    let continuation_id = match packet.get_uint(VarID::UserListContinuationID) {
        Some(x) => x,
        None => 0,
    };
    let idx = match server.connections.index_by_cid(cid) {
        Some(i) => i,
        None => {
            return ;
        },
    };
    proof {
        crate::connection::lemma_conn_views_at(server.connections.connections@, idx as int, cid);
    }
    let mut page: Vec<AWPacket> = Vec::new();
    let ghost mut matched: Seq<PlayerEntry> = Seq::empty();
    {
        let conn = &server.connections.connections[idx];
        match &conn.client {
            Some(ClientInfo::Player(p)) => {
                let cur = &p.tabs.player_list.current;
                let n = cur.len();
                let mut i: usize = 0;
                assert(cur@.skip(0) =~= cur@);
                assert(players_from(cur@, continuation_id) =~= matched + players_from(
                    cur@.skip(0),
                    continuation_id,
                ));
                while i < n
                    invariant
                        i <= n,
                        n == cur@.len(),
                        players_from(cur@, continuation_id) == matched + players_from(
                            cur@.skip(i as int),
                            continuation_id,
                        ),
                        page@.len() == (if matched.len() <= USER_LIST_CHUNK as int {
                            matched.len() as int
                        } else {
                            USER_LIST_CHUNK as int
                        }),
                        forall|m: int|
                            0 <= m < page@.len() ==> player_entry_renders(
                                #[trigger] page@[m],
                                matched[m],
                            ),
                    decreases n - i,
                {
                    assert(cur@.skip(i as int)[0] == cur@[i as int]);
                    assert(cur@.skip(i as int).skip(1) =~= cur@.skip(i + 1));
                    if cur[i].cid >= continuation_id {
                        proof {
                            assert(players_from(cur@.skip(i as int), continuation_id) == seq![
                                cur@[i as int],
                            ] + players_from(cur@.skip(i + 1), continuation_id));
                        }
                        if page.len() < USER_LIST_CHUNK {
                            let pk = player_entry_packet(&cur[i]);
                            page.push(pk);
                        }
                        proof {
                            matched = matched.push(cur@[i as int]);
                            assert(players_from(cur@, continuation_id) =~= matched + players_from(
                                cur@.skip(i + 1),
                                continuation_id,
                            ));
                        }
                    }
                    i = i + 1;
                }
                assert(cur@.skip(n as int) =~= Seq::<PlayerEntry>::empty());
                assert(players_from(cur@, continuation_id) =~= matched);
            },
            _ => {},
        }
    }
    let ghost smid = server.connections.connections@;
    let ghost pageorig = page@;
    let total = page.len();
    let mut sent: usize = 0;
    while sent < total
        invariant
            sent <= total,
            total == pageorig.len(),
            server.database == old(server).database,
            idx < server.connections.connections@.len(),
            server.connections.wf(),
            server.connections.connections@.len() == smid.len(),
            page@ == pageorig.skip(sent as int),
            forall|j: int|
                0 <= j < smid.len() && j != idx as int ==> server.connections.connections@[j]
                    == smid[j],
            server.connections.connections@[idx as int].cid == smid[idx as int].cid,
            server.connections.connections@[idx as int].address == smid[idx as int].address,
            server.connections.connections@[idx as int].client == smid[idx as int].client,
            server.connections.connections@[idx as int].outgoing@ == smid[idx as int].outgoing@
                + pageorig.take(sent as int),
        decreases total - sent,
    {
        let ghost scur = server.connections.connections@;
        assert(page@[0] == pageorig[sent as int]);
        let pk = page.remove(0);
        server.connections.send_to_index(idx, pk);
        proof {
            let snew = server.connections.connections@;
            assert(page@ =~= pageorig.skip(sent + 1));
            assert(snew[idx as int].outgoing@ == scur[idx as int].outgoing@.push(pk));
            assert(snew[idx as int].outgoing@ =~= smid[idx as int].outgoing@ + pageorig.take(
                sent + 1,
            ));
            assert forall|a: int, b: int| 0 <= a < b < snew.len() implies snew[a].cid
                != snew[b].cid by {
                assert(snew[a].cid == scur[a].cid);
                assert(snew[b].cid == scur[b].cid);
            }
            assert forall|a: int, b: int| 0 <= a < b < snew.len() implies !(
            snew[a].spec_citizen_id() is Some && snew[a].spec_citizen_id()
                == snew[b].spec_citizen_id()) by {
                assert(snew[a].client == scur[a].client);
                assert(snew[b].client == scur[b].client);
                assert(snew[a].spec_citizen_id() == scur[a].spec_citizen_id());
                assert(snew[b].spec_citizen_id() == scur[b].spec_citizen_id());
                assert(!(scur[a].spec_citizen_id() is Some && scur[a].spec_citizen_id()
                    == scur[b].spec_citizen_id()));
            }
        }
        sent = sent + 1;
    }
    proof {
        let s1 = server.connections.connections@;
        assert(s1[idx as int].outgoing@ == smid[idx as int].outgoing@ + pageorig.take(
            total as int,
        ));
        assert(pageorig.take(total as int) =~= pageorig);
        assert forall|j: int|
            0 <= j < smid.len() && (#[trigger] smid[j]).cid == cid implies j == idx as int by {
            if j < idx as int {
                assert(smid[j].cid != smid[idx as int].cid);
            } else if j > idx as int {
                assert(smid[idx as int].cid != smid[j].cid);
            }
        }
        assert(s1[idx as int].outgoing@.take(smid[idx as int].outgoing@.len() as int)
            =~= smid[idx as int].outgoing@);
    }
}

} // verus!
