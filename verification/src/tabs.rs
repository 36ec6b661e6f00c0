//! Per-player tab state: the server-maintained contact list and player
//! list views that are delivered to the client incrementally.

use vstd::prelude::*;

verus! {

/// One line of a player's contact list: another citizen, with the
/// presence the owner is shown.
#[derive(Clone, Debug)]
pub struct ContactEntry {
    pub cit_id: u32,
    pub name: String,
    pub online: bool,
    pub afk: bool,
}

/// Content equality of two contact-list lines.
pub open spec fn same_entry(a: ContactEntry, b: ContactEntry) -> bool {
    &&& a.cit_id == b.cit_id
    &&& a.name@ == b.name@
    &&& a.online == b.online
    &&& a.afk == b.afk
}

impl ContactEntry {
    /// A field-for-field copy of the line.
    pub fn duplicate(&self) -> (r: ContactEntry)
        ensures
            same_entry(r, *self),
    {
        ContactEntry {
            cit_id: self.cit_id,
            name: self.name.clone(),
            online: self.online,
            afk: self.afk,
        }
    }
}

/// The contact tab: `current` is the snapshot the client has been brought
/// up to. A rebuild swaps in a fresh snapshot and sends one update packet
/// per line, which the client applies as an add or update of that line;
/// lines that fell out of the snapshot are not individually retracted.
#[derive(Clone, Debug)]
pub struct ContactListTab {
    pub current: Vec<ContactEntry>,
}

/// One line of the user list: a connected player.
#[derive(Clone, Debug)]
pub struct PlayerEntry {
    pub cid: u32,
    pub username: String,
    pub cit_id: u32,
    pub afk: bool,
}

/// Content equality of two user-list lines.
pub open spec fn same_player_entry(a: PlayerEntry, b: PlayerEntry) -> bool {
    &&& a.cid == b.cid
    &&& a.username@ == b.username@
    &&& a.cit_id == b.cit_id
    &&& a.afk == b.afk
}

impl PlayerEntry {
    /// A field-for-field copy of the line.
    pub fn duplicate(&self) -> (r: PlayerEntry)
        ensures
            same_player_entry(r, *self),
    {
        PlayerEntry {
            cid: self.cid,
            username: self.username.clone(),
            cit_id: self.cit_id,
            afk: self.afk,
        }
    }
}

/// The player-list tab, keyed by connection id for pagination.
#[derive(Clone, Debug)]
pub struct PlayerListTab {
    pub current: Vec<PlayerEntry>,
}

/// All tab state of one player session.
#[derive(Clone, Debug)]
pub struct PlayerTabs {
    pub contact_list: ContactListTab,
    pub player_list: PlayerListTab,
}

impl PlayerTabs {
    /// Empty tabs, as a fresh session starts with.
    pub fn new() -> (r: PlayerTabs)
        ensures
            r.contact_list.current@.len() == 0,
            r.player_list.current@.len() == 0,
    {
        PlayerTabs {
            contact_list: ContactListTab { current: Vec::new() },
            player_list: PlayerListTab { current: Vec::new() },
        }
    }
}

/// The friend edges a contact tab shows: the owner's rows except the
/// default mask row.
pub open spec fn nonzero_edges(es: Seq<crate::records::ContactQuery>) -> Seq<
    crate::records::ContactQuery,
>
    decreases es.len(),
{
    if es.len() == 0 {
        Seq::empty()
    } else if es[0].contact != 0 {
        seq![es[0]] + nonzero_edges(es.skip(1))
    } else {
        nonzero_edges(es.skip(1))
    }
}

/// How a tab line encodes presence on the wire: absent, present, or
/// present but away.
pub open spec fn entry_status(online: bool, afk: bool) -> u32 {
    if !online {
        0
    } else if afk {
        2
    } else {
        1
    }
}

/// A correct contact tab for `owner`: one line per friend edge, in edge
/// order, carrying the friend's stored name and live presence.
pub open spec fn tab_matches(
    db: crate::database::UniverseDatabase,
    conns: Seq<crate::connection::UniverseConnection>,
    owner: u32,
    cur: Seq<ContactEntry>,
) -> bool {
    let edges = nonzero_edges(crate::database::contacts_of_owner(db.contacts@, owner));
    &&& cur.len() == edges.len()
    &&& forall|k: int|
        0 <= k < edges.len() ==> {
            &&& (#[trigger] cur[k]).cit_id == edges[k].contact
            &&& (crate::database::citizen_with_id(db.citizens@, edges[k].contact) matches Some(c)
                ==> cur[k].name@ == c.name@)
            &&& cur[k].online == crate::connection::citizen_online(conns, edges[k].contact)
            &&& cur[k].afk == crate::connection::spec_citizen_afk(conns, edges[k].contact)
        }
}

/// A tab built against one registry state is correct against any state
/// that agrees on presence.
pub proof fn lemma_tab_matches_presence(
    db: crate::database::UniverseDatabase,
    s0: Seq<crate::connection::UniverseConnection>,
    s1: Seq<crate::connection::UniverseConnection>,
    owner: u32,
    cur: Seq<ContactEntry>,
)
    requires
        crate::connection::same_presence(s0, s1),
        crate::connection::citizen_logins_ok(s0),
        tab_matches(db, s0, owner, cur),
    ensures
        tab_matches(db, s1, owner, cur),
{
    let edges = nonzero_edges(crate::database::contacts_of_owner(db.contacts@, owner));
    assert forall|k: int| 0 <= k < edges.len() implies {
        &&& (#[trigger] cur[k]).cit_id == edges[k].contact
        &&& (crate::database::citizen_with_id(db.citizens@, edges[k].contact) matches Some(c)
            ==> cur[k].name@ == c.name@)
        &&& cur[k].online == crate::connection::citizen_online(s1, edges[k].contact)
        &&& cur[k].afk == crate::connection::spec_citizen_afk(s1, edges[k].contact)
    } by {
        crate::connection::lemma_same_presence_views(s0, s1, edges[k].contact);
    }
}

/// Builds the fresh contact tab for `owner` from the directory and the
/// live connections.
#[verifier::loop_isolation(false)]
pub fn build_contact_tab(
    db: &crate::database::UniverseDatabase,
    conns: &crate::connection::UniverseConnections,
    owner: u32,
) -> (r: Vec<ContactEntry>)
    requires
        db.wf(),
        conns.wf(),
    ensures
        tab_matches(*db, conns.connections@, owner, r@),
{
    let all = match db.contact_get_all(owner) {
        crate::records::DatabaseResult::Success(v) => v,
        crate::records::DatabaseResult::DatabaseError => Vec::new(),
    };
    let ghost edges = nonzero_edges(all@);
    let mut result: Vec<ContactEntry> = Vec::new();
    let n = all.len();
    let mut i: usize = 0;
    let ghost mut processed: Seq<crate::records::ContactQuery> = Seq::empty();
    assert(all@.skip(0) =~= all@);
    assert(edges =~= processed + nonzero_edges(all@.skip(0)));
    while i < n
        invariant
            i <= n,
            n == all@.len(),
            edges == processed + nonzero_edges(all@.skip(i as int)),
            result@.len() == processed.len(),
            forall|k: int|
                0 <= k < result@.len() ==> {
                    &&& (#[trigger] result@[k]).cit_id == processed[k].contact
                    &&& (crate::database::citizen_with_id(db.citizens@, processed[k].contact)
                        matches Some(c) ==> result@[k].name@ == c.name@)
                    &&& result@[k].online == crate::connection::citizen_online(
                        conns.connections@,
                        processed[k].contact,
                    )
                    &&& result@[k].afk == crate::connection::spec_citizen_afk(
                        conns.connections@,
                        processed[k].contact,
                    )
                },
        decreases n - i,
    {
        assert(all@.skip(i as int)[0] == all@[i as int]);
        assert(all@.skip(i as int).skip(1) =~= all@.skip(i + 1));
        let e = all[i];
        if e.contact != 0 {
            let name: String = match db.citizen_by_number(e.contact) {
                crate::records::DatabaseResult::Success(Some(c)) => c.name,
                _ => String::new(),
            };
            let (online, afk) = conns.citizen_presence(e.contact);
            result.push(ContactEntry { cit_id: e.contact, name, online, afk });
            proof {
                assert(nonzero_edges(all@.skip(i as int)) == seq![all@[i as int]] + nonzero_edges(
                    all@.skip(i + 1),
                ));
                processed = processed.push(all@[i as int]);
                assert(edges =~= processed + nonzero_edges(all@.skip(i + 1)));
            }
        }
        i = i + 1;
    }
    assert(all@.skip(n as int) =~= Seq::<crate::records::ContactQuery>::empty());
    assert(edges =~= processed);
    result
}

/// Renders one tab line as an update packet.
pub fn entry_packet(e: &ContactEntry) -> (r: crate::packet::AWPacket)
    ensures
        r.packet_type == crate::packet::PacketType::ContactList,
        crate::packet::find_var(r.vars@, crate::packet::VarID::ContactListCitizenID) == Some(
            crate::packet::PacketValue::Uint(e.cit_id),
        ),
        crate::packet::find_var(r.vars@, crate::packet::VarID::ContactListStatus) == Some(
            crate::packet::PacketValue::Uint(entry_status(e.online, e.afk)),
        ),
        crate::packet::find_var(r.vars@, crate::packet::VarID::ContactListName)
            matches Some(crate::packet::PacketValue::Text(s)) && s@ == e.name@,
{
    let mut p = crate::packet::AWPacket::new(crate::packet::PacketType::ContactList);
    p.add_uint(crate::packet::VarID::ContactListCitizenID, e.cit_id);
    p.add_string(crate::packet::VarID::ContactListName, e.name.clone());
    let status: u32 = if !e.online {
        0
    } else if e.afk {
        2
    } else {
        1
    };
    p.add_uint(crate::packet::VarID::ContactListStatus, status);
    proof {
        crate::packet::lemma_find_var_at(p.vars@, crate::packet::VarID::ContactListCitizenID, 0);
        crate::packet::lemma_find_var_at(p.vars@, crate::packet::VarID::ContactListName, 1);
        crate::packet::lemma_find_var_at(p.vars@, crate::packet::VarID::ContactListStatus, 2);
    }
    p
}

/// The lines of a contact snapshot whose citizen id is at least the
/// starting key, in snapshot order.
pub open spec fn entries_from(cur: Seq<ContactEntry>, k: u32) -> Seq<ContactEntry>
    decreases cur.len(),
{
    if cur.len() == 0 {
        Seq::empty()
    } else if cur[0].cit_id >= k {
        seq![cur[0]] + entries_from(cur.skip(1), k)
    } else {
        entries_from(cur.skip(1), k)
    }
}

/// Whether a packet renders one contact tab line.
pub open spec fn entry_packet_renders(pk: crate::packet::AWPacket, e: ContactEntry) -> bool {
    &&& pk.packet_type == crate::packet::PacketType::ContactList
    &&& crate::packet::find_var(pk.vars@, crate::packet::VarID::ContactListCitizenID) == Some(
        crate::packet::PacketValue::Uint(e.cit_id),
    )
    &&& crate::packet::find_var(pk.vars@, crate::packet::VarID::ContactListStatus) == Some(
        crate::packet::PacketValue::Uint(entry_status(e.online, e.afk)),
    )
    &&& (crate::packet::find_var(pk.vars@, crate::packet::VarID::ContactListName)
        matches Some(crate::packet::PacketValue::Text(t)) && t@ == e.name@)
}

/// Rebuilds the contact tab of the player at connection `cid` from the
/// directory and the online set, and queues one update packet per line to
/// bring the client to the fresh snapshot.
#[verifier::loop_isolation(false)]
#[verifier::rlimit(100)]
pub fn regenerate_contact_list(server: &mut crate::server::UniverseServer, cid: u32)
    requires
        old(server).wf(),
    ensures
        final(server).wf(),
        final(server).database == old(server).database,
        final(server).connections.connections@.len() == old(
            server,
        ).connections.connections@.len(),
        crate::connection::same_presence(
            old(server).connections.connections@,
            final(server).connections.connections@,
        ),
        forall|j: int|
            0 <= j < old(server).connections.connections@.len() && (#[trigger] old(
                server,
            ).connections.connections@[j]).cid != cid ==> final(server).connections.connections@[j]
                == old(server).connections.connections@[j],
        !(crate::connection::conn_citizen(old(server).connections.connections@, cid) is Some)
            ==> final(server).connections == old(server).connections,
        crate::connection::conn_citizen(old(server).connections.connections@, cid) matches Some(
            owner,
        ) ==> (forall|j: int|
            0 <= j < old(server).connections.connections@.len() && (#[trigger] old(
                server,
            ).connections.connections@[j]).cid == cid ==> {
                let c0 = old(server).connections.connections@[j];
                let c1 = final(server).connections.connections@[j];
                &&& c1.cid == c0.cid
                &&& c1.address == c0.address
                &&& c1.spec_citizen_id() == c0.spec_citizen_id()
                &&& match (c0.client, c1.client) {
                    (
                        Some(crate::connection::ClientInfo::Player(p0)),
                        Some(crate::connection::ClientInfo::Player(p1)),
                    ) => {
                        &&& tab_matches(
                            old(server).database,
                            old(server).connections.connections@,
                            owner,
                            p1.tabs.contact_list.current@,
                        )
                        &&& p1.afk == p0.afk
                        &&& p1.username == p0.username
                        &&& p1.citizen == p0.citizen
                        &&& p1.tabs.player_list == p0.tabs.player_list
                    },
                    _ => false,
                }
                &&& c1.outgoing@.len() == c0.outgoing@.len() + nonzero_edges(
                    crate::database::contacts_of_owner(old(server).database.contacts@, owner),
                ).len()
                &&& c1.outgoing@.take(c0.outgoing@.len() as int) == c0.outgoing@
                &&& forall|m: int|
                    c0.outgoing@.len() <= m < c1.outgoing@.len() ==> (#[trigger] c1.outgoing@[m]).packet_type
                        == crate::packet::PacketType::ContactList
            }),
{
    let idx = match server.connections.index_by_cid(cid) {
        Some(i) => i,
        None => {
            return ;
        },
    };
    proof {
        crate::connection::lemma_conn_views_at(server.connections.connections@, idx as int, cid);
    }
    let owner = match {
        let conn = &server.connections.connections[idx];
        conn.citizen_id()
    } {
        Some(o) => o,
        None => {
            return ;
        },
    };
    let newtab = build_contact_tab(&server.database, &server.connections, owner);
    let mut packets: Vec<crate::packet::AWPacket> = Vec::new();
    let n = newtab.len();
    let mut k: usize = 0;
    while k < n
        invariant
            k <= n,
            n == newtab@.len(),
            packets@.len() == k,
            forall|m: int|
                0 <= m < k ==> (#[trigger] packets@[m]).packet_type
                    == crate::packet::PacketType::ContactList,
        decreases n - k,
    {
        let p = entry_packet(&newtab[k]);
        packets.push(p);
        k = k + 1;
    }
    let ghost s0 = server.connections.connections@;
    let ghost tabview = newtab@;
    let changed = server.connections.set_contact_tab(idx, newtab);
    if !changed {
        return ;
    }
    let ghost smid = server.connections.connections@;
    let mut sent: usize = 0;
    let total = packets.len();
    while sent < total
        invariant
            sent <= total,
            total == tabview.len(),
            server.database == old(server).database,
            idx < server.connections.connections@.len(),
            server.connections.wf(),
            server.connections.connections@.len() == smid.len(),
            forall|j: int|
                0 <= j < smid.len() && j != idx as int ==> server.connections.connections@[j]
                    == smid[j],
            server.connections.connections@[idx as int].cid == smid[idx as int].cid,
            server.connections.connections@[idx as int].address == smid[idx as int].address,
            server.connections.connections@[idx as int].client == smid[idx as int].client,
            server.connections.connections@[idx as int].outgoing@.len() == smid[idx as int].outgoing@.len()
                + sent,
            server.connections.connections@[idx as int].outgoing@.take(
                smid[idx as int].outgoing@.len() as int,
            ) == smid[idx as int].outgoing@,
            forall|m: int|
                smid[idx as int].outgoing@.len() <= m
                    < server.connections.connections@[idx as int].outgoing@.len() ==> (
                #[trigger] server.connections.connections@[idx as int].outgoing@[m]).packet_type
                    == crate::packet::PacketType::ContactList,
            packets@.len() == total - sent,
            forall|m: int|
                0 <= m < packets@.len() ==> (#[trigger] packets@[m]).packet_type
                    == crate::packet::PacketType::ContactList,
        decreases total - sent,
    {
        let ghost scur = server.connections.connections@;
        let p = packets.remove(0);
        server.connections.send_to_index(idx, p);
        proof {
            let snew = server.connections.connections@;
            assert(snew[idx as int].outgoing@ == scur[idx as int].outgoing@.push(p));
            assert(snew[idx as int].outgoing@.take(smid[idx as int].outgoing@.len() as int)
                =~= smid[idx as int].outgoing@);
            assert forall|a: int, b: int| 0 <= a < b < snew.len() implies snew[a].cid
                != snew[b].cid by {
                assert(snew[a].cid == scur[a].cid);
                assert(snew[b].cid == scur[b].cid);
            }
            assert forall|a: int, b: int| 0 <= a < b < snew.len() implies !(
            snew[a].spec_citizen_id() is Some && snew[a].spec_citizen_id()
                == snew[b].spec_citizen_id()) by {
                assert(snew[a].client == scur[a].client);
                assert(snew[b].client == scur[b].client);
                assert(snew[a].spec_citizen_id() == scur[a].spec_citizen_id());
                assert(snew[b].spec_citizen_id() == scur[b].spec_citizen_id());
                assert(!(scur[a].spec_citizen_id() is Some && scur[a].spec_citizen_id()
                    == scur[b].spec_citizen_id()));
            }
        }
        sent = sent + 1;
    }
}

/// Whether the two citizens are mutual friends: both directional edges
/// exist and neither has its friend-request group explicitly settled.
pub open spec fn is_mutual(db: crate::database::UniverseDatabase, a: u32, b: u32) -> bool {
    &&& crate::database::contact_of(db.contacts@, a, b) matches Some(oa)
        && !crate::contact_options::has_flag(
        oa.bits,
        crate::contact_options::FRIEND_REQUEST_ALLOWED,
    )
    &&& crate::database::contact_of(db.contacts@, b, a) matches Some(ob)
        && !crate::contact_options::has_flag(
        ob.bits,
        crate::contact_options::FRIEND_REQUEST_ALLOWED,
    )
}

/// Rebuilds the contact tab of the player at `cid` and of every online
/// mutual friend, whose lists show this player's presence: afterwards
/// this player's tab and each online mutual friend's tab are correct for
/// the final state. Connections of players who are neither this one nor
/// an online mutual friend are left untouched.
#[verifier::loop_isolation(false)]
#[verifier::rlimit(100)]
pub fn regenerate_contact_list_and_mutuals(server: &mut crate::server::UniverseServer, cid: u32)
    requires
        old(server).wf(),
    ensures
        final(server).wf(),
        final(server).database == old(server).database,
        final(server).connections.connections@.len() == old(
            server,
        ).connections.connections@.len(),
        crate::connection::same_presence(
            old(server).connections.connections@,
            final(server).connections.connections@,
        ),
        forall|j: int|
            0 <= j < old(server).connections.connections@.len() && (#[trigger] old(
                server,
            ).connections.connections@[j]).cid != cid && !(match (
                crate::connection::conn_citizen(old(server).connections.connections@, cid),
                old(server).connections.connections@[j].spec_citizen_id(),
            ) {
                (Some(owner), Some(c)) => is_mutual(old(server).database, owner, c),
                _ => false,
            }) ==> final(server).connections.connections@[j] == old(
                server,
            ).connections.connections@[j],
        forall|j: int|
            0 <= j < old(server).connections.connections@.len() && (#[trigger] old(
                server,
            ).connections.connections@[j]).cid == cid ==> {
                let c0 = old(server).connections.connections@[j];
                let c1 = final(server).connections.connections@[j];
                &&& c1.cid == c0.cid
                &&& c1.address == c0.address
                &&& c1.spec_citizen_id() == c0.spec_citizen_id()
                &&& c1.outgoing@.len() >= c0.outgoing@.len()
                &&& c1.outgoing@.take(c0.outgoing@.len() as int) == c0.outgoing@
                &&& match (c0.client, c1.client) {
                    (
                        Some(crate::connection::ClientInfo::Player(p0)),
                        Some(crate::connection::ClientInfo::Player(p1)),
                    ) => p1.afk == p0.afk && p1.username == p0.username && p1.citizen
                        == p0.citizen,
                    (x0, x1) => x1 == x0,
                }
            },
        match crate::connection::conn_citizen(old(server).connections.connections@, cid) {
            Some(owner) => {
                &&& forall|j: int|
                    0 <= j < old(server).connections.connections@.len() && (#[trigger] old(
                        server,
                    ).connections.connections@[j]).cid == cid
                        ==> match final(server).connections.connections@[j].client {
                        Some(crate::connection::ClientInfo::Player(p1)) => tab_matches(
                            old(server).database,
                            final(server).connections.connections@,
                            owner,
                            p1.tabs.contact_list.current@,
                        ),
                        _ => false,
                    }
                &&& forall|j: int|
                    0 <= j < old(server).connections.connections@.len() && (#[trigger] old(
                        server,
                    ).connections.connections@[j]).cid != cid ==> match old(
                        server,
                    ).connections.connections@[j].spec_citizen_id() {
                        Some(c) => (c != 0 && is_mutual(old(server).database, owner, c))
                            ==> match final(server).connections.connections@[j].client {
                            Some(crate::connection::ClientInfo::Player(p1)) => tab_matches(
                                old(server).database,
                                final(server).connections.connections@,
                                c,
                                p1.tabs.contact_list.current@,
                            ),
                            _ => false,
                        },
                        None => true,
                    }
            },
            None => true,
        },
{
    let ghost s0 = old(server).connections.connections@;
    let ghost db0 = old(server).database;
    regenerate_contact_list(server, cid);
    let idx = match server.connections.index_by_cid(cid) {
        Some(i) => i,
        None => {
            proof {
                if crate::connection::conn_citizen(s0, cid) is Some {
                    let w = choose|w: int| 0 <= w < s0.len() && (#[trigger] s0[w]).cid == cid;
                    assert(server.connections.connections@[w].spec_citizen_id()
                        == s0[w].spec_citizen_id());
                    assert(server.connections.connections@[w].cid == cid);
                    assert(false);
                }
            }
            return ;
        },
    };
    let owner = match {
        let c = &server.connections.connections[idx];
        c.citizen_id()
    } {
        Some(o) => o,
        None => {
            proof {
                let scur = server.connections.connections@;
                assert(scur[idx as int].cid == cid);
                assert(s0[idx as int].cid == cid);
                crate::connection::lemma_conn_views_at(s0, idx as int, cid);
                assert(crate::connection::conn_citizen(s0, cid) == s0[
                    idx as int
                ].spec_citizen_id());
                assert(scur[idx as int].spec_citizen_id() == s0[idx as int].spec_citizen_id());
            }
            return ;
        },
    };
    let ghost sfirst = server.connections.connections@;
    proof {
        let scur = server.connections.connections@;
        crate::connection::lemma_conn_views_at(scur, idx as int, cid);
        assert(s0[idx as int].cid == cid);
        assert(scur[idx as int].spec_citizen_id() == s0[idx as int].spec_citizen_id());
        assert(s0[idx as int].spec_citizen_id() == Some(owner));
        crate::connection::lemma_conn_views_at(s0, idx as int, cid);
    }
    let edges = match server.database.contact_get_all(owner) {
        crate::records::DatabaseResult::Success(v) => v,
        crate::records::DatabaseResult::DatabaseError => Vec::new(),
    };
    let n = edges.len();
    let mut i: usize = 0;
    while i < n
        invariant
            i <= n,
            n == edges@.len(),
            edges@ == crate::database::contacts_of_owner(db0.contacts@, owner),
            server.wf(),
            server.database == db0,
            crate::connection::conn_citizen(s0, cid) == Some(owner),
            server.connections.connections@.len() == s0.len(),
            crate::connection::same_presence(s0, server.connections.connections@),
            forall|j: int|
                0 <= j < s0.len() ==> (#[trigger] server.connections.connections@[j]).cid
                    == s0[j].cid && server.connections.connections@[j].spec_citizen_id()
                    == s0[j].spec_citizen_id(),
            forall|j: int|
                0 <= j < s0.len() && (#[trigger] s0[j]).cid != cid && !(
                s0[j].spec_citizen_id() matches Some(c) && is_mutual(db0, owner, c))
                    ==> server.connections.connections@[j] == s0[j],
            forall|j: int|
                0 <= j < s0.len() && (#[trigger] s0[j]).cid == cid
                    ==> server.connections.connections@[j] == sfirst[j],
            forall|j: int|
                0 <= j < s0.len() && (#[trigger] s0[j]).cid != cid ==> match s0[j].spec_citizen_id() {
                    Some(c) => (c != 0 && is_mutual(db0, owner, c) && (exists|m: int|
                        0 <= m < i && (#[trigger] edges@[m]).contact == c))
                        ==> match server.connections.connections@[j].client {
                        Some(crate::connection::ClientInfo::Player(p1)) => tab_matches(
                            db0,
                            s0,
                            c,
                            p1.tabs.contact_list.current@,
                        ),
                        _ => false,
                    },
                    None => true,
                },
        decreases n - i,
    {
        let e = edges[i];
        let ghost spre = server.connections.connections@;
        if e.contact != 0 {
            let fwd = match server.database.contact_get(owner, e.contact) {
                crate::records::DatabaseResult::Success(Some(c)) => c.options.is_friend_request_allowed(),
                _ => false,
            };
            let back = match server.database.contact_get(e.contact, owner) {
                crate::records::DatabaseResult::Success(Some(c)) => c.options.is_friend_request_allowed(),
                _ => false,
            };
            if fwd && back {
                assert(is_mutual(db0, owner, e.contact));
                match server.connections.get_by_citizen_id(e.contact) {
                    Some(other_cid) => {
                        if other_cid != cid {
                            regenerate_contact_list(server, other_cid);
                            proof {
                                let spost = server.connections.connections@;
                                crate::connection::lemma_same_presence_trans(s0, spre, spost);
                                assert forall|j: int|
                                    0 <= j < s0.len() implies (#[trigger] spost[j]).cid
                                    == s0[j].cid && spost[j].spec_citizen_id()
                                    == s0[j].spec_citizen_id() by {
                                    if spre[j].cid != other_cid {
                                        assert(spost[j] == spre[j]);
                                    }
                                }
                                assert forall|j: int|
                                    0 <= j < s0.len() && (#[trigger] s0[j]).cid != cid && !(
                                    s0[j].spec_citizen_id() matches Some(c) && is_mutual(
                                        db0,
                                        owner,
                                        c,
                                    )) implies spost[j] == s0[j] by {
                                    if spre[j].cid != other_cid {
                                        assert(spost[j] == spre[j]);
                                    } else {
                                        let w = choose|w: int|
                                            0 <= w < spre.len() && (#[trigger] spre[w]).cid
                                                == other_cid && spre[w].spec_citizen_id() == Some(
                                                e.contact,
                                            );
                                        if w != j {
                                            if w < j {
                                                assert(spre[w].cid != spre[j].cid);
                                            } else {
                                                assert(spre[j].cid != spre[w].cid);
                                            }
                                        }
                                        assert(s0[j].spec_citizen_id() == Some(e.contact));
                                        assert(false);
                                    }
                                }
                                // The freshly rebuilt tab of the visited friend, and
                                // every tab rebuilt earlier, are correct for the
                                // entry state.
                                let w = choose|w: int|
                                    0 <= w < spre.len() && (#[trigger] spre[w]).cid == other_cid
                                        && spre[w].spec_citizen_id() == Some(e.contact);
                                crate::connection::lemma_conn_views_at(spre, w, other_cid);
                                assert forall|j: int|
                                    0 <= j < s0.len() && (#[trigger] s0[j]).cid != cid implies
                                    match s0[j].spec_citizen_id() {
                                    Some(c) => (c != 0 && is_mutual(db0, owner, c) && (exists|
                                        m: int,
                                    |
                                        0 <= m < i + 1 && (#[trigger] edges@[m]).contact == c))
                                        ==> match spost[j].client {
                                        Some(crate::connection::ClientInfo::Player(p1)) => tab_matches(
                                            db0,
                                            s0,
                                            c,
                                            p1.tabs.contact_list.current@,
                                        ),
                                        _ => false,
                                    },
                                    None => true,
                                } by {
                                    match s0[j].spec_citizen_id() {
                                        Some(c) => {
                                            if c != 0 && is_mutual(db0, owner, c) && (exists|
                                                m: int,
                                            |
                                                0 <= m < i + 1 && (#[trigger] edges@[m]).contact
                                                    == c) {
                                                if c == e.contact {
                                                    assert(spre[j].spec_citizen_id() == Some(c));
                                                    if j != w {
                                                        assert(!(spre[j].spec_citizen_id()
                                                            is Some && spre[j].spec_citizen_id()
                                                            == spre[w].spec_citizen_id())
                                                            || !(spre[w].spec_citizen_id() is Some
                                                            && spre[w].spec_citizen_id()
                                                            == spre[j].spec_citizen_id()));
                                                        assert(false);
                                                    }
                                                    assert(spre[j].cid == other_cid);
                                                    match spost[j].client {
                                                        Some(
                                                            crate::connection::ClientInfo::Player(
                                                                p1,
                                                            ),
                                                        ) => {
                                                            assert(tab_matches(
                                                                db0,
                                                                spre,
                                                                c,
                                                                p1.tabs.contact_list.current@,
                                                            ));
                                                            crate::connection::lemma_same_presence_sym(
                                                                s0,
                                                                spre,
                                                            );
                                                            lemma_tab_matches_presence(
                                                                db0,
                                                                spre,
                                                                s0,
                                                                c,
                                                                p1.tabs.contact_list.current@,
                                                            );
                                                        },
                                                        _ => {
                                                            assert(false);
                                                        },
                                                    }
                                                } else {
                                                    assert(exists|m: int|
                                                        0 <= m < i && (#[trigger] edges@[m]).contact
                                                            == c);
                                                    assert(spre[j].cid != other_cid);
                                                    assert(spost[j] == spre[j]);
                                                }
                                            }
                                        },
                                        None => {},
                                    }
                                }
                            }
                        } else {
                            proof {
                                assert forall|j: int|
                                    0 <= j < s0.len() && (#[trigger] s0[j]).cid != cid
                                        && s0[j].spec_citizen_id() == Some(e.contact) implies
                                    false by {
                                    let w = choose|w: int|
                                        0 <= w < spre.len() && (#[trigger] spre[w]).cid
                                            == other_cid && spre[w].spec_citizen_id() == Some(
                                            e.contact,
                                        );
                                    assert(spre[j].spec_citizen_id() == Some(e.contact));
                                    assert(spre[j].cid == s0[j].cid);
                                    if j != w {
                                        if j < w {
                                            assert(!(spre[j].spec_citizen_id() is Some
                                                && spre[j].spec_citizen_id()
                                                == spre[w].spec_citizen_id()));
                                        } else {
                                            assert(!(spre[w].spec_citizen_id() is Some
                                                && spre[w].spec_citizen_id()
                                                == spre[j].spec_citizen_id()));
                                        }
                                        assert(false);
                                    }
                                    assert(s0[j].cid == cid);
                                }
                            }
                        }
                    },
                    None => {},
                }
            }
        }
        i = i + 1;
    }
    proof {
        let s1 = server.connections.connections@;
        assert forall|j: int|
            0 <= j < s0.len() && (#[trigger] s0[j]).cid == cid implies match s1[j].client {
            Some(crate::connection::ClientInfo::Player(p1)) => tab_matches(
                db0,
                s1,
                owner,
                p1.tabs.contact_list.current@,
            ),
            _ => false,
        } by {
            assert(s1[j] == sfirst[j]);
            match sfirst[j].client {
                Some(crate::connection::ClientInfo::Player(p1)) => {
                    assert(tab_matches(db0, s0, owner, p1.tabs.contact_list.current@));
                    lemma_tab_matches_presence(db0, s0, s1, owner, p1.tabs.contact_list.current@);
                },
                _ => {
                    assert(false);
                },
            }
        }
        assert forall|j: int|
            0 <= j < s0.len() && (#[trigger] s0[j]).cid != cid implies match s0[j].spec_citizen_id() {
            Some(c) => (c != 0 && is_mutual(db0, owner, c)) ==> match s1[j].client {
                Some(crate::connection::ClientInfo::Player(p1)) => tab_matches(
                    db0,
                    s1,
                    c,
                    p1.tabs.contact_list.current@,
                ),
                _ => false,
            },
            None => true,
        } by {
            match s0[j].spec_citizen_id() {
                Some(c) => {
                    if c != 0 && is_mutual(db0, owner, c) {
                        crate::database::lemma_contacts_of_owner_complete(
                            db0.contacts@,
                            owner,
                            c,
                        );
                        assert(exists|m: int|
                            0 <= m < n && (#[trigger] edges@[m]).contact == c);
                        match s1[j].client {
                            Some(crate::connection::ClientInfo::Player(p1)) => {
                                lemma_tab_matches_presence(
                                    db0,
                                    s0,
                                    s1,
                                    c,
                                    p1.tabs.contact_list.current@,
                                );
                            },
                            _ => {
                                assert(false);
                            },
                        }
                    }
                },
                None => {},
            }
        }
    }
}

} // verus!
