//! Live connections and the registry that indexes them.
//!
//! Each connection carries its session: unknown until a login, then a
//! player (possibly a logged-in citizen) or a world server. The registry
//! keeps connection ids unique and at most one connection per citizen: a
//! duplicate citizen login evicts the prior connection.

use vstd::prelude::*;
use crate::packet::AWPacket;
use crate::tabs::PlayerTabs;

verus! {

/// The citizen a player session is logged in as. `privilege` is the
/// citizen id whose privilege password authenticated this session, zero
/// for none; the universe operator is citizen one.
#[derive(Clone, Debug)]
pub struct CitizenSession {
    pub cit_id: u32,
    pub privilege: u32,
}

/// A player session: display name, presence, optional citizen login, and
/// tab state.
#[derive(Clone, Debug)]
pub struct PlayerInfo {
    pub username: String,
    pub afk: bool,
    pub citizen: Option<CitizenSession>,
    pub tabs: PlayerTabs,
}

/// A world server session, registered under its license name.
#[derive(Clone, Debug)]
pub struct WorldServerInfo {
    pub name: String,
}

/// What a connection has authenticated as.
#[derive(Clone, Debug)]
pub enum ClientInfo {
    Player(PlayerInfo),
    WorldServer(WorldServerInfo),
}

/// One live connection: its id, the peer's IPv4 address, its session, and
/// the packets queued for it.
#[derive(Clone, Debug)]
pub struct UniverseConnection {
    pub cid: u32,
    pub address: u32,
    pub client: Option<ClientInfo>,
    pub outgoing: Vec<AWPacket>,
}

impl UniverseConnection {
    /// The citizen id this connection is logged in as, if any.
    pub open spec fn spec_citizen_id(self) -> Option<u32> {
        match self.client {
            Some(ClientInfo::Player(p)) => match p.citizen {
                Some(c) => Some(c.cit_id),
                None => None,
            },
            _ => None,
        }
    }

    /// Whether this connection may administer the universe: it is logged
    /// in as citizen one, or authenticated with citizen one's privilege
    /// password.
    pub open spec fn spec_is_admin(self) -> bool {
        match self.client {
            Some(ClientInfo::Player(p)) => match p.citizen {
                Some(c) => c.cit_id == 1 || c.privilege == 1,
                None => false,
            },
            _ => false,
        }
    }

    /// The citizen id this connection is logged in as, if any.
    pub fn citizen_id(&self) -> (r: Option<u32>)
        ensures
            r == self.spec_citizen_id(),
    {
        match &self.client {
            Some(ClientInfo::Player(p)) => match &p.citizen {
                Some(c) => Some(c.cit_id),
                None => None,
            },
            _ => None,
        }
    }

    /// Whether this connection may administer the universe.
    pub fn has_admin_permissions(&self) -> (r: bool)
        ensures
            r == self.spec_is_admin(),
    {
        match &self.client {
            Some(ClientInfo::Player(p)) => match &p.citizen {
                Some(c) => c.cit_id == 1 || c.privilege == 1,
                None => false,
            },
            _ => false,
        }
    }

    /// Queues a packet for this connection. Delivery is best effort: a
    /// closing connection drops its queue.
    pub fn send(&mut self, p: AWPacket)
        ensures
            final(self).cid == old(self).cid,
            final(self).address == old(self).address,
            final(self).client == old(self).client,
            final(self).outgoing@ == old(self).outgoing@.push(p),
    {
        self.outgoing.push(p);
    }
}

/// Connection ids are pairwise distinct.
pub open spec fn cids_ok(s: Seq<UniverseConnection>) -> bool {
    forall|i: int, j: int| 0 <= i < j < s.len() ==> #[trigger] s[i].cid != #[trigger] s[j].cid
}

/// No two connections are logged in as the same citizen.
pub open spec fn citizen_logins_ok(s: Seq<UniverseConnection>) -> bool {
    forall|i: int, j: int|
        0 <= i < j < s.len() ==> !(#[trigger] s[i].spec_citizen_id() is Some
            && s[i].spec_citizen_id() == #[trigger] s[j].spec_citizen_id())
}

/// Whether some connection carries the id.
pub open spec fn conn_exists(s: Seq<UniverseConnection>, cid: u32) -> bool {
    exists|i: int| 0 <= i < s.len() && (#[trigger] s[i]).cid == cid
}

/// Whether the connection with the id may administer the universe.
pub open spec fn conn_admin(s: Seq<UniverseConnection>, cid: u32) -> bool {
    exists|i: int| 0 <= i < s.len() && (#[trigger] s[i]).cid == cid && s[i].spec_is_admin()
}

/// The citizen id the connection with the id is logged in as, if any.
pub open spec fn conn_citizen(s: Seq<UniverseConnection>, cid: u32) -> Option<u32> {
    if conn_exists(s, cid) {
        s[choose|i: int| 0 <= i < s.len() && (#[trigger] s[i]).cid == cid].spec_citizen_id()
    } else {
        None
    }
}

/// The registries agree except that the connection with the id has new
/// packets queued: sessions, addresses and every other queue are as
/// before.
pub open spec fn queues_extended(
    s0: Seq<UniverseConnection>,
    s1: Seq<UniverseConnection>,
    cid: u32,
) -> bool {
    &&& s1.len() == s0.len()
    &&& forall|i: int|
        0 <= i < s0.len() ==> {
            &&& (#[trigger] s1[i]).cid == s0[i].cid
            &&& s1[i].address == s0[i].address
            &&& s1[i].client == s0[i].client
            &&& s1[i].outgoing@.len() >= s0[i].outgoing@.len()
            &&& s1[i].outgoing@.take(s0[i].outgoing@.len() as int) == s0[i].outgoing@
        }
    &&& forall|i: int| 0 <= i < s0.len() && (#[trigger] s0[i]).cid != cid ==> s1[i] == s0[i]
}

/// The connection with the id was sent exactly one more packet, of the
/// given type, carrying the given reason code; everything else is as
/// before.
pub open spec fn sent_response(
    s0: Seq<UniverseConnection>,
    s1: Seq<UniverseConnection>,
    cid: u32,
    pt: crate::packet::PacketType,
    rc: crate::reason::ReasonCode,
) -> bool {
    &&& queues_extended(s0, s1, cid)
    &&& forall|i: int|
        0 <= i < s0.len() && (#[trigger] s0[i]).cid == cid ==> {
            &&& s1[i].outgoing@.len() == s0[i].outgoing@.len() + 1
            &&& s1[i].outgoing@.last().packet_type == pt
            &&& crate::packet::find_var(
                s1[i].outgoing@.last().vars@,
                crate::packet::VarID::ReasonCode,
            ) == Some(crate::packet::PacketValue::Reason(rc))
        }
}

/// At the index that carries the id, the registry-level views agree with
/// the connection's own state.
pub proof fn lemma_conn_views_at(s: Seq<UniverseConnection>, i: int, cid: u32)
    requires
        cids_ok(s),
        0 <= i < s.len(),
        s[i].cid == cid,
    ensures
        conn_exists(s, cid),
        conn_admin(s, cid) == s[i].spec_is_admin(),
        conn_citizen(s, cid) == s[i].spec_citizen_id(),
{
    assert(conn_exists(s, cid));
    if s[i].spec_is_admin() {
        assert(conn_admin(s, cid));
    } else {
        if conn_admin(s, cid) {
            let j = choose|j: int| 0 <= j < s.len() && (#[trigger] s[j]).cid == cid
                && s[j].spec_is_admin();
            if j < i {
                assert(s[j].cid != s[i].cid);
            } else if j > i {
                assert(s[i].cid != s[j].cid);
            }
            assert(false);
        }
    }
    let k = choose|k: int| 0 <= k < s.len() && (#[trigger] s[k]).cid == cid;
    if k < i {
        assert(s[k].cid != s[i].cid);
    } else if k > i {
        assert(s[i].cid != s[k].cid);
    }
}

/// Whether some connection is logged in as the citizen.
pub open spec fn citizen_online(s: Seq<UniverseConnection>, cit: u32) -> bool {
    exists|i: int| 0 <= i < s.len() && (#[trigger] s[i]).spec_citizen_id() == Some(cit)
}

/// The away flag of the citizen's player session, false when offline.
pub open spec fn spec_citizen_afk(s: Seq<UniverseConnection>, cit: u32) -> bool {
    if citizen_online(s, cit) {
        match s[choose|i: int|
            0 <= i < s.len() && (#[trigger] s[i]).spec_citizen_id() == Some(cit)].client {
            Some(ClientInfo::Player(p)) => p.afk,
            _ => false,
        }
    } else {
        false
    }
}

/// The citizen a prospective session value is logged in as, if any.
pub open spec fn client_citizen(c: Option<ClientInfo>) -> Option<u32> {
    match c {
        Some(ClientInfo::Player(p)) => match p.citizen {
            Some(cs) => Some(cs.cit_id),
            None => None,
        },
        _ => None,
    }
}

/// The two registry states agree on everything presence is computed
/// from: who is logged in as whom, and each player's away flag. Tab and
/// queue changes preserve this.
pub open spec fn same_presence(s0: Seq<UniverseConnection>, s1: Seq<UniverseConnection>) -> bool {
    &&& s1.len() == s0.len()
    &&& forall|j: int|
        0 <= j < s0.len() ==> (#[trigger] s1[j]).spec_citizen_id() == s0[j].spec_citizen_id()
    &&& forall|j: int|
        0 <= j < s0.len() ==> match (s0[j].client, (#[trigger] s1[j]).client) {
            (Some(ClientInfo::Player(p0)), Some(ClientInfo::Player(p1))) => p1.afk == p0.afk,
            (Some(ClientInfo::Player(_)), _) => false,
            (x, y) => y == x,
        }
}

/// States that agree on presence give every citizen the same online and
/// away views.
pub proof fn lemma_same_presence_views(
    s0: Seq<UniverseConnection>,
    s1: Seq<UniverseConnection>,
    cit: u32,
)
    requires
        same_presence(s0, s1),
        citizen_logins_ok(s0),
    ensures
        citizen_online(s1, cit) == citizen_online(s0, cit),
        spec_citizen_afk(s1, cit) == spec_citizen_afk(s0, cit),
{
    if citizen_online(s0, cit) {
        let w = choose|w: int|
            0 <= w < s0.len() && (#[trigger] s0[w]).spec_citizen_id() == Some(cit);
        assert(s1[w].spec_citizen_id() == Some(cit));
        assert(citizen_online(s1, cit));
    }
    if citizen_online(s1, cit) {
        let w = choose|w: int|
            0 <= w < s1.len() && (#[trigger] s1[w]).spec_citizen_id() == Some(cit);
        assert(s0[w].spec_citizen_id() == Some(cit));
        assert(citizen_online(s0, cit));
    }
    if citizen_online(s0, cit) {
        let w0 = choose|w: int|
            0 <= w < s0.len() && (#[trigger] s0[w]).spec_citizen_id() == Some(cit);
        let w1 = choose|w: int|
            0 <= w < s1.len() && (#[trigger] s1[w]).spec_citizen_id() == Some(cit);
        assert(s0[w1].spec_citizen_id() == Some(cit));
        if w0 != w1 {
            if w0 < w1 {
                assert(!(s0[w0].spec_citizen_id() is Some && s0[w0].spec_citizen_id()
                    == s0[w1].spec_citizen_id()));
            } else {
                assert(!(s0[w1].spec_citizen_id() is Some && s0[w1].spec_citizen_id()
                    == s0[w0].spec_citizen_id()));
            }
            assert(false);
        }
    }
}

/// Presence agreement is symmetric.
pub proof fn lemma_same_presence_sym(s0: Seq<UniverseConnection>, s1: Seq<UniverseConnection>)
    requires
        same_presence(s0, s1),
    ensures
        same_presence(s1, s0),
{
    assert forall|j: int| 0 <= j < s1.len() implies match (s1[j].client, (#[trigger] s0[j]).client) {
        (Some(ClientInfo::Player(p0)), Some(ClientInfo::Player(p1))) => p1.afk == p0.afk,
        (Some(ClientInfo::Player(_)), _) => false,
        (x, y) => y == x,
    } by {
        assert(match (s0[j].client, s1[j].client) {
            (Some(ClientInfo::Player(p0)), Some(ClientInfo::Player(p1))) => p1.afk == p0.afk,
            (Some(ClientInfo::Player(_)), _) => false,
            (x, y) => y == x,
        });
    }
}

/// Presence agreement composes.
pub proof fn lemma_same_presence_trans(
    a: Seq<UniverseConnection>,
    b: Seq<UniverseConnection>,
    c: Seq<UniverseConnection>,
)
    requires
        same_presence(a, b),
        same_presence(b, c),
    ensures
        same_presence(a, c),
{
    assert forall|j: int| 0 <= j < a.len() implies match (a[j].client, (#[trigger] c[j]).client) {
        (Some(ClientInfo::Player(p0)), Some(ClientInfo::Player(p1))) => p1.afk == p0.afk,
        (Some(ClientInfo::Player(_)), _) => false,
        (x, y) => y == x,
    } by {
        assert(match (a[j].client, b[j].client) {
            (Some(ClientInfo::Player(p0)), Some(ClientInfo::Player(p1))) => p1.afk == p0.afk,
            (Some(ClientInfo::Player(_)), _) => false,
            (x, y) => y == x,
        });
        assert(match (b[j].client, c[j].client) {
            (Some(ClientInfo::Player(p0)), Some(ClientInfo::Player(p1))) => p1.afk == p0.afk,
            (Some(ClientInfo::Player(_)), _) => false,
            (x, y) => y == x,
        });
    }
}

/// The set of live connections, owned exclusively by the event loop.
pub struct UniverseConnections {
    pub connections: Vec<UniverseConnection>,
}

impl UniverseConnections {
    /// Well-formedness: unique connection ids, login uniqueness.
    pub open spec fn wf(self) -> bool {
        &&& cids_ok(self.connections@)
        &&& citizen_logins_ok(self.connections@)
    }

    /// An empty registry.
    pub fn new() -> (r: UniverseConnections)
        ensures
            r.wf(),
            r.connections@.len() == 0,
    {
        UniverseConnections { connections: Vec::new() }
    }

    /// The index of the connection with the given id.
    #[verifier::loop_isolation(false)]
    pub fn index_by_cid(&self, cid: u32) -> (r: Option<usize>)
        ensures
            r matches Some(i) ==> i < self.connections@.len() && self.connections@[i as int].cid
                == cid,
            r is None ==> forall|i: int|
                0 <= i < self.connections@.len() ==> #[trigger] self.connections@[i].cid != cid,
    {
        let n = self.connections.len();
        let mut i: usize = 0;
        while i < n
            invariant
                i <= n,
                n == self.connections@.len(),
                forall|j: int| 0 <= j < i ==> #[trigger] self.connections@[j].cid != cid,
            decreases n - i,
        {
            if self.connections[i].cid == cid {
                return Some(i);
            }
            i = i + 1;
        }
        None
    }

    /// The id of the connection logged in as the given citizen, if any.
    #[verifier::loop_isolation(false)]
    pub fn get_by_citizen_id(&self, cit_id: u32) -> (r: Option<u32>)
        ensures
            r matches Some(c) ==> exists|i: int|
                0 <= i < self.connections@.len() && #[trigger] self.connections@[i].cid == c
                    && self.connections@[i].spec_citizen_id() == Some(cit_id),
            r is None ==> forall|i: int|
                0 <= i < self.connections@.len()
                    ==> #[trigger] self.connections@[i].spec_citizen_id() != Some(cit_id),
    {
        let n = self.connections.len();
        let mut i: usize = 0;
        while i < n
            invariant
                i <= n,
                n == self.connections@.len(),
                forall|j: int|
                    0 <= j < i ==> #[trigger] self.connections@[j].spec_citizen_id() != Some(
                        cit_id,
                    ),
            decreases n - i,
        {
            match self.connections[i].citizen_id() {
                Some(c) => {
                    if c == cit_id {
                        return Some(self.connections[i].cid);
                    }
                },
                None => {},
            }
            i = i + 1;
        }
        None
    }

    /// Whether the citizen is online and away: presence as a contact tab
    /// shows it.
    #[verifier::loop_isolation(false)]
    pub fn citizen_presence(&self, cit: u32) -> (r: (bool, bool))
        requires
            self.wf(),
        ensures
            r.0 == citizen_online(self.connections@, cit),
            r.1 == spec_citizen_afk(self.connections@, cit),
    {
        let n = self.connections.len();
        let mut i: usize = 0;
        while i < n
            invariant
                i <= n,
                n == self.connections@.len(),
                forall|j: int|
                    0 <= j < i ==> (#[trigger] self.connections@[j]).spec_citizen_id() != Some(
                        cit,
                    ),
            decreases n - i,
        {
            let found = match self.connections[i].citizen_id() {
                Some(c) => c == cit,
                None => false,
            };
            if found {
                let afk = match &self.connections[i].client {
                    Some(ClientInfo::Player(p)) => p.afk,
                    _ => false,
                };
                proof {
                    let sc = self.connections@;
                    assert(citizen_online(sc, cit));
                    let w = choose|k: int|
                        0 <= k < sc.len() && (#[trigger] sc[k]).spec_citizen_id() == Some(cit);
                    if w != i as int {
                        if w < i as int {
                            assert(sc[w].spec_citizen_id() != Some(cit));
                        } else {
                            assert(!(sc[i as int].spec_citizen_id() is Some
                                && sc[i as int].spec_citizen_id() == sc[w].spec_citizen_id()));
                        }
                    }
                }
                return (true, afk);
            }
            i = i + 1;
        }
        (false, false)
    }

    /// Swaps in a freshly built contact tab on the player session at the
    /// index; a session that is not a logged-in player is left untouched.
    pub fn set_contact_tab(&mut self, i: usize, tab: Vec<crate::tabs::ContactEntry>) -> (r: bool)
        requires
            i < old(self).connections@.len(),
            old(self).wf(),
        ensures
            final(self).wf(),
            final(self).connections@.len() == old(self).connections@.len(),
            forall|j: int|
                0 <= j < old(self).connections@.len() && j != i as int
                    ==> final(self).connections@[j] == old(self).connections@[j],
            final(self).connections@[i as int].cid == old(self).connections@[i as int].cid,
            final(self).connections@[i as int].address == old(self).connections@[i as int].address,
            final(self).connections@[i as int].outgoing == old(self).connections@[i as int].outgoing,
            final(self).connections@[i as int].spec_citizen_id() == old(
                self,
            ).connections@[i as int].spec_citizen_id(),
            final(self).connections@[i as int].spec_is_admin() == old(
                self,
            ).connections@[i as int].spec_is_admin(),
            match old(self).connections@[i as int].client {
                Some(ClientInfo::Player(p0)) => p0.citizen is Some ==> (r && match final(self).connections@[i as int].client {
                    Some(ClientInfo::Player(p1)) => {
                        &&& p1.username == p0.username
                        &&& p1.afk == p0.afk
                        &&& p1.citizen == p0.citizen
                        &&& p1.tabs.player_list == p0.tabs.player_list
                        &&& p1.tabs.contact_list.current == tab
                    },
                    _ => false,
                }),
                _ => true,
            },
            !r ==> final(self).connections@ == old(self).connections@,
    {
        let ghost s0 = self.connections@;
        let changed: bool;
        match &mut self.connections[i].client {
            Some(ClientInfo::Player(p)) => {
                match &p.citizen {
                    Some(_) => {
                        p.tabs.contact_list.current = tab;
                        changed = true;
                    },
                    None => {
                        changed = false;
                    },
                }
            },
            _ => {
                changed = false;
            },
        }
        proof {
            let s1 = self.connections@;
            assert(s1[i as int].spec_citizen_id() == s0[i as int].spec_citizen_id());
            assert forall|j: int, k: int| 0 <= j < k < s1.len() implies s1[j].cid != s1[k].cid by {
                if j != i as int {
                    assert(s1[j] == s0[j]);
                }
                if k != i as int {
                    assert(s1[k] == s0[k]);
                }
                assert(s0[j].cid != s0[k].cid);
            }
            assert forall|j: int, k: int| 0 <= j < k < s1.len() implies !(
            s1[j].spec_citizen_id() is Some && s1[j].spec_citizen_id()
                == s1[k].spec_citizen_id()) by {
                if j != i as int {
                    assert(s1[j] == s0[j]);
                }
                if k != i as int {
                    assert(s1[k] == s0[k]);
                }
                assert(s1[j].spec_citizen_id() == s0[j].spec_citizen_id());
                assert(s1[k].spec_citizen_id() == s0[k].spec_citizen_id());
                assert(!(s0[j].spec_citizen_id() is Some && s0[j].spec_citizen_id()
                    == s0[k].spec_citizen_id()));
            }
        }
        changed
    }

    /// Sets the away flag on the player session at the index; a session
    /// that is not a logged-in player is left untouched.
    pub fn set_afk_flag(&mut self, i: usize, afk: bool) -> (r: bool)
        requires
            i < old(self).connections@.len(),
            old(self).wf(),
        ensures
            final(self).wf(),
            final(self).connections@.len() == old(self).connections@.len(),
            forall|j: int|
                0 <= j < old(self).connections@.len() && j != i as int
                    ==> final(self).connections@[j] == old(self).connections@[j],
            final(self).connections@[i as int].cid == old(self).connections@[i as int].cid,
            final(self).connections@[i as int].address == old(self).connections@[i as int].address,
            final(self).connections@[i as int].outgoing == old(self).connections@[i as int].outgoing,
            final(self).connections@[i as int].spec_citizen_id() == old(
                self,
            ).connections@[i as int].spec_citizen_id(),
            match old(self).connections@[i as int].client {
                Some(ClientInfo::Player(p0)) => p0.citizen is Some ==> (r && match final(self).connections@[i as int].client {
                    Some(ClientInfo::Player(p1)) => {
                        &&& p1.username == p0.username
                        &&& p1.afk == afk
                        &&& p1.citizen == p0.citizen
                        &&& p1.tabs == p0.tabs
                    },
                    _ => false,
                }),
                _ => true,
            },
            !r ==> final(self).connections@ == old(self).connections@,
    {
        let ghost s0 = self.connections@;
        let changed: bool;
        match &mut self.connections[i].client {
            Some(ClientInfo::Player(p)) => {
                match &p.citizen {
                    Some(_) => {
                        p.afk = afk;
                        changed = true;
                    },
                    None => {
                        changed = false;
                    },
                }
            },
            _ => {
                changed = false;
            },
        }
        proof {
            let s1 = self.connections@;
            assert(s1[i as int].spec_citizen_id() == s0[i as int].spec_citizen_id());
            assert forall|j: int, k: int| 0 <= j < k < s1.len() implies s1[j].cid != s1[k].cid by {
                if j != i as int {
                    assert(s1[j] == s0[j]);
                }
                if k != i as int {
                    assert(s1[k] == s0[k]);
                }
                assert(s0[j].cid != s0[k].cid);
            }
            assert forall|j: int, k: int| 0 <= j < k < s1.len() implies !(
            s1[j].spec_citizen_id() is Some && s1[j].spec_citizen_id()
                == s1[k].spec_citizen_id()) by {
                if j != i as int {
                    assert(s1[j] == s0[j]);
                }
                if k != i as int {
                    assert(s1[k] == s0[k]);
                }
                assert(s1[j].spec_citizen_id() == s0[j].spec_citizen_id());
                assert(s1[k].spec_citizen_id() == s0[k].spec_citizen_id());
                assert(!(s0[j].spec_citizen_id() is Some && s0[j].spec_citizen_id()
                    == s0[k].spec_citizen_id()));
            }
        }
        changed
    }

    /// Replaces the session of the connection at the index. The caller
    /// vouches that no other connection is logged in as the new session's
    /// citizen.
    pub fn set_client(&mut self, i: usize, client: Option<ClientInfo>)
        requires
            i < old(self).connections@.len(),
            old(self).wf(),
            client_citizen(client) matches Some(c) ==> forall|j: int|
                0 <= j < old(self).connections@.len() && j != i as int ==> (#[trigger] old(
                    self,
                ).connections@[j]).spec_citizen_id() != Some(c),
        ensures
            final(self).wf(),
            final(self).connections@.len() == old(self).connections@.len(),
            forall|j: int|
                0 <= j < old(self).connections@.len() && j != i as int
                    ==> final(self).connections@[j] == old(self).connections@[j],
            final(self).connections@[i as int].cid == old(self).connections@[i as int].cid,
            final(self).connections@[i as int].address == old(self).connections@[i as int].address,
            final(self).connections@[i as int].outgoing == old(self).connections@[i as int].outgoing,
            final(self).connections@[i as int].client == client,
    {
        let ghost s0 = self.connections@;
        self.connections[i].client = client;
        proof {
            let s1 = self.connections@;
            assert forall|j: int, k: int| 0 <= j < k < s1.len() implies s1[j].cid != s1[k].cid by {
                if j != i as int {
                    assert(s1[j] == s0[j]);
                }
                if k != i as int {
                    assert(s1[k] == s0[k]);
                }
                assert(s0[j].cid != s0[k].cid);
            }
            assert forall|j: int, k: int| 0 <= j < k < s1.len() implies !(
            s1[j].spec_citizen_id() is Some && s1[j].spec_citizen_id()
                == s1[k].spec_citizen_id()) by {
                if j != i as int && k != i as int {
                    assert(s1[j] == s0[j]);
                    assert(s1[k] == s0[k]);
                    assert(!(s0[j].spec_citizen_id() is Some && s0[j].spec_citizen_id()
                        == s0[k].spec_citizen_id()));
                } else if j == i as int {
                    assert(s1[k] == s0[k]);
                    assert(s1[j].spec_citizen_id() == client_citizen(client));
                    assert(s1[k].spec_citizen_id() == s0[k].spec_citizen_id());
                } else {
                    assert(s1[j] == s0[j]);
                    assert(s1[k].spec_citizen_id() == client_citizen(client));
                    assert(s1[j].spec_citizen_id() == s0[j].spec_citizen_id());
                }
            }
        }
    }

    /// Logs the connection with the given id in as a citizen. A prior
    /// connection logged in as the same citizen is evicted: exactly that
    /// one is closed, and the citizen then resolves to this connection.
    #[verifier::loop_isolation(false)]
    #[verifier::rlimit(100)]
    pub fn login_citizen(&mut self, cid: u32, username: String, cit_id: u32, privilege: u32) -> (r:
        bool)
        requires
            old(self).wf(),
        ensures
            final(self).wf(),
            !conn_exists(old(self).connections@, cid) ==> (!r && final(self).connections@ == old(
                self,
            ).connections@),
            conn_exists(old(self).connections@, cid) ==> {
                let s0 = old(self).connections@;
                let s1 = final(self).connections@;
                &&& r
                &&& exists|j: int|
                    0 <= j < s1.len() && (#[trigger] s1[j]).cid == cid && s1[j].spec_citizen_id()
                        == Some(cit_id)
                &&& forall|j: int|
                    0 <= j < s1.len() && (#[trigger] s1[j]).spec_citizen_id() == Some(cit_id)
                        ==> s1[j].cid == cid
                &&& (exists|k: int|
                    0 <= k < s0.len() && (#[trigger] s0[k]).cid != cid && s0[k].spec_citizen_id()
                        == Some(cit_id)) ==> s1.len() == s0.len() - 1
                &&& (forall|k: int|
                    0 <= k < s0.len() && (#[trigger] s0[k]).cid != cid ==> s0[k].spec_citizen_id()
                        != Some(cit_id)) ==> s1.len() == s0.len()
                &&& forall|k: int|
                    0 <= k < s0.len() && (#[trigger] s0[k]).cid != cid && s0[k].spec_citizen_id()
                        != Some(cit_id) ==> exists|j: int|
                        0 <= j < s1.len() && #[trigger] s1[j] == s0[k]
            },
    {
        let ghost s0 = self.connections@;
        let idx0 = match self.index_by_cid(cid) {
            Some(i) => i,
            None => {
                return false;
            },
        };
        proof {
            lemma_conn_views_at(s0, idx0 as int, cid);
        }
        let n = self.connections.len();
        let mut e: Option<usize> = None;
        let mut i: usize = 0;
        while i < n
            invariant
                i <= n,
                n == s0.len(),
                s0 == self.connections@,
                *self == *old(self),
                e matches Some(ei) ==> ei < n && s0[ei as int].cid != cid && s0[
                    ei as int
                ].spec_citizen_id() == Some(cit_id),
                e is None ==> forall|j: int|
                    0 <= j < i ==> !((#[trigger] s0[j]).cid != cid && s0[j].spec_citizen_id()
                        == Some(cit_id)),
            decreases n - i,
        {
            let is_other = self.connections[i].cid != cid;
            let has_cit = match self.connections[i].citizen_id() {
                Some(c) => c == cit_id,
                None => false,
            };
            if is_other && has_cit {
                e = Some(i);
                break ;
            }
            i = i + 1;
        }
        let target: usize;
        match e {
            Some(ei) => {
                self.connections.remove(ei);
                proof {
                    let s1 = self.connections@;
                    assert forall|j: int, k: int| 0 <= j < k < s1.len() implies s1[j].cid
                        != s1[k].cid by {
                        if j < ei as int {
                            assert(s1[j] == s0[j]);
                        } else {
                            assert(s1[j] == s0[j + 1]);
                        }
                        if k < ei as int {
                            assert(s1[k] == s0[k]);
                        } else {
                            assert(s1[k] == s0[k + 1]);
                        }
                    }
                    assert forall|j: int, k: int| 0 <= j < k < s1.len() implies !(
                    s1[j].spec_citizen_id() is Some && s1[j].spec_citizen_id()
                        == s1[k].spec_citizen_id()) by {
                        if j < ei as int {
                            assert(s1[j] == s0[j]);
                        } else {
                            assert(s1[j] == s0[j + 1]);
                        }
                        if k < ei as int {
                            assert(s1[k] == s0[k]);
                        } else {
                            assert(s1[k] == s0[k + 1]);
                        }
                    }
                }
                if idx0 > ei {
                    target = idx0 - 1;
                } else {
                    target = idx0;
                }
                proof {
                    if idx0 > ei {
                        assert(self.connections@[target as int] == s0[idx0 as int]);
                    } else {
                        assert(idx0 != ei);
                        assert(self.connections@[target as int] == s0[idx0 as int]);
                    }
                }
            },
            None => {
                target = idx0;
            },
        }
        let ghost smid = self.connections@;
        let client = Some(
            ClientInfo::Player(
                PlayerInfo {
                    username,
                    afk: false,
                    citizen: Some(CitizenSession { cit_id, privilege }),
                    tabs: PlayerTabs::new(),
                },
            ),
        );
        proof {
            assert(client_citizen(client) == Some(cit_id));
            assert forall|j: int| 0 <= j < smid.len() && j != target as int implies (
            #[trigger] smid[j]).spec_citizen_id() != Some(cit_id) by {
                match e {
                    Some(ei) => {
                        let oj: int = if j < ei as int {
                            j
                        } else {
                            j + 1
                        };
                        assert(smid[j] == s0[oj]);
                        if s0[oj].spec_citizen_id() == Some(cit_id) {
                            if oj != ei as int {
                                if oj < ei as int {
                                    assert(!(s0[oj].spec_citizen_id() is Some
                                        && s0[oj].spec_citizen_id() == s0[
                                        ei as int
                                    ].spec_citizen_id()));
                                } else {
                                    assert(!(s0[ei as int].spec_citizen_id() is Some && s0[
                                        ei as int
                                    ].spec_citizen_id() == s0[oj].spec_citizen_id()));
                                }
                                assert(false);
                            }
                        }
                    },
                    None => {
                        assert(smid[j] == s0[j]);
                        if s0[j].spec_citizen_id() == Some(cit_id) {
                            if s0[j].cid != cid {
                                assert(false);
                            } else {
                                if j < idx0 as int {
                                    assert(s0[j].cid != s0[idx0 as int].cid);
                                } else {
                                    assert(s0[idx0 as int].cid != s0[j].cid);
                                }
                                assert(false);
                            }
                        }
                    },
                }
            }
        }
        self.set_client(target, client);
        proof {
            let s1 = self.connections@;
            assert(s1[target as int].cid == cid);
            assert(s1[target as int].spec_citizen_id() == Some(cit_id));
            assert forall|j: int| 0 <= j < s1.len() && (#[trigger] s1[j]).spec_citizen_id()
                == Some(cit_id) implies s1[j].cid == cid by {
                if j != target as int {
                    assert(s1[j] == smid[j]);
                    assert(smid[j].spec_citizen_id() != Some(cit_id));
                }
            }
            assert forall|k: int|
                0 <= k < s0.len() && (#[trigger] s0[k]).cid != cid && s0[k].spec_citizen_id()
                    != Some(cit_id) implies exists|j: int|
                0 <= j < s1.len() && #[trigger] s1[j] == s0[k] by {
                match e {
                    Some(ei) => {
                        assert(k != ei as int);
                        let nj: int = if k < ei as int {
                            k
                        } else {
                            k - 1
                        };
                        assert(smid[nj] == s0[k]);
                        assert(nj != target as int);
                        assert(s1[nj] == s0[k]);
                    },
                    None => {
                        assert(k != idx0 as int);
                        assert(smid[k] == s0[k]);
                        assert(s1[k] == s0[k]);
                    },
                }
            }
            match e {
                Some(ei) => {
                    assert(s1.len() == s0.len() - 1);
                },
                None => {
                    assert(s1.len() == s0.len());
                    if exists|k: int|
                        0 <= k < s0.len() && (#[trigger] s0[k]).cid != cid
                            && s0[k].spec_citizen_id() == Some(cit_id) {
                        let k = choose|k: int|
                            0 <= k < s0.len() && (#[trigger] s0[k]).cid != cid
                                && s0[k].spec_citizen_id() == Some(cit_id);
                        assert(false);
                    }
                },
            }
        }
        true
    }

    /// Swaps in a freshly built player-list tab on the player session at
    /// the index; a session that is not a player is left untouched.
    pub fn set_player_tab(&mut self, i: usize, tab: Vec<crate::tabs::PlayerEntry>) -> (r: bool)
        requires
            i < old(self).connections@.len(),
            old(self).wf(),
        ensures
            final(self).wf(),
            final(self).connections@.len() == old(self).connections@.len(),
            forall|j: int|
                0 <= j < old(self).connections@.len() && j != i as int
                    ==> final(self).connections@[j] == old(self).connections@[j],
            final(self).connections@[i as int].cid == old(self).connections@[i as int].cid,
            final(self).connections@[i as int].address == old(self).connections@[i as int].address,
            final(self).connections@[i as int].outgoing == old(self).connections@[i as int].outgoing,
            final(self).connections@[i as int].spec_citizen_id() == old(
                self,
            ).connections@[i as int].spec_citizen_id(),
            match old(self).connections@[i as int].client {
                Some(ClientInfo::Player(p0)) => (r && match final(self).connections@[i as int].client {
                    Some(ClientInfo::Player(p1)) => {
                        &&& p1.username == p0.username
                        &&& p1.afk == p0.afk
                        &&& p1.citizen == p0.citizen
                        &&& p1.tabs.contact_list == p0.tabs.contact_list
                        &&& p1.tabs.player_list.current == tab
                    },
                    _ => false,
                }),
                _ => (!r && final(self).connections@ == old(self).connections@),
            },
    {
        let ghost s0 = self.connections@;
        let changed: bool;
        match &mut self.connections[i].client {
            Some(ClientInfo::Player(p)) => {
                p.tabs.player_list.current = tab;
                changed = true;
            },
            _ => {
                changed = false;
            },
        }
        proof {
            let s1 = self.connections@;
            assert(s1[i as int].spec_citizen_id() == s0[i as int].spec_citizen_id());
            assert forall|j: int, k: int| 0 <= j < k < s1.len() implies s1[j].cid != s1[k].cid by {
                if j != i as int {
                    assert(s1[j] == s0[j]);
                }
                if k != i as int {
                    assert(s1[k] == s0[k]);
                }
                assert(s0[j].cid != s0[k].cid);
            }
            assert forall|j: int, k: int| 0 <= j < k < s1.len() implies !(
            s1[j].spec_citizen_id() is Some && s1[j].spec_citizen_id()
                == s1[k].spec_citizen_id()) by {
                if j != i as int {
                    assert(s1[j] == s0[j]);
                }
                if k != i as int {
                    assert(s1[k] == s0[k]);
                }
                assert(s1[j].spec_citizen_id() == s0[j].spec_citizen_id());
                assert(s1[k].spec_citizen_id() == s0[k].spec_citizen_id());
                assert(!(s0[j].spec_citizen_id() is Some && s0[j].spec_citizen_id()
                    == s0[k].spec_citizen_id()));
            }
        }
        changed
    }

    /// Queues a packet on the connection at a known index.
    pub fn send_to_index(&mut self, i: usize, p: AWPacket)
        requires
            i < old(self).connections@.len(),
        ensures
            final(self).connections@.len() == old(self).connections@.len(),
            forall|j: int|
                0 <= j < old(self).connections@.len() && j != i as int
                    ==> final(self).connections@[j] == old(self).connections@[j],
            final(self).connections@[i as int].cid == old(self).connections@[i as int].cid,
            final(self).connections@[i as int].address == old(self).connections@[i as int].address,
            final(self).connections@[i as int].client == old(self).connections@[i as int].client,
            final(self).connections@[i as int].outgoing@ == old(
                self,
            ).connections@[i as int].outgoing@.push(p),
    {
        self.connections[i].send(p);
    }

    /// Queues a fully built response on the connection at a known index,
    /// leaving every other connection untouched.
    pub fn respond_packet(&mut self, i: usize, p: AWPacket)
        requires
            i < old(self).connections@.len(),
            old(self).wf(),
        ensures
            final(self).wf(),
            queues_extended(old(self).connections@, final(self).connections@, old(
                self,
            ).connections@[i as int].cid),
            forall|j: int|
                0 <= j < old(self).connections@.len() && (#[trigger] old(
                    self,
                ).connections@[j]).cid == old(self).connections@[i as int].cid
                    ==> final(self).connections@[j].outgoing@ == old(
                    self,
                ).connections@[j].outgoing@.push(p),
    {
        let ghost s0 = self.connections@;
        let ghost gi = i as int;
        self.send_to_index(i, p);
        proof {
            let s1 = self.connections@;
            assert forall|j: int| 0 <= j < s0.len() && (#[trigger] s0[j]).cid == s0[gi].cid
                implies j == gi by {
                if j < gi {
                    assert(s0[j].cid != s0[gi].cid);
                } else if j > gi {
                    assert(s0[gi].cid != s0[j].cid);
                }
            }
            assert forall|j: int| 0 <= j < s0.len() implies (#[trigger] s1[j]).outgoing@.take(
                s0[j].outgoing@.len() as int,
            ) == s0[j].outgoing@ by {
                if j == gi {
                    assert(s1[j].outgoing@.take(s0[j].outgoing@.len() as int)
                        =~= s0[j].outgoing@);
                } else {
                    assert(s1[j] == s0[j]);
                    assert(s1[j].outgoing@.take(s0[j].outgoing@.len() as int)
                        =~= s0[j].outgoing@);
                }
            }
            assert forall|j: int, k: int| 0 <= j < k < s1.len() implies !(
            s1[j].spec_citizen_id() is Some && s1[j].spec_citizen_id()
                == s1[k].spec_citizen_id()) by {
                assert(s1[j].client == s0[j].client);
                assert(s1[k].client == s0[k].client);
                assert(s1[j].spec_citizen_id() == s0[j].spec_citizen_id());
                assert(s1[k].spec_citizen_id() == s0[k].spec_citizen_id());
                assert(!(s0[j].spec_citizen_id() is Some && s0[j].spec_citizen_id()
                    == s0[k].spec_citizen_id()));
            }
            assert forall|j: int, k: int| 0 <= j < k < s1.len() implies s1[j].cid != s1[k].cid by {
                assert(s1[j].cid == s0[j].cid);
                assert(s1[k].cid == s0[k].cid);
            }
        }
    }

    /// Queues a response that carries only a reason code.
    pub fn respond(&mut self, i: usize, pt: crate::packet::PacketType, rc: crate::reason::ReasonCode)
        requires
            i < old(self).connections@.len(),
            old(self).wf(),
        ensures
            final(self).wf(),
            sent_response(old(self).connections@, final(self).connections@, old(
                self,
            ).connections@[i as int].cid, pt, rc),
    {
        let mut p = AWPacket::new(pt);
        let ghost v0 = p.vars@;
        p.add_reason(rc);
        proof {
            crate::packet::lemma_find_var_push(
                v0,
                crate::packet::VarID::ReasonCode,
                (crate::packet::VarID::ReasonCode, crate::packet::PacketValue::Reason(rc)),
            );
        }
        let ghost s0 = self.connections@;
        let ghost gi = i as int;
        self.respond_packet(i, p);
        proof {
            let s1 = self.connections@;
            assert forall|j: int| 0 <= j < s0.len() && (#[trigger] s0[j]).cid == s0[gi].cid
                implies s1[j].outgoing@.len() == s0[j].outgoing@.len() + 1
                && s1[j].outgoing@.last().packet_type == pt && crate::packet::find_var(
                s1[j].outgoing@.last().vars@,
                crate::packet::VarID::ReasonCode,
            ) == Some(crate::packet::PacketValue::Reason(rc)) by {
                assert(s1[j].outgoing@ == s0[j].outgoing@.push(p));
            }
        }
    }

    /// Accepts a new, unauthenticated connection. Refused when the id is
    /// taken.
    pub fn insert(&mut self, cid: u32, address: u32) -> (r: bool)
        requires
            old(self).wf(),
        ensures
            final(self).wf(),
            !r ==> final(self).connections@ == old(self).connections@,
            r ==> {
                &&& final(self).connections@.len() == old(self).connections@.len() + 1
                &&& forall|i: int|
                    0 <= i < old(self).connections@.len() ==> final(self).connections@[i] == old(
                        self,
                    ).connections@[i]
                &&& final(self).connections@.last().cid == cid
                &&& final(self).connections@.last().address == address
                &&& final(self).connections@.last().client is None
                &&& final(self).connections@.last().outgoing@.len() == 0
            },
            r <==> (forall|i: int|
                0 <= i < old(self).connections@.len() ==> #[trigger] old(
                    self,
                ).connections@[i].cid != cid),
    {
        match self.index_by_cid(cid) {
            Some(i) => {
                proof {
                    assert(self.connections@[i as int].cid == cid);
                }
                false
            },
            None => {
                let ghost s0 = self.connections@;
                self.connections.push(
                    UniverseConnection { cid, address, client: None, outgoing: Vec::new() },
                );
                proof {
                    let s1 = self.connections@;
                    assert forall|i: int, j: int| 0 <= i < j < s1.len() implies s1[i].cid
                        != s1[j].cid by {
                        if j == s1.len() - 1 {
                            assert(s1[i] == s0[i]);
                        }
                    }
                    assert forall|i: int, j: int| 0 <= i < j < s1.len() implies !(
                    s1[i].spec_citizen_id() is Some && s1[i].spec_citizen_id()
                        == s1[j].spec_citizen_id()) by {
                        if j == s1.len() - 1 {
                            assert(s1[j].spec_citizen_id() is None);
                        } else {
                            assert(s1[i] == s0[i] && s1[j] == s0[j]);
                        }
                    }
                }
                true
            },
        }
    }

    /// Removes the connection with the given id, clearing every index of
    /// it at once.
    pub fn remove(&mut self, cid: u32)
        requires
            old(self).wf(),
        ensures
            final(self).wf(),
            forall|i: int|
                0 <= i < final(self).connections@.len()
                    ==> (#[trigger] final(self).connections@[i]).cid != cid,
            (forall|i: int|
                0 <= i < old(self).connections@.len() ==> (#[trigger] old(
                    self,
                ).connections@[i]).cid != cid) ==> final(self).connections@ == old(
                self,
            ).connections@,
            (exists|i: int|
                0 <= i < old(self).connections@.len() && (#[trigger] old(
                    self,
                ).connections@[i]).cid == cid) ==> final(self).connections@.len() == old(
                self,
            ).connections@.len() - 1,
            forall|k: int|
                0 <= k < old(self).connections@.len() && (#[trigger] old(
                    self,
                ).connections@[k]).cid != cid ==> exists|j: int|
                    0 <= j < final(self).connections@.len()
                        && #[trigger] final(self).connections@[j] == old(self).connections@[k],
    {
        let ghost s0 = self.connections@;
        match self.index_by_cid(cid) {
            Some(i) => {
                self.connections.remove(i);
                proof {
                    let s1 = self.connections@;
                    let gi = i as int;
                    assert forall|j: int| 0 <= j < s0.len() && j != gi implies #[trigger] s0[j].cid
                        != cid by {
                        if j < gi {
                            assert(s0[j].cid != s0[gi].cid);
                        } else {
                            assert(s0[gi].cid != s0[j].cid);
                        }
                    }
                    assert forall|j: int| 0 <= j < s1.len() implies #[trigger] s1[j].cid != cid by {
                        if j < gi {
                            assert(s1[j] == s0[j]);
                        } else {
                            assert(s1[j] == s0[j + 1]);
                        }
                    }
                    assert forall|j: int, k: int| 0 <= j < k < s1.len() implies s1[j].cid
                        != s1[k].cid by {
                        if j < gi {
                            assert(s1[j] == s0[j]);
                        } else {
                            assert(s1[j] == s0[j + 1]);
                        }
                        if k < gi {
                            assert(s1[k] == s0[k]);
                        } else {
                            assert(s1[k] == s0[k + 1]);
                        }
                    }
                    assert forall|j: int, k: int| 0 <= j < k < s1.len() implies !(
                    s1[j].spec_citizen_id() is Some && s1[j].spec_citizen_id()
                        == s1[k].spec_citizen_id()) by {
                        if j < gi {
                            assert(s1[j] == s0[j]);
                        } else {
                            assert(s1[j] == s0[j + 1]);
                        }
                        if k < gi {
                            assert(s1[k] == s0[k]);
                        } else {
                            assert(s1[k] == s0[k + 1]);
                        }
                    }
                    assert forall|k: int| 0 <= k < s0.len() && (#[trigger] s0[k]).cid != cid
                        implies exists|j: int| 0 <= j < s1.len() && #[trigger] s1[j] == s0[k] by {
                        if k < gi {
                            assert(s1[k] == s0[k]);
                        } else {
                            assert(s1[k - 1] == s0[k]);
                        }
                    }
                }
            },
            None => {},
        }
    }
}

} // verus!
