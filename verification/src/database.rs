//! The in-memory directory store: citizens, licenses, contacts, telegrams
//! and ejections, with the relational contract the packet handlers build
//! on. Every call is atomic and reports the three-valued outcome of
//! `DatabaseResult`.

use vstd::prelude::*;
use crate::contact_options::ContactOptions;
use crate::records::{CitizenQuery, ContactQuery, DatabaseResult, EjectionQuery, LicenseQuery,
    TelegramQuery};
use crate::text::{eq_ignore_case, lemma_str_lt_connected, lemma_str_lt_trans, str_eq, str_eq_ignore_case, str_lt, str_lt_exec};

verus! {

/// Content equality of two citizen rows.
pub open spec fn same_citizen(a: CitizenQuery, b: CitizenQuery) -> bool {
    &&& a.id == b.id
    &&& a.changed == b.changed
    &&& a.name@ == b.name@
    &&& a.password@ == b.password@
    &&& a.email@ == b.email@
    &&& a.priv_pass@ == b.priv_pass@
    &&& a.comment@ == b.comment@
    &&& a.url@ == b.url@
    &&& a.immigration == b.immigration
    &&& a.expiration == b.expiration
    &&& a.last_login == b.last_login
    &&& a.last_address == b.last_address
    &&& a.total_time == b.total_time
    &&& a.bot_limit == b.bot_limit
    &&& a.beta == b.beta
    &&& a.cav_enabled == b.cav_enabled
    &&& a.cav_template == b.cav_template
    &&& a.enabled == b.enabled
    &&& a.privacy == b.privacy
    &&& a.trial == b.trial
}

/// Content equality of two license rows.
pub open spec fn same_license(a: LicenseQuery, b: LicenseQuery) -> bool {
    &&& a.id == b.id
    &&& a.name@ == b.name@
    &&& a.password@ == b.password@
    &&& a.email@ == b.email@
    &&& a.comment@ == b.comment@
    &&& a.creation == b.creation
    &&& a.expiration == b.expiration
    &&& a.last_start == b.last_start
    &&& a.last_address == b.last_address
    &&& a.users == b.users
    &&& a.world_size == b.world_size
    &&& a.hidden == b.hidden
    &&& a.changed == b.changed
    &&& a.tourists == b.tourists
    &&& a.voip == b.voip
    &&& a.plugins == b.plugins
}

/// Content equality of two telegram rows.
pub open spec fn same_telegram(a: TelegramQuery, b: TelegramQuery) -> bool {
    &&& a.id == b.id
    &&& a.to == b.to
    &&& a.from == b.from
    &&& a.timestamp == b.timestamp
    &&& a.message@ == b.message@
    &&& a.delivered == b.delivered
}

/// Content equality of two ejection rows.
pub open spec fn same_ejection(a: EjectionQuery, b: EjectionQuery) -> bool {
    &&& a.address == b.address
    &&& a.expiration == b.expiration
    &&& a.creation == b.creation
    &&& a.comment@ == b.comment@
}

impl CitizenQuery {
    /// A field-for-field copy of the row.
    pub fn duplicate(&self) -> (r: CitizenQuery)
        ensures
            same_citizen(r, *self),
    {
        CitizenQuery {
            id: self.id,
            changed: self.changed,
            name: self.name.clone(),
            password: self.password.clone(),
            email: self.email.clone(),
            priv_pass: self.priv_pass.clone(),
            comment: self.comment.clone(),
            url: self.url.clone(),
            immigration: self.immigration,
            expiration: self.expiration,
            last_login: self.last_login,
            last_address: self.last_address,
            total_time: self.total_time,
            bot_limit: self.bot_limit,
            beta: self.beta,
            cav_enabled: self.cav_enabled,
            cav_template: self.cav_template,
            enabled: self.enabled,
            privacy: self.privacy,
            trial: self.trial,
        }
    }
}

impl LicenseQuery {
    /// A field-for-field copy of the row.
    pub fn duplicate(&self) -> (r: LicenseQuery)
        ensures
            same_license(r, *self),
    {
        LicenseQuery {
            id: self.id,
            name: self.name.clone(),
            password: self.password.clone(),
            email: self.email.clone(),
            comment: self.comment.clone(),
            creation: self.creation,
            expiration: self.expiration,
            last_start: self.last_start,
            last_address: self.last_address,
            users: self.users,
            world_size: self.world_size,
            hidden: self.hidden,
            changed: self.changed,
            tourists: self.tourists,
            voip: self.voip,
            plugins: self.plugins,
        }
    }
}

impl TelegramQuery {
    /// A field-for-field copy of the row.
    pub fn duplicate(&self) -> (r: TelegramQuery)
        ensures
            same_telegram(r, *self),
    {
        TelegramQuery {
            id: self.id,
            to: self.to,
            from: self.from,
            timestamp: self.timestamp,
            message: self.message.clone(),
            delivered: self.delivered,
        }
    }
}

impl EjectionQuery {
    /// A field-for-field copy of the row.
    pub fn duplicate(&self) -> (r: EjectionQuery)
        ensures
            same_ejection(r, *self),
    {
        EjectionQuery {
            address: self.address,
            expiration: self.expiration,
            creation: self.creation,
            comment: self.comment.clone(),
        }
    }
}

/// The first citizen row with the given id.
pub open spec fn citizen_with_id(s: Seq<CitizenQuery>, id: u32) -> Option<CitizenQuery>
    decreases s.len(),
{
    if s.len() == 0 {
        None
    } else if s[0].id == id {
        Some(s[0])
    } else {
        citizen_with_id(s.skip(1), id)
    }
}

/// The first citizen row whose name equals `name` under case folding.
pub open spec fn citizen_with_name(s: Seq<CitizenQuery>, name: Seq<char>) -> Option<CitizenQuery>
    decreases s.len(),
{
    if s.len() == 0 {
        None
    } else if eq_ignore_case(s[0].name@, name) {
        Some(s[0])
    } else {
        citizen_with_name(s.skip(1), name)
    }
}

/// The first license row with the given name.
pub open spec fn license_with_name(s: Seq<LicenseQuery>, name: Seq<char>) -> Option<LicenseQuery>
    decreases s.len(),
{
    if s.len() == 0 {
        None
    } else if s[0].name@ == name {
        Some(s[0])
    } else {
        license_with_name(s.skip(1), name)
    }
}

/// The first license row with the given id.
pub open spec fn license_with_id(s: Seq<LicenseQuery>, id: u32) -> Option<LicenseQuery>
    decreases s.len(),
{
    if s.len() == 0 {
        None
    } else if s[0].id == id {
        Some(s[0])
    } else {
        license_with_id(s.skip(1), id)
    }
}

/// The options of the edge from `owner` toward `other`, if the edge exists.
pub open spec fn contact_of(s: Seq<ContactQuery>, owner: u32, other: u32) -> Option<ContactOptions>
    decreases s.len(),
{
    if s.len() == 0 {
        None
    } else if s[0].citizen == owner && s[0].contact == other {
        Some(s[0].options)
    } else {
        contact_of(s.skip(1), owner, other)
    }
}

/// The first ejection row for the given address.
pub open spec fn ejection_at(s: Seq<EjectionQuery>, address: u32) -> Option<EjectionQuery>
    decreases s.len(),
{
    if s.len() == 0 {
        None
    } else if s[0].address == address {
        Some(s[0])
    } else {
        ejection_at(s.skip(1), address)
    }
}

/// The undelivered telegrams addressed to `cit`, in stored order.
pub open spec fn undelivered_to(s: Seq<TelegramQuery>, cit: u32) -> Seq<TelegramQuery>
    decreases s.len(),
{
    if s.len() == 0 {
        Seq::empty()
    } else if s[0].to == cit && !s[0].delivered {
        seq![s[0]] + undelivered_to(s.skip(1), cit)
    } else {
        undelivered_to(s.skip(1), cit)
    }
}

/// A find over a concatenation takes the left half's answer when it has
/// one.
pub proof fn lemma_citizen_with_id_concat(a: Seq<CitizenQuery>, b: Seq<CitizenQuery>, id: u32)
    ensures
        citizen_with_id(a + b, id) == (if citizen_with_id(a, id) is Some {
            citizen_with_id(a, id)
        } else {
            citizen_with_id(b, id)
        }),
    decreases a.len(),
{
    if a.len() == 0 {
        assert(a + b =~= b);
    } else {
        assert((a + b)[0] == a[0]);
        assert((a + b).skip(1) =~= a.skip(1) + b);
        lemma_citizen_with_id_concat(a.skip(1), b, id);
    }
}

/// A find over a concatenation takes the left half's answer when it has
/// one.
pub proof fn lemma_citizen_with_name_concat(
    a: Seq<CitizenQuery>,
    b: Seq<CitizenQuery>,
    name: Seq<char>,
)
    ensures
        citizen_with_name(a + b, name) == (if citizen_with_name(a, name) is Some {
            citizen_with_name(a, name)
        } else {
            citizen_with_name(b, name)
        }),
    decreases a.len(),
{
    if a.len() == 0 {
        assert(a + b =~= b);
    } else {
        assert((a + b)[0] == a[0]);
        assert((a + b).skip(1) =~= a.skip(1) + b);
        lemma_citizen_with_name_concat(a.skip(1), b, name);
    }
}

/// A find over a concatenation takes the left half's answer when it has
/// one.
pub proof fn lemma_license_with_name_concat(
    a: Seq<LicenseQuery>,
    b: Seq<LicenseQuery>,
    name: Seq<char>,
)
    ensures
        license_with_name(a + b, name) == (if license_with_name(a, name) is Some {
            license_with_name(a, name)
        } else {
            license_with_name(b, name)
        }),
    decreases a.len(),
{
    if a.len() == 0 {
        assert(a + b =~= b);
    } else {
        assert((a + b)[0] == a[0]);
        assert((a + b).skip(1) =~= a.skip(1) + b);
        lemma_license_with_name_concat(a.skip(1), b, name);
    }
}

/// A find over a concatenation takes the left half's answer when it has
/// one.
pub proof fn lemma_contact_of_concat(a: Seq<ContactQuery>, b: Seq<ContactQuery>, owner: u32, other: u32)
    ensures
        contact_of(a + b, owner, other) == (if contact_of(a, owner, other) is Some {
            contact_of(a, owner, other)
        } else {
            contact_of(b, owner, other)
        }),
    decreases a.len(),
{
    if a.len() == 0 {
        assert(a + b =~= b);
    } else {
        assert((a + b)[0] == a[0]);
        assert((a + b).skip(1) =~= a.skip(1) + b);
        lemma_contact_of_concat(a.skip(1), b, owner, other);
    }
}

/// A find over a concatenation takes the left half's answer when it has
/// one.
pub proof fn lemma_ejection_at_concat(a: Seq<EjectionQuery>, b: Seq<EjectionQuery>, address: u32)
    ensures
        ejection_at(a + b, address) == (if ejection_at(a, address) is Some {
            ejection_at(a, address)
        } else {
            ejection_at(b, address)
        }),
    decreases a.len(),
{
    if a.len() == 0 {
        assert(a + b =~= b);
    } else {
        assert((a + b)[0] == a[0]);
        assert((a + b).skip(1) =~= a.skip(1) + b);
        lemma_ejection_at_concat(a.skip(1), b, address);
    }
}

/// The undelivered queue of a concatenation is the two halves' queues in
/// order.
pub proof fn lemma_undelivered_concat(a: Seq<TelegramQuery>, b: Seq<TelegramQuery>, cit: u32)
    ensures
        undelivered_to(a + b, cit) == undelivered_to(a, cit) + undelivered_to(b, cit),
    decreases a.len(),
{
    if a.len() == 0 {
        assert(a + b =~= b);
        assert(undelivered_to(a, cit) + undelivered_to(b, cit) =~= undelivered_to(b, cit));
    } else {
        assert((a + b)[0] == a[0]);
        assert((a + b).skip(1) =~= a.skip(1) + b);
        lemma_undelivered_concat(a.skip(1), b, cit);
        if a[0].to == cit && !a[0].delivered {
            assert(seq![a[0]] + (undelivered_to(a.skip(1), cit) + undelivered_to(b, cit))
                =~= (seq![a[0]] + undelivered_to(a.skip(1), cit)) + undelivered_to(b, cit));
        }
    }
}

/// Ties an id find to the indexes of the sequence.
pub proof fn lemma_citizen_with_id_index(s: Seq<CitizenQuery>, id: u32)
    ensures
        citizen_with_id(s, id) is None ==> forall|i: int| 0 <= i < s.len() ==> s[i].id != id,
        citizen_with_id(s, id) matches Some(c) ==> exists|i: int|
            0 <= i < s.len() && s[i] == c && s[i].id == id,
    decreases s.len(),
{
    if s.len() > 0 {
        lemma_citizen_with_id_index(s.skip(1), id);
        if s[0].id != id {
            match citizen_with_id(s.skip(1), id) {
                Some(c) => {
                    let i = choose|i: int|
                        0 <= i < s.skip(1).len() && s.skip(1)[i] == c && s.skip(1)[i].id == id;
                    assert(s[i + 1] == s.skip(1)[i]);
                },
                None => {},
            }
        }
        if citizen_with_id(s, id) is None {
            assert forall|i: int| 0 <= i < s.len() implies s[i].id != id by {
                if i > 0 {
                    assert(s[i] == s.skip(1)[i - 1]);
                }
            }
        }
    }
}

/// Ties a folded-name find to the indexes of the sequence.
pub proof fn lemma_citizen_with_name_index(s: Seq<CitizenQuery>, name: Seq<char>)
    ensures
        citizen_with_name(s, name) is None ==> forall|i: int|
            0 <= i < s.len() ==> !eq_ignore_case(s[i].name@, name),
        citizen_with_name(s, name) matches Some(c) ==> exists|i: int|
            0 <= i < s.len() && s[i] == c && eq_ignore_case(s[i].name@, name),
    decreases s.len(),
{
    if s.len() > 0 {
        lemma_citizen_with_name_index(s.skip(1), name);
        if !eq_ignore_case(s[0].name@, name) {
            match citizen_with_name(s.skip(1), name) {
                Some(c) => {
                    let i = choose|i: int|
                        0 <= i < s.skip(1).len() && s.skip(1)[i] == c && eq_ignore_case(
                            s.skip(1)[i].name@,
                            name,
                        );
                    assert(s[i + 1] == s.skip(1)[i]);
                },
                None => {},
            }
        }
        if citizen_with_name(s, name) is None {
            assert forall|i: int| 0 <= i < s.len() implies !eq_ignore_case(s[i].name@, name) by {
                if i > 0 {
                    assert(s[i] == s.skip(1)[i - 1]);
                }
            }
        }
    }
}

/// Ties a license-name find to the indexes of the sequence.
pub proof fn lemma_license_with_name_index(s: Seq<LicenseQuery>, name: Seq<char>)
    ensures
        license_with_name(s, name) is None ==> forall|i: int|
            0 <= i < s.len() ==> s[i].name@ != name,
        license_with_name(s, name) matches Some(c) ==> exists|i: int|
            0 <= i < s.len() && s[i] == c && s[i].name@ == name,
    decreases s.len(),
{
    if s.len() > 0 {
        lemma_license_with_name_index(s.skip(1), name);
        if s[0].name@ != name {
            match license_with_name(s.skip(1), name) {
                Some(c) => {
                    let i = choose|i: int|
                        0 <= i < s.skip(1).len() && s.skip(1)[i] == c && s.skip(1)[i].name@ == name;
                    assert(s[i + 1] == s.skip(1)[i]);
                },
                None => {},
            }
        }
        if license_with_name(s, name) is None {
            assert forall|i: int| 0 <= i < s.len() implies s[i].name@ != name by {
                if i > 0 {
                    assert(s[i] == s.skip(1)[i - 1]);
                }
            }
        }
    }
}

/// Ties a license-id find to the indexes of the sequence.
pub proof fn lemma_license_with_id_index(s: Seq<LicenseQuery>, id: u32)
    ensures
        license_with_id(s, id) is None ==> forall|i: int| 0 <= i < s.len() ==> (#[trigger] s[i]).id
            != id,
        license_with_id(s, id) matches Some(c) ==> exists|i: int|
            0 <= i < s.len() && #[trigger] s[i] == c && s[i].id == id,
    decreases s.len(),
{
    if s.len() > 0 {
        lemma_license_with_id_index(s.skip(1), id);
        if s[0].id != id {
            match license_with_id(s.skip(1), id) {
                Some(c) => {
                    let i = choose|i: int|
                        0 <= i < s.skip(1).len() && #[trigger] s.skip(1)[i] == c && s.skip(
                            1,
                        )[i].id == id;
                    assert(s[i + 1] == s.skip(1)[i]);
                },
                None => {},
            }
        }
        if license_with_id(s, id) is None {
            assert forall|i: int| 0 <= i < s.len() implies (#[trigger] s[i]).id != id by {
                if i > 0 {
                    assert(s[i] == s.skip(1)[i - 1]);
                }
            }
        }
    }
}

/// Ties an edge find to the indexes of the sequence.
pub proof fn lemma_contact_of_index(s: Seq<ContactQuery>, owner: u32, other: u32)
    ensures
        contact_of(s, owner, other) is None ==> forall|i: int|
            0 <= i < s.len() ==> !(s[i].citizen == owner && s[i].contact == other),
        contact_of(s, owner, other) matches Some(o) ==> exists|i: int|
            0 <= i < s.len() && s[i].citizen == owner && s[i].contact == other && s[i].options == o,
    decreases s.len(),
{
    if s.len() > 0 {
        lemma_contact_of_index(s.skip(1), owner, other);
        if !(s[0].citizen == owner && s[0].contact == other) {
            match contact_of(s.skip(1), owner, other) {
                Some(o) => {
                    let i = choose|i: int|
                        0 <= i < s.skip(1).len() && s.skip(1)[i].citizen == owner
                            && s.skip(1)[i].contact == other && s.skip(1)[i].options == o;
                    assert(s[i + 1] == s.skip(1)[i]);
                },
                None => {},
            }
        }
        if contact_of(s, owner, other) is None {
            assert forall|i: int| 0 <= i < s.len() implies !(s[i].citizen == owner && s[i].contact
                == other) by {
                if i > 0 {
                    assert(s[i] == s.skip(1)[i - 1]);
                }
            }
        }
    }
}

/// Ties an address find to the indexes of the sequence.
pub proof fn lemma_ejection_at_index(s: Seq<EjectionQuery>, address: u32)
    ensures
        ejection_at(s, address) is None ==> forall|i: int| 0 <= i < s.len() ==> s[i].address
            != address,
        ejection_at(s, address) matches Some(e) ==> exists|i: int|
            0 <= i < s.len() && s[i] == e && s[i].address == address,
    decreases s.len(),
{
    if s.len() > 0 {
        lemma_ejection_at_index(s.skip(1), address);
        if s[0].address != address {
            match ejection_at(s.skip(1), address) {
                Some(e) => {
                    let i = choose|i: int|
                        0 <= i < s.skip(1).len() && s.skip(1)[i] == e && s.skip(1)[i].address
                            == address;
                    assert(s[i + 1] == s.skip(1)[i]);
                },
                None => {},
            }
        }
        if ejection_at(s, address) is None {
            assert forall|i: int| 0 <= i < s.len() implies s[i].address != address by {
                if i > 0 {
                    assert(s[i] == s.skip(1)[i - 1]);
                }
            }
        }
    }
}

/// Strict order of two contact edges by `(citizen, contact)`.
pub open spec fn pair_lt(a: ContactQuery, b: ContactQuery) -> bool {
    a.citizen < b.citizen || (a.citizen == b.citizen && a.contact < b.contact)
}

/// Strict order of two telegrams by `(timestamp, id)`: oldest first.
pub open spec fn tg_lt(a: TelegramQuery, b: TelegramQuery) -> bool {
    a.timestamp < b.timestamp || (a.timestamp == b.timestamp && a.id < b.id)
}

/// The authoritative directory of the universe.
pub struct UniverseDatabase {
    pub citizens: Vec<CitizenQuery>,
    pub licenses: Vec<LicenseQuery>,
    pub contacts: Vec<ContactQuery>,
    pub telegrams: Vec<TelegramQuery>,
    pub ejections: Vec<EjectionQuery>,
    pub next_license_id: u32,
    pub next_telegram_id: u32,
}

/// No two citizen rows share an id, and none uses id zero.
pub open spec fn cit_ids_ok(s: Seq<CitizenQuery>) -> bool {
    &&& forall|i: int, j: int|
        0 <= i < j < s.len() ==> #[trigger] s[i].id != #[trigger] s[j].id
    &&& forall|i: int| 0 <= i < s.len() ==> #[trigger] s[i].id != 0
}

/// No two citizen rows share a name under case folding.
pub open spec fn cit_names_ok(s: Seq<CitizenQuery>) -> bool {
    forall|i: int, j: int|
        0 <= i < j < s.len() ==> !eq_ignore_case(#[trigger] s[i].name@, #[trigger] s[j].name@)
}

/// No two license rows share an id or a name, and ids stay below the next
/// id to assign.
pub open spec fn lic_keys_ok(s: Seq<LicenseQuery>, next: u32) -> bool {
    &&& 1 <= next
    &&& forall|i: int, j: int|
        0 <= i < j < s.len() ==> #[trigger] s[i].id != #[trigger] s[j].id
    &&& forall|i: int, j: int|
        0 <= i < j < s.len() ==> #[trigger] s[i].name@ != #[trigger] s[j].name@
    &&& forall|i: int| 0 <= i < s.len() ==> 0 < #[trigger] s[i].id < next
}

/// Contact edges are strictly sorted by owner, then other; so each pair
/// occurs at most once.
pub open spec fn contacts_ok(s: Seq<ContactQuery>) -> bool {
    forall|i: int, j: int| 0 <= i < j < s.len() ==> pair_lt(#[trigger] s[i], #[trigger] s[j])
}

/// Telegrams are strictly sorted oldest first, ids are unique and stay
/// below the next id to assign.
pub open spec fn telegrams_ok(s: Seq<TelegramQuery>, next: u32) -> bool {
    &&& 1 <= next
    &&& forall|i: int, j: int| 0 <= i < j < s.len() ==> tg_lt(#[trigger] s[i], #[trigger] s[j])
    &&& forall|i: int, j: int|
        0 <= i < j < s.len() ==> #[trigger] s[i].id != #[trigger] s[j].id
    &&& forall|i: int| 0 <= i < s.len() ==> #[trigger] s[i].id < next
}

/// No two ejection rows share an address.
pub open spec fn ejections_ok(s: Seq<EjectionQuery>) -> bool {
    forall|i: int, j: int|
        0 <= i < j < s.len() ==> #[trigger] s[i].address != #[trigger] s[j].address
}

impl UniverseDatabase {
    /// Well-formedness: unique keys throughout, case-insensitively unique
    /// citizen names, contact edges sorted by owner and other, telegrams
    /// sorted oldest first.
    pub open spec fn wf(self) -> bool {
        &&& cit_ids_ok(self.citizens@)
        &&& cit_names_ok(self.citizens@)
        &&& lic_keys_ok(self.licenses@, self.next_license_id)
        &&& contacts_ok(self.contacts@)
        &&& telegrams_ok(self.telegrams@, self.next_telegram_id)
        &&& ejections_ok(self.ejections@)
    }

    /// An empty directory.
    pub fn new() -> (r: UniverseDatabase)
        ensures
            r.wf(),
            r.citizens@.len() == 0,
            r.licenses@.len() == 0,
            r.contacts@.len() == 0,
            r.telegrams@.len() == 0,
            r.ejections@.len() == 0,
    {
        UniverseDatabase {
            citizens: Vec::new(),
            licenses: Vec::new(),
            contacts: Vec::new(),
            telegrams: Vec::new(),
            ejections: Vec::new(),
            next_license_id: 1,
            next_telegram_id: 1,
        }
    }

    /// Looks a citizen up by id. Reports the stored row, or an empty
    /// option when no row has the id.
    #[verifier::loop_isolation(false)]
    pub fn citizen_by_number(&self, id: u32) -> (r: DatabaseResult<Option<CitizenQuery>>)
        ensures
            citizen_with_id(self.citizens@, id) matches Some(c0) ==> (r matches DatabaseResult::Success(
                Some(c),
            ) && same_citizen(c, c0)),
            citizen_with_id(self.citizens@, id) is None ==> r matches DatabaseResult::Success(None),
            r matches DatabaseResult::Success(Some(c)) ==> c.id == id,
    {
        let s = &self.citizens;
        let n = s.len();
        let mut i: usize = 0;
        assert(s@.skip(0) =~= s@);
        while i < n
            invariant
                i <= n,
                n == s@.len(),
                citizen_with_id(s@, id) == citizen_with_id(s@.skip(i as int), id),
            decreases n - i,
        {
            assert(s@.skip(i as int)[0] == s@[i as int]);
            if s[i].id == id {
                assert(citizen_with_id(s@.skip(i as int), id) == Some(s@[i as int]));
                return DatabaseResult::Success(Some(s[i].duplicate()));
            }
            assert(s@.skip(i as int).skip(1) =~= s@.skip(i + 1));
            i = i + 1;
        }
        assert(s@.skip(n as int) =~= Seq::<CitizenQuery>::empty());
        DatabaseResult::Success(None)
    }

    /// Looks a citizen up by name, folding case; the stored casing comes
    /// back.
    #[verifier::loop_isolation(false)]
    pub fn citizen_by_name(&self, name: &str) -> (r: DatabaseResult<Option<CitizenQuery>>)
        ensures
            citizen_with_name(self.citizens@, name@) matches Some(c0) ==> (r
                matches DatabaseResult::Success(Some(c)) && same_citizen(c, c0)),
            citizen_with_name(self.citizens@, name@) is None ==> r matches DatabaseResult::Success(
                None,
            ),
            r matches DatabaseResult::Success(Some(c)) ==> eq_ignore_case(c.name@, name@),
    {
        let s = &self.citizens;
        let n = s.len();
        let mut i: usize = 0;
        assert(s@.skip(0) =~= s@);
        while i < n
            invariant
                i <= n,
                n == s@.len(),
                citizen_with_name(s@, name@) == citizen_with_name(s@.skip(i as int), name@),
            decreases n - i,
        {
            assert(s@.skip(i as int)[0] == s@[i as int]);
            if str_eq_ignore_case(s[i].name.as_str(), name) {
                assert(citizen_with_name(s@.skip(i as int), name@) == Some(s@[i as int]));
                return DatabaseResult::Success(Some(s[i].duplicate()));
            }
            assert(s@.skip(i as int).skip(1) =~= s@.skip(i + 1));
            i = i + 1;
        }
        assert(s@.skip(n as int) =~= Seq::<CitizenQuery>::empty());
        DatabaseResult::Success(None)
    }

    /// The number of citizen rows.
    pub fn citizen_count(&self) -> (r: DatabaseResult<u32>)
        ensures
            self.citizens@.len() <= u32::MAX ==> (r matches DatabaseResult::Success(c) && c
                == self.citizens@.len()),
    {
        if self.citizens.len() <= u32::MAX as usize {
            DatabaseResult::Success(self.citizens.len() as u32)
        } else {
            DatabaseResult::DatabaseError
        }
    }

    /// The stored citizen with the greatest id less than `id`.
    #[verifier::loop_isolation(false)]
    pub fn citizen_prev_by_number(&self, id: u32) -> (r: DatabaseResult<Option<CitizenQuery>>)
        ensures
            r matches DatabaseResult::Success(o),
            (r matches DatabaseResult::Success(None)) <==> (forall|i: int|
                0 <= i < self.citizens@.len() ==> (#[trigger] self.citizens@[i]).id >= id),
            r matches DatabaseResult::Success(Some(c)) ==> {
                &&& exists|i: int|
                    0 <= i < self.citizens@.len() && same_citizen(
                        c,
                        #[trigger] self.citizens@[i],
                    )
                &&& c.id < id
                &&& forall|i: int|
                    0 <= i < self.citizens@.len() && (#[trigger] self.citizens@[i]).id < id
                        ==> self.citizens@[i].id <= c.id
            },
    {
        let s = &self.citizens;
        let n = s.len();
        let mut i: usize = 0;
        let mut best: Option<usize> = None;
        while i < n
            invariant
                i <= n,
                n == s@.len(),
                best matches Some(b) ==> b < i && s@[b as int].id < id,
                best is None ==> forall|j: int| 0 <= j < i ==> (#[trigger] s@[j]).id >= id,
                best matches Some(b) ==> forall|j: int|
                    0 <= j < i && (#[trigger] s@[j]).id < id ==> s@[j].id <= s@[b as int].id,
            decreases n - i,
        {
            if s[i].id < id {
                match best {
                    None => {
                        best = Some(i);
                    },
                    Some(b) => {
                        if s[b].id < s[i].id {
                            best = Some(i);
                        }
                    },
                }
            }
            i = i + 1;
        }
        match best {
            None => DatabaseResult::Success(None),
            Some(b) => DatabaseResult::Success(Some(s[b].duplicate())),
        }
    }

    /// The stored citizen with the least id greater than `id`.
    #[verifier::loop_isolation(false)]
    pub fn citizen_next_by_number(&self, id: u32) -> (r: DatabaseResult<Option<CitizenQuery>>)
        ensures
            r matches DatabaseResult::Success(o),
            (r matches DatabaseResult::Success(None)) <==> (forall|i: int|
                0 <= i < self.citizens@.len() ==> (#[trigger] self.citizens@[i]).id <= id),
            r matches DatabaseResult::Success(Some(c)) ==> {
                &&& exists|i: int|
                    0 <= i < self.citizens@.len() && same_citizen(
                        c,
                        #[trigger] self.citizens@[i],
                    )
                &&& c.id > id
                &&& forall|i: int|
                    0 <= i < self.citizens@.len() && (#[trigger] self.citizens@[i]).id > id
                        ==> self.citizens@[i].id >= c.id
            },
    {
        let s = &self.citizens;
        let n = s.len();
        let mut i: usize = 0;
        let mut best: Option<usize> = None;
        while i < n
            invariant
                i <= n,
                n == s@.len(),
                best matches Some(b) ==> b < i && s@[b as int].id > id,
                best is None ==> forall|j: int| 0 <= j < i ==> (#[trigger] s@[j]).id <= id,
                best matches Some(b) ==> forall|j: int|
                    0 <= j < i && (#[trigger] s@[j]).id > id ==> s@[j].id >= s@[b as int].id,
            decreases n - i,
        {
            if s[i].id > id {
                match best {
                    None => {
                        best = Some(i);
                    },
                    Some(b) => {
                        if s[b].id > s[i].id {
                            best = Some(i);
                        }
                    },
                }
            }
            i = i + 1;
        }
        match best {
            None => DatabaseResult::Success(None),
            Some(b) => DatabaseResult::Success(Some(s[b].duplicate())),
        }
    }

    /// Inserts a citizen row as given. Reports an empty option without
    /// touching the store when the id is zero or taken, or the name is
    /// taken under case folding.
    pub fn citizen_add(&mut self, q: &CitizenQuery) -> (r: DatabaseResult<Option<()>>)
        requires
            old(self).wf(),
        ensures
            final(self).wf(),
            final(self).licenses@ == old(self).licenses@,
            final(self).contacts@ == old(self).contacts@,
            final(self).telegrams@ == old(self).telegrams@,
            final(self).ejections@ == old(self).ejections@,
            final(self).next_license_id == old(self).next_license_id,
            final(self).next_telegram_id == old(self).next_telegram_id,
            q.id == 0 || citizen_with_id(old(self).citizens@, q.id) is Some || citizen_with_name(
                old(self).citizens@,
                q.name@,
            ) is Some ==> (r matches DatabaseResult::Success(None) && final(self).citizens@ == old(
                self,
            ).citizens@),
            !(q.id == 0 || citizen_with_id(old(self).citizens@, q.id) is Some || citizen_with_name(
                old(self).citizens@,
                q.name@,
            ) is Some) ==> (r matches DatabaseResult::Success(Some(_)) && final(self).citizens@.len()
                == old(self).citizens@.len() + 1 && (forall|i: int|
                0 <= i < old(self).citizens@.len() ==> final(self).citizens@[i] == old(
                    self,
                ).citizens@[i]) && same_citizen(final(self).citizens@.last(), *q)),
    {
        if q.id == 0 {
            return DatabaseResult::Success(None);
        }
        let by_id = self.citizen_by_number(q.id);
        let by_name = self.citizen_by_name(q.name.as_str());
        let id_taken = match by_id {
            DatabaseResult::Success(Some(_)) => true,
            _ => false,
        };
        let name_taken = match by_name {
            DatabaseResult::Success(Some(_)) => true,
            _ => false,
        };
        if id_taken || name_taken {
            return DatabaseResult::Success(None);
        }
        proof {
            lemma_citizen_with_id_index(self.citizens@, q.id);
            lemma_citizen_with_name_index(self.citizens@, q.name@);
        }
        let ghost s0 = self.citizens@;
        self.citizens.push(q.duplicate());
        proof {
            let s1 = self.citizens@;
            assert forall|i: int, j: int| 0 <= i < j < s1.len() implies s1[i].id != s1[j].id by {
                if j == s1.len() - 1 {
                    assert(s1[i] == s0[i]);
                }
            }
            assert forall|i: int| 0 <= i < s1.len() implies s1[i].id != 0 by {
                if i < s1.len() - 1 {
                    assert(s1[i] == s0[i]);
                }
            }
            assert forall|i: int, j: int| 0 <= i < j < s1.len() implies !eq_ignore_case(
                s1[i].name@,
                s1[j].name@,
            ) by {
                if j == s1.len() - 1 {
                    assert(s1[i] == s0[i]);
                    assert(!eq_ignore_case(s0[i].name@, q.name@));
                }
            }
        }
        DatabaseResult::Success(Some(()))
    }

    /// Replaces the row keyed by `q.id` with `q` wholesale. Reports an
    /// empty option when no row has the id, and a storage failure when the
    /// new name would collide with a different citizen's under case
    /// folding.
    #[verifier::loop_isolation(false)]
    pub fn citizen_change(&mut self, q: &CitizenQuery) -> (r: DatabaseResult<Option<()>>)
        requires
            old(self).wf(),
        ensures
            final(self).wf(),
            final(self).licenses@ == old(self).licenses@,
            final(self).contacts@ == old(self).contacts@,
            final(self).telegrams@ == old(self).telegrams@,
            final(self).ejections@ == old(self).ejections@,
            final(self).next_license_id == old(self).next_license_id,
            final(self).next_telegram_id == old(self).next_telegram_id,
            final(self).citizens@.len() == old(self).citizens@.len(),
            citizen_with_id(old(self).citizens@, q.id) is None ==> (r
                matches DatabaseResult::Success(None) && final(self).citizens@ == old(
                self,
            ).citizens@),
            r matches DatabaseResult::DatabaseError ==> final(self).citizens@ == old(
                self,
            ).citizens@,
            citizen_with_id(old(self).citizens@, q.id) is Some && (r matches DatabaseResult::Success(
                Some(_),
            )) ==> {
                &&& citizen_with_id(final(self).citizens@, q.id) matches Some(c) && same_citizen(
                    c,
                    *q,
                )
                &&& forall|id2: u32| id2 != q.id ==> citizen_with_id(final(self).citizens@, id2)
                    == citizen_with_id(old(self).citizens@, id2)
                &&& citizen_with_name(final(self).citizens@, q.name@) == citizen_with_id(
                    final(self).citizens@,
                    q.id,
                )
            },
            citizen_with_id(old(self).citizens@, q.id) is Some ==> !(r matches DatabaseResult::Success(
                None,
            )),
            (forall|j: int|
                0 <= j < old(self).citizens@.len() && eq_ignore_case(
                    (#[trigger] old(self).citizens@[j]).name@,
                    q.name@,
                ) ==> old(self).citizens@[j].id == q.id) ==> !(r
                matches DatabaseResult::DatabaseError),
    {
        let ghost s0 = self.citizens@;
        let n = self.citizens.len();
        let mut i: usize = 0;
        assert(s0.skip(0) =~= s0);
        while i < n
            invariant
                i <= n,
                n == s0.len(),
                s0 == self.citizens@,
                *self == *old(self),
                citizen_with_id(s0, q.id) == citizen_with_id(s0.skip(i as int), q.id),
            decreases n - i,
        {
            assert(s0.skip(i as int)[0] == s0[i as int]);
            if self.citizens[i].id == q.id {
                // The stored row with this id; replacing it must keep the
                // folded name unique among the other rows.
                let by_name = self.citizen_by_name(q.name.as_str());
                match by_name {
                    DatabaseResult::Success(Some(other)) => {
                        if other.id != q.id {
                            proof {
                                lemma_citizen_with_name_index(s0, q.name@);
                                match citizen_with_name(s0, q.name@) {
                                    Some(c) => {
                                        let k = choose|k: int|
                                            0 <= k < s0.len() && s0[k] == c && eq_ignore_case(
                                                s0[k].name@,
                                                q.name@,
                                            );
                                        assert(eq_ignore_case(s0[k].name@, q.name@) && s0[k].id
                                            != q.id);
                                    },
                                    None => {},
                                }
                            }
                            return DatabaseResult::DatabaseError;
                        }
                    },
                    _ => {},
                }
                proof {
                    lemma_citizen_with_name_index(s0, q.name@);
                    // Any row that folds to the new name is the row being
                    // replaced: the first such row carries q.id, ids are
                    // unique, and stored names are pairwise distinct.
                    assert forall|j: int| 0 <= j < s0.len() && j != i as int implies
                        !eq_ignore_case(s0[j].name@, q.name@) by {
                        if eq_ignore_case(s0[j].name@, q.name@) {
                            match citizen_with_name(s0, q.name@) {
                                Some(c) => {
                                    let k = choose|k: int|
                                        0 <= k < s0.len() && s0[k] == c && eq_ignore_case(
                                            s0[k].name@,
                                            q.name@,
                                        );
                                    assert(c.id == q.id);
                                    assert(k == i as int);
                                    lemma_eq_ignore_case_trans(s0[j].name@, s0[k].name@, q.name@);
                                },
                                None => {},
                            }
                        }
                    }
                }
                let row = q.duplicate();
                self.citizens[i] = row;
                proof {
                    let s1 = self.citizens@;
                    lemma_citizen_change_frame(s0, s1, i as int, q.id, q.name@);
                }
                return DatabaseResult::Success(Some(()));
            }
            assert(s0.skip(i as int).skip(1) =~= s0.skip(i + 1));
            i = i + 1;
        }
        assert(s0.skip(n as int) =~= Seq::<CitizenQuery>::empty());
        DatabaseResult::Success(None)
    }

    /// Looks a license up by its exact world name.
    #[verifier::loop_isolation(false)]
    pub fn license_by_name(&self, name: &str) -> (r: DatabaseResult<Option<LicenseQuery>>)
        ensures
            license_with_name(self.licenses@, name@) matches Some(l0) ==> (r
                matches DatabaseResult::Success(Some(l)) && same_license(l, l0)),
            license_with_name(self.licenses@, name@) is None ==> r matches DatabaseResult::Success(
                None,
            ),
            r matches DatabaseResult::Success(Some(l)) ==> l.name@ == name@,
    {
        let s = &self.licenses;
        let n = s.len();
        let mut i: usize = 0;
        assert(s@.skip(0) =~= s@);
        while i < n
            invariant
                i <= n,
                n == s@.len(),
                license_with_name(s@, name@) == license_with_name(s@.skip(i as int), name@),
            decreases n - i,
        {
            assert(s@.skip(i as int)[0] == s@[i as int]);
            if str_eq(s[i].name.as_str(), name) {
                assert(license_with_name(s@.skip(i as int), name@) == Some(s@[i as int]));
                return DatabaseResult::Success(Some(s[i].duplicate()));
            }
            assert(s@.skip(i as int).skip(1) =~= s@.skip(i + 1));
            i = i + 1;
        }
        assert(s@.skip(n as int) =~= Seq::<LicenseQuery>::empty());
        DatabaseResult::Success(None)
    }

    /// Inserts a license row, assigning it the next free id. Reports an
    /// empty option without touching the store when the name is taken, and
    /// a storage failure when the id space is spent.
    #[verifier::loop_isolation(false)]
    pub fn license_add(&mut self, q: &LicenseQuery) -> (r: DatabaseResult<Option<u32>>)
        requires
            old(self).wf(),
        ensures
            final(self).wf(),
            final(self).citizens@ == old(self).citizens@,
            final(self).contacts@ == old(self).contacts@,
            final(self).telegrams@ == old(self).telegrams@,
            final(self).ejections@ == old(self).ejections@,
            final(self).next_telegram_id == old(self).next_telegram_id,
            !(r matches DatabaseResult::Success(Some(_))) ==> final(self).next_license_id == old(
                self,
            ).next_license_id,
            r matches DatabaseResult::Success(Some(_)) ==> final(self).next_license_id == old(
                self,
            ).next_license_id + 1,
            license_with_name(old(self).licenses@, q.name@) is Some ==> (r
                matches DatabaseResult::Success(None) && final(self).licenses@ == old(
                self,
            ).licenses@),
            r matches DatabaseResult::DatabaseError ==> final(self).licenses@ == old(
                self,
            ).licenses@,
            license_with_name(old(self).licenses@, q.name@) is None && old(self).next_license_id
                == u32::MAX ==> r matches DatabaseResult::DatabaseError,
            license_with_name(old(self).licenses@, q.name@) is None && old(self).next_license_id
                < u32::MAX ==> (r matches DatabaseResult::Success(Some(id)) && {
                &&& id == old(self).next_license_id
                &&& final(self).licenses@.len() == old(self).licenses@.len() + 1
                &&& forall|i: int|
                    0 <= i < old(self).licenses@.len() ==> final(self).licenses@[i] == old(
                        self,
                    ).licenses@[i]
                &&& final(self).licenses@.last().id == id
                &&& final(self).licenses@.last().name@ == q.name@
                &&& final(self).licenses@.last().password@ == q.password@
                &&& final(self).licenses@.last().email@ == q.email@
                &&& final(self).licenses@.last().comment@ == q.comment@
                &&& final(self).licenses@.last().creation == q.creation
                &&& final(self).licenses@.last().expiration == q.expiration
                &&& final(self).licenses@.last().last_start == q.last_start
                &&& final(self).licenses@.last().last_address == q.last_address
                &&& final(self).licenses@.last().users == q.users
                &&& final(self).licenses@.last().world_size == q.world_size
                &&& final(self).licenses@.last().hidden == q.hidden
                &&& final(self).licenses@.last().tourists == q.tourists
                &&& final(self).licenses@.last().voip == q.voip
                &&& final(self).licenses@.last().plugins == q.plugins
                &&& license_with_name(final(self).licenses@, q.name@) == Some(
                    final(self).licenses@.last(),
                )
            }),
    {
        let by_name = self.license_by_name(q.name.as_str());
        let name_taken = match by_name {
            DatabaseResult::Success(Some(_)) => true,
            _ => false,
        };
        if name_taken {
            return DatabaseResult::Success(None);
        }
        if self.next_license_id == u32::MAX {
            return DatabaseResult::DatabaseError;
        }
        proof {
            lemma_license_with_name_index(self.licenses@, q.name@);
        }
        let ghost s0 = self.licenses@;
        let id = self.next_license_id;
        let mut row = q.duplicate();
        row.id = id;
        self.licenses.push(row);
        self.next_license_id = id + 1;
        proof {
            let s1 = self.licenses@;
            assert forall|i: int, j: int| 0 <= i < j < s1.len() implies s1[i].id != s1[j].id by {
                if j == s1.len() - 1 {
                    assert(s1[i] == s0[i]);
                }
            }
            assert forall|i: int, j: int| 0 <= i < j < s1.len() implies s1[i].name@
                != s1[j].name@ by {
                if j == s1.len() - 1 {
                    assert(s1[i] == s0[i]);
                }
            }
            assert forall|i: int| 0 <= i < s1.len() implies 0 < #[trigger] s1[i].id
                < self.next_license_id by {
                if i < s1.len() - 1 {
                    assert(s1[i] == s0[i]);
                    assert(0 < s0[i].id < id);
                } else {
                    assert(s1[i].id == id);
                }
            }
            assert(s1 =~= s0 + seq![s1.last()]);
            lemma_license_with_name_concat(s0, seq![s1.last()], q.name@);
            assert(seq![s1.last()].skip(1) =~= Seq::<LicenseQuery>::empty());
        }
        DatabaseResult::Success(Some(id))
    }

    /// Replaces the row keyed by `q.id` with `q` wholesale. Reports an
    /// empty option when no row has the id, and a storage failure when the
    /// new name would collide with a different license's.
    #[verifier::loop_isolation(false)]
    pub fn license_change(&mut self, q: &LicenseQuery) -> (r: DatabaseResult<Option<()>>)
        requires
            old(self).wf(),
        ensures
            final(self).wf(),
            final(self).citizens@ == old(self).citizens@,
            final(self).contacts@ == old(self).contacts@,
            final(self).telegrams@ == old(self).telegrams@,
            final(self).ejections@ == old(self).ejections@,
            final(self).next_license_id == old(self).next_license_id,
            final(self).next_telegram_id == old(self).next_telegram_id,
            final(self).licenses@.len() == old(self).licenses@.len(),
            license_with_id(old(self).licenses@, q.id) is None ==> (r
                matches DatabaseResult::Success(None) && final(self).licenses@ == old(
                self,
            ).licenses@),
            r matches DatabaseResult::DatabaseError ==> final(self).licenses@ == old(
                self,
            ).licenses@,
            license_with_id(old(self).licenses@, q.id) is Some ==> !(r
                matches DatabaseResult::Success(None)),
            (forall|j: int|
                0 <= j < old(self).licenses@.len() && (#[trigger] old(self).licenses@[j]).name@
                    == q.name@ ==> old(self).licenses@[j].id == q.id) ==> !(r
                matches DatabaseResult::DatabaseError),
            license_with_id(old(self).licenses@, q.id) is Some && (r matches DatabaseResult::Success(
                Some(_),
            )) ==> {
                &&& license_with_id(final(self).licenses@, q.id) matches Some(l) && same_license(
                    l,
                    *q,
                )
                &&& forall|id2: u32| id2 != q.id ==> license_with_id(final(self).licenses@, id2)
                    == license_with_id(old(self).licenses@, id2)
                &&& license_with_name(final(self).licenses@, q.name@) == license_with_id(
                    final(self).licenses@,
                    q.id,
                )
            },
    {
        let ghost s0 = self.licenses@;
        let n = self.licenses.len();
        let mut i: usize = 0;
        assert(s0.skip(0) =~= s0);
        while i < n
            invariant
                i <= n,
                n == s0.len(),
                s0 == self.licenses@,
                *self == *old(self),
                license_with_id(s0, q.id) == license_with_id(s0.skip(i as int), q.id),
            decreases n - i,
        {
            assert(s0.skip(i as int)[0] == s0[i as int]);
            if self.licenses[i].id == q.id {
                assert(license_with_id(s0.skip(i as int), q.id) == Some(s0[i as int]));
                let by_name = self.license_by_name(q.name.as_str());
                match by_name {
                    DatabaseResult::Success(Some(other)) => {
                        if other.id != q.id {
                            proof {
                                lemma_license_with_name_index(s0, q.name@);
                                match license_with_name(s0, q.name@) {
                                    Some(c) => {
                                        let k = choose|k: int|
                                            0 <= k < s0.len() && #[trigger] s0[k] == c
                                                && s0[k].name@ == q.name@;
                                        assert(s0[k].name@ == q.name@ && s0[k].id != q.id);
                                    },
                                    None => {},
                                }
                            }
                            return DatabaseResult::DatabaseError;
                        }
                    },
                    _ => {},
                }
                proof {
                    lemma_license_with_name_index(s0, q.name@);
                    assert forall|j: int| 0 <= j < s0.len() && j != i as int implies s0[j].name@
                        != q.name@ by {
                        if s0[j].name@ == q.name@ {
                            match license_with_name(s0, q.name@) {
                                Some(c) => {
                                    let k = choose|k: int|
                                        0 <= k < s0.len() && s0[k] == c && s0[k].name@ == q.name@;
                                    assert(c.id == q.id);
                                    assert(k == i as int);
                                },
                                None => {},
                            }
                        }
                    }
                }
                let row = q.duplicate();
                self.licenses[i] = row;
                proof {
                    let s1 = self.licenses@;
                    lemma_license_change_frame(
                        s0,
                        s1,
                        i as int,
                        q.id,
                        q.name@,
                        old(self).next_license_id,
                    );
                }
                return DatabaseResult::Success(Some(()));
            }
            assert(s0.skip(i as int).skip(1) =~= s0.skip(i + 1));
            i = i + 1;
        }
        assert(s0.skip(n as int) =~= Seq::<LicenseQuery>::empty());
        DatabaseResult::Success(None)
    }

    /// The stored license with the greatest name lexically less than
    /// `name`, if any.
    #[verifier::loop_isolation(false)]
    pub fn license_prev(&self, name: &str) -> (r: DatabaseResult<Option<LicenseQuery>>)
        ensures
            r matches DatabaseResult::Success(o),
            (r matches DatabaseResult::Success(None)) <==> (forall|i: int|
                0 <= i < self.licenses@.len() ==> !str_lt(#[trigger] self.licenses@[i].name@,
                name@)),
            r matches DatabaseResult::Success(Some(l)) ==> {
                &&& exists|i: int|
                    0 <= i < self.licenses@.len() && same_license(l, #[trigger] self.licenses@[i])
                &&& str_lt(l.name@, name@)
                &&& forall|i: int|
                    0 <= i < self.licenses@.len() && str_lt(#[trigger] self.licenses@[i].name@,
                    name@) ==> !str_lt(l.name@, self.licenses@[i].name@)
            },
    {
        let s = &self.licenses;
        let n = s.len();
        let mut i: usize = 0;
        let mut best: Option<usize> = None;
        while i < n
            invariant
                i <= n,
                n == s@.len(),
                best matches Some(b) ==> b < i && str_lt(s@[b as int].name@, name@),
                best is None ==> forall|j: int| 0 <= j < i ==> !str_lt(#[trigger] s@[j].name@,
                name@),
                best matches Some(b) ==> forall|j: int|
                    0 <= j < i && str_lt(#[trigger] s@[j].name@, name@) ==> !str_lt(
                        s@[b as int].name@,
                        s@[j].name@,
                    ),
            decreases n - i,
        {
            if str_lt_exec(s[i].name.as_str(), name) {
                match best {
                    None => {
                        proof {
                            lemma_str_lt_connected(s@[i as int].name@, s@[i as int].name@);
                        }
                        best = Some(i);
                    },
                    Some(b) => {
                        if str_lt_exec(s[b].name.as_str(), s[i].name.as_str()) {
                            proof {
                                assert forall|j: int|
                                    0 <= j < i + 1 && str_lt(#[trigger] s@[j].name@, name@)
                                        implies !str_lt(s@[i as int].name@, s@[j].name@) by {
                                    if j < i as int {
                                        lemma_str_lt_trans(
                                            s@[b as int].name@,
                                            s@[i as int].name@,
                                            s@[j].name@,
                                        );
                                    } else {
                                        lemma_str_lt_connected(s@[i as int].name@, s@[j].name@);
                                    }
                                }
                            }
                            best = Some(i);
                        }
                    },
                }
            }
            i = i + 1;
        }
        match best {
            None => DatabaseResult::Success(None),
            Some(b) => DatabaseResult::Success(Some(s[b].duplicate())),
        }
    }

    /// The stored license with the least name lexically greater than
    /// `name`, if any.
    #[verifier::loop_isolation(false)]
    pub fn license_next(&self, name: &str) -> (r: DatabaseResult<Option<LicenseQuery>>)
        ensures
            r matches DatabaseResult::Success(o),
            (r matches DatabaseResult::Success(None)) <==> (forall|i: int|
                0 <= i < self.licenses@.len() ==> !str_lt(name@, #[trigger] self.licenses@[i].name@)),
            r matches DatabaseResult::Success(Some(l)) ==> {
                &&& exists|i: int|
                    0 <= i < self.licenses@.len() && same_license(l, #[trigger] self.licenses@[i])
                &&& str_lt(name@, l.name@)
                &&& forall|i: int|
                    0 <= i < self.licenses@.len() && str_lt(name@, #[trigger] self.licenses@[i].name@)
                        ==> !str_lt(self.licenses@[i].name@, l.name@)
            },
    {
        let s = &self.licenses;
        let n = s.len();
        let mut i: usize = 0;
        let mut best: Option<usize> = None;
        while i < n
            invariant
                i <= n,
                n == s@.len(),
                best matches Some(b) ==> b < i && str_lt(name@, s@[b as int].name@),
                best is None ==> forall|j: int| 0 <= j < i ==> !str_lt(name@,
                #[trigger] s@[j].name@),
                best matches Some(b) ==> forall|j: int|
                    0 <= j < i && str_lt(name@, #[trigger] s@[j].name@) ==> !str_lt(
                        s@[j].name@,
                        s@[b as int].name@,
                    ),
            decreases n - i,
        {
            if str_lt_exec(name, s[i].name.as_str()) {
                match best {
                    None => {
                        proof {
                            lemma_str_lt_connected(s@[i as int].name@, s@[i as int].name@);
                        }
                        best = Some(i);
                    },
                    Some(b) => {
                        if str_lt_exec(s[i].name.as_str(), s[b].name.as_str()) {
                            proof {
                                assert forall|j: int|
                                    0 <= j < i + 1 && str_lt(name@, #[trigger] s@[j].name@)
                                        implies !str_lt(s@[j].name@, s@[i as int].name@) by {
                                    if j < i as int {
                                        lemma_str_lt_trans(
                                            s@[j].name@,
                                            s@[i as int].name@,
                                            s@[b as int].name@,
                                        );
                                    } else {
                                        lemma_str_lt_connected(s@[j].name@, s@[i as int].name@);
                                    }
                                }
                            }
                            best = Some(i);
                        }
                    },
                }
            }
            i = i + 1;
        }
        match best {
            None => DatabaseResult::Success(None),
            Some(b) => DatabaseResult::Success(Some(s[b].duplicate())),
        }
    }

    /// The edge from `citizen` toward `contact`, if it exists.
    #[verifier::loop_isolation(false)]
    pub fn contact_get(&self, citizen: u32, contact: u32) -> (r: DatabaseResult<
        Option<ContactQuery>,
    >)
        ensures
            contact_of(self.contacts@, citizen, contact) matches Some(o) ==> (r
                matches DatabaseResult::Success(Some(c)) && c.citizen == citizen && c.contact
                == contact && c.options == o),
            contact_of(self.contacts@, citizen, contact) is None ==> r
                matches DatabaseResult::Success(None),
    {
        let s = &self.contacts;
        let n = s.len();
        let mut i: usize = 0;
        assert(s@.skip(0) =~= s@);
        while i < n
            invariant
                i <= n,
                n == s@.len(),
                contact_of(s@, citizen, contact) == contact_of(s@.skip(i as int), citizen, contact),
            decreases n - i,
        {
            assert(s@.skip(i as int)[0] == s@[i as int]);
            if s[i].citizen == citizen && s[i].contact == contact {
                assert(contact_of(s@.skip(i as int), citizen, contact) == Some(
                    s@[i as int].options,
                ));
                return DatabaseResult::Success(Some(s[i]));
            }
            assert(s@.skip(i as int).skip(1) =~= s@.skip(i + 1));
            i = i + 1;
        }
        assert(s@.skip(n as int) =~= Seq::<ContactQuery>::empty());
        DatabaseResult::Success(None)
    }

    /// Writes the edge from `citizen` toward `contact`, creating it when
    /// absent and overwriting its options when present.
    #[verifier::loop_isolation(false)]
    pub fn contact_set(&mut self, citizen: u32, contact: u32, options: u32) -> (r: DatabaseResult<
        (),
    >)
        requires
            old(self).wf(),
        ensures
            final(self).wf(),
            final(self).citizens@ == old(self).citizens@,
            final(self).licenses@ == old(self).licenses@,
            final(self).telegrams@ == old(self).telegrams@,
            final(self).ejections@ == old(self).ejections@,
            final(self).next_license_id == old(self).next_license_id,
            final(self).next_telegram_id == old(self).next_telegram_id,
            r matches DatabaseResult::Success(_),
            contact_of(final(self).contacts@, citizen, contact) matches Some(o) && o.bits
                == options,
            forall|a: u32, b: u32|
                !(a == citizen && b == contact) ==> contact_of(final(self).contacts@, a, b)
                    == contact_of(old(self).contacts@, a, b),
    {
        let ghost s0 = self.contacts@;
        let new_row = ContactQuery { citizen, contact, options: ContactOptions { bits: options } };
        let n = self.contacts.len();
        let mut i: usize = 0;
        while i < n
            invariant
                i <= n,
                n == s0.len(),
                s0 == self.contacts@,
                *self == *old(self),
                forall|j: int| 0 <= j < i ==> pair_lt(#[trigger] s0[j], new_row),
            decreases n - i,
        {
            let c = self.contacts[i];
            if c.citizen < citizen || (c.citizen == citizen && c.contact < contact) {
                i = i + 1;
            } else {
                break;
            }
        }
        if i < n && self.contacts[i].citizen == citizen && self.contacts[i].contact == contact {
            self.contacts[i] = new_row;
            proof {
                let s1 = self.contacts@;
                lemma_contact_replace_frame(s0, s1, i as int, citizen, contact);
            }
        } else {
            proof {
                assert forall|j: int| i as int <= j < s0.len() implies pair_lt(
                    new_row,
                    #[trigger] s0[j],
                ) by {
                    if j > i as int {
                        assert(pair_lt(s0[i as int], s0[j]));
                    }
                }
            }
            self.contacts.insert(i, new_row);
            proof {
                let s1 = self.contacts@;
                assert(s1 =~= s0.take(i as int) + seq![new_row] + s0.skip(i as int));
                assert(s0 =~= s0.take(i as int) + s0.skip(i as int));
                assert forall|j: int, k: int| 0 <= j < k < s1.len() implies pair_lt(
                    #[trigger] s1[j],
                    #[trigger] s1[k],
                ) by {
                    if j < i as int {
                        assert(s1[j] == s0[j]);
                    } else if j > i as int {
                        assert(s1[j] == s0[j - 1]);
                    }
                    if k < i as int {
                        assert(s1[k] == s0[k]);
                    } else if k > i as int {
                        assert(s1[k] == s0[k - 1]);
                    }
                }
                lemma_contact_insert_frame(s0, i as int, new_row);
            }
        }
        DatabaseResult::Success(())
    }

    /// Removes the edge from `citizen` toward `contact` when it exists.
    #[verifier::loop_isolation(false)]
    pub fn contact_delete(&mut self, citizen: u32, contact: u32) -> (r: DatabaseResult<()>)
        requires
            old(self).wf(),
        ensures
            final(self).wf(),
            final(self).citizens@ == old(self).citizens@,
            final(self).licenses@ == old(self).licenses@,
            final(self).telegrams@ == old(self).telegrams@,
            final(self).ejections@ == old(self).ejections@,
            final(self).next_license_id == old(self).next_license_id,
            final(self).next_telegram_id == old(self).next_telegram_id,
            r matches DatabaseResult::Success(_),
            contact_of(final(self).contacts@, citizen, contact) is None,
            forall|a: u32, b: u32|
                !(a == citizen && b == contact) ==> contact_of(final(self).contacts@, a, b)
                    == contact_of(old(self).contacts@, a, b),
    {
        let ghost s0 = self.contacts@;
        let n = self.contacts.len();
        let mut i: usize = 0;
        assert(s0.skip(0) =~= s0);
        while i < n
            invariant
                i <= n,
                n == s0.len(),
                s0 == self.contacts@,
                *self == *old(self),
                contact_of(s0, citizen, contact) == contact_of(s0.skip(i as int), citizen, contact),
            decreases n - i,
        {
            assert(s0.skip(i as int)[0] == s0[i as int]);
            if self.contacts[i].citizen == citizen && self.contacts[i].contact == contact {
                self.contacts.remove(i);
                proof {
                    lemma_contact_remove_frame(s0, i as int, citizen, contact);
                }
                return DatabaseResult::Success(());
            }
            assert(s0.skip(i as int).skip(1) =~= s0.skip(i + 1));
            i = i + 1;
        }
        assert(s0.skip(n as int) =~= Seq::<ContactQuery>::empty());
        DatabaseResult::Success(())
    }

    /// True when `owner` has blocked `other` outright, through the
    /// specific edge or through the default mask row.
    pub fn contact_blocked(&self, owner: u32, other: u32) -> (r: bool)
        ensures
            r == spec_contact_blocked(self.contacts@, owner, other),
    {
        let specific = match self.contact_get(owner, other) {
            DatabaseResult::Success(Some(c)) => c.options.contains(crate::contact_options::ALL_BLOCKED),
            _ => false,
        };
        let by_default = match self.contact_get(owner, 0) {
            DatabaseResult::Success(Some(c)) => c.options.contains(crate::contact_options::ALL_BLOCKED),
            _ => false,
        };
        specific || by_default
    }

    /// Whether `owner` accepts telegrams from `other`: decided by the
    /// specific edge when it exists, else by the default mask row.
    pub fn contact_telegrams_allowed(&self, owner: u32, other: u32) -> (r: DatabaseResult<bool>)
        ensures
            r matches DatabaseResult::Success(a) && a == spec_telegrams_allowed(
                self.contacts@,
                owner,
                other,
            ),
    {
        let allowed = match self.contact_get(owner, other) {
            DatabaseResult::Success(Some(c)) => !c.options.contains(
                crate::contact_options::TELEGRAMS_BLOCKED,
            ) && !c.options.contains(crate::contact_options::ALL_BLOCKED),
            _ => match self.contact_get(owner, 0) {
                DatabaseResult::Success(Some(d)) => !d.options.contains(
                    crate::contact_options::TELEGRAMS_BLOCKED,
                ) && !d.options.contains(crate::contact_options::ALL_BLOCKED),
                _ => true,
            },
        };
        DatabaseResult::Success(allowed)
    }

    /// Every edge owned by `citizen`, in ascending order of the other
    /// citizen's id.
    #[verifier::loop_isolation(false)]
    pub fn contact_get_all(&self, citizen: u32) -> (r: DatabaseResult<Vec<ContactQuery>>)
        requires
            self.wf(),
        ensures
            r matches DatabaseResult::Success(v) && v@ == contacts_of_owner(
                self.contacts@,
                citizen,
            ),
    {
        let s = &self.contacts;
        let n = s.len();
        let mut i: usize = 0;
        let mut result: Vec<ContactQuery> = Vec::new();
        assert(s@.skip(0) =~= s@);
        assert(contacts_of_owner(s@, citizen) =~= result@ + contacts_of_owner(
            s@.skip(0),
            citizen,
        ));
        while i < n
            invariant
                i <= n,
                n == s@.len(),
                contacts_of_owner(s@, citizen) == result@ + contacts_of_owner(
                    s@.skip(i as int),
                    citizen,
                ),
            decreases n - i,
        {
            assert(s@.skip(i as int)[0] == s@[i as int]);
            assert(s@.skip(i as int).skip(1) =~= s@.skip(i + 1));
            if s[i].citizen == citizen {
                result.push(s[i]);
                proof {
                    assert(contacts_of_owner(s@.skip(i as int), citizen) == seq![s@[i as int]]
                        + contacts_of_owner(s@.skip(i + 1), citizen));
                    assert(contacts_of_owner(s@, citizen) =~= result@ + contacts_of_owner(
                        s@.skip(i + 1),
                        citizen,
                    ));
                }
            }
            i = i + 1;
        }
        assert(s@.skip(n as int) =~= Seq::<ContactQuery>::empty());
        assert(contacts_of_owner(s@, citizen) =~= result@);
        DatabaseResult::Success(result)
    }

    /// Stores a telegram for `to`, undelivered, at its place in oldest
    /// first order. Reports a storage failure only when the id space is
    /// spent.
    #[verifier::loop_isolation(false)]
    pub fn telegram_add(&mut self, to: u32, from: u32, timestamp: u32, message: &str) -> (r:
        DatabaseResult<()>)
        requires
            old(self).wf(),
        ensures
            final(self).wf(),
            final(self).citizens@ == old(self).citizens@,
            final(self).licenses@ == old(self).licenses@,
            final(self).contacts@ == old(self).contacts@,
            final(self).ejections@ == old(self).ejections@,
            final(self).next_license_id == old(self).next_license_id,
            old(self).next_telegram_id == u32::MAX ==> final(self).next_telegram_id == old(
                self,
            ).next_telegram_id,
            old(self).next_telegram_id < u32::MAX ==> final(self).next_telegram_id == old(
                self,
            ).next_telegram_id + 1,
            old(self).next_telegram_id == u32::MAX ==> (r matches DatabaseResult::DatabaseError
                && final(self).telegrams@ == old(self).telegrams@),
            old(self).next_telegram_id < u32::MAX ==> (r matches DatabaseResult::Success(_) && {
                &&& exists|p: int, t: TelegramQuery|
                    {
                        &&& 0 <= p <= old(self).telegrams@.len()
                        &&& final(self).telegrams@ == old(self).telegrams@.insert(p, t)
                        &&& t.id == old(self).next_telegram_id
                        &&& t.to == to
                        &&& t.from == from
                        &&& t.timestamp == timestamp
                        &&& t.message@ == message@
                        &&& !t.delivered
                    }
                &&& forall|c: u32| c != to ==> undelivered_to(final(self).telegrams@, c)
                    == undelivered_to(old(self).telegrams@, c)
                &&& undelivered_to(final(self).telegrams@, to).len() == undelivered_to(
                    old(self).telegrams@,
                    to,
                ).len() + 1
            }),
    {
        if self.next_telegram_id == u32::MAX {
            return DatabaseResult::DatabaseError;
        }
        let ghost s0 = self.telegrams@;
        let row = TelegramQuery {
            id: self.next_telegram_id,
            to,
            from,
            timestamp,
            message: message.to_owned(),
            delivered: false,
        };
        let n = self.telegrams.len();
        let mut i: usize = 0;
        while i < n
            invariant
                i <= n,
                n == s0.len(),
                s0 == self.telegrams@,
                *self == *old(self),
                forall|j: int| 0 <= j < i ==> #[trigger] s0[j].timestamp <= timestamp,
            decreases n - i,
        {
            if self.telegrams[i].timestamp <= timestamp {
                i = i + 1;
            } else {
                break;
            }
        }
        proof {
            assert forall|j: int| 0 <= j < i as int implies tg_lt(#[trigger] s0[j], row) by {
                assert(s0[j].id < old(self).next_telegram_id);
            }
            assert forall|j: int| i as int <= j < s0.len() implies tg_lt(row, #[trigger] s0[j]) by {
                if j > i as int {
                    assert(tg_lt(s0[i as int], s0[j]));
                }
            }
        }
        self.telegrams.insert(i, row);
        self.next_telegram_id = self.next_telegram_id + 1;
        proof {
            let s1 = self.telegrams@;
            let gi = i as int;
            assert forall|j: int, k: int| 0 <= j < k < s1.len() implies tg_lt(
                #[trigger] s1[j],
                #[trigger] s1[k],
            ) by {
                if j < gi {
                    assert(s1[j] == s0[j]);
                } else if j > gi {
                    assert(s1[j] == s0[j - 1]);
                }
                if k < gi {
                    assert(s1[k] == s0[k]);
                } else if k > gi {
                    assert(s1[k] == s0[k - 1]);
                }
            }
            assert forall|j: int, k: int| 0 <= j < k < s1.len() implies s1[j].id != s1[k].id by {
                assert(tg_lt(s1[j], s1[k]));
            }
            assert forall|j: int| 0 <= j < s1.len() implies #[trigger] s1[j].id
                < self.next_telegram_id by {
                if j < gi {
                    assert(s1[j] == s0[j]);
                } else if j > gi {
                    assert(s1[j] == s0[j - 1]);
                }
            }
            assert(s1 =~= s0.take(gi) + (seq![row] + s0.skip(gi)));
            assert(s0 =~= s0.take(gi) + s0.skip(gi));
            assert(seq![row].skip(1) =~= Seq::<TelegramQuery>::empty());
            assert(seq![row][0] == row);
            assert forall|c: u32| c != to implies undelivered_to(s1, c) == undelivered_to(
                s0,
                c,
            ) by {
                lemma_undelivered_concat(s0.take(gi), seq![row] + s0.skip(gi), c);
                lemma_undelivered_concat(seq![row], s0.skip(gi), c);
                lemma_undelivered_concat(s0.take(gi), s0.skip(gi), c);
                assert(undelivered_to(Seq::<TelegramQuery>::empty(), c)
                    =~= Seq::<TelegramQuery>::empty());
                assert(undelivered_to(seq![row], c) == undelivered_to(
                    Seq::<TelegramQuery>::empty(),
                    c,
                ));
                assert(undelivered_to(seq![row], c) =~= Seq::<TelegramQuery>::empty());
                assert(undelivered_to(s1, c) =~= undelivered_to(s0.take(gi), c) + undelivered_to(
                    s0.skip(gi),
                    c,
                ));
                assert(undelivered_to(s1, c) =~= undelivered_to(s0, c));
            }
            lemma_undelivered_concat(s0.take(gi), seq![row] + s0.skip(gi), to);
            lemma_undelivered_concat(seq![row], s0.skip(gi), to);
            lemma_undelivered_concat(s0.take(gi), s0.skip(gi), to);
            assert(undelivered_to(Seq::<TelegramQuery>::empty(), to)
                =~= Seq::<TelegramQuery>::empty());
            assert(undelivered_to(seq![row], to) == seq![row] + undelivered_to(
                Seq::<TelegramQuery>::empty(),
                to,
            ));
            assert(undelivered_to(seq![row], to) =~= seq![row]);
        }
        DatabaseResult::Success(())
    }

    /// The undelivered telegrams for `cit`, oldest first.
    #[verifier::loop_isolation(false)]
    pub fn telegram_get_undelivered(&self, cit: u32) -> (r: DatabaseResult<Vec<TelegramQuery>>)
        ensures
            r matches DatabaseResult::Success(v) && {
                &&& v@.len() == undelivered_to(self.telegrams@, cit).len()
                &&& forall|k: int|
                    0 <= k < v@.len() ==> same_telegram(
                        #[trigger] v@[k],
                        undelivered_to(self.telegrams@, cit)[k],
                    )
            },
    {
        let s = &self.telegrams;
        let n = s.len();
        let mut i: usize = 0;
        let mut result: Vec<TelegramQuery> = Vec::new();
        let ghost mut processed: Seq<TelegramQuery> = Seq::empty();
        assert(s@.skip(0) =~= s@);
        assert(undelivered_to(s@, cit) =~= processed + undelivered_to(s@.skip(0), cit));
        while i < n
            invariant
                i <= n,
                n == s@.len(),
                undelivered_to(s@, cit) == processed + undelivered_to(s@.skip(i as int), cit),
                result@.len() == processed.len(),
                forall|k: int|
                    0 <= k < result@.len() ==> same_telegram(#[trigger] result@[k], processed[k]),
            decreases n - i,
        {
            assert(s@.skip(i as int)[0] == s@[i as int]);
            assert(s@.skip(i as int).skip(1) =~= s@.skip(i + 1));
            if s[i].to == cit && !s[i].delivered {
                result.push(s[i].duplicate());
                proof {
                    assert(undelivered_to(s@.skip(i as int), cit) == seq![s@[i as int]]
                        + undelivered_to(s@.skip(i + 1), cit));
                    processed = processed.push(s@[i as int]);
                    assert(undelivered_to(s@, cit) =~= processed + undelivered_to(
                        s@.skip(i + 1),
                        cit,
                    ));
                }
            }
            i = i + 1;
        }
        assert(s@.skip(n as int) =~= Seq::<TelegramQuery>::empty());
        assert(undelivered_to(s@, cit) =~= processed);
        DatabaseResult::Success(result)
    }

    /// The number of undelivered telegrams for `cit`.
    pub fn telegram_count_undelivered(&self, cit: u32) -> (r: DatabaseResult<usize>)
        ensures
            r matches DatabaseResult::Success(c) && c == undelivered_to(
                self.telegrams@,
                cit,
            ).len(),
    {
        match self.telegram_get_undelivered(cit) {
            DatabaseResult::Success(v) => DatabaseResult::Success(v.len()),
            DatabaseResult::DatabaseError => DatabaseResult::DatabaseError,
        }
    }

    /// Marks the telegram with the given id delivered. Delivery is
    /// monotonic: no other row changes, and no row goes back.
    #[verifier::loop_isolation(false)]
    pub fn telegram_mark_delivered(&mut self, id: u32) -> (r: DatabaseResult<()>)
        requires
            old(self).wf(),
        ensures
            final(self).wf(),
            final(self).citizens@ == old(self).citizens@,
            final(self).licenses@ == old(self).licenses@,
            final(self).contacts@ == old(self).contacts@,
            final(self).ejections@ == old(self).ejections@,
            final(self).next_license_id == old(self).next_license_id,
            final(self).next_telegram_id == old(self).next_telegram_id,
            r matches DatabaseResult::Success(_),
            final(self).telegrams@.len() == old(self).telegrams@.len(),
            forall|k: int|
                0 <= k < old(self).telegrams@.len() && (#[trigger] old(self).telegrams@[k]).id
                    != id ==> final(self).telegrams@[k] == old(self).telegrams@[k],
            forall|k: int|
                0 <= k < old(self).telegrams@.len() ==> {
                    &&& (#[trigger] final(self).telegrams@[k]).id == old(self).telegrams@[k].id
                    &&& final(self).telegrams@[k].to == old(self).telegrams@[k].to
                    &&& final(self).telegrams@[k].from == old(self).telegrams@[k].from
                    &&& final(self).telegrams@[k].timestamp == old(self).telegrams@[k].timestamp
                    &&& final(self).telegrams@[k].message@ == old(self).telegrams@[k].message@
                    &&& final(self).telegrams@[k].delivered == (old(self).telegrams@[k].delivered
                        || old(self).telegrams@[k].id == id)
                },
    {
        let ghost s0 = self.telegrams@;
        let n = self.telegrams.len();
        let mut i: usize = 0;
        while i < n
            invariant
                i <= n,
                n == s0.len(),
                s0 == self.telegrams@,
                *self == *old(self),
                forall|j: int| 0 <= j < i ==> #[trigger] s0[j].id != id,
            decreases n - i,
        {
            if self.telegrams[i].id == id {
                let mut row = self.telegrams[i].duplicate();
                row.delivered = true;
                self.telegrams[i] = row;
                proof {
                    let s1 = self.telegrams@;
                    let gi = i as int;
                    assert forall|j: int| 0 <= j < s1.len() && j != gi implies #[trigger] s0[j].id
                        != id by {
                        if j > gi {
                            assert(s0[gi].id != s0[j].id);
                        }
                    }
                    assert forall|j: int, k: int| 0 <= j < k < s1.len() implies tg_lt(
                        #[trigger] s1[j],
                        #[trigger] s1[k],
                    ) by {
                        assert(tg_lt(s0[j], s0[k]));
                        if j != gi {
                            assert(s1[j] == s0[j]);
                        }
                        if k != gi {
                            assert(s1[k] == s0[k]);
                        }
                    }
                    assert forall|j: int, k: int| 0 <= j < k < s1.len() implies s1[j].id
                        != s1[k].id by {
                        assert(tg_lt(s1[j], s1[k]));
                    }
                    assert forall|j: int| 0 <= j < s1.len() implies #[trigger] s1[j].id
                        < self.next_telegram_id by {
                        if j != gi {
                            assert(s1[j] == s0[j]);
                        }
                    }
                }
                return DatabaseResult::Success(());
            }
            i = i + 1;
        }
        DatabaseResult::Success(())
    }

    /// Writes the ejection row for `address`, creating or overwriting it.
    #[verifier::loop_isolation(false)]
    #[verifier::rlimit(60)]
    pub fn ejection_set(&mut self, address: u32, expiration: u32, creation: u32, comment: &str) -> (r:
        DatabaseResult<()>)
        requires
            old(self).wf(),
        ensures
            final(self).wf(),
            final(self).citizens@ == old(self).citizens@,
            final(self).licenses@ == old(self).licenses@,
            final(self).contacts@ == old(self).contacts@,
            final(self).telegrams@ == old(self).telegrams@,
            final(self).next_license_id == old(self).next_license_id,
            final(self).next_telegram_id == old(self).next_telegram_id,
            r matches DatabaseResult::Success(_),
            ejection_at(final(self).ejections@, address) matches Some(e) && e.address == address
                && e.expiration == expiration && e.creation == creation && e.comment@ == comment@,
            forall|a: u32| a != address ==> ejection_at(final(self).ejections@, a) == ejection_at(
                old(self).ejections@,
                a,
            ),
    {
        let ghost s0 = self.ejections@;
        let row = EjectionQuery { address, expiration, creation, comment: comment.to_owned() };
        let n = self.ejections.len();
        let mut i: usize = 0;
        assert(s0.skip(0) =~= s0);
        while i < n
            invariant
                i <= n,
                n == s0.len(),
                s0 == self.ejections@,
                *self == *old(self),
                ejection_at(s0, address) == ejection_at(s0.skip(i as int), address),
                forall|j: int| 0 <= j < i ==> #[trigger] s0[j].address != address,
            decreases n - i,
        {
            assert(s0.skip(i as int)[0] == s0[i as int]);
            if self.ejections[i].address == address {
                self.ejections[i] = row;
                proof {
                    let s1 = self.ejections@;
                    let gi = i as int;
                    assert forall|j: int| 0 <= j < s0.len() && j != gi implies #[trigger] s0[j].address
                        != address by {
                        if j > gi {
                            assert(s0[gi].address != s0[j].address);
                        }
                    }
                    assert forall|j: int, k: int| 0 <= j < k < s1.len() implies s1[j].address
                        != s1[k].address by {
                        if j != gi {
                            assert(s1[j] == s0[j]);
                        }
                        if k != gi {
                            assert(s1[k] == s0[k]);
                        }
                        assert(s0[j].address != s0[k].address);
                    }
                    lemma_ejection_at_first(s1, gi);
                    assert forall|a: u32| a != address implies ejection_at(s1, a) == ejection_at(
                        s0,
                        a,
                    ) by {
                        lemma_ejection_at_pointwise(s0, s1, gi, a);
                    }
                }
                return DatabaseResult::Success(());
            }
            assert(s0.skip(i as int).skip(1) =~= s0.skip(i + 1));
            i = i + 1;
        }
        assert(s0.skip(n as int) =~= Seq::<EjectionQuery>::empty());
        self.ejections.push(row);
        proof {
            let s1 = self.ejections@;
            assert forall|j: int, k: int| 0 <= j < k < s1.len() implies s1[j].address
                != s1[k].address by {
                if k == s1.len() - 1 {
                    assert(s1[j] == s0[j]);
                } else {
                    assert(s1[j] == s0[j] && s1[k] == s0[k]);
                }
            }
            assert(s1 =~= s0 + seq![s1.last()]);
            assert(seq![s1.last()].skip(1) =~= Seq::<EjectionQuery>::empty());
            assert(seq![s1.last()][0] == s1.last());
            assert forall|a: u32| true implies #[trigger] ejection_at(s1, a) == (
            if ejection_at(s0, a) is Some {
                ejection_at(s0, a)
            } else if a == address {
                Some(s1.last())
            } else {
                ejection_at(s0, a)
            }) by {
                lemma_ejection_at_concat(s0, seq![s1.last()], a);
                if a == address {
                    assert(ejection_at(seq![s1.last()], a) == Some(s1.last()));
                } else {
                    assert(ejection_at(seq![s1.last()], a) == ejection_at(
                        Seq::<EjectionQuery>::empty(),
                        a,
                    ));
                }
            }
        }
        DatabaseResult::Success(())
    }

    /// Looks the ejection row for `address` up.
    #[verifier::loop_isolation(false)]
    pub fn ejection_by_address(&self, address: u32) -> (r: DatabaseResult<Option<EjectionQuery>>)
        ensures
            ejection_at(self.ejections@, address) matches Some(e0) ==> (r
                matches DatabaseResult::Success(Some(e)) && same_ejection(e, e0)),
            ejection_at(self.ejections@, address) is None ==> r matches DatabaseResult::Success(
                None,
            ),
            r matches DatabaseResult::Success(Some(e)) ==> e.address == address,
    {
        let s = &self.ejections;
        let n = s.len();
        let mut i: usize = 0;
        assert(s@.skip(0) =~= s@);
        while i < n
            invariant
                i <= n,
                n == s@.len(),
                ejection_at(s@, address) == ejection_at(s@.skip(i as int), address),
            decreases n - i,
        {
            assert(s@.skip(i as int)[0] == s@[i as int]);
            if s[i].address == address {
                assert(ejection_at(s@.skip(i as int), address) == Some(s@[i as int]));
                return DatabaseResult::Success(Some(s[i].duplicate()));
            }
            assert(s@.skip(i as int).skip(1) =~= s@.skip(i + 1));
            i = i + 1;
        }
        assert(s@.skip(n as int) =~= Seq::<EjectionQuery>::empty());
        DatabaseResult::Success(None)
    }

    /// The active ejection for `address`: present iff the stored row's
    /// expiration lies after `now`.
    pub fn ejection_lookup(&self, address: u32, now: u32) -> (r: DatabaseResult<
        Option<EjectionQuery>,
    >)
        ensures
            match ejection_at(self.ejections@, address) {
                Some(e0) => (e0.expiration > now ==> (r matches DatabaseResult::Success(Some(e))
                    && same_ejection(e, e0))) && (e0.expiration <= now ==> r
                    matches DatabaseResult::Success(None)),
                None => r matches DatabaseResult::Success(None),
            },
    {
        match self.ejection_by_address(address) {
            DatabaseResult::Success(Some(e)) => {
                if e.expiration > now {
                    DatabaseResult::Success(Some(e))
                } else {
                    DatabaseResult::Success(None)
                }
            },
            _ => DatabaseResult::Success(None),
        }
    }

    /// Removes the ejection row for `address` when it exists.
    #[verifier::loop_isolation(false)]
    pub fn ejection_delete(&mut self, address: u32) -> (r: DatabaseResult<()>)
        requires
            old(self).wf(),
        ensures
            final(self).wf(),
            final(self).citizens@ == old(self).citizens@,
            final(self).licenses@ == old(self).licenses@,
            final(self).contacts@ == old(self).contacts@,
            final(self).telegrams@ == old(self).telegrams@,
            final(self).next_license_id == old(self).next_license_id,
            final(self).next_telegram_id == old(self).next_telegram_id,
            r matches DatabaseResult::Success(_),
            ejection_at(final(self).ejections@, address) is None,
            forall|a: u32| a != address ==> ejection_at(final(self).ejections@, a) == ejection_at(
                old(self).ejections@,
                a,
            ),
    {
        let ghost s0 = self.ejections@;
        let n = self.ejections.len();
        let mut i: usize = 0;
        assert(s0.skip(0) =~= s0);
        while i < n
            invariant
                i <= n,
                n == s0.len(),
                s0 == self.ejections@,
                *self == *old(self),
                ejection_at(s0, address) == ejection_at(s0.skip(i as int), address),
            decreases n - i,
        {
            assert(s0.skip(i as int)[0] == s0[i as int]);
            if self.ejections[i].address == address {
                self.ejections.remove(i);
                proof {
                    let s1 = self.ejections@;
                    let gi = i as int;
                    assert forall|j: int| 0 <= j < s0.len() && j != gi implies #[trigger] s0[j].address
                        != address by {
                        if j > gi {
                            assert(s0[gi].address != s0[j].address);
                        }
                    }
                    assert(s1 =~= s0.take(gi) + s0.skip(gi + 1));
                    assert(s0 =~= s0.take(gi) + (seq![s0[gi]] + s0.skip(gi + 1)));
                    assert(seq![s0[gi]].skip(1) =~= Seq::<EjectionQuery>::empty());
                    assert(seq![s0[gi]][0] == s0[gi]);
                    assert forall|j: int, k: int| 0 <= j < k < s1.len() implies s1[j].address
                        != s1[k].address by {
                        if j < gi {
                            assert(s1[j] == s0[j]);
                        } else {
                            assert(s1[j] == s0[j + 1]);
                        }
                        if k < gi {
                            assert(s1[k] == s0[k]);
                        } else {
                            assert(s1[k] == s0[k + 1]);
                        }
                    }
                    assert forall|a: u32| true implies #[trigger] ejection_at(s1, a) == (
                    if ejection_at(s0.take(gi), a) is Some {
                        ejection_at(s0.take(gi), a)
                    } else {
                        ejection_at(s0.skip(gi + 1), a)
                    }) by {
                        lemma_ejection_at_concat(s0.take(gi), s0.skip(gi + 1), a);
                    }
                    assert forall|a: u32| true implies #[trigger] ejection_at(s0, a) == (
                    if ejection_at(s0.take(gi), a) is Some {
                        ejection_at(s0.take(gi), a)
                    } else if a == address {
                        Some(s0[gi])
                    } else {
                        ejection_at(s0.skip(gi + 1), a)
                    }) by {
                        lemma_ejection_at_concat(s0.take(gi), seq![s0[gi]] + s0.skip(gi + 1), a);
                        lemma_ejection_at_concat(seq![s0[gi]], s0.skip(gi + 1), a);
                        if a == address {
                            assert(ejection_at(seq![s0[gi]], a) == Some(s0[gi]));
                        } else {
                            assert(ejection_at(seq![s0[gi]], a) == ejection_at(
                                Seq::<EjectionQuery>::empty(),
                                a,
                            ));
                        }
                    }
                    lemma_ejection_at_index(s0.take(gi), address);
                    match ejection_at(s0.take(gi), address) {
                        Some(e) => {
                            let j = choose|j: int|
                                0 <= j < s0.take(gi).len() && s0.take(gi)[j] == e
                                    && s0.take(gi)[j].address == address;
                            assert(s0.take(gi)[j] == s0[j]);
                            assert(false);
                        },
                        None => {},
                    }
                    lemma_ejection_at_index(s0.skip(gi + 1), address);
                    match ejection_at(s0.skip(gi + 1), address) {
                        Some(e) => {
                            let j = choose|j: int|
                                0 <= j < s0.skip(gi + 1).len() && #[trigger] s0.skip(gi + 1)[j]
                                    == e && s0.skip(gi + 1)[j].address == address;
                            assert(s0.skip(gi + 1)[j] == s0[j + gi + 1]);
                            assert(false);
                        },
                        None => {},
                    }
                }
                return DatabaseResult::Success(());
            }
            assert(s0.skip(i as int).skip(1) =~= s0.skip(i + 1));
            i = i + 1;
        }
        assert(s0.skip(n as int) =~= Seq::<EjectionQuery>::empty());
        DatabaseResult::Success(())
    }

    /// The stored ejection with the greatest address less than `address`.
    #[verifier::loop_isolation(false)]
    pub fn ejection_prev(&self, address: u32) -> (r: DatabaseResult<Option<EjectionQuery>>)
        ensures
            r matches DatabaseResult::Success(o),
            (r matches DatabaseResult::Success(None)) <==> (forall|i: int|
                0 <= i < self.ejections@.len() ==> #[trigger] self.ejections@[i].address
                    >= address),
            r matches DatabaseResult::Success(Some(e)) ==> {
                &&& exists|i: int|
                    0 <= i < self.ejections@.len() && same_ejection(
                        e,
                        #[trigger] self.ejections@[i],
                    )
                &&& e.address < address
                &&& forall|i: int|
                    0 <= i < self.ejections@.len() && #[trigger] self.ejections@[i].address
                        < address ==> self.ejections@[i].address <= e.address
            },
    {
        let s = &self.ejections;
        let n = s.len();
        let mut i: usize = 0;
        let mut best: Option<usize> = None;
        while i < n
            invariant
                i <= n,
                n == s@.len(),
                best matches Some(b) ==> b < i && s@[b as int].address < address,
                best is None ==> forall|j: int| 0 <= j < i ==> #[trigger] s@[j].address >= address,
                best matches Some(b) ==> forall|j: int|
                    0 <= j < i && #[trigger] s@[j].address < address ==> s@[j].address
                        <= s@[b as int].address,
            decreases n - i,
        {
            if s[i].address < address {
                match best {
                    None => {
                        best = Some(i);
                    },
                    Some(b) => {
                        if s[b].address < s[i].address {
                            best = Some(i);
                        }
                    },
                }
            }
            i = i + 1;
        }
        match best {
            None => DatabaseResult::Success(None),
            Some(b) => DatabaseResult::Success(Some(s[b].duplicate())),
        }
    }

    /// The stored ejection with the least address greater than `address`.
    #[verifier::loop_isolation(false)]
    pub fn ejection_next(&self, address: u32) -> (r: DatabaseResult<Option<EjectionQuery>>)
        ensures
            r matches DatabaseResult::Success(o),
            (r matches DatabaseResult::Success(None)) <==> (forall|i: int|
                0 <= i < self.ejections@.len() ==> #[trigger] self.ejections@[i].address
                    <= address),
            r matches DatabaseResult::Success(Some(e)) ==> {
                &&& exists|i: int|
                    0 <= i < self.ejections@.len() && same_ejection(
                        e,
                        #[trigger] self.ejections@[i],
                    )
                &&& e.address > address
                &&& forall|i: int|
                    0 <= i < self.ejections@.len() && #[trigger] self.ejections@[i].address
                        > address ==> self.ejections@[i].address >= e.address
            },
    {
        let s = &self.ejections;
        let n = s.len();
        let mut i: usize = 0;
        let mut best: Option<usize> = None;
        while i < n
            invariant
                i <= n,
                n == s@.len(),
                best matches Some(b) ==> b < i && s@[b as int].address > address,
                best is None ==> forall|j: int| 0 <= j < i ==> #[trigger] s@[j].address <= address,
                best matches Some(b) ==> forall|j: int|
                    0 <= j < i && #[trigger] s@[j].address > address ==> s@[j].address
                        >= s@[b as int].address,
            decreases n - i,
        {
            if s[i].address > address {
                match best {
                    None => {
                        best = Some(i);
                    },
                    Some(b) => {
                        if s[b].address > s[i].address {
                            best = Some(i);
                        }
                    },
                }
            }
            i = i + 1;
        }
        match best {
            None => DatabaseResult::Success(None),
            Some(b) => DatabaseResult::Success(Some(s[b].duplicate())),
        }
    }
}

/// When index `i` holds the only row with its address, the find returns
/// it.
proof fn lemma_ejection_at_first(s: Seq<EjectionQuery>, i: int)
    requires
        0 <= i < s.len(),
        forall|j: int| 0 <= j < s.len() && j != i ==> #[trigger] s[j].address != s[i].address,
    ensures
        ejection_at(s, s[i].address) == Some(s[i]),
    decreases i,
{
    if i == 0 {
    } else {
        assert(s.skip(1)[i - 1] == s[i]);
        assert forall|j: int| 0 <= j < s.skip(1).len() && j != i - 1 implies #[trigger] s.skip(
            1,
        )[j].address != s.skip(1)[i - 1].address by {
            assert(s.skip(1)[j] == s[j + 1]);
        }
        lemma_ejection_at_first(s.skip(1), i - 1);
    }
}

/// An in-place replacement of the row with an address leaves lookups of
/// every other address unchanged.
proof fn lemma_ejection_at_pointwise(
    s0: Seq<EjectionQuery>,
    s1: Seq<EjectionQuery>,
    i: int,
    a: u32,
)
    requires
        0 <= i < s0.len(),
        s1.len() == s0.len(),
        forall|j: int| 0 <= j < s0.len() && j != i ==> s1[j] == s0[j],
        s0[i].address == s1[i].address,
        a != s0[i].address,
    ensures
        ejection_at(s1, a) == ejection_at(s0, a),
    decreases i,
{
    if i == 0 {
        assert(s1.skip(1) =~= s0.skip(1));
    } else {
        assert(s1[0] == s0[0]);
        if s0[0].address != a {
            assert(s0.skip(1)[i - 1] == s0[i]);
            assert(s1.skip(1)[i - 1] == s1[i]);
            assert forall|j: int| 0 <= j < s0.skip(1).len() && j != i - 1 implies s1.skip(1)[j]
                == s0.skip(1)[j] by {
                assert(s0.skip(1)[j] == s0[j + 1]);
                assert(s1.skip(1)[j] == s1[j + 1]);
            }
            lemma_ejection_at_pointwise(s0.skip(1), s1.skip(1), i - 1, a);
        }
    }
}

/// The edges owned by `citizen`, in stored order.
pub open spec fn contacts_of_owner(s: Seq<ContactQuery>, citizen: u32) -> Seq<ContactQuery>
    decreases s.len(),
{
    if s.len() == 0 {
        Seq::empty()
    } else if s[0].citizen == citizen {
        seq![s[0]] + contacts_of_owner(s.skip(1), citizen)
    } else {
        contacts_of_owner(s.skip(1), citizen)
    }
}

/// Every edge the owner has appears in the owner's edge list.
pub proof fn lemma_contacts_of_owner_complete(s: Seq<ContactQuery>, owner: u32, other: u32)
    ensures
        contact_of(s, owner, other) matches Some(o) ==> exists|m: int|
            0 <= m < contacts_of_owner(s, owner).len() && (#[trigger] contacts_of_owner(
                s,
                owner,
            )[m]).contact == other && contacts_of_owner(s, owner)[m].options == o,
    decreases s.len(),
{
    if s.len() > 0 {
        lemma_contacts_of_owner_complete(s.skip(1), owner, other);
        if s[0].citizen == owner && s[0].contact == other {
            assert(contacts_of_owner(s, owner) == seq![s[0]] + contacts_of_owner(
                s.skip(1),
                owner,
            ));
            assert(contacts_of_owner(s, owner)[0] == s[0]);
        } else {
            if contact_of(s, owner, other) is Some {
                let rest = contacts_of_owner(s.skip(1), owner);
                let m = choose|m: int|
                    0 <= m < rest.len() && (#[trigger] rest[m]).contact == other && rest[m].options
                        == contact_of(s.skip(1), owner, other).unwrap();
                if s[0].citizen == owner {
                    assert(contacts_of_owner(s, owner) == seq![s[0]] + rest);
                    assert(contacts_of_owner(s, owner)[m + 1] == rest[m]);
                } else {
                    assert(contacts_of_owner(s, owner) == rest);
                }
            }
        }
    }
}

/// True when `owner` has blocked `other` outright: the specific edge or
/// the default mask row carries the whole-contact blocked bit.
pub open spec fn spec_contact_blocked(s: Seq<ContactQuery>, owner: u32, other: u32) -> bool {
    ||| (contact_of(s, owner, other) matches Some(o) && crate::contact_options::has_flag(
        o.bits,
        crate::contact_options::ALL_BLOCKED,
    ))
    ||| (contact_of(s, owner, 0) matches Some(d) && crate::contact_options::has_flag(
        d.bits,
        crate::contact_options::ALL_BLOCKED,
    ))
}

/// Whether `owner` accepts telegrams from `other`: the specific edge
/// decides when present, else the default mask row; with neither, yes.
pub open spec fn spec_telegrams_allowed(s: Seq<ContactQuery>, owner: u32, other: u32) -> bool {
    match contact_of(s, owner, other) {
        Some(o) => !crate::contact_options::has_flag(
            o.bits,
            crate::contact_options::TELEGRAMS_BLOCKED,
        ) && !crate::contact_options::has_flag(o.bits, crate::contact_options::ALL_BLOCKED),
        None => match contact_of(s, owner, 0) {
            Some(d) => !crate::contact_options::has_flag(
                d.bits,
                crate::contact_options::TELEGRAMS_BLOCKED,
            ) && !crate::contact_options::has_flag(d.bits, crate::contact_options::ALL_BLOCKED),
            None => true,
        },
    }
}

/// Replacing the options of one edge in place leaves every other pair's
/// lookup unchanged and keeps the edges sorted.
proof fn lemma_contact_replace_frame(
    s0: Seq<ContactQuery>,
    s1: Seq<ContactQuery>,
    i: int,
    citizen: u32,
    contact: u32,
)
    requires
        0 <= i < s0.len(),
        s1.len() == s0.len(),
        forall|j: int| 0 <= j < s0.len() && j != i ==> s1[j] == s0[j],
        s0[i].citizen == citizen && s0[i].contact == contact,
        s1[i].citizen == citizen && s1[i].contact == contact,
        contacts_ok(s0),
    ensures
        contacts_ok(s1),
        contact_of(s1, citizen, contact) == Some(s1[i].options),
        forall|a: u32, b: u32|
            !(a == citizen && b == contact) ==> contact_of(s1, a, b) == contact_of(s0, a, b),
{
    assert forall|j: int, k: int| 0 <= j < k < s1.len() implies pair_lt(
        #[trigger] s1[j],
        #[trigger] s1[k],
    ) by {
        assert(pair_lt(s0[j], s0[k]));
        if j != i {
            assert(s1[j] == s0[j]);
        }
        if k != i {
            assert(s1[k] == s0[k]);
        }
    }
    assert forall|j: int| 0 <= j < s0.len() && j != i implies !(#[trigger] s0[j].citizen == citizen
        && s0[j].contact == contact) by {
        if j < i {
            assert(pair_lt(s0[j], s0[i]));
        } else {
            assert(pair_lt(s0[i], s0[j]));
        }
    }
    lemma_contact_of_first(s1, i);
    assert forall|a: u32, b: u32| !(a == citizen && b == contact) implies contact_of(s1, a, b)
        == contact_of(s0, a, b) by {
        lemma_contact_of_pointwise(s0, s1, i, a, b);
    }
}

/// When index `i` holds the only edge with its pair, the lookup returns
/// its options.
proof fn lemma_contact_of_first(s: Seq<ContactQuery>, i: int)
    requires
        0 <= i < s.len(),
        forall|j: int| 0 <= j < s.len() && j != i ==> !(#[trigger] s[j].citizen == s[i].citizen
            && s[j].contact == s[i].contact),
    ensures
        contact_of(s, s[i].citizen, s[i].contact) == Some(s[i].options),
    decreases i,
{
    if i == 0 {
    } else {
        assert(s.skip(1)[i - 1] == s[i]);
        assert forall|j: int| 0 <= j < s.skip(1).len() && j != i - 1 implies !(
        #[trigger] s.skip(1)[j].citizen == s.skip(1)[i - 1].citizen && s.skip(1)[j].contact
            == s.skip(1)[i - 1].contact) by {
            assert(s.skip(1)[j] == s[j + 1]);
        }
        lemma_contact_of_first(s.skip(1), i - 1);
    }
}

/// An in-place replacement of one edge's options leaves lookups of every
/// other pair unchanged.
proof fn lemma_contact_of_pointwise(
    s0: Seq<ContactQuery>,
    s1: Seq<ContactQuery>,
    i: int,
    a: u32,
    b: u32,
)
    requires
        0 <= i < s0.len(),
        s1.len() == s0.len(),
        forall|j: int| 0 <= j < s0.len() && j != i ==> s1[j] == s0[j],
        s0[i].citizen == s1[i].citizen,
        s0[i].contact == s1[i].contact,
        !(a == s0[i].citizen && b == s0[i].contact),
    ensures
        contact_of(s1, a, b) == contact_of(s0, a, b),
    decreases i,
{
    if i == 0 {
        assert(s1.skip(1) =~= s0.skip(1));
    } else {
        assert(s1[0] == s0[0]);
        if !(s0[0].citizen == a && s0[0].contact == b) {
            assert(s0.skip(1)[i - 1] == s0[i]);
            assert(s1.skip(1)[i - 1] == s1[i]);
            assert forall|j: int| 0 <= j < s0.skip(1).len() && j != i - 1 implies s1.skip(1)[j]
                == s0.skip(1)[j] by {
                assert(s0.skip(1)[j] == s0[j + 1]);
                assert(s1.skip(1)[j] == s1[j + 1]);
            }
            lemma_contact_of_pointwise(s0.skip(1), s1.skip(1), i - 1, a, b);
        }
    }
}

/// Inserting a fresh edge at its sorted position adds its pair's lookup
/// and leaves every other pair's lookup unchanged.
proof fn lemma_contact_insert_frame(s0: Seq<ContactQuery>, i: int, e: ContactQuery)
    requires
        0 <= i <= s0.len(),
        forall|j: int| 0 <= j < i ==> pair_lt(#[trigger] s0[j], e),
        forall|j: int| i <= j < s0.len() ==> pair_lt(e, #[trigger] s0[j]),
    ensures
        contact_of(s0.insert(i, e), e.citizen, e.contact) == Some(e.options),
        forall|a: u32, b: u32|
            !(a == e.citizen && b == e.contact) ==> contact_of(s0.insert(i, e), a, b)
                == contact_of(s0, a, b),
{
    let s1 = s0.insert(i, e);
    assert(s1 =~= s0.take(i) + (seq![e] + s0.skip(i)));
    assert(s0 =~= s0.take(i) + s0.skip(i));
    assert(seq![e].skip(1) =~= Seq::<ContactQuery>::empty());
    assert forall|a: u32, b: u32| true implies #[trigger] contact_of(s1, a, b) == (
    if contact_of(s0.take(i), a, b) is Some {
        contact_of(s0.take(i), a, b)
    } else if a == e.citizen && b == e.contact {
        Some(e.options)
    } else {
        contact_of(s0.skip(i), a, b)
    }) by {
        lemma_contact_of_concat(s0.take(i), seq![e] + s0.skip(i), a, b);
        lemma_contact_of_concat(seq![e], s0.skip(i), a, b);
        assert(seq![e].len() == 1);
        assert(seq![e][0] == e);
        if a == e.citizen && b == e.contact {
            assert(contact_of(seq![e], a, b) == Some(e.options));
        } else {
            assert(contact_of(seq![e], a, b) == contact_of(
                Seq::<ContactQuery>::empty(),
                a,
                b,
            ));
            assert(contact_of(seq![e], a, b) is None);
        }
    }
    assert forall|a: u32, b: u32| true implies #[trigger] contact_of(s0, a, b) == (
    if contact_of(s0.take(i), a, b) is Some {
        contact_of(s0.take(i), a, b)
    } else {
        contact_of(s0.skip(i), a, b)
    }) by {
        lemma_contact_of_concat(s0.take(i), s0.skip(i), a, b);
    }
    lemma_contact_of_index(s0.take(i), e.citizen, e.contact);
    match contact_of(s0.take(i), e.citizen, e.contact) {
        Some(o) => {
            let j = choose|j: int|
                0 <= j < s0.take(i).len() && s0.take(i)[j].citizen == e.citizen
                    && s0.take(i)[j].contact == e.contact && s0.take(i)[j].options == o;
            assert(s0.take(i)[j] == s0[j]);
            assert(pair_lt(s0[j], e));
            assert(false);
        },
        None => {},
    }
}

/// Removing one edge empties its pair's lookup and leaves every other
/// pair's lookup unchanged; the remaining edges stay sorted.
proof fn lemma_contact_remove_frame(s0: Seq<ContactQuery>, i: int, citizen: u32, contact: u32)
    requires
        0 <= i < s0.len(),
        s0[i].citizen == citizen && s0[i].contact == contact,
        contacts_ok(s0),
    ensures
        contacts_ok(s0.remove(i)),
        contact_of(s0.remove(i), citizen, contact) is None,
        forall|a: u32, b: u32|
            !(a == citizen && b == contact) ==> contact_of(s0.remove(i), a, b) == contact_of(
                s0,
                a,
                b,
            ),
{
    let s1 = s0.remove(i);
    assert(s1 =~= s0.take(i) + s0.skip(i + 1));
    assert(s0 =~= s0.take(i) + (seq![s0[i]] + s0.skip(i + 1)));
    assert(seq![s0[i]].skip(1) =~= Seq::<ContactQuery>::empty());
    assert forall|j: int, k: int| 0 <= j < k < s1.len() implies pair_lt(
        #[trigger] s1[j],
        #[trigger] s1[k],
    ) by {
        if j < i {
            assert(s1[j] == s0[j]);
        } else {
            assert(s1[j] == s0[j + 1]);
        }
        if k < i {
            assert(s1[k] == s0[k]);
        } else {
            assert(s1[k] == s0[k + 1]);
        }
    }
    assert forall|j: int| 0 <= j < s0.len() && j != i implies !(#[trigger] s0[j].citizen == citizen
        && s0[j].contact == contact) by {
        if j < i {
            assert(pair_lt(s0[j], s0[i]));
        } else {
            assert(pair_lt(s0[i], s0[j]));
        }
    }
    assert forall|a: u32, b: u32| true implies #[trigger] contact_of(s1, a, b) == (
    if contact_of(s0.take(i), a, b) is Some {
        contact_of(s0.take(i), a, b)
    } else {
        contact_of(s0.skip(i + 1), a, b)
    }) by {
        lemma_contact_of_concat(s0.take(i), s0.skip(i + 1), a, b);
    }
    assert forall|a: u32, b: u32| true implies #[trigger] contact_of(s0, a, b) == (
    if contact_of(s0.take(i), a, b) is Some {
        contact_of(s0.take(i), a, b)
    } else if a == citizen && b == contact {
        Some(s0[i].options)
    } else {
        contact_of(s0.skip(i + 1), a, b)
    }) by {
        lemma_contact_of_concat(s0.take(i), seq![s0[i]] + s0.skip(i + 1), a, b);
        lemma_contact_of_concat(seq![s0[i]], s0.skip(i + 1), a, b);
        assert(seq![s0[i]].len() == 1);
        assert(seq![s0[i]][0] == s0[i]);
        if a == citizen && b == contact {
            assert(contact_of(seq![s0[i]], a, b) == Some(s0[i].options));
        } else {
            assert(contact_of(seq![s0[i]], a, b) == contact_of(
                Seq::<ContactQuery>::empty(),
                a,
                b,
            ));
            assert(contact_of(seq![s0[i]], a, b) is None);
        }
    }
    lemma_contact_of_index(s0.take(i), citizen, contact);
    lemma_contact_of_index(s0.skip(i + 1), citizen, contact);
    match contact_of(s0.take(i), citizen, contact) {
        Some(o) => {
            let j = choose|j: int|
                0 <= j < s0.take(i).len() && s0.take(i)[j].citizen == citizen
                    && s0.take(i)[j].contact == contact && s0.take(i)[j].options == o;
            assert(s0.take(i)[j] == s0[j]);
            assert(false);
        },
        None => {},
    }
    match contact_of(s0.skip(i + 1), citizen, contact) {
        Some(o) => {
            let j = choose|j: int|
                0 <= j < s0.skip(i + 1).len() && #[trigger] s0.skip(i + 1)[j].citizen == citizen
                    && s0.skip(i + 1)[j].contact == contact && s0.skip(i + 1)[j].options == o;
            assert(s0.skip(i + 1)[j] == s0[j + i + 1]);
            assert(false);
        },
        None => {},
    }
}

/// Replacing one citizen row in place, with its id kept and a folded name
/// no other row uses, leaves every other id lookup unchanged, makes the
/// new name find the row, and keeps the store well formed.
proof fn lemma_citizen_change_frame(
    s0: Seq<CitizenQuery>,
    s1: Seq<CitizenQuery>,
    i: int,
    id: u32,
    name: Seq<char>,
)
    requires
        0 <= i < s0.len(),
        s1.len() == s0.len(),
        forall|j: int| 0 <= j < s0.len() && j != i ==> s1[j] == s0[j],
        s0[i].id == id,
        s1[i].id == id,
        s1[i].name@ == name,
        cit_ids_ok(s0),
        cit_names_ok(s0),
        id != 0,
        forall|j: int| 0 <= j < s0.len() && j != i ==> !eq_ignore_case(s0[j].name@, name),
    ensures
        cit_ids_ok(s1),
        cit_names_ok(s1),
        citizen_with_id(s1, id) == Some(s1[i]),
        forall|id2: u32| id2 != id ==> citizen_with_id(s1, id2) == citizen_with_id(s0, id2),
        citizen_with_name(s1, name) == Some(s1[i]),
{
    assert forall|j: int, k: int| 0 <= j < k < s1.len() implies s1[j].id != s1[k].id by {
        if j != i && k != i {
            assert(s1[j] == s0[j] && s1[k] == s0[k]);
        } else if j == i {
            assert(s1[k] == s0[k]);
            assert(s0[i].id != s0[k].id);
        } else {
            assert(s1[j] == s0[j]);
            assert(s0[j].id != s0[i].id);
        }
    }
    assert forall|j: int, k: int| 0 <= j < k < s1.len() implies !eq_ignore_case(
        s1[j].name@,
        s1[k].name@,
    ) by {
        if j != i && k != i {
            assert(s1[j] == s0[j] && s1[k] == s0[k]);
            assert(!eq_ignore_case(s0[j].name@, s0[k].name@));
        } else if j == i {
            assert(s1[k] == s0[k]);
            assert(!eq_ignore_case(s0[k].name@, name));
            lemma_eq_ignore_case_sym(s0[k].name@, name);
        } else {
            assert(s1[j] == s0[j]);
            assert(!eq_ignore_case(s0[j].name@, name));
        }
    }
    assert forall|j: int| 0 <= j < s1.len() implies s1[j].id != 0 by {
        if j != i {
            assert(s1[j] == s0[j]);
        }
    }
    assert forall|j: int| 0 <= j < s1.len() && j != i implies s1[j].id != id by {
        assert(s1[j] == s0[j]);
        if j < i {
            assert(s0[j].id != s0[i].id);
        } else {
            assert(s0[i].id != s0[j].id);
        }
    }
    lemma_citizen_with_id_first(s1, i, id);
    assert forall|id2: u32| id2 != id implies citizen_with_id(s1, id2) == citizen_with_id(
        s0,
        id2,
    ) by {
        lemma_citizen_with_id_pointwise(s0, s1, i, id2);
    }
    assert(eq_ignore_case(s1[i].name@, name));
    lemma_citizen_with_name_first(s1, i, name);
}

/// Case-folded equality is symmetric.
proof fn lemma_eq_ignore_case_sym(a: Seq<char>, b: Seq<char>)
    ensures
        eq_ignore_case(a, b) == eq_ignore_case(b, a),
{
}

/// Two names folding to the same name fold to each other.
proof fn lemma_eq_ignore_case_trans(a: Seq<char>, b: Seq<char>, n: Seq<char>)
    ensures
        eq_ignore_case(a, n) && eq_ignore_case(b, n) ==> eq_ignore_case(a, b),
{
}

/// Case-folded equality is symmetric and composes through a shared name.
pub proof fn lemma_eq_ignore_case_facts(a: Seq<char>, b: Seq<char>, n: Seq<char>)
    ensures
        eq_ignore_case(a, b) == eq_ignore_case(b, a),
        eq_ignore_case(a, n) && eq_ignore_case(b, n) ==> eq_ignore_case(a, b),
        eq_ignore_case(a, n) && eq_ignore_case(b, n) ==> eq_ignore_case(b, a),
{
}

/// When index `i` holds the only row with the id, the find returns it.
proof fn lemma_citizen_with_id_first(s: Seq<CitizenQuery>, i: int, id: u32)
    requires
        0 <= i < s.len(),
        s[i].id == id,
        forall|j: int| 0 <= j < s.len() && j != i ==> s[j].id != id,
    ensures
        citizen_with_id(s, id) == Some(s[i]),
    decreases i,
{
    if i == 0 {
    } else {
        assert(s.skip(1)[i - 1] == s[i]);
        assert forall|j: int| 0 <= j < s.skip(1).len() && j != i - 1 implies s.skip(1)[j].id
            != id by {
            assert(s.skip(1)[j] == s[j + 1]);
        }
        lemma_citizen_with_id_first(s.skip(1), i - 1, id);
    }
}

/// When index `i` holds the only row folding to the name, the find
/// returns it.
proof fn lemma_citizen_with_name_first(s: Seq<CitizenQuery>, i: int, name: Seq<char>)
    requires
        0 <= i < s.len(),
        eq_ignore_case(s[i].name@, name),
        forall|j: int| 0 <= j < s.len() && j != i ==> !eq_ignore_case(s[j].name@, name),
    ensures
        citizen_with_name(s, name) == Some(s[i]),
    decreases i,
{
    if i == 0 {
    } else {
        assert(s.skip(1)[i - 1] == s[i]);
        assert forall|j: int| 0 <= j < s.skip(1).len() && j != i - 1 implies !eq_ignore_case(
            s.skip(1)[j].name@,
            name,
        ) by {
            assert(s.skip(1)[j] == s[j + 1]);
        }
        lemma_citizen_with_name_first(s.skip(1), i - 1, name);
    }
}

/// An in-place replacement of the row with `id` leaves lookups of every
/// other id unchanged.
proof fn lemma_citizen_with_id_pointwise(
    s0: Seq<CitizenQuery>,
    s1: Seq<CitizenQuery>,
    i: int,
    id2: u32,
)
    requires
        0 <= i < s0.len(),
        s1.len() == s0.len(),
        forall|j: int| 0 <= j < s0.len() && j != i ==> s1[j] == s0[j],
        s0[i].id == s1[i].id,
        id2 != s0[i].id,
    ensures
        citizen_with_id(s1, id2) == citizen_with_id(s0, id2),
    decreases i,
{
    if i == 0 {
        assert(s1.skip(1) =~= s0.skip(1));
    } else {
        assert(s1[0] == s0[0]);
        if s0[0].id != id2 {
            assert(s0.skip(1)[i - 1] == s0[i]);
            assert(s1.skip(1)[i - 1] == s1[i]);
            assert forall|j: int| 0 <= j < s0.skip(1).len() && j != i - 1 implies s1.skip(1)[j]
                == s0.skip(1)[j] by {
                assert(s0.skip(1)[j] == s0[j + 1]);
                assert(s1.skip(1)[j] == s1[j + 1]);
            }
            lemma_citizen_with_id_pointwise(s0.skip(1), s1.skip(1), i - 1, id2);
        }
    }
}

/// Replacing one license row in place, with its id kept and a name no
/// other row uses, leaves every other id lookup unchanged, makes the new
/// name find the row, and keeps the license keys well formed.
proof fn lemma_license_change_frame(
    s0: Seq<LicenseQuery>,
    s1: Seq<LicenseQuery>,
    i: int,
    id: u32,
    name: Seq<char>,
    next: u32,
)
    requires
        0 <= i < s0.len(),
        s1.len() == s0.len(),
        forall|j: int| 0 <= j < s0.len() && j != i ==> s1[j] == s0[j],
        s0[i].id == id,
        s1[i].id == id,
        s1[i].name@ == name,
        lic_keys_ok(s0, next),
        forall|j: int| 0 <= j < s0.len() && j != i ==> s0[j].name@ != name,
    ensures
        lic_keys_ok(s1, next),
        license_with_id(s1, id) == Some(s1[i]),
        forall|id2: u32| id2 != id ==> license_with_id(s1, id2) == license_with_id(s0, id2),
        license_with_name(s1, name) == Some(s1[i]),
{
    assert forall|j: int, k: int| 0 <= j < k < s1.len() implies s1[j].id != s1[k].id by {
        if j != i && k != i {
            assert(s1[j] == s0[j] && s1[k] == s0[k]);
        } else if j == i {
            assert(s1[k] == s0[k]);
            assert(s0[i].id != s0[k].id);
        } else {
            assert(s1[j] == s0[j]);
            assert(s0[j].id != s0[i].id);
        }
    }
    assert forall|j: int, k: int| 0 <= j < k < s1.len() implies s1[j].name@ != s1[k].name@ by {
        if j != i && k != i {
            assert(s1[j] == s0[j] && s1[k] == s0[k]);
            assert(s0[j].name@ != s0[k].name@);
        } else if j == i {
            assert(s1[k] == s0[k]);
        } else {
            assert(s1[j] == s0[j]);
        }
    }
    assert forall|j: int| 0 <= j < s1.len() implies 0 < #[trigger] s1[j].id < next by {
        if j != i {
            assert(s1[j] == s0[j]);
        } else {
            assert(s0[i].id == s1[i].id);
        }
    }
    assert forall|j: int| 0 <= j < s1.len() && j != i implies s1[j].id != id by {
        assert(s1[j] == s0[j]);
        if j < i {
            assert(s0[j].id != s0[i].id);
        } else {
            assert(s0[i].id != s0[j].id);
        }
    }
    lemma_license_with_id_first(s1, i, id);
    assert forall|id2: u32| id2 != id implies license_with_id(s1, id2) == license_with_id(
        s0,
        id2,
    ) by {
        lemma_license_with_id_pointwise(s0, s1, i, id2);
    }
    lemma_license_with_name_first(s1, i, name);
}

/// When index `i` holds the only row with the id, the find returns it.
proof fn lemma_license_with_id_first(s: Seq<LicenseQuery>, i: int, id: u32)
    requires
        0 <= i < s.len(),
        s[i].id == id,
        forall|j: int| 0 <= j < s.len() && j != i ==> s[j].id != id,
    ensures
        license_with_id(s, id) == Some(s[i]),
    decreases i,
{
    if i == 0 {
    } else {
        assert(s.skip(1)[i - 1] == s[i]);
        assert forall|j: int| 0 <= j < s.skip(1).len() && j != i - 1 implies s.skip(1)[j].id
            != id by {
            assert(s.skip(1)[j] == s[j + 1]);
        }
        lemma_license_with_id_first(s.skip(1), i - 1, id);
    }
}

/// When index `i` holds the only row with the name, the find returns it.
proof fn lemma_license_with_name_first(s: Seq<LicenseQuery>, i: int, name: Seq<char>)
    requires
        0 <= i < s.len(),
        s[i].name@ == name,
        forall|j: int| 0 <= j < s.len() && j != i ==> s[j].name@ != name,
    ensures
        license_with_name(s, name) == Some(s[i]),
    decreases i,
{
    if i == 0 {
    } else {
        assert(s.skip(1)[i - 1] == s[i]);
        assert forall|j: int| 0 <= j < s.skip(1).len() && j != i - 1 implies s.skip(1)[j].name@
            != name by {
            assert(s.skip(1)[j] == s[j + 1]);
        }
        lemma_license_with_name_first(s.skip(1), i - 1, name);
    }
}

/// An in-place replacement of the row with an id leaves lookups of every
/// other id unchanged.
proof fn lemma_license_with_id_pointwise(
    s0: Seq<LicenseQuery>,
    s1: Seq<LicenseQuery>,
    i: int,
    id2: u32,
)
    requires
        0 <= i < s0.len(),
        s1.len() == s0.len(),
        forall|j: int| 0 <= j < s0.len() && j != i ==> s1[j] == s0[j],
        s0[i].id == s1[i].id,
        id2 != s0[i].id,
    ensures
        license_with_id(s1, id2) == license_with_id(s0, id2),
    decreases i,
{
    if i == 0 {
        assert(s1.skip(1) =~= s0.skip(1));
    } else {
        assert(s1[0] == s0[0]);
        if s0[0].id != id2 {
            assert(s0.skip(1)[i - 1] == s0[i]);
            assert(s1.skip(1)[i - 1] == s1[i]);
            assert forall|j: int| 0 <= j < s0.skip(1).len() && j != i - 1 implies s1.skip(1)[j]
                == s0.skip(1)[j] by {
                assert(s0.skip(1)[j] == s0[j + 1]);
                assert(s1.skip(1)[j] == s1[j + 1]);
            }
            lemma_license_with_id_pointwise(s0.skip(1), s1.skip(1), i - 1, id2);
        }
    }
}

/// Marking one telegram delivered drops it from its addressee's
/// undelivered queue and leaves every other queue as it was.
pub proof fn lemma_undelivered_mark(
    s0: Seq<TelegramQuery>,
    s1: Seq<TelegramQuery>,
    id: u32,
    cit: u32,
)
    requires
        s1.len() == s0.len(),
        forall|k: int| 0 <= k < s0.len() && (#[trigger] s0[k]).id != id ==> s1[k] == s0[k],
        forall|k: int|
            0 <= k < s0.len() && (#[trigger] s0[k]).id == id ==> s1[k].to == s0[k].to
                && s1[k].delivered,
        forall|j: int, k: int| 0 <= j < k < s0.len() ==> (#[trigger] s0[j]).id != (
        #[trigger] s0[k]).id,
    ensures
        (forall|k: int|
            0 <= k < s0.len() && (#[trigger] s0[k]).id == id ==> (s0[k].delivered || s0[k].to
                != cit)) ==> undelivered_to(s1, cit) =~= undelivered_to(s0, cit),
        (undelivered_to(s0, cit).len() > 0 && undelivered_to(s0, cit)[0].id == id)
            ==> undelivered_to(s1, cit) =~= undelivered_to(s0, cit).skip(1),
    decreases s0.len(),
{
    if s0.len() == 0 {
    } else {
        assert forall|k: int|
            0 <= k < s0.skip(1).len() && (#[trigger] s0.skip(1)[k]).id != id implies s1.skip(1)[k]
            == s0.skip(1)[k] by {
            assert(s0.skip(1)[k] == s0[k + 1]);
            assert(s1.skip(1)[k] == s1[k + 1]);
        }
        assert forall|k: int|
            0 <= k < s0.skip(1).len() && (#[trigger] s0.skip(1)[k]).id == id implies s1.skip(
            1,
        )[k].to == s0.skip(1)[k].to && s1.skip(1)[k].delivered by {
            assert(s0.skip(1)[k] == s0[k + 1]);
            assert(s1.skip(1)[k] == s1[k + 1]);
        }
        assert forall|j: int, k: int| 0 <= j < k < s0.skip(1).len() implies (#[trigger] s0.skip(
            1,
        )[j]).id != (#[trigger] s0.skip(1)[k]).id by {
            assert(s0.skip(1)[j] == s0[j + 1]);
            assert(s0.skip(1)[k] == s0[k + 1]);
        }
        lemma_undelivered_mark(s0.skip(1), s1.skip(1), id, cit);
        if forall|k: int|
            0 <= k < s0.len() && (#[trigger] s0[k]).id == id ==> (s0[k].delivered || s0[k].to
                != cit) {
            assert forall|k: int|
                0 <= k < s0.skip(1).len() && (#[trigger] s0.skip(1)[k]).id == id implies (s0.skip(
                1,
            )[k].delivered || s0.skip(1)[k].to != cit) by {
                assert(s0.skip(1)[k] == s0[k + 1]);
            }
            if s0[0].id != id {
                assert(s1[0] == s0[0]);
            } else {
                assert(s0[0].delivered || s0[0].to != cit);
                assert(!(s0[0].to == cit && !s0[0].delivered));
                assert(!(s1[0].to == cit && !s1[0].delivered));
            }
        }
        if undelivered_to(s0, cit).len() > 0 && undelivered_to(s0, cit)[0].id == id {
            if s0[0].to == cit && !s0[0].delivered {
                assert(undelivered_to(s0, cit) == seq![s0[0]] + undelivered_to(s0.skip(1), cit));
                assert(undelivered_to(s0, cit)[0] == s0[0]);
                if s0[0].id == id {
                    assert(s1[0].delivered && s1[0].to == cit);
                    assert(undelivered_to(s1, cit) == undelivered_to(s1.skip(1), cit));
                    assert forall|k: int|
                        0 <= k < s0.skip(1).len() && (#[trigger] s0.skip(1)[k]).id == id implies (
                    s0.skip(1)[k].delivered || s0.skip(1)[k].to != cit) by {
                        assert(s0.skip(1)[k] == s0[k + 1]);
                        assert(s0[0].id != s0[k + 1].id);
                    }
                    assert(undelivered_to(s1.skip(1), cit) =~= undelivered_to(s0.skip(1), cit));
                    assert(undelivered_to(s0, cit).skip(1) =~= undelivered_to(s0.skip(1), cit));
                } else {
                    assert(undelivered_to(s0, cit)[0].id == s0[0].id);
                    assert(false);
                }
            } else {
                assert(undelivered_to(s0, cit) == undelivered_to(s0.skip(1), cit));
                if s0[0].id != id {
                    assert(s1[0] == s0[0]);
                    assert(undelivered_to(s1, cit) == undelivered_to(s1.skip(1), cit));
                } else {
                    assert(!(s1[0].to == cit && !s1[0].delivered));
                    assert(undelivered_to(s1, cit) == undelivered_to(s1.skip(1), cit));
                }
            }
        }
    }
}

} // verus!
