//! The typed variable map that every protocol packet carries.
//!
//! A packet is a packet type together with a list of `(VarID, value)`
//! entries. Reads are order-insensitive: a getter returns the first entry
//! with the asked-for id, and only when the stored value has the asked-for
//! type. The wire framing, encryption and the numeric encoding of ids and
//! reason codes live in the transport layer outside this crate; the core
//! works with packets in this symbolic form.

use vstd::prelude::*;
use crate::reason::ReasonCode;

verus! {

/// The packet types this core receives or sends.
#[derive(Clone, Copy, Debug, PartialEq, Eq, Structural)]
pub enum PacketType {
    CitizenChange,
    CitizenChangeResult,
    ContactAdd,
    ContactChange,
    ContactConfirm,
    ContactDelete,
    ContactList,
    EjectAdd,
    EjectLookup,
    EjectNext,
    EjectPrev,
    EjectResult,
    LicenseAdd,
    LicenseByName,
    LicenseChange,
    LicenseChangeResult,
    LicenseNext,
    LicensePrev,
    LicenseResult,
    SetAfk,
    TelegramDeliver,
    TelegramNotify,
    TelegramSend,
    UserList,
    Unknown,
}

/// The variable ids this core reads or writes.
#[derive(Clone, Copy, Debug, PartialEq, Eq, Structural)]
pub enum VarID {
    AFKStatus,
    BetaUser,
    CAVEnabled,
    CAVTemplate,
    CitizenBotLimit,
    CitizenComment,
    CitizenEmail,
    CitizenEnabled,
    CitizenExpiration,
    CitizenName,
    CitizenNumber,
    CitizenPassword,
    CitizenPrivacy,
    CitizenPrivilegePassword,
    CitizenURL,
    ContactListCitizenID,
    ContactListName,
    ContactListOptions,
    ContactListStatus,
    EjectionAddress,
    EjectionComment,
    EjectionCreation,
    EjectionExpiration,
    ReasonCode,
    TelegramAge,
    TelegramCitizenName,
    TelegramMessage,
    TelegramTo,
    TelegramsMoreRemain,
    TrialUser,
    UserListCitizenID,
    UserListContinuationID,
    UserListID,
    UserListName,
    WorldLicenseComment,
    WorldLicenseCreation,
    WorldLicenseEmail,
    WorldLicenseExpiration,
    WorldLicenseHidden,
    WorldLicenseID,
    WorldLicenseLastAddress,
    WorldLicenseLastStart,
    WorldLicensePassword,
    WorldLicenseRange,
    WorldLicenseTourists,
    WorldLicenseUsers,
    WorldLicenseVoip,
    WorldLicensePlugins,
    WorldName,
}

/// One stored value. An entry of an unknown id decodes into the same shapes
/// and is preserved untouched; reason codes stay symbolic (their numeric
/// encoding is the transport's concern).
#[derive(Clone, Debug)]
pub enum PacketValue {
    Byte(u8),
    Int(i32),
    Uint(u32),
    Text(String),
    Data(Vec<u8>),
    Reason(ReasonCode),
}

/// A decoded packet: its type and its variables in arrival order.
#[derive(Clone, Debug)]
pub struct AWPacket {
    pub packet_type: PacketType,
    pub vars: Vec<(VarID, PacketValue)>,
}

/// The first value stored under `id`, over the variable list.
pub open spec fn find_var(vars: Seq<(VarID, PacketValue)>, id: VarID) -> Option<PacketValue>
    decreases vars.len(),
{
    if vars.len() == 0 {
        None
    } else if vars[0].0 == id {
        Some(vars[0].1)
    } else {
        find_var(vars.skip(1), id)
    }
}

/// Appending an entry leaves every earlier id's first value in place, and
/// gives an id not yet present its value.
pub proof fn lemma_find_var_push(vars: Seq<(VarID, PacketValue)>, id: VarID, entry: (VarID, PacketValue))
    ensures
        find_var(vars, id) is Some ==> find_var(vars.push(entry), id) == find_var(vars, id),
        find_var(vars, id) is None && entry.0 == id ==> find_var(vars.push(entry), id) == Some(
            entry.1,
        ),
        find_var(vars, id) is None && entry.0 != id ==> find_var(vars.push(entry), id) is None,
    decreases vars.len(),
{
    if vars.len() == 0 {
        assert(vars.push(entry)[0] == entry);
        assert(vars.push(entry).skip(1) =~= Seq::<(VarID, PacketValue)>::empty());
        if entry.0 == id {
            assert(find_var(vars.push(entry), id) == Some(entry.1));
        } else {
            assert(find_var(vars.push(entry), id) == find_var(
                Seq::<(VarID, PacketValue)>::empty(),
                id,
            ));
        }
    } else {
        assert(vars.push(entry)[0] == vars[0]);
        assert(vars.push(entry).skip(1) =~= vars.skip(1).push(entry));
        lemma_find_var_push(vars.skip(1), id, entry);
    }
}

/// A list in which no entry carries the id finds nothing under it.
pub proof fn lemma_find_var_absent(vars: Seq<(VarID, PacketValue)>, id: VarID)
    requires
        forall|i: int| 0 <= i < vars.len() ==> (#[trigger] vars[i]).0 != id,
    ensures
        find_var(vars, id) is None,
    decreases vars.len(),
{
    if vars.len() > 0 {
        assert forall|i: int| 0 <= i < vars.skip(1).len() implies (#[trigger] vars.skip(1)[i]).0
            != id by {
            assert(vars.skip(1)[i] == vars[i + 1]);
        }
        lemma_find_var_absent(vars.skip(1), id);
    }
}

/// When index `k` holds the first entry with the id, the find returns its
/// value.
pub proof fn lemma_find_var_at(vars: Seq<(VarID, PacketValue)>, id: VarID, k: int)
    requires
        0 <= k < vars.len(),
        vars[k].0 == id,
        forall|j: int| 0 <= j < k ==> (#[trigger] vars[j]).0 != id,
    ensures
        find_var(vars, id) == Some(vars[k].1),
    decreases k,
{
    if k == 0 {
    } else {
        assert(vars.skip(1)[k - 1] == vars[k]);
        assert forall|j: int| 0 <= j < k - 1 implies (#[trigger] vars.skip(1)[j]).0 != id by {
            assert(vars.skip(1)[j] == vars[j + 1]);
        }
        lemma_find_var_at(vars.skip(1), id, k - 1);
    }
}

impl AWPacket {
    /// The first value stored under `id`, if any.
    pub open spec fn spec_get(&self, id: VarID) -> Option<PacketValue> {
        find_var(self.vars@, id)
    }

    /// An empty packet of the given type.
    pub fn new(packet_type: PacketType) -> (r: AWPacket)
        ensures
            r.packet_type == packet_type,
            r.vars@ =~= Seq::<(VarID, PacketValue)>::empty(),
    {
        AWPacket { packet_type, vars: Vec::new() }
    }

    /// Appends an entry; earlier entries keep priority on reads.
    pub fn add_var(&mut self, id: VarID, value: PacketValue)
        ensures
            final(self).packet_type == old(self).packet_type,
            final(self).vars@ == old(self).vars@.push((id, value)),
    {
        self.vars.push((id, value));
    }

    /// Appends a byte variable.
    pub fn add_byte(&mut self, id: VarID, value: u8)
        ensures
            final(self).packet_type == old(self).packet_type,
            final(self).vars@ == old(self).vars@.push((id, PacketValue::Byte(value))),
    {
        self.vars.push((id, PacketValue::Byte(value)));
    }

    /// Appends a signed integer variable.
    pub fn add_int(&mut self, id: VarID, value: i32)
        ensures
            final(self).packet_type == old(self).packet_type,
            final(self).vars@ == old(self).vars@.push((id, PacketValue::Int(value))),
    {
        self.vars.push((id, PacketValue::Int(value)));
    }

    /// Appends an unsigned integer variable.
    pub fn add_uint(&mut self, id: VarID, value: u32)
        ensures
            final(self).packet_type == old(self).packet_type,
            final(self).vars@ == old(self).vars@.push((id, PacketValue::Uint(value))),
    {
        self.vars.push((id, PacketValue::Uint(value)));
    }

    /// Appends a string variable.
    pub fn add_string(&mut self, id: VarID, value: String)
        ensures
            final(self).packet_type == old(self).packet_type,
            final(self).vars@ == old(self).vars@.push((id, PacketValue::Text(value))),
    {
        self.vars.push((id, PacketValue::Text(value)));
    }

    /// Appends a raw data variable.
    pub fn add_data(&mut self, id: VarID, value: Vec<u8>)
        ensures
            final(self).packet_type == old(self).packet_type,
            final(self).vars@ == old(self).vars@.push((id, PacketValue::Data(value))),
    {
        self.vars.push((id, PacketValue::Data(value)));
    }

    /// Appends a reason-code variable.
    pub fn add_reason(&mut self, value: ReasonCode)
        ensures
            final(self).packet_type == old(self).packet_type,
            final(self).vars@ == old(self).vars@.push(
                (VarID::ReasonCode, PacketValue::Reason(value)),
            ),
    {
        self.vars.push((VarID::ReasonCode, PacketValue::Reason(value)));
    }

    /// The first entry stored under `id`, whatever its type.
    #[verifier::loop_isolation(false)]
    fn get_var(&self, id: VarID) -> (r: Option<&PacketValue>)
        ensures
            match r {
                Some(v) => self.spec_get(id) == Some(*v),
                None => self.spec_get(id) is None,
            },
    {
        let n = self.vars.len();
        let mut i: usize = 0;
        assert(self.vars@.skip(0) =~= self.vars@);
        while i < n
            invariant
                i <= n,
                n == self.vars.len(),
                find_var(self.vars@, id) == find_var(self.vars@.skip(i as int), id),
            decreases n - i,
        {
            assert(self.vars@.skip(i as int)[0] == self.vars@[i as int]);
            if self.vars[i].0 == id {
                return Some(&self.vars[i].1);
            }
            assert(self.vars@.skip(i as int).skip(1) =~= self.vars@.skip(i + 1));
            i = i + 1;
        }
        assert(self.vars@.skip(n as int) =~= Seq::<(VarID, PacketValue)>::empty());
        None
    }

    /// Whether any value is stored under `id`, of whatever type.
    pub fn has_var(&self, id: VarID) -> (r: bool)
        ensures
            r == (self.spec_get(id) is Some),
    {
        match self.get_var(id) {
            Some(_) => true,
            None => false,
        }
    }

    /// The byte stored under `id`; absent when the id is missing or holds
    /// another type.
    pub fn get_byte(&self, id: VarID) -> (r: Option<u8>)
        ensures
            match r {
                Some(v) => self.spec_get(id) == Some(PacketValue::Byte(v)),
                None => !(self.spec_get(id) matches Some(PacketValue::Byte(_))),
            },
    {
        match self.get_var(id) {
            Some(PacketValue::Byte(v)) => Some(*v),
            _ => None,
        }
    }

    /// The signed integer stored under `id`; absent when the id is missing
    /// or holds another type.
    pub fn get_int(&self, id: VarID) -> (r: Option<i32>)
        ensures
            match r {
                Some(v) => self.spec_get(id) == Some(PacketValue::Int(v)),
                None => !(self.spec_get(id) matches Some(PacketValue::Int(_))),
            },
    {
        match self.get_var(id) {
            Some(PacketValue::Int(v)) => Some(*v),
            _ => None,
        }
    }

    /// The unsigned integer stored under `id`; absent when the id is
    /// missing or holds another type.
    pub fn get_uint(&self, id: VarID) -> (r: Option<u32>)
        ensures
            match r {
                Some(v) => self.spec_get(id) == Some(PacketValue::Uint(v)),
                None => !(self.spec_get(id) matches Some(PacketValue::Uint(_))),
            },
    {
        match self.get_var(id) {
            Some(PacketValue::Uint(v)) => Some(*v),
            _ => None,
        }
    }

    /// The string stored under `id`; absent when the id is missing or holds
    /// another type.
    pub fn get_string(&self, id: VarID) -> (r: Option<String>)
        ensures
            match r {
                Some(v) => exists|s: String|
                    self.spec_get(id) == Some(PacketValue::Text(s)) && v@ == s@,
                None => !(self.spec_get(id) matches Some(PacketValue::Text(_))),
            },
    {
        match self.get_var(id) {
            Some(PacketValue::Text(v)) => {
                let copy = v.clone();
                assert(self.spec_get(id) == Some(PacketValue::Text(*v)) && copy@ == v@);
                Some(copy)
            },
            _ => None,
        }
    }

    /// The reason code stored under `id`; absent when the id is missing or
    /// holds another type.
    pub fn get_reason(&self, id: VarID) -> (r: Option<ReasonCode>)
        ensures
            match r {
                Some(v) => self.spec_get(id) == Some(PacketValue::Reason(v)),
                None => !(self.spec_get(id) matches Some(PacketValue::Reason(_))),
            },
    {
        match self.get_var(id) {
            Some(PacketValue::Reason(v)) => Some(*v),
            _ => None,
        }
    }
}

} // verus!
