//! The universe server value: the directory and the connection registry,
//! passed by exclusive reference to every packet handler.

use vstd::prelude::*;
use crate::connection::UniverseConnections;
use crate::database::UniverseDatabase;

verus! {

/// The whole server state the event loop owns.
pub struct UniverseServer {
    pub database: UniverseDatabase,
    pub connections: UniverseConnections,
}

impl UniverseServer {
    /// Well-formedness of the directory and the registry together.
    pub open spec fn wf(self) -> bool {
        &&& self.database.wf()
        &&& self.connections.wf()
    }

    /// A fresh server with an empty directory and no connections.
    pub fn new() -> (r: UniverseServer)
        ensures
            r.wf(),
            r.database.citizens@.len() == 0,
            r.database.licenses@.len() == 0,
            r.database.contacts@.len() == 0,
            r.database.telegrams@.len() == 0,
            r.database.ejections@.len() == 0,
            r.connections.connections@.len() == 0,
    {
        UniverseServer { database: UniverseDatabase::new(), connections: UniverseConnections::new() }
    }
}

} // verus!
