//! Server configuration as the core sees it: plain values. Reading and
//! writing the configuration file is the surrounding program's business.

use vstd::prelude::*;

verus! {

/// Where the relational backend lives.
#[derive(Clone, Debug)]
pub struct MysqlConfig {
    pub hostname: String,
    pub port: u16,
    pub username: String,
    pub password: String,
    pub database: String,
}

impl Default for MysqlConfig {
    /// The conventional local backend.
    fn default() -> (r: MysqlConfig)
        ensures
            r.hostname@ == "127.0.0.1"@,
            r.port == 3306,
            r.username@ == "root"@,
            r.password@ == "password"@,
            r.database@ == "aworld_universe"@,
    {
        MysqlConfig {
            hostname: "127.0.0.1".to_owned(),
            port: 3306,
            username: "root".to_owned(),
            password: "password".to_owned(),
            database: "aworld_universe".to_owned(),
        }
    }
}

/// The listener's address and port; the IPv4 address is carried as an
/// integer, most significant octet first.
#[derive(Clone, Debug)]
pub struct UniverseConfig {
    pub ip: u32,
    pub port: u16,
}

impl Default for UniverseConfig {
    /// The loopback listener on the protocol's conventional port.
    fn default() -> (r: UniverseConfig)
        ensures
            r.ip == 0x7f000001u32,
            r.port == 6670,
    {
        UniverseConfig { ip: 0x7f000001, port: 6670 }
    }
}

/// The whole configuration.
#[derive(Clone, Debug)]
pub struct Config {
    pub universe: UniverseConfig,
    pub mysql: MysqlConfig,
}

impl Default for Config {
    /// Defaults throughout.
    fn default() -> (r: Config)
        ensures
            r.universe.ip == 0x7f000001u32,
            r.universe.port == 6670,
            r.mysql.port == 3306,
    {
        Config { universe: Default::default(), mysql: Default::default() }
    }
}

} // verus!
