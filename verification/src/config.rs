//! Process configuration: which storage backend to use and where the
//! server should listen. Built once at startup and handed to whoever
//! serves requests — there is no ambient global state.

use vstd::prelude::*;

use crate::bill::BillView;
use crate::data::{Data, DataProvider};
use crate::memory::Memory;

verus! {

/// Where the server listens.
pub struct ServerConfig {
    pub host: String,
    pub port: u16,
}

impl ServerConfig {
    /// The default listen address.
    pub fn new() -> (c: ServerConfig)
        ensures
            c.host@ == "0.0.0.0"@,
            c.port == 3000,
    {
        ServerConfig { host: "0.0.0.0".to_owned(), port: 3000 }
    }
}

/// Which storage backend the process uses.
pub struct DataConfig {
    pub provider: DataProvider,
}

impl DataConfig {
    /// The default backend: a fresh, empty in-memory store.
    pub fn new() -> (c: DataConfig)
        ensures
            c.provider.inv(),
            c.provider.bills() == Map::<u128, BillView>::empty(),
    {
        DataConfig { provider: DataProvider::Memory(Memory::new()) }
    }
}

/// The whole process configuration.
pub struct Config {
    pub data: DataConfig,
    pub app: ServerConfig,
}

impl Config {
    /// The default configuration: empty in-memory store, default
    /// listen address.
    pub fn new() -> (c: Config)
        ensures
            c.data.provider.inv(),
            c.data.provider.bills() == Map::<u128, BillView>::empty(),
            c.app.host@ == "0.0.0.0"@,
            c.app.port == 3000,
    {
        Config { data: DataConfig::new(), app: ServerConfig::new() }
    }
}

} // verus!
