//! Construction of metadata store handles from configuration.

use vstd::prelude::*;

use crate::database::{db_empty, Database};
use crate::errors::StorageError;
use crate::memory_database::MemoryDatabase;

verus! {

/// Where the metadata store lives.
#[derive(Debug, PartialEq)]
pub struct DatabaseConfig {
    pub uri: String,
}

impl Clone for DatabaseConfig {
    fn clone(&self) -> (r: Self)
        ensures
            r == *self,
    {
        DatabaseConfig { uri: self.uri.clone() }
    }
}

/// Hands out store handles for one configuration.
#[derive(Debug, PartialEq)]
pub struct DatabaseManager {
    config: DatabaseConfig,
}

impl Clone for DatabaseManager {
    fn clone(&self) -> (r: Self)
        ensures
            r == *self,
    {
        DatabaseManager { config: self.config.clone() }
    }
}

impl DatabaseManager {
    /// The configured location.
    pub closed spec fn uri(&self) -> Seq<char> {
        self.config.uri@
    }

    pub fn new(config: DatabaseConfig) -> (r: Self)
        ensures
            r.uri() == config.uri@,
    {
        DatabaseManager { config }
    }

    /// A store handle: a fresh, empty verified store.  Loading and saving a
    /// durable image at the configured location is the embedder's concern;
    /// it replays these verified operations.
    pub fn get_database(&self) -> (r: Result<MemoryDatabase, StorageError>)
        ensures
            r matches Ok(db) && db.inv() && db.db() == db_empty(),
    {
        Ok(MemoryDatabase::new())
    }
}

} // verus!
