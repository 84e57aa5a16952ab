//! The one storage surface the transfer engine sees: a metadata store and a
//! blob store composed behind a single capability handle.

use vstd::prelude::*;

use crate::database::Database;
use crate::file_storage::FileStorage;

verus! {

/// A capability bundle passed by reference to all session logic; it owns no
/// session state.
pub struct StorageContext<D: Database, F: FileStorage> {
    pub db: D,
    pub file_storage: F,
}

impl<D: Database, F: FileStorage> StorageContext<D, F> {
    /// Both stores satisfy their invariants.
    pub open spec fn inv(&self) -> bool {
        self.db.inv() && self.file_storage.inv()
    }

    pub fn new(db: D, file_storage: F) -> (r: Self)
        ensures
            r.db == db,
            r.file_storage == file_storage,
    {
        StorageContext { db, file_storage }
    }
}

} // verus!
