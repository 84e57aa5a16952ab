//! The in-memory backend of [`Database`]: the authoritative, verified state
//! of the metadata store.  Durability mirrors (for instance a relational
//! database on disk) are driven outside the verified core and replay the
//! same operations.

use vstd::prelude::*;

use crate::database::{
    blob_exists, blob_index, db_empty, db_wf, delete_file_info_spec, first_user_match,
    lemma_blob_index_unique, lemma_hash_count_member, lemma_hash_count_remove,
    lemma_record_index_unique, rec_key_is, record_exists, record_index, save_file_info_spec,
    save_user_spec, update_sync_size_spec, Database, DbModel, FileRecord, SharedBlob,
};
use crate::entity::{SyncFileInfo, User};
use crate::errors::StorageError;

verus! {

/// The metadata store held as plain vectors, searched linearly; the
/// invariant [`db_wf`] is maintained by every operation.
pub struct MemoryDatabase {
    users: Vec<User>,
    next_user_id: u32,
    records: Vec<FileRecord>,
    blobs: Vec<SharedBlob>,
}

impl MemoryDatabase {
    /// A store with no users, records or blobs.
    pub fn new() -> (r: Self)
        ensures
            r.inv(),
            r.db() == db_empty(),
    {
        let r = MemoryDatabase {
            users: Vec::new(),
            next_user_id: 1,
            records: Vec::new(),
            blobs: Vec::new(),
        };
        proof {
            assert(r.db() =~= db_empty());
        }
        r
    }

    /// Index of the blob of `file_hash`, if any.
    fn find_blob_idx(&self, file_hash: &str) -> (r: Option<usize>)
        requires
            self.inv(),
        ensures
            r matches Some(i) ==> i < self.db().blobs.len() && self.db().blobs[i as int].file_hash
                == file_hash@ && blob_exists(self.db(), file_hash@) && blob_index(
                self.db(),
                file_hash@,
            ) == i,
            r is None ==> !blob_exists(self.db(), file_hash@),
    {
        let target = file_hash.to_owned();
        let mut k: usize = 0;
        while k < self.blobs.len()
            invariant
                self.inv(),
                k <= self.blobs.len(),
                target@ == file_hash@,
                forall|j: int| 0 <= j < k ==> (#[trigger] self.db().blobs[j]).file_hash != file_hash@,
            decreases self.blobs.len() - k,
        {
            if self.blobs[k].file_hash == target {
                proof {
                    self.inv_implies_wf();
                    lemma_blob_index_unique(self.db(), k as int, file_hash@);
                }
                return Some(k);
            }
            k += 1;
        }
        None
    }

    /// Index of the record of `(user_id, file_dir, file_name)`, if any.
    fn find_record_idx(&self, user_id: u32, file_dir: &str, file_name: &str) -> (r: Option<usize>)
        requires
            self.inv(),
        ensures
            r matches Some(i) ==> i < self.db().records.len() && rec_key_is(
                self.db().records[i as int],
                user_id,
                file_dir@,
                file_name@,
            ) && record_exists(self.db(), user_id, file_dir@, file_name@) && record_index(
                self.db(),
                user_id,
                file_dir@,
                file_name@,
            ) == i,
            r is None ==> !record_exists(self.db(), user_id, file_dir@, file_name@),
    {
        let dir = file_dir.to_owned();
        let name = file_name.to_owned();
        let mut k: usize = 0;
        while k < self.records.len()
            invariant
                self.inv(),
                k <= self.records.len(),
                dir@ == file_dir@,
                name@ == file_name@,
                forall|j: int|
                    0 <= j < k ==> !rec_key_is(
                        #[trigger] self.db().records[j],
                        user_id,
                        file_dir@,
                        file_name@,
                    ),
            decreases self.records.len() - k,
        {
            if self.records[k].user_id == user_id && self.records[k].file_dir == dir
                && self.records[k].file_name == name {
                proof {
                    self.inv_implies_wf();
                    lemma_record_index_unique(self.db(), k as int, user_id, file_dir@, file_name@);
                }
                return Some(k);
            }
            k += 1;
        }
        None
    }
}

impl Database for MemoryDatabase {
    closed spec fn db(&self) -> DbModel {
        DbModel {
            users: self.users@.map_values(|u: User| u@),
            next_user_id: self.next_user_id,
            records: self.records@.map_values(|r: FileRecord| r@),
            blobs: self.blobs@.map_values(|b: SharedBlob| b@),
        }
    }

    closed spec fn inv(&self) -> bool {
        db_wf(self.db())
    }

    proof fn inv_implies_wf(&self) {
    }

    fn find_blob(&self, file_hash: &str) -> (r: Option<SharedBlob>) {
        match self.find_blob_idx(file_hash) {
            Some(i) => Some(self.blobs[i].clone()),
            None => None,
        }
    }

    fn save_user(&mut self, user: &User, now: u32) -> (r: Result<(), StorageError>) {
        if self.next_user_id == u32::MAX {
            return Err(StorageError::IoFailure);
        }
        let stored = User {
            id: self.next_user_id,
            username: user.username.clone(),
            password: user.password.clone(),
            phone_number: user.phone_number.clone(),
            email: user.email.clone(),
            create_time: now,
        };
        let ghost d0 = self.db();
        proof {
            self.inv_implies_wf();
        }
        self.users.push(stored);
        self.next_user_id += 1;
        proof {
            let d1 = self.db();
            assert(d1.users =~= d0.users.push(stored@));
            assert(d1 =~= save_user_spec(d0, user@, now).0);
            assert forall|i: int| 0 <= i < d1.users.len() implies (#[trigger] d1.users[i]).id
                < d1.next_user_id by {
                if i < d0.users.len() {
                    assert(d1.users[i] == d0.users[i]);
                }
            }
            assert(d1.records == d0.records);
            assert(d1.blobs == d0.blobs);
            assert(db_wf(d1));
        }
        Ok(())
    }

    fn query_user(&self, username: &str, password: &str) -> (r: Option<User>) {
        let uname = username.to_owned();
        let pword = password.to_owned();
        let ghost us = self.db().users;
        let mut k: usize = 0;
        proof {
            assert(us.skip(0) =~= us);
        }
        while k < self.users.len()
            invariant
                k <= self.users.len(),
                uname@ == username@,
                pword@ == password@,
                us == self.db().users,
                us.len() == self.users.len(),
                first_user_match(us.skip(k as int), username@, password@) == first_user_match(
                    us,
                    username@,
                    password@,
                ),
            decreases self.users.len() - k,
        {
            proof {
                assert(us.skip(k as int)[0] == us[k as int]);
                assert(us.skip(k as int).drop_first() =~= us.skip(k as int + 1));
            }
            if self.users[k].username == uname && self.users[k].password == pword {
                return Some(self.users[k].clone());
            }
            k += 1;
        }
        None
    }

    fn find_record_by_hash(&self, user_id: u32, file_hash: &str) -> (r: Option<FileRecord>) {
        let target = file_hash.to_owned();
        let ghost rs = self.db().records;
        let mut k: usize = 0;
        proof {
            assert(rs.skip(0) =~= rs);
        }
        while k < self.records.len()
            invariant
                k <= self.records.len(),
                target@ == file_hash@,
                rs == self.db().records,
                rs.len() == self.records.len(),
                crate::database::first_record_match(rs.skip(k as int), user_id, file_hash@)
                    == crate::database::first_record_match(rs, user_id, file_hash@),
            decreases self.records.len() - k,
        {
            proof {
                assert(rs.skip(k as int)[0] == rs[k as int]);
                assert(rs.skip(k as int).drop_first() =~= rs.skip(k as int + 1));
            }
            if self.records[k].user_id == user_id && self.records[k].file_hash == target {
                return Some(self.records[k].clone());
            }
            k += 1;
        }
        None
    }

    fn query_file_info(&self, user_id: u32, file_dir: &str, file_name: &str) -> (r: Option<
        SyncFileInfo,
    >) {
        let ri = match self.find_record_idx(user_id, file_dir, file_name) {
            Some(ri) => ri,
            None => {
                return None;
            },
        };
        let bi = match self.find_blob_idx(self.records[ri].file_hash.as_str()) {
            Some(bi) => bi,
            None => {
                // Unreachable when the invariant holds: every record's hash
                // has a blob.
                return None;
            },
        };
        let rec = &self.records[ri];
        let blob = &self.blobs[bi];
        Some(
            SyncFileInfo {
                file_hash: rec.file_hash.clone(),
                sync_size: blob.sync_size,
                file_size: blob.file_size,
                file_name: rec.file_name.clone(),
                file_dir: rec.file_dir.clone(),
                file_meta: rec.file_meta.clone(),
            },
        )
    }

    fn save_file_info(&mut self, user_id: u32, file_info: &SyncFileInfo, now: u32) -> (r: Result<
        (),
        StorageError,
    >) {
        let ghost d0 = self.db();
        if let Some(ri) = self.find_record_idx(
            user_id,
            file_info.file_dir.as_str(),
            file_info.file_name.as_str(),
        ) {
            if self.records[ri].file_hash == file_info.file_hash {
                return Ok(());
            } else {
                return Err(StorageError::ConstraintViolation);
            }
        }
        let rec = FileRecord {
            user_id: user_id,
            file_hash: file_info.file_hash.clone(),
            file_dir: file_info.file_dir.clone(),
            file_name: file_info.file_name.clone(),
            file_meta: file_info.file_meta.clone(),
            file_create_time: now,
            record_create_time: now,
        };
        match self.find_blob_idx(file_info.file_hash.as_str()) {
            Some(bi) => {
                if self.blobs[bi].ref_count == u64::MAX {
                    return Err(StorageError::IoFailure);
                }
                let mut b = self.blobs.remove(bi);
                b.ref_count += 1;
                self.blobs.insert(bi, b);
                self.records.push(rec);
                proof {
                    let d1 = self.db();
                    let target = save_file_info_spec(d0, user_id, file_info@, now).0;
                    assert(d1.blobs =~= target.blobs);
                    assert(d1.records =~= target.records);
                    assert(d1 =~= target);
                    crate::database::lemma_save_file_info_wf(d0, user_id, file_info@, now);
                }
                Ok(())
            },
            None => {
                let blob = SharedBlob {
                    file_hash: file_info.file_hash.clone(),
                    ref_count: 1,
                    file_size: file_info.file_size,
                    sync_size: 0,
                    sync_completed: file_info.file_size == 0,
                    create_time: now,
                };
                self.blobs.push(blob);
                self.records.push(rec);
                proof {
                    let d1 = self.db();
                    let target = save_file_info_spec(d0, user_id, file_info@, now).0;
                    assert(d1.blobs =~= target.blobs);
                    assert(d1.records =~= target.records);
                    assert(d1 =~= target);
                    crate::database::lemma_save_file_info_wf(d0, user_id, file_info@, now);
                }
                Ok(())
            },
        }
    }

    fn delete_file_info(&mut self, user_id: u32, file_info: &SyncFileInfo) -> (r: Result<
        bool,
        StorageError,
    >) {
        let ghost d0 = self.db();
        let ri = match self.find_record_idx(
            user_id,
            file_info.file_dir.as_str(),
            file_info.file_name.as_str(),
        ) {
            Some(ri) => ri,
            None => {
                return Err(StorageError::NotFound);
            },
        };
        let bi_found = self.find_blob_idx(self.records[ri].file_hash.as_str());
        let removed = self.records.remove(ri);
        match bi_found {
            Some(bi) => {
                proof {
                    lemma_hash_count_member(d0.records, ri as int);
                    lemma_hash_count_remove(d0.records, ri as int, removed@.file_hash);
                }
                if self.blobs[bi].ref_count <= 1 {
                    self.blobs.remove(bi);
                    proof {
                        let d1 = self.db();
                        let target = delete_file_info_spec(
                            d0,
                            user_id,
                            file_info.file_dir@,
                            file_info.file_name@,
                        ).0;
                        assert(d1.blobs =~= target.blobs);
                        assert(d1.records =~= target.records);
                        assert(d1 =~= target);
                        crate::database::lemma_delete_file_info_wf(
                            d0,
                            user_id,
                            file_info.file_dir@,
                            file_info.file_name@,
                        );
                    }
                    Ok(true)
                } else {
                    let mut b = self.blobs.remove(bi);
                    b.ref_count -= 1;
                    self.blobs.insert(bi, b);
                    proof {
                        let d1 = self.db();
                        let target = delete_file_info_spec(
                            d0,
                            user_id,
                            file_info.file_dir@,
                            file_info.file_name@,
                        ).0;
                        assert(d1.blobs =~= target.blobs);
                        assert(d1.records =~= target.records);
                        assert(d1 =~= target);
                        crate::database::lemma_delete_file_info_wf(
                            d0,
                            user_id,
                            file_info.file_dir@,
                            file_info.file_name@,
                        );
                    }
                    Ok(false)
                }
            },
            None => {
                // Unreachable when the invariant holds.
                proof {
                    let d1 = self.db();
                    let target = delete_file_info_spec(
                        d0,
                        user_id,
                        file_info.file_dir@,
                        file_info.file_name@,
                    ).0;
                    assert(d1.records =~= target.records);
                    assert(d1 =~= target);
                    assert(false);
                }
                Ok(false)
            },
        }
    }

    fn update_sync_size(&mut self, file_info: &SyncFileInfo) -> (r: Result<(), StorageError>) {
        let ghost d0 = self.db();
        let bi = match self.find_blob_idx(file_info.file_hash.as_str()) {
            Some(bi) => bi,
            None => {
                return Err(StorageError::NotFound);
            },
        };
        let mut b = self.blobs.remove(bi);
        let n = file_info.sync_size;
        b.sync_size = if n >= b.file_size {
            b.file_size
        } else {
            n
        };
        b.sync_completed = n >= b.file_size;
        self.blobs.insert(bi, b);
        proof {
            let d1 = self.db();
            let target = update_sync_size_spec(d0, file_info.file_hash@, file_info.sync_size).0;
            assert(d1.blobs =~= target.blobs);
            assert(d1 =~= target);
            crate::database::lemma_update_sync_size_wf(d0, file_info.file_hash@, file_info.sync_size);
        }
        Ok(())
    }
}

} // verus!
