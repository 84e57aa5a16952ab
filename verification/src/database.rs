//! The metadata store: per-path file records and per-hash shared blobs with
//! reference counts, behind the [`Database`] interface.
//!
//! The abstract state is a [`DbModel`].  Every operation of the interface is
//! specified as a function from the old model to the new model and the
//! returned value, so that facts about sequences of operations can be stated
//! and proved once, over the model alone.

use vstd::prelude::*;

use crate::entity::{SyncFileInfo, SyncFileInfoView, User, UserView};
use crate::errors::StorageError;

verus! {

/// One logical file of one owner: a mapping from `(user_id, file_dir,
/// file_name)` to the content hash, unique on that key.
#[derive(Debug, PartialEq)]
pub struct FileRecord {
    pub user_id: u32,
    pub file_hash: String,
    pub file_dir: String,
    pub file_name: String,
    pub file_meta: String,
    pub file_create_time: u32,
    pub record_create_time: u32,
}

/// Abstract view of a [`FileRecord`].
pub ghost struct FileRecordView {
    pub user_id: u32,
    pub file_hash: Seq<char>,
    pub file_dir: Seq<char>,
    pub file_name: Seq<char>,
    pub file_meta: Seq<char>,
    pub file_create_time: u32,
    pub record_create_time: u32,
}

impl View for FileRecord {
    type V = FileRecordView;

    open spec fn view(&self) -> FileRecordView {
        FileRecordView {
            user_id: self.user_id,
            file_hash: self.file_hash@,
            file_dir: self.file_dir@,
            file_name: self.file_name@,
            file_meta: self.file_meta@,
            file_create_time: self.file_create_time,
            record_create_time: self.record_create_time,
        }
    }
}

impl Clone for FileRecord {
    fn clone(&self) -> (r: Self)
        ensures
            r == *self,
    {
        FileRecord {
            user_id: self.user_id,
            file_hash: self.file_hash.clone(),
            file_dir: self.file_dir.clone(),
            file_name: self.file_name.clone(),
            file_meta: self.file_meta.clone(),
            file_create_time: self.file_create_time,
            record_create_time: self.record_create_time,
        }
    }
}

/// Sync progress of one distinct content hash, shared by every
/// [`FileRecord`] pointing at it.  The bytes themselves are stored once,
/// in the blob store.
#[derive(Debug, PartialEq)]
pub struct SharedBlob {
    pub file_hash: String,
    pub ref_count: u64,
    pub file_size: usize,
    pub sync_size: usize,
    pub sync_completed: bool,
    pub create_time: u32,
}

/// Abstract view of a [`SharedBlob`].
pub ghost struct SharedBlobView {
    pub file_hash: Seq<char>,
    pub ref_count: u64,
    pub file_size: usize,
    pub sync_size: usize,
    pub sync_completed: bool,
    pub create_time: u32,
}

impl View for SharedBlob {
    type V = SharedBlobView;

    open spec fn view(&self) -> SharedBlobView {
        SharedBlobView {
            file_hash: self.file_hash@,
            ref_count: self.ref_count,
            file_size: self.file_size,
            sync_size: self.sync_size,
            sync_completed: self.sync_completed,
            create_time: self.create_time,
        }
    }
}

impl Clone for SharedBlob {
    fn clone(&self) -> (r: Self)
        ensures
            r == *self,
    {
        SharedBlob {
            file_hash: self.file_hash.clone(),
            ref_count: self.ref_count,
            file_size: self.file_size,
            sync_size: self.sync_size,
            sync_completed: self.sync_completed,
            create_time: self.create_time,
        }
    }
}

/// Abstract state of the metadata store.
#[verifier::ext_equal]
pub ghost struct DbModel {
    pub users: Seq<UserView>,
    pub next_user_id: u32,
    pub records: Seq<FileRecordView>,
    pub blobs: Seq<SharedBlobView>,
}

/// Whether `r` is the record of `(user_id, file_dir, file_name)`.
pub open spec fn rec_key_is(
    r: FileRecordView,
    user_id: u32,
    file_dir: Seq<char>,
    file_name: Seq<char>,
) -> bool {
    r.user_id == user_id && r.file_dir == file_dir && r.file_name == file_name
}

/// Whether two records share one `(user_id, file_dir, file_name)` key.
pub open spec fn same_key(a: FileRecordView, b: FileRecordView) -> bool {
    a.user_id == b.user_id && a.file_dir == b.file_dir && a.file_name == b.file_name
}

pub open spec fn record_exists(
    db: DbModel,
    user_id: u32,
    file_dir: Seq<char>,
    file_name: Seq<char>,
) -> bool {
    exists|i: int|
        0 <= i < db.records.len() && rec_key_is(#[trigger] db.records[i], user_id, file_dir, file_name)
}

pub open spec fn record_index(
    db: DbModel,
    user_id: u32,
    file_dir: Seq<char>,
    file_name: Seq<char>,
) -> int {
    choose|i: int|
        0 <= i < db.records.len() && rec_key_is(#[trigger] db.records[i], user_id, file_dir, file_name)
}

pub open spec fn record_at(
    db: DbModel,
    user_id: u32,
    file_dir: Seq<char>,
    file_name: Seq<char>,
) -> FileRecordView {
    db.records[record_index(db, user_id, file_dir, file_name)]
}

pub open spec fn blob_exists(db: DbModel, file_hash: Seq<char>) -> bool {
    exists|i: int| 0 <= i < db.blobs.len() && (#[trigger] db.blobs[i]).file_hash == file_hash
}

pub open spec fn blob_index(db: DbModel, file_hash: Seq<char>) -> int {
    choose|i: int| 0 <= i < db.blobs.len() && (#[trigger] db.blobs[i]).file_hash == file_hash
}

pub open spec fn blob_at(db: DbModel, file_hash: Seq<char>) -> SharedBlobView {
    db.blobs[blob_index(db, file_hash)]
}

/// How many records point at `file_hash`: the count that every blob's
/// `ref_count` must equal.
pub open spec fn hash_count(records: Seq<FileRecordView>, file_hash: Seq<char>) -> nat
    decreases records.len(),
{
    if records.len() == 0 {
        0
    } else {
        hash_count(records.drop_last(), file_hash) + if records.last().file_hash == file_hash {
            1nat
        } else {
            0nat
        }
    }
}

/// Well-formedness of the metadata store:
/// record keys and blob hashes are unique, every record's hash has a blob,
/// each blob's `ref_count` equals the number of records pointing at it,
/// `sync_size` never exceeds `file_size`, `sync_completed` is derived from
/// them, and user ids stay below the allocator's next id.
pub open spec fn db_wf(db: DbModel) -> bool {
    &&& forall|i: int, j: int|
        0 <= i < j < db.records.len() ==> !same_key(
            #[trigger] db.records[i],
            #[trigger] db.records[j],
        )
    &&& forall|i: int, j: int|
        0 <= i < j < db.blobs.len() ==> (#[trigger] db.blobs[i]).file_hash != (
        #[trigger] db.blobs[j]).file_hash
    &&& forall|i: int|
        0 <= i < db.records.len() ==> blob_exists(db, (#[trigger] db.records[i]).file_hash)
    &&& forall|i: int|
        0 <= i < db.blobs.len() ==> (#[trigger] db.blobs[i]).ref_count == hash_count(
            db.records,
            db.blobs[i].file_hash,
        )
    &&& forall|i: int|
        0 <= i < db.blobs.len() ==> (#[trigger] db.blobs[i]).sync_size <= db.blobs[i].file_size
    &&& forall|i: int|
        0 <= i < db.blobs.len() ==> (#[trigger] db.blobs[i]).sync_completed == (
        db.blobs[i].sync_size >= db.blobs[i].file_size)
    &&& forall|i: int| 0 <= i < db.users.len() ==> (#[trigger] db.users[i]).id < db.next_user_id
}

/// The empty store.
pub open spec fn db_empty() -> DbModel {
    DbModel {
        users: Seq::empty(),
        next_user_id: 1,
        records: Seq::empty(),
        blobs: Seq::empty(),
    }
}

/// What a blob looks like when its hash is first seen: one reference and no
/// bytes synced yet.
pub open spec fn fresh_blob(file_hash: Seq<char>, file_size: usize, now: u32) -> SharedBlobView {
    SharedBlobView {
        file_hash: file_hash,
        ref_count: 1,
        file_size: file_size,
        sync_size: 0,
        sync_completed: file_size == 0,
        create_time: now,
    }
}

/// The record created for `(user_id, info.file_dir, info.file_name)`.
pub open spec fn fresh_record(user_id: u32, info: SyncFileInfoView, now: u32) -> FileRecordView {
    FileRecordView {
        user_id: user_id,
        file_hash: info.file_hash,
        file_dir: info.file_dir,
        file_name: info.file_name,
        file_meta: info.file_meta,
        file_create_time: now,
        record_create_time: now,
    }
}

/// What [`Database::save_file_info`] does: the atomic unit of record upsert
/// and reference-count bump.
///
/// A key that is already mapped to the same hash is a no-op (idempotent
/// retry); mapped to another hash, it is a `ConstraintViolation`.  A new key
/// on a known hash bumps that blob's `ref_count`; on an unknown hash it
/// creates the blob with `ref_count` 1 and no bytes synced.
pub open spec fn save_file_info_spec(
    db: DbModel,
    user_id: u32,
    info: SyncFileInfoView,
    now: u32,
) -> (DbModel, Result<(), StorageError>) {
    if record_exists(db, user_id, info.file_dir, info.file_name) {
        if record_at(db, user_id, info.file_dir, info.file_name).file_hash == info.file_hash {
            (db, Ok(()))
        } else {
            (db, Err(StorageError::ConstraintViolation))
        }
    } else if blob_exists(db, info.file_hash) {
        if blob_at(db, info.file_hash).ref_count == u64::MAX {
            (db, Err(StorageError::IoFailure))
        } else {
            let i = blob_index(db, info.file_hash);
            let b = db.blobs[i];
            let bumped = SharedBlobView {
                file_hash: b.file_hash,
                ref_count: (b.ref_count + 1) as u64,
                file_size: b.file_size,
                sync_size: b.sync_size,
                sync_completed: b.sync_completed,
                create_time: b.create_time,
            };
            (
                DbModel {
                    users: db.users,
                    next_user_id: db.next_user_id,
                    records: db.records.push(fresh_record(user_id, info, now)),
                    blobs: db.blobs.update(i, bumped),
                },
                Ok(()),
            )
        }
    } else {
        (
            DbModel {
                users: db.users,
                next_user_id: db.next_user_id,
                records: db.records.push(fresh_record(user_id, info, now)),
                blobs: db.blobs.push(fresh_blob(info.file_hash, info.file_size, now)),
            },
            Ok(()),
        )
    }
}

/// `n` clamped to the blob's declared size: the store never persists a
/// progress value beyond it.
pub open spec fn clamped(n: usize, file_size: usize) -> usize {
    if n >= file_size {
        file_size
    } else {
        n
    }
}

/// What [`Database::update_sync_size`] does: persist the progress of
/// `file_hash` as `n` clamped to the declared size, deriving
/// `sync_completed`.
pub open spec fn update_sync_size_spec(db: DbModel, file_hash: Seq<char>, n: usize) -> (
    DbModel,
    Result<(), StorageError>,
) {
    if !blob_exists(db, file_hash) {
        (db, Err(StorageError::NotFound))
    } else {
        let i = blob_index(db, file_hash);
        let b = db.blobs[i];
        let updated = SharedBlobView {
            file_hash: b.file_hash,
            ref_count: b.ref_count,
            file_size: b.file_size,
            sync_size: clamped(n, b.file_size),
            sync_completed: n >= b.file_size,
            create_time: b.create_time,
        };
        (
            DbModel {
                users: db.users,
                next_user_id: db.next_user_id,
                records: db.records,
                blobs: db.blobs.update(i, updated),
            },
            Ok(()),
        )
    }
}

/// What [`Database::delete_file_info`] does: the atomic unit of record
/// removal and reference-count decrement.  Returns `Ok(true)` exactly when
/// the last reference went away and the blob row was dropped, so the caller
/// must remove the bytes.
pub open spec fn delete_file_info_spec(
    db: DbModel,
    user_id: u32,
    file_dir: Seq<char>,
    file_name: Seq<char>,
) -> (DbModel, Result<bool, StorageError>) {
    if !record_exists(db, user_id, file_dir, file_name) {
        (db, Err(StorageError::NotFound))
    } else {
        let ri = record_index(db, user_id, file_dir, file_name);
        let h = db.records[ri].file_hash;
        let records = db.records.remove(ri);
        if blob_exists(db, h) {
            let bi = blob_index(db, h);
            let b = db.blobs[bi];
            if b.ref_count <= 1 {
                (
                    DbModel {
                        users: db.users,
                        next_user_id: db.next_user_id,
                        records: records,
                        blobs: db.blobs.remove(bi),
                    },
                    Ok(true),
                )
            } else {
                let decremented = SharedBlobView {
                    file_hash: b.file_hash,
                    ref_count: (b.ref_count - 1) as u64,
                    file_size: b.file_size,
                    sync_size: b.sync_size,
                    sync_completed: b.sync_completed,
                    create_time: b.create_time,
                };
                (
                    DbModel {
                        users: db.users,
                        next_user_id: db.next_user_id,
                        records: records,
                        blobs: db.blobs.update(bi, decremented),
                    },
                    Ok(false),
                )
            }
        } else {
            (
                DbModel {
                    users: db.users,
                    next_user_id: db.next_user_id,
                    records: records,
                    blobs: db.blobs,
                },
                Ok(false),
            )
        }
    }
}

/// What [`Database::save_user`] does: append the account under a fresh id.
pub open spec fn save_user_spec(db: DbModel, user: UserView, now: u32) -> (
    DbModel,
    Result<(), StorageError>,
) {
    if db.next_user_id == u32::MAX {
        (db, Err(StorageError::IoFailure))
    } else {
        let stored = UserView {
            id: db.next_user_id,
            username: user.username,
            password: user.password,
            phone_number: user.phone_number,
            email: user.email,
            create_time: now,
        };
        (
            DbModel {
                users: db.users.push(stored),
                next_user_id: (db.next_user_id + 1) as u32,
                records: db.records,
                blobs: db.blobs,
            },
            Ok(()),
        )
    }
}

/// The first account matching the credentials, in insertion order.
pub open spec fn first_user_match(
    users: Seq<UserView>,
    username: Seq<char>,
    password: Seq<char>,
) -> Option<UserView>
    decreases users.len(),
{
    if users.len() == 0 {
        None
    } else if users[0].username == username && users[0].password == password {
        Some(users[0])
    } else {
        first_user_match(users.drop_first(), username, password)
    }
}

/// Appending an account that matches the credentials makes the lookup
/// succeed.
pub proof fn lemma_first_match_push(
    users: Seq<UserView>,
    u: UserView,
    username: Seq<char>,
    password: Seq<char>,
)
    requires
        u.username == username,
        u.password == password,
    ensures
        first_user_match(users.push(u), username, password) is Some,
    decreases users.len(),
{
    if users.len() == 0 {
        assert(users.push(u)[0] == u);
    } else {
        assert(users.push(u)[0] == users[0]);
        if users[0].username == username && users[0].password == password {
        } else {
            assert(users.push(u).drop_first() =~= users.drop_first().push(u));
            lemma_first_match_push(users.drop_first(), u, username, password);
        }
    }
}

/// What [`Database::query_user`] returns.
pub open spec fn query_user_spec(
    db: DbModel,
    username: Seq<char>,
    password: Seq<char>,
) -> Option<UserView> {
    first_user_match(db.users, username, password)
}

/// The first record of `user_id` pointing at `file_hash`, in insertion
/// order: the mapping a `Delete` of that hash removes.
pub open spec fn first_record_match(
    records: Seq<FileRecordView>,
    user_id: u32,
    file_hash: Seq<char>,
) -> Option<FileRecordView>
    decreases records.len(),
{
    if records.len() == 0 {
        None
    } else if records[0].user_id == user_id && records[0].file_hash == file_hash {
        Some(records[0])
    } else {
        first_record_match(records.drop_first(), user_id, file_hash)
    }
}

/// A found first match is a member of the sequence.
pub proof fn lemma_first_record_match_member(
    records: Seq<FileRecordView>,
    user_id: u32,
    file_hash: Seq<char>,
)
    requires
        first_record_match(records, user_id, file_hash) is Some,
    ensures
        exists|i: int|
            0 <= i < records.len() && #[trigger] records[i] == first_record_match(
                records,
                user_id,
                file_hash,
            ).unwrap() && records[i].user_id == user_id && records[i].file_hash == file_hash,
    decreases records.len(),
{
    if records[0].user_id == user_id && records[0].file_hash == file_hash {
        assert(records[0] == first_record_match(records, user_id, file_hash).unwrap());
    } else {
        lemma_first_record_match_member(records.drop_first(), user_id, file_hash);
        let j = choose|j: int|
            0 <= j < records.drop_first().len() && #[trigger] records.drop_first()[j]
                == first_record_match(records.drop_first(), user_id, file_hash).unwrap()
                && records.drop_first()[j].user_id == user_id
                && records.drop_first()[j].file_hash == file_hash;
        assert(records[j + 1] == records.drop_first()[j]);
    }
}

/// What [`Database::query_file_info`] returns: the record of the key joined
/// with the progress of its blob.
pub open spec fn query_file_info_spec(
    db: DbModel,
    user_id: u32,
    file_dir: Seq<char>,
    file_name: Seq<char>,
) -> Option<SyncFileInfoView> {
    if record_exists(db, user_id, file_dir, file_name) && blob_exists(
        db,
        record_at(db, user_id, file_dir, file_name).file_hash,
    ) {
        let r = record_at(db, user_id, file_dir, file_name);
        let b = blob_at(db, r.file_hash);
        Some(
            SyncFileInfoView {
                file_hash: r.file_hash,
                sync_size: b.sync_size,
                file_size: b.file_size,
                file_name: r.file_name,
                file_dir: r.file_dir,
                file_meta: r.file_meta,
            },
        )
    } else {
        None
    }
}

/// Appending a record raises the count of its hash by one and leaves every
/// other count unchanged.
pub proof fn lemma_hash_count_push(s: Seq<FileRecordView>, r: FileRecordView, h: Seq<char>)
    ensures
        hash_count(s.push(r), h) == hash_count(s, h) + if r.file_hash == h {
            1nat
        } else {
            0nat
        },
{
    assert(s.push(r).drop_last() =~= s);
    assert(s.push(r).last() == r);
}

/// Removing the record at `i` lowers the count of its hash by one and leaves
/// every other count unchanged.
pub proof fn lemma_hash_count_remove(s: Seq<FileRecordView>, i: int, h: Seq<char>)
    requires
        0 <= i < s.len(),
    ensures
        hash_count(s, h) == hash_count(s.remove(i), h) + if s[i].file_hash == h {
            1nat
        } else {
            0nat
        },
    decreases s.len(),
{
    if i == s.len() - 1 {
        assert(s.remove(i) =~= s.drop_last());
    } else {
        assert(s.remove(i).drop_last() =~= s.drop_last().remove(i));
        assert(s.remove(i).last() == s.last());
        lemma_hash_count_remove(s.drop_last(), i, h);
        assert(s.drop_last()[i] == s[i]);
    }
}

/// A hash with a record has a positive count.
pub proof fn lemma_hash_count_member(s: Seq<FileRecordView>, i: int)
    requires
        0 <= i < s.len(),
    ensures
        hash_count(s, s[i].file_hash) >= 1,
    decreases s.len(),
{
    if i == s.len() - 1 {
    } else {
        lemma_hash_count_member(s.drop_last(), i);
        assert(s.drop_last()[i] == s[i]);
    }
}

/// A hash counts zero exactly when no record points at it.
pub proof fn lemma_hash_count_zero_iff(s: Seq<FileRecordView>, h: Seq<char>)
    ensures
        (hash_count(s, h) == 0) <==> (forall|i: int|
            0 <= i < s.len() ==> (#[trigger] s[i]).file_hash != h),
{
    if hash_count(s, h) == 0 {
        assert forall|i: int| 0 <= i < s.len() implies (#[trigger] s[i]).file_hash != h by {
            if s[i].file_hash == h {
                lemma_hash_count_member(s, i);
            }
        }
    }
    if forall|i: int| 0 <= i < s.len() ==> (#[trigger] s[i]).file_hash != h {
        lemma_hash_count_none(s, h);
    }
}

proof fn lemma_hash_count_none(s: Seq<FileRecordView>, h: Seq<char>)
    requires
        forall|i: int| 0 <= i < s.len() ==> (#[trigger] s[i]).file_hash != h,
    ensures
        hash_count(s, h) == 0,
    decreases s.len(),
{
    if s.len() > 0 {
        assert(forall|i: int|
            0 <= i < s.drop_last().len() ==> (#[trigger] s.drop_last()[i]) == s[i]);
        lemma_hash_count_none(s.drop_last(), h);
        assert(s.last() == s[s.len() - 1]);
    }
}

/// Under well-formedness, the index of a record key is the one the key is
/// found at: lookups are unambiguous.
pub proof fn lemma_record_index_unique(
    db: DbModel,
    i: int,
    user_id: u32,
    file_dir: Seq<char>,
    file_name: Seq<char>,
)
    requires
        db_wf(db),
        0 <= i < db.records.len(),
        rec_key_is(db.records[i], user_id, file_dir, file_name),
    ensures
        record_exists(db, user_id, file_dir, file_name),
        record_index(db, user_id, file_dir, file_name) == i,
        record_at(db, user_id, file_dir, file_name) == db.records[i],
{
    assert(record_exists(db, user_id, file_dir, file_name));
    let j = record_index(db, user_id, file_dir, file_name);
    if i < j {
        assert(!same_key(db.records[i], db.records[j]));
    } else if j < i {
        assert(!same_key(db.records[j], db.records[i]));
    }
}

/// Under well-formedness, the index of a hash is the one the hash is found
/// at: blob lookups are unambiguous.
pub proof fn lemma_blob_index_unique(db: DbModel, i: int, file_hash: Seq<char>)
    requires
        db_wf(db),
        0 <= i < db.blobs.len(),
        db.blobs[i].file_hash == file_hash,
    ensures
        blob_exists(db, file_hash),
        blob_index(db, file_hash) == i,
        blob_at(db, file_hash) == db.blobs[i],
{
    assert(blob_exists(db, file_hash));
    let j = blob_index(db, file_hash);
    if i < j {
        assert(db.blobs[i].file_hash != db.blobs[j].file_hash);
    } else if j < i {
        assert(db.blobs[j].file_hash != db.blobs[i].file_hash);
    }
}

/// An upsert keeps the store well-formed.
pub proof fn lemma_save_file_info_wf(d0: DbModel, user_id: u32, info: SyncFileInfoView, now: u32)
    requires
        db_wf(d0),
    ensures
        db_wf(save_file_info_spec(d0, user_id, info, now).0),
{
    let d1 = save_file_info_spec(d0, user_id, info, now).0;
    let rec = fresh_record(user_id, info, now);
    if record_exists(d0, user_id, info.file_dir, info.file_name) {
    } else {
        assert forall|a: int, b: int| 0 <= a < b < d1.records.len() implies !same_key(
            #[trigger] d1.records[a],
            #[trigger] d1.records[b],
        ) by {
            if b == d1.records.len() - 1 {
                assert(d1.records[a] == d0.records[a]);
            }
        }
        if blob_exists(d0, info.file_hash) {
            if blob_at(d0, info.file_hash).ref_count == u64::MAX {
            } else {
                let i = blob_index(d0, info.file_hash);
                assert forall|a: int| 0 <= a < d1.records.len() implies blob_exists(
                    d1,
                    (#[trigger] d1.records[a]).file_hash,
                ) by {
                    if a < d0.records.len() {
                        let w = blob_index(d0, d0.records[a].file_hash);
                        assert(d1.blobs[w].file_hash == d0.records[a].file_hash);
                    } else {
                        assert(d1.blobs[i].file_hash == info.file_hash);
                    }
                }
                assert forall|a: int| 0 <= a < d1.blobs.len() implies (#[trigger] d1.blobs[a]).ref_count
                    == hash_count(d1.records, d1.blobs[a].file_hash) by {
                    lemma_hash_count_push(d0.records, rec, d1.blobs[a].file_hash);
                    if a != i {
                        if a < i {
                            assert(d0.blobs[a].file_hash != d0.blobs[i].file_hash);
                        } else {
                            assert(d0.blobs[i].file_hash != d0.blobs[a].file_hash);
                        }
                    }
                }
            }
        } else {
            let ni = d0.blobs.len() as int;
            assert forall|a: int| 0 <= a < d1.records.len() implies blob_exists(
                d1,
                (#[trigger] d1.records[a]).file_hash,
            ) by {
                if a < d0.records.len() {
                    let w = blob_index(d0, d0.records[a].file_hash);
                    assert(d1.blobs[w].file_hash == d0.records[a].file_hash);
                } else {
                    assert(d1.blobs[ni].file_hash == info.file_hash);
                }
            }
            assert forall|a: int| 0 <= a < d1.blobs.len() implies (#[trigger] d1.blobs[a]).ref_count
                == hash_count(d1.records, d1.blobs[a].file_hash) by {
                lemma_hash_count_push(d0.records, rec, d1.blobs[a].file_hash);
                if a == ni {
                    lemma_hash_count_zero_iff(d0.records, info.file_hash);
                }
            }
        }
    }
}

/// A deletion keeps the store well-formed.
pub proof fn lemma_delete_file_info_wf(
    d0: DbModel,
    user_id: u32,
    file_dir: Seq<char>,
    file_name: Seq<char>,
)
    requires
        db_wf(d0),
    ensures
        db_wf(delete_file_info_spec(d0, user_id, file_dir, file_name).0),
{
    if !record_exists(d0, user_id, file_dir, file_name) {
        return ;
    }
    let d1 = delete_file_info_spec(d0, user_id, file_dir, file_name).0;
    let ri = record_index(d0, user_id, file_dir, file_name);
    let h = d0.records[ri].file_hash;
    assert(blob_exists(d0, h));
    let bi = blob_index(d0, h);
    lemma_hash_count_member(d0.records, ri);
    lemma_hash_count_remove(d0.records, ri, h);
    if d0.blobs[bi].ref_count <= 1 {
        lemma_hash_count_zero_iff(d1.records, h);
        assert forall|a: int| 0 <= a < d1.records.len() implies blob_exists(
            d1,
            (#[trigger] d1.records[a]).file_hash,
        ) by {
            let a0 = if a < ri {
                a
            } else {
                a + 1
            };
            assert(d1.records[a] == d0.records[a0]);
            let w0 = blob_index(d0, d0.records[a0].file_hash);
            assert(d0.records[a0].file_hash != h);
            assert(w0 != bi);
            let w1 = if w0 < bi {
                w0
            } else {
                w0 - 1
            };
            assert(d1.blobs[w1] == d0.blobs[w0]);
        }
        assert forall|a: int| 0 <= a < d1.blobs.len() implies (#[trigger] d1.blobs[a]).ref_count
            == hash_count(d1.records, d1.blobs[a].file_hash) by {
            let a0 = if a < bi {
                a
            } else {
                a + 1
            };
            assert(d1.blobs[a] == d0.blobs[a0]);
            lemma_hash_count_remove(d0.records, ri, d0.blobs[a0].file_hash);
            if d0.blobs[a0].file_hash == h {
                if a0 < bi {
                    assert(d0.blobs[a0].file_hash != d0.blobs[bi].file_hash);
                } else {
                    assert(d0.blobs[bi].file_hash != d0.blobs[a0].file_hash);
                }
            }
        }
    } else {
        assert forall|a: int| 0 <= a < d1.records.len() implies blob_exists(
            d1,
            (#[trigger] d1.records[a]).file_hash,
        ) by {
            let a0 = if a < ri {
                a
            } else {
                a + 1
            };
            assert(d1.records[a] == d0.records[a0]);
            let w = blob_index(d0, d0.records[a0].file_hash);
            assert(d1.blobs[w].file_hash == d0.records[a0].file_hash);
        }
        assert forall|a: int| 0 <= a < d1.blobs.len() implies (#[trigger] d1.blobs[a]).ref_count
            == hash_count(d1.records, d1.blobs[a].file_hash) by {
            lemma_hash_count_remove(d0.records, ri, d0.blobs[a].file_hash);
            if a != bi {
                if a < bi {
                    assert(d0.blobs[a].file_hash != d0.blobs[bi].file_hash);
                } else {
                    assert(d0.blobs[bi].file_hash != d0.blobs[a].file_hash);
                }
            }
        }
    }
}

/// Persisting progress keeps the store well-formed.
pub proof fn lemma_update_sync_size_wf(d0: DbModel, file_hash: Seq<char>, n: usize)
    requires
        db_wf(d0),
    ensures
        db_wf(update_sync_size_spec(d0, file_hash, n).0),
{
    if !blob_exists(d0, file_hash) {
        return ;
    }
    let d1 = update_sync_size_spec(d0, file_hash, n).0;
    let i = blob_index(d0, file_hash);
    assert forall|a: int| 0 <= a < d1.records.len() implies blob_exists(
        d1,
        (#[trigger] d1.records[a]).file_hash,
    ) by {
        let w = blob_index(d0, d0.records[a].file_hash);
        assert(d1.blobs[w].file_hash == d0.records[a].file_hash);
    }
}

/// How a successful upsert shows through blob lookups: the upserted hash has
/// a blob afterwards, sizes and progress of every blob are untouched, and no
/// blob appears or disappears except the fresh one.
pub proof fn lemma_save_blob_effect(
    d0: DbModel,
    user_id: u32,
    info: SyncFileInfoView,
    now: u32,
    h: Seq<char>,
)
    requires
        db_wf(d0),
        save_file_info_spec(d0, user_id, info, now).1 is Ok,
        db_wf(save_file_info_spec(d0, user_id, info, now).0),
    ensures
        ({
            let d1 = save_file_info_spec(d0, user_id, info, now).0;
            &&& blob_exists(d1, info.file_hash)
            &&& (blob_exists(d1, h) <==> (blob_exists(d0, h) || h == info.file_hash))
            &&& (blob_exists(d0, h) ==> {
                let b0 = blob_at(d0, h);
                let b1 = blob_at(d1, h);
                b1.file_hash == b0.file_hash && b1.file_size == b0.file_size && b1.sync_size
                    == b0.sync_size && b1.sync_completed == b0.sync_completed
            })
            &&& ((!blob_exists(d0, info.file_hash) && h == info.file_hash) ==> blob_at(d1, h)
                == fresh_blob(info.file_hash, info.file_size, now))
        }),
{
    let d1 = save_file_info_spec(d0, user_id, info, now).0;
    if record_exists(d0, user_id, info.file_dir, info.file_name) {
        // No-op retry: the key's record already points at this hash, whose
        // blob exists by well-formedness.
        let ri = record_index(d0, user_id, info.file_dir, info.file_name);
        assert(d0.records[ri].file_hash == info.file_hash);
        assert(blob_exists(d0, info.file_hash));
    } else if blob_exists(d0, info.file_hash) {
        let i = blob_index(d0, info.file_hash);
        assert(d1.blobs[i].file_hash == info.file_hash);
        lemma_blob_index_unique(d1, i, info.file_hash);
        if blob_exists(d0, h) {
            let w = blob_index(d0, h);
            assert(d1.blobs[w].file_hash == h);
            lemma_blob_index_unique(d1, w, h);
        }
        if blob_exists(d1, h) {
            let w = blob_index(d1, h);
            assert(d0.blobs[w].file_hash == h);
            lemma_blob_index_unique(d0, w, h);
        }
    } else {
        let ni = d0.blobs.len() as int;
        assert(d1.blobs[ni].file_hash == info.file_hash);
        lemma_blob_index_unique(d1, ni, info.file_hash);
        if blob_exists(d0, h) {
            let w = blob_index(d0, h);
            assert(d1.blobs[w].file_hash == h);
            lemma_blob_index_unique(d1, w, h);
            lemma_blob_index_unique(d0, w, h);
        }
        if blob_exists(d1, h) && h != info.file_hash {
            let w = blob_index(d1, h);
            assert(w != ni);
            assert(d0.blobs[w].file_hash == h);
            lemma_blob_index_unique(d0, w, h);
        }
    }
}

/// How a successful upsert shows through record lookups: afterwards the key
/// is mapped, to the upserted hash.
pub proof fn lemma_save_record_effect(d0: DbModel, user_id: u32, info: SyncFileInfoView, now: u32)
    requires
        db_wf(d0),
        save_file_info_spec(d0, user_id, info, now).1 is Ok,
    ensures
        ({
            let d1 = save_file_info_spec(d0, user_id, info, now).0;
            &&& record_exists(d1, user_id, info.file_dir, info.file_name)
            &&& record_at(d1, user_id, info.file_dir, info.file_name).file_hash == info.file_hash
        }),
{
    let d1 = save_file_info_spec(d0, user_id, info, now).0;
    lemma_save_file_info_wf(d0, user_id, info, now);
    if record_exists(d0, user_id, info.file_dir, info.file_name) {
    } else {
        let ni = d0.records.len() as int;
        assert(d1.records[ni] == fresh_record(user_id, info, now));
        lemma_record_index_unique(d1, ni, user_id, info.file_dir, info.file_name);
    }
}

/// How persisting progress shows through blob lookups: only the addressed
/// blob changes, and only in `sync_size` and `sync_completed`.
pub proof fn lemma_update_blob_effect(d0: DbModel, file_hash: Seq<char>, n: usize, h: Seq<char>)
    requires
        db_wf(d0),
        blob_exists(d0, file_hash),
    ensures
        ({
            let d1 = update_sync_size_spec(d0, file_hash, n).0;
            &&& (blob_exists(d1, h) <==> blob_exists(d0, h))
            &&& (blob_exists(d0, h) && h != file_hash ==> blob_at(d1, h) == blob_at(d0, h))
            &&& blob_at(d1, file_hash) == SharedBlobView {
                sync_size: clamped(n, blob_at(d0, file_hash).file_size),
                sync_completed: n >= blob_at(d0, file_hash).file_size,
                ..blob_at(d0, file_hash)
            }
            &&& d1.records == d0.records
        }),
{
    let d1 = update_sync_size_spec(d0, file_hash, n).0;
    let i = blob_index(d0, file_hash);
    assert(d1.blobs[i].file_hash == file_hash);
    lemma_blob_index_unique_raw(d0, d1, i, file_hash);
    if blob_exists(d0, h) {
        let w = blob_index(d0, h);
        assert(d1.blobs[w].file_hash == h);
        lemma_blob_index_unique_raw(d0, d1, w, h);
    }
    if blob_exists(d1, h) {
        let w = blob_index(d1, h);
        assert(d0.blobs[w].file_hash == h);
        lemma_blob_index_unique(d0, w, h);
    }
}

/// Index identification in a state whose blob hashes match `d0`'s pointwise.
proof fn lemma_blob_index_unique_raw(d0: DbModel, d1: DbModel, i: int, file_hash: Seq<char>)
    requires
        db_wf(d0),
        d1.blobs.len() == d0.blobs.len(),
        forall|k: int|
            0 <= k < d0.blobs.len() ==> (#[trigger] d1.blobs[k]).file_hash
                == d0.blobs[k].file_hash,
        0 <= i < d1.blobs.len(),
        d1.blobs[i].file_hash == file_hash,
    ensures
        blob_exists(d1, file_hash),
        blob_index(d1, file_hash) == i,
        blob_at(d1, file_hash) == d1.blobs[i],
{
    assert(blob_exists(d1, file_hash));
    let j = blob_index(d1, file_hash);
    if i < j {
        assert(d0.blobs[i].file_hash != d0.blobs[j].file_hash);
    } else if j < i {
        assert(d0.blobs[j].file_hash != d0.blobs[i].file_hash);
    }
}

/// How a deletion shows through blob lookups: it succeeds on an existing
/// key, the dropped blob is gone exactly when `Ok(true)`, and every other
/// blob keeps its sizes and progress.
pub proof fn lemma_delete_blob_effect(
    d0: DbModel,
    user_id: u32,
    file_dir: Seq<char>,
    file_name: Seq<char>,
    h: Seq<char>,
)
    requires
        db_wf(d0),
        record_exists(d0, user_id, file_dir, file_name),
    ensures
        ({
            let (d1, res) = delete_file_info_spec(d0, user_id, file_dir, file_name);
            let h0 = record_at(d0, user_id, file_dir, file_name).file_hash;
            &&& res matches Ok(removed) && (removed <==> blob_at(d0, h0).ref_count <= 1)
            &&& (res == Ok::<bool, StorageError>(true) ==> (blob_exists(d1, h) <==> (blob_exists(
                d0,
                h,
            ) && h != h0)))
            &&& (res == Ok::<bool, StorageError>(false) ==> (blob_exists(d1, h) <==> blob_exists(
                d0,
                h,
            )))
            &&& (blob_exists(d1, h) && h != h0 ==> blob_at(d1, h) == blob_at(d0, h))
            &&& (blob_exists(d1, h) && h == h0 ==> blob_at(d1, h) == SharedBlobView {
                ref_count: (blob_at(d0, h).ref_count - 1) as u64,
                ..blob_at(d0, h)
            })
        }),
{
    let (d1, res) = delete_file_info_spec(d0, user_id, file_dir, file_name);
    let ri = record_index(d0, user_id, file_dir, file_name);
    let h0 = d0.records[ri].file_hash;
    assert(blob_exists(d0, h0));
    let bi = blob_index(d0, h0);
    if d0.blobs[bi].ref_count <= 1 {
        if blob_exists(d0, h) && h != h0 {
            let w = blob_index(d0, h);
            assert(w != bi);
            let w1 = if w < bi {
                w
            } else {
                w - 1
            };
            assert(d1.blobs[w1] == d0.blobs[w]);
            lemma_blob_index_unique_remove(d0, d1, bi, w1, h);
        }
        if blob_exists(d1, h) {
            let w1 = blob_index(d1, h);
            let w = if w1 < bi {
                w1
            } else {
                w1 + 1
            };
            assert(d1.blobs[w1] == d0.blobs[w]);
            lemma_blob_index_unique(d0, w, h);
            if h == h0 {
                if w < bi {
                    assert(d0.blobs[w].file_hash != d0.blobs[bi].file_hash);
                } else if w > bi {
                    assert(d0.blobs[bi].file_hash != d0.blobs[w].file_hash);
                }
                assert(false);
            }
            lemma_blob_index_unique_remove(d0, d1, bi, w1, h);
        }
    } else {
        assert(d1.blobs[bi].file_hash == h0);
        lemma_blob_index_unique_raw(d0, d1, bi, h0);
        if blob_exists(d0, h) {
            let w = blob_index(d0, h);
            assert(d1.blobs[w].file_hash == h);
            lemma_blob_index_unique_raw(d0, d1, w, h);
        }
        if blob_exists(d1, h) {
            let w = blob_index(d1, h);
            assert(d0.blobs[w].file_hash == h);
            lemma_blob_index_unique(d0, w, h);
        }
    }
}

/// Index identification in a state that removed `d0`'s blob `bi`.
proof fn lemma_blob_index_unique_remove(d0: DbModel, d1: DbModel, bi: int, i: int, file_hash: Seq<char>)
    requires
        db_wf(d0),
        0 <= bi < d0.blobs.len(),
        d1.blobs == d0.blobs.remove(bi),
        0 <= i < d1.blobs.len(),
        d1.blobs[i].file_hash == file_hash,
    ensures
        blob_exists(d1, file_hash),
        blob_index(d1, file_hash) == i,
        blob_at(d1, file_hash) == d1.blobs[i],
{
    assert(blob_exists(d1, file_hash));
    let j = blob_index(d1, file_hash);
    if i != j {
        let i0 = if i < bi {
            i
        } else {
            i + 1
        };
        let j0 = if j < bi {
            j
        } else {
            j + 1
        };
        assert(d1.blobs[i] == d0.blobs[i0]);
        assert(d1.blobs[j] == d0.blobs[j0]);
        if i0 < j0 {
            assert(d0.blobs[i0].file_hash != d0.blobs[j0].file_hash);
        } else {
            assert(d0.blobs[j0].file_hash != d0.blobs[i0].file_hash);
        }
    }
}

/// Deduplication invariant: in every well-formed store, a blob's reference
/// count equals the number of `(owner, directory, name)` mappings pointing
/// at its hash.
pub proof fn lemma_dedup_invariant(db: DbModel, file_hash: Seq<char>)
    requires
        db_wf(db),
        blob_exists(db, file_hash),
    ensures
        blob_at(db, file_hash).ref_count == hash_count(db.records, file_hash),
{
    let i = blob_index(db, file_hash);
    assert(db.blobs[i].ref_count == hash_count(db.records, db.blobs[i].file_hash));
}

/// Deleting one mapping decrements the count of its hash by exactly one, and
/// the blob is removed exactly when that count reaches zero.
pub proof fn lemma_delete_decrements(
    db: DbModel,
    user_id: u32,
    file_dir: Seq<char>,
    file_name: Seq<char>,
)
    requires
        db_wf(db),
        record_exists(db, user_id, file_dir, file_name),
    ensures
        ({
            let (d1, res) = delete_file_info_spec(db, user_id, file_dir, file_name);
            let h = record_at(db, user_id, file_dir, file_name).file_hash;
            &&& hash_count(db.records, h) == hash_count(d1.records, h) + 1
            &&& (res == Ok::<bool, StorageError>(true) <==> hash_count(d1.records, h) == 0)
            &&& (res == Ok::<bool, StorageError>(true) ==> !blob_exists(d1, h))
            &&& (res == Ok::<bool, StorageError>(false) ==> blob_exists(d1, h) && blob_at(
                d1,
                h,
            ).ref_count == hash_count(d1.records, h))
        }),
{
    let (d1, res) = delete_file_info_spec(db, user_id, file_dir, file_name);
    let ri = record_index(db, user_id, file_dir, file_name);
    let h = db.records[ri].file_hash;
    assert(blob_exists(db, h));
    let bi = blob_index(db, h);
    lemma_hash_count_member(db.records, ri);
    lemma_hash_count_remove(db.records, ri, h);
    lemma_dedup_invariant(db, h);
    lemma_delete_blob_effect(db, user_id, file_dir, file_name, h);
}

/// The metadata store interface that the transfer engine sees.  Backends
/// promise that each operation behaves as the model-level functions above
/// say, atomically per call.
pub trait Database: Sized {
    /// The abstract state of the store.
    spec fn db(&self) -> DbModel;

    /// The representation invariant; implies [`db_wf`] of the state.
    spec fn inv(&self) -> bool;

    proof fn inv_implies_wf(&self)
        requires
            self.inv(),
        ensures
            db_wf(self.db()),
    ;

    /// Look up the shared blob of a content hash.
    fn find_blob(&self, file_hash: &str) -> (r: Option<SharedBlob>)
        requires
            self.inv(),
        ensures
            r is Some <==> blob_exists(self.db(), file_hash@),
            r matches Some(b) ==> b@ == blob_at(self.db(), file_hash@),
    ;

    /// Store a new account under a fresh id.
    fn save_user(&mut self, user: &User, now: u32) -> (r: Result<(), StorageError>)
        requires
            old(self).inv(),
        ensures
            final(self).inv(),
            (final(self).db(), r) == save_user_spec(old(self).db(), user@, now),
    ;

    /// The first account with these credentials, if any.
    fn query_user(&self, username: &str, password: &str) -> (r: Option<User>)
        requires
            self.inv(),
        ensures
            r is Some <==> query_user_spec(self.db(), username@, password@) is Some,
            r matches Some(u) ==> Some(u@) == query_user_spec(self.db(), username@, password@),
    ;

    /// The file of `(user_id, file_dir, file_name)` joined with its progress.
    fn query_file_info(&self, user_id: u32, file_dir: &str, file_name: &str) -> (r: Option<
        SyncFileInfo,
    >)
        requires
            self.inv(),
        ensures
            r is Some <==> query_file_info_spec(self.db(), user_id, file_dir@, file_name@)
                is Some,
            r matches Some(info) ==> Some(info@) == query_file_info_spec(
                self.db(),
                user_id,
                file_dir@,
                file_name@,
            ),
    ;

    /// The first record of `user_id` pointing at `file_hash`, if any: the
    /// mapping a `Delete` of that hash removes.
    fn find_record_by_hash(&self, user_id: u32, file_hash: &str) -> (r: Option<FileRecord>)
        requires
            self.inv(),
        ensures
            r is Some <==> first_record_match(self.db().records, user_id, file_hash@) is Some,
            r matches Some(rec) ==> Some(rec@) == first_record_match(
                self.db().records,
                user_id,
                file_hash@,
            ),
    ;

    /// Upsert the record of `(user_id, file_info.file_dir,
    /// file_info.file_name)` and adjust reference counts, as one atomic unit.
    fn save_file_info(&mut self, user_id: u32, file_info: &SyncFileInfo, now: u32) -> (r: Result<
        (),
        StorageError,
    >)
        requires
            old(self).inv(),
        ensures
            final(self).inv(),
            (final(self).db(), r) == save_file_info_spec(old(self).db(), user_id, file_info@, now),
    ;

    /// Remove the record of the key, decrement its blob's reference count,
    /// and drop the blob row when the count reaches zero, as one atomic unit.
    fn delete_file_info(&mut self, user_id: u32, file_info: &SyncFileInfo) -> (r: Result<
        bool,
        StorageError,
    >)
        requires
            old(self).inv(),
        ensures
            final(self).inv(),
            (final(self).db(), r) == delete_file_info_spec(
                old(self).db(),
                user_id,
                file_info.file_dir@,
                file_info.file_name@,
            ),
    ;

    /// Persist the sync progress of `file_info.file_hash` as
    /// `file_info.sync_size`, clamped to the declared size.
    fn update_sync_size(&mut self, file_info: &SyncFileInfo) -> (r: Result<(), StorageError>)
        requires
            old(self).inv(),
        ensures
            final(self).inv(),
            (final(self).db(), r) == update_sync_size_spec(
                old(self).db(),
                file_info.file_hash@,
                file_info.sync_size,
            ),
    ;
}

} // verus!
