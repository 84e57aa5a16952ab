use rsdrive::blob_store::BlobStore;
use rsdrive::database::Database;
use rsdrive::database_manager::{DatabaseConfig, DatabaseManager};
use rsdrive::entity::{SyncFileInfo, User};
use rsdrive::errors::StorageError;
use rsdrive::file_storage::FileStorage;
use rsdrive::local_file_storage::LocalFileStorage;
use rsdrive::memory_database::MemoryDatabase;

fn info(hash: &str, size: usize, name: &str, dir: &str) -> SyncFileInfo {
    SyncFileInfo {
        file_hash: hash.to_string(),
        sync_size: 0,
        file_size: size,
        file_name: name.to_string(),
        file_dir: dir.to_string(),
        file_meta: String::new(),
    }
}

#[test]
fn save_file_info_creates_blob_once() {
    let mut db = MemoryDatabase::new();
    assert!(db.find_blob("abc").is_none());
    db.save_file_info(1, &info("abc", 1000, "f", "/"), 5).unwrap();
    let b = db.find_blob("abc").unwrap();
    assert_eq!(b.ref_count, 1);
    assert_eq!(b.file_size, 1000);
    assert_eq!(b.sync_size, 0);
    assert!(!b.sync_completed);
    assert_eq!(b.create_time, 5);
}

#[test]
fn save_file_info_is_idempotent_per_key() {
    let mut db = MemoryDatabase::new();
    db.save_file_info(1, &info("abc", 1000, "f", "/"), 5).unwrap();
    db.save_file_info(1, &info("abc", 1000, "f", "/"), 6).unwrap();
    assert_eq!(db.find_blob("abc").unwrap().ref_count, 1);
}

#[test]
fn save_file_info_bumps_ref_for_new_mapping() {
    let mut db = MemoryDatabase::new();
    db.save_file_info(1, &info("abc", 1000, "f", "/"), 5).unwrap();
    db.save_file_info(2, &info("abc", 1000, "f", "/"), 5).unwrap();
    db.save_file_info(1, &info("abc", 1000, "g", "/"), 5).unwrap();
    assert_eq!(db.find_blob("abc").unwrap().ref_count, 3);
}

#[test]
fn save_file_info_rejects_remapped_key() {
    let mut db = MemoryDatabase::new();
    db.save_file_info(1, &info("abc", 1000, "f", "/"), 5).unwrap();
    let r = db.save_file_info(1, &info("other", 9, "f", "/"), 6);
    assert_eq!(r, Err(StorageError::ConstraintViolation));
    assert_eq!(db.find_blob("abc").unwrap().ref_count, 1);
    assert!(db.find_blob("other").is_none());
}

#[test]
fn update_sync_size_clamps_and_derives_completion() {
    let mut db = MemoryDatabase::new();
    db.save_file_info(1, &info("abc", 1000, "f", "/"), 5).unwrap();
    let mut half = info("abc", 1000, "f", "/");
    half.sync_size = 400;
    db.update_sync_size(&half).unwrap();
    let b = db.find_blob("abc").unwrap();
    assert_eq!(b.sync_size, 400);
    assert!(!b.sync_completed);
    let mut over = info("abc", 1000, "f", "/");
    over.sync_size = 2000;
    db.update_sync_size(&over).unwrap();
    let b = db.find_blob("abc").unwrap();
    assert_eq!(b.sync_size, 1000);
    assert!(b.sync_completed);
    assert_eq!(
        db.update_sync_size(&info("nope", 1, "f", "/")),
        Err(StorageError::NotFound)
    );
}

#[test]
fn delete_file_info_decrements_then_drops() {
    let mut db = MemoryDatabase::new();
    db.save_file_info(1, &info("abc", 1000, "f", "/"), 5).unwrap();
    db.save_file_info(2, &info("abc", 1000, "f", "/"), 5).unwrap();
    assert_eq!(db.delete_file_info(1, &info("abc", 1000, "f", "/")), Ok(false));
    assert_eq!(db.find_blob("abc").unwrap().ref_count, 1);
    assert_eq!(db.delete_file_info(2, &info("abc", 1000, "f", "/")), Ok(true));
    assert!(db.find_blob("abc").is_none());
    assert_eq!(
        db.delete_file_info(2, &info("abc", 1000, "f", "/")),
        Err(StorageError::NotFound)
    );
}

#[test]
fn query_file_info_joins_record_and_blob() {
    let mut db = MemoryDatabase::new();
    let mut i = info("abc", 1000, "f", "/");
    i.file_meta = "m".to_string();
    db.save_file_info(1, &i, 5).unwrap();
    let mut progress = info("abc", 1000, "f", "/");
    progress.sync_size = 250;
    db.update_sync_size(&progress).unwrap();
    let found = db.query_file_info(1, "/", "f").unwrap();
    assert_eq!(found.file_hash, "abc");
    assert_eq!(found.sync_size, 250);
    assert_eq!(found.file_size, 1000);
    assert_eq!(found.file_meta, "m");
    assert!(db.query_file_info(2, "/", "f").is_none());
    assert!(db.query_file_info(1, "/", "g").is_none());
}

#[test]
fn find_record_by_hash_returns_first_mapping() {
    let mut db = MemoryDatabase::new();
    db.save_file_info(1, &info("abc", 1000, "f", "/"), 5).unwrap();
    db.save_file_info(1, &info("abc", 1000, "g", "/"), 6).unwrap();
    let rec = db.find_record_by_hash(1, "abc").unwrap();
    assert_eq!(rec.file_name, "f");
    assert!(db.find_record_by_hash(2, "abc").is_none());
}

#[test]
fn save_user_assigns_fresh_ids() {
    let mut db = MemoryDatabase::new();
    let u = User {
        id: 0,
        username: "alice".to_string(),
        password: "pw".to_string(),
        phone_number: "1".to_string(),
        email: "a@example.com".to_string(),
        create_time: 0,
    };
    db.save_user(&u, 9).unwrap();
    db.save_user(&u, 10).unwrap();
    let first = db.query_user("alice", "pw").unwrap();
    assert_eq!(first.id, 1);
    assert_eq!(first.create_time, 9);
    assert!(db.query_user("alice", "other").is_none());
}

#[test]
fn blob_store_supports_resume_and_delete() {
    let mut st = BlobStore::new();
    assert_eq!(st.size_of("abc"), 0);
    st.open_writer("abc", 0);
    let n = st.append("abc", &[1, 2, 3, 4]);
    assert_eq!(n, 4);
    st.open_writer("abc", 2);
    assert_eq!(st.size_of("abc"), 2);
    let n = st.append("abc", &[9]);
    assert_eq!(n, 3);
    assert_eq!(st.read_all("abc").unwrap(), vec![1, 2, 9]);
    assert_eq!(st.delete_file("abc"), Ok(()));
    assert!(st.read_all("abc").is_none());
    assert_eq!(st.delete_file("abc"), Err(StorageError::NotFound));
}

#[test]
fn local_file_storage_shards_by_hash_prefix() {
    let storage = LocalFileStorage::new("/srv/blobs".to_string());
    assert_eq!(storage.shard_dir("abcdef"), "/srv/blobs/ab");
    assert_eq!(storage.blob_path("abcdef"), "/srv/blobs/ab/cdef");
}

#[test]
fn database_manager_hands_out_empty_stores() {
    let manager = DatabaseManager::new(DatabaseConfig { uri: "./drive.db".to_string() });
    let db = manager.get_database().unwrap();
    assert!(db.find_blob("abc").is_none());
    let again = manager.clone().get_database().unwrap();
    assert!(again.query_user("test", "test").is_none());
}
