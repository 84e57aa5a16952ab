use rsdrive::blob_store::BlobStore;
use rsdrive::codec::encode_message;
use rsdrive::database::Database;
use rsdrive::errors::{SessionError, StorageError};
use rsdrive::file_storage::FileStorage;
use rsdrive::memory_database::MemoryDatabase;
use rsdrive::protocol::{TransferControlMessage, TransferRequest};
use rsdrive::storage_context::StorageContext;
use rsdrive::transfer_task::{TransferState, TransferTask};

fn fresh_ctx() -> StorageContext<MemoryDatabase, BlobStore> {
    StorageContext::new(MemoryDatabase::new(), BlobStore::new())
}

fn request(hash: &str, size: usize, name: &str, dir: &str) -> TransferRequest {
    TransferRequest {
        file_hash: hash.to_string(),
        file_size: size,
        file_name: name.to_string(),
        file_dir: dir.to_string(),
    }
}

#[test]
fn fresh_upload_starts_at_zero_and_completes() {
    let mut ctx = fresh_ctx();
    let mut task = TransferTask::new(1);
    let resp = task
        .handle_request(&mut ctx, &request("abc", 1000, "f", "/"), 7)
        .unwrap();
    assert_eq!(resp.file_hash, "abc");
    assert_eq!(resp.sync_size, 0);
    let done = task.handle_binary(&mut ctx, &vec![7u8; 1000]);
    assert!(done);
    let b = ctx.db.find_blob("abc").unwrap();
    assert_eq!(b.sync_size, 1000);
    assert!(b.sync_completed);
    assert_eq!(ctx.file_storage.size_of("abc"), 1000);
    assert!(matches!(task.state, TransferState::Pending));
}

#[test]
fn second_owner_of_synced_blob_sends_nothing() {
    let mut ctx = fresh_ctx();
    let mut task = TransferTask::new(1);
    task.handle_request(&mut ctx, &request("abc", 1000, "f", "/"), 7)
        .unwrap();
    task.handle_binary(&mut ctx, &vec![7u8; 1000]);
    let mut other = TransferTask::new(2);
    let resp = other
        .handle_request(&mut ctx, &request("abc", 1000, "f", "/"), 8)
        .unwrap();
    assert_eq!(resp.sync_size, 1000);
    assert_eq!(ctx.db.find_blob("abc").unwrap().ref_count, 2);
    // No writer was opened: a stray chunk changes nothing.
    assert!(matches!(other.state, TransferState::Pending));
    assert!(!other.handle_binary(&mut ctx, &[1, 2, 3]));
    assert_eq!(ctx.file_storage.size_of("abc"), 1000);
}

#[test]
fn disconnect_then_reconnect_resumes_at_persisted_offset() {
    let mut ctx = fresh_ctx();
    let mut task = TransferTask::new(1);
    task.handle_request(&mut ctx, &request("abc", 1000, "f", "/"), 7)
        .unwrap();
    assert!(!task.handle_binary(&mut ctx, &vec![5u8; 400]));
    task.finalize_writer_if_needed(&mut ctx);
    assert_eq!(ctx.db.find_blob("abc").unwrap().sync_size, 400);
    let mut next = TransferTask::new(1);
    let resp = next
        .handle_request(&mut ctx, &request("abc", 1000, "f", "/"), 9)
        .unwrap();
    assert_eq!(resp.sync_size, 400);
    assert!(next.handle_binary(&mut ctx, &vec![6u8; 600]));
    let stored = ctx.file_storage.read_all("abc").unwrap();
    assert_eq!(stored.len(), 1000);
    assert_eq!(stored[399], 5);
    assert_eq!(stored[400], 6);
}

#[test]
fn repeated_request_is_idempotent() {
    let mut ctx = fresh_ctx();
    let mut task = TransferTask::new(1);
    let first = task
        .handle_request(&mut ctx, &request("abc", 1000, "f", "/"), 7)
        .unwrap();
    let second = task
        .handle_request(&mut ctx, &request("abc", 1000, "f", "/"), 7)
        .unwrap();
    assert_eq!(first.sync_size, second.sync_size);
    assert_eq!(ctx.db.find_blob("abc").unwrap().ref_count, 1);
}

#[test]
fn chunks_after_completion_are_dropped_until_new_request() {
    let mut ctx = fresh_ctx();
    let mut task = TransferTask::new(1);
    task.handle_request(&mut ctx, &request("abc", 10, "f", "/"), 7)
        .unwrap();
    assert!(task.handle_binary(&mut ctx, &vec![1u8; 10]));
    assert!(!task.handle_binary(&mut ctx, &vec![2u8; 4]));
    assert_eq!(ctx.file_storage.size_of("abc"), 10);
}

#[test]
fn empty_file_is_complete_immediately() {
    let mut ctx = fresh_ctx();
    let mut task = TransferTask::new(1);
    let resp = task
        .handle_request(&mut ctx, &request("e3b0", 0, "empty", "/"), 7)
        .unwrap();
    assert_eq!(resp.sync_size, 0);
    assert!(matches!(task.state, TransferState::Pending));
    let b = ctx.db.find_blob("e3b0").unwrap();
    assert!(b.sync_completed);
}

#[test]
fn switching_blobs_persists_the_first() {
    let mut ctx = fresh_ctx();
    let mut task = TransferTask::new(1);
    task.handle_request(&mut ctx, &request("aaa", 100, "a", "/"), 7)
        .unwrap();
    task.handle_binary(&mut ctx, &vec![1u8; 30]);
    let resp = task
        .handle_request(&mut ctx, &request("bbb", 50, "b", "/"), 8)
        .unwrap();
    assert_eq!(resp.sync_size, 0);
    assert_eq!(ctx.db.find_blob("aaa").unwrap().sync_size, 30);
}

#[test]
fn delete_decrements_and_drops_bytes_with_last_reference() {
    let mut ctx = fresh_ctx();
    let mut one = TransferTask::new(1);
    one.handle_request(&mut ctx, &request("abc", 4, "f", "/"), 7)
        .unwrap();
    one.handle_binary(&mut ctx, &[9, 9, 9, 9]);
    let mut two = TransferTask::new(2);
    two.handle_request(&mut ctx, &request("abc", 4, "f", "/"), 8)
        .unwrap();
    assert_eq!(one.handle_delete(&mut ctx, "abc"), Ok(false));
    assert_eq!(ctx.db.find_blob("abc").unwrap().ref_count, 1);
    assert!(ctx.file_storage.read_all("abc").is_some());
    assert_eq!(two.handle_delete(&mut ctx, "abc"), Ok(true));
    assert!(ctx.db.find_blob("abc").is_none());
    assert!(ctx.file_storage.read_all("abc").is_none());
    assert_eq!(two.handle_delete(&mut ctx, "abc"), Err(StorageError::NotFound));
}

#[test]
fn deleting_the_active_blob_closes_the_writer() {
    let mut ctx = fresh_ctx();
    let mut task = TransferTask::new(1);
    task.handle_request(&mut ctx, &request("abc", 100, "f", "/"), 7)
        .unwrap();
    task.handle_binary(&mut ctx, &vec![1u8; 10]);
    assert_eq!(task.handle_delete(&mut ctx, "abc"), Ok(true));
    assert!(matches!(task.state, TransferState::Pending));
    assert!(!task.handle_binary(&mut ctx, &[1, 2]));
}

#[test]
fn text_frames_drive_a_whole_session() {
    let mut ctx = fresh_ctx();
    let mut task = TransferTask::new(1);
    let frame = encode_message(&TransferControlMessage::Request(request(
        "abc", 3, "f", "/",
    )));
    let reply = task.on_text(&mut ctx, &frame, 7).unwrap().unwrap();
    match reply {
        TransferControlMessage::Response(resp) => {
            assert_eq!(resp.file_hash, "abc");
            assert_eq!(resp.sync_size, 0);
        },
        other => panic!("unexpected reply {:?}", other),
    }
    assert!(task.handle_binary(&mut ctx, &[1, 2, 3]));
    assert_eq!(ctx.db.find_blob("abc").unwrap().sync_size, 3);
}

#[test]
fn on_text_rejects_garbage_and_ignores_server_messages() {
    let mut ctx = fresh_ctx();
    let mut task = TransferTask::new(1);
    assert_eq!(
        task.on_text(&mut ctx, b"not a frame", 7),
        Err(SessionError::MalformedMessage)
    );
    let server_only = encode_message(&TransferControlMessage::Error("x".to_string()));
    assert_eq!(task.on_text(&mut ctx, &server_only, 7), Ok(None));
}

#[test]
fn on_text_delete_of_unknown_hash_reports_an_error() {
    let mut ctx = fresh_ctx();
    let mut task = TransferTask::new(1);
    let frame = encode_message(&TransferControlMessage::Delete(
        rsdrive::protocol::TransferResponse {
            file_hash: "nope".to_string(),
            sync_size: 0,
        },
    ));
    match task.on_text(&mut ctx, &frame, 7) {
        Ok(Some(TransferControlMessage::Error(_))) => {},
        other => panic!("unexpected outcome {:?}", other),
    }
}

#[test]
fn remapping_a_path_to_new_content_is_refused() {
    let mut ctx = fresh_ctx();
    let mut task = TransferTask::new(1);
    task.handle_request(&mut ctx, &request("aaa", 10, "f", "/"), 7)
        .unwrap();
    task.handle_binary(&mut ctx, &vec![1u8; 10]);
    let r = task.handle_request(&mut ctx, &request("bbb", 10, "f", "/"), 8);
    assert_eq!(
        r,
        Err(SessionError::Storage(StorageError::ConstraintViolation))
    );
}

#[test]
fn mismatched_physical_progress_restarts_from_zero() {
    let mut ctx = fresh_ctx();
    let mut task = TransferTask::new(1);
    task.handle_request(&mut ctx, &request("abc", 100, "f", "/"), 7)
        .unwrap();
    task.handle_binary(&mut ctx, &vec![1u8; 40]);
    task.finalize_writer_if_needed(&mut ctx);
    // The physical bytes go missing behind the store's back.
    ctx.file_storage.delete_file("abc").unwrap();
    let mut next = TransferTask::new(1);
    let resp = next
        .handle_request(&mut ctx, &request("abc", 100, "f", "/"), 8)
        .unwrap();
    assert_eq!(resp.sync_size, 0);
    assert_eq!(ctx.db.find_blob("abc").unwrap().sync_size, 0);
}
