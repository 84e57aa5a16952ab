//! The per-connection transfer state machine.
//!
//! One task owns one connection's lifecycle: it answers `Request` messages
//! with the offset to resume from, appends binary frames to the open blob,
//! persists progress on completion and on every exit path, and serves
//! `Delete` by unmapping and reference-count decrement.
//!
//! Every step is specified as a function from the old task, metadata state
//! and blob-store state to the new ones and the output, so that facts about
//! sequences of steps (resume, idempotence, completion) are stated and
//! proved over those functions.

use vstd::prelude::*;

use crate::database::{
    blob_at, blob_exists, db_wf, delete_file_info_spec, first_record_match,
    lemma_delete_blob_effect, lemma_first_record_match_member, lemma_record_index_unique,
    lemma_save_blob_effect, lemma_save_file_info_wf, lemma_save_record_effect,
    lemma_update_blob_effect,
    lemma_update_sync_size_wf, record_at, save_file_info_spec, update_sync_size_spec, Database,
    DbModel,
};
use crate::entity::{SyncFileInfo, SyncFileInfoView};
use crate::errors::{SessionError, StorageError};
use crate::file_storage::{
    append_spec, delete_file_spec, lemma_append_effect, lemma_delete_file_effect,
    lemma_open_writer_effect, open_writer_spec, store_data, store_has, store_size, store_wf,
    FileStorage, StoreModel,
};
use crate::protocol::{
    TransferControlMessage, TransferControlMessageView, TransferRequest, TransferRequestView,
    TransferResponse, TransferResponseView,
};
use crate::storage_context::StorageContext;

verus! {

/// Whether a blob writer is open, and for which request.
#[derive(Debug, PartialEq)]
pub enum TransferState {
    Pending,
    Receiving(TransferRequest),
}

/// Abstract view of a [`TransferState`].
pub ghost enum TransferStateView {
    Pending,
    Receiving(TransferRequestView),
}

impl View for TransferState {
    type V = TransferStateView;

    open spec fn view(&self) -> TransferStateView {
        match self {
            TransferState::Pending => TransferStateView::Pending,
            TransferState::Receiving(req) => TransferStateView::Receiving(req@),
        }
    }
}

/// One connection's transfer session: the active request, if any, and the
/// byte count of its blob, which grows as binary frames arrive.
pub struct TransferTask {
    pub user_id: u32,
    pub state: TransferState,
    pub sync_size: usize,
}

/// Abstract view of a [`TransferTask`].
pub ghost struct TransferTaskView {
    pub user_id: u32,
    pub state: TransferStateView,
    pub sync_size: usize,
}

impl View for TransferTask {
    type V = TransferTaskView;

    open spec fn view(&self) -> TransferTaskView {
        TransferTaskView { user_id: self.user_id, state: self.state@, sync_size: self.sync_size }
    }
}

/// The session invariant tying a task to its storage: while a writer is
/// open, the active blob is known to the metadata store under the declared
/// size the task carries, its physical bytes are exactly the task's count,
/// and the transfer is not yet complete.
pub open spec fn task_inv(task: TransferTaskView, db: DbModel, st: StoreModel) -> bool {
    task.state matches TransferStateView::Receiving(req) ==> {
        &&& blob_exists(db, req.file_hash)
        &&& blob_at(db, req.file_hash).file_size == req.file_size
        &&& store_has(st, req.file_hash)
        &&& store_data(st, req.file_hash).len() == task.sync_size
        &&& task.sync_size < req.file_size
    }
}

/// The file info a request stands for, at a given progress value.
pub open spec fn info_of_request(req: TransferRequestView, sync_size: usize) -> SyncFileInfoView {
    SyncFileInfoView {
        file_hash: req.file_hash,
        sync_size: sync_size,
        file_size: req.file_size,
        file_name: req.file_name,
        file_dir: req.file_dir,
        file_meta: Seq::empty(),
    }
}

/// The task with no writer open.
pub open spec fn pending_task(task: TransferTaskView) -> TransferTaskView {
    TransferTaskView { user_id: task.user_id, state: TransferStateView::Pending, sync_size: 0 }
}

/// The task receiving `req` from offset `sync_size`.
pub open spec fn receiving_task(
    task: TransferTaskView,
    req: TransferRequestView,
    sync_size: usize,
) -> TransferTaskView {
    TransferTaskView {
        user_id: task.user_id,
        state: TransferStateView::Receiving(req),
        sync_size: sync_size,
    }
}

/// What [`TransferTask::finalize_writer_if_needed`] does: if a writer is
/// open, persist the task's byte count as the blob's progress and close it.
pub open spec fn finalize_spec(task: TransferTaskView, db: DbModel) -> (TransferTaskView, DbModel) {
    match task.state {
        TransferStateView::Receiving(req) => (
            pending_task(task),
            update_sync_size_spec(db, req.file_hash, task.sync_size).0,
        ),
        TransferStateView::Pending => (task, db),
    }
}

/// What [`TransferTask::handle_request`] does.
///
/// Any open writer is finalized first.  A known hash resumes from the
/// persisted progress (the declared size on the wire is superseded by the
/// stored one); a hash whose transfer is complete is answered with its full
/// size and no writer is opened; recorded progress that disagrees with the
/// physical byte count restarts from zero.  An unknown hash creates the blob
/// and starts from zero.  In every successful case the path mapping is
/// upserted and the reply reports the offset to resume from.
pub open spec fn request_spec(
    task: TransferTaskView,
    db: DbModel,
    st: StoreModel,
    req: TransferRequestView,
    now: u32,
) -> (TransferTaskView, DbModel, StoreModel, Result<TransferResponseView, SessionError>) {
    let (task0, db0) = finalize_spec(task, db);
    if blob_exists(db0, req.file_hash) {
        let b = blob_at(db0, req.file_hash);
        let nreq = TransferRequestView { file_size: b.file_size, ..req };
        let (db1, res) = save_file_info_spec(db0, task.user_id, info_of_request(nreq, 0), now);
        match res {
            Err(e) => (task0, db1, st, Err(SessionError::Storage(e))),
            Ok(_) => {
                if b.sync_completed {
                    (
                        task0,
                        db1,
                        st,
                        Ok(TransferResponseView { file_hash: req.file_hash, sync_size: b.sync_size }),
                    )
                } else if store_size(st, req.file_hash) == b.sync_size {
                    (
                        receiving_task(task0, nreq, b.sync_size),
                        db1,
                        open_writer_spec(st, req.file_hash, b.sync_size),
                        Ok(TransferResponseView { file_hash: req.file_hash, sync_size: b.sync_size }),
                    )
                } else {
                    // Recorded and physical progress disagree: restart this
                    // blob from zero.
                    (
                        receiving_task(task0, nreq, 0),
                        update_sync_size_spec(db1, req.file_hash, 0).0,
                        open_writer_spec(st, req.file_hash, 0),
                        Ok(TransferResponseView { file_hash: req.file_hash, sync_size: 0 }),
                    )
                }
            },
        }
    } else {
        let (db1, res) = save_file_info_spec(db0, task.user_id, info_of_request(req, 0), now);
        match res {
            Err(e) => (task0, db1, st, Err(SessionError::Storage(e))),
            Ok(_) => {
                let st1 = open_writer_spec(st, req.file_hash, 0);
                let reply = Ok(
                    TransferResponseView { file_hash: req.file_hash, sync_size: 0 },
                );
                if req.file_size == 0 {
                    (task0, db1, st1, reply)
                } else {
                    (receiving_task(task0, req, 0), db1, st1, reply)
                }
            },
        }
    }
}

/// What [`TransferTask::handle_binary`] does: append the chunk to the open
/// blob; once the byte count reaches the declared size, persist it, mark the
/// blob complete and close the writer.  A chunk with no writer open is
/// dropped.
pub open spec fn binary_spec(
    task: TransferTaskView,
    db: DbModel,
    st: StoreModel,
    data: Seq<u8>,
) -> (TransferTaskView, DbModel, StoreModel, bool) {
    match task.state {
        TransferStateView::Receiving(req) => {
            let st1 = append_spec(st, req.file_hash, data);
            let n = store_size(st1, req.file_hash) as usize;
            if n >= req.file_size {
                (pending_task(task), update_sync_size_spec(db, req.file_hash, n).0, st1, true)
            } else {
                (
                    TransferTaskView { user_id: task.user_id, state: task.state, sync_size: n },
                    db,
                    st1,
                    false,
                )
            }
        },
        TransferStateView::Pending => (task, db, st, false),
    }
}

/// What [`TransferTask::handle_delete`] does: remove the caller's first
/// mapping to the hash, decrement the blob's reference count as one atomic
/// unit, and, when the last reference went away, remove the blob row and its
/// bytes; a task receiving that very blob is closed without persisting.
pub open spec fn delete_spec(
    task: TransferTaskView,
    db: DbModel,
    st: StoreModel,
    file_hash: Seq<char>,
) -> (TransferTaskView, DbModel, StoreModel, Result<bool, StorageError>) {
    match first_record_match(db.records, task.user_id, file_hash) {
        Option::None => (task, db, st, Err(StorageError::NotFound)),
        Option::Some(rec) => {
            let (db1, res) = delete_file_info_spec(db, task.user_id, rec.file_dir, rec.file_name);
            match res {
                Err(e) => (task, db1, st, Err(e)),
                Ok(removed) => {
                    if removed {
                        let st1 = delete_file_spec(st, file_hash);
                        let deactivate = task.state matches TransferStateView::Receiving(r)
                            && r.file_hash == file_hash;
                        let task1 = if deactivate {
                            pending_task(task)
                        } else {
                            task
                        };
                        (task1, db1, st1, Ok(true))
                    } else {
                        (task, db1, st, Ok(false))
                    }
                },
            }
        },
    }
}

/// Resume correctness: after any number of bytes of a blob have been
/// written and the session finalizes (the disconnect path), a fresh
/// session's `Request` for the same hash is answered with exactly that byte
/// count, and a subsequent chunk lands strictly after those bytes, which
/// stay untouched.
///
/// The request can be refused by the upsert (for instance when the new
/// session's `(owner, directory, name)` already maps to a different hash);
/// the claim is over the answered requests.
pub proof fn lemma_resume_correctness(
    task: TransferTaskView,
    db: DbModel,
    st: StoreModel,
    task2: TransferTaskView,
    req: TransferRequestView,
    now: u32,
    data: Seq<u8>,
)
    requires
        db_wf(db),
        store_wf(st),
        task_inv(task, db, st),
        task.state matches TransferStateView::Receiving(r0) && r0.file_hash == req.file_hash,
        task2.state is Pending,
    ensures
        ({
            let (t1, d1) = finalize_spec(task, db);
            let (t3, d2, s2, out) = request_spec(task2, d1, st, req, now);
            out matches Ok(resp) ==> {
                let (t4, d3, s3, c) = binary_spec(t3, d2, s2, data);
                &&& resp.sync_size == task.sync_size
                &&& store_data(s3, req.file_hash) == store_data(st, req.file_hash) + data
                &&& store_data(s3, req.file_hash).subrange(0, task.sync_size as int) == store_data(
                    st,
                    req.file_hash,
                )
            }
        }),
{
    let h = req.file_hash;
    let r0 = task.state->Receiving_0;
    let n = task.sync_size;
    let (t1, d1) = finalize_spec(task, db);
    lemma_update_sync_size_wf(db, h, n);
    lemma_update_blob_effect(db, h, n, h);
    let (t3, d2, s2, out) = request_spec(task2, d1, st, req, now);
    if out is Ok {
        let b = blob_at(d1, h);
        assert(b.sync_size == n);
        assert(!b.sync_completed);
        let nreq = TransferRequestView { file_size: b.file_size, ..req };
        let info = info_of_request(nreq, 0);
        lemma_save_file_info_wf(d1, task2.user_id, info, now);
        lemma_save_blob_effect(d1, task2.user_id, info, now, h);
        assert(store_size(st, h) == n);
        lemma_open_writer_effect(st, h, n, h);
        assert(store_data(s2, h) =~= store_data(st, h));
        let (t4, d3, s3, c) = binary_spec(t3, d2, s2, data);
        crate::file_storage::lemma_open_keeps_wf(st, h, n);
        lemma_append_effect(s2, h, data, h);
        assert(store_data(s3, h).subrange(0, n as int) =~= store_data(st, h));
    }
}

/// Idempotent request: issuing the same `Request` twice in immediate
/// succession (no intervening bytes) yields the same reported resume offset
/// both times and does not change the blob's reference count in between.
pub proof fn lemma_idempotent_request(
    task: TransferTaskView,
    db: DbModel,
    st: StoreModel,
    req: TransferRequestView,
    now: u32,
)
    requires
        db_wf(db),
        store_wf(st),
        task_inv(task, db, st),
    ensures
        ({
            let (t1, d1, s1, out1) = request_spec(task, db, st, req, now);
            let (t2, d2, s2, out2) = request_spec(t1, d1, s1, req, now);
            out1 matches Ok(r1) ==> {
                &&& out2 matches Ok(r2) && r2.sync_size == r1.sync_size
                &&& blob_at(d2, req.file_hash).ref_count == blob_at(d1, req.file_hash).ref_count
            }
        }),
{
    let h = req.file_hash;
    let (t1, d1, s1, out1) = request_spec(task, db, st, req, now);
    if out1 is Ok {
        let (task0, db0) = finalize_spec(task, db);
        // The first finalize, if any, keeps the store well-formed.
        match task.state {
            TransferStateView::Receiving(r0) => {
                lemma_update_sync_size_wf(db, r0.file_hash, task.sync_size);
                lemma_update_blob_effect(db, r0.file_hash, task.sync_size, h);
            },
            TransferStateView::Pending => {},
        }
        if blob_exists(db0, h) {
            let b = blob_at(db0, h);
            let nreq = TransferRequestView { file_size: b.file_size, ..req };
            let info = info_of_request(nreq, 0);
            let db1 = save_file_info_spec(db0, task.user_id, info, now).0;
            lemma_save_file_info_wf(db0, task.user_id, info, now);
            lemma_save_blob_effect(db0, task.user_id, info, now, h);
            lemma_save_record_effect(db0, task.user_id, info, now);
            let ri = crate::database::record_index(db1, task.user_id, req.file_dir, req.file_name);
            if b.sync_completed {
                lemma_second_request_same(t1, d1, s1, req, now, ri, b.sync_size);
            } else if store_size(st, h) == b.sync_size {
                lemma_open_writer_effect(st, h, b.sync_size, h);
                crate::file_storage::lemma_open_keeps_wf(st, h, b.sync_size);
                lemma_second_request_same(t1, d1, s1, req, now, ri, b.sync_size);
            } else {
                lemma_update_sync_size_wf(db1, h, 0);
                lemma_update_blob_effect(db1, h, 0, h);
                assert(update_sync_size_spec(db1, h, 0).0.records == db1.records);
                lemma_open_writer_effect(st, h, 0, h);
                crate::file_storage::lemma_open_keeps_wf(st, h, 0);
                lemma_second_request_same(t1, d1, s1, req, now, ri, 0);
            }
        } else {
            let info = info_of_request(req, 0);
            let db1 = save_file_info_spec(db0, task.user_id, info, now).0;
            lemma_save_file_info_wf(db0, task.user_id, info, now);
            lemma_save_blob_effect(db0, task.user_id, info, now, h);
            lemma_save_record_effect(db0, task.user_id, info, now);
            let ri = crate::database::record_index(db1, task.user_id, req.file_dir, req.file_name);
            lemma_open_writer_effect(st, h, 0, h);
            crate::file_storage::lemma_open_keeps_wf(st, h, 0);
            lemma_second_request_same(t1, d1, s1, req, now, ri, 0);
        }
    }
}

/// A repeated `Request` against a state the first one produced is a no-op
/// apart from re-finalizing and re-opening the writer: same reply, same
/// reference count.
proof fn lemma_second_request_same(
    t1: TransferTaskView,
    d1: DbModel,
    s1: StoreModel,
    req: TransferRequestView,
    now: u32,
    ri: int,
    expect: usize,
)
    requires
        db_wf(d1),
        store_wf(s1),
        blob_exists(d1, req.file_hash),
        0 <= ri < d1.records.len(),
        crate::database::rec_key_is(d1.records[ri], t1.user_id, req.file_dir, req.file_name),
        d1.records[ri].file_hash == req.file_hash,
        t1.state is Pending ==> blob_at(d1, req.file_hash).sync_completed && expect == blob_at(
            d1,
            req.file_hash,
        ).sync_size,
        t1.state matches TransferStateView::Receiving(r) ==> r.file_hash == req.file_hash
            && r.file_size == blob_at(d1, req.file_hash).file_size && t1.sync_size == expect
            && blob_at(d1, req.file_hash).sync_size == expect && t1.sync_size < r.file_size
            && store_size(s1, req.file_hash) == expect,
    ensures
        ({
            let (t2, d2, s2, out2) = request_spec(t1, d1, s1, req, now);
            &&& out2 == Ok::<TransferResponseView, SessionError>(
                TransferResponseView { file_hash: req.file_hash, sync_size: expect },
            )
            &&& blob_at(d2, req.file_hash).ref_count == blob_at(d1, req.file_hash).ref_count
        }),
{
    let h = req.file_hash;
    let b1 = blob_at(d1, h);
    let (task0, db0) = finalize_spec(t1, d1);
    match t1.state {
        TransferStateView::Receiving(r) => {
            lemma_update_sync_size_wf(d1, h, t1.sync_size);
            lemma_update_blob_effect(d1, h, t1.sync_size, h);
        },
        TransferStateView::Pending => {},
    }
    // The blob after the (possible) finalize: same fields, since the task's
    // count is what the store already holds.
    let b2 = blob_at(db0, h);
    assert(b2.sync_size == b1.sync_size);
    assert(b2.sync_completed == b1.sync_completed);
    assert(b2.file_size == b1.file_size);
    assert(b2.ref_count == b1.ref_count);
    assert(db0.records == d1.records);
    let nreq = TransferRequestView { file_size: b2.file_size, ..req };
    let info = info_of_request(nreq, 0);
    // The key is already mapped to this hash: the upsert is a no-op.
    lemma_record_index_unique(db0, ri, t1.user_id, req.file_dir, req.file_name);
    assert(record_at(db0, t1.user_id, info.file_dir, info.file_name).file_hash == info.file_hash);
    assert(save_file_info_spec(db0, t1.user_id, info, now) == (db0, Ok::<(), StorageError>(())));
}

/// Completion detection: the chunk that brings the byte count up to the
/// declared size closes the writer, marks the blob complete with exactly the
/// declared size persisted, and any further chunk is not accepted: it
/// changes nothing until a new `Request` opens a writer.
pub proof fn lemma_completion_detection(
    task: TransferTaskView,
    db: DbModel,
    st: StoreModel,
    data: Seq<u8>,
    data2: Seq<u8>,
)
    requires
        db_wf(db),
        store_wf(st),
        task_inv(task, db, st),
        task.state matches TransferStateView::Receiving(r0) && task.sync_size + data.len()
            >= r0.file_size,
        task.sync_size + data.len() <= usize::MAX,
    ensures
        ({
            let (t1, d1, s1, completed) = binary_spec(task, db, st, data);
            let r0 = task.state->Receiving_0;
            &&& completed
            &&& t1.state is Pending
            &&& blob_at(d1, r0.file_hash).sync_completed
            &&& blob_at(d1, r0.file_hash).sync_size == r0.file_size
            &&& binary_spec(t1, d1, s1, data2) == (t1, d1, s1, false)
        }),
{
    let r0 = task.state->Receiving_0;
    let h = r0.file_hash;
    lemma_append_effect(st, h, data, h);
    let st1 = append_spec(st, h, data);
    let n = store_size(st1, h) as usize;
    assert(n == task.sync_size + data.len());
    lemma_update_blob_effect(db, h, n, h);
    assert(crate::database::clamped(n, blob_at(db, h).file_size) == r0.file_size);
}

/// Lifts a response result to views.
pub open spec fn response_result_view(r: Result<TransferResponse, SessionError>) -> Result<
    TransferResponseView,
    SessionError,
> {
    match r {
        Ok(resp) => Ok(resp@),
        Err(e) => Err(e),
    }
}

/// Lifts an optional reply to views.
pub open spec fn reply_result_view(r: Result<Option<TransferControlMessage>, SessionError>)
    -> Result<Option<TransferControlMessageView>, SessionError> {
    match r {
        Ok(Some(m)) => Ok(Some(m@)),
        Ok(None) => Ok(None),
        Err(e) => Err(e),
    }
}

/// What [`TransferTask::on_text`] does: decode the frame and dispatch.  A
/// frame that is no control message ends the session; a `Request` is
/// answered with a `Response`; a `Delete` of an unmapped hash is answered
/// with an `Error` and the session continues; a control message only the
/// server may send is dropped with no reply.
pub open spec fn text_spec(
    task: TransferTaskView,
    db: DbModel,
    st: StoreModel,
    text: Seq<u8>,
    now: u32,
) -> (TransferTaskView, DbModel, StoreModel, Result<
    Option<TransferControlMessageView>,
    SessionError,
>) {
    match crate::codec::decode_spec(text) {
        Option::None => (task, db, st, Err(SessionError::MalformedMessage)),
        Option::Some(m) => match m {
            TransferControlMessageView::Request(rq) => {
                let (t, d, s, out) = request_spec(task, db, st, rq, now);
                match out {
                    Ok(resp) => (
                        t,
                        d,
                        s,
                        Ok(Some(TransferControlMessageView::Response(resp))),
                    ),
                    Err(e) => (t, d, s, Err(e)),
                }
            },
            TransferControlMessageView::Delete(del) => {
                let (t, d, s, out) = delete_spec(task, db, st, del.file_hash);
                match out {
                    Ok(_) => (t, d, s, Ok(None)),
                    Err(_) => (
                        t,
                        d,
                        s,
                        Ok(Some(TransferControlMessageView::Error("unknown file hash"@))),
                    ),
                }
            },
            TransferControlMessageView::Response(_) => (task, db, st, Ok(None)),
            TransferControlMessageView::Error(_) => (task, db, st, Ok(None)),
        },
    }
}

/// The file info a request stands for, at a given progress value.
fn request_info(req: &TransferRequest, sync_size: usize) -> (r: SyncFileInfo)
    ensures
        r@ == info_of_request(req@, sync_size),
{
    SyncFileInfo {
        file_hash: req.file_hash.clone(),
        sync_size: sync_size,
        file_size: req.file_size,
        file_name: req.file_name.clone(),
        file_dir: req.file_dir.clone(),
        file_meta: String::new(),
    }
}

impl TransferTask {
    /// A fresh session for an authenticated owner: no writer open.
    pub fn new(user_id: u32) -> (r: Self)
        ensures
            r@ == (TransferTaskView {
                user_id: user_id,
                state: TransferStateView::Pending,
                sync_size: 0,
            }),
            r@.state is Pending,
    {
        TransferTask { user_id, state: TransferState::Pending, sync_size: 0 }
    }

    /// If a writer is open, persist the current progress unconditionally and
    /// close it: partial progress is never lost, whichever path exits the
    /// session loop.
    pub fn finalize_writer_if_needed<D: Database, F: FileStorage>(
        &mut self,
        ctx: &mut StorageContext<D, F>,
    )
        requires
            old(ctx).inv(),
            task_inv(old(self)@, old(ctx).db.db(), old(ctx).file_storage.store()),
        ensures
            final(ctx).inv(),
            task_inv(final(self)@, final(ctx).db.db(), final(ctx).file_storage.store()),
            final(self)@.state is Pending,
            final(self)@.user_id == old(self)@.user_id,
            (final(self)@, final(ctx).db.db()) == finalize_spec(old(self)@, old(ctx).db.db()),
            final(ctx).file_storage == old(ctx).file_storage,
    {
        let active = match &self.state {
            TransferState::Pending => None,
            TransferState::Receiving(req) => Some(request_info(req, self.sync_size)),
        };
        if let Some(info) = active {
            match ctx.db.update_sync_size(&info) {
                Ok(()) => {},
                Err(_) => {
                    proof {
                        assert(false);
                    }
                },
            }
            self.state = TransferState::Pending;
            self.sync_size = 0;
        }
    }

    /// Answer a transfer request: resolve the resume offset, upsert the path
    /// mapping, open the writer when bytes are still owed, and reply with the
    /// offset the client must continue from.
    pub fn handle_request<D: Database, F: FileStorage>(
        &mut self,
        ctx: &mut StorageContext<D, F>,
        req: &TransferRequest,
        now: u32,
    ) -> (r: Result<TransferResponse, SessionError>)
        requires
            old(ctx).inv(),
            task_inv(old(self)@, old(ctx).db.db(), old(ctx).file_storage.store()),
        ensures
            final(ctx).inv(),
            task_inv(final(self)@, final(ctx).db.db(), final(ctx).file_storage.store()),
            (final(self)@, final(ctx).db.db(), final(ctx).file_storage.store(),
            response_result_view(r)) == request_spec(
                old(self)@,
                old(ctx).db.db(),
                old(ctx).file_storage.store(),
                req@,
                now,
            ),
    {
        self.finalize_writer_if_needed(ctx);
        let ghost db0 = ctx.db.db();
        let ghost st0 = ctx.file_storage.store();
        proof {
            ctx.db.inv_implies_wf();
            ctx.file_storage.inv_implies_wf();
        }
        match ctx.db.find_blob(req.file_hash.as_str()) {
            Some(b) => {
                let nreq = TransferRequest {
                    file_hash: req.file_hash.clone(),
                    file_size: b.file_size,
                    file_name: req.file_name.clone(),
                    file_dir: req.file_dir.clone(),
                };
                let info = request_info(&nreq, 0);
                match ctx.db.save_file_info(self.user_id, &info, now) {
                    Err(e) => {
                        return Err(SessionError::Storage(e));
                    },
                    Ok(()) => {},
                }
                proof {
                    ctx.db.inv_implies_wf();
                    lemma_save_blob_effect(db0, self.user_id, info@, now, req.file_hash@);
                }
                if b.sync_completed {
                    // Already fully synced: report completeness, open nothing.
                    Ok(
                        TransferResponse {
                            file_hash: req.file_hash.clone(),
                            sync_size: b.sync_size,
                        },
                    )
                } else {
                    let phys = ctx.file_storage.size_of(req.file_hash.as_str());
                    if phys == b.sync_size {
                        ctx.file_storage.open_writer(req.file_hash.as_str(), b.sync_size);
                        proof {
                            lemma_open_writer_effect(st0, req.file_hash@, b.sync_size, req.file_hash@);
                        }
                        self.state = TransferState::Receiving(nreq);
                        self.sync_size = b.sync_size;
                        Ok(
                            TransferResponse {
                                file_hash: req.file_hash.clone(),
                                sync_size: b.sync_size,
                            },
                        )
                    } else {
                        // Recorded and physical progress disagree: restart
                        // this blob from zero.
                        let ghost db1 = ctx.db.db();
                        let zero_info = request_info(&nreq, 0);
                        match ctx.db.update_sync_size(&zero_info) {
                            Ok(()) => {},
                            Err(_) => {
                                proof {
                                    assert(false);
                                }
                            },
                        }
                        proof {
                            ctx.db.inv_implies_wf();
                            lemma_update_blob_effect(db1, req.file_hash@, 0, req.file_hash@);
                        }
                        ctx.file_storage.open_writer(req.file_hash.as_str(), 0);
                        proof {
                            lemma_open_writer_effect(st0, req.file_hash@, 0, req.file_hash@);
                        }
                        self.state = TransferState::Receiving(nreq);
                        self.sync_size = 0;
                        Ok(TransferResponse { file_hash: req.file_hash.clone(), sync_size: 0 })
                    }
                }
            },
            None => {
                let info = request_info(req, 0);
                match ctx.db.save_file_info(self.user_id, &info, now) {
                    Err(e) => {
                        return Err(SessionError::Storage(e));
                    },
                    Ok(()) => {},
                }
                proof {
                    ctx.db.inv_implies_wf();
                    lemma_save_blob_effect(db0, self.user_id, info@, now, req.file_hash@);
                }
                ctx.file_storage.open_writer(req.file_hash.as_str(), 0);
                proof {
                    lemma_open_writer_effect(st0, req.file_hash@, 0, req.file_hash@);
                }
                if req.file_size == 0 {
                    // Nothing is owed: the fresh blob is already complete.
                    Ok(TransferResponse { file_hash: req.file_hash.clone(), sync_size: 0 })
                } else {
                    self.state = TransferState::Receiving(req.clone());
                    self.sync_size = 0;
                    Ok(TransferResponse { file_hash: req.file_hash.clone(), sync_size: 0 })
                }
            },
        }
    }

    /// Append a binary chunk to the open blob.  Returns whether this chunk
    /// completed the transfer; a chunk with no writer open is dropped.
    pub fn handle_binary<D: Database, F: FileStorage>(
        &mut self,
        ctx: &mut StorageContext<D, F>,
        data: &[u8],
    ) -> (completed: bool)
        requires
            old(ctx).inv(),
            task_inv(old(self)@, old(ctx).db.db(), old(ctx).file_storage.store()),
        ensures
            final(ctx).inv(),
            task_inv(final(self)@, final(ctx).db.db(), final(ctx).file_storage.store()),
            (final(self)@, final(ctx).db.db(), final(ctx).file_storage.store(), completed)
                == binary_spec(
                old(self)@,
                old(ctx).db.db(),
                old(ctx).file_storage.store(),
                data@,
            ),
    {
        let active = match &self.state {
            TransferState::Pending => None,
            TransferState::Receiving(req) => Some(req.clone()),
        };
        let req = match active {
            None => {
                return false;
            },
            Some(req) => req,
        };
        let ghost db0 = ctx.db.db();
        let ghost st0 = ctx.file_storage.store();
        proof {
            ctx.db.inv_implies_wf();
            ctx.file_storage.inv_implies_wf();
            lemma_append_effect(st0, req.file_hash@, data@, req.file_hash@);
        }
        let n = ctx.file_storage.append(req.file_hash.as_str(), data);
        if n >= req.file_size {
            let info = request_info(&req, n);
            match ctx.db.update_sync_size(&info) {
                Ok(()) => {},
                Err(_) => {
                    proof {
                        assert(false);
                    }
                },
            }
            self.state = TransferState::Pending;
            self.sync_size = 0;
            true
        } else {
            self.sync_size = n;
            false
        }
    }

    /// Handle one text frame: decode it and dispatch on the control
    /// message.  `Ok(Some(reply))` is sent back and the session continues;
    /// `Ok(None)` continues silently; `Err` ends the session, after which
    /// the caller runs [`TransferTask::finalize_writer_if_needed`].
    pub fn on_text<D: Database, F: FileStorage>(
        &mut self,
        ctx: &mut StorageContext<D, F>,
        text: &[u8],
        now: u32,
    ) -> (r: Result<Option<TransferControlMessage>, SessionError>)
        requires
            old(ctx).inv(),
            task_inv(old(self)@, old(ctx).db.db(), old(ctx).file_storage.store()),
        ensures
            final(ctx).inv(),
            task_inv(final(self)@, final(ctx).db.db(), final(ctx).file_storage.store()),
            (final(self)@, final(ctx).db.db(), final(ctx).file_storage.store(),
            reply_result_view(r)) == text_spec(
                old(self)@,
                old(ctx).db.db(),
                old(ctx).file_storage.store(),
                text@,
                now,
            ),
    {
        let msg = match crate::codec::decode_message(text) {
            Ok(msg) => msg,
            Err(e) => {
                return Err(e);
            },
        };
        match msg {
            TransferControlMessage::Request(rq) => match self.handle_request(ctx, &rq, now) {
                Ok(resp) => Ok(Some(TransferControlMessage::Response(resp))),
                Err(e) => Err(e),
            },
            TransferControlMessage::Delete(del) => match self.handle_delete(
                ctx,
                del.file_hash.as_str(),
            ) {
                Ok(_) => Ok(None),
                Err(_) => Ok(Some(TransferControlMessage::Error("unknown file hash".to_owned()))),
            },
            TransferControlMessage::Response(_) => Ok(None),
            TransferControlMessage::Error(_) => Ok(None),
        }
    }

    /// Remove this owner's first mapping to `file_hash` and decrement the
    /// blob's reference count; when the last reference went away, remove the
    /// blob and its bytes.  `NotFound` when this owner has no mapping to the
    /// hash.
    pub fn handle_delete<D: Database, F: FileStorage>(
        &mut self,
        ctx: &mut StorageContext<D, F>,
        file_hash: &str,
    ) -> (r: Result<bool, StorageError>)
        requires
            old(ctx).inv(),
            task_inv(old(self)@, old(ctx).db.db(), old(ctx).file_storage.store()),
        ensures
            final(ctx).inv(),
            task_inv(final(self)@, final(ctx).db.db(), final(ctx).file_storage.store()),
            (final(self)@, final(ctx).db.db(), final(ctx).file_storage.store(), r) == delete_spec(
                old(self)@,
                old(ctx).db.db(),
                old(ctx).file_storage.store(),
                file_hash@,
            ),
    {
        let ghost db0 = ctx.db.db();
        let ghost st0 = ctx.file_storage.store();
        let rec = match ctx.db.find_record_by_hash(self.user_id, file_hash) {
            None => {
                return Err(StorageError::NotFound);
            },
            Some(rec) => rec,
        };
        proof {
            ctx.db.inv_implies_wf();
            ctx.file_storage.inv_implies_wf();
            lemma_first_record_match_member(db0.records, self.user_id, file_hash@);
            let i = choose|i: int|
                0 <= i < db0.records.len() && #[trigger] db0.records[i] == first_record_match(
                    db0.records,
                    self.user_id,
                    file_hash@,
                ).unwrap() && db0.records[i].user_id == self.user_id
                && db0.records[i].file_hash == file_hash@;
            lemma_record_index_unique(db0, i, self.user_id, rec.file_dir@, rec.file_name@);
            lemma_delete_blob_effect(
                db0,
                self.user_id,
                rec.file_dir@,
                rec.file_name@,
                file_hash@,
            );
        }
        let info = SyncFileInfo {
            file_hash: rec.file_hash.clone(),
            sync_size: 0,
            file_size: 0,
            file_name: rec.file_name.clone(),
            file_dir: rec.file_dir.clone(),
            file_meta: String::new(),
        };
        let removed = match ctx.db.delete_file_info(self.user_id, &info) {
            Ok(removed) => removed,
            Err(e) => {
                proof {
                    assert(false);
                }
                return Err(e);
            },
        };
        proof {
            ctx.db.inv_implies_wf();
        }
        if removed {
            match ctx.file_storage.delete_file(file_hash) {
                Ok(()) => {},
                Err(_) => {},
            }
            proof {
                lemma_delete_file_effect(st0, file_hash@, file_hash@);
            }
            let owned = file_hash.to_owned();
            let deactivate = match &self.state {
                TransferState::Pending => false,
                TransferState::Receiving(r) => r.file_hash == owned,
            };
            if deactivate {
                self.state = TransferState::Pending;
                self.sync_size = 0;
            }
            proof {
                match self@.state {
                    TransferStateView::Receiving(r) => {
                        lemma_delete_blob_effect(
                            db0,
                            self.user_id,
                            rec.file_dir@,
                            rec.file_name@,
                            r.file_hash,
                        );
                        lemma_delete_file_effect(st0, file_hash@, r.file_hash);
                    },
                    TransferStateView::Pending => {},
                }
            }
            Ok(true)
        } else {
            proof {
                match self@.state {
                    TransferStateView::Receiving(r) => {
                        lemma_delete_blob_effect(
                            db0,
                            self.user_id,
                            rec.file_dir@,
                            rec.file_name@,
                            r.file_hash,
                        );
                    },
                    TransferStateView::Pending => {},
                }
            }
            Ok(false)
        }
    }
}

} // verus!
