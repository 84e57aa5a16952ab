//! The blob store: content-addressed byte storage, behind the
//! [`FileStorage`] interface.
//!
//! A blob is located purely by its content hash, never by owner or path.  A
//! writer resumes at a byte offset: the store truncates to the offset and
//! appends after it, so the byte count never silently diverges from the
//! progress the metadata store reports.

use vstd::prelude::*;

use crate::errors::StorageError;

verus! {

/// One stored blob in the abstract state: a hash and its bytes.
pub ghost struct StoredBlobView {
    pub file_hash: Seq<char>,
    pub data: Seq<u8>,
}

/// Abstract state of the blob store.
#[verifier::ext_equal]
pub ghost struct StoreModel {
    pub blobs: Seq<StoredBlobView>,
}

/// Well-formedness: one entry per content hash.
pub open spec fn store_wf(st: StoreModel) -> bool {
    forall|i: int, j: int|
        0 <= i < j < st.blobs.len() ==> (#[trigger] st.blobs[i]).file_hash != (
        #[trigger] st.blobs[j]).file_hash
}

pub open spec fn store_has(st: StoreModel, file_hash: Seq<char>) -> bool {
    exists|i: int| 0 <= i < st.blobs.len() && (#[trigger] st.blobs[i]).file_hash == file_hash
}

pub open spec fn store_index(st: StoreModel, file_hash: Seq<char>) -> int {
    choose|i: int| 0 <= i < st.blobs.len() && (#[trigger] st.blobs[i]).file_hash == file_hash
}

/// The bytes of `file_hash`; empty when the hash is not stored.
pub open spec fn store_data(st: StoreModel, file_hash: Seq<char>) -> Seq<u8> {
    if store_has(st, file_hash) {
        st.blobs[store_index(st, file_hash)].data
    } else {
        Seq::empty()
    }
}

/// The physical byte count of `file_hash`: 0 when the hash is not stored.
pub open spec fn store_size(st: StoreModel, file_hash: Seq<char>) -> nat {
    store_data(st, file_hash).len()
}

/// The empty store.
pub open spec fn store_empty() -> StoreModel {
    StoreModel { blobs: Seq::empty() }
}

/// What [`FileStorage::open_writer`] does: create the blob when absent, and
/// cut it back to `offset` so that writing continues from exactly there.
pub open spec fn open_writer_spec(st: StoreModel, file_hash: Seq<char>, offset: usize) -> StoreModel {
    if store_has(st, file_hash) {
        let i = store_index(st, file_hash);
        StoreModel {
            blobs: st.blobs.update(
                i,
                StoredBlobView {
                    file_hash: st.blobs[i].file_hash,
                    data: st.blobs[i].data.subrange(0, offset as int),
                },
            ),
        }
    } else {
        StoreModel {
            blobs: st.blobs.push(StoredBlobView { file_hash: file_hash, data: Seq::empty() }),
        }
    }
}

/// What [`FileStorage::append`] does: add `data` after the existing bytes.
pub open spec fn append_spec(st: StoreModel, file_hash: Seq<char>, data: Seq<u8>) -> StoreModel {
    if store_has(st, file_hash) {
        let i = store_index(st, file_hash);
        StoreModel {
            blobs: st.blobs.update(
                i,
                StoredBlobView {
                    file_hash: st.blobs[i].file_hash,
                    data: st.blobs[i].data + data,
                },
            ),
        }
    } else {
        st
    }
}

/// What [`FileStorage::delete_file`] does: remove the blob's bytes.
pub open spec fn delete_file_spec(st: StoreModel, file_hash: Seq<char>) -> StoreModel {
    if store_has(st, file_hash) {
        StoreModel { blobs: st.blobs.remove(store_index(st, file_hash)) }
    } else {
        st
    }
}

/// Under well-formedness, the index of a hash is the one the hash is found
/// at: blob lookups are unambiguous.
pub proof fn lemma_store_index_unique(st: StoreModel, i: int, file_hash: Seq<char>)
    requires
        store_wf(st),
        0 <= i < st.blobs.len(),
        st.blobs[i].file_hash == file_hash,
    ensures
        store_has(st, file_hash),
        store_index(st, file_hash) == i,
        store_data(st, file_hash) == st.blobs[i].data,
{
    assert(store_has(st, file_hash));
    let j = store_index(st, file_hash);
    if i < j {
        assert(st.blobs[i].file_hash != st.blobs[j].file_hash);
    } else if j < i {
        assert(st.blobs[j].file_hash != st.blobs[i].file_hash);
    }
}

/// Index identification in a state whose hashes match `st0`'s pointwise.
proof fn lemma_store_index_unique_raw(st0: StoreModel, st1: StoreModel, i: int, file_hash: Seq<char>)
    requires
        store_wf(st0),
        st1.blobs.len() == st0.blobs.len(),
        forall|k: int|
            0 <= k < st0.blobs.len() ==> (#[trigger] st1.blobs[k]).file_hash
                == st0.blobs[k].file_hash,
        0 <= i < st1.blobs.len(),
        st1.blobs[i].file_hash == file_hash,
    ensures
        store_has(st1, file_hash),
        store_index(st1, file_hash) == i,
        store_data(st1, file_hash) == st1.blobs[i].data,
{
    assert(store_has(st1, file_hash));
    let j = store_index(st1, file_hash);
    if i < j {
        assert(st0.blobs[i].file_hash != st0.blobs[j].file_hash);
    } else if j < i {
        assert(st0.blobs[j].file_hash != st0.blobs[i].file_hash);
    }
}

/// How opening a writer shows through lookups: the blob of `file_hash` holds
/// exactly its first `offset` bytes, and every other blob is untouched.
pub proof fn lemma_open_writer_effect(
    st0: StoreModel,
    file_hash: Seq<char>,
    offset: usize,
    h: Seq<char>,
)
    requires
        store_wf(st0),
        offset <= store_size(st0, file_hash),
    ensures
        ({
            let st1 = open_writer_spec(st0, file_hash, offset);
            &&& store_has(st1, file_hash)
            &&& (store_has(st1, h) <==> (store_has(st0, h) || h == file_hash))
            &&& store_data(st1, file_hash) == store_data(st0, file_hash).subrange(0, offset as int)
            &&& (store_has(st0, h) && h != file_hash ==> store_data(st1, h) == store_data(st0, h))
        }),
{
    let st1 = open_writer_spec(st0, file_hash, offset);
    if store_has(st0, file_hash) {
        let i = store_index(st0, file_hash);
        assert(st1.blobs[i].file_hash == file_hash);
        lemma_store_index_unique_raw(st0, st1, i, file_hash);
        if store_has(st0, h) && h != file_hash {
            let w = store_index(st0, h);
            assert(st1.blobs[w].file_hash == h);
            lemma_store_index_unique_raw(st0, st1, w, h);
        }
        if store_has(st1, h) {
            let w = store_index(st1, h);
            assert(st0.blobs[w].file_hash == h);
            lemma_store_index_unique(st0, w, h);
        }
    } else {
        let ni = st0.blobs.len() as int;
        assert(st1.blobs[ni].file_hash == file_hash);
        lemma_open_keeps_wf(st0, file_hash, offset);
        lemma_store_index_unique(st1, ni, file_hash);
        assert(store_data(st1, file_hash) =~= store_data(st0, file_hash).subrange(
            0,
            offset as int,
        ));
        if store_has(st0, h) {
            let w = store_index(st0, h);
            assert(st1.blobs[w] == st0.blobs[w]);
            lemma_store_index_unique(st1, w, h);
            lemma_store_index_unique(st0, w, h);
        }
        if store_has(st1, h) && h != file_hash {
            let w = store_index(st1, h);
            assert(w != ni);
            assert(st0.blobs[w].file_hash == h);
            lemma_store_index_unique(st0, w, h);
        }
    }
}

/// Opening a writer keeps hashes unique.
pub proof fn lemma_open_keeps_wf(st0: StoreModel, file_hash: Seq<char>, offset: usize)
    requires
        store_wf(st0),
    ensures
        store_wf(open_writer_spec(st0, file_hash, offset)),
{
    let st1 = open_writer_spec(st0, file_hash, offset);
    if store_has(st0, file_hash) {
    } else {
        assert forall|i: int, j: int|
            0 <= i < j < st1.blobs.len() implies (#[trigger] st1.blobs[i]).file_hash != (
        #[trigger] st1.blobs[j]).file_hash by {
            if j == st1.blobs.len() - 1 {
                assert(st1.blobs[i] == st0.blobs[i]);
            }
        }
    }
}

/// How appending shows through lookups: the blob of `file_hash` grows by
/// exactly `data`, after its existing bytes; every other blob is untouched.
pub proof fn lemma_append_effect(st0: StoreModel, file_hash: Seq<char>, data: Seq<u8>, h: Seq<char>)
    requires
        store_wf(st0),
        store_has(st0, file_hash),
    ensures
        ({
            let st1 = append_spec(st0, file_hash, data);
            &&& (store_has(st1, h) <==> store_has(st0, h))
            &&& store_data(st1, file_hash) == store_data(st0, file_hash) + data
            &&& (store_has(st0, h) && h != file_hash ==> store_data(st1, h) == store_data(st0, h))
        }),
{
    let st1 = append_spec(st0, file_hash, data);
    let i = store_index(st0, file_hash);
    assert(st1.blobs[i].file_hash == file_hash);
    lemma_store_index_unique_raw(st0, st1, i, file_hash);
    if store_has(st0, h) {
        let w = store_index(st0, h);
        assert(st1.blobs[w].file_hash == h);
        lemma_store_index_unique_raw(st0, st1, w, h);
    }
    if store_has(st1, h) {
        let w = store_index(st1, h);
        assert(st0.blobs[w].file_hash == h);
        lemma_store_index_unique(st0, w, h);
    }
}

/// How deleting shows through lookups: the blob of `file_hash` is gone and
/// every other blob is untouched.
pub proof fn lemma_delete_file_effect(st0: StoreModel, file_hash: Seq<char>, h: Seq<char>)
    requires
        store_wf(st0),
    ensures
        ({
            let st1 = delete_file_spec(st0, file_hash);
            &&& !store_has(st1, file_hash)
            &&& (store_has(st1, h) <==> (store_has(st0, h) && h != file_hash))
            &&& (store_has(st1, h) ==> store_data(st1, h) == store_data(st0, h))
        }),
{
    let st1 = delete_file_spec(st0, file_hash);
    if store_has(st0, file_hash) {
        let bi = store_index(st0, file_hash);
        if store_has(st1, file_hash) {
            let w1 = store_index(st1, file_hash);
            let w = if w1 < bi {
                w1
            } else {
                w1 + 1
            };
            assert(st1.blobs[w1] == st0.blobs[w]);
            if w < bi {
                assert(st0.blobs[w].file_hash != st0.blobs[bi].file_hash);
            } else if w > bi {
                assert(st0.blobs[bi].file_hash != st0.blobs[w].file_hash);
            }
            assert(false);
        }
        if store_has(st0, h) && h != file_hash {
            let w = store_index(st0, h);
            assert(w != bi);
            let w1 = if w < bi {
                w
            } else {
                w - 1
            };
            assert(st1.blobs[w1] == st0.blobs[w]);
            lemma_store_index_unique_remove(st0, st1, bi, w1, h);
        }
        if store_has(st1, h) {
            let w1 = store_index(st1, h);
            let w = if w1 < bi {
                w1
            } else {
                w1 + 1
            };
            assert(st1.blobs[w1] == st0.blobs[w]);
            lemma_store_index_unique(st0, w, h);
            lemma_store_index_unique_remove(st0, st1, bi, w1, h);
        }
    }
}

/// Index identification in a state that removed `st0`'s blob `bi`.
proof fn lemma_store_index_unique_remove(
    st0: StoreModel,
    st1: StoreModel,
    bi: int,
    i: int,
    file_hash: Seq<char>,
)
    requires
        store_wf(st0),
        0 <= bi < st0.blobs.len(),
        st1.blobs == st0.blobs.remove(bi),
        0 <= i < st1.blobs.len(),
        st1.blobs[i].file_hash == file_hash,
    ensures
        store_has(st1, file_hash),
        store_index(st1, file_hash) == i,
        store_data(st1, file_hash) == st1.blobs[i].data,
{
    assert(store_has(st1, file_hash));
    let j = store_index(st1, file_hash);
    if i != j {
        let i0 = if i < bi {
            i
        } else {
            i + 1
        };
        let j0 = if j < bi {
            j
        } else {
            j + 1
        };
        assert(st1.blobs[i] == st0.blobs[i0]);
        assert(st1.blobs[j] == st0.blobs[j0]);
        if i0 < j0 {
            assert(st0.blobs[i0].file_hash != st0.blobs[j0].file_hash);
        } else {
            assert(st0.blobs[j0].file_hash != st0.blobs[i0].file_hash);
        }
    }
}

/// The blob store interface that the transfer engine sees.
pub trait FileStorage: Sized {
    /// The abstract state of the store.
    spec fn store(&self) -> StoreModel;

    /// The representation invariant; implies [`store_wf`] of the state.
    spec fn inv(&self) -> bool;

    proof fn inv_implies_wf(&self)
        requires
            self.inv(),
        ensures
            store_wf(self.store()),
    ;

    /// The physical byte count of a blob; 0 when the hash is unknown.
    fn size_of(&self, file_hash: &str) -> (r: usize)
        requires
            self.inv(),
        ensures
            r == store_size(self.store(), file_hash@),
    ;

    /// Open the blob of `file_hash` for writing at `offset`: the blob is
    /// created when absent, kept up to `offset` and cut back to it otherwise.
    fn open_writer(&mut self, file_hash: &str, offset: usize)
        requires
            old(self).inv(),
            offset <= store_size(old(self).store(), file_hash@),
        ensures
            final(self).inv(),
            final(self).store() == open_writer_spec(old(self).store(), file_hash@, offset),
    ;

    /// Append `data` after the blob's existing bytes; returns the new byte
    /// count.
    fn append(&mut self, file_hash: &str, data: &[u8]) -> (r: usize)
        requires
            old(self).inv(),
            store_has(old(self).store(), file_hash@),
        ensures
            final(self).inv(),
            final(self).store() == append_spec(old(self).store(), file_hash@, data@),
            r == store_size(final(self).store(), file_hash@),
    ;

    /// Remove the blob's bytes; `NotFound` when the hash is unknown.
    fn delete_file(&mut self, file_hash: &str) -> (r: Result<(), StorageError>)
        requires
            old(self).inv(),
        ensures
            final(self).inv(),
            final(self).store() == delete_file_spec(old(self).store(), file_hash@),
            r == if store_has(old(self).store(), file_hash@) {
                Ok::<(), StorageError>(())
            } else {
                Err::<(), StorageError>(StorageError::NotFound)
            },
    ;

    /// The blob's bytes, if the hash is stored.
    fn read_all(&self, file_hash: &str) -> (r: Option<Vec<u8>>)
        requires
            self.inv(),
        ensures
            r is Some <==> store_has(self.store(), file_hash@),
            r matches Some(d) ==> d@ == store_data(self.store(), file_hash@),
    ;
}

} // verus!
