//! The in-memory backend of [`FileStorage`]: the authoritative, verified
//! byte state of every blob.  A durability mirror (for instance the sharded
//! directory layout of [`crate::local_file_storage`]) is driven outside the
//! verified core and replays the same operations.

use vstd::prelude::*;

use crate::errors::StorageError;
use crate::file_storage::{
    append_spec, delete_file_spec, lemma_store_index_unique, open_writer_spec, store_data,
    store_empty, store_has, store_index, store_wf, FileStorage, StoreModel, StoredBlobView,
};

verus! {

/// One stored blob: a content hash and its bytes.
pub struct StoredBlob {
    pub file_hash: String,
    pub data: Vec<u8>,
}

impl View for StoredBlob {
    type V = StoredBlobView;

    open spec fn view(&self) -> StoredBlobView {
        StoredBlobView { file_hash: self.file_hash@, data: self.data@ }
    }
}

/// The blob store held as a plain vector, searched linearly; one entry per
/// hash.
pub struct BlobStore {
    blobs: Vec<StoredBlob>,
}

impl BlobStore {
    /// A store with no blobs.
    pub fn new() -> (r: Self)
        ensures
            r.inv(),
            r.store() == store_empty(),
    {
        let r = BlobStore { blobs: Vec::new() };
        proof {
            assert(r.store() =~= store_empty());
        }
        r
    }

    /// Index of the blob of `file_hash`, if any.
    fn find_idx(&self, file_hash: &str) -> (r: Option<usize>)
        requires
            self.inv(),
        ensures
            r matches Some(i) ==> i < self.store().blobs.len() && store_has(
                self.store(),
                file_hash@,
            ) && store_index(self.store(), file_hash@) == i,
            r is None ==> !store_has(self.store(), file_hash@),
    {
        let target = file_hash.to_owned();
        let mut k: usize = 0;
        while k < self.blobs.len()
            invariant
                self.inv(),
                k <= self.blobs.len(),
                target@ == file_hash@,
                forall|j: int|
                    0 <= j < k ==> (#[trigger] self.store().blobs[j]).file_hash != file_hash@,
            decreases self.blobs.len() - k,
        {
            if self.blobs[k].file_hash == target {
                proof {
                    self.inv_implies_wf();
                    lemma_store_index_unique(self.store(), k as int, file_hash@);
                }
                return Some(k);
            }
            k += 1;
        }
        None
    }
}

impl FileStorage for BlobStore {
    closed spec fn store(&self) -> StoreModel {
        StoreModel { blobs: self.blobs@.map_values(|b: StoredBlob| b@) }
    }

    closed spec fn inv(&self) -> bool {
        store_wf(self.store())
    }

    proof fn inv_implies_wf(&self) {
    }

    fn size_of(&self, file_hash: &str) -> (r: usize) {
        match self.find_idx(file_hash) {
            Some(i) => self.blobs[i].data.len(),
            None => 0,
        }
    }

    fn open_writer(&mut self, file_hash: &str, offset: usize) {
        let ghost st0 = self.store();
        match self.find_idx(file_hash) {
            Some(i) => {
                let mut b = self.blobs.remove(i);
                b.data.truncate(offset);
                self.blobs.insert(i, b);
                proof {
                    let st1 = self.store();
                    let target = open_writer_spec(st0, file_hash@, offset);
                    assert(st1.blobs =~= target.blobs);
                    assert(st1 =~= target);
                    lemma_open_writer_wf(st0, file_hash@, offset);
                }
            },
            None => {
                self.blobs.push(StoredBlob { file_hash: file_hash.to_owned(), data: Vec::new() });
                proof {
                    let st1 = self.store();
                    let target = open_writer_spec(st0, file_hash@, offset);
                    assert(st1.blobs =~= target.blobs);
                    assert(st1 =~= target);
                    lemma_open_writer_wf(st0, file_hash@, offset);
                }
            },
        }
    }

    fn append(&mut self, file_hash: &str, data: &[u8]) -> (r: usize) {
        let ghost st0 = self.store();
        match self.find_idx(file_hash) {
            Some(i) => {
                let mut b = self.blobs.remove(i);
                b.data.extend_from_slice(data);
                let n = b.data.len();
                self.blobs.insert(i, b);
                proof {
                    let st1 = self.store();
                    let target = append_spec(st0, file_hash@, data@);
                    assert(st1.blobs[i as int].data =~= st0.blobs[i as int].data + data@);
                    assert(st1.blobs =~= target.blobs);
                    assert(st1 =~= target);
                    lemma_append_wf(st0, file_hash@, data@);
                    lemma_store_index_unique(st1, i as int, file_hash@);
                }
                n
            },
            None => {
                // Unreachable: callers may append only to a stored hash.
                proof {
                    assert(false);
                }
                0
            },
        }
    }

    fn delete_file(&mut self, file_hash: &str) -> (r: Result<(), StorageError>) {
        let ghost st0 = self.store();
        match self.find_idx(file_hash) {
            Some(i) => {
                self.blobs.remove(i);
                proof {
                    let st1 = self.store();
                    let target = delete_file_spec(st0, file_hash@);
                    assert(st1.blobs =~= target.blobs);
                    assert(st1 =~= target);
                    lemma_delete_wf(st0, file_hash@);
                }
                Ok(())
            },
            None => Err(StorageError::NotFound),
        }
    }

    fn read_all(&self, file_hash: &str) -> (r: Option<Vec<u8>>) {
        match self.find_idx(file_hash) {
            Some(i) => {
                let mut out: Vec<u8> = Vec::new();
                out.extend_from_slice(self.blobs[i].data.as_slice());
                proof {
                    assert(out@ =~= store_data(self.store(), file_hash@));
                }
                Some(out)
            },
            None => None,
        }
    }
}

/// Opening a writer keeps hashes unique.
proof fn lemma_open_writer_wf(st0: StoreModel, file_hash: Seq<char>, offset: usize)
    requires
        store_wf(st0),
    ensures
        store_wf(open_writer_spec(st0, file_hash, offset)),
{
    let st1 = open_writer_spec(st0, file_hash, offset);
    if store_has(st0, file_hash) {
    } else {
        assert forall|i: int, j: int|
            0 <= i < j < st1.blobs.len() implies (#[trigger] st1.blobs[i]).file_hash != (
        #[trigger] st1.blobs[j]).file_hash by {
            if j == st1.blobs.len() - 1 {
                assert(st1.blobs[i] == st0.blobs[i]);
            }
        }
    }
}

/// Appending keeps hashes unique.
proof fn lemma_append_wf(st0: StoreModel, file_hash: Seq<char>, data: Seq<u8>)
    requires
        store_wf(st0),
    ensures
        store_wf(append_spec(st0, file_hash, data)),
{
}

/// Deleting keeps hashes unique.
proof fn lemma_delete_wf(st0: StoreModel, file_hash: Seq<char>)
    requires
        store_wf(st0),
    ensures
        store_wf(delete_file_spec(st0, file_hash)),
{
    let st1 = delete_file_spec(st0, file_hash);
    if store_has(st0, file_hash) {
        let k = store_index(st0, file_hash);
        assert forall|i: int, j: int|
            0 <= i < j < st1.blobs.len() implies (#[trigger] st1.blobs[i]).file_hash != (
        #[trigger] st1.blobs[j]).file_hash by {
            let i0 = if i < k {
                i
            } else {
                i + 1
            };
            let j0 = if j < k {
                j
            } else {
                j + 1
            };
            assert(st1.blobs[i] == st0.blobs[i0]);
            assert(st1.blobs[j] == st0.blobs[j0]);
        }
    }
}

} // verus!
