//! Content-addressed placement of blobs on a local directory tree.
//!
//! The store locates a blob purely from its content hash: the first two
//! characters name a shard subdirectory (bounding directory fan-out), the
//! remaining characters name the file.  This module holds the verified
//! layout rules; the file system work that uses them runs outside the
//! verified core.

use vstd::prelude::*;
use vstd::string::StrSliceExecFns;
use vstd::string::StringExecFns;

verus! {

/// Number of leading hash characters that name the shard subdirectory.
pub const SHARD_CHARS: usize = 2;

/// The path layout of a blob store rooted at `base_dir`.
pub struct LocalFileStorage {
    pub base_dir: String,
}

impl LocalFileStorage {
    pub fn new(base_dir: String) -> (r: Self)
        ensures
            r.base_dir@ == base_dir@,
    {
        LocalFileStorage { base_dir }
    }

    /// The shard subdirectory of a hash: `base_dir`, a separator, then the
    /// first two characters of the hash.
    pub fn shard_dir(&self, file_hash: &str) -> (r: String)
        requires
            file_hash@.len() > SHARD_CHARS,
        ensures
            r@ == self.base_dir@ + "/"@ + file_hash@.subrange(0, SHARD_CHARS as int),
    {
        let mut out = self.base_dir.clone();
        out.append("/");
        out.append(file_hash.substring_char(0, SHARD_CHARS));
        out
    }

    /// The full path of a blob: its shard subdirectory, a separator, then
    /// the remaining characters of the hash as the file name.
    pub fn blob_path(&self, file_hash: &str) -> (r: String)
        requires
            file_hash@.len() > SHARD_CHARS,
        ensures
            r@ == self.base_dir@ + "/"@ + file_hash@.subrange(0, SHARD_CHARS as int) + "/"@
                + file_hash@.subrange(SHARD_CHARS as int, file_hash@.len() as int),
    {
        let mut out = self.shard_dir(file_hash);
        out.append("/");
        let n = file_hash.unicode_len();
        out.append(file_hash.substring_char(SHARD_CHARS, n));
        out
    }
}

} // verus!
