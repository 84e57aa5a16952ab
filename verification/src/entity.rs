//! Entities persisted by the metadata store, and their abstract views.

use vstd::prelude::*;

verus! {

/// A registered account.  `id` is assigned by the store.
#[derive(Debug, PartialEq)]
pub struct User {
    pub id: u32,
    pub username: String,
    pub password: String,
    pub phone_number: String,
    pub email: String,
    pub create_time: u32,
}

/// Abstract view of a [`User`]: strings as character sequences.
pub ghost struct UserView {
    pub id: u32,
    pub username: Seq<char>,
    pub password: Seq<char>,
    pub phone_number: Seq<char>,
    pub email: Seq<char>,
    pub create_time: u32,
}

impl View for User {
    type V = UserView;

    open spec fn view(&self) -> UserView {
        UserView {
            id: self.id,
            username: self.username@,
            password: self.password@,
            phone_number: self.phone_number@,
            email: self.email@,
            create_time: self.create_time,
        }
    }
}

impl Clone for User {
    fn clone(&self) -> (r: Self)
        ensures
            r == *self,
    {
        User {
            id: self.id,
            username: self.username.clone(),
            password: self.password.clone(),
            phone_number: self.phone_number.clone(),
            email: self.email.clone(),
            create_time: self.create_time,
        }
    }
}

/// Credentials presented to [`crate::auth::login`].
#[derive(Debug, PartialEq)]
pub struct LoginInfo {
    pub username: String,
    pub password: String,
}

/// One file of one owner, joined with the sync progress of its content.
#[derive(Debug, PartialEq)]
pub struct SyncFileInfo {
    pub file_hash: String,
    pub sync_size: usize,
    pub file_size: usize,
    pub file_name: String,
    pub file_dir: String,
    pub file_meta: String,
}

/// Abstract view of a [`SyncFileInfo`].
pub ghost struct SyncFileInfoView {
    pub file_hash: Seq<char>,
    pub sync_size: usize,
    pub file_size: usize,
    pub file_name: Seq<char>,
    pub file_dir: Seq<char>,
    pub file_meta: Seq<char>,
}

impl View for SyncFileInfo {
    type V = SyncFileInfoView;

    open spec fn view(&self) -> SyncFileInfoView {
        SyncFileInfoView {
            file_hash: self.file_hash@,
            sync_size: self.sync_size,
            file_size: self.file_size,
            file_name: self.file_name@,
            file_dir: self.file_dir@,
            file_meta: self.file_meta@,
        }
    }
}

impl Clone for SyncFileInfo {
    fn clone(&self) -> (r: Self)
        ensures
            r == *self,
    {
        SyncFileInfo {
            file_hash: self.file_hash.clone(),
            sync_size: self.sync_size,
            file_size: self.file_size,
            file_name: self.file_name.clone(),
            file_dir: self.file_dir.clone(),
            file_meta: self.file_meta.clone(),
        }
    }
}

/// Position of one upload within a destination directory.
#[derive(Debug, PartialEq)]
pub struct UploadEntity {
    pub file_pos: usize,
    pub file_size: usize,
    pub file_name: String,
    pub dest_dir: String,
}

} // verus!
