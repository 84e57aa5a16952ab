//! A personal file-sync engine.
//!
//! Clients upload files over a persistent streaming connection.  The engine
//! deduplicates identical content across users and paths by content hash,
//! tracks per-path metadata with reference counts, and resumes an interrupted
//! upload from the last acknowledged byte offset.
//!
//! The crate holds the verified core: the control-message codec, the
//! content-addressed metadata and blob stores with their invariants, and the
//! per-connection transfer state machine.  Network transport, the on-disk
//! mirrors of the stores, and HTTP routing live outside this crate and drive
//! it through plain values.

pub mod auth;
pub mod blob_store;
pub mod codec;
pub mod database;
pub mod database_manager;
pub mod entity;
pub mod errors;
pub mod file_storage;
pub mod local_file_storage;
pub mod memory_database;
pub mod protocol;
pub mod storage_context;
pub mod transfer_task;
