//! Encrypted, deduplicating backup of a file tree to object stores: the
//! decision logic of the backup and restore pipelines, the deduplication
//! cache, the catalog rows and the naming of remote objects.

pub mod text;
pub mod units;
pub mod hash;
pub mod store;
pub mod cache;
pub mod filetype;
pub mod metadata_file;
pub mod restore;
pub mod hash_worker;
pub mod upload_worker;
pub mod pipeline;
pub mod decryption;
pub mod swift;
pub mod rebuild_cache;
pub mod sharding;
