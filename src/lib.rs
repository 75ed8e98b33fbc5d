//! Content-addressed decomposition of a checkpoint into chunks for state sync:
//! the chunk id address space, the versioned manifest hashes, the meta-manifest
//! and the file-group chunk table.
pub mod builder;
pub mod chunk_id;
pub mod decode;
pub mod file_group;
pub mod hashing;
pub mod manifest;
pub mod meta_manifest;
pub mod render;
pub mod validate;
pub mod version;
