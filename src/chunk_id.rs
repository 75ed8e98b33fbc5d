//! The flat `u32` chunk id space shared by the four kinds of transferable chunk.
use vstd::prelude::*;

verus! {

/// The default chunk size used in manifest computation and state sync.
pub const DEFAULT_CHUNK_SIZE: u32 = 1048576;

/// Id of the meta-manifest chunk.
pub const META_MANIFEST_CHUNK: u32 = 0;

/// File chunk ids start at 1: the id of a file chunk is its chunk table index plus 1.
pub const FILE_CHUNK_ID_OFFSET: usize = 1;

/// First id of the range reserved for chunks that bundle several small files (2^30).
pub const FILE_GROUP_CHUNK_ID_OFFSET: u32 = 1073741824;

/// First id of the range of encoded-manifest chunks (2^31).
pub const MANIFEST_CHUNK_ID_OFFSET: u32 = 2147483648;

/// The kind of a chunk in state sync and its index within that kind.
#[derive(Debug, PartialEq, Eq, Structural, Clone, Copy)]
pub enum StateSyncChunk {
    /// The chunk representing the meta-manifest.
    MetaManifestChunk,
    /// Nth file chunk (0-based).
    FileChunk(u32),
    /// Chunk grouping several small files; the value is the chunk id itself.
    FileGroupChunk(u32),
    /// Nth encoded manifest chunk (0-based).
    ManifestChunk(u32),
}

/// The kind of the chunk with id `id`.
pub open spec fn chunk_kind(id: u32) -> StateSyncChunk {
    if id == 0 {
        StateSyncChunk::MetaManifestChunk
    } else if id < FILE_GROUP_CHUNK_ID_OFFSET {
        StateSyncChunk::FileChunk((id - 1) as u32)
    } else if id < MANIFEST_CHUNK_ID_OFFSET {
        StateSyncChunk::FileGroupChunk(id)
    } else {
        StateSyncChunk::ManifestChunk((id - MANIFEST_CHUNK_ID_OFFSET) as u32)
    }
}

/// The chunk id that a kind and its index stand for.
pub open spec fn chunk_id_of(c: StateSyncChunk) -> int {
    match c {
        StateSyncChunk::MetaManifestChunk => 0,
        StateSyncChunk::FileChunk(i) => i + 1,
        StateSyncChunk::FileGroupChunk(id) => id as int,
        StateSyncChunk::ManifestChunk(i) => i + MANIFEST_CHUNK_ID_OFFSET,
    }
}

/// Whether `c` is a kind and index that some chunk id stands for.
pub open spec fn is_addressable(c: StateSyncChunk) -> bool {
    match c {
        StateSyncChunk::MetaManifestChunk => true,
        StateSyncChunk::FileChunk(i) => i + 1 < FILE_GROUP_CHUNK_ID_OFFSET,
        StateSyncChunk::FileGroupChunk(id) => FILE_GROUP_CHUNK_ID_OFFSET <= id
            < MANIFEST_CHUNK_ID_OFFSET,
        StateSyncChunk::ManifestChunk(i) => i + MANIFEST_CHUNK_ID_OFFSET <= u32::MAX,
    }
}

/// Converts a chunk id to its kind and the index within that kind.
pub fn state_sync_chunk_type(chunk_id: u32) -> (r: StateSyncChunk)
    ensures
        r == chunk_kind(chunk_id),
{
    if chunk_id == 0 {
        StateSyncChunk::MetaManifestChunk
    } else if chunk_id < FILE_GROUP_CHUNK_ID_OFFSET {
        StateSyncChunk::FileChunk(chunk_id - FILE_CHUNK_ID_OFFSET as u32)
    } else if chunk_id < MANIFEST_CHUNK_ID_OFFSET {
        // The key of a file group chunk is the chunk id itself.
        StateSyncChunk::FileGroupChunk(chunk_id)
    } else {
        StateSyncChunk::ManifestChunk(chunk_id - MANIFEST_CHUNK_ID_OFFSET)
    }
}

/// The four id ranges partition the whole `u32` space: every id gets exactly one
/// addressable kind, the id can be read back from that kind, and every
/// addressable kind is reached from exactly one id.
pub proof fn lemma_chunk_id_partition(n: u32)
    ensures
        is_addressable(chunk_kind(n)),
        chunk_id_of(chunk_kind(n)) == n,
        forall|c: StateSyncChunk|
            is_addressable(c) ==> chunk_id_of(c) <= u32::MAX && #[trigger] chunk_kind(
                chunk_id_of(c) as u32,
            ) == c,
        n == 0 <==> chunk_kind(n) is MetaManifestChunk,
        1 <= n < FILE_GROUP_CHUNK_ID_OFFSET <==> chunk_kind(n) is FileChunk,
        FILE_GROUP_CHUNK_ID_OFFSET <= n < MANIFEST_CHUNK_ID_OFFSET <==> chunk_kind(
            n,
        ) is FileGroupChunk,
        MANIFEST_CHUNK_ID_OFFSET <= n <==> chunk_kind(n) is ManifestChunk,
{
}

} // verus!
