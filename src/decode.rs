//! Turning the plain fields of a decoded manifest or meta-manifest into the
//! library's values, refusing unknown versions and malformed hashes.
use crate::manifest::{ChunkInfo, FileInfo, Manifest, ManifestData};
use crate::meta_manifest::MetaManifest;
use crate::validate::{chunk_in_order, file_covered, is_well_formed, validate_manifest, StructuralError};
use crate::version::StateSyncVersion;
use vstd::prelude::*;

verus! {

/// Why decoded fields do not make a value.
#[derive(Debug, Clone, Copy, PartialEq, Eq, Structural)]
pub enum DecodeError {
    /// The version number names no supported version.
    UnsupportedVersion(u32),
    /// A hash does not have 32 bytes; this is its length.
    InvalidHashLength(usize),
    /// The chunk table does not tile the files of the file table.
    Malformed(StructuralError),
}

/// Whether `n` is the length of the first hash among `hs` that does not have 32 bytes.
pub open spec fn is_first_bad_len(hs: Seq<Seq<u8>>, n: int) -> bool {
    exists|i: int|
        0 <= i < hs.len() && #[trigger] hs[i].len() != 32 && n == hs[i].len() && forall|j: int|
            0 <= j < i ==> #[trigger] hs[j].len() == 32
}

/// Whether every hash among `hs` has 32 bytes.
pub open spec fn all_hashes_fit(hs: Seq<Seq<u8>>) -> bool {
    forall|i: int| 0 <= i < hs.len() ==> #[trigger] hs[i].len() == 32
}

/// The hash held in `bytes`, where it has 32 bytes.
pub fn hash_from_bytes(bytes: &Vec<u8>) -> (r: Result<[u8; 32], DecodeError>)
    ensures
        r is Ok <==> bytes@.len() == 32,
        r matches Ok(h) ==> h@ == bytes@,
        r matches Err(e) ==> e == DecodeError::InvalidHashLength(bytes.len()),
{
    if bytes.len() != 32 {
        return Err(DecodeError::InvalidHashLength(bytes.len()));
    }
    let mut h: [u8; 32] = [0u8; 32];
    let mut i: usize = 0;
    while i < 32
        invariant
            i <= 32,
            bytes@.len() == 32,
            h@.len() == 32,
            forall|k: int| 0 <= k < i ==> h@[k] == bytes@[k],
        decreases 32 - i,
    {
        h.set(i, bytes[i]);
        i = i + 1;
    }
    assert(h@ =~= bytes@);
    Ok(h)
}

/// The hashes of the entries of a decoded file table.
pub open spec fn file_part_hashes(files: Seq<(String, u64, Vec<u8>)>) -> Seq<Seq<u8>> {
    files.map_values(|f: (String, u64, Vec<u8>)| f.2@)
}

/// The hashes of the entries of a decoded chunk table.
pub open spec fn chunk_part_hashes(chunks: Seq<(u32, u32, u64, Vec<u8>)>) -> Seq<Seq<u8>> {
    chunks.map_values(|c: (u32, u32, u64, Vec<u8>)| c.3@)
}

/// The hashes of a decoded meta-manifest.
pub open spec fn hash_part_views(hashes: Seq<Vec<u8>>) -> Seq<Seq<u8>> {
    hashes.map_values(|h: Vec<u8>| h@)
}

/// Whether `f` holds the fields `p` (relative path, size, hash).
pub open spec fn file_holds(f: FileInfo, p: (String, u64, Vec<u8>)) -> bool {
    f.relative_path@ == p.0@ && f.size_bytes == p.1 && f.hash@ == p.2@
}

/// Whether `c` holds the fields `p` (file index, size, offset, hash).
pub open spec fn chunk_holds(c: ChunkInfo, p: (u32, u32, u64, Vec<u8>)) -> bool {
    c.file_index == p.0 && c.size_bytes == p.1 && c.offset == p.2 && c.hash@ == p.3@
}

/// Whether `version`, `files` and `chunks` are the fields of the manifest `m`.
pub open spec fn parts_of_manifest(
    m: ManifestData,
    version: u32,
    files: Seq<(String, u64, Vec<u8>)>,
    chunks: Seq<(u32, u32, u64, Vec<u8>)>,
) -> bool {
    &&& m.version.number() == version
    &&& m.file_table@.len() == files.len()
    &&& m.chunk_table@.len() == chunks.len()
    &&& forall|i: int| 0 <= i < files.len() ==> #[trigger] file_holds(m.file_table@[i], files[i])
    &&& forall|i: int| 0 <= i < chunks.len() ==> #[trigger] chunk_holds(m.chunk_table@[i], chunks[i])
}

/// Whether `version` and `hashes` are the fields of the meta-manifest `m`.
pub open spec fn parts_of_meta_manifest(m: MetaManifest, version: u32, hashes: Seq<Vec<u8>>) -> bool {
    &&& m.version.number() == version
    &&& m.sub_manifest_hashes@.len() == hashes.len()
    &&& forall|i: int| 0 <= i < hashes.len() ==> #[trigger] m.sub_manifest_hashes@[i]@ == hashes[i]@
}

/// The fields of a manifest: its version number, its file table as (relative
/// path, size, hash) and its chunk table as (file index, size, offset, hash).
pub fn manifest_parts(manifest: &Manifest) -> (r: (u32, Vec<(String, u64, Vec<u8>)>, Vec<(u32, u32, u64, Vec<u8>)>))
    ensures
        parts_of_manifest(manifest@, r.0, r.1@, r.2@),
{
    let m = manifest.data();
    let mut files: Vec<(String, u64, Vec<u8>)> = Vec::new();
    let mut i: usize = 0;
    while i < m.file_table.len()
        invariant
            i <= m.file_table@.len(),
            files@.len() == i,
            forall|k: int| 0 <= k < i ==> #[trigger] file_holds(m.file_table@[k], files@[k]),
        decreases m.file_table@.len() - i,
    {
        let f = &m.file_table[i];
        files.push((f.relative_path.clone(), f.size_bytes, hash_to_vec(&f.hash)));
        i = i + 1;
    }
    let mut chunks: Vec<(u32, u32, u64, Vec<u8>)> = Vec::new();
    let mut j: usize = 0;
    while j < m.chunk_table.len()
        invariant
            j <= m.chunk_table@.len(),
            chunks@.len() == j,
            forall|k: int| 0 <= k < j ==> #[trigger] chunk_holds(m.chunk_table@[k], chunks@[k]),
        decreases m.chunk_table@.len() - j,
    {
        let c = &m.chunk_table[j];
        chunks.push((c.file_index, c.size_bytes, c.offset, hash_to_vec(&c.hash)));
        j = j + 1;
    }
    (m.version.as_u32(), files, chunks)
}

/// The fields of a meta-manifest: its version number and its sub-manifest hashes.
pub fn meta_manifest_parts(meta_manifest: &MetaManifest) -> (r: (u32, Vec<Vec<u8>>))
    ensures
        parts_of_meta_manifest(*meta_manifest, r.0, r.1@),
{
    let hs = &meta_manifest.sub_manifest_hashes;
    let mut out: Vec<Vec<u8>> = Vec::new();
    let mut i: usize = 0;
    while i < hs.len()
        invariant
            i <= hs@.len(),
            out@.len() == i,
            forall|k: int| 0 <= k < i ==> #[trigger] hs@[k]@ == out@[k]@,
        decreases hs@.len() - i,
    {
        out.push(hash_to_vec(&hs[i]));
        i = i + 1;
    }
    (meta_manifest.version.as_u32(), out)
}

fn hash_to_vec(h: &[u8; 32]) -> (r: Vec<u8>)
    ensures
        r@ == h@,
{
    let mut v: Vec<u8> = Vec::new();
    let mut i: usize = 0;
    while i < 32
        invariant
            i <= 32,
            h@.len() == 32,
            v@ == h@.subrange(0, i as int),
        decreases 32 - i,
    {
        v.push(h[i]);
        i = i + 1;
        assert(v@ =~= h@.subrange(0, i as int));
    }
    assert(h@.subrange(0, 32) =~= h@);
    v
}

/// The fields of a manifest make it again: they pass every check of
/// `manifest_from_parts`, and a manifest that holds them has the same version
/// and the same tables, entry by entry.
pub proof fn lemma_manifest_parts_round_trip(
    m: ManifestData,
    version: u32,
    files: Seq<(String, u64, Vec<u8>)>,
    chunks: Seq<(u32, u32, u64, Vec<u8>)>,
    decoded: ManifestData,
)
    requires
        parts_of_manifest(m, version, files, chunks),
        parts_of_manifest(decoded, version, files, chunks),
    ensures
        version <= 3,
        all_hashes_fit(file_part_hashes(files)),
        all_hashes_fit(chunk_part_hashes(chunks)),
        decoded.version == m.version,
        decoded.file_table@.len() == m.file_table@.len(),
        decoded.chunk_table@.len() == m.chunk_table@.len(),
        forall|i: int|
            0 <= i < m.file_table@.len() ==> #[trigger] decoded.file_table@[i].relative_path@
                == m.file_table@[i].relative_path@ && decoded.file_table@[i].size_bytes
                == m.file_table@[i].size_bytes && decoded.file_table@[i].hash@
                == m.file_table@[i].hash@,
        forall|i: int|
            0 <= i < m.chunk_table@.len() ==> #[trigger] decoded.chunk_table@[i] == m.chunk_table@[i],
{
    assert forall|i: int| 0 <= i < files.len() implies #[trigger] file_part_hashes(files)[i].len() == 32 by {
        assert(file_holds(m.file_table@[i], files[i]));
    }
    assert forall|i: int| 0 <= i < chunks.len() implies #[trigger] chunk_part_hashes(chunks)[i].len() == 32 by {
        assert(chunk_holds(m.chunk_table@[i], chunks[i]));
    }
    assert forall|i: int| 0 <= i < m.file_table@.len() implies #[trigger] decoded.file_table@[i].relative_path@
        == m.file_table@[i].relative_path@ && decoded.file_table@[i].size_bytes
        == m.file_table@[i].size_bytes && decoded.file_table@[i].hash@ == m.file_table@[i].hash@ by {
        assert(file_holds(m.file_table@[i], files[i]));
        assert(file_holds(decoded.file_table@[i], files[i]));
    }
    assert forall|i: int| 0 <= i < m.chunk_table@.len() implies #[trigger] decoded.chunk_table@[i]
        == m.chunk_table@[i] by {
        assert(chunk_holds(m.chunk_table@[i], chunks[i]));
        assert(chunk_holds(decoded.chunk_table@[i], chunks[i]));
        assert(decoded.chunk_table@[i].hash =~= m.chunk_table@[i].hash);
    }
}

/// The fields of a meta-manifest make it again: they pass every check of
/// `meta_manifest_from_parts`, and a meta-manifest that holds them is equal
/// to it.
pub proof fn lemma_meta_manifest_parts_round_trip(
    m: MetaManifest,
    version: u32,
    hashes: Seq<Vec<u8>>,
    decoded: MetaManifest,
)
    requires
        parts_of_meta_manifest(m, version, hashes),
        parts_of_meta_manifest(decoded, version, hashes),
    ensures
        version <= 3,
        all_hashes_fit(hash_part_views(hashes)),
        decoded.version == m.version,
        decoded.sub_manifest_hashes@ == m.sub_manifest_hashes@,
{
    assert forall|i: int| 0 <= i < hashes.len() implies #[trigger] hash_part_views(hashes)[i].len() == 32 by {
        assert(m.sub_manifest_hashes@[i]@ == hashes[i]@);
    }
    assert forall|i: int| 0 <= i < hashes.len() implies #[trigger] decoded.sub_manifest_hashes@[i]
        == m.sub_manifest_hashes@[i] by {
        assert(decoded.sub_manifest_hashes@[i] =~= m.sub_manifest_hashes@[i]);
    }
    assert(decoded.sub_manifest_hashes@ =~= m.sub_manifest_hashes@);
}

fn files_from_parts(files: &Vec<(String, u64, Vec<u8>)>) -> (r: Result<Vec<FileInfo>, DecodeError>)
    ensures
        r is Ok <==> all_hashes_fit(file_part_hashes(files@)),
        r matches Ok(v) ==> v@.len() == files@.len() && forall|i: int|
            0 <= i < files@.len() ==> #[trigger] file_holds(v@[i], files@[i]),
        r matches Err(e) ==> e matches DecodeError::InvalidHashLength(_),
        r matches Err(DecodeError::InvalidHashLength(n)) ==> is_first_bad_len(file_part_hashes(files@), n as int),
{
    let mut out: Vec<FileInfo> = Vec::new();
    let mut i: usize = 0;
    while i < files.len()
        invariant
            i <= files@.len(),
            out@.len() == i,
            forall|k: int| 0 <= k < i ==> #[trigger] file_holds(out@[k], files@[k]),
            forall|k: int| 0 <= k < i ==> #[trigger] files@[k].2@.len() == 32,
        decreases files@.len() - i,
    {
        let hash = match hash_from_bytes(&files[i].2) {
            Ok(h) => h,
            Err(e) => {
                proof {
                    let hs = file_part_hashes(files@);
                    assert(hs[i as int] == files@[i as int].2@);
                    assert forall|j: int| 0 <= j < i implies #[trigger] hs[j].len() == 32 by {
                        assert(files@[j].2@.len() == 32);
                    }
                    assert(is_first_bad_len(hs, files@[i as int].2@.len() as int));
                }
                return Err(e);
            },
        };
        out.push(FileInfo { relative_path: files[i].0.clone(), size_bytes: files[i].1, hash });
        i = i + 1;
    }
    proof {
        assert forall|k: int| 0 <= k < files@.len() implies #[trigger] file_part_hashes(files@)[k].len()
            == 32 by {
            assert(files@[k].2@.len() == 32);
        }
    }
    Ok(out)
}

fn chunks_from_parts(chunks: &Vec<(u32, u32, u64, Vec<u8>)>) -> (r: Result<Vec<ChunkInfo>, DecodeError>)
    ensures
        r is Ok <==> all_hashes_fit(chunk_part_hashes(chunks@)),
        r matches Ok(v) ==> v@.len() == chunks@.len() && forall|i: int|
            0 <= i < chunks@.len() ==> #[trigger] chunk_holds(v@[i], chunks@[i]),
        r matches Err(e) ==> e matches DecodeError::InvalidHashLength(_),
        r matches Err(DecodeError::InvalidHashLength(n)) ==> is_first_bad_len(chunk_part_hashes(chunks@), n as int),
{
    let mut out: Vec<ChunkInfo> = Vec::new();
    let mut i: usize = 0;
    while i < chunks.len()
        invariant
            i <= chunks@.len(),
            out@.len() == i,
            forall|k: int| 0 <= k < i ==> #[trigger] chunk_holds(out@[k], chunks@[k]),
            forall|k: int| 0 <= k < i ==> #[trigger] chunks@[k].3@.len() == 32,
        decreases chunks@.len() - i,
    {
        let hash = match hash_from_bytes(&chunks[i].3) {
            Ok(h) => h,
            Err(e) => {
                proof {
                    let hs = chunk_part_hashes(chunks@);
                    assert(hs[i as int] == chunks@[i as int].3@);
                    assert forall|j: int| 0 <= j < i implies #[trigger] hs[j].len() == 32 by {
                        assert(chunks@[j].3@.len() == 32);
                    }
                    assert(is_first_bad_len(hs, chunks@[i as int].3@.len() as int));
                }
                return Err(e);
            },
        };
        out.push(
            ChunkInfo {
                file_index: chunks[i].0,
                size_bytes: chunks[i].1,
                offset: chunks[i].2,
                hash,
            },
        );
        i = i + 1;
    }
    proof {
        assert forall|k: int| 0 <= k < chunks@.len() implies #[trigger] chunk_part_hashes(chunks@)[k].len()
            == 32 by {
            assert(chunks@[k].3@.len() == 32);
        }
    }
    Ok(out)
}

/// Whether every manifest that holds the fields `version`, `files` and
/// `chunks` is well formed.
pub open spec fn parts_well_formed(
    version: u32,
    files: Seq<(String, u64, Vec<u8>)>,
    chunks: Seq<(u32, u32, u64, Vec<u8>)>,
) -> bool {
    forall|m: ManifestData| #[trigger] parts_of_manifest(m, version, files, chunks) ==> is_well_formed(m)
}

/// Two manifests that hold the same fields have the same chunk table and
/// agree on every structural check.
proof fn lemma_structure_by_parts(
    m1: ManifestData,
    m2: ManifestData,
    version: u32,
    files: Seq<(String, u64, Vec<u8>)>,
    chunks: Seq<(u32, u32, u64, Vec<u8>)>,
)
    requires
        parts_of_manifest(m1, version, files, chunks),
        parts_of_manifest(m2, version, files, chunks),
    ensures
        m1.chunk_table@ == m2.chunk_table@,
        forall|k: int| 0 <= k < m1.chunk_table@.len() ==> chunk_in_order(m1.chunk_table@, m1.file_table@, k)
            == #[trigger] chunk_in_order(m2.chunk_table@, m2.file_table@, k),
        forall|i: int| 0 <= i < m1.file_table@.len() ==> file_covered(m1.chunk_table@, m1.file_table@, i)
            == #[trigger] file_covered(m2.chunk_table@, m2.file_table@, i),
        is_well_formed(m1) == is_well_formed(m2),
{
    let ct = m1.chunk_table@;
    let f1 = m1.file_table@;
    let f2 = m2.file_table@;
    assert forall|k: int| 0 <= k < ct.len() implies ct[k] == m2.chunk_table@[k] by {
        assert(chunk_holds(ct[k], chunks[k]));
        assert(chunk_holds(m2.chunk_table@[k], chunks[k]));
        assert(ct[k].hash =~= m2.chunk_table@[k].hash);
    }
    assert(ct =~= m2.chunk_table@);
    assert forall|i: int| 0 <= i < f1.len() implies #[trigger] f1[i].size_bytes == f2[i].size_bytes by {
        assert(file_holds(f1[i], files[i]));
        assert(file_holds(f2[i], files[i]));
    }
    assert forall|k: int| 0 <= k < ct.len() implies chunk_in_order(ct, f1, k) == #[trigger] chunk_in_order(
        ct,
        f2,
        k,
    ) by {
        if ct[k].file_index < f1.len() {
            assert(f1[ct[k].file_index as int].size_bytes == f2[ct[k].file_index as int].size_bytes);
        }
    }
    assert forall|i: int| 0 <= i < f1.len() implies file_covered(ct, f1, i) == #[trigger] file_covered(
        ct,
        f2,
        i,
    ) by {
        assert(f1[i].size_bytes == f2[i].size_bytes);
    }
    if is_well_formed(m1) {
        assert forall|k: int| 0 <= k < ct.len() implies #[trigger] chunk_in_order(ct, f2, k) by {
            assert(chunk_in_order(ct, f1, k));
        }
        assert forall|i: int| 0 <= i < f2.len() implies #[trigger] file_covered(ct, f2, i) by {
            assert(file_covered(ct, f1, i));
        }
    }
    if is_well_formed(m2) {
        assert forall|k: int| 0 <= k < ct.len() implies #[trigger] chunk_in_order(ct, f1, k) by {
            assert(chunk_in_order(ct, f2, k));
        }
        assert forall|i: int| 0 <= i < f1.len() implies #[trigger] file_covered(ct, f1, i) by {
            assert(file_covered(ct, f2, i));
        }
    }
}

/// The manifest with the decoded fields `version`, `files` (relative path,
/// size, hash) and `chunks` (file index, size, offset, hash). An unknown
/// version is refused first, then a hash that does not have 32 bytes (the
/// file table's hashes before the chunk table's), then a chunk table that
/// does not tile the files.
pub fn manifest_from_parts(
    version: u32,
    files: &Vec<(String, u64, Vec<u8>)>,
    chunks: &Vec<(u32, u32, u64, Vec<u8>)>,
) -> (r: Result<Manifest, DecodeError>)
    ensures
        r is Ok <==> version <= 3 && all_hashes_fit(file_part_hashes(files@)) && all_hashes_fit(
            chunk_part_hashes(chunks@),
        ) && parts_well_formed(version, files@, chunks@),
        r matches Err(DecodeError::UnsupportedVersion(v)) <==> version > 3,
        r matches Err(DecodeError::UnsupportedVersion(v)) ==> v == version,
        r matches Err(DecodeError::InvalidHashLength(n)) <==> version <= 3 && !(all_hashes_fit(
            file_part_hashes(files@),
        ) && all_hashes_fit(chunk_part_hashes(chunks@))),
        r matches Err(DecodeError::InvalidHashLength(n)) ==> if all_hashes_fit(file_part_hashes(files@)) {
            is_first_bad_len(chunk_part_hashes(chunks@), n as int)
        } else {
            is_first_bad_len(file_part_hashes(files@), n as int)
        },
        r matches Err(DecodeError::Malformed(e)) ==> forall|m: ManifestData|
            #[trigger] parts_of_manifest(m, version, files@, chunks@) ==> match e {
                StructuralError::Chunk(k) => k < m.chunk_table@.len() && !chunk_in_order(
                    m.chunk_table@,
                    m.file_table@,
                    k as int,
                ),
                StructuralError::File(i) => i < m.file_table@.len() && !file_covered(
                    m.chunk_table@,
                    m.file_table@,
                    i as int,
                ),
            },
        r matches Ok(m) ==> parts_of_manifest(m@, version, files@, chunks@) && is_well_formed(m@),
{
    let v = match StateSyncVersion::try_from(version) {
        Ok(v) => v,
        Err(n) => {
            return Err(DecodeError::UnsupportedVersion(n));
        },
    };
    let file_table = match files_from_parts(files) {
        Ok(t) => t,
        Err(e) => {
            return Err(e);
        },
    };
    let chunk_table = match chunks_from_parts(chunks) {
        Ok(t) => t,
        Err(e) => {
            return Err(e);
        },
    };
    let m = Manifest::new(v, file_table, chunk_table);
    assert(parts_of_manifest(m@, version, files@, chunks@));
    match validate_manifest(&m) {
        Ok(()) => {
            proof {
                assert forall|m2: ManifestData| #[trigger] parts_of_manifest(m2, version, files@, chunks@)
                    implies is_well_formed(m2) by {
                    lemma_structure_by_parts(m@, m2, version, files@, chunks@);
                }
            }
            Ok(m)
        },
        Err(e) => {
            proof {
                assert forall|m2: ManifestData| #[trigger] parts_of_manifest(m2, version, files@, chunks@)
                    implies match e {
                    StructuralError::Chunk(k) => k < m2.chunk_table@.len() && !chunk_in_order(
                        m2.chunk_table@,
                        m2.file_table@,
                        k as int,
                    ),
                    StructuralError::File(i) => i < m2.file_table@.len() && !file_covered(
                        m2.chunk_table@,
                        m2.file_table@,
                        i as int,
                    ),
                } by {
                    lemma_structure_by_parts(m@, m2, version, files@, chunks@);
                }
                assert(!is_well_formed(m@));
                assert(!parts_well_formed(version, files@, chunks@));
            }
            Err(DecodeError::Malformed(e))
        },
    }
}

/// The meta-manifest with the decoded fields `version` and `hashes`. An
/// unknown version is refused first, then a hash that does not have 32 bytes.
pub fn meta_manifest_from_parts(version: u32, hashes: &Vec<Vec<u8>>) -> (r: Result<MetaManifest, DecodeError>)
    ensures
        r is Ok <==> version <= 3 && all_hashes_fit(hash_part_views(hashes@)),
        r matches Err(DecodeError::UnsupportedVersion(v)) <==> version > 3,
        r matches Err(DecodeError::UnsupportedVersion(v)) ==> v == version,
        r matches Err(DecodeError::InvalidHashLength(n)) ==> is_first_bad_len(hash_part_views(hashes@), n as int),
        r matches Err(e) ==> !(e matches DecodeError::Malformed(_)),
        r matches Ok(m) ==> parts_of_meta_manifest(m, version, hashes@),
{
    let v = match StateSyncVersion::try_from(version) {
        Ok(v) => v,
        Err(n) => {
            return Err(DecodeError::UnsupportedVersion(n));
        },
    };
    let ghost views = hash_part_views(hashes@);
    let mut out: Vec<[u8; 32]> = Vec::new();
    let mut i: usize = 0;
    while i < hashes.len()
        invariant
            i <= hashes@.len(),
            version <= 3,
            views == hash_part_views(hashes@),
            out@.len() == i,
            forall|k: int| 0 <= k < i ==> #[trigger] out@[k]@ == hashes@[k]@,
            forall|k: int| 0 <= k < i ==> #[trigger] hashes@[k]@.len() == 32,
        decreases hashes@.len() - i,
    {
        let h = match hash_from_bytes(&hashes[i]) {
            Ok(h) => h,
            Err(e) => {
                proof {
                    assert(views[i as int] == hashes@[i as int]@);
                    assert forall|j: int| 0 <= j < i implies #[trigger] views[j].len() == 32 by {
                        assert(hashes@[j]@.len() == 32);
                    }
                    assert(is_first_bad_len(views, hashes@[i as int]@.len() as int));
                }
                return Err(e);
            },
        };
        out.push(h);
        i = i + 1;
    }
    proof {
        assert forall|k: int| 0 <= k < hashes@.len() implies #[trigger] views[k].len() == 32 by {
            assert(hashes@[k]@.len() == 32);
        }
    }
    Ok(MetaManifest { version: v, sub_manifest_hashes: out })
}

} // verus!
