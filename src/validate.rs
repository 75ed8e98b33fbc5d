//! Structural checks of a manifest: every chunk names a file of the file
//! table, and each file's chunks tile the file exactly.
use crate::manifest::{ChunkInfo, FileInfo, Manifest, ManifestData};
use vstd::prelude::*;

verus! {

/// Why a manifest is malformed.
#[derive(Debug, Clone, Copy, PartialEq, Eq, Structural)]
pub enum StructuralError {
    /// The chunk with this index names no file, or does not continue its file.
    Chunk(usize),
    /// The file with this index is not covered by its chunks.
    File(usize),
}

/// Whether chunk `k` is in order: it names a file of the table, has bytes, and
/// starts where the previous chunk of its file ends (at 0 for a file's first chunk).
pub open spec fn chunk_in_order(ct: Seq<ChunkInfo>, ft: Seq<FileInfo>, k: int) -> bool {
    let c = ct[k];
    &&& c.file_index < ft.len()
    &&& c.size_bytes > 0
    &&& if k == 0 || ct[k - 1].file_index < c.file_index {
        c.offset == 0
    } else {
        ct[k - 1].file_index == c.file_index && c.offset == ct[k - 1].offset + ct[k
            - 1].size_bytes
    }
    &&& (k == ct.len() - 1 || ct[k + 1].file_index != c.file_index) ==> c.offset + c.size_bytes
        == ft[c.file_index as int].size_bytes
}

/// Whether file `i` is covered: a file with bytes has at least one chunk.
pub open spec fn file_covered(ct: Seq<ChunkInfo>, ft: Seq<FileInfo>, i: int) -> bool {
    ft[i].size_bytes > 0 ==> exists|k: int| 0 <= k < ct.len() && #[trigger] ct[k].file_index == i
}

/// Whether the chunk table tiles every file of the file table exactly, in file
/// order and then offset order, with no gap and no overlap.
pub open spec fn is_well_formed(m: ManifestData) -> bool {
    &&& forall|k: int| 0 <= k < m.chunk_table@.len() ==> #[trigger] chunk_in_order(
        m.chunk_table@,
        m.file_table@,
        k,
    )
    &&& forall|i: int| 0 <= i < m.file_table@.len() ==> #[trigger] file_covered(
        m.chunk_table@,
        m.file_table@,
        i,
    )
}

/// Checks that the chunk table of `manifest` tiles its files exactly.
pub fn validate_manifest(manifest: &Manifest) -> (r: Result<(), StructuralError>)
    ensures
        r is Ok <==> is_well_formed(manifest@),
        r matches Err(StructuralError::Chunk(k)) ==> k < manifest@.chunk_table@.len()
            && !chunk_in_order(manifest@.chunk_table@, manifest@.file_table@, k as int),
        r matches Err(StructuralError::File(i)) ==> i < manifest@.file_table@.len()
            && !file_covered(manifest@.chunk_table@, manifest@.file_table@, i as int),
{
    let m = manifest.data();
    let ct = &m.chunk_table;
    let ft = &m.file_table;
    let mut covered: Vec<bool> = Vec::new();
    while covered.len() < ft.len()
        invariant
            covered@.len() <= ft@.len(),
            forall|i: int| 0 <= i < covered@.len() ==> !covered@[i],
        decreases ft@.len() - covered@.len(),
    {
        covered.push(false);
    }
    let mut k: usize = 0;
    while k < ct.len()
        invariant
            m == manifest@,
            ct == m.chunk_table,
            ft == m.file_table,
            k <= ct@.len(),
            covered@.len() == ft@.len(),
            forall|j: int| 0 <= j < k ==> #[trigger] chunk_in_order(ct@, ft@, j),
            forall|j: int| 0 <= j < k ==> (#[trigger] ct@[j]).file_index < ft@.len() && covered@[ct@[j].file_index as int],
            forall|i: int|
                0 <= i < ft@.len() && #[trigger] covered@[i] ==> exists|j: int|
                    0 <= j < ct@.len() && #[trigger] ct@[j].file_index == i,
        decreases ct@.len() - k,
    {
        let c = &ct[k];
        if c.file_index as usize >= ft.len() || c.size_bytes == 0 {
            proof {
                assert(!chunk_in_order(ct@, ft@, k as int));
            }
            return Err(StructuralError::Chunk(k));
        }
        let starts_file = k == 0 || ct[k - 1].file_index < c.file_index;
        if starts_file {
            if c.offset != 0 {
                proof {
                assert(!chunk_in_order(ct@, ft@, k as int));
            }
            return Err(StructuralError::Chunk(k));
            }
        } else {
            let p = &ct[k - 1];
            if p.file_index != c.file_index || p.offset > u64::MAX - p.size_bytes as u64 || c.offset
                != p.offset + p.size_bytes as u64 {
                proof {
                assert(!chunk_in_order(ct@, ft@, k as int));
            }
            return Err(StructuralError::Chunk(k));
            }
        }
        let ends_file = k + 1 == ct.len() || ct[k + 1].file_index != c.file_index;
        if ends_file {
            let size = ft[c.file_index as usize].size_bytes;
            if c.offset > u64::MAX - c.size_bytes as u64 || c.offset + c.size_bytes as u64 != size {
                proof {
                assert(!chunk_in_order(ct@, ft@, k as int));
            }
            return Err(StructuralError::Chunk(k));
            }
        }
        proof {
            assert(ct@[k as int].file_index == c.file_index);
        }
        covered.set(c.file_index as usize, true);
        k = k + 1;
    }
    let mut i: usize = 0;
    while i < ft.len()
        invariant
            m == manifest@,
            ct == m.chunk_table,
            ft == m.file_table,
            i <= ft@.len(),
            covered@.len() == ft@.len(),
            forall|j: int| 0 <= j < ct@.len() ==> #[trigger] chunk_in_order(ct@, ft@, j),
            forall|j: int| 0 <= j < ct@.len() ==> (#[trigger] ct@[j]).file_index < ft@.len() && covered@[ct@[j].file_index as int],
            forall|a: int|
                0 <= a < ft@.len() && #[trigger] covered@[a] ==> exists|j: int|
                    0 <= j < ct@.len() && #[trigger] ct@[j].file_index == a,
            forall|a: int| 0 <= a < i ==> #[trigger] file_covered(ct@, ft@, a),
        decreases ft@.len() - i,
    {
        if ft[i].size_bytes > 0 && !covered[i] {
            proof {
                if file_covered(ct@, ft@, i as int) {
                    let j = choose|j: int| 0 <= j < ct@.len() && #[trigger] ct@[j].file_index == i;
                    assert(covered@[ct@[j].file_index as int]);
                }
            }
            return Err(StructuralError::File(i));
        }
        i = i + 1;
    }
    Ok(())
}

} // verus!
