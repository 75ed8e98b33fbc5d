//! Building the manifest of a checkpoint from its files.
use crate::hashing::{domain_hash, hash_with_domain};
use crate::manifest::{
    file_hash, file_hash_of, lemma_file_hash_ignores_file_index, ChunkInfo, FileInfo, Manifest,
    ManifestData,
};
use crate::validate::{chunk_in_order, file_covered, is_well_formed};
use crate::version::StateSyncVersion;
use vstd::arithmetic::div_mod::lemma_fundamental_div_mod;
use vstd::prelude::*;
use vstd::slice::slice_subrange;

verus! {

/// The number of chunks of at most `chunk_size` bytes that `len` bytes split into.
pub open spec fn num_chunks(len: int, chunk_size: int) -> int {
    if len <= 0 {
        0
    } else {
        (len + chunk_size - 1) / chunk_size
    }
}

/// The size of the `j`th chunk of `len` bytes split into chunks of at most `chunk_size` bytes.
pub open spec fn chunk_len(len: int, chunk_size: int, j: int) -> int {
    if len - j * chunk_size < chunk_size {
        len - j * chunk_size
    } else {
        chunk_size
    }
}

/// The index in the chunk table of the first chunk of file `i`.
pub open spec fn chunk_start(files: Seq<(String, Vec<u8>)>, chunk_size: int, i: int) -> int
    decreases i,
{
    if i <= 0 {
        0
    } else {
        chunk_start(files, chunk_size, i - 1) + num_chunks(files[i - 1].1@.len() as int, chunk_size)
    }
}

/// Whether `c` is the entry of the `j`th chunk of `data`, the content of file `i`.
pub open spec fn is_chunk_of(c: ChunkInfo, i: int, data: Seq<u8>, chunk_size: int, j: int) -> bool {
    let size = chunk_len(data.len() as int, chunk_size, j);
    &&& c.file_index == i
    &&& c.offset == j * chunk_size
    &&& c.size_bytes == size
    &&& c.hash@ == domain_hash(
        "ic-state-chunk"@,
        data.subrange(j * chunk_size, j * chunk_size + size),
    )
}

/// Whether `c` is the entry of the `j`th chunk of file `i`.
pub open spec fn is_chunk_entry(
    c: ChunkInfo,
    files: Seq<(String, Vec<u8>)>,
    chunk_size: int,
    i: int,
    j: int,
) -> bool {
    is_chunk_of(c, i, files[i].1@, chunk_size, j)
}

/// Whether `f` is the entry of file `i`, given the chunk table.
pub open spec fn is_file_entry(
    f: FileInfo,
    version: StateSyncVersion,
    files: Seq<(String, Vec<u8>)>,
    chunk_size: int,
    chunk_table: Seq<ChunkInfo>,
    i: int,
) -> bool {
    &&& f.relative_path@ == files[i].0@
    &&& f.size_bytes == files[i].1@.len()
    &&& f.hash@ == file_hash_of(
        version,
        chunk_table.subrange(
            chunk_start(files, chunk_size, i),
            chunk_start(files, chunk_size, i + 1),
        ),
    )
}

pub proof fn lemma_num_chunks(len: int, cs: int, j: int)
    requires
        len >= 0,
        cs > 0,
        j >= 0,
    ensures
        j < num_chunks(len, cs) <==> j * cs < len,
        num_chunks(len, cs) >= 0,
{
    if len > 0 {
        let n = (len + cs - 1) / cs;
        lemma_fundamental_div_mod(len + cs - 1, cs);
        let r = (len + cs - 1) % cs;
        assert(0 <= r < cs);
        assert(cs * n + r == len + cs - 1);
        if j < n {
            assert(j * cs <= (n - 1) * cs) by (nonlinear_arith)
                requires
                    j <= n - 1,
                    cs > 0,
            ;
            assert((n - 1) * cs == cs * n - cs) by (nonlinear_arith);
        } else {
            assert(j * cs >= n * cs) by (nonlinear_arith)
                requires
                    j >= n,
                    cs > 0,
            ;
            assert(n * cs == cs * n) by (nonlinear_arith);
        }
        assert(n >= 0) by (nonlinear_arith)
            requires
                cs * n + r == len + cs - 1,
                0 <= r < cs,
                len > 0,
                cs > 0,
        ;
    }
}

proof fn lemma_chunk_start_monotone(files: Seq<(String, Vec<u8>)>, cs: int, a: int, b: int)
    requires
        cs > 0,
        0 <= a <= b,
    ensures
        chunk_start(files, cs, a) <= chunk_start(files, cs, b),
    decreases b - a,
{
    if a < b {
        lemma_chunk_start_monotone(files, cs, a, b - 1);
        lemma_num_chunks(files[b - 1].1@.len() as int, cs, 0);
    }
}

/// Appends the entries of the chunks of `data`, the content of file `file_index`.
fn push_file_chunks(table: &mut Vec<ChunkInfo>, file_index: u32, data: &[u8], chunk_size: u32)
    requires
        chunk_size > 0,
    ensures
        final(table)@.len() == old(table)@.len() + num_chunks(data@.len() as int, chunk_size as int),
        final(table)@.subrange(0, old(table)@.len() as int) == old(table)@,
        forall|j: int|
            0 <= j < num_chunks(data@.len() as int, chunk_size as int) ==> #[trigger] is_chunk_of(
                final(table)@[old(table)@.len() + j],
                file_index as int,
                data@,
                chunk_size as int,
                j,
            ),
{
    let ghost start = table@;
    let ghost len = data@.len() as int;
    let ghost cs = chunk_size as int;
    let cs_usize = chunk_size as usize;
    let mut off: usize = 0;
    let mut j: usize = 0;
    proof {
        lemma_num_chunks(len, cs, 0);
    }
    while off < data.len()
        invariant
            cs == chunk_size as int,
            cs > 0,
            cs_usize == chunk_size,
            len == data@.len(),
            off <= len,
            j <= off,
            j <= num_chunks(len, cs),
            j < num_chunks(len, cs) <==> off < len,
            j < num_chunks(len, cs) ==> off == j * cs,
            table@.len() == start.len() + j,
            table@.subrange(0, start.len() as int) == start,
            forall|k: int|
                0 <= k < j ==> #[trigger] is_chunk_of(
                    table@[start.len() + k],
                    file_index as int,
                    data@,
                    cs,
                    k,
                ),
        decreases len - off,
    {
        proof {
            lemma_num_chunks(len, cs, j as int);
            lemma_num_chunks(len, cs, j + 1);
        }
        let size: usize = if data.len() - off < cs_usize {
            data.len() - off
        } else {
            cs_usize
        };
        let piece = slice_subrange(data, off, off + size);
        proof {
            reveal_strlit("ic-state-chunk");
        }
        let hash = hash_with_domain("ic-state-chunk", piece);
        let entry = ChunkInfo { file_index, size_bytes: size as u32, offset: off as u64, hash };
        assert(is_chunk_of(entry, file_index as int, data@, cs, j as int));
        let ghost before = table@;
        table.push(entry);
        assert(table@.subrange(0, start.len() as int) =~= before.subrange(0, start.len() as int));
        proof {
            assert((j + 1) * cs == j * cs + cs) by (nonlinear_arith);
        }
        off = off + size;
        j = j + 1;
    }
}

/// Whether `m` is the manifest of the checkpoint whose files are `files`, in
/// version `version`, with chunks of at most `chunk_size` bytes.
pub open spec fn is_manifest_of(
    m: ManifestData,
    version: StateSyncVersion,
    files: Seq<(String, Vec<u8>)>,
    chunk_size: int,
) -> bool {
    &&& m.version == version
    &&& m.file_table@.len() == files.len()
    &&& m.chunk_table@.len() == chunk_start(files, chunk_size, files.len() as int)
    &&& forall|i: int, j: int|
        0 <= i < files.len() && 0 <= j < num_chunks(files[i].1@.len() as int, chunk_size)
            ==> #[trigger] is_chunk_entry(
            m.chunk_table@[chunk_start(files, chunk_size, i) + j],
            files,
            chunk_size,
            i,
            j,
        )
    &&& forall|i: int|
        0 <= i < files.len() ==> #[trigger] is_file_entry(
            m.file_table@[i],
            version,
            files,
            chunk_size,
            m.chunk_table@,
            i,
        )
}

/// Builds the manifest of a checkpoint whose files, in order, are `files`
/// (relative path and content): every file is split into chunks of at most
/// `max_chunk_size` bytes, the last one possibly shorter, whose entries go to
/// the chunk table in file order and then offset order; each file's entry
/// carries the hash of its slice of the chunk table.
pub fn compute_manifest(
    version: StateSyncVersion,
    files: &Vec<(String, Vec<u8>)>,
    max_chunk_size: u32,
) -> (r: Manifest)
    requires
        max_chunk_size > 0,
        files@.len() <= u32::MAX + 1,
    ensures
        is_manifest_of(r@, version, files@, max_chunk_size as int),
{
    let ghost cs = max_chunk_size as int;
    let mut chunk_table: Vec<ChunkInfo> = Vec::new();
    let mut file_table: Vec<FileInfo> = Vec::new();
    let mut i: usize = 0;
    while i < files.len()
        invariant
            cs == max_chunk_size as int,
            cs > 0,
            files@.len() <= u32::MAX + 1,
            i <= files@.len(),
            file_table@.len() == i,
            chunk_table@.len() == chunk_start(files@, cs, i as int),
            forall|ii: int, jj: int|
                0 <= ii < i && 0 <= jj < num_chunks(files@[ii].1@.len() as int, cs)
                    ==> #[trigger] is_chunk_entry(
                    chunk_table@[chunk_start(files@, cs, ii) + jj],
                    files@,
                    cs,
                    ii,
                    jj,
                ),
            forall|ii: int|
                0 <= ii < i ==> #[trigger] is_file_entry(
                    file_table@[ii],
                    version,
                    files@,
                    cs,
                    chunk_table@,
                    ii,
                ),
        decreases files@.len() - i,
    {
        let ghost before = chunk_table@;
        let start = chunk_table.len();
        let data = files[i].1.as_slice();
        push_file_chunks(&mut chunk_table, i as u32, data, max_chunk_size);
        let hash = file_hash(
            version,
            slice_subrange(chunk_table.as_slice(), start, chunk_table.len()),
        );
        let entry = FileInfo {
            relative_path: files[i].0.clone(),
            size_bytes: data.len() as u64,
            hash,
        };
        proof {
            lemma_num_chunks(data@.len() as int, cs, 0);
            assert forall|ii: int, jj: int|
                0 <= ii <= i && 0 <= jj < num_chunks(files@[ii].1@.len() as int, cs)
                    implies #[trigger] is_chunk_entry(
                    chunk_table@[chunk_start(files@, cs, ii) + jj],
                    files@,
                    cs,
                    ii,
                    jj,
                ) by {
                if ii < i {
                    lemma_chunk_start_monotone(files@, cs, 0, ii);
                    lemma_chunk_start_monotone(files@, cs, ii + 1, i as int);
                    assert(chunk_start(files@, cs, ii + 1) == chunk_start(files@, cs, ii) + num_chunks(
                        files@[ii].1@.len() as int,
                        cs,
                    ));
                    assert(chunk_table@[chunk_start(files@, cs, ii) + jj] == chunk_table@.subrange(
                        0,
                        before.len() as int,
                    )[chunk_start(files@, cs, ii) + jj]);
                } else {
                    assert(is_chunk_of(
                        chunk_table@[before.len() + jj],
                        i as int,
                        data@,
                        cs,
                        jj,
                    ));
                }
            }
            assert forall|ii: int| 0 <= ii < i implies #[trigger] is_file_entry(
                file_table@[ii],
                version,
                files@,
                cs,
                chunk_table@,
                ii,
            ) by {
                lemma_chunk_start_monotone(files@, cs, ii + 1, i as int);
                lemma_chunk_start_monotone(files@, cs, ii, ii + 1);
                lemma_chunk_start_monotone(files@, cs, 0, ii);
                assert(is_file_entry(file_table@[ii], version, files@, cs, before, ii));
                assert(chunk_start(files@, cs, ii + 1) <= before.len());
                assert(chunk_table@.subrange(
                    chunk_start(files@, cs, ii),
                    chunk_start(files@, cs, ii + 1),
                ) =~= before.subrange(chunk_start(files@, cs, ii), chunk_start(files@, cs, ii + 1)))
                    by {
                    assert(chunk_table@.subrange(0, before.len() as int) == before);
                    assert forall|k: int|
                        chunk_start(files@, cs, ii) <= k < chunk_start(files@, cs, ii + 1) implies
                        chunk_table@[k] == before[k] by {
                        assert(chunk_table@[k] == chunk_table@.subrange(0, before.len() as int)[k]);
                    }
                }
            }
        }
        file_table.push(entry);
        i = i + 1;
    }
    Manifest::new(version, file_table, chunk_table)
}

/// From V3 on, the hash of a file depends on its content alone: two chunk
/// table slices built from the same content, for files at any two positions of
/// the file table, give the same file hash.
pub proof fn lemma_v3_file_hash_independent_of_position(
    version: StateSyncVersion,
    a: Seq<ChunkInfo>,
    b: Seq<ChunkInfo>,
    i1: int,
    i2: int,
    data: Seq<u8>,
    chunk_size: int,
)
    requires
        !version.hashes_file_index(),
        a.len() == b.len(),
        forall|j: int| 0 <= j < a.len() ==> #[trigger] is_chunk_of(a[j], i1, data, chunk_size, j),
        forall|j: int| 0 <= j < b.len() ==> #[trigger] is_chunk_of(b[j], i2, data, chunk_size, j),
    ensures
        file_hash_of(version, a) == file_hash_of(version, b),
{
    assert forall|j: int| 0 <= j < a.len() implies #[trigger] a[j].size_bytes == b[j].size_bytes
        && a[j].offset == b[j].offset && a[j].hash@ == b[j].hash@ by {
        assert(is_chunk_of(a[j], i1, data, chunk_size, j));
        assert(is_chunk_of(b[j], i2, data, chunk_size, j));
    }
    lemma_file_hash_ignores_file_index(version, a, b);
}

proof fn lemma_locate_chunk(files: Seq<(String, Vec<u8>)>, cs: int, n: int, k: int) -> (r: (int, int))
    requires
        cs > 0,
        0 <= n <= files.len(),
        0 <= k < chunk_start(files, cs, n),
    ensures
        0 <= r.0 < n,
        0 <= r.1 < num_chunks(files[r.0].1@.len() as int, cs),
        k == chunk_start(files, cs, r.0) + r.1,
    decreases n,
{
    lemma_chunk_start_monotone(files, cs, 0, n - 1);
    if k >= chunk_start(files, cs, n - 1) {
        (n - 1, k - chunk_start(files, cs, n - 1))
    } else {
        lemma_locate_chunk(files, cs, n - 1, k)
    }
}

/// A manifest built from a checkpoint is well formed: every chunk names its
/// file, and each file's chunks tile it in order, with no gap and no overlap.
pub proof fn lemma_built_manifest_well_formed(
    m: ManifestData,
    version: StateSyncVersion,
    files: Seq<(String, Vec<u8>)>,
    chunk_size: int,
)
    requires
        chunk_size > 0,
        is_manifest_of(m, version, files, chunk_size),
    ensures
        is_well_formed(m),
{
    let cs = chunk_size;
    let n = files.len() as int;
    let ct = m.chunk_table@;
    let ft = m.file_table@;
    assert forall|k: int| 0 <= k < ct.len() implies #[trigger] chunk_in_order(ct, ft, k) by {
        let (i, j) = lemma_locate_chunk(files, cs, n, k);
        let len = files[i].1@.len() as int;
        assert(is_chunk_entry(ct[k], files, cs, i, j));
        lemma_num_chunks(len, cs, j);
        lemma_num_chunks(len, cs, j + 1);
        lemma_chunk_start_monotone(files, cs, 0, i);
        lemma_chunk_start_monotone(files, cs, i + 1, n);
        assert(ct[k].size_bytes > 0);
        if k > 0 {
            if j == 0 {
                let (i2, j2) = lemma_locate_chunk(files, cs, n, k - 1);
                assert(is_chunk_entry(ct[k - 1], files, cs, i2, j2));
                if i2 >= i {
                    lemma_chunk_start_monotone(files, cs, i, i2);
                }
                assert(i2 < i);
                assert(0 * cs == 0) by (nonlinear_arith);
            } else {
                lemma_num_chunks(len, cs, j - 1);
                assert(is_chunk_entry(ct[chunk_start(files, cs, i) + (j - 1)], files, cs, i, j - 1));
                assert(k - 1 == chunk_start(files, cs, i) + (j - 1));
                assert(j * cs == (j - 1) * cs + cs) by (nonlinear_arith);
            }
        } else {
            assert(j == 0);
            assert(0 * cs == 0) by (nonlinear_arith);
        }
        if j + 1 < num_chunks(len, cs) {
            assert(is_chunk_entry(ct[chunk_start(files, cs, i) + (j + 1)], files, cs, i, j + 1));
            assert(k + 1 == chunk_start(files, cs, i) + (j + 1));
        } else {
            assert((j + 1) * cs == j * cs + cs) by (nonlinear_arith);
        }
        assert(is_file_entry(ft[i], version, files, cs, ct, i));
    }
    assert forall|i: int| 0 <= i < ft.len() implies #[trigger] file_covered(ct, ft, i) by {
        let len = files[i].1@.len() as int;
        assert(is_file_entry(ft[i], version, files, cs, ct, i));
        if ft[i].size_bytes > 0 {
            lemma_num_chunks(len, cs, 0);
            lemma_chunk_start_monotone(files, cs, i + 1, n);
            lemma_chunk_start_monotone(files, cs, 0, i);
            assert(is_chunk_entry(ct[chunk_start(files, cs, i) + 0], files, cs, i, 0));
        }
    }
}

/// Building is deterministic: the same files, version and chunk size give the
/// same chunk table and the same file table, so the same hashes.
pub proof fn lemma_manifest_deterministic(
    m1: ManifestData,
    m2: ManifestData,
    version: StateSyncVersion,
    files: Seq<(String, Vec<u8>)>,
    chunk_size: int,
)
    requires
        chunk_size > 0,
        is_manifest_of(m1, version, files, chunk_size),
        is_manifest_of(m2, version, files, chunk_size),
    ensures
        m1.chunk_table@ == m2.chunk_table@,
        m1.file_table@.len() == m2.file_table@.len(),
        forall|i: int|
            0 <= i < m1.file_table@.len() ==> #[trigger] m1.file_table@[i].relative_path@
                == m2.file_table@[i].relative_path@ && m1.file_table@[i].size_bytes
                == m2.file_table@[i].size_bytes && m1.file_table@[i].hash == m2.file_table@[i].hash,
{
    let cs = chunk_size;
    let n = files.len() as int;
    let c1 = m1.chunk_table@;
    let c2 = m2.chunk_table@;
    assert forall|k: int| 0 <= k < c1.len() implies c1[k] == c2[k] by {
        let (i, j) = lemma_locate_chunk(files, cs, n, k);
        assert(is_chunk_entry(c1[chunk_start(files, cs, i) + j], files, cs, i, j));
        assert(is_chunk_entry(c2[chunk_start(files, cs, i) + j], files, cs, i, j));
        assert(c1[k].hash =~= c2[k].hash);
    }
    assert(c1 =~= c2);
    assert forall|i: int| 0 <= i < m1.file_table@.len() implies #[trigger] m1.file_table@[i].relative_path@
        == m2.file_table@[i].relative_path@ && m1.file_table@[i].size_bytes
        == m2.file_table@[i].size_bytes && m1.file_table@[i].hash == m2.file_table@[i].hash by {
        assert(is_file_entry(m1.file_table@[i], version, files, cs, c1, i));
        assert(is_file_entry(m2.file_table@[i], version, files, cs, c2, i));
        assert(m1.file_table@[i].hash =~= m2.file_table@[i].hash);
    }
}

} // verus!
