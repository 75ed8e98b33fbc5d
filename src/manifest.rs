//! The manifest of a checkpoint: its file table and chunk table, and the
//! versioned hashes computed over them.
use crate::hashing::{
    be_u32, be_u64, domain_hash, hash_with_domain, push_bytes, push_u32, push_u64,
};
use crate::version::StateSyncVersion;
use std::sync::Arc;
use vstd::prelude::*;
use vstd::string::*;
use vstd::utf8::encode_utf8;

verus! {

/// An entry of the file table.
#[derive(Debug, Clone, PartialEq, Eq, Hash)]
pub struct FileInfo {
    /// Path relative to the checkpoint root.
    pub relative_path: String,
    /// Total size of the file in bytes.
    pub size_bytes: u64,
    /// Hash of the file's slice of the chunk table.
    pub hash: [u8; 32],
}

/// An entry of the chunk table.
#[derive(Debug, Clone, PartialEq, Eq, Hash)]
pub struct ChunkInfo {
    /// Index of the file in the file table.
    pub file_index: u32,
    /// Total size of this chunk in bytes.
    pub size_bytes: u32,
    /// Offset of the chunk within the file.
    pub offset: u64,
    /// Hash of the chunk content.
    pub hash: [u8; 32],
}

impl ChunkInfo {
    /// The range of bytes of the file that belong to this chunk.
    pub fn byte_range(&self) -> (r: std::ops::Range<usize>)
        requires
            self.offset + self.size_bytes <= usize::MAX,
        ensures
            r.start == self.offset,
            r.end == self.offset + self.size_bytes,
    {
        let start = self.offset as usize;
        let end = start + self.size_bytes as usize;
        start..end
    }
}

/// The data of a manifest.
#[derive(Debug, PartialEq, Eq, Hash)]
pub struct ManifestData {
    /// Which version of the hashing procedure is used.
    pub version: StateSyncVersion,
    pub file_table: Vec<FileInfo>,
    pub chunk_table: Vec<ChunkInfo>,
}

/// A manifest: immutable, and cheap to clone, as its clones share one value.
#[derive(Debug, Clone, PartialEq, Eq, Hash)]
pub struct Manifest(Arc<ManifestData>);

impl View for Manifest {
    type V = ManifestData;

    closed spec fn view(&self) -> ManifestData {
        *self.0
    }
}

impl Manifest {
    pub fn new(version: StateSyncVersion, file_table: Vec<FileInfo>, chunk_table: Vec<ChunkInfo>) -> (r:
        Self)
        ensures
            r@.version == version,
            r@.file_table == file_table,
            r@.chunk_table == chunk_table,
    {
        Manifest(Arc::new(ManifestData { version, file_table, chunk_table }))
    }

    /// The data that the manifest holds.
    pub fn data(&self) -> (r: &ManifestData)
        ensures
            *r == self@,
    {
        &self.0
    }
}

impl std::ops::Deref for Manifest {
    type Target = ManifestData;

    fn deref(&self) -> (r: &ManifestData)
        ensures
            *r == self@,
    {
        &self.0
    }
}

/// The bytes of a file's relative path.
pub open spec fn path_bytes(f: FileInfo) -> Seq<u8> {
    encode_utf8(f.relative_path@)
}

/// The bytes of one chunk table entry in a hash input; with `with_index`, the
/// file index leads.
pub open spec fn chunk_entry_bytes(c: ChunkInfo, with_index: bool) -> Seq<u8> {
    (if with_index {
        be_u32(c.file_index)
    } else {
        Seq::empty()
    }) + be_u32(c.size_bytes) + be_u64(c.offset) + c.hash@
}

/// The entries of `s`, one after the other.
pub open spec fn chunk_entries_bytes(s: Seq<ChunkInfo>, with_index: bool) -> Seq<u8>
    decreases s.len(),
{
    if s.len() == 0 {
        Seq::empty()
    } else {
        chunk_entries_bytes(s.drop_last(), with_index) + chunk_entry_bytes(s.last(), with_index)
    }
}

/// The hash of a file whose chunk table slice is `chunks`.
pub open spec fn file_hash_of(version: StateSyncVersion, chunks: Seq<ChunkInfo>) -> Seq<u8> {
    domain_hash(
        "ic-state-file"@,
        be_u32(chunks.len() as u32) + chunk_entries_bytes(chunks, version.hashes_file_index()),
    )
}

/// The bytes of one file table entry in a hash input.
pub open spec fn file_entry_bytes(f: FileInfo) -> Seq<u8> {
    be_u32(path_bytes(f).len() as u32) + path_bytes(f) + be_u64(f.size_bytes) + f.hash@
}

/// The entries of `s`, one after the other.
pub open spec fn file_entries_bytes(s: Seq<FileInfo>) -> Seq<u8>
    decreases s.len(),
{
    if s.len() == 0 {
        Seq::empty()
    } else {
        file_entries_bytes(s.drop_last()) + file_entry_bytes(s.last())
    }
}

/// The hash input of a manifest in the layout of V0: the file table only.
pub open spec fn manifest_v0_input(m: ManifestData) -> Seq<u8> {
    be_u32(m.file_table@.len() as u32) + file_entries_bytes(m.file_table@)
}

/// The hash input of a manifest in the layout of V1: the version, the file
/// table and the chunk table.
pub open spec fn manifest_v1_input(m: ManifestData) -> Seq<u8> {
    be_u32(m.version.number()) + be_u32(m.file_table@.len() as u32) + file_entries_bytes(
        m.file_table@,
    ) + be_u32(m.chunk_table@.len() as u32) + chunk_entries_bytes(m.chunk_table@, true)
}

/// The manifest hash in the layout of V0.
pub open spec fn manifest_hash_v0_of(m: ManifestData) -> Seq<u8> {
    domain_hash("ic-state-manifest"@, manifest_v0_input(m))
}

/// The manifest hash in the layout of V1.
pub open spec fn manifest_hash_v1_of(m: ManifestData) -> Seq<u8> {
    domain_hash("ic-state-manifest"@, manifest_v1_input(m))
}

fn push_chunk_entry(buf: &mut Vec<u8>, c: &ChunkInfo, with_index: bool)
    ensures
        final(buf)@ == old(buf)@ + chunk_entry_bytes(*c, with_index),
{
    if with_index {
        push_u32(buf, c.file_index);
    }
    push_u32(buf, c.size_bytes);
    push_u64(buf, c.offset);
    push_bytes(buf, &c.hash);
    assert(final(buf)@ =~= old(buf)@ + chunk_entry_bytes(*c, with_index));
}

fn push_chunk_entries(buf: &mut Vec<u8>, chunks: &[ChunkInfo], with_index: bool)
    ensures
        final(buf)@ == old(buf)@ + chunk_entries_bytes(chunks@, with_index),
{
    let ghost start = buf@;
    let mut i: usize = 0;
    while i < chunks.len()
        invariant
            i <= chunks@.len(),
            buf@ == start + chunk_entries_bytes(chunks@.subrange(0, i as int), with_index),
        decreases chunks@.len() - i,
    {
        push_chunk_entry(buf, &chunks[i], with_index);
        i = i + 1;
        assert(chunks@.subrange(0, i as int).drop_last() =~= chunks@.subrange(0, i - 1));
        assert(buf@ =~= start + chunk_entries_bytes(chunks@.subrange(0, i as int), with_index));
    }
    assert(chunks@.subrange(0, i as int) =~= chunks@);
}

/// The input of the hash of a file whose slice of the chunk table is `chunks`.
pub fn file_hash_input(version: StateSyncVersion, chunks: &[ChunkInfo]) -> (r: Vec<u8>)
    ensures
        r@ == be_u32(chunks@.len() as u32) + chunk_entries_bytes(chunks@, version.hashes_file_index()),
{
    let mut buf: Vec<u8> = Vec::new();
    push_u32(&mut buf, chunks.len() as u32);
    let with_index = version.as_u32() < 3;
    push_chunk_entries(&mut buf, chunks, with_index);
    buf
}

/// The hash of a file whose slice of the chunk table is `chunks`.
pub fn file_hash(version: StateSyncVersion, chunks: &[ChunkInfo]) -> (r: [u8; 32])
    ensures
        r@ == file_hash_of(version, chunks@),
{
    let buf = file_hash_input(version, chunks);
    proof {
        reveal_strlit("ic-state-file");
    }
    hash_with_domain("ic-state-file", buf.as_slice())
}

fn push_file_entry(buf: &mut Vec<u8>, f: &FileInfo)
    ensures
        final(buf)@ == old(buf)@ + file_entry_bytes(*f),
{
    let path = f.relative_path.as_str().as_bytes();
    push_u32(buf, path.len() as u32);
    push_bytes(buf, path);
    push_u64(buf, f.size_bytes);
    push_bytes(buf, &f.hash);
    assert(final(buf)@ =~= old(buf)@ + file_entry_bytes(*f));
}

fn push_file_entries(buf: &mut Vec<u8>, files: &[FileInfo])
    ensures
        final(buf)@ == old(buf)@ + file_entries_bytes(files@),
{
    let ghost start = buf@;
    let mut i: usize = 0;
    while i < files.len()
        invariant
            i <= files@.len(),
            buf@ == start + file_entries_bytes(files@.subrange(0, i as int)),
        decreases files@.len() - i,
    {
        push_file_entry(buf, &files[i]);
        i = i + 1;
        assert(files@.subrange(0, i as int).drop_last() =~= files@.subrange(0, i - 1));
        assert(buf@ =~= start + file_entries_bytes(files@.subrange(0, i as int)));
    }
    assert(files@.subrange(0, i as int) =~= files@);
}

/// The input of the manifest hash in the layout of V0.
pub fn manifest_v0_hash_input(manifest: &Manifest) -> (r: Vec<u8>)
    ensures
        r@ == manifest_v0_input(manifest@),
{
    let m = manifest.data();
    let mut buf: Vec<u8> = Vec::new();
    push_u32(&mut buf, m.file_table.len() as u32);
    push_file_entries(&mut buf, m.file_table.as_slice());
    assert(buf@ =~= manifest_v0_input(manifest@));
    buf
}

/// The input of the manifest hash in the layout of V1.
pub fn manifest_v1_hash_input(manifest: &Manifest) -> (r: Vec<u8>)
    ensures
        r@ == manifest_v1_input(manifest@),
{
    let m = manifest.data();
    let mut buf: Vec<u8> = Vec::new();
    push_u32(&mut buf, m.version.as_u32());
    push_u32(&mut buf, m.file_table.len() as u32);
    push_file_entries(&mut buf, m.file_table.as_slice());
    push_u32(&mut buf, m.chunk_table.len() as u32);
    push_chunk_entries(&mut buf, m.chunk_table.as_slice(), true);
    assert(buf@ =~= manifest_v1_input(manifest@));
    buf
}

/// The manifest hash in the layout of V0, the trusted hash of a V0 manifest.
pub fn manifest_hash_v0(manifest: &Manifest) -> (r: [u8; 32])
    ensures
        r@ == manifest_hash_v0_of(manifest@),
{
    let buf = manifest_v0_hash_input(manifest);
    proof {
        reveal_strlit("ic-state-manifest");
    }
    hash_with_domain("ic-state-manifest", buf.as_slice())
}

/// The manifest hash in the layout of V1, the trusted hash of a V1 manifest.
pub fn manifest_hash_v1(manifest: &Manifest) -> (r: [u8; 32])
    ensures
        r@ == manifest_hash_v1_of(manifest@),
{
    let buf = manifest_v1_hash_input(manifest);
    proof {
        reveal_strlit("ic-state-manifest");
    }
    hash_with_domain("ic-state-manifest", buf.as_slice())
}

proof fn lemma_chunk_entries_without_index(a: Seq<ChunkInfo>, b: Seq<ChunkInfo>)
    requires
        a.len() == b.len(),
        forall|i: int|
            0 <= i < a.len() ==> #[trigger] a[i].size_bytes == b[i].size_bytes && a[i].offset
                == b[i].offset && a[i].hash@ == b[i].hash@,
    ensures
        chunk_entries_bytes(a, false) == chunk_entries_bytes(b, false),
    decreases a.len(),
{
    if a.len() > 0 {
        let n = a.len() - 1;
        assert(a[n].size_bytes == b[n].size_bytes);
        lemma_chunk_entries_without_index(a.drop_last(), b.drop_last());
    }
}

/// From V3 on, the hash of a file depends only on the sizes, offsets and
/// hashes of its chunks, not on the file index that its chunk entries carry.
pub proof fn lemma_file_hash_ignores_file_index(
    version: StateSyncVersion,
    a: Seq<ChunkInfo>,
    b: Seq<ChunkInfo>,
)
    requires
        !version.hashes_file_index(),
        a.len() == b.len(),
        forall|i: int|
            0 <= i < a.len() ==> #[trigger] a[i].size_bytes == b[i].size_bytes && a[i].offset
                == b[i].offset && a[i].hash@ == b[i].hash@,
    ensures
        file_hash_of(version, a) == file_hash_of(version, b),
{
    lemma_chunk_entries_without_index(a, b);
}

proof fn lemma_chunk_entries_lead(s: Seq<ChunkInfo>)
    requires
        s.len() > 0,
    ensures
        chunk_entries_bytes(s, true).len() >= 4,
        chunk_entries_bytes(s, true).subrange(0, 4) == be_u32(s[0].file_index),
    decreases s.len(),
{
    let e = chunk_entries_bytes(s, true);
    if s.len() == 1 {
        assert(chunk_entries_bytes(s.drop_last(), true) == Seq::<u8>::empty());
        assert(e.subrange(0, 4) =~= be_u32(s[0].file_index));
    } else {
        lemma_chunk_entries_lead(s.drop_last());
        let head = chunk_entries_bytes(s.drop_last(), true);
        assert(e.subrange(0, 4) =~= head.subrange(0, 4));
    }
}

/// Before V3, the hash input of a file records the file index of its chunks:
/// two non-empty chunk slices whose first entries name different files give
/// different hash inputs.
pub proof fn lemma_file_hash_input_records_file_index(
    version: StateSyncVersion,
    a: Seq<ChunkInfo>,
    b: Seq<ChunkInfo>,
)
    requires
        version.hashes_file_index(),
        a.len() > 0,
        b.len() > 0,
        a[0].file_index != b[0].file_index,
    ensures
        be_u32(a.len() as u32) + chunk_entries_bytes(a, version.hashes_file_index()) != be_u32(
            b.len() as u32,
        ) + chunk_entries_bytes(b, version.hashes_file_index()),
{
    lemma_chunk_entries_lead(a);
    lemma_chunk_entries_lead(b);
    let ia = be_u32(a.len() as u32) + chunk_entries_bytes(a, true);
    let ib = be_u32(b.len() as u32) + chunk_entries_bytes(b, true);
    assert(ia.subrange(4, 8) =~= chunk_entries_bytes(a, true).subrange(0, 4));
    assert(ib.subrange(4, 8) =~= chunk_entries_bytes(b, true).subrange(0, 4));
    if ia == ib {
        lemma_be_u32_injective(a[0].file_index, b[0].file_index);
    }
}

proof fn lemma_be_u32_injective(x: u32, y: u32)
    requires
        be_u32(x) == be_u32(y),
    ensures
        x == y,
{
    assert(be_u32(x)[0] == be_u32(y)[0]);
    assert(be_u32(x)[1] == be_u32(y)[1]);
    assert(be_u32(x)[2] == be_u32(y)[2]);
    assert(be_u32(x)[3] == be_u32(y)[3]);
    assert(x == y) by (bit_vector)
        requires
            (x >> 24u32) as u8 == (y >> 24u32) as u8,
            (x >> 16u32) as u8 == (y >> 16u32) as u8,
            (x >> 8u32) as u8 == (y >> 8u32) as u8,
            x as u8 == y as u8,
    ;
}

proof fn lemma_be_u64_injective(x: u64, y: u64)
    requires
        be_u64(x) == be_u64(y),
    ensures
        x == y,
{
    let hx = (x >> 32u64) as u32;
    let hy = (y >> 32u64) as u32;
    let lx = x as u32;
    let ly = y as u32;
    assert(be_u64(x).subrange(0, 4) =~= be_u32(hx));
    assert(be_u64(y).subrange(0, 4) =~= be_u32(hy));
    assert(be_u64(x).subrange(4, 8) =~= be_u32(lx));
    assert(be_u64(y).subrange(4, 8) =~= be_u32(ly));
    lemma_be_u32_injective(hx, hy);
    lemma_be_u32_injective(lx, ly);
    assert(x == y) by (bit_vector)
        requires
            (x >> 32u64) as u32 == (y >> 32u64) as u32,
            x as u32 == y as u32,
    ;
}

proof fn lemma_file_entries_front(s: Seq<FileInfo>)
    requires
        s.len() > 0,
    ensures
        file_entries_bytes(s) == file_entry_bytes(s[0]) + file_entries_bytes(s.drop_first()),
    decreases s.len(),
{
    if s.len() == 1 {
        assert(s.drop_last().len() == 0);
        assert(s.drop_first().len() == 0);
        assert(file_entries_bytes(s.drop_last()) == Seq::<u8>::empty());
        assert(file_entries_bytes(s.drop_first()) == Seq::<u8>::empty());
        assert(s.last() == s[0]);
        assert(file_entries_bytes(s) =~= file_entry_bytes(s[0]) + file_entries_bytes(s.drop_first()));
    } else {
        lemma_file_entries_front(s.drop_last());
        assert(s.drop_last().drop_first() =~= s.drop_first().drop_last());
        assert(s.drop_last()[0] == s[0]);
        assert(s.drop_first().last() == s.last());
        assert(file_entries_bytes(s) =~= file_entry_bytes(s[0]) + file_entries_bytes(s.drop_first()));
    }
}

/// Whether the path of every file of `s` has a length that its 4-byte prefix can hold.
pub open spec fn paths_fit(s: Seq<FileInfo>) -> bool {
    forall|i: int| 0 <= i < s.len() ==> #[trigger] path_bytes(s[i]).len() <= u32::MAX
}

proof fn lemma_file_entry_prefix(x: FileInfo, y: FileInfo, r1: Seq<u8>, r2: Seq<u8>)
    requires
        path_bytes(x).len() <= u32::MAX,
        path_bytes(y).len() <= u32::MAX,
        file_entry_bytes(x) + r1 == file_entry_bytes(y) + r2,
    ensures
        path_bytes(x) == path_bytes(y),
        x.size_bytes == y.size_bytes,
        x.hash@ == y.hash@,
        r1 == r2,
{
    let ex = file_entry_bytes(x);
    let ey = file_entry_bytes(y);
    let lx = path_bytes(x).len() as int;
    let ly = path_bytes(y).len() as int;
    assert(ex.subrange(0, 4) =~= be_u32(lx as u32));
    assert(ey.subrange(0, 4) =~= be_u32(ly as u32));
    assert((ex + r1).subrange(0, 4) =~= ex.subrange(0, 4));
    assert((ey + r2).subrange(0, 4) =~= ey.subrange(0, 4));
    lemma_be_u32_injective(lx as u32, ly as u32);
    assert(lx == ly);
    assert(ex.len() == ey.len());
    assert((ex + r1).subrange(0, ex.len() as int) =~= ex);
    assert((ey + r2).subrange(0, ey.len() as int) =~= ey);
    assert(ex == ey);
    assert((ex + r1).subrange(ex.len() as int, (ex + r1).len() as int) =~= r1);
    assert((ey + r2).subrange(ey.len() as int, (ey + r2).len() as int) =~= r2);
    assert(ex.subrange(4, 4 + lx) =~= path_bytes(x));
    assert(ey.subrange(4, 4 + ly) =~= path_bytes(y));
    assert(ex.subrange(4 + lx, 12 + lx) =~= be_u64(x.size_bytes));
    assert(ey.subrange(4 + ly, 12 + ly) =~= be_u64(y.size_bytes));
    lemma_be_u64_injective(x.size_bytes, y.size_bytes);
    assert(ex.subrange(12 + lx, 44 + lx) =~= x.hash@);
    assert(ey.subrange(12 + ly, 44 + ly) =~= y.hash@);
}

/// Length prefixes make a file table's byte layout unambiguous: two file
/// tables with the same number of entries and the same layout have the same
/// paths, sizes and hashes, entry by entry.
pub proof fn lemma_file_entries_unambiguous(a: Seq<FileInfo>, b: Seq<FileInfo>)
    requires
        a.len() == b.len(),
        paths_fit(a),
        paths_fit(b),
        file_entries_bytes(a) == file_entries_bytes(b),
    ensures
        forall|i: int|
            0 <= i < a.len() ==> path_bytes(#[trigger] a[i]) == path_bytes(b[i]) && a[i].size_bytes
                == b[i].size_bytes && a[i].hash@ == b[i].hash@,
    decreases a.len(),
{
    if a.len() > 0 {
        lemma_file_entries_front(a);
        lemma_file_entries_front(b);
        assert(path_bytes(a[0]).len() <= u32::MAX);
        assert(path_bytes(b[0]).len() <= u32::MAX);
        lemma_file_entry_prefix(a[0], b[0], file_entries_bytes(a.drop_first()), file_entries_bytes(b.drop_first()));
        assert(paths_fit(a.drop_first())) by {
            assert forall|i: int| 0 <= i < a.drop_first().len() implies #[trigger] path_bytes(a.drop_first()[i]).len() <= u32::MAX by {
                assert(a.drop_first()[i] == a[i + 1]);
            }
        }
        assert(paths_fit(b.drop_first())) by {
            assert forall|i: int| 0 <= i < b.drop_first().len() implies #[trigger] path_bytes(b.drop_first()[i]).len() <= u32::MAX by {
                assert(b.drop_first()[i] == b[i + 1]);
            }
        }
        lemma_file_entries_unambiguous(a.drop_first(), b.drop_first());
        assert forall|i: int| 0 <= i < a.len() implies path_bytes(#[trigger] a[i]) == path_bytes(b[i]) && a[i].size_bytes
                == b[i].size_bytes && a[i].hash@ == b[i].hash@ by {
            if i > 0 {
                assert(a.drop_first()[i - 1] == a[i]);
                assert(b.drop_first()[i - 1] == b[i]);
            }
        }
    }
}

/// The V0 manifest hash input is unambiguous: two manifests with fewer than
/// 2^32 files, whose paths fit their prefixes, and which give the same input
/// have file tables of equal length with equal paths, sizes and hashes.
pub proof fn lemma_manifest_v0_input_unambiguous(m1: ManifestData, m2: ManifestData)
    requires
        m1.file_table@.len() <= u32::MAX,
        m2.file_table@.len() <= u32::MAX,
        paths_fit(m1.file_table@),
        paths_fit(m2.file_table@),
        manifest_v0_input(m1) == manifest_v0_input(m2),
    ensures
        m1.file_table@.len() == m2.file_table@.len(),
        forall|i: int|
            0 <= i < m1.file_table@.len() ==> path_bytes(#[trigger] m1.file_table@[i]) == path_bytes(
                m2.file_table@[i],
            ) && m1.file_table@[i].size_bytes == m2.file_table@[i].size_bytes
                && m1.file_table@[i].hash@ == m2.file_table@[i].hash@,
{
    let a = m1.file_table@;
    let b = m2.file_table@;
    let ia = manifest_v0_input(m1);
    let ib = manifest_v0_input(m2);
    assert(ia.subrange(0, 4) =~= be_u32(a.len() as u32));
    assert(ib.subrange(0, 4) =~= be_u32(b.len() as u32));
    lemma_be_u32_injective(a.len() as u32, b.len() as u32);
    assert(ia.subrange(4, ia.len() as int) =~= file_entries_bytes(a));
    assert(ib.subrange(4, ib.len() as int) =~= file_entries_bytes(b));
    lemma_file_entries_unambiguous(a, b);
}

} // verus!
