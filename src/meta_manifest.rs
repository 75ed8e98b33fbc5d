//! The meta-manifest: the encoded manifest split into sub-manifests, each
//! hashed, and the top-level hash over those hashes.
use crate::builder::{chunk_len, lemma_num_chunks, num_chunks};
use crate::hashing::{be_u32, domain_hash, hash_with_domain, push_bytes, push_u32};
use crate::manifest::{manifest_hash_v0, manifest_hash_v0_of, manifest_hash_v1, manifest_hash_v1_of, Manifest};
use crate::version::StateSyncVersion;
use vstd::prelude::*;
use vstd::slice::slice_subrange;

verus! {

/// The largest size of a sub-manifest, the piece of an encoded manifest that
/// is hashed and transferred as one chunk.
pub const MAX_SUB_MANIFEST_SIZE: u32 = 1048576;

/// How a manifest is encoded, split and hashed.
#[derive(Debug, Clone, PartialEq, Eq, Hash)]
pub struct MetaManifest {
    pub version: StateSyncVersion,
    pub sub_manifest_hashes: Vec<[u8; 32]>,
}

/// The `j`th sub-manifest of `encoded`, split into pieces of at most `size` bytes.
pub open spec fn sub_manifest(encoded: Seq<u8>, size: int, j: int) -> Seq<u8> {
    encoded.subrange(j * size, j * size + chunk_len(encoded.len() as int, size, j))
}

/// The hash of one sub-manifest.
pub open spec fn sub_manifest_hash_of(piece: Seq<u8>) -> Seq<u8> {
    domain_hash("ic-state-sub-manifest"@, piece)
}

/// The sub-manifest hashes of `encoded`, split into pieces of at most `size` bytes.
pub open spec fn sub_manifest_hashes_of(encoded: Seq<u8>, size: int) -> Seq<Seq<u8>> {
    Seq::new(
        num_chunks(encoded.len() as int, size) as nat,
        |j: int| sub_manifest_hash_of(sub_manifest(encoded, size, j)),
    )
}

/// The hashes of `hs`, one after the other.
pub open spec fn concat_hashes(hs: Seq<Seq<u8>>) -> Seq<u8>
    decreases hs.len(),
{
    if hs.len() == 0 {
        Seq::empty()
    } else {
        concat_hashes(hs.drop_last()) + hs.last()
    }
}

/// The views of the hashes of a meta-manifest.
pub open spec fn hash_views(hs: Seq<[u8; 32]>) -> Seq<Seq<u8>> {
    hs.map_values(|h: [u8; 32]| h@)
}

/// The meta-manifest hash of `version` over the sub-manifest hashes `hs`.
pub open spec fn meta_manifest_hash_of(version: StateSyncVersion, hs: Seq<Seq<u8>>) -> Seq<u8> {
    domain_hash(
        "ic-state-meta-manifest"@,
        be_u32(version.number()) + be_u32(hs.len() as u32) + concat_hashes(hs),
    )
}

/// The trusted hash of a manifest whose encoding is `encoded`: for V0 and V1
/// the hash over its tables, from V2 on the meta-manifest hash.
pub open spec fn manifest_hash_of(m: crate::manifest::ManifestData, encoded: Seq<u8>) -> Seq<u8> {
    match m.version {
        StateSyncVersion::V0 => manifest_hash_v0_of(m),
        StateSyncVersion::V1 => manifest_hash_v1_of(m),
        _ => meta_manifest_hash_of(
            m.version,
            sub_manifest_hashes_of(encoded, MAX_SUB_MANIFEST_SIZE as int),
        ),
    }
}

/// Splits an encoded manifest into sub-manifests of at most `max_sub_manifest_size`
/// bytes, the last one possibly shorter, and records the hash of each.
pub fn build_meta_manifest(
    version: StateSyncVersion,
    encoded_manifest: &[u8],
    max_sub_manifest_size: u32,
) -> (r: MetaManifest)
    requires
        max_sub_manifest_size > 0,
    ensures
        r.version == version,
        hash_views(r.sub_manifest_hashes@) == sub_manifest_hashes_of(
            encoded_manifest@,
            max_sub_manifest_size as int,
        ),
{
    let ghost len = encoded_manifest@.len() as int;
    let ghost cs = max_sub_manifest_size as int;
    let ghost expected = sub_manifest_hashes_of(encoded_manifest@, cs);
    let size_usize = max_sub_manifest_size as usize;
    let mut hashes: Vec<[u8; 32]> = Vec::new();
    let mut off: usize = 0;
    let mut j: usize = 0;
    proof {
        lemma_num_chunks(len, cs, 0);
    }
    while off < encoded_manifest.len()
        invariant
            cs == max_sub_manifest_size as int,
            cs > 0,
            size_usize == max_sub_manifest_size,
            len == encoded_manifest@.len(),
            expected == sub_manifest_hashes_of(encoded_manifest@, cs),
            off <= len,
            j <= off,
            j <= num_chunks(len, cs),
            j < num_chunks(len, cs) <==> off < len,
            j < num_chunks(len, cs) ==> off == j * cs,
            hash_views(hashes@) == expected.subrange(0, j as int),
        decreases len - off,
    {
        proof {
            lemma_num_chunks(len, cs, j as int);
            lemma_num_chunks(len, cs, j + 1);
        }
        let size: usize = if encoded_manifest.len() - off < size_usize {
            encoded_manifest.len() - off
        } else {
            size_usize
        };
        let piece = slice_subrange(encoded_manifest, off, off + size);
        proof {
            reveal_strlit("ic-state-sub-manifest");
        }
        let hash = hash_with_domain("ic-state-sub-manifest", piece);
        assert(piece@ == sub_manifest(encoded_manifest@, cs, j as int));
        assert(hash@ == expected[j as int]);
        let ghost before = hashes@;
        hashes.push(hash);
        proof {
            assert(hashes@ == before.push(hash));
            assert(hash_views(hashes@).last() == hash@);
            assert(hash_views(hashes@).drop_last() =~= hash_views(before));
            assert((j + 1) * cs == j * cs + cs) by (nonlinear_arith);
            assert(hash_views(hashes@) =~= expected.subrange(0, j + 1));
        }
        off = off + size;
        j = j + 1;
    }
    assert(expected.subrange(0, j as int) =~= expected);
    MetaManifest { version, sub_manifest_hashes: hashes }
}

/// The input of the hash of a meta-manifest: its version, the number of
/// sub-manifests and their hashes.
pub fn meta_manifest_hash_input(meta_manifest: &MetaManifest) -> (r: Vec<u8>)
    ensures
        r@ == be_u32(meta_manifest.version.number()) + be_u32(
            meta_manifest.sub_manifest_hashes@.len() as u32,
        ) + concat_hashes(hash_views(meta_manifest.sub_manifest_hashes@)),
{
    let hs = &meta_manifest.sub_manifest_hashes;
    let ghost views = hash_views(hs@);
    let mut buf: Vec<u8> = Vec::new();
    push_u32(&mut buf, meta_manifest.version.as_u32());
    push_u32(&mut buf, hs.len() as u32);
    let ghost head = buf@;
    let mut i: usize = 0;
    while i < hs.len()
        invariant
            i <= hs@.len(),
            views == hash_views(hs@),
            buf@ == head + concat_hashes(views.subrange(0, i as int)),
        decreases hs@.len() - i,
    {
        push_bytes(&mut buf, &hs[i]);
        i = i + 1;
        assert(views.subrange(0, i as int).drop_last() =~= views.subrange(0, i - 1));
        assert(buf@ =~= head + concat_hashes(views.subrange(0, i as int)));
    }
    assert(views.subrange(0, i as int) =~= views);
    buf
}

/// The hash of a meta-manifest: over its version, the number of sub-manifests
/// and their hashes.
pub fn meta_manifest_hash(meta_manifest: &MetaManifest) -> (r: [u8; 32])
    ensures
        r@ == meta_manifest_hash_of(
            meta_manifest.version,
            hash_views(meta_manifest.sub_manifest_hashes@),
        ),
{
    let buf = meta_manifest_hash_input(meta_manifest);
    proof {
        reveal_strlit("ic-state-meta-manifest");
    }
    hash_with_domain("ic-state-meta-manifest", buf.as_slice())
}

/// The hash of one sub-manifest.
pub fn sub_manifest_hash(piece: &[u8]) -> (r: [u8; 32])
    ensures
        r@ == sub_manifest_hash_of(piece@),
{
    proof {
        reveal_strlit("ic-state-sub-manifest");
    }
    hash_with_domain("ic-state-sub-manifest", piece)
}

fn hashes_equal(a: &[u8; 32], b: &[u8; 32]) -> (r: bool)
    ensures
        r == (a@ == b@),
{
    let mut i: usize = 0;
    while i < 32
        invariant
            i <= 32,
            a@.len() == 32,
            b@.len() == 32,
            forall|k: int| 0 <= k < i ==> a@[k] == b@[k],
        decreases 32 - i,
    {
        if a[i] != b[i] {
            return false;
        }
        i = i + 1;
    }
    assert(a@ =~= b@);
    true
}

/// Whether `hash` is the hash that `meta_manifest` records for sub-manifest number `index`.
pub fn sub_manifest_hash_matches(meta_manifest: &MetaManifest, index: usize, hash: &[u8; 32]) -> (r:
    bool)
    ensures
        r == (index < meta_manifest.sub_manifest_hashes@.len() && hash@
            == meta_manifest.sub_manifest_hashes@[index as int]@),
{
    if index >= meta_manifest.sub_manifest_hashes.len() {
        return false;
    }
    hashes_equal(hash, &meta_manifest.sub_manifest_hashes[index])
}

/// Whether `piece` is the sub-manifest number `index` that `meta_manifest` records.
pub fn verify_sub_manifest(meta_manifest: &MetaManifest, index: usize, piece: &[u8]) -> (r: bool)
    ensures
        r == (index < meta_manifest.sub_manifest_hashes@.len() && sub_manifest_hash_of(piece@)
            == meta_manifest.sub_manifest_hashes@[index as int]@),
{
    let h = sub_manifest_hash(piece);
    sub_manifest_hash_matches(meta_manifest, index, &h)
}

/// Sub-manifest number `index` of `encoded_manifest`, split into pieces of at
/// most `max_sub_manifest_size` bytes; `None` where there is no such piece.
pub fn sub_manifest_chunk(encoded_manifest: &[u8], index: u32, max_sub_manifest_size: u32) -> (r:
    Option<Vec<u8>>)
    requires
        max_sub_manifest_size > 0,
    ensures
        (index < num_chunks(encoded_manifest@.len() as int, max_sub_manifest_size as int)) <==> r is Some,
        r matches Some(v) ==> v@ == sub_manifest(
            encoded_manifest@,
            max_sub_manifest_size as int,
            index as int,
        ),
{
    let ghost len = encoded_manifest@.len() as int;
    let ghost cs = max_sub_manifest_size as int;
    proof {
        lemma_num_chunks(len, cs, index as int);
    }
    assert((index as int) * cs <= 0xffff_ffff * 0xffff_ffff) by (nonlinear_arith)
        requires
            index <= 0xffff_ffff,
            0 < cs <= 0xffff_ffff,
    ;
    let start: u64 = (index as u64) * (max_sub_manifest_size as u64);
    if start >= encoded_manifest.len() as u64 {
        return None;
    }
    let start = start as usize;
    let rest = encoded_manifest.len() - start;
    let size: usize = if rest < max_sub_manifest_size as usize {
        rest
    } else {
        max_sub_manifest_size as usize
    };
    let piece = slice_subrange(encoded_manifest, start, start + size);
    let mut v: Vec<u8> = Vec::new();
    push_bytes(&mut v, piece);
    Some(v)
}

/// The trusted hash of `manifest`, whose encoding is `encoded_manifest`: for
/// V0 and V1 the hash over its tables, from V2 on the meta-manifest hash of
/// the encoding.
pub fn manifest_hash(manifest: &Manifest, encoded_manifest: &[u8]) -> (r: [u8; 32])
    ensures
        r@ == manifest_hash_of(manifest@, encoded_manifest@),
{
    match manifest.data().version {
        StateSyncVersion::V0 => manifest_hash_v0(manifest),
        StateSyncVersion::V1 => manifest_hash_v1(manifest),
        _ => {
            let meta = build_meta_manifest(
                manifest.data().version,
                encoded_manifest,
                MAX_SUB_MANIFEST_SIZE,
            );
            meta_manifest_hash(&meta)
        },
    }
}

/// Every sub-manifest served from an encoded manifest passes the check against
/// the meta-manifest built from that encoding.
pub proof fn lemma_served_sub_manifests_verify(
    encoded: Seq<u8>,
    size: int,
    meta_manifest: MetaManifest,
    index: int,
)
    requires
        size > 0,
        hash_views(meta_manifest.sub_manifest_hashes@) == sub_manifest_hashes_of(encoded, size),
        0 <= index < num_chunks(encoded.len() as int, size),
    ensures
        index < meta_manifest.sub_manifest_hashes@.len(),
        sub_manifest_hash_of(sub_manifest(encoded, size, index))
            == meta_manifest.sub_manifest_hashes@[index]@,
{
    let hs = meta_manifest.sub_manifest_hashes@;
    assert(hash_views(hs).len() == hs.len());
    assert(sub_manifest_hashes_of(encoded, size).len() == num_chunks(encoded.len() as int, size));
    assert(hash_views(hs)[index] == hs[index]@);
}

} // verus!
