use ic_state_sync::builder::compute_manifest;
use ic_state_sync::decode::{
    hash_from_bytes, manifest_from_parts, manifest_parts, meta_manifest_from_parts, meta_manifest_parts,
    DecodeError,
};
use ic_state_sync::chunk_id::{
    state_sync_chunk_type, StateSyncChunk, DEFAULT_CHUNK_SIZE, FILE_CHUNK_ID_OFFSET,
    FILE_GROUP_CHUNK_ID_OFFSET, MANIFEST_CHUNK_ID_OFFSET, META_MANIFEST_CHUNK,
};
use ic_state_sync::file_group::FileGroupChunks;
use ic_state_sync::manifest::{
    file_hash, file_hash_input, manifest_hash_v0, manifest_hash_v1, manifest_v0_hash_input,
    manifest_v1_hash_input, ChunkInfo, FileInfo, Manifest,
};
use ic_state_sync::validate::{validate_manifest, StructuralError};
use ic_state_sync::meta_manifest::{
    build_meta_manifest, manifest_hash, meta_manifest_hash, meta_manifest_hash_input, sub_manifest_chunk,
    sub_manifest_hash, sub_manifest_hash_matches, verify_sub_manifest, MetaManifest,
    MAX_SUB_MANIFEST_SIZE,
};
use ic_state_sync::version::{StateSyncVersion, CURRENT_STATE_SYNC_VERSION, MAX_SUPPORTED_STATE_SYNC_VERSION};
use sha2::Digest;
use std::collections::BTreeMap;

fn sha256(parts: &[&[u8]]) -> [u8; 32] {
    let mut h = sha2::Sha256::new();
    for p in parts {
        h.update(p);
    }
    h.finalize().into()
}

fn dsep(tag: &str) -> Vec<u8> {
    let mut v = vec![tag.len() as u8];
    v.extend_from_slice(tag.as_bytes());
    v
}

#[test]
fn test_state_sync_chunk_type() {
    assert_eq!(state_sync_chunk_type(0), StateSyncChunk::MetaManifestChunk);

    (1..FILE_GROUP_CHUNK_ID_OFFSET)
        .step_by(100)
        .chain(std::iter::once(FILE_GROUP_CHUNK_ID_OFFSET - 1))
        .for_each(|i| assert_eq!(state_sync_chunk_type(i), StateSyncChunk::FileChunk(i - 1)));

    (FILE_GROUP_CHUNK_ID_OFFSET..MANIFEST_CHUNK_ID_OFFSET)
        .step_by(100)
        .chain(std::iter::once(MANIFEST_CHUNK_ID_OFFSET - 1))
        .for_each(|i| assert_eq!(state_sync_chunk_type(i), StateSyncChunk::FileGroupChunk(i)));

    (MANIFEST_CHUNK_ID_OFFSET..=u32::MAX)
        .step_by(100)
        .chain(std::iter::once(u32::MAX))
        .for_each(|i| {
            assert_eq!(
                state_sync_chunk_type(i),
                StateSyncChunk::ManifestChunk(i - MANIFEST_CHUNK_ID_OFFSET)
            )
        });
}

#[test]
fn chunk_type_boundaries() {
    let g = FILE_GROUP_CHUNK_ID_OFFSET;
    let m = MANIFEST_CHUNK_ID_OFFSET;
    assert_eq!(g, 1 << 30);
    assert_eq!(m, 1 << 31);
    assert_eq!(state_sync_chunk_type(0), StateSyncChunk::MetaManifestChunk);
    assert_eq!(state_sync_chunk_type(1), StateSyncChunk::FileChunk(0));
    assert_eq!(state_sync_chunk_type(g - 1), StateSyncChunk::FileChunk(g - 2));
    assert_eq!(state_sync_chunk_type(g), StateSyncChunk::FileGroupChunk(g));
    assert_eq!(state_sync_chunk_type(m - 1), StateSyncChunk::FileGroupChunk(m - 1));
    assert_eq!(state_sync_chunk_type(m), StateSyncChunk::ManifestChunk(0));
    assert_eq!(state_sync_chunk_type(u32::MAX), StateSyncChunk::ManifestChunk(u32::MAX - m));
}

#[test]
fn version_numbers_round_trip() {
    for n in 0..4u32 {
        let v = StateSyncVersion::try_from(n).unwrap();
        assert_eq!(v.as_u32(), n);
    }
    assert_eq!(StateSyncVersion::try_from(4), Err(4));
    assert_eq!(StateSyncVersion::try_from(u32::MAX), Err(u32::MAX));
    assert_eq!(CURRENT_STATE_SYNC_VERSION, StateSyncVersion::V2);
    assert_eq!(MAX_SUPPORTED_STATE_SYNC_VERSION, StateSyncVersion::V3);
    assert!(StateSyncVersion::V0 < StateSyncVersion::V3);
    assert_eq!(StateSyncVersion::V3.name(), "V3");
}

#[test]
fn chunk_byte_range() {
    let c = ChunkInfo { file_index: 0, size_bytes: 10, offset: 100, hash: [0; 32] };
    assert_eq!(c.byte_range(), 100..110);
}

fn two_files() -> Vec<(String, Vec<u8>)> {
    vec![
        ("a".to_string(), vec![7u8]),
        ("b/c".to_string(), (0..1_500_000u32).map(|i| (i % 251) as u8).collect()),
    ]
}

#[test]
fn end_to_end_two_files() {
    let files = two_files();
    let m = compute_manifest(StateSyncVersion::V2, &files, DEFAULT_CHUNK_SIZE);
    let d = m.data();
    assert_eq!(d.file_table.len(), 2);
    assert_eq!(d.chunk_table.len(), 3);
    let sizes: Vec<(u32, u32, u64)> =
        d.chunk_table.iter().map(|c| (c.file_index, c.size_bytes, c.offset)).collect();
    assert_eq!(sizes, vec![(0, 1, 0), (1, 1_048_576, 0), (1, 451_424, 1_048_576)]);
    assert_eq!(d.file_table[0].size_bytes, 1);
    assert_eq!(d.file_table[1].size_bytes, 1_500_000);
    assert_eq!(d.file_table[1].relative_path, "b/c");
    // Wire chunk ids 1, 2, 3 name the chunk table entries 0, 1, 2.
    for id in 1..=3u32 {
        match state_sync_chunk_type(id) {
            StateSyncChunk::FileChunk(i) => {
                assert_eq!(i as usize + FILE_CHUNK_ID_OFFSET, id as usize);
                assert!((i as usize) < d.chunk_table.len());
            }
            other => panic!("unexpected kind {:?}", other),
        }
    }
    assert_eq!(state_sync_chunk_type(META_MANIFEST_CHUNK), StateSyncChunk::MetaManifestChunk);
    // The chunk hash is the domain-separated hash of the raw bytes.
    assert_eq!(d.chunk_table[0].hash, sha256(&[&dsep("ic-state-chunk"), &[7u8]]));
}

#[test]
fn file_hash_layout_before_and_from_v3() {
    let c = ChunkInfo { file_index: 5, size_bytes: 3, offset: 9, hash: [1; 32] };
    let chunks = vec![c];
    let mut v2 = Vec::new();
    v2.extend_from_slice(&1u32.to_be_bytes());
    v2.extend_from_slice(&5u32.to_be_bytes());
    v2.extend_from_slice(&3u32.to_be_bytes());
    v2.extend_from_slice(&9u64.to_be_bytes());
    v2.extend_from_slice(&[1; 32]);
    assert_eq!(file_hash(StateSyncVersion::V2, &chunks), sha256(&[&dsep("ic-state-file"), &v2]));
    let mut v3 = Vec::new();
    v3.extend_from_slice(&1u32.to_be_bytes());
    v3.extend_from_slice(&3u32.to_be_bytes());
    v3.extend_from_slice(&9u64.to_be_bytes());
    v3.extend_from_slice(&[1; 32]);
    assert_eq!(file_hash(StateSyncVersion::V3, &chunks), sha256(&[&dsep("ic-state-file"), &v3]));
}

#[test]
fn single_byte_change_changes_hashes() {
    let files = two_files();
    let mut changed = two_files();
    changed[1].1[1_200_000] ^= 1;
    let a = compute_manifest(StateSyncVersion::V1, &files, DEFAULT_CHUNK_SIZE);
    let b = compute_manifest(StateSyncVersion::V1, &changed, DEFAULT_CHUNK_SIZE);
    let a2 = compute_manifest(StateSyncVersion::V1, &files, DEFAULT_CHUNK_SIZE);
    assert_eq!(a, a2);
    assert_eq!(a.data().file_table[0].hash, b.data().file_table[0].hash);
    assert_ne!(a.data().file_table[1].hash, b.data().file_table[1].hash);
    assert_eq!(a.data().chunk_table[1].hash, b.data().chunk_table[1].hash);
    assert_ne!(a.data().chunk_table[2].hash, b.data().chunk_table[2].hash);
    assert_ne!(manifest_hash_v1(&a), manifest_hash_v1(&b));
    assert_ne!(manifest_hash_v0(&a), manifest_hash_v0(&b));
}

#[test]
fn reordering_files_and_file_hash_versions() {
    let files = vec![("x".to_string(), vec![1u8, 2, 3]), ("y".to_string(), vec![4u8, 5])];
    let swapped = vec![files[1].clone(), files[0].clone()];
    for v in [StateSyncVersion::V0, StateSyncVersion::V1, StateSyncVersion::V2] {
        let a = compute_manifest(v, &files, DEFAULT_CHUNK_SIZE);
        let b = compute_manifest(v, &swapped, DEFAULT_CHUNK_SIZE);
        assert_ne!(a.data().file_table[1].hash, b.data().file_table[0].hash);
    }
    let a = compute_manifest(StateSyncVersion::V3, &files, DEFAULT_CHUNK_SIZE);
    let b = compute_manifest(StateSyncVersion::V3, &swapped, DEFAULT_CHUNK_SIZE);
    assert_eq!(a.data().file_table[1].hash, b.data().file_table[0].hash);
    assert_eq!(a.data().file_table[0].hash, b.data().file_table[1].hash);
}

#[test]
fn length_prefixes_resist_concatenation_ambiguity() {
    // Without length prefixes, ["ab" 1 h] ["c" 2 h] and ["a" ...] laid out so
    // that the raw bytes coincide would hash alike; here they do not.
    let h = [3u8; 32];
    let mut joined_path = b"a".to_vec();
    joined_path.extend_from_slice(&1u64.to_be_bytes());
    joined_path.extend_from_slice(&h);
    joined_path.extend_from_slice(b"b");
    let joined = String::from_utf8(joined_path).unwrap();
    let two = Manifest::new(
        StateSyncVersion::V0,
        vec![
            FileInfo { relative_path: "a".to_string(), size_bytes: 1, hash: h },
            FileInfo { relative_path: "b".to_string(), size_bytes: 2, hash: h },
        ],
        vec![],
    );
    let one = Manifest::new(
        StateSyncVersion::V0,
        vec![FileInfo { relative_path: joined, size_bytes: 2, hash: h }],
        vec![],
    );
    // The tables laid out without length prefixes would be the same bytes.
    let naive = |files: &[FileInfo]| {
        let mut v = Vec::new();
        for f in files {
            v.extend_from_slice(f.relative_path.as_bytes());
            v.extend_from_slice(&f.size_bytes.to_be_bytes());
            v.extend_from_slice(&f.hash);
        }
        v
    };
    assert_eq!(naive(&two.data().file_table), naive(&one.data().file_table));
    assert_ne!(manifest_v0_hash_input(&two)[4..], manifest_v0_hash_input(&one)[4..]);
    assert_ne!(manifest_hash_v0(&two), manifest_hash_v0(&one));
}

#[test]
fn meta_manifest_of_two_and_a_half_chunks() {
    let encoded: Vec<u8> = (0..(5 * DEFAULT_CHUNK_SIZE as usize / 2)).map(|i| (i % 13) as u8).collect();
    assert_eq!(encoded.len(), 2_621_440);
    let meta = build_meta_manifest(StateSyncVersion::V2, &encoded, MAX_SUB_MANIFEST_SIZE);
    assert_eq!(meta.sub_manifest_hashes.len(), 3);
    let pieces: Vec<Vec<u8>> =
        (0..3).map(|i| sub_manifest_chunk(&encoded, i, MAX_SUB_MANIFEST_SIZE).unwrap()).collect();
    assert_eq!(pieces[2].len(), 524_288);
    assert_eq!(sub_manifest_chunk(&encoded, 3, MAX_SUB_MANIFEST_SIZE), None);
    for (i, p) in pieces.iter().enumerate() {
        assert!(verify_sub_manifest(&meta, i, p));
        assert_eq!(sub_manifest_hash(p), meta.sub_manifest_hashes[i]);
    }
    let mut bad = pieces[1].clone();
    bad[17] ^= 0x10;
    assert!(!verify_sub_manifest(&meta, 1, &bad));
    assert!(verify_sub_manifest(&meta, 0, &pieces[0]));
    assert!(verify_sub_manifest(&meta, 2, &pieces[2]));
    assert!(!verify_sub_manifest(&meta, 3, &pieces[2]));
    let mut input = Vec::new();
    input.extend_from_slice(&2u32.to_be_bytes());
    input.extend_from_slice(&3u32.to_be_bytes());
    for h in &meta.sub_manifest_hashes {
        input.extend_from_slice(h);
    }
    assert_eq!(meta_manifest_hash(&meta), sha256(&[&dsep("ic-state-meta-manifest"), &input]));
}

#[test]
fn manifest_hash_follows_version() {
    let files = two_files();
    let encoded = vec![9u8; 10];
    let m0 = compute_manifest(StateSyncVersion::V0, &files, DEFAULT_CHUNK_SIZE);
    let m1 = compute_manifest(StateSyncVersion::V1, &files, DEFAULT_CHUNK_SIZE);
    let m2 = compute_manifest(StateSyncVersion::V2, &files, DEFAULT_CHUNK_SIZE);
    assert_eq!(manifest_hash(&m0, &encoded), manifest_hash_v0(&m0));
    assert_eq!(manifest_hash(&m1, &encoded), manifest_hash_v1(&m1));
    let meta = build_meta_manifest(StateSyncVersion::V2, &encoded, MAX_SUB_MANIFEST_SIZE);
    assert_eq!(manifest_hash(&m2, &encoded), meta_manifest_hash(&meta));
    assert_ne!(manifest_hash_v0(&m0), manifest_hash_v1(&m1));
}

#[test]
fn empty_checkpoint_and_empty_file() {
    let files = vec![("empty".to_string(), Vec::new())];
    let m = compute_manifest(StateSyncVersion::V3, &files, DEFAULT_CHUNK_SIZE);
    assert_eq!(m.data().chunk_table.len(), 0);
    assert_eq!(m.data().file_table[0].size_bytes, 0);
    let mut input = Vec::new();
    input.extend_from_slice(&0u32.to_be_bytes());
    assert_eq!(m.data().file_table[0].hash, sha256(&[&dsep("ic-state-file"), &input]));
    let none = compute_manifest(StateSyncVersion::V3, &Vec::new(), DEFAULT_CHUNK_SIZE);
    assert!(none.data().file_table.is_empty());
    let meta = build_meta_manifest(StateSyncVersion::V3, &[], MAX_SUB_MANIFEST_SIZE);
    assert!(meta.sub_manifest_hashes.is_empty());
}

#[test]
fn file_group_chunks_lookup() {
    let g = FILE_GROUP_CHUNK_ID_OFFSET;
    let empty = FileGroupChunks::new(BTreeMap::new());
    assert!(empty.is_empty());
    assert_eq!(empty.len(), 0);
    assert_eq!(empty.last_chunk_id(), None);
    let mut map = BTreeMap::new();
    map.insert(g + 1, vec![4, 5]);
    map.insert(g, vec![1, 2, 3]);
    let groups = FileGroupChunks::new(map);
    assert_eq!(groups.len(), 2);
    assert!(!groups.is_empty());
    assert_eq!(groups.keys(), vec![g, g + 1]);
    assert_eq!(groups.iter(), vec![(g, vec![1, 2, 3]), (g + 1, vec![4, 5])]);
    assert_eq!(groups.get(&g), Some(&vec![1, 2, 3]));
    assert_eq!(groups.get(&(g + 2)), None);
    assert_eq!(groups.last_chunk_id(), Some(g + 1));
}

fn header(spec: &[(&str, usize)]) -> String {
    let mut s = String::new();
    for (idx, (field, width)) in spec.iter().enumerate() {
        s += &format!("{}{:^width$}", if idx > 0 { "|" } else { "" }, field, width = width);
    }
    s += "\n";
    for (idx, (_, width)) in spec.iter().enumerate() {
        s += &format!("{}{:-^width$}", if idx > 0 { "+" } else { "" }, "", width = width);
    }
    s += "\n";
    s
}

#[test]
fn manifest_text_dump() {
    let m = Manifest::new(
        StateSyncVersion::V2,
        vec![
            FileInfo { relative_path: "a".to_string(), size_bytes: 1, hash: [0xab; 32] },
            FileInfo { relative_path: "dir/long_name".to_string(), size_bytes: 1234567, hash: [0x01; 32] },
        ],
        vec![
            ChunkInfo { file_index: 0, size_bytes: 1, offset: 0, hash: [0x0f; 32] },
            ChunkInfo { file_index: 1, size_bytes: 1234567, offset: 0, hash: [0xf0; 32] },
        ],
    );
    let mut expected = String::from("MANIFEST VERSION: V2\nFILE TABLE\n");
    expected += &header(&[("idx", 12), ("size", 12), ("hash", 66), ("path", 13)]);
    expected += &format!(" {:>10} | {:>10} | {:64} | {}\n", 0, 1, "ab".repeat(32), "a");
    expected += &format!(" {:>10} | {:>10} | {:64} | {}\n", 1, 1234567, "01".repeat(32), "dir/long_name");
    expected += "CHUNK TABLE\n";
    expected += &header(&[("idx", 12), ("file_idx", 12), ("offset", 12), ("size", 12), ("hash", 66)]);
    expected += &format!(" {:>10} | {:>10} | {:>10} | {:>10} | {}\n", 0, 0, 0, 1, "0f".repeat(32));
    expected += &format!(" {:>10} | {:>10} | {:>10} | {:>10} | {}\n", 1, 1, 0, 1234567, "f0".repeat(32));
    assert_eq!(m.to_text(), expected);
    assert!(expected.starts_with("MANIFEST VERSION: V2\nFILE TABLE\n    idx     |    size    |"));
}

#[test]
fn empty_manifest_text_dump() {
    let m = Manifest::new(StateSyncVersion::V0, vec![], vec![]);
    let mut expected = String::from("MANIFEST VERSION: V0\nFILE TABLE\n");
    expected += &header(&[("idx", 12), ("size", 12), ("hash", 66), ("path", 6)]);
    expected += "CHUNK TABLE\n";
    expected += &header(&[("idx", 12), ("file_idx", 12), ("offset", 12), ("size", 12), ("hash", 66)]);
    assert_eq!(m.to_text(), expected);
}

#[test]
fn file_groups_fit_chunk_table() {
    let g = FILE_GROUP_CHUNK_ID_OFFSET;
    let mut map = BTreeMap::new();
    map.insert(g, vec![0, 1]);
    map.insert(g + 1, vec![2]);
    let groups = FileGroupChunks::new(map.clone());
    assert!(groups.fits(3));
    assert!(!groups.fits(2));
    map.insert(g + 2, vec![1]);
    assert!(!FileGroupChunks::new(map.clone()).fits(3));
    let mut within = BTreeMap::new();
    within.insert(g, vec![0, 0]);
    assert!(!FileGroupChunks::new(within).fits(3));
    let mut low = BTreeMap::new();
    low.insert(5, vec![0]);
    assert!(!FileGroupChunks::new(low).fits(3));
    let mut high = BTreeMap::new();
    high.insert(MANIFEST_CHUNK_ID_OFFSET, vec![0]);
    assert!(!FileGroupChunks::new(high).fits(3));
    assert!(FileGroupChunks::new(BTreeMap::new()).fits(0));
}

#[test]
fn hash_inputs_are_length_prefixed_big_endian() {
    let chunks = vec![ChunkInfo { file_index: 0x01020304, size_bytes: 5, offset: 0x0a0b, hash: [2; 32] }];
    let mut expected = vec![0, 0, 0, 1, 1, 2, 3, 4, 0, 0, 0, 5, 0, 0, 0, 0, 0, 0, 0x0a, 0x0b];
    expected.extend_from_slice(&[2; 32]);
    assert_eq!(file_hash_input(StateSyncVersion::V1, &chunks), expected);
    let mut v3 = vec![0, 0, 0, 1, 0, 0, 0, 5, 0, 0, 0, 0, 0, 0, 0x0a, 0x0b];
    v3.extend_from_slice(&[2; 32]);
    assert_eq!(file_hash_input(StateSyncVersion::V3, &chunks), v3);

    let m = Manifest::new(
        StateSyncVersion::V1,
        vec![FileInfo { relative_path: "ab".to_string(), size_bytes: 5, hash: [7; 32] }],
        chunks.clone(),
    );
    let mut files = vec![0, 0, 0, 1, 0, 0, 0, 2, b'a', b'b', 0, 0, 0, 0, 0, 0, 0, 5];
    files.extend_from_slice(&[7; 32]);
    assert_eq!(manifest_v0_hash_input(&m), files);
    let mut v1 = vec![0, 0, 0, 1];
    v1.extend_from_slice(&files);
    v1.extend_from_slice(&[0, 0, 0, 1]);
    v1.extend_from_slice(&expected[4..]);
    assert_eq!(manifest_v1_hash_input(&m), v1);
    assert_eq!(manifest_hash_v1(&m), sha256(&[&dsep("ic-state-manifest"), &v1]));
    assert_eq!(manifest_hash_v0(&m), sha256(&[&dsep("ic-state-manifest"), &files]));

    let meta = MetaManifest { version: StateSyncVersion::V3, sub_manifest_hashes: vec![[1; 32], [9; 32]] };
    let mut mm = vec![0, 0, 0, 3, 0, 0, 0, 2];
    mm.extend_from_slice(&[1; 32]);
    mm.extend_from_slice(&[9; 32]);
    assert_eq!(meta_manifest_hash_input(&meta), mm);
    assert!(sub_manifest_hash_matches(&meta, 1, &[9; 32]));
    assert!(!sub_manifest_hash_matches(&meta, 0, &[9; 32]));
    assert!(!sub_manifest_hash_matches(&meta, 2, &[9; 32]));
}

#[test]
fn sub_manifest_hash_is_domain_separated() {
    assert_eq!(sub_manifest_hash(b"xyz"), sha256(&[&dsep("ic-state-sub-manifest"), b"xyz"]));
    assert_ne!(sub_manifest_hash(b"xyz"), sha256(&[b"xyz"]));
}

#[test]
fn built_manifests_are_well_formed() {
    let files = two_files();
    for v in [StateSyncVersion::V0, StateSyncVersion::V3] {
        let m = compute_manifest(v, &files, DEFAULT_CHUNK_SIZE);
        assert_eq!(validate_manifest(&m), Ok(()));
    }
    let small = compute_manifest(StateSyncVersion::V2, &files, 7);
    assert_eq!(small.data().chunk_table.len(), 1 + (1_500_000 + 6) / 7);
    assert_eq!(validate_manifest(&small), Ok(()));
}

fn chunk(file_index: u32, size_bytes: u32, offset: u64) -> ChunkInfo {
    ChunkInfo { file_index, size_bytes, offset, hash: [0; 32] }
}

fn file(size_bytes: u64) -> FileInfo {
    FileInfo { relative_path: "f".to_string(), size_bytes, hash: [0; 32] }
}

#[test]
fn structural_errors() {
    let check = |files: Vec<FileInfo>, chunks: Vec<ChunkInfo>| {
        validate_manifest(&Manifest::new(StateSyncVersion::V3, files, chunks))
    };
    assert_eq!(check(vec![file(10)], vec![chunk(0, 4, 0), chunk(0, 6, 4)]), Ok(()));
    assert_eq!(check(vec![file(0)], vec![]), Ok(()));
    // A file index out of range.
    assert_eq!(check(vec![file(4)], vec![chunk(1, 4, 0)]), Err(StructuralError::Chunk(0)));
    // A gap between two chunks.
    assert_eq!(check(vec![file(10)], vec![chunk(0, 4, 0), chunk(0, 5, 5)]), Err(StructuralError::Chunk(1)));
    // Overlapping chunks.
    assert_eq!(check(vec![file(10)], vec![chunk(0, 4, 0), chunk(0, 7, 3)]), Err(StructuralError::Chunk(1)));
    // A first chunk that does not start at 0.
    assert_eq!(check(vec![file(10)], vec![chunk(0, 10, 1)]), Err(StructuralError::Chunk(0)));
    // Chunks that stop short of the end of the file.
    assert_eq!(check(vec![file(10)], vec![chunk(0, 9, 0)]), Err(StructuralError::Chunk(0)));
    // An empty chunk.
    assert_eq!(check(vec![file(0)], vec![chunk(0, 0, 0)]), Err(StructuralError::Chunk(0)));
    // Chunks out of file order.
    assert_eq!(
        check(vec![file(1), file(1)], vec![chunk(1, 1, 0), chunk(0, 1, 0)]),
        Err(StructuralError::Chunk(1))
    );
    // A file with bytes but no chunk.
    assert_eq!(check(vec![file(1), file(3)], vec![chunk(0, 1, 0)]), Err(StructuralError::File(1)));
}

#[test]
fn decoded_fields_make_values() {
    assert_eq!(hash_from_bytes(&vec![5; 32]), Ok([5; 32]));
    assert_eq!(hash_from_bytes(&vec![5; 31]), Err(DecodeError::InvalidHashLength(31)));
    let files = vec![("p".to_string(), 3u64, vec![1u8; 32])];
    let chunks = vec![(0u32, 3u32, 0u64, vec![2u8; 32])];
    let m = manifest_from_parts(3, &files, &chunks).unwrap();
    assert_eq!(m.data().version, StateSyncVersion::V3);
    assert_eq!(m.data().file_table[0], FileInfo { relative_path: "p".to_string(), size_bytes: 3, hash: [1; 32] });
    assert_eq!(m.data().chunk_table[0], chunk_with(0, 3, 0, [2; 32]));
    assert_eq!(manifest_from_parts(4, &files, &chunks), Err(DecodeError::UnsupportedVersion(4)));
    let bad_chunks = vec![(0u32, 3u32, 0u64, vec![2u8; 33])];
    assert_eq!(manifest_from_parts(1, &files, &bad_chunks), Err(DecodeError::InvalidHashLength(33)));
    assert_eq!(manifest_from_parts(9, &files, &bad_chunks), Err(DecodeError::UnsupportedVersion(9)));
    let meta = meta_manifest_from_parts(2, &vec![vec![7; 32], vec![8; 32]]).unwrap();
    assert_eq!(meta, MetaManifest { version: StateSyncVersion::V2, sub_manifest_hashes: vec![[7; 32], [8; 32]] });
    assert_eq!(meta_manifest_from_parts(2, &vec![vec![]]), Err(DecodeError::InvalidHashLength(0)));
    assert_eq!(meta_manifest_from_parts(u32::MAX, &vec![]), Err(DecodeError::UnsupportedVersion(u32::MAX)));
}

fn chunk_with(file_index: u32, size_bytes: u32, offset: u64, hash: [u8; 32]) -> ChunkInfo {
    ChunkInfo { file_index, size_bytes, offset, hash }
}

#[test]
fn fields_round_trip() {
    for v in [StateSyncVersion::V0, StateSyncVersion::V1, StateSyncVersion::V2, StateSyncVersion::V3] {
        let m = compute_manifest(v, &two_files(), DEFAULT_CHUNK_SIZE);
        let (version, files, chunks) = manifest_parts(&m);
        assert_eq!(version, v.as_u32());
        assert_eq!(manifest_from_parts(version, &files, &chunks), Ok(m.clone()));
        let meta = build_meta_manifest(v, &[1, 2, 3], 2);
        let (mv, hashes) = meta_manifest_parts(&meta);
        assert_eq!(meta_manifest_from_parts(mv, &hashes), Ok(meta));
    }
}

#[test]
fn decoding_refuses_malformed_tables() {
    let files = vec![("p".to_string(), 3u64, vec![1u8; 32])];
    // The only chunk names a file that does not exist.
    let stray = vec![(1u32, 3u32, 0u64, vec![2u8; 32])];
    assert_eq!(
        manifest_from_parts(3, &files, &stray),
        Err(DecodeError::Malformed(StructuralError::Chunk(0)))
    );
    // Two chunks that overlap.
    let overlap = vec![(0u32, 2u32, 0u64, vec![2u8; 32]), (0u32, 2u32, 1u64, vec![2u8; 32])];
    assert_eq!(
        manifest_from_parts(1, &files, &overlap),
        Err(DecodeError::Malformed(StructuralError::Chunk(1)))
    );
    // A file with bytes and no chunk.
    assert_eq!(
        manifest_from_parts(2, &files, &vec![]),
        Err(DecodeError::Malformed(StructuralError::File(0)))
    );
    // The first hash of a wrong length is reported, file hashes first.
    let bad_files = vec![("p".to_string(), 3u64, vec![1u8; 32]), ("q".to_string(), 0u64, vec![1u8; 5])];
    let bad_chunks = vec![(0u32, 3u32, 0u64, vec![2u8; 7])];
    assert_eq!(manifest_from_parts(0, &bad_files, &bad_chunks), Err(DecodeError::InvalidHashLength(5)));
    assert_eq!(manifest_from_parts(0, &files, &bad_chunks), Err(DecodeError::InvalidHashLength(7)));
    assert_eq!(
        meta_manifest_from_parts(1, &vec![vec![0; 32], vec![0; 3], vec![0; 4]]),
        Err(DecodeError::InvalidHashLength(3))
    );
}
