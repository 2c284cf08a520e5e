use epic_asset_manager::download_files::{
    backup_extension, chunk_data, chunk_data_of, chunk_file_name, copy_step, digest_matches,
    download_base_dir, engine_fetch, extract_chunks, extract_step, file_already_downloaded,
    hash_matches, manifest_in_parent, to_hex_lower, ChunkData, CopyStep, EngineFetch, ExtractStep,
};
use epic_asset_manager::download_manager::ChunkPart;

#[test]
fn hex_is_lower_case_two_digits_per_byte() {
    assert_eq!(to_hex_lower(&[0x00, 0x0f, 0xab, 0xff]), "000fabff");
    assert_eq!(to_hex_lower(&[]), "");
}

#[test]
fn sha1_of_abc() {
    let expected = "a9993e364706816aba3e25717850c26c9cd0d89d".to_string();
    assert!(hash_matches(b"abc", &expected));
    assert!(!hash_matches(b"abd", &expected));
    assert!(file_already_downloaded(Some(b"abc"), &expected));
    assert!(!file_already_downloaded(None, &expected));
}

#[test]
fn digest_compares_in_hex() {
    assert!(digest_matches(&[0xde, 0xad], &"dead".to_string()));
    assert!(!digest_matches(&[0xde, 0xad], &"DEAD".to_string()));
}

#[test]
fn chunk_files_are_classified() {
    assert!(matches!(chunk_data(Vec::new()), ChunkData::Unreadable));
    assert!(matches!(chunk_data(vec![1, 2, 3, 4, 5, 6]), ChunkData::Undecodable));
    assert!(matches!(chunk_data_of(None), ChunkData::Undecodable));
    match chunk_data_of(Some((Some(3), vec![7, 8, 9]))) {
        ChunkData::Decoded(Some(3), d) => assert_eq!(d, vec![7, 8, 9]),
        other => panic!("unexpected {:?}", other),
    }
}

fn part(offset: u128, size: u128) -> ChunkPart {
    ChunkPart { guid: "g".to_string(), link: None, offset, size }
}

#[test]
fn assembly_takes_each_part_and_skips_unreadable_chunks() {
    let parts = vec![part(1, 2), part(0, 1), part(0, 3)];
    let chunks = vec![
        ChunkData::Decoded(None, vec![10, 11, 12, 13]),
        ChunkData::Unreadable,
        ChunkData::Decoded(Some(3), vec![20, 21, 22]),
    ];
    assert_eq!(extract_chunks(&parts, &chunks), vec![11, 12, 20, 21, 22]);
}

#[test]
fn assembly_stops_at_a_bad_chunk() {
    let parts = vec![part(0, 1), part(0, 1), part(0, 1)];
    let chunks = vec![
        ChunkData::Decoded(None, vec![1]),
        ChunkData::Undecodable,
        ChunkData::Decoded(None, vec![3]),
    ];
    assert_eq!(extract_chunks(&parts, &chunks), vec![1]);
    let short = vec![part(0, 5)];
    assert_eq!(extract_chunks(&short, &vec![ChunkData::Decoded(Some(2), vec![1, 2])]), Vec::<u8>::new());
}

#[test]
fn copy_steps() {
    assert_eq!(copy_step(true, false), CopyStep::Skip);
    assert_eq!(copy_step(true, true), CopyStep::BackupThenCopy);
    assert_eq!(copy_step(false, false), CopyStep::Copy);
}

#[test]
fn small_names() {
    assert_eq!(backup_extension(Some("uasset")), "uasset.bak");
    assert_eq!(backup_extension(None), ".bak");
    assert_eq!(chunk_file_name("ABC"), "ABC.chunk");
    assert_eq!(download_base_dir(&vec!["/v1".to_string(), "/v2".to_string()], &"/tmp".to_string()), "/v1");
    assert_eq!(download_base_dir(&vec![], &"/tmp".to_string()), "/tmp");
    assert_eq!(manifest_in_parent(Some("data")), Some(true));
    assert_eq!(manifest_in_parent(Some("Content")), Some(false));
    assert_eq!(manifest_in_parent(None), None);
}

#[test]
fn archive_entries() {
    assert_eq!(extract_step(false, None, 1, "a"), ExtractStep::Skip);
    assert_eq!(extract_step(true, Some(7), 7, "a"), ExtractStep::Skip);
    assert_eq!(extract_step(true, Some(6), 7, "dir/"), ExtractStep::MakeDir);
    assert_eq!(extract_step(true, None, 7, "dir/file"), ExtractStep::WriteFile);
}

#[test]
fn engine_archive_fetch() {
    assert!(matches!(engine_fetch(None, 100), EngineFetch::Fresh));
    assert!(matches!(engine_fetch(Some(100), 100), EngineFetch::Complete));
    match engine_fetch(Some(40), 100) {
        EngineFetch::Resume(h) => assert_eq!(h, "bytes=40-100"),
        other => panic!("unexpected {:?}", other),
    }
}
