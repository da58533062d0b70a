use backup_suite::codec::{
    archive_file_name, is_packable_name, archive_round_trip, classify_archive_exit, create_file_archive,
    ditto_extract_args, extract_precheck, first_extract_step, next_extract_step,
    read_file_archive, reserved_archive_name, select_codec, tar_create_args,
    tar_extract_args, ArchiveOutcome, Codec, ExtractStep,
};
use backup_suite::errors::EngineError;

#[test]
fn round_trip_reproduces_name_and_bytes() {
    let data: Vec<u8> = b"brew \"git\"\ncask \"firefox\"\n".to_vec();
    let out = archive_round_trip("homebrew_packages.txt", &data);
    let (name, bytes) = out.expect("pack+unpack");
    assert_eq!(name, "homebrew_packages.txt");
    assert_eq!(bytes, data);
}

#[test]
fn round_trip_of_empty_payload() {
    let data: Vec<u8> = Vec::new();
    let out = archive_round_trip("empty.txt", &data);
    let (name, bytes) = out.expect("pack+unpack");
    assert_eq!(name, "empty.txt");
    assert!(bytes.is_empty());
}

#[test]
fn packed_archive_is_not_the_raw_payload() {
    let data: Vec<u8> = b"plain text".to_vec();
    let packed = create_file_archive("a.txt", &data).expect("pack");
    assert_ne!(packed, data);
    // A gzip stream starts with its fixed magic bytes.
    assert_eq!(&packed[0..2], &[0x1f, 0x8b]);
}

#[test]
fn unpack_rejects_garbage() {
    let garbage: Vec<u8> = b"not an archive at all".to_vec();
    assert!(read_file_archive(&garbage).is_none());
}

#[test]
fn codec_selection_follows_host() {
    assert_eq!(select_codec(true), Codec::Zstd);
    assert_eq!(select_codec(false), Codec::Gzip);
}

#[test]
fn archive_names_are_normalized() {
    assert_eq!(archive_file_name("My Folder.Old", Codec::Zstd), "my-folder_old.tar.zst");
    assert_eq!(archive_file_name("Documents", Codec::Gzip), "documents.tar.gz");
    assert_eq!(archive_file_name("A B C", Codec::Zstd), "a-b-c.tar.zst");
}

#[test]
fn reserved_names_carry_codec_extension() {
    assert_eq!(
        reserved_archive_name("homebrew-packages", Codec::Zstd),
        "homebrew-packages.tar.zst"
    );
    assert_eq!(reserved_archive_name("mas-apps", Codec::Gzip), "mas-apps.tar.gz");
}

#[test]
fn exit_policy_tolerates_warnings_when_target_exists() {
    assert_eq!(classify_archive_exit(true, true, false), ArchiveOutcome::Completed);
    assert_eq!(classify_archive_exit(false, true, false), ArchiveOutcome::Completed);
    assert_eq!(classify_archive_exit(false, false, false), ArchiveOutcome::Failed);
}

#[test]
fn cancellation_supersedes_other_outcomes() {
    assert_eq!(classify_archive_exit(true, true, true), ArchiveOutcome::Cancelled);
    assert_eq!(classify_archive_exit(false, false, true), ArchiveOutcome::Cancelled);
}

#[test]
fn create_args_for_zstd_exclude_sockets() {
    let args = tar_create_args("/tmp/x.tar.zst", "Documents", Codec::Zstd);
    let expected = vec![
        "--use-compress-program=/opt/homebrew/bin/zstd -T0",
        "-cf",
        "/tmp/x.tar.zst",
        "--exclude",
        "*.sock",
        "--exclude",
        "*/sockets/*",
        "Documents",
    ];
    assert_eq!(args, expected);
}

#[test]
fn create_args_for_gzip_exclude_sockets() {
    let args = tar_create_args("/tmp/x.tar.gz", "Desktop", Codec::Gzip);
    let expected =
        vec!["-czf", "/tmp/x.tar.gz", "--exclude", "*.sock", "--exclude", "*/sockets/*", "Desktop"];
    assert_eq!(args, expected);
}

#[test]
fn extraction_chain_with_fast_codec() {
    let s0 = first_extract_step();
    assert_eq!(s0, ExtractStep::Ditto);
    let s1 = next_extract_step(s0, true).unwrap();
    assert_eq!(s1, ExtractStep::TarZstd);
    let s2 = next_extract_step(s1, true).unwrap();
    assert_eq!(s2, ExtractStep::TarGzip);
    assert!(next_extract_step(s2, true).is_none());
}

#[test]
fn extraction_chain_without_fast_codec() {
    let s1 = next_extract_step(ExtractStep::Ditto, false).unwrap();
    assert_eq!(s1, ExtractStep::TarGzip);
    assert!(next_extract_step(s1, false).is_none());
}

#[test]
fn extract_args_keep_existing_files_without_overwrite() {
    assert_eq!(
        tar_extract_args("/a.tar.zst", false, ExtractStep::TarZstd),
        vec!["-k", "--use-compress-program=zstd -d", "-xf", "/a.tar.zst"]
    );
    assert_eq!(
        tar_extract_args("/a.tar.gz", true, ExtractStep::TarGzip),
        vec!["-xzf", "/a.tar.gz"]
    );
    assert_eq!(
        ditto_extract_args("/a.tar.zst", "/dest"),
        vec!["-x", "-k", "/a.tar.zst", "/dest"]
    );
}

#[test]
fn precheck_names_already_exists_distinctly() {
    assert_eq!(extract_precheck(true, false), Err(EngineError::AlreadyExists));
    assert_eq!(extract_precheck(true, true), Ok(()));
    assert_eq!(extract_precheck(false, false), Ok(()));
}

#[test]
fn packing_succeeds_for_plain_names() {
    let data: Vec<u8> = b"payload".to_vec();
    assert!(create_file_archive("homebrew_packages.txt", &data).is_some());
    assert!(create_file_archive("a", &Vec::new()).is_some());
    // Long names take the GNU long-name extension and still pack.
    let long_name = "x".repeat(150);
    let out = archive_round_trip(&long_name, &data).expect("long name packs");
    assert_eq!(out.0, long_name);
    assert_eq!(out.1, data);
}

#[test]
fn packable_names_are_screened() {
    assert!(is_packable_name("homebrew_packages.txt"));
    assert!(is_packable_name("Bookmarks.plist"));
    assert!(!is_packable_name(""));
    assert!(!is_packable_name(".."));
    assert!(!is_packable_name("a/b"));
    assert!(!is_packable_name("a\0b"));
}
