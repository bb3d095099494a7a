use worldgen::save::{
    check_version, compute_checksum, meta_file_path, save_file_path, SaveError, SaveFile, MAX_SLOTS,
    SAVE_VERSION,
};

#[test]
fn checksum_of_empty_data_is_the_offset_basis() {
    assert_eq!(compute_checksum(&[]), 0xcbf29ce484222325);
}

#[test]
fn checksum_matches_fnv1a_vectors() {
    assert_eq!(compute_checksum(b"a"), 0xaf63dc4c8601ec8c);
    assert_eq!(compute_checksum(b"foobar"), 0x85944171f73967e8);
}

#[test]
fn checksum_depends_on_order() {
    assert_ne!(compute_checksum(&[1, 2]), compute_checksum(&[2, 1]));
}

#[test]
fn sealed_save_is_intact_until_tampered() {
    let file = SaveFile::seal(vec![10, 20, 30]);
    assert_eq!(file.checksum, compute_checksum(&[10, 20, 30]));
    assert!(file.is_intact());
    assert_eq!(file.verified_data().unwrap(), &vec![10, 20, 30]);
    let tampered = SaveFile { checksum: file.checksum, data: vec![10, 20, 31] };
    assert!(!tampered.is_intact());
    assert_eq!(tampered.verified_data().unwrap_err(), SaveError::Corrupted);
}

#[test]
fn only_the_current_version_loads() {
    assert_eq!(check_version(SAVE_VERSION), Ok(()));
    assert_eq!(check_version(2), Err(SaveError::IncompatibleVersion { found: 2 }));
    assert_eq!(check_version(0), Err(SaveError::IncompatibleVersion { found: 0 }));
}

#[test]
fn slot_paths_name_the_slot() {
    assert_eq!(save_file_path("saves", 3), "saves/slot_3.sav");
    assert_eq!(meta_file_path("/game/saves", 12), "/game/saves/slot_12.meta");
    assert_eq!(save_file_path("", 0), "slot_0.sav");
    assert_eq!(meta_file_path("d", 1024), "d/slot_1024.meta");
    assert_eq!(MAX_SLOTS, 5);
}
