use smd::File;
use smd::State;
use smd::User;
use smd::hash;
use smd::to_absolute_path;
use smd::to_relative_paths;
use smd::to_valid_syncing_directory;

#[test]
fn sha1_digest_of_known_input() {
    let digest = hash(&b"hello".to_vec());
    let expected: [u8; 20] = [
        0xaa, 0xf4, 0xc6, 0x1d, 0xdc, 0xc5, 0xe8, 0xa2, 0xda, 0xbe, 0xde, 0x0f, 0x3b, 0x48, 0x2c,
        0xd9, 0xae, 0xa9, 0x43, 0x4d,
    ];
    assert_eq!(digest, expected);
}

#[test]
fn sha1_digest_of_empty_input() {
    let digest = hash(&Vec::new());
    let expected: [u8; 20] = [
        0xda, 0x39, 0xa3, 0xee, 0x5e, 0x6b, 0x4b, 0x0d, 0x32, 0x55, 0xbf, 0xef, 0x95, 0x60, 0x18,
        0x90, 0xaf, 0xd8, 0x07, 0x09,
    ];
    assert_eq!(digest, expected);
}

#[test]
fn entry_from_bytes_records_length_and_digest() {
    let data = b"hello".to_vec();
    let entry = File::from_bytes(77, &data, State::Created);
    assert_eq!(entry.mtime(), 77);
    assert_eq!(entry.size(), 5);
    assert_eq!(entry.hash(), hash(&data));
    assert_eq!(entry.state(), &State::Created);
}

#[test]
fn absolutize_resolves_dots() {
    let p = to_absolute_path(&String::from("/path/to/./123/../456")).unwrap();
    assert_eq!(p, "/path/to/456");
    let p = to_absolute_path(&String::from("/already/abs")).unwrap();
    assert_eq!(p, "/already/abs");
}

#[test]
fn absolutize_makes_relative_paths_absolute() {
    let p = to_valid_syncing_directory(&String::from("some/dir")).unwrap();
    assert!(p.starts_with('/'));
    assert!(p.ends_with("some/dir"));
}

#[test]
fn relative_paths_strip_the_root() {
    let root = String::from("/srv/storage");
    let paths = vec![
        String::from("/srv/storage/a.txt"),
        String::from("/srv/storage/dir/b.txt"),
    ];
    let rel = to_relative_paths(paths, &root);
    assert_eq!(rel, vec![String::from("a.txt"), String::from("dir/b.txt")]);
}

#[test]
fn username_validation() {
    assert!(User::check_username(&String::from("alice")));
    assert!(User::check_username(&String::from("alice_2")));
    assert!(!User::check_username(&String::from("")));
    assert!(!User::check_username(&String::from("a/b")));
    assert!(!User::check_username(&String::from(".")));
    assert!(!User::check_username(&String::from("..")));
    assert!(!User::check_username(&String::from("caf\u{e9}")));
}

#[test]
fn user_directories_derive_from_root_and_name() {
    let user = User::new(String::from("alice"), &String::from("/srv/smd")).unwrap();
    assert_eq!(user.username(), "alice");
    assert_eq!(user.sync_directory(), "/srv/smd/alice");
    assert_eq!(user.state_path(), "/srv/smd/alice/smd_state.json");
    assert_eq!(user.storage_directory(), "/srv/smd/alice/storage");
}

#[test]
fn user_with_invalid_name_is_refused() {
    assert_eq!(
        User::new(String::from("../escape"), &String::from("/srv/smd")),
        Err(smd::user::UserError::InvalidUsername)
    );
}

#[test]
fn user_from_connect_payload() {
    let packet = smd::SMDpacket::new(1, smd::SMDtype::Connect, b"alice".to_vec());
    let user = User::from_smd_packet(&packet, &String::from("/srv/smd")).unwrap();
    assert_eq!(user.username(), "alice");
    assert_eq!(user.sync_directory(), "/srv/smd/alice");

    let bad = smd::SMDpacket::new(1, smd::SMDtype::Connect, vec![0xC3, 0xA9]);
    assert!(User::from_smd_packet(&bad, &String::from("/srv/smd")).is_err());
}
