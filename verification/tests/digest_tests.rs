use codememory::digest::{content_hash, file_id_for, project_id_for};
use sha2::Digest;

#[test]
fn content_hash_of_known_strings() {
    assert_eq!(
        content_hash(""),
        "e3b0c44298fc1c149afbf4c8996fb92427ae41e4649b934ca495991b7852b855"
    );
    assert_eq!(
        content_hash("abc"),
        "ba7816bf8f01cfea414140de5dae2223b00361a396177a9cb410ff61f20015ad"
    );
}

#[test]
fn project_id_is_digest_of_path() {
    let id = project_id_for("/home/me/project");
    assert_eq!(id, hex::encode(sha2::Sha256::digest("/home/me/project".as_bytes())));
    assert_eq!(id.len(), 64);
    assert!(id.chars().all(|c| c.is_ascii_hexdigit() && !c.is_ascii_uppercase()));
}

#[test]
fn file_id_joins_project_and_path_with_colon() {
    assert_eq!(file_id_for("p", "src/a.rs"), content_hash("p:src/a.rs"));
    assert_ne!(file_id_for("p", "src/a.rs"), file_id_for("q", "src/a.rs"));
}
