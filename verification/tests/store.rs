//! End-to-end scenarios on the repository: write, read back, errors.

use git_starter_rust::object::{Error, ObjectType};
use git_starter_rust::repo::{default_head, Repository};

const HELLO_ID: &[u8] = b"b6fc4c620b67d95f953a5c1c1230aaab5db5a1b0";

#[test]
fn init_then_write_then_read() {
    let mut repo = Repository::new();
    repo.initialize().unwrap();
    let id = repo.write_object(ObjectType::Blob, b"hello", true).unwrap();
    assert_eq!(id, HELLO_ID.to_vec());
    assert_eq!(repo.query_type(&id), Ok(ObjectType::Blob));
    assert_eq!(repo.query_size(&id), Ok(5));
    assert_eq!(repo.read_content(&id), Ok(b"hello".to_vec()));
}

#[test]
fn writing_twice_gives_the_same_identifier() {
    let mut repo = Repository::new();
    repo.initialize().unwrap();
    let first = repo.write_object(ObjectType::Blob, b"hello", true).unwrap();
    let second = repo.write_object(ObjectType::Blob, b"hello", true).unwrap();
    assert_eq!(first, second);
    let unpersisted = repo.write_object(ObjectType::Blob, b"hello", false).unwrap();
    assert_eq!(first, unpersisted);
}

#[test]
fn writing_twice_never_fails_on_the_existing_directory() {
    let mut repo = Repository::new();
    repo.initialize().unwrap();
    assert!(repo.write_object(ObjectType::Blob, b"hello", true).is_ok());
    // the fan-out directory b6/ now exists; the second write must tolerate it
    assert!(repo.write_object(ObjectType::Blob, b"hello", true).is_ok());
    // and so must a different object that lands in the same directory later
    assert_eq!(repo.read_content(HELLO_ID), Ok(b"hello".to_vec()));
}

#[test]
fn missing_object_is_not_found() {
    let mut repo = Repository::new();
    repo.initialize().unwrap();
    let absent = b"0123456789abcdef0123456789abcdef01234567";
    assert_eq!(repo.query_type(absent), Err(Error::NotFound));
    assert_eq!(repo.query_size(absent), Err(Error::NotFound));
    assert_eq!(repo.read_content(absent), Err(Error::NotFound));
}

#[test]
fn unpersisted_write_stores_nothing() {
    let mut repo = Repository::new();
    repo.initialize().unwrap();
    let id = repo.write_object(ObjectType::Blob, b"hello", false).unwrap();
    assert_eq!(repo.read_content(&id), Err(Error::NotFound));
}

#[test]
fn initialize_twice_already_exists() {
    let mut repo = Repository::new();
    assert_eq!(repo.initialize(), Ok(()));
    assert_eq!(repo.initialize(), Err(Error::AlreadyExists));
}

#[test]
fn writing_into_uninitialized_root_fails() {
    let mut repo = Repository::new();
    assert_eq!(repo.write_object(ObjectType::Blob, b"hello", true), Err(Error::IoFailure));
    // hashing alone does not need the layout
    let id = repo.write_object(ObjectType::Blob, b"hello", false).unwrap();
    assert_eq!(id, HELLO_ID.to_vec());
}

#[test]
fn empty_payload_round_trips() {
    let mut repo = Repository::new();
    repo.initialize().unwrap();
    let id = repo.write_object(ObjectType::Blob, b"", true).unwrap();
    assert_eq!(id, b"e69de29bb2d1d6434b8b29ae775ad8c2e48c5391".to_vec());
    assert_eq!(repo.query_size(&id), Ok(0));
    assert_eq!(repo.read_content(&id), Ok(Vec::new()));
}

#[test]
fn every_kind_round_trips() {
    let mut repo = Repository::new();
    repo.initialize().unwrap();
    for t in [ObjectType::Blob, ObjectType::Tree, ObjectType::Commit, ObjectType::Tag] {
        let id = repo.write_object(t, b"payload bytes", true).unwrap();
        assert_eq!(repo.query_type(&id), Ok(t));
        assert_eq!(repo.query_size(&id), Ok(13));
        assert_eq!(repo.read_content(&id), Ok(b"payload bytes".to_vec()));
    }
}

#[test]
fn large_payload_round_trips() {
    let payload: Vec<u8> = (0..50_000u32).map(|i| (i % 251) as u8).collect();
    let mut repo = Repository::new();
    repo.initialize().unwrap();
    let id = repo.write_object(ObjectType::Blob, &payload, true).unwrap();
    assert_eq!(id.len(), 40);
    assert_eq!(repo.query_size(&id), Ok(50_000));
    assert_eq!(repo.read_content(&id), Ok(payload));
}

#[test]
fn many_objects_stay_retrievable() {
    let mut repo = Repository::new();
    repo.initialize().unwrap();
    let mut ids = Vec::new();
    for n in 0..32u8 {
        let payload = vec![n; (n as usize) + 1];
        ids.push((repo.write_object(ObjectType::Blob, &payload, true).unwrap(), payload));
    }
    for (id, payload) in &ids {
        assert_eq!(repo.read_content(id), Ok(payload.clone()));
        assert_eq!(repo.query_size(id), Ok(payload.len() as u64));
    }
}

#[test]
fn head_pointer_names_the_default_branch() {
    assert_eq!(default_head(), b"ref: refs/heads/main\n".to_vec());
}
