//! The command surface: dispatching parsed invocations against a repository.

use git_starter_rust::command::{cat_file, hash_object, init, Command, Output};
use git_starter_rust::object::{Error, ObjectType};
use git_starter_rust::repo::Repository;
use git_starter_rust::Cli;

const HELLO_ID: &[u8] = b"b6fc4c620b67d95f953a5c1c1230aaab5db5a1b0";

#[test]
fn cli_init_hash_cat() {
    let mut repo = Repository::new();
    let r = Cli { command: Command::Init }.execute(&mut repo);
    assert_eq!(r, Ok(Output::Initialized));
    let r = Cli {
        command: Command::HashObject { payload: b"hello".to_vec(), write: true },
    }
        .execute(&mut repo);
    assert_eq!(r, Ok(Output::Identifier(HELLO_ID.to_vec())));
    let r = Cli {
        command: Command::CatFile { object: HELLO_ID.to_vec(), pretty_print: true },
    }
        .execute(&mut repo);
    assert_eq!(r, Ok(Output::Content(Some(b"hello".to_vec()))));
    let r = Cli {
        command: Command::CatFile { object: HELLO_ID.to_vec(), pretty_print: false },
    }
        .execute(&mut repo);
    assert_eq!(r, Ok(Output::Content(None)));
}

#[test]
fn cli_init_twice_reports_already_exists() {
    let mut repo = Repository::new();
    assert_eq!(Cli { command: Command::Init }.execute(&mut repo), Ok(Output::Initialized));
    assert_eq!(
        Cli { command: Command::Init }.execute(&mut repo),
        Err(Error::AlreadyExists)
    );
}

#[test]
fn cli_cat_file_missing_object() {
    let mut repo = Repository::new();
    Cli { command: Command::Init }.execute(&mut repo).unwrap();
    let r = Cli {
        command: Command::CatFile { object: HELLO_ID.to_vec(), pretty_print: true },
    }
        .execute(&mut repo);
    assert_eq!(r, Err(Error::NotFound));
}

#[test]
fn cli_hash_object_without_write_stores_nothing() {
    let mut repo = Repository::new();
    Cli { command: Command::Init }.execute(&mut repo).unwrap();
    let r = Cli {
        command: Command::HashObject { payload: b"hello".to_vec(), write: false },
    }
        .execute(&mut repo);
    assert_eq!(r, Ok(Output::Identifier(HELLO_ID.to_vec())));
    let r = Cli {
        command: Command::CatFile { object: HELLO_ID.to_vec(), pretty_print: true },
    }
        .execute(&mut repo);
    assert_eq!(r, Err(Error::NotFound));
}

#[test]
fn init_args_creates_the_layout() {
    let mut repo = Repository::new();
    assert_eq!(init::init(init::Args {}, &mut repo), Ok(()));
    assert_eq!(init::init(init::Args {}, &mut repo), Err(Error::AlreadyExists));
}

#[test]
fn hash_object_args_writes_a_blob() {
    let mut repo = Repository::new();
    init::init(init::Args {}, &mut repo).unwrap();
    let id = hash_object::hash_object(
        hash_object::Args { write: true, payload: b"hello".to_vec() },
        &mut repo,
    )
        .unwrap();
    assert_eq!(id, HELLO_ID.to_vec());
    assert_eq!(repo.query_type(&id), Ok(ObjectType::Blob));
}

#[test]
fn hash_object_args_uninitialized_write_fails() {
    let mut repo = Repository::new();
    let r = hash_object::hash_object(
        hash_object::Args { write: true, payload: b"hello".to_vec() },
        &mut repo,
    );
    assert_eq!(r, Err(Error::IoFailure));
}

#[test]
fn cat_file_args_select_the_projection() {
    let mut repo = Repository::new();
    init::init(init::Args {}, &mut repo).unwrap();
    hash_object::hash_object(
        hash_object::Args { write: true, payload: b"hello".to_vec() },
        &mut repo,
    )
        .unwrap();
    let base = cat_file::Args {
        object: HELLO_ID.to_vec(),
        print_type: false,
        print_size: false,
        pretty_print: false,
    };
    let r = cat_file::cat_file(
        &cat_file::Args { print_type: true, ..base.clone() },
        &repo,
    );
    assert_eq!(r, Ok(b"blob".to_vec()));
    let r = cat_file::cat_file(
        &cat_file::Args { print_size: true, ..base.clone() },
        &repo,
    );
    assert_eq!(r, Ok(b"5".to_vec()));
    let r = cat_file::cat_file(
        &cat_file::Args { pretty_print: true, ..base.clone() },
        &repo,
    );
    assert_eq!(r, Ok(b"hello".to_vec()));
    let r = cat_file::cat_file(&base, &repo);
    assert_eq!(r, Ok(Vec::new()));
}

#[test]
fn cat_file_args_missing_object_not_found() {
    let mut repo = Repository::new();
    init::init(init::Args {}, &mut repo).unwrap();
    let args = cat_file::Args {
        object: HELLO_ID.to_vec(),
        print_type: true,
        print_size: false,
        pretty_print: false,
    };
    assert_eq!(cat_file::cat_file(&args, &repo), Err(Error::NotFound));
}
