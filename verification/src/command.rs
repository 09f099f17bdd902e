//! The command surface: the operations a thin caller dispatches to, as data.
//! I/O stays with the caller; each command works on a repository value and
//! plain bytes.

use vstd::prelude::*;

pub mod cat_file;
pub mod hash_object;
pub mod init;

use crate::hashing::id_of;
use crate::object::{Error, ObjectType};
use crate::repo::{head_line, spec_read_content, spec_write, RepoView, Repository};

verus! {

/// One invocation of the store.
#[derive(Debug)]
pub enum Command {
    /// Create the repository layout.
    Init,
    /// Inspect the object stored under an identifier; with `pretty_print`
    /// its payload is handed back.
    CatFile { object: Vec<u8>, pretty_print: bool },
    /// Store a payload as a blob; with `write` it is persisted, otherwise
    /// only its identifier is computed.
    HashObject { payload: Vec<u8>, write: bool },
}

/// What a command hands back to the caller for printing.
#[derive(Debug, PartialEq, Eq)]
pub enum Output {
    /// The layout was created.
    Initialized,
    /// The payload of the inspected object, when its printing was asked for.
    Content(Option<Vec<u8>>),
    /// The identifier of the hashed payload.
    Identifier(Vec<u8>),
}

/// The contract of dispatching one command against a repository state:
/// relates the state before, the state after, and the result.
pub open spec fn execute_post(
    c: Command,
    pre: RepoView,
    post: RepoView,
    r: Result<Output, Error>,
) -> bool {
    match c {
        Command::Init => {
            if pre.initialized {
                r == Err::<Output, Error>(Error::AlreadyExists) && post == pre
            } else {
                (r matches Ok(o) && o matches Output::Initialized) && post == (RepoView {
                    initialized: true,
                    head: head_line(),
                    ..pre
                })
            }
        },
        Command::CatFile { object, pretty_print } => {
            &&& post == pre
            &&& match spec_read_content(pre, object@) {
                Ok(content) => if pretty_print {
                    r matches Ok(o) && o matches Output::Content(Some(v)) && v@ == content
                } else {
                    r matches Ok(o) && o matches Output::Content(None)
                },
                Err(e) => r == Err::<Output, Error>(e),
            }
        },
        Command::HashObject { payload, write } => {
            &&& match r {
                Ok(o) => o matches Output::Identifier(h) && h@ == id_of(
                    ObjectType::Blob,
                    payload@,
                ) && h@.len() == 40,
                Err(e) => e == Error::IoFailure,
            }
            &&& !write ==> post == pre && r is Ok
            &&& write && pre.initialized ==> post == spec_write(pre, ObjectType::Blob, payload@)
                && r is Ok
            &&& write && !pre.initialized ==> post == pre && r is Err
        },
    }
}

impl Command {
    /// Dispatch the command against a repository.
    pub fn execute(self, repo: &mut Repository) -> (r: Result<Output, Error>)
        requires
            old(repo).wf(),
        ensures
            final(repo).wf(),
            execute_post(self, old(repo)@, final(repo)@, r),
    {
        match self {
            Command::Init => {
                match repo.initialize() {
                    Ok(_) => Ok(Output::Initialized),
                    Err(e) => Err(e),
                }
            },
            Command::CatFile { object, pretty_print } => {
                if pretty_print {
                    match repo.read_content(object.as_slice()) {
                        Ok(v) => Ok(Output::Content(Some(v))),
                        Err(e) => Err(e),
                    }
                } else {
                    match repo.query_type(object.as_slice()) {
                        Ok(_) => Ok(Output::Content(None)),
                        Err(e) => Err(e),
                    }
                }
            },
            Command::HashObject { payload, write } => {
                match repo.write_object(ObjectType::Blob, payload.as_slice(), write) {
                    Ok(h) => Ok(Output::Identifier(h)),
                    Err(e) => Err(e),
                }
            },
        }
    }
}

} // verus!
