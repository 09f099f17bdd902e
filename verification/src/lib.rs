//! A minimal content-addressable object store in the style of a
//! version-control system's loose-object layer: byte payloads are framed with
//! a typed header, hashed into an identifier, compressed, and retrievable by
//! that identifier alone.

use vstd::prelude::*;

pub mod codec;
pub mod command;
pub mod compress;
pub mod hashing;
pub mod object;
pub mod repo;

use crate::command::{execute_post, Command, Output};
use crate::object::Error;
use crate::repo::Repository;

verus! {

/// A parsed invocation: one command to run against a repository. The caller
/// owns argument parsing and printing; this type owns what the invocation
/// does.
#[derive(Debug)]
pub struct Cli {
    /// The command to dispatch.
    pub command: Command,
}

impl Cli {
    /// Run the invocation against a repository.
    pub fn execute(self, repo: &mut Repository) -> (r: Result<Output, Error>)
        requires
            old(repo).wf(),
        ensures
            final(repo).wf(),
            execute_post(self.command, old(repo)@, final(repo)@, r),
    {
        self.command.execute(repo)
    }
}

} // verus!
