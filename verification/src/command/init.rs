//! Creating the repository layout.

use vstd::prelude::*;

use crate::object::Error;
use crate::repo::{head_line, RepoView, Repository};

verus! {

/// Initialization takes no arguments.
#[derive(Debug, Clone)]
pub struct Args {}

/// Create the repository layout: the object directory, the ref namespace and
/// the default-branch pointer. Fails with `AlreadyExists` on a root that
/// already holds one.
pub fn init(_args: Args, repo: &mut Repository) -> (r: Result<(), Error>)
    requires
        old(repo).wf(),
    ensures
        final(repo).wf(),
        old(repo)@.initialized ==> r == Err::<(), Error>(Error::AlreadyExists) && final(repo)@
            == old(repo)@,
        !old(repo)@.initialized ==> r == Ok::<(), Error>(()) && final(repo)@ == (RepoView {
            initialized: true,
            head: head_line(),
            ..old(repo)@
        }),
{
    repo.initialize()
}

} // verus!
