//! Storing a payload as a blob object.

use vstd::prelude::*;

use crate::hashing::id_of;
use crate::object::{Error, ObjectType};
use crate::repo::{spec_write, Repository};

verus! {

/// A payload to hash as a blob, and whether to persist it. The caller reads
/// the payload bytes from wherever they live before handing them over.
#[derive(Debug, Clone)]
pub struct Args {
    /// Actually write the object into the object database.
    pub write: bool,
    /// The bytes to hash.
    pub payload: Vec<u8>,
}

/// Hash the payload as a blob and, when asked, persist it. The identifier is
/// computed and returned in every successful case; persisting into an
/// uninitialized repository is the one failure.
pub fn hash_object(args: Args, repo: &mut Repository) -> (r: Result<Vec<u8>, Error>)
    requires
        old(repo).wf(),
    ensures
        final(repo).wf(),
        match r {
            Ok(h) => h@ == id_of(ObjectType::Blob, args.payload@) && h@.len() == 40,
            Err(e) => e == Error::IoFailure,
        },
        !args.write ==> (r matches Ok(_) && final(repo)@ == old(repo)@),
        args.write && old(repo)@.initialized ==> (r matches Ok(_) && final(repo)@ == spec_write(
            old(repo)@,
            ObjectType::Blob,
            args.payload@,
        )),
        args.write && !old(repo)@.initialized ==> (r matches Err(_) && final(repo)@ == old(
            repo,
        )@),
{
    repo.write_object(ObjectType::Blob, args.payload.as_slice(), args.write)
}

} // verus!
