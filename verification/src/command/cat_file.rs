//! Inspecting a stored object: its type, its size, or its content.

use vstd::prelude::*;

use crate::codec::{dec_rep, push_dec};
use crate::object::{type_tag, Error};
use crate::repo::{RepoView, Repository};

verus! {

/// What to show of the object stored under an identifier. The flags mirror
/// the reader's three projections; the first set one wins.
#[derive(Debug, Clone)]
pub struct Args {
    /// The identifier of the object to inspect.
    pub object: Vec<u8>,
    /// Show the object's type.
    pub print_type: bool,
    /// Show the object's declared size.
    pub print_size: bool,
    /// Hand back the object's content.
    pub pretty_print: bool,
}

/// The bytes such an inspection renders: the kind's tag, the size in
/// decimal, the payload, or nothing, by the first flag set.
pub open spec fn spec_cat_output(
    v: RepoView,
    id: Seq<u8>,
    print_type: bool,
    print_size: bool,
    pretty_print: bool,
) -> Seq<u8>
    recommends
        v.objects.contains_key(id),
{
    if print_type {
        type_tag(v.objects[id].0)
    } else if print_size {
        dec_rep(v.objects[id].1.len())
    } else if pretty_print {
        v.objects[id].1
    } else {
        Seq::empty()
    }
}

/// Look the object up and render what the flags ask for. An absent object is
/// `NotFound` whatever the flags; the lookup always happens.
pub fn cat_file(args: &Args, repo: &Repository) -> (r: Result<Vec<u8>, Error>)
    requires
        repo.wf(),
    ensures
        !repo@.objects.contains_key(args.object@) ==> r == Err::<Vec<u8>, Error>(Error::NotFound),
        repo@.objects.contains_key(args.object@) ==> (r matches Ok(v) && v@ == spec_cat_output(
            repo@,
            args.object@,
            args.print_type,
            args.print_size,
            args.pretty_print,
        )),
{
    if args.print_type {
        match repo.query_type(args.object.as_slice()) {
            Ok(k) => Ok(k.tag_bytes()),
            Err(e) => Err(e),
        }
    } else if args.print_size {
        match repo.query_size(args.object.as_slice()) {
            Ok(l) => {
                let mut out: Vec<u8> = Vec::new();
                push_dec(l, &mut out);
                proof {
                    assert(out@ =~= dec_rep(l as nat));
                }
                Ok(out)
            },
            Err(e) => Err(e),
        }
    } else if args.pretty_print {
        match repo.read_content(args.object.as_slice()) {
            Ok(v) => Ok(v),
            Err(e) => Err(e),
        }
    } else {
        match repo.query_type(args.object.as_slice()) {
            Ok(_) => Ok(Vec::new()),
            Err(e) => Err(e),
        }
    }
}

} // verus!
