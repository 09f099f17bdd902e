//! Object kinds and the error taxonomy of the store.

use vstd::prelude::*;

verus! {

/// The kinds of object the store can frame. Only `Blob` is exercised by the
/// command surface, but the header encoding covers all four, so adding a kind
/// never changes the framing algorithm.
#[derive(Clone, Copy, Debug, PartialEq, Eq, Structural, Hash)]
pub enum ObjectType {
    Blob,
    Tree,
    Commit,
    Tag,
}

/// Everything that an operation of the store can report.
#[derive(Clone, Copy, Debug, PartialEq, Eq, Structural)]
pub enum Error {
    /// No object is stored under the identifier.
    NotFound,
    /// A stored byte sequence does not decompress or its header does not parse.
    CorruptObject,
    /// The declared length disagrees with the actual payload length
    /// (validating reads only).
    LengthMismatch,
    /// The framed bytes do not hash to the requested identifier
    /// (validating reads only).
    HashMismatch,
    /// Initialization was asked for on a repository that already exists.
    AlreadyExists,
    /// An underlying storage failure, such as writing into a repository that
    /// was never initialized.
    IoFailure,
}

/// The ASCII tag under which a kind appears in an object header.
pub open spec fn type_tag(t: ObjectType) -> Seq<u8> {
    match t {
        ObjectType::Blob => seq![98u8, 108u8, 111u8, 98u8],
        ObjectType::Tree => seq![116u8, 114u8, 101u8, 101u8],
        ObjectType::Commit => seq![99u8, 111u8, 109u8, 109u8, 105u8, 116u8],
        ObjectType::Tag => seq![116u8, 97u8, 103u8],
    }
}

/// The kind whose tag is `s`, if any; the inverse of `type_tag`.
pub open spec fn tag_type(s: Seq<u8>) -> Option<ObjectType> {
    if s == type_tag(ObjectType::Blob) {
        Some(ObjectType::Blob)
    } else if s == type_tag(ObjectType::Tree) {
        Some(ObjectType::Tree)
    } else if s == type_tag(ObjectType::Commit) {
        Some(ObjectType::Commit)
    } else if s == type_tag(ObjectType::Tag) {
        Some(ObjectType::Tag)
    } else {
        None
    }
}

/// Tags are short, hold neither the space nor the NUL delimiter, and
/// `tag_type` inverts `type_tag`.
pub proof fn lemma_tag_facts(t: ObjectType)
    ensures
        3 <= type_tag(t).len() <= 6,
        forall|i: int|
            0 <= i < type_tag(t).len() ==> #[trigger] type_tag(t)[i] != 32u8 && type_tag(t)[i]
                != 0u8,
        tag_type(type_tag(t)) == Some(t),
{
    assert(type_tag(ObjectType::Blob)[0] == 98u8);
    assert(type_tag(ObjectType::Tree)[0] == 116u8);
    assert(type_tag(ObjectType::Commit)[0] == 99u8);
    assert(type_tag(ObjectType::Tag)[0] == 116u8);
    assert(type_tag(ObjectType::Tag).len() == 3);
    assert(type_tag(ObjectType::Tree).len() == 4);
    match t {
        ObjectType::Blob => {
            assert(forall|i: int|
                0 <= i < type_tag(t).len() ==> #[trigger] type_tag(t)[i] != 32u8 && type_tag(t)[i]
                    != 0u8);
        },
        ObjectType::Tree => {
            assert(type_tag(t) != type_tag(ObjectType::Blob));
            assert(forall|i: int|
                0 <= i < type_tag(t).len() ==> #[trigger] type_tag(t)[i] != 32u8 && type_tag(t)[i]
                    != 0u8);
        },
        ObjectType::Commit => {
            assert(type_tag(t) != type_tag(ObjectType::Blob));
            assert(type_tag(t) != type_tag(ObjectType::Tree));
            assert(forall|i: int|
                0 <= i < type_tag(t).len() ==> #[trigger] type_tag(t)[i] != 32u8 && type_tag(t)[i]
                    != 0u8);
        },
        ObjectType::Tag => {
            assert(type_tag(t) != type_tag(ObjectType::Blob));
            assert(type_tag(t) != type_tag(ObjectType::Tree));
            assert(type_tag(t) != type_tag(ObjectType::Commit));
            assert(forall|i: int|
                0 <= i < type_tag(t).len() ==> #[trigger] type_tag(t)[i] != 32u8 && type_tag(t)[i]
                    != 0u8);
        },
    }
}

impl ObjectType {
    /// The textual tag of this kind, as bytes.
    pub fn tag_bytes(&self) -> (r: Vec<u8>)
        ensures
            r@ == type_tag(*self),
    {
        let mut v: Vec<u8> = Vec::new();
        match self {
            ObjectType::Blob => {
                v.push(98u8);
                v.push(108u8);
                v.push(111u8);
                v.push(98u8);
            },
            ObjectType::Tree => {
                v.push(116u8);
                v.push(114u8);
                v.push(101u8);
                v.push(101u8);
            },
            ObjectType::Commit => {
                v.push(99u8);
                v.push(111u8);
                v.push(109u8);
                v.push(109u8);
                v.push(105u8);
                v.push(116u8);
            },
            ObjectType::Tag => {
                v.push(116u8);
                v.push(97u8);
                v.push(103u8);
            },
        }
        proof {
            assert(v@ =~= type_tag(*self));
        }
        v
    }

    /// The kind named by a textual tag, if the tag is recognized.
    pub fn from_tag(s: &[u8]) -> (r: Option<ObjectType>)
        ensures
            r == tag_type(s@),
    {
        let blob = ObjectType::Blob.tag_bytes();
        let tree = ObjectType::Tree.tag_bytes();
        let commit = ObjectType::Commit.tag_bytes();
        let tag = ObjectType::Tag.tag_bytes();
        if crate::codec::bytes_eq(s, blob.as_slice()) {
            Some(ObjectType::Blob)
        } else if crate::codec::bytes_eq(s, tree.as_slice()) {
            Some(ObjectType::Tree)
        } else if crate::codec::bytes_eq(s, commit.as_slice()) {
            Some(ObjectType::Commit)
        } else if crate::codec::bytes_eq(s, tag.as_slice()) {
            Some(ObjectType::Tag)
        } else {
            None
        }
    }
}

} // verus!
