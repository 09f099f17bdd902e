//! Identifiers: the SHA-1 digest of the framed bytes, rendered as lowercase
//! hexadecimal, and the fan-out path derived from it.

use vstd::prelude::*;

use crate::codec::{bytes_eq, encode_frame, frame, parse_stored_validated, spec_decode, ObjectHandle};
use crate::object::{Error, ObjectType};

verus! {

/// The 20-byte SHA-1 digest of a byte sequence. The digest is a function of
/// the input bytes alone; no contract here says anything else about it.
pub uninterp spec fn sha1_of(s: Seq<u8>) -> Seq<u8>;

/// The lowercase hexadecimal digit for a value below 16.
pub open spec fn hex_digit(n: u8) -> u8 {
    if n < 10 {
        (48 + n) as u8
    } else {
        (87 + n) as u8
    }
}

/// Lowercase hexadecimal rendering: each byte becomes two digits, high nibble
/// first.
pub open spec fn spec_hex(s: Seq<u8>) -> Seq<u8> {
    Seq::new(
        s.len() * 2,
        |i: int|
            if i % 2 == 0 {
                hex_digit(s[i / 2] / 16)
            } else {
                hex_digit(s[i / 2] % 16)
            },
    )
}

/// The identifier of an object: the hex rendering of the SHA-1 digest of its
/// framed bytes. Identical (kind, payload) pairs always get identical
/// identifiers, and the identifier depends on nothing else.
pub open spec fn id_of(t: ObjectType, p: Seq<u8>) -> Seq<u8> {
    spec_hex(sha1_of(frame(t, p)))
}

/// A well-formed identifier: exactly 40 lowercase hexadecimal digits.
pub open spec fn valid_id(s: Seq<u8>) -> bool {
    s.len() == 40 && forall|i: int|
        0 <= i < s.len() ==> (48 <= #[trigger] s[i] <= 57 || 97 <= s[i] <= 102)
}

/// Relies on sha1::Sha1 through the Digest trait: the SHA-1 digest is 20
/// bytes and depends on the input bytes alone.
#[verifier::external_body]
fn sha1_digest(data: &[u8]) -> (r: Vec<u8>)
    ensures
        r@ == sha1_of(data@),
        r@.len() == 20,
{
    let mut hasher = <sha1::Sha1 as sha1::Digest>::new();
    sha1::Digest::update(&mut hasher, data);
    sha1::Digest::finalize(hasher).to_vec()
}

/// Relies on hex::encode: each input byte becomes two lowercase hexadecimal
/// digits, high nibble first.
#[verifier::external_body]
fn hex_encode(data: &[u8]) -> (r: Vec<u8>)
    ensures
        r@ == spec_hex(data@),
{
    hex::encode(data).into_bytes()
}

/// The hex-rendered SHA-1 digest of a byte sequence: what re-deriving an
/// identifier from stored framed bytes computes.
pub fn digest_hex(data: &[u8]) -> (r: Vec<u8>)
    ensures
        r@ == spec_hex(sha1_of(data@)),
        r@.len() == 40,
{
    let d = sha1_digest(data);
    hex_encode(d.as_slice())
}

/// The identifier under which an object with this kind and payload is stored.
pub fn object_id(t: ObjectType, payload: &[u8]) -> (r: Vec<u8>)
    ensures
        r@ == id_of(t, payload@),
        r@.len() == 40,
{
    let framed = encode_frame(t, payload);
    digest_hex(framed.as_slice())
}

/// Determinism of identifiers: two identifiers derived for the same kind and
/// payload, for example by two runs of the writer, are equal.
pub proof fn lemma_identifier_deterministic(t: ObjectType, p: Seq<u8>, h1: Seq<u8>, h2: Seq<u8>)
    requires
        h1 == id_of(t, p),
        h2 == id_of(t, p),
    ensures
        h1 == h2,
{
}

/// Decode framed bytes in the fully validating mode: the bytes must hash to
/// the identifier they were requested under, and the declared length must
/// match the payload. This closes the trust-on-read gap: corruption of the
/// stored bytes surfaces as `HashMismatch` instead of being served.
pub fn parse_stored_checked(framed: &[u8], expected_id: &[u8]) -> (r: Result<ObjectHandle, Error>)
    ensures
        spec_hex(sha1_of(framed@)) != expected_id@ ==> r == Err::<ObjectHandle, Error>(
            Error::HashMismatch,
        ),
        spec_hex(sha1_of(framed@)) == expected_id@ ==> (match spec_decode(framed@) {
            Ok((k, l, c)) => if l == c.len() {
                r matches Ok(h) && h.kind == k && h.length as int == l && h.content@ == c
            } else {
                r == Err::<ObjectHandle, Error>(Error::LengthMismatch)
            },
            Err(e) => r == Err::<ObjectHandle, Error>(e),
        }),
{
    let actual = digest_hex(framed);
    if !bytes_eq(actual.as_slice(), expected_id) {
        return Err(Error::HashMismatch);
    }
    parse_stored_validated(framed)
}

/// Whether `id` is a well-formed identifier: 40 lowercase hex digits.
pub fn is_valid_identifier(id: &[u8]) -> (r: bool)
    ensures
        r == valid_id(id@),
{
    if id.len() != 40 {
        return false;
    }
    let mut i: usize = 0;
    while i < 40
        invariant
            id@.len() == 40,
            0 <= i <= 40,
            forall|j: int| 0 <= j < i ==> (48 <= #[trigger] id@[j] <= 57 || 97 <= id@[j] <= 102),
        decreases 40 - i,
    {
        let c = id[i];
        if !(48 <= c && c <= 57 || 97 <= c && c <= 102) {
            return false;
        }
        i += 1;
    }
    true
}

/// The two path components under the object directory at which an identifier
/// is stored: the first two digits name the fan-out subdirectory, the rest
/// name the file.
pub fn object_path_parts(id: &[u8]) -> (r: (Vec<u8>, Vec<u8>))
    requires
        2 <= id@.len(),
    ensures
        r.0@ == id@.take(2),
        r.1@ == id@.skip(2),
{
    let mut dir: Vec<u8> = Vec::new();
    dir.push(id[0]);
    dir.push(id[1]);
    let mut rest: Vec<u8> = Vec::new();
    let tail = vstd::slice::slice_subrange(id, 2, id.len());
    crate::codec::push_all(&mut rest, tail);
    proof {
        assert(dir@ =~= id@.take(2));
        assert(rest@ =~= id@.skip(2));
    }
    (dir, rest)
}

} // verus!
