//! Compression of framed bytes: a zlib stream at the default level, and its
//! inverse.

use vstd::prelude::*;

use crate::codec::{encode_frame, frame, parse_stored, spec_decode, ObjectHandle};
use crate::object::{Error, ObjectType};

verus! {

/// The zlib stream that compressing a byte sequence at the default level
/// produces. A function of the input bytes alone.
pub uninterp spec fn zlib_of(s: Seq<u8>) -> Seq<u8>;

/// What inflating a byte sequence yields: the decompressed bytes for a
/// well-formed zlib stream, nothing for a malformed one. A function of the
/// input bytes alone.
pub uninterp spec fn zlib_inflate(s: Seq<u8>) -> Option<Seq<u8>>;

/// Relies on flate2::write::ZlibEncoder at the default level: compression
/// produces a complete, self-terminating zlib stream, and inflating that
/// stream gives back exactly the input (deflate is lossless).
#[verifier::external_body]
fn zlib_compress(data: &[u8]) -> (r: Vec<u8>)
    ensures
        r@ == zlib_of(data@),
        zlib_inflate(r@) == Some(data@),
{
    let mut enc = flate2::write::ZlibEncoder::new(Vec::new(), flate2::Compression::default());
    std::io::Write::write_all(&mut enc, data).unwrap();
    enc.finish().unwrap()
}

/// Relies on flate2::read::ZlibDecoder: reading it to the end yields the
/// decompressed bytes of a well-formed stream and an error for a malformed
/// one, as a function of the input bytes alone.
#[verifier::external_body]
fn zlib_decompress(data: &[u8]) -> (r: Result<Vec<u8>, Error>)
    ensures
        match r {
            Ok(d) => zlib_inflate(data@) == Some(d@),
            Err(e) => e == Error::CorruptObject && zlib_inflate(data@) is None,
        },
{
    let mut dec = flate2::read::ZlibDecoder::new(data);
    let mut out = Vec::new();
    match std::io::Read::read_to_end(&mut dec, &mut out) {
        Ok(_) => Ok(out),
        Err(_) => Err(Error::CorruptObject),
    }
}

/// The compressed form under which an object is persisted: the zlib stream of
/// its framed bytes. Inflating the result gives the framed bytes back.
pub fn compress_object(t: ObjectType, payload: &[u8]) -> (r: Vec<u8>)
    ensures
        r@ == zlib_of(frame(t, payload@)),
        zlib_inflate(r@) == Some(frame(t, payload@)),
{
    let framed = encode_frame(t, payload);
    zlib_compress(framed.as_slice())
}

/// Read a stored object back from its compressed form: inflate, then parse
/// the header and take the payload, trusting the declared length. Reports
/// `CorruptObject` exactly when the stream does not inflate or the inflated
/// bytes carry no well-formed header.
pub fn decode_stored(data: &[u8]) -> (r: Result<ObjectHandle, Error>)
    ensures
        match zlib_inflate(data@) {
            None => r == Err::<ObjectHandle, Error>(Error::CorruptObject),
            Some(f) => match spec_decode(f) {
                Ok((k, l, c)) => r matches Ok(h) && h.kind == k && h.length as int == l
                    && h.content@ == c,
                Err(e) => r == Err::<ObjectHandle, Error>(e),
            },
        },
{
    match zlib_decompress(data) {
        Err(e) => Err(e),
        Ok(framed) => parse_stored(framed.as_slice()),
    }
}

} // verus!
