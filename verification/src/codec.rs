//! Framing of objects: the `"<kind> <length>\0<payload>"` encoding, and the
//! parser that reads a framed byte sequence back.

use vstd::prelude::*;

use crate::object::{lemma_tag_facts, tag_type, type_tag, Error, ObjectType};

verus! {

/// The ASCII decimal rendering of a non-negative integer, most significant
/// digit first, without leading zeros (`0` itself is rendered as `"0"`).
pub open spec fn dec_rep(n: nat) -> Seq<u8>
    decreases n,
{
    if n < 10 {
        seq![(48 + n) as u8]
    } else {
        dec_rep(n / 10).push((48 + n % 10) as u8)
    }
}

/// The numeric value of a sequence of ASCII decimal digits.
pub open spec fn dec_value(s: Seq<u8>) -> int
    decreases s.len(),
{
    if s.len() == 0 {
        0
    } else {
        dec_value(s.drop_last()) * 10 + (s.last() - 48)
    }
}

/// Every byte of `s` is an ASCII decimal digit.
pub open spec fn all_digits(s: Seq<u8>) -> bool {
    forall|i: int| 0 <= i < s.len() ==> 48 <= #[trigger] s[i] <= 57
}

/// The framed form of an object: tag, space, decimal payload length, NUL,
/// payload. The identifier is the digest of exactly these bytes.
pub open spec fn frame(t: ObjectType, p: Seq<u8>) -> Seq<u8> {
    type_tag(t) + seq![32u8] + dec_rep(p.len()) + seq![0u8] + p
}

/// The index of the first occurrence of `b` in `s` at or after `i`.
pub open spec fn find_first(s: Seq<u8>, b: u8, i: int) -> Option<int>
    decreases s.len() - i,
{
    if i < 0 || i >= s.len() {
        None
    } else if s[i] == b {
        Some(i)
    } else {
        find_first(s, b, i + 1)
    }
}

/// What parsing a framed byte sequence yields: the kind named before the first
/// space, the declared length between the space and the first NUL, and the
/// offset at which the payload starts. `None` when either delimiter is
/// missing, the tag is unrecognized, or the length is not a decimal number
/// that fits in a `u64`.
pub open spec fn spec_parse_header(s: Seq<u8>) -> Option<(ObjectType, int, int)> {
    match find_first(s, 32u8, 0) {
        None => None,
        Some(sp) => match tag_type(s.take(sp)) {
            None => None,
            Some(k) => match find_first(s, 0u8, sp + 1) {
                None => None,
                Some(nul) => {
                    let digits = s.subrange(sp + 1, nul);
                    if digits.len() > 0 && all_digits(digits) && dec_value(digits) <= u64::MAX {
                        Some((k, dec_value(digits), nul + 1))
                    } else {
                        None
                    }
                },
            },
        },
    }
}

/// Full decoding of a framed byte sequence: the header fields plus the
/// payload, which is everything after the NUL. The declared length is
/// reported as parsed and is not checked against the payload here.
pub open spec fn spec_decode(framed: Seq<u8>) -> Result<(ObjectType, int, Seq<u8>), Error> {
    match spec_parse_header(framed) {
        None => Err(Error::CorruptObject),
        Some((k, l, off)) => Ok((k, l, framed.skip(off))),
    }
}

/// Compare two byte slices for equality.
pub fn bytes_eq(a: &[u8], b: &[u8]) -> (r: bool)
    ensures
        r == (a@ == b@),
{
    if a.len() != b.len() {
        proof {
            assert(a@ != b@);
        }
        return false;
    }
    let n: usize = a.len();
    let mut i: usize = 0;
    while i < n
        invariant
            n == a@.len() == b@.len(),
            0 <= i <= n,
            forall|j: int| 0 <= j < i ==> a@[j] == b@[j],
        decreases n - i,
    {
        if a[i] != b[i] {
            return false;
        }
        i += 1;
    }
    proof {
        assert(a@ =~= b@);
    }
    true
}

/// Append all of `data` to `out`.
pub fn push_all(out: &mut Vec<u8>, data: &[u8])
    ensures
        final(out)@ == old(out)@ + data@,
{
    let n: usize = data.len();
    let mut i: usize = 0;
    while i < n
        invariant
            n == data@.len(),
            0 <= i <= n,
            out@ == old(out)@ + data@.take(i as int),
        decreases n - i,
    {
        out.push(data[i]);
        proof {
            assert(old(out)@ + data@.take(i as int) + seq![data@[i as int]] =~= old(out)@
                + data@.take(i + 1));
        }
        i += 1;
    }
    proof {
        assert(data@.take(n as int) =~= data@);
    }
}

/// Append the decimal rendering of `n` to `out`.
pub fn push_dec(n: u64, out: &mut Vec<u8>)
    ensures
        final(out)@ == old(out)@ + dec_rep(n as nat),
    decreases n,
{
    if n < 10 {
        out.push((48 + n) as u8);
        proof {
            assert(out@ =~= old(out)@ + dec_rep(n as nat));
        }
    } else {
        push_dec(n / 10, out);
        out.push((48 + (n % 10)) as u8);
        proof {
            assert(out@ =~= old(out)@ + dec_rep(n as nat));
        }
    }
}

/// Build the framed form of an object: `"<kind> <length>\0"` followed by the
/// payload bytes.
pub fn encode_frame(t: ObjectType, payload: &[u8]) -> (r: Vec<u8>)
    ensures
        r@ == frame(t, payload@),
{
    let mut out = t.tag_bytes();
    out.push(32u8);
    push_dec(payload.len() as u64, &mut out);
    out.push(0u8);
    push_all(&mut out, payload);
    proof {
        assert(out@ =~= frame(t, payload@));
    }
    out
}

/// A parsed object header.
#[derive(Clone, Copy, Debug, PartialEq, Eq, Structural)]
pub struct Header {
    /// The kind named by the tag before the space.
    pub kind: ObjectType,
    /// The length declared between the space and the NUL.
    pub length: u64,
    /// The index at which the payload starts (one past the NUL).
    pub offset: usize,
}

/// Find the first occurrence of `b` in `data` at or after `start`.
pub fn find_byte(data: &[u8], b: u8, start: usize) -> (r: Option<usize>)
    requires
        start <= data@.len(),
    ensures
        data@.len() <= usize::MAX,
        match r {
            Some(i) => start <= i < data@.len() && find_first(data@, b, start as int) == Some(
                i as int,
            ),
            None => find_first(data@, b, start as int) == None::<int>,
        },
{
    let n: usize = data.len();
    let mut i: usize = start;
    while i < n
        invariant
            start <= i <= n,
            n == data@.len(),
            find_first(data@, b, start as int) == find_first(data@, b, i as int),
        decreases n - i,
    {
        if data[i] == b {
            return Some(i);
        }
        i += 1;
    }
    None
}

/// Digit sequences have non-negative value.
pub proof fn lemma_dec_value_nonneg(s: Seq<u8>)
    requires
        all_digits(s),
    ensures
        dec_value(s) >= 0,
    decreases s.len(),
{
    if s.len() > 0 {
        assert(all_digits(s.drop_last()));
        lemma_dec_value_nonneg(s.drop_last());
    }
}

/// Extending a digit sequence never lowers its value: the value of the whole
/// is at least the value of any prefix.
pub proof fn lemma_dec_value_prefix(s: Seq<u8>, i: int)
    requires
        all_digits(s),
        0 <= i <= s.len(),
    ensures
        dec_value(s) >= dec_value(s.take(i)),
    decreases s.len() - i,
{
    if i == s.len() {
        assert(s.take(i) =~= s);
    } else {
        assert(all_digits(s.drop_last()));
        assert(s.drop_last().take(i) =~= s.take(i));
        lemma_dec_value_prefix(s.drop_last(), i);
        lemma_dec_value_nonneg(s.drop_last());
        assert(dec_value(s) == dec_value(s.drop_last()) * 10 + (s.last() - 48));
        assert(dec_value(s.drop_last()) * 10 >= dec_value(s.drop_last()));
        assert(s.last() >= 48);
    }
}

/// The decimal rendering consists of digits and is never empty.
pub proof fn lemma_dec_rep_digits(n: nat)
    ensures
        dec_rep(n).len() >= 1,
        all_digits(dec_rep(n)),
    decreases n,
{
    if n >= 10 {
        lemma_dec_rep_digits(n / 10);
        assert(dec_rep(n) == dec_rep(n / 10).push((48 + n % 10) as u8));
        assert forall|i: int| 0 <= i < dec_rep(n).len() implies 48 <= #[trigger] dec_rep(n)[i]
            <= 57 by {
            if i < dec_rep(n / 10).len() {
                assert(dec_rep(n)[i] == dec_rep(n / 10)[i]);
            } else {
                assert(dec_rep(n)[i] == (48 + n % 10) as u8);
            }
        }
    }
}

/// Parsing the decimal rendering of `n` gives back `n`.
pub proof fn lemma_dec_rep_value(n: nat)
    ensures
        dec_value(dec_rep(n)) == n,
    decreases n,
{
    if n < 10 {
        let s = dec_rep(n);
        assert(s == seq![(48 + n) as u8]);
        assert(s.len() == 1);
        assert(s.last() == (48 + n) as u8);
        assert(s.drop_last() =~= Seq::<u8>::empty());
        assert(dec_value(s.drop_last()) == 0);
        assert(dec_value(s) == dec_value(s.drop_last()) * 10 + (s.last() - 48));
    } else {
        lemma_dec_rep_value(n / 10);
        let s = dec_rep(n);
        assert(s == dec_rep(n / 10).push((48 + n % 10) as u8));
        assert(s.drop_last() =~= dec_rep(n / 10));
        assert(s.last() == (48 + n % 10) as u8);
        assert(dec_value(s) == dec_value(dec_rep(n / 10)) * 10 + ((48 + n % 10) as u8 - 48));
        assert(dec_value(s) == (n / 10) * 10 + n % 10);
    }
}

/// If `b` occurs at `j` and nowhere in `[i, j)`, the first occurrence at or
/// after `i` is `j`.
pub proof fn lemma_find_first_exact(s: Seq<u8>, b: u8, i: int, j: int)
    requires
        0 <= i <= j < s.len(),
        s[j] == b,
        forall|m: int| i <= m < j ==> s[m] != b,
    ensures
        find_first(s, b, i) == Some(j),
    decreases j - i,
{
    if i < j {
        lemma_find_first_exact(s, b, i + 1, j);
    }
}

/// Framing then parsing gives back the kind, the exact payload length, and an
/// offset from which the payload is everything that remains: the parser
/// inverts the encoder on every well-formed frame.
pub proof fn lemma_parse_frame(t: ObjectType, p: Seq<u8>)
    requires
        p.len() <= u64::MAX,
    ensures
        ({
            let off = type_tag(t).len() + 2 + dec_rep(p.len()).len();
            &&& spec_parse_header(frame(t, p)) == Some((t, p.len() as int, off as int))
            &&& frame(t, p).skip(off as int) == p
            &&& frame(t, p).len() == off + p.len()
        }),
{
    let s = frame(t, p);
    let tag = type_tag(t);
    let tl = tag.len() as int;
    let digits = dec_rep(p.len());
    let dl = digits.len() as int;
    lemma_tag_facts(t);
    lemma_dec_rep_digits(p.len());
    lemma_dec_rep_value(p.len());
    assert(s.len() == tl + 1 + dl + 1 + p.len());
    assert forall|m: int| 0 <= m < tl implies s[m] == tag[m] by {}
    assert(s[tl] == 32u8);
    assert forall|m: int| tl + 1 <= m < tl + 1 + dl implies s[m] == digits[m - (tl + 1)] by {}
    assert(s[tl + 1 + dl] == 0u8);
    assert forall|m: int| tl + 2 + dl <= m < s.len() implies s[m] == p[m - (tl + 2 + dl)] by {}
    // the first space is right after the tag
    assert forall|m: int| 0 <= m < tl implies s[m] != 32u8 by {
        assert(s[m] == tag[m]);
    }
    lemma_find_first_exact(s, 32u8, 0, tl);
    // the tag parses back to the kind
    assert(s.take(tl) =~= tag);
    // the first NUL after the space is right after the digits
    assert forall|m: int| tl + 1 <= m < tl + 1 + dl implies s[m] != 0u8 by {
        assert(s[m] == digits[m - (tl + 1)]);
        assert(48 <= digits[m - (tl + 1)] <= 57);
    }
    lemma_find_first_exact(s, 0u8, tl + 1, tl + 1 + dl);
    // the declared length is the payload length
    assert(s.subrange(tl + 1, tl + 1 + dl) =~= digits);
    // the payload is everything after the NUL
    assert(s.skip(tl + 2 + dl) =~= p);
}

/// Framing is injective: the framed byte sequence determines the kind and
/// the payload, so the digest of the framed bytes binds the identifier to
/// exactly one object's content.
pub proof fn lemma_frame_injective(t1: ObjectType, p1: Seq<u8>, t2: ObjectType, p2: Seq<u8>)
    requires
        frame(t1, p1) == frame(t2, p2),
        p1.len() <= u64::MAX,
        p2.len() <= u64::MAX,
    ensures
        t1 == t2,
        p1 == p2,
{
    lemma_parse_frame(t1, p1);
    lemma_parse_frame(t2, p2);
    let off1 = type_tag(t1).len() + 2 + dec_rep(p1.len()).len();
    let off2 = type_tag(t2).len() + 2 + dec_rep(p2.len()).len();
    assert(spec_parse_header(frame(t1, p1)) == Some((t1, p1.len() as int, off1 as int)));
    assert(spec_parse_header(frame(t1, p1)) == Some((t2, p2.len() as int, off2 as int)));
    assert(p1 == frame(t1, p1).skip(off1 as int));
    assert(p2 == frame(t2, p2).skip(off2 as int));
}

/// Parse an object header: the tag before the first space, the decimal length
/// before the first NUL. Reports `CorruptObject` exactly when the bytes do
/// not carry a well-formed header.
pub fn parse_header(data: &[u8]) -> (r: Result<Header, Error>)
    ensures
        match spec_parse_header(data@) {
            Some(h) => r matches Ok(hdr) && hdr.kind == h.0 && hdr.length as int == h.1
                && hdr.offset as int == h.2 && hdr.offset <= data@.len(),
            None => r == Err::<Header, Error>(Error::CorruptObject),
        },
{
    let sp = match find_byte(data, 32u8, 0) {
        Some(i) => i,
        None => {
            return Err(Error::CorruptObject);
        },
    };
    let tag = vstd::slice::slice_subrange(data, 0, sp);
    proof {
        assert(data@.subrange(0, sp as int) =~= data@.take(sp as int));
    }
    let kind = match ObjectType::from_tag(tag) {
        Some(k) => k,
        None => {
            return Err(Error::CorruptObject);
        },
    };
    let nul = match find_byte(data, 0u8, sp + 1) {
        Some(i) => i,
        None => {
            return Err(Error::CorruptObject);
        },
    };
    if nul == sp + 1 {
        proof {
            assert(data@.subrange(sp + 1, nul as int).len() == 0);
        }
        return Err(Error::CorruptObject);
    }
    let ghost digits = data@.subrange(sp + 1, nul as int);
    let mut val: u64 = 0;
    let mut i: usize = sp + 1;
    while i < nul
        invariant
            sp + 1 < nul < data@.len(),
            sp + 1 <= i <= nul,
            find_first(data@, 32u8, 0) == Some(sp as int),
            tag_type(data@.take(sp as int)) == Some(kind),
            find_first(data@, 0u8, sp + 1) == Some(nul as int),
            digits == data@.subrange(sp + 1, nul as int),
            all_digits(data@.subrange(sp + 1, i as int)),
            val as int == dec_value(data@.subrange(sp + 1, i as int)),
        decreases nul - i,
    {
        let d: u8 = data[i];
        if d < 48 || d > 57 {
            proof {
                assert(digits[i - (sp + 1)] == data@[i as int]);
                assert(!all_digits(digits));
                assert(spec_parse_header(data@) is None);
            }
            return Err(Error::CorruptObject);
        }
        let dd: u64 = (d - 48) as u64;
        let ghost pre = data@.subrange(sp + 1, i as int);
        let ghost pre1 = data@.subrange(sp + 1, i + 1);
        proof {
            assert(pre1.drop_last() =~= pre);
            assert(pre1.last() == data@[i as int]);
            assert(dec_value(pre1) == dec_value(pre) * 10 + (d - 48));
            assert(all_digits(pre1));
        }
        if val > (u64::MAX - dd) / 10 {
            proof {
                // the accumulated value already overflows, so the full digit
                // string cannot fit in a u64 (if it is all digits at all)
                assert(val * 10 + dd > u64::MAX) by (nonlinear_arith)
                    requires
                        val > (u64::MAX - dd) / 10,
                        dd <= 9,
                ;
                if all_digits(digits) {
                    assert(pre1 =~= digits.take(i + 1 - (sp + 1)));
                    lemma_dec_value_prefix(digits, i + 1 - (sp + 1));
                    assert(dec_value(digits) > u64::MAX);
                }
                assert(spec_parse_header(data@) is None);
            }
            return Err(Error::CorruptObject);
        }
        proof {
            assert(val * 10 + dd <= u64::MAX) by (nonlinear_arith)
                requires
                    val <= (u64::MAX - dd) / 10,
                    dd <= 9,
            ;
        }
        val = val * 10 + dd;
        i += 1;
    }
    proof {
        assert(data@.subrange(sp + 1, nul as int) == digits);
        assert(all_digits(digits));
        assert(val as int == dec_value(digits));
        assert(digits.len() > 0);
    }
    Ok(Header { kind, length: val, offset: nul + 1 })
}

/// A decoded object: its kind, its declared length, and its payload.
#[derive(Debug, PartialEq, Eq)]
pub struct ObjectHandle {
    /// The kind read from the header.
    pub kind: ObjectType,
    /// The length declared in the header.
    pub length: u64,
    /// The payload: every byte after the header's NUL.
    pub content: Vec<u8>,
}

impl ObjectHandle {
    /// The kind read from the header.
    pub fn kind(&self) -> (r: ObjectType)
        ensures
            r == self.kind,
    {
        self.kind
    }

    /// The length declared in the header.
    pub fn length(&self) -> (r: u64)
        ensures
            r == self.length,
    {
        self.length
    }

    /// The payload bytes.
    pub fn content(self) -> (r: Vec<u8>)
        ensures
            r@ == self.content@,
    {
        self.content
    }
}

/// Decode a framed byte sequence into kind, declared length and payload,
/// trusting the declared length as the reference reader does.
pub fn parse_stored(framed: &[u8]) -> (r: Result<ObjectHandle, Error>)
    ensures
        match spec_decode(framed@) {
            Ok((k, l, c)) => r matches Ok(h) && h.kind == k && h.length as int == l && h.content@
                == c,
            Err(e) => r == Err::<ObjectHandle, Error>(e),
        },
{
    match parse_header(framed) {
        Err(e) => Err(e),
        Ok(h) => {
            let mut content: Vec<u8> = Vec::new();
            let tail = vstd::slice::slice_subrange(framed, h.offset, framed.len());
            push_all(&mut content, tail);
            proof {
                assert(content@ =~= framed@.skip(h.offset as int));
            }
            Ok(ObjectHandle { kind: h.kind, length: h.length, content })
        },
    }
}

/// Decode a framed byte sequence and additionally check the declared length
/// against the actual payload length, reporting `LengthMismatch` when the two
/// disagree. This is the validating mode of the reader.
pub fn parse_stored_validated(framed: &[u8]) -> (r: Result<ObjectHandle, Error>)
    ensures
        match spec_decode(framed@) {
            Ok((k, l, c)) => if l == c.len() {
                r matches Ok(h) && h.kind == k && h.length as int == l && h.content@ == c
            } else {
                r == Err::<ObjectHandle, Error>(Error::LengthMismatch)
            },
            Err(e) => r == Err::<ObjectHandle, Error>(e),
        },
{
    match parse_stored(framed) {
        Err(e) => Err(e),
        Ok(h) => {
            if h.length != h.content.len() as u64 {
                Err(Error::LengthMismatch)
            } else {
                Ok(h)
            }
        },
    }
}

} // verus!
