//! The response translator: from a parsed CGI header mapping to an
//! outbound HTTP response descriptor.
//!
//! Three headers steer the translation.  `content-length` becomes the
//! outbound length when it reads as a non-negative integer, and is left
//! unspecified otherwise (unknown-length framing, never an error).
//! `content-type` must read as a valid media type; a malformed one is a
//! fatal error — rejecting it is preferred over forwarding it.  `status`
//! contributes its leading numeric code, and an absent or garbled status
//! line defaults to 200.

use vstd::prelude::*;
use vstd::slice::{slice_subrange, slice_to_vec};
use vstd::string::StringSliceAdditionalSpecFns;
use crate::response::{seq_find, Response};

verus! {

/// Whether a byte is a decimal digit.
pub open spec fn is_digit(b: u8) -> bool {
    48 <= b && b <= 57
}

/// Whether every byte of `s` is a decimal digit.
pub open spec fn is_digit_run(s: Seq<u8>) -> bool {
    forall|i: int| 0 <= i < s.len() ==> is_digit(s[i])
}

/// The value of a digit string, most significant digit first.
pub open spec fn digits_val(s: Seq<u8>) -> int
    decreases s.len(),
{
    if s.len() == 0 {
        0
    } else {
        digits_val(s.drop_last()) * 10 + (s.last() - 48)
    }
}

/// The numeric reading of a byte string: its value when it is a
/// nonempty run of decimal digits whose value fits in a `u64`.
pub open spec fn spec_parse_u64(s: Seq<u8>) -> Option<u64> {
    if s.len() > 0 && is_digit_run(s) && digits_val(s) <= u64::MAX {
        Option::Some(digits_val(s) as u64)
    } else {
        Option::None
    }
}

/// The header mapping key that carries the body length.
pub open spec fn content_length_key() -> Seq<u8> {
    "content-length".spec_bytes()
}

/// The header mapping key that carries the media type.
pub open spec fn content_type_key() -> Seq<u8> {
    "content-type".spec_bytes()
}

/// The header mapping key that carries the status line.
pub open spec fn status_key() -> Seq<u8> {
    "status".spec_bytes()
}

/// Rejecting a malformed `content-type` is a fatal translation error.
#[derive(Debug, PartialEq, Eq, Clone, Copy)]
pub enum TranslateError {
    InvalidContentType,
}

/// Whether a byte string reads as a valid media type.
pub uninterp spec fn media_type_ok(b: Seq<u8>) -> bool;

/// Relies on the `mime` crate's media-type parser
/// (`str::parse::<mime::Mime>`): whether the header value is a valid
/// media type.  The verdict depends on the bytes alone; bytes that are
/// not UTF-8 are never a valid media type.
#[verifier::external_body]
fn is_valid_media_type(b: &[u8]) -> (r: bool)
    ensures
        r == media_type_ok(b@),
{
    match core::str::from_utf8(b) {
        Ok(s) => s.parse::<mime::Mime>().is_ok(),
        Err(_) => false,
    }
}

/// The status code a `status` header value selects: the numeric reading
/// of its digits up to the first space, defaulting to 200 when absent or
/// garbled.
pub open spec fn spec_status_of(v: Seq<u8>) -> u16 {
    match spec_parse_u64(v.subrange(0, seq_find(v, 0, 32))) {
        Option::Some(c) => if c <= 65535 {
            c as u16
        } else {
            200
        },
        Option::None => 200,
    }
}

/// The outbound status of a header mapping: the `status` header's code,
/// or 200 when the header is missing.
pub open spec fn spec_status(m: Map<Seq<u8>, Seq<u8>>) -> u16 {
    if m.contains_key(status_key()) {
        spec_status_of(m[status_key()])
    } else {
        200
    }
}

/// The outbound length of a header mapping: the numeric reading of the
/// `content-length` header, or unspecified when the header is missing or
/// does not read as a number.
pub open spec fn spec_content_length(m: Map<Seq<u8>, Seq<u8>>) -> Option<u64> {
    if m.contains_key(content_length_key()) {
        spec_parse_u64(m[content_length_key()])
    } else {
        Option::None
    }
}

/// The outbound media type of a header mapping: the `content-type`
/// value, forwarded as-is; meaningful only when it is a valid media
/// type.
pub open spec fn spec_content_type(m: Map<Seq<u8>, Seq<u8>>) -> Option<Seq<u8>> {
    if m.contains_key(content_type_key()) {
        Option::Some(m[content_type_key()])
    } else {
        Option::None
    }
}

/// What the translation of a header mapping must yield: a fatal error
/// exactly when a `content-type` header is present but malformed, and
/// otherwise the status, length and media type read as above.
pub open spec fn spec_translate_ok(m: Map<Seq<u8>, Seq<u8>>) -> bool {
    m.contains_key(content_type_key()) ==> media_type_ok(m[content_type_key()])
}

/// The outbound HTTP response descriptor: status code, optional body
/// length, optional media type.  The body itself travels beside the
/// descriptor, lazily, and is not part of the translation.
#[derive(Debug)]
pub struct ResponseDescriptor {
    pub status: u16,
    pub content_length: Option<u64>,
    pub content_type: Option<Vec<u8>>,
}

impl ResponseDescriptor {
    /// Whether this descriptor is the one a header mapping translates to.
    pub open spec fn describes(&self, m: Map<Seq<u8>, Seq<u8>>) -> bool {
        &&& self.status == spec_status(m)
        &&& self.content_length == spec_content_length(m)
        &&& match (self.content_type, spec_content_type(m)) {
            (Option::Some(ct), Option::Some(v)) => ct@ == v,
            (Option::None, Option::None) => true,
            _ => false,
        }
    }
}

/// The numeric reading of a byte string: its value when it is a nonempty
/// run of decimal digits that fits in a `u64`.
pub fn parse_u64(s: &[u8]) -> (r: Option<u64>)
    ensures
        r == spec_parse_u64(s@),
{
    if s.len() == 0 {
        return None;
    }
    let mut acc: u64 = 0;
    let mut i: usize = 0;
    while i < s.len()
        invariant
            0 < s@.len(),
            i <= s@.len(),
            forall|j: int| 0 <= j < i ==> is_digit(s@[j]),
            acc == digits_val(s@.take(i as int)),
        decreases s@.len() - i,
    {
        let b = s[i];
        if b < 48 || b > 57 {
            return None;
        }
        let d = (b - 48) as u64;
        proof {
            assert(s@.take(i + 1).drop_last() =~= s@.take(i as int));
            assert(s@.take(i + 1).last() == s@[i as int]);
            assert(digits_val(s@.take(i + 1)) == acc * 10 + d);
        }
        if acc > (u64::MAX - d) / 10 {
            // this digit pushes the value past what a u64 holds, and
            // further digits only grow it
            proof {
                assert(acc * 10 + d > u64::MAX) by (nonlinear_arith)
                    requires
                        acc > (u64::MAX - d) / 10,
                        d <= 9,
                ;
                if is_digit_run(s@) {
                    lemma_digits_val_mono(s@, i + 1);
                }
            }
            return None;
        }
        acc = acc * 10 + d;
        i = i + 1;
    }
    proof {
        assert(s@.take(s@.len() as int) =~= s@);
    }
    Some(acc)
}

/// The numeric reading of a digit run only grows as digits are appended.
proof fn lemma_digits_val_mono(s: Seq<u8>, i: int)
    requires
        0 <= i <= s.len(),
        is_digit_run(s),
    ensures
        digits_val(s.take(i)) <= digits_val(s),
    decreases s.len() - i,
{
    if i < s.len() {
        assert(s.take(i + 1).drop_last() =~= s.take(i));
        assert(s.take(i + 1).last() == s[i]);
        assert(digits_val(s.take(i)) * 10 >= digits_val(s.take(i))) by {
            lemma_digits_val_nonneg(s, i);
        }
        lemma_digits_val_mono(s, i + 1);
    } else {
        assert(s.take(i) =~= s);
    }
}

/// A digit run never reads as a negative value.
proof fn lemma_digits_val_nonneg(s: Seq<u8>, i: int)
    requires
        0 <= i <= s.len(),
        is_digit_run(s),
    ensures
        digits_val(s.take(i)) >= 0,
    decreases i,
{
    if i > 0 {
        assert(s.take(i).drop_last() =~= s.take(i - 1));
        assert(s.take(i).last() == s[i - 1]);
        lemma_digits_val_nonneg(s, i - 1);
    } else {
        assert(s.take(0) =~= Seq::<u8>::empty());
    }
}

/// The status code a `status` header value selects.
pub fn status_of(v: &[u8]) -> (r: u16)
    ensures
        r == spec_status_of(v@),
{
    // the token before the first space carries the code
    let mut e: usize = 0;
    while e < v.len() && v[e] != 32
        invariant
            e <= v@.len(),
            forall|i: int| 0 <= i < e ==> v@[i] != 32,
        decreases v@.len() - e,
    {
        e = e + 1;
    }
    proof {
        crate::response::lemma_seq_find(v@, 0, 32);
        let c = seq_find(v@, 0, 32);
        if c < e {
            assert(v@[c] != 32);
            assert(false);
        }
        if c > e {
            assert(v@[e as int] != 32);
            assert(false);
        }
    }
    match parse_u64(slice_subrange(v, 0, e)) {
        Some(c) => if c <= 65535 {
            c as u16
        } else {
            200
        },
        None => 200,
    }
}

/// Translate a parsed CGI response into an outbound HTTP response
/// descriptor.  A present but malformed `content-type` is the one fatal
/// case; a missing or garbled `status` or `content-length` falls back to
/// its default instead.  The backend's exit status plays no part here:
/// it is observed separately when the process handle is released.
pub fn translate(resp: &Response) -> (r: Result<ResponseDescriptor, TranslateError>)
    requires
        resp.wf(),
    ensures
        match r {
            Ok(d) => spec_translate_ok(resp.header_map()) && d.describes(resp.header_map()),
            Err(_) => !spec_translate_ok(resp.header_map()),
        },
{
    let header = resp.header();
    let content_type: Option<Vec<u8>> = match header.get("content-type".as_bytes()) {
        Some(v) => {
            if !is_valid_media_type(v.as_slice()) {
                return Err(TranslateError::InvalidContentType);
            }
            Some(slice_to_vec(v.as_slice()))
        },
        None => None,
    };
    let content_length: Option<u64> = match header.get("content-length".as_bytes()) {
        Some(v) => parse_u64(v.as_slice()),
        None => None,
    };
    let status: u16 = match header.get("status".as_bytes()) {
        Some(v) => status_of(v.as_slice()),
        None => 200,
    };
    Ok(ResponseDescriptor { status, content_length, content_type })
}

} // verus!
