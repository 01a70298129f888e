//! Fragment extraction: slicing a clone's byte range back out of its source
//! text.
//!
//! Offsets are byte positions in the original text. The end offset is clamped
//! to the text's byte length first; a range that is still reversed, out of
//! bounds, or not aligned to character boundaries yields no fragment rather
//! than a failure.

use vstd::prelude::*;
use vstd::math::min;
use vstd::string::StringSliceAdditionalSpecFns;
use vstd::utf8::{encode_utf8, is_char_boundary};

verus! {

/// What fragment extraction yields on a text's bytes for the range
/// `[lo, hi)`: the end is clamped to the byte length; the bytes between the
/// offsets are handed back exactly when the clamped range is ordered, within
/// the text, and cuts on character boundaries.
pub open spec fn spec_extract(bytes: Seq<u8>, lo: u32, hi: u32) -> Option<Seq<u8>> {
    let end = min(hi as int, (bytes.len() as usize) as int);
    if lo as int <= end && end <= bytes.len() && is_char_boundary(bytes, lo as int)
        && is_char_boundary(bytes, end) {
        Some(bytes.subrange(lo as int, end))
    } else {
        None
    }
}

/// Relies on `str::get` with a byte range: the slice between the offsets
/// exactly when the range is ordered, within the text, and both ends lie on
/// character boundaries; `None` otherwise.
#[verifier::external_body]
fn str_get_range<'a>(s: &'a str, start: usize, end: usize) -> (r: Option<&'a str>)
    ensures
        match r {
            Some(sub) => start <= end <= s.spec_bytes().len()
                && is_char_boundary(s.spec_bytes(), start as int)
                && is_char_boundary(s.spec_bytes(), end as int)
                && sub.spec_bytes() == s.spec_bytes().subrange(start as int, end as int),
            None => !(start <= end <= s.spec_bytes().len()
                && is_char_boundary(s.spec_bytes(), start as int)
                && is_char_boundary(s.spec_bytes(), end as int)),
        },
{
    s.get(start..end)
}

/// Slice the fragment for the byte range `[lo, hi)` out of a source text,
/// exactly as [`spec_extract`] states: the fragment's bytes are the clamped
/// range's bytes, or nothing when the range is invalid.
pub fn extract_fragment(content: &str, lo: u32, hi: u32) -> (r: Option<String>)
    ensures
        match r {
            Some(f) => spec_extract(content.spec_bytes(), lo, hi) == Some(encode_utf8(f@)),
            None => spec_extract(content.spec_bytes(), lo, hi) is None,
        },
{
    let len = content.len();
    let start = lo as usize;
    let mut end = hi as usize;
    if end > len {
        end = len;
    }
    match str_get_range(content, start, end) {
        Some(sub) => Some(sub.to_owned()),
        None => None,
    }
}

/// Validity gating: a side whose range is reversed (`lo > hi`) yields no
/// fragment, with no failure raised.
pub proof fn lemma_invalid_span_skipped(bytes: Seq<u8>, lo: u32, hi: u32)
    requires
        lo > hi,
    ensures
        spec_extract(bytes, lo, hi) is None,
{
}

/// Clamping: for a text of ordinary length, an end offset past the text is
/// clamped to the byte length, so a fragment never reaches past the text; and
/// when the start offset also lies past the text, no fragment is handed back.
pub proof fn lemma_overlong_span_clamped(bytes: Seq<u8>, lo: u32, hi: u32)
    requires
        bytes.len() <= usize::MAX,
        hi as int >= bytes.len(),
    ensures
        spec_extract(bytes, lo, hi) matches Some(f) ==> f == bytes.subrange(
            lo as int,
            bytes.len() as int,
        ),
        lo as int > bytes.len() ==> spec_extract(bytes, lo, hi) is None,
{
}

} // verus!
