//! Per-token content hashing.
//!
//! Each token's textual identity is hashed to a fixed-width hex digest; a
//! file's hash string is the concatenation of those digests in token order, so
//! equal token sequences yield equal hash strings wherever the tokens sit.

use vstd::prelude::*;
use vstd::string::StringExecFns;
use vstd::utf8::is_ascii_chars;

use crate::tokenmap::{Token, TokenV};

use crypto::digest::Digest;

verus! {

/// The hex digest that the MD5 hash assigns to a character sequence.
pub uninterp spec fn md5_of(s: Seq<char>) -> Seq<char>;

/// Relies on the crypto crate's `Md5` through `Digest::input_str` and
/// `Digest::result_str`: the result is the hex form of the 128-bit digest of
/// the input — 32 hex characters (so ASCII), a function of the input alone.
#[verifier::external_body]
fn md5_hex(s: &str) -> (r: String)
    ensures
        r@ == md5_of(s@),
        r@.len() == 32,
        is_ascii_chars(r@),
{
    let mut m = crypto::md5::Md5::new();
    m.input_str(s);
    m.result_str()
}

/// The concatenation of one digest per token, in token order.
pub open spec fn spec_hash_concat(tokens: Seq<TokenV>) -> Seq<char>
    decreases tokens.len(),
{
    if tokens.len() == 0 {
        Seq::<char>::empty()
    } else {
        spec_hash_concat(tokens.drop_last()) + md5_of(tokens.last().id)
    }
}

/// Build a file's hash string: 32 ASCII characters per token, the digest of
/// each token's identity in order.
pub fn build_hash_str(tokens: &Vec<Token>) -> (r: String)
    requires
        32 * tokens@.len() <= usize::MAX,
    ensures
        r@ == spec_hash_concat(tokens@.map_values(|t: Token| t@)),
        r@.len() == 32 * tokens@.len(),
        is_ascii_chars(r@),
{
    let ghost tv = tokens@.map_values(|t: Token| t@);
    let mut s = String::new();
    let mut i: usize = 0;
    while i < tokens.len()
        invariant
            i <= tokens@.len(),
            32 * tokens@.len() <= usize::MAX,
            tv == tokens@.map_values(|t: Token| t@),
            s@ == spec_hash_concat(tv.take(i as int)),
            s@.len() == 32 * i,
            is_ascii_chars(s@),
        decreases tokens@.len() - i,
    {
        let ghost pre = s@;
        let h = md5_hex(tokens[i].id.as_str());
        s.append(h.as_str());
        proof {
            assert(tv.take(i + 1).drop_last() =~= tv.take(i as int));
            assert(tv.take(i + 1).last() == tv[i as int]);
            assert(tv[i as int].id == tokens@[i as int].id@);
            vstd::utf8::is_ascii_chars_concat(s@, pre, h@);
        }
        i = i + 1;
    }
    proof {
        assert(tv.take(tokens@.len() as int) =~= tv);
    }
    s
}

} // verus!
