//! Session-wide naming rules: the fallback username and the bounds a
//! username is normalized into before it is announced on the wire.
use vstd::prelude::*;
use vstd::string::StringSliceAdditionalSpecFns;

verus! {

/// Username taken when none is configured and none can be derived.
pub const INITIAL_USERNAME: &'static str = "Anonymous";

/// Username shown for a message whose author is not in the online table.
pub const UNKNOWN_USERNAME: &'static str = "Unknown";

/// Longest username kept, counted in encoded bytes.
pub const MAX_USERNAME_LENGTH: usize = 25;

/// Shortest username accepted, counted in encoded bytes.
pub const MIN_USERNAME_LENGTH: usize = 2;

/// Largest byte index `k <= limit` of `bytes` that falls on a character
/// boundary, so that a cut there keeps the text valid.
pub open spec fn spec_boundary_at_or_below(bytes: Seq<u8>, limit: int) -> int
    decreases limit,
{
    if limit <= 0 {
        0
    } else if vstd::utf8::is_char_boundary(bytes, limit) {
        limit
    } else {
        spec_boundary_at_or_below(bytes, limit - 1)
    }
}

/// What a username becomes before the session uses it: over-long names are
/// cut at the last character boundary not beyond the byte limit, too-short
/// names fall back to the given fallback, the rest pass unchanged.
pub open spec fn spec_normalize_username(name: Seq<char>, fallback: Seq<char>) -> Seq<char> {
    let bytes = vstd::utf8::encode_utf8(name);
    if bytes.len() > MAX_USERNAME_LENGTH {
        vstd::utf8::decode_utf8(
            bytes.subrange(0, spec_boundary_at_or_below(bytes, MAX_USERNAME_LENGTH as int)),
        )
    } else if bytes.len() < MIN_USERNAME_LENGTH {
        fallback
    } else {
        name
    }
}

/// Brings a username into the accepted bounds; total on every string.
pub fn normalize_username(username: &str) -> (r: String)
    ensures
        r@ == spec_normalize_username(username@, INITIAL_USERNAME@),
{
    broadcast use vstd::slice::group_slice_axioms;

    let len = username.as_bytes().len();
    if len > MAX_USERNAME_LENGTH {
        proof {
            vstd::utf8::encode_utf8_valid_utf8(username@);
        }
        let ghost bytes = username.spec_bytes();
        let mut k: usize = MAX_USERNAME_LENGTH;
        while !username.is_char_boundary(k)
            invariant
                0 <= k <= MAX_USERNAME_LENGTH,
                vstd::utf8::valid_utf8(bytes),
                bytes == username.spec_bytes(),
                spec_boundary_at_or_below(bytes, MAX_USERNAME_LENGTH as int)
                    == spec_boundary_at_or_below(bytes, k as int),
            decreases k,
        {
            assert(vstd::utf8::is_char_boundary(bytes, 0));
            k = k - 1;
        }
        assert(spec_boundary_at_or_below(bytes, k as int) == k as int);
        let (prefix, _) = username.split_at(k);
        proof {
            vstd::utf8::encode_utf8_decode_utf8(prefix@);
        }
        prefix.to_owned()
    } else if len < MIN_USERNAME_LENGTH {
        INITIAL_USERNAME.to_owned()
    } else {
        username.to_owned()
    }
}

} // verus!
