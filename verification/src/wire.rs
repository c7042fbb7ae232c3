//! Tolerant handling of ICE candidate payloads seen on the wire.
//!
//! Some clients double-encode the candidate as a JSON string.  A
//! payload that opens with a quote is decoded once; anything else is
//! taken verbatim.

use vstd::prelude::*;
use crate::strutil::has_prefix;

verus! {

/// The string a JSON text denotes, when it is exactly one JSON string.
pub uninterp spec fn json_unquote_of(s: Seq<char>) -> Option<Seq<char>>;

/// Relies on serde_json::from_str::<String>: parsing a JSON string
/// depends on the input characters alone.
#[verifier::external_body]
fn decode_json_string(s: &str) -> (r: Option<String>)
    ensures
        match r {
            Some(t) => json_unquote_of(s@) == Some(t@),
            None => json_unquote_of(s@) is None,
        },
{
    serde_json::from_str::<String>(s).ok()
}

/// The candidate a wire payload stands for: double-encoded payloads are
/// decoded once, plain ones pass through, and an undecodable quoted
/// payload is dropped.
pub open spec fn spec_normalize_candidate(c: Seq<char>) -> Option<Seq<char>> {
    if c.len() > 0 && c[0] == '"' {
        json_unquote_of(c)
    } else {
        Some(c)
    }
}

/// Decodes a possibly double-encoded candidate payload.
pub fn normalize_candidate(c: String) -> (r: Option<String>)
    ensures
        match r {
            Some(t) => spec_normalize_candidate(c@) == Some(t@),
            None => spec_normalize_candidate(c@) is None,
        },
{
    proof {
        reveal_strlit("\"");
    }
    let quoted = has_prefix(c.as_str(), "\"");
    proof {
        if quoted {
            assert(c@.subrange(0, 1) == "\""@);
            assert(c@[0] == "\""@[0]);
        } else if c@.len() > 0 && c@[0] == '"' {
            assert(c@.subrange(0, 1) =~= "\""@);
        }
    }
    if quoted {
        decode_json_string(c.as_str())
    } else {
        Some(c)
    }
}

} // verus!
