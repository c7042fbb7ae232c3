//! Time-limited TURN credentials.
//!
//! The username is `<expiry>:webrtc-user` and the password is the
//! base64 of an HMAC-SHA1 tag over the username, keyed by the shared
//! secret, as TURN's long-term credential scheme prescribes.

use vstd::prelude::*;
use vstd::string::*;
use vstd::utf8::encode_utf8;
use hmac::Mac;
use base64::Engine;
use crate::strutil::{decimal_string, spec_decimal};

verus! {

/// The HMAC-SHA1 tag of `msg` under `key`.
pub uninterp spec fn hmac_sha1_of(key: Seq<u8>, msg: Seq<u8>) -> Seq<u8>;

/// The standard base64 rendering of `b`, with padding.
pub uninterp spec fn base64_of(b: Seq<u8>) -> Seq<char>;

/// Relies on hmac's `Hmac` over sha1's `Sha1`: the tag depends on key
/// and message alone, and a SHA1-based tag is 20 bytes.  `Hmac`
/// accepts keys of any length, so the construction cannot fail.
#[verifier::external_body]
fn hmac_sha1(key: &[u8], msg: &[u8]) -> (r: Vec<u8>)
    ensures
        r@ == hmac_sha1_of(key@, msg@),
        r@.len() == 20,
{
    let mut mac = hmac::Hmac::<sha1::Sha1>::new_from_slice(key).expect(
        "HMAC accepts keys of any length",
    );
    mac.update(msg);
    mac.finalize().into_bytes().to_vec()
}

/// Relies on base64's standard engine: the rendering depends on the
/// bytes alone.
#[verifier::external_body]
fn base64_encode(b: &[u8]) -> (r: String)
    ensures
        r@ == base64_of(b@),
{
    base64::engine::general_purpose::STANDARD.encode(b)
}

/// Relies on std::time::SystemTime::now, converted to whole seconds
/// since the Unix epoch; nothing is promised of the value.
#[verifier::external_body]
fn unix_now_secs() -> u64 {
    match std::time::SystemTime::now().duration_since(std::time::UNIX_EPOCH) {
        Ok(d) => d.as_secs(),
        Err(_) => 0,
    }
}

/// Credentials last twelve hours.
pub const TURN_CREDENTIAL_TTL_SECS: u64 = 43200;

/// The temporary username for a credential expiring at `expires`.
pub open spec fn spec_turn_username(expires: nat) -> Seq<char> {
    spec_decimal(expires) + ":webrtc-user"@
}

/// The password for a credential: base64 of the HMAC-SHA1 tag of the
/// username under the shared secret.
pub open spec fn spec_turn_password(secret: Seq<char>, expires: nat) -> Seq<char> {
    base64_of(hmac_sha1_of(encode_utf8(secret), encode_utf8(spec_turn_username(expires))))
}

/// Time-limited credentials for the co-located TURN relay.
#[derive(Debug, Clone)]
pub struct TurnCredentials {
    pub username: String,
    pub password: String,
    pub ttl: u64,
    pub server: String,
    pub port: u16,
}

impl TurnCredentials {
    /// Credentials pinned to a known issue time, expiring one TTL
    /// later.
    pub fn from_timestamp(server: String, port: u16, secret: &str, now: u64) -> (r: Self)
        requires
            now + TURN_CREDENTIAL_TTL_SECS <= u64::MAX,
        ensures
            r.ttl == TURN_CREDENTIAL_TTL_SECS,
            r.server@ == server@,
            r.port == port,
            r.username@ == spec_turn_username((now + TURN_CREDENTIAL_TTL_SECS) as nat),
            r.password@ == spec_turn_password(secret@, (now + TURN_CREDENTIAL_TTL_SECS) as nat),
    {
        let expires = now + TURN_CREDENTIAL_TTL_SECS;
        let mut username = decimal_string(expires);
        username.append(":webrtc-user");
        let tag = hmac_sha1(secret.as_bytes(), username.as_str().as_bytes());
        let password = base64_encode(tag.as_slice());
        TurnCredentials { username, password, ttl: TURN_CREDENTIAL_TTL_SECS, server, port }
    }

    /// Credentials issued at the current wall-clock time.  Whatever the
    /// clock returned, the result is well formed for some issue time.
    pub fn new(server: String, port: u16, secret: &str) -> (r: Self)
        ensures
            r.ttl == TURN_CREDENTIAL_TTL_SECS,
            r.server@ == server@,
            r.port == port,
            exists|now: u64|
                r.username@ == spec_turn_username(
                    (now + TURN_CREDENTIAL_TTL_SECS) as nat,
                ) && r.password@ == #[trigger] spec_turn_password(
                    secret@,
                    (now + TURN_CREDENTIAL_TTL_SECS) as nat,
                ),
    {
        let now = unix_now_secs();
        let issued: u64 = if now > u64::MAX - TURN_CREDENTIAL_TTL_SECS {
            u64::MAX - TURN_CREDENTIAL_TTL_SECS
        } else {
            now
        };
        let r = Self::from_timestamp(server, port, secret, issued);
        proof {
            assert(r.username@ == spec_turn_username((issued + TURN_CREDENTIAL_TTL_SECS) as nat)
                && r.password@ == spec_turn_password(
                secret@,
                (issued + TURN_CREDENTIAL_TTL_SECS) as nat,
            ));
        }
        r
    }
}

} // verus!
