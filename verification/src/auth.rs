//! Authenticated principals and API-key verification.
//!
//! A principal is either a verified OAuth identity (token verification
//! itself lives outside this crate, consumed as claims) or an API key.
//! API keys are ASCII strings `"ha_"` followed by 32 hex characters —
//! length exactly 35 — and are stored server-side only as their SHA-256
//! hex digest, which is also the record's partition key.

use vstd::prelude::*;

use sha2::{Digest, Sha256};
use uuid::Uuid;

use crate::errors::DataError;
use crate::item::Item;
use crate::keys::{concat2, is_prefix_of, str_starts_with};
use crate::records::{ApiKey, spec_decode_api_key};
use crate::store::{Table, spec_get};

verus! {

/// The verified claims of an OAuth identity token.
#[derive(Debug)]
pub struct Claims {
    pub sub: String,
    pub email: String,
    pub name: String,
    pub exp: usize,
    pub aud: Option<String>,
    pub iss: Option<String>,
}

/// How a principal authenticated.
#[derive(Debug)]
pub enum AuthMethod {
    GoogleOAuth(Claims),
    ApiKey { email: String, key_id: String },
}

/// An authenticated principal.
#[derive(Debug)]
pub struct AuthUser {
    pub email: String,
    pub method: AuthMethod,
}

impl AuthUser {
    /// The principal behind a verified OAuth token.
    pub fn from_claims(claims: Claims) -> (r: AuthUser)
        ensures
            r.email@ == claims.email@,
            r.method matches AuthMethod::GoogleOAuth(c) && c == claims,
    {
        let email = claims.email.clone();
        AuthUser { email, method: AuthMethod::GoogleOAuth(claims) }
    }

    /// The principal behind a verified API key.
    pub fn from_api_key(email: String, key_hash: String) -> (r: AuthUser)
        ensures
            r.email@ == email@,
            r.method matches AuthMethod::ApiKey { email: e, key_id } && e@ == email@ && key_id@
                == key_hash@,
    {
        AuthUser { email: email.clone(), method: AuthMethod::ApiKey { email, key_id: key_hash } }
    }
}

/// The exact shape of an API key: `"ha_"` followed by 32 characters,
/// length exactly 35.
pub open spec fn api_key_format_ok(s: Seq<char>) -> bool {
    s.len() == 35 && is_prefix_of("ha_"@, s)
}

/// A lowercase hexadecimal digit.
pub open spec fn is_lower_hex_char(c: char) -> bool {
    ('0' as u32 <= c as u32 && c as u32 <= '9' as u32) || ('a' as u32 <= c as u32 && c as u32
        <= 'f' as u32)
}

/// Every character is a lowercase hexadecimal digit.
pub open spec fn lower_hex(s: Seq<char>) -> bool {
    forall|i: int| 0 <= i < s.len() ==> is_lower_hex_char(#[trigger] s[i])
}

/// Decides whether a token has the API key shape.
pub fn check_api_key_format(token: &str) -> (r: bool)
    ensures
        r == api_key_format_ok(token@),
{
    let len = token.unicode_len();
    len == 35 && str_starts_with(token, "ha_")
}

/// The SHA-256 digest of a string's UTF-8 bytes, rendered as lowercase
/// hex.
pub uninterp spec fn sha256_hex_of(s: Seq<char>) -> Seq<char>;

/// Relies on sha2's SHA-256: the digest depends on the input alone; it
/// is 32 bytes, so its hex rendering is 64 characters.
#[verifier::external_body]
pub fn sha256_hex(s: &str) -> (r: String)
    ensures
        r@ == sha256_hex_of(s@),
        r@.len() == 64,
{
    let mut hasher = Sha256::new();
    hasher.update(s.as_bytes());
    format!("{:x}", hasher.finalize())
}

/// Relies on uuid's random v4 generator and its simple (hyphen-free)
/// rendering: the result is random, 32 lowercase hexadecimal digits.
#[verifier::external_body]
fn new_key_id() -> (r: String)
    ensures
        r@.len() == 32,
        lower_hex(r@),
{
    format!("{}", Uuid::new_v4().simple())
}

/// Generates a fresh API key in the exact published shape: `"ha_"`
/// followed by 32 lowercase hexadecimal digits, length exactly 35.
pub fn make_api_key() -> (r: String)
    ensures
        api_key_format_ok(r@),
        lower_hex(r@.skip(3)),
{
    let id = new_key_id();
    let key = concat2("ha_", id.as_str());
    proof {
        reveal_strlit("ha_");
        assert(("ha_"@).len() == 3);
        assert(key@.subrange(0, 3) =~= "ha_"@);
        assert(key@.skip(3) =~= id@);
    }
    key
}

/// Verifies an API key against the table: the token must have the key
/// shape, its digest must name a stored key record, and the record must
/// not be expired. The principal returned is the record's owner.
/// Expiry reads the clock, so success also depends on when the call is
/// made; everything else is pinned.
pub fn verify_api_key(table: &Table, token: &str) -> (r: Result<AuthUser, DataError>)
    ensures
        match r {
            Ok(u) => {
                &&& api_key_format_ok(token@)
                &&& spec_get(table@, sha256_hex_of(token@), "APIKEY"@) matches Some(it)
                    && spec_decode_api_key(it) matches Some(k) && u.email@ == k.user_email
                    && (u.method matches AuthMethod::ApiKey { email, key_id } && email@
                    == k.user_email && key_id@ == k.key_hash)
            },
            Err(e) => {
                ||| (e == DataError::Unauthorized && !api_key_format_ok(token@))
                ||| (e == DataError::NotFound && api_key_format_ok(token@) && spec_get(
                    table@,
                    sha256_hex_of(token@),
                    "APIKEY"@,
                ) is None)
                ||| (e == DataError::DecodeError && api_key_format_ok(token@) && (spec_get(
                    table@,
                    sha256_hex_of(token@),
                    "APIKEY"@,
                ) matches Some(it) && spec_decode_api_key(it) is None))
                ||| (e == DataError::Unauthorized && api_key_format_ok(token@) && (spec_get(
                    table@,
                    sha256_hex_of(token@),
                    "APIKEY"@,
                ) matches Some(it) && spec_decode_api_key(it) matches Some(k) && k.expires_at
                    is Some))
            },
        },
{
    if !check_api_key_format(token) {
        return Err(DataError::Unauthorized);
    }
    let key_hash = sha256_hex(token);
    let item = table.get(key_hash.as_str(), "APIKEY")?;
    let api_key = ApiKey::decode(item)?;
    if api_key.is_expired() {
        return Err(DataError::Unauthorized);
    }
    Ok(AuthUser::from_api_key(api_key.user_email, api_key.key_hash))
}

/// Records that an API key was just used, stamping its `last_used_at`.
/// This is the detached background write a successful verification
/// triggers: it is not awaited by the request, and it swallows its own
/// failures — a missing or malformed record leaves the table untouched.
pub fn record_api_key_use(table: &mut Table, key_hash: &str, now: String)
    requires
        old(table).wf(),
    ensures
        final(table).wf(),
        match spec_get(old(table)@, key_hash@, "APIKEY"@) {
            Some(it) => match spec_decode_api_key(it) {
                Some(k) => {
                    &&& spec_get(final(table)@, key_hash@, "APIKEY"@) == Some(
                        crate::records::spec_encode_api_key(
                            crate::records::ApiKeyModel {
                                last_used_at: Some(now@),
                                ..k
                            },
                        ),
                    )
                    &&& forall|p: Seq<char>, s: Seq<char>|
                        !(p == key_hash@ && s == "APIKEY"@) ==> #[trigger] spec_get(
                            final(table)@,
                            p,
                            s,
                        ) == spec_get(old(table)@, p, s)
                },
                None => final(table)@ == old(table)@,
            },
            None => final(table)@ == old(table)@,
        },
{
    let found = match table.get(key_hash, "APIKEY") {
        Ok(item) => match ApiKey::decode(item) {
            Ok(k) => Some(k),
            Err(_) => None,
        },
        Err(_) => None,
    };
    match found {
        Some(mut k) => {
            k.last_used_at = Some(now);
            let ghost km = k@;
            let item = k.encode();
            proof {
                crate::store::lemma_spec_get_some(old(table)@, key_hash@, "APIKEY"@);
            }
            table.put(item);
        },
        None => {},
    }
}

/// A freshly created API key: the stored record and the plain key, which
/// is shown only on creation.
#[derive(Debug)]
pub struct ApiKeyCreated {
    pub api_key_record: ApiKey,
    pub key: String,
}

impl ApiKeyCreated {
    /// The stored record.
    pub fn api_key(&self) -> (r: &ApiKey)
        ensures
            r == &self.api_key_record,
    {
        &self.api_key_record
    }

    /// The plain key.
    pub fn key(&self) -> (r: &str)
        ensures
            r@ == self.key@,
    {
        self.key.as_str()
    }
}

} // verus!
