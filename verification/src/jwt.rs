use vstd::prelude::*;
use crate::extension::CacheValue;

verus! {

#[verifier::external_type_specification]
#[verifier::external_body]
pub struct ExEncodingKey(jsonwebtoken::EncodingKey);

#[verifier::external_type_specification]
#[verifier::external_body]
pub struct ExDecodingKey(jsonwebtoken::DecodingKey);

#[verifier::external_type_specification]
#[verifier::external_body]
pub struct ExJwtError(jsonwebtoken::errors::Error);

#[verifier::external_type_specification]
#[verifier::external_body]
pub struct ExJsonValue(serde_json::Value);

#[verifier::external_type_specification]
#[verifier::external_body]
pub struct ExSystemTime(std::time::SystemTime);

/// The HMAC signing key that `jsonwebtoken::EncodingKey::from_secret` builds
/// from a secret.
pub uninterp spec fn hmac_encoding_key(secret: Seq<u8>) -> jsonwebtoken::EncodingKey;

/// The HMAC verification key that `jsonwebtoken::DecodingKey::from_secret`
/// builds from a secret.
pub uninterp spec fn hmac_decoding_key(secret: Seq<u8>) -> jsonwebtoken::DecodingKey;

/// `jsonwebtoken::EncodingKey::from_secret` copies the secret into an HMAC
/// signing key: the key is a function of the secret's bytes alone.
pub assume_specification[ jsonwebtoken::EncodingKey::from_secret ](
    secret: &[u8],
) -> (key: jsonwebtoken::EncodingKey)
    ensures
        key == hmac_encoding_key(secret@),
;

/// `jsonwebtoken::DecodingKey::from_secret` copies the secret into an HMAC
/// verification key: the key is a function of the secret's bytes alone.
pub assume_specification[ jsonwebtoken::DecodingKey::from_secret ](
    secret: &[u8],
) -> (key: jsonwebtoken::DecodingKey)
    ensures
        key == hmac_decoding_key(secret@),
;

/// The text of the HS256 JSON web token that `jsonwebtoken::encode` makes of
/// `claims` with the default header and the HMAC key of `secret`.
pub uninterp spec fn hs256_token(claims: serde_json::Value, secret: Seq<u8>) -> Seq<char>;

/// What `jsonwebtoken::decode` reads from `token` under the HMAC key of
/// `secret` before it looks at the clock: the claims, when the token has
/// three parts, its header asks for HS256, its signature verifies and its
/// payload decodes to a JSON value; `None` otherwise.
pub uninterp spec fn hs256_claims(token: Seq<char>, secret: Seq<u8>) -> Option<serde_json::Value>;

/// Calls `jsonwebtoken::encode` with the default header (HS256) to sign the
/// claims. With a key built from a secret the call cannot fail (the key is
/// of the HMAC family that HS256 asks for, a JSON value always serialises,
/// and HMAC signing has no failure), and the token is a function of the
/// claims and the secret alone.
#[verifier::external_body]
fn encode_claims(
    claims: &serde_json::Value,
    key: &jsonwebtoken::EncodingKey,
) -> (r: Result<String, jsonwebtoken::errors::Error>)
    ensures
        forall|secret: Seq<u8>|
            *key == #[trigger] hmac_encoding_key(secret) ==> r is Ok && r->Ok_0@ == hs256_token(
                *claims,
                secret,
            ),
{
    jsonwebtoken::encode(&jsonwebtoken::Header::default(), claims, key)
}

/// Calls `jsonwebtoken::decode` with the default validation (HS256, the
/// `exp` claim required and checked against the clock with 60 s of leeway)
/// and hands back the claims. With a key built from a secret: a success
/// carries the claims that the token's verified payload holds, and a token
/// whose signature or payload fails is refused. Whether a verified token is
/// refused for its expiry depends on the clock and is not stated. The call
/// reads the clock itself and panics if it reads before the Unix epoch or
/// within its first 60 s; callers check the clock first.
#[verifier::external_body]
fn decode_token(
    token: &str,
    key: &jsonwebtoken::DecodingKey,
) -> (r: Result<serde_json::Value, jsonwebtoken::errors::Error>)
    ensures
        forall|secret: Seq<u8>|
            *key == #[trigger] hmac_decoding_key(secret) ==> (r is Ok ==> hs256_claims(token@, secret)
                == Some(r->Ok_0)) && (hs256_claims(token@, secret) is None ==> r is Err),
{
    match jsonwebtoken::decode::<serde_json::Value>(token, key, &jsonwebtoken::Validation::default()) {
        Ok(data) => Ok(data.claims),
        Err(e) => Err(e),
    }
}

/// Calls `std::time::SystemTime::now`; the clock's reading is not modelled.
#[verifier::external_body]
fn system_now() -> std::time::SystemTime {
    std::time::SystemTime::now()
}

/// Calls `SystemTime::duration_since(UNIX_EPOCH)`: the time elapsed since
/// the epoch, `None` for a time before it. Nothing is claimed of the
/// duration.
#[verifier::external_body]
fn since_epoch(t: std::time::SystemTime) -> Option<std::time::Duration> {
    match t.duration_since(std::time::UNIX_EPOCH) {
        Ok(d) => Some(d),
        Err(_) => None,
    }
}

/// Calls `Duration::as_secs`: the whole seconds of a duration. Nothing is
/// claimed of the number.
#[verifier::external_body]
fn whole_seconds(d: std::time::Duration) -> u64 {
    d.as_secs()
}

/// The current Unix time in seconds, if the clock is past the epoch.
pub fn unix_now() -> Option<u64> {
    match since_epoch(system_now()) {
        Some(d) => Some(whole_seconds(d)),
        None => None,
    }
}

/// A value that carries an expiry time (seconds since the Unix epoch).
pub trait Exp: Sized {
    spec fn exp_spec(&self) -> u64;

    /// The same value with its expiry set to `exp`.
    spec fn with_exp(&self, exp: u64) -> Self;

    fn get_exp(&self) -> (r: u64)
        ensures
            r == self.exp_spec(),
    ;

    fn set_exp(&mut self, exp: u64)
        ensures
            *final(self) == old(self).with_exp(exp),
            final(self).exp_spec() == exp,
    ;
}

/// Why a token could not be issued or read.
#[derive(Debug, Clone, Copy, PartialEq, Eq, Structural)]
pub enum AuthError {
    TokenCreation,
    InvalidToken,
}

/// The secret used when none is configured.
pub open spec fn default_secret() -> Seq<char> {
    "default_secret"@
}

/// The bytes of the secret that keys are derived from: the configured one, or
/// the default one when none is configured.
pub open spec fn secret_bytes(secret: Option<&str>) -> Seq<u8> {
    match secret {
        Some(s) => vstd::utf8::encode_utf8(s@),
        None => vstd::utf8::encode_utf8(default_secret()),
    }
}

/// The configured secret, or the default one when none is configured.
pub fn secret_or_default(secret: Option<&str>) -> (r: &str)
    ensures
        match secret {
            Some(s) => r@ == s@,
            None => r@ == default_secret(),
        },
{
    match secret {
        Some(s) => s,
        None => "default_secret",
    }
}

/// The signing and verification keys derived from one HMAC secret.
pub struct Keys {
    pub encoding: jsonwebtoken::EncodingKey,
    pub decoding: jsonwebtoken::DecodingKey,
}

impl Keys {
    /// Whether both keys are the HMAC keys of `secret`.
    pub open spec fn derived_from(&self, secret: Seq<u8>) -> bool {
        &&& self.encoding == hmac_encoding_key(secret)
        &&& self.decoding == hmac_decoding_key(secret)
    }

    /// Derives the keys from the configured secret, or from the default
    /// secret when none is configured.
    pub fn new(secret: Option<&str>) -> (r: Keys)
        ensures
            r.derived_from(secret_bytes(secret)),
    {
        let s = secret_or_default(secret);
        Keys {
            encoding: jsonwebtoken::EncodingKey::from_secret(s.as_bytes()),
            decoding: jsonwebtoken::DecodingKey::from_secret(s.as_bytes()),
        }
    }
}

/// The expiry `expire` seconds after `now`, if it fits in a `u64`.
pub fn expiry_from(now: u64, expire: u64) -> (r: Option<u64>)
    ensures
        match r {
            Some(e) => e == now + expire,
            None => now + expire > u64::MAX,
        },
{
    now.checked_add(expire)
}

/// Sets the expiry of `t` to `expire` seconds after `now`; fails when that
/// time does not fit in a `u64`, leaving `t` unchanged.
pub fn stamp_expiry<T: Exp>(t: &mut T, expire: u64, now: u64) -> (r: Result<(), AuthError>)
    ensures
        now + expire <= u64::MAX ==> r is Ok && *final(t) == old(t).with_exp((now + expire) as u64)
            && final(t).exp_spec() == now + expire,
        now + expire > u64::MAX ==> r == Err::<(), AuthError>(AuthError::TokenCreation) && *final(t)
            == *old(t),
{
    match expiry_from(now, expire) {
        Some(e) => {
            t.set_exp(e);
            Ok(())
        },
        None => Err(AuthError::TokenCreation),
    }
}

/// Sets the expiry of `t` to `expire` seconds from now by the clock. Fails,
/// leaving `t` unchanged, when the clock reads before the epoch or the
/// expiry does not fit in a `u64`.
pub fn set_expiry<T: Exp>(t: &mut T, expire: u64) -> (r: Result<(), AuthError>)
    ensures
        r is Ok ==> exists|e: u64|
            expire <= e && final(t).exp_spec() == e && *final(t) == #[trigger] old(t).with_exp(e),
        r is Err ==> r == Err::<(), AuthError>(AuthError::TokenCreation) && *final(t) == *old(t),
{
    match unix_now() {
        Some(now) => stamp_expiry(t, expire, now),
        None => Err(AuthError::TokenCreation),
    }
}

/// Signs the claims twice: the access token with the access keys and the
/// refresh token with the refresh keys. Keys derived from secrets always
/// sign; any signing failure is reported as `TokenCreation`.
pub fn sign_claims(claims: &serde_json::Value, access: &Keys, refresh: &Keys) -> (r: Result<
    (String, String),
    AuthError,
>)
    ensures
        r is Err ==> r == Err::<(String, String), AuthError>(AuthError::TokenCreation),
        forall|a: Seq<u8>, b: Seq<u8>|
            #![trigger access.derived_from(a), refresh.derived_from(b)]
            access.derived_from(a) && refresh.derived_from(b) ==> {
                &&& r is Ok
                &&& r->Ok_0.0@ == hs256_token(*claims, a)
                &&& r->Ok_0.1@ == hs256_token(*claims, b)
            },
{
    match encode_claims(claims, &access.encoding) {
        Ok(token) => match encode_claims(claims, &refresh.encoding) {
            Ok(refresh_token) => Ok((token, refresh_token)),
            Err(_) => Err(AuthError::TokenCreation),
        },
        Err(_) => Err(AuthError::TokenCreation),
    }
}

/// Verifies a token with the keys and hands back its claims. A token whose
/// signature or payload fails under the keys' secret is refused; a verified
/// token is also refused once it has expired by the clock. The clock is read
/// first, and one that reads before the first minute after the Unix epoch is
/// refused, because the verifying call would panic on it; the clock can
/// still move between that reading and the call's own.
pub fn decode_claims(token: &str, keys: &Keys) -> (r: Result<serde_json::Value, ()>)
    ensures
        forall|secret: Seq<u8>|
            #[trigger] keys.derived_from(secret) ==> (r is Ok ==> hs256_claims(token@, secret) == Some(
                r->Ok_0,
            )) && (hs256_claims(token@, secret) is None ==> r is Err),
{
    match unix_now() {
        Some(now) => {
            if now < 60 {
                return Err(());
            }
        },
        None => {
            return Err(());
        },
    }
    match decode_token(token, &keys.decoding) {
        Ok(claims) => Ok(claims),
        Err(_) => Err(()),
    }
}

/// A token's claims: the carried information and its expiry.
pub struct Token<T> {
    pub info: T,
    pub exp: u64,
}

impl<T> Token<T> {
    pub fn new(info: T) -> (r: Token<T>)
        ensures
            r.info == info,
            r.exp == 0,
    {
        Token { info, exp: 0 }
    }

}

impl<T: Clone> Clone for Token<T> {
    fn clone(&self) -> (r: Self)
        ensures
            r.exp == self.exp,
            vstd::pervasive::cloned(self.info, r.info),
    {
        Token { info: self.info.clone(), exp: self.exp }
    }
}

impl<T> Exp for Token<T> {
    open spec fn exp_spec(&self) -> u64 {
        self.exp
    }

    open spec fn with_exp(&self, exp: u64) -> Self {
        Token { info: self.info, exp }
    }

    fn get_exp(&self) -> (r: u64) {
        self.exp
    }

    fn set_exp(&mut self, exp: u64) {
        self.exp = exp;
    }
}

impl<T> CacheValue for Token<T> {
    open spec fn expired_at(&self, now: u64) -> bool {
        now > self.exp
    }

    fn is_expire_at(&self, now: u64) -> (r: bool) {
        now > self.exp
    }

    /// Whether the token has expired by the clock; a clock that reads before
    /// the epoch counts as time 0.
    fn is_expire(&self) -> (r: bool) {
        let now = match unix_now() {
            Some(now) => now,
            None => 0,
        };
        self.is_expire_at(now)
    }
}

} // verus!
