//! Who may ask: a request carries a signature of its path, made with a key that both sides have.

use base64::engine::general_purpose::URL_SAFE_NO_PAD;
use base64::Engine;
use hmac::{Hmac, KeyInit, Mac};
use sha2::Sha256;
use subtle::ConstantTimeEq;
use vstd::prelude::*;
use vstd::utf8::encode_utf8;

use crate::text::{is_digit_spec, joined, same, trim, trimmed};

verus! {

/// What stands in place of a signature where none is needed.
pub const INSECURE: &'static str = "insecure";

// What is called.

/// What a hexadecimal digit is worth.
pub open spec fn hex_value(c: char) -> Option<int> {
    if is_digit_spec(c) {
        Some(c as int - '0' as int)
    } else if 'a' <= c && c <= 'f' {
        Some(c as int - 'a' as int + 10)
    } else if 'A' <= c && c <= 'F' {
        Some(c as int - 'A' as int + 10)
    } else {
        None
    }
}

/// `s` writes bytes, each in two hexadecimal digits.
pub open spec fn is_hex(s: Seq<char>) -> bool {
    s.len() % 2 == 0 && forall|i: int| 0 <= i < s.len() ==> hex_value(#[trigger] s[i]) is Some
}

/// The bytes that `s` writes.
pub open spec fn hex_bytes(s: Seq<char>) -> Seq<u8> {
    Seq::new(s.len() / 2, |i: int| (hex_value(s[2 * i])->0 * 16 + hex_value(s[2 * i + 1])->0) as u8)
}

/// `hex::decode`. It reads two digits for each byte, in either case, and nothing else.
#[verifier::external_body]
fn decode_hex(s: &str) -> (r: Option<Vec<u8>>)
    ensures
        r is Some <==> is_hex(s@),
        r matches Some(bytes) ==> bytes@ == hex_bytes(s@),
{
    hex::decode(s).ok()
}

/// The HMAC of a message under a key, with SHA-256.
pub uninterp spec fn hmac_sha256(key: Seq<u8>, message: Seq<u8>) -> Seq<u8>;

/// `Hmac::<Sha256>::new_from_slice`, which takes a key of any length, with `update` and
/// `finalize`. The result has 32 bytes.
#[verifier::external_body]
fn authenticate(key: &[u8], message: &[u8]) -> (r: Option<Vec<u8>>)
    ensures
        r is Some,
        r->0@ == hmac_sha256(key@, message@),
        r->0@.len() == 32,
{
    match <Hmac<Sha256> as KeyInit>::new_from_slice(key) {
        Ok(mut mac) => {
            mac.update(message);
            Some(mac.finalize().into_bytes().to_vec())
        },
        Err(_) => None,
    }
}

/// Bytes in base64, in the alphabet for URLs and without padding.
pub uninterp spec fn base64url(bytes: Seq<u8>) -> Seq<char>;

/// The bytes that a text in base64 writes, in the alphabet for URLs and without padding.
pub uninterp spec fn base64url_read(text: Seq<char>) -> Option<Seq<u8>>;

/// `Engine::encode` of `URL_SAFE_NO_PAD`. It writes four characters for each three bytes, and two
/// or three for what is left of them; decoding gives the bytes back.
#[verifier::external_body]
fn encode_base64(bytes: &[u8]) -> (r: String)
    requires
        bytes@.len() < usize::MAX / 2,
    ensures
        r@ == base64url(bytes@),
        r@.len() == (bytes@.len() * 4 + 2) / 3,
        base64url_read(r@) == Some(bytes@),
{
    URL_SAFE_NO_PAD.encode(bytes)
}

/// `Engine::decode` of `URL_SAFE_NO_PAD`. It reads a text that encoding gives, and no other: no
/// padding, no bits that are left over.
#[verifier::external_body]
fn decode_base64(text: &str) -> (r: Option<Vec<u8>>)
    ensures
        match r {
            Some(bytes) => base64url_read(text@) == Some(bytes@) && base64url(bytes@) == text@,
            None => base64url_read(text@) is None,
        },
{
    URL_SAFE_NO_PAD.decode(text.as_bytes()).ok()
}

/// `ConstantTimeEq::ct_eq` on slices: whether they hold the same bytes.
#[verifier::external_body]
fn equal_in_constant_time(a: &[u8], b: &[u8]) -> (r: bool)
    ensures
        r == (a@ == b@),
{
    a.ct_eq(b).into()
}

// What is done with it.

/// Why requests cannot be checked.
#[derive(Debug, Clone, Copy, PartialEq, Eq, Structural)]
pub enum AuthError {
    /// The key is not written in hexadecimal digits.
    NotHex,
    /// There is no key, and unsigned requests are not allowed either.
    Unconfigured,
}

/// What went wrong, in words.
pub open spec fn auth_message(e: AuthError) -> Seq<char> {
    match e {
        AuthError::NotHex =>
            "DUCKXY_KEY must be hex-encoded bytes; generate one with: openssl rand -hex 32"@,
        AuthError::Unconfigured =>
            "set DUCKXY_KEY, or set DUCKXY_ALLOW_INSECURE=true to run unsigned"@,
    }
}

impl AuthError {
    /// What went wrong, in words.
    pub fn message(&self) -> (r: &'static str)
        ensures
            r@ == auth_message(*self),
    {
        match self {
            AuthError::NotHex => {
                "DUCKXY_KEY must be hex-encoded bytes; generate one with: openssl rand -hex 32"
            },
            AuthError::Unconfigured => {
                "set DUCKXY_KEY, or set DUCKXY_ALLOW_INSECURE=true to run unsigned"
            },
        }
    }
}

/// How requests are checked: with a key, and whether unsigned ones are allowed.
#[derive(Debug, Clone, Default)]
pub struct Auth {
    pub key: Option<Vec<u8>>,
    pub allow_insecure: bool,
}

/// How requests are checked.
pub struct AuthModel {
    pub key: Option<Seq<u8>>,
    pub allow_insecure: bool,
}

impl View for Auth {
    type V = AuthModel;

    open spec fn view(&self) -> AuthModel {
        AuthModel {
            key: match self.key {
                Some(key) => Some(key@),
                None => None,
            },
            allow_insecure: self.allow_insecure,
        }
    }
}

/// How requests are checked with a key, written in hexadecimal digits, that may be missing or
/// blank: then unsigned requests must be allowed.
pub open spec fn auth_of(key: Option<Seq<char>>, allow_insecure: bool) -> Result<
    AuthModel,
    AuthError,
> {
    match key {
        Some(text) if trimmed(text).len() > 0 => if is_hex(trimmed(text)) {
            Ok(AuthModel { key: Some(hex_bytes(trimmed(text))), allow_insecure })
        } else {
            Err(AuthError::NotHex)
        },
        _ => if allow_insecure {
            Ok(AuthModel { key: None, allow_insecure })
        } else {
            Err(AuthError::Unconfigured)
        },
    }
}

impl AuthModel {
    /// The signature of a path, where there is a key.
    pub open spec fn signature(self, path: Seq<char>) -> Option<Seq<char>> {
        match self.key {
            Some(key) => Some(base64url(hmac_sha256(key, encode_utf8(path)))),
            None => None,
        }
    }

    /// A signature lets a path pass: it stands for none and that is allowed, or it reads as the
    /// bytes that the path has under the key.
    pub open spec fn passes(self, signature: Seq<char>, path: Seq<char>) -> bool {
        if signature == "insecure"@ {
            self.allow_insecure
        } else {
            match self.key {
                Some(key) => base64url_read(signature) == Some(
                    hmac_sha256(key, encode_utf8(path)),
                ),
                None => false,
            }
        }
    }
}

impl Auth {
    /// How requests are checked with a key, written in hexadecimal digits, that may be missing or
    /// blank: then unsigned requests must be allowed.
    pub fn new(key_hex: Option<&str>, allow_insecure: bool) -> (r: Result<Auth, AuthError>)
        ensures
            match (
                r,
                auth_of(
                    match key_hex {
                        Some(text) => Some(text@),
                        None => None,
                    },
                    allow_insecure,
                ),
            ) {
                (Ok(auth), Ok(want)) => auth@ == want,
                (Err(e), Err(want)) => e == want,
                _ => false,
            },
    {
        match key_hex {
            Some(text) => {
                let text = trim(text);
                if !text.as_str().is_empty() {
                    return match decode_hex(text.as_str()) {
                        Some(key) => Ok(Auth { key: Some(key), allow_insecure }),
                        None => Err(AuthError::NotHex),
                    };
                }
            },
            None => {},
        }
        if !allow_insecure {
            return Err(AuthError::Unconfigured);
        }
        Ok(Auth { key: None, allow_insecure })
    }

    /// The signature of a path, where there is a key. It is never what stands for none, it lets the
    /// path pass, and it lets no other path pass and helps with no other key, unless the two have
    /// the same code.
    pub fn sign(&self, path: &str) -> (r: Option<String>)
        ensures
            match r {
                Some(signature) => {
                    &&& self@.signature(path@) == Some(signature@)
                    &&& self@.passes(signature@, path@)
                    &&& signature@ != "insecure"@
                    &&& forall|other: AuthModel, to: Seq<char>| #[trigger]
                        other.passes(signature@, to) <==> other.key is Some && hmac_sha256(
                            other.key->0,
                            encode_utf8(to),
                        ) == hmac_sha256(self@.key->0, encode_utf8(path@))
                },
                None => self@.signature(path@) is None,
            },
    {
        let key = match &self.key {
            Some(key) => key,
            None => {
                return None;
            },
        };
        let tag = match authenticate(key.as_slice(), path.as_bytes()) {
            Some(tag) => tag,
            None => {
                return None;
            },
        };
        let signature = encode_base64(tag.as_slice());
        proof {
            reveal_strlit("insecure");
            assert("insecure"@.len() == 8);
            assert(signature@.len() == 43);
        }
        Some(signature)
    }

    /// Whether a signature lets a path pass. Where it is not what stands for none, it does exactly
    /// if it is the signature of the path.
    pub fn verify(&self, signature: &str, path: &str) -> (r: bool)
        ensures
            r == self@.passes(signature@, path@),
            signature@ != "insecure"@ && r ==> self@.signature(path@) == Some(signature@),
    {
        if same(signature, INSECURE) {
            return self.allow_insecure;
        }
        let key = match &self.key {
            Some(key) => key,
            None => {
                return false;
            },
        };
        let provided = match decode_base64(signature) {
            Some(provided) => provided,
            None => {
                return false;
            },
        };
        let tag = match authenticate(key.as_slice(), path.as_bytes()) {
            Some(tag) => tag,
            None => {
                return false;
            },
        };
        equal_in_constant_time(provided.as_slice(), tag.as_slice())
    }
}

/// A path whose signature was checked.
#[derive(Debug, Clone, PartialEq, Eq)]
pub struct SignedPath(pub String);

impl SignedPath {
    /// The path after the signature of a request, where the signature lets it pass.
    pub fn check(auth: &Auth, signature: &str, rest: &str) -> (r: Option<SignedPath>)
        ensures
            match r {
                Some(path) => path.0@ == "/"@ + rest@ && auth@.passes(signature@, path.0@),
                None => !auth@.passes(signature@, "/"@ + rest@),
            },
    {
        let path = joined("/", rest);
        if auth.verify(signature, path.as_str()) {
            Some(SignedPath(path))
        } else {
            None
        }
    }
}

/// Without a key only what stands for no signature lets a path pass, and only where that is
/// allowed.
pub proof fn without_a_key_nothing_else_passes(
    auth: AuthModel,
    signature: Seq<char>,
    path: Seq<char>,
)
    requires
        auth.key is None,
    ensures
        auth.passes(signature, path) <==> signature == "insecure"@ && auth.allow_insecure,
        auth.signature(path) is None,
{
}

/// What stands for no signature lets a path pass exactly where that is allowed, whatever the key.
pub proof fn insecure_passes_only_where_allowed(auth: AuthModel, path: Seq<char>)
    ensures
        auth.passes("insecure"@, path) <==> auth.allow_insecure,
{
}

} // verus!
