//! Ed25519 identities, base64 text encoding of keys and signatures, and
//! canonicalization of JSON bytes.
//!
//! The outside calls (ed25519-dalek, base64, json-syntax) stand behind trusted
//! wrappers; what each call returns is given a name, and the library's own
//! logic is verified against those names.

use vstd::prelude::*;

use base64::Engine;
use core::str::FromStr;
use ed25519_dalek::Signer;
use json_syntax::Print;
use rand::RngCore;

verus! {

/// Number of bytes in an Ed25519 public key.
pub const PUBLIC_KEY_LENGTH: usize = 32;

/// Number of bytes in an Ed25519 secret key.
pub const SECRET_KEY_LENGTH: usize = 32;

/// Number of bytes in an Ed25519 signature.
pub const SIGNATURE_LENGTH: usize = 64;

/// Why a key could not be built from the given text or bytes.
#[derive(Debug, Clone, PartialEq, Eq)]
pub enum NewKeyError {
    /// The input is not base64 in the standard alphabet.
    CannotDecode,
    /// The base64 text decodes to the wrong number of bytes.
    IncorrectLength,
    /// The bytes are not a valid Ed25519 public key.
    InvalidKey,
}

/// The base64 (standard alphabet, padded) encoding of a byte sequence.
pub uninterp spec fn b64_of(bytes: Seq<u8>) -> Seq<char>;

/// What base64 decoding (standard alphabet) returns for a piece of text:
/// the decoded bytes, or `None` when the text is not valid base64.
pub uninterp spec fn b64_parse(text: Seq<char>) -> Option<Seq<u8>>;

/// The Ed25519 public key derived from a 32-byte secret key.
pub uninterp spec fn ed_public_of(secret: Seq<u8>) -> Seq<u8>;

/// Whether 32 bytes decode to a valid Ed25519 public key point.
pub uninterp spec fn ed_pub_valid(key: Seq<u8>) -> bool;

/// The Ed25519 signature of a message under a 32-byte secret key
/// (deterministic per RFC 8032).
pub uninterp spec fn ed_sign(secret: Seq<u8>, message: Seq<u8>) -> Seq<u8>;

/// Whether a 64-byte signature is valid for a message under a 32-byte
/// public key, as decided by strict Ed25519 verification.
pub uninterp spec fn ed_verify(key: Seq<u8>, message: Seq<u8>, signature: Seq<u8>) -> bool;

/// What JSON canonicalization returns for a byte sequence: the canonical
/// (RFC 8785) compact printing of the JSON document the bytes hold, or
/// `None` when the bytes are not a UTF-8 JSON document.
pub uninterp spec fn canon_of(text: Seq<u8>) -> Option<Seq<u8>>;

/// The deepest JSON nesting the canonicalizer is given. The wire format
/// needs depth five; the canonicalizer and printer recurse once per
/// nesting level, so unbounded depth from the network could exhaust the
/// stack.
pub const MAX_JSON_DEPTH: u32 = 64;

/// One step of the bracket-depth scan: inside a string literal nothing
/// counts and escapes are skipped; outside, an opening brace or bracket
/// must stay within the limit, and a closing one steps back (never below
/// zero, so stray closers cannot hide a later deep run).
pub open spec fn depth_within(
    bytes: Seq<u8>,
    i: int,
    depth: int,
    in_string: bool,
    escaped: bool,
    limit: int,
) -> bool
    decreases bytes.len() - i,
{
    if i < 0 || i >= bytes.len() {
        true
    } else {
        let b = bytes[i];
        if in_string {
            if escaped {
                depth_within(bytes, i + 1, depth, true, false, limit)
            } else if b == 92 {
                depth_within(bytes, i + 1, depth, true, true, limit)
            } else if b == 34 {
                depth_within(bytes, i + 1, depth, false, false, limit)
            } else {
                depth_within(bytes, i + 1, depth, true, false, limit)
            }
        } else {
            if b == 34 {
                depth_within(bytes, i + 1, depth, true, false, limit)
            } else if b == 123 || b == 91 {
                depth + 1 <= limit && depth_within(bytes, i + 1, depth + 1, false, false, limit)
            } else if b == 125 || b == 93 {
                depth_within(
                    bytes,
                    i + 1,
                    if depth > 0 {
                        depth - 1
                    } else {
                        0
                    },
                    false,
                    false,
                    limit,
                )
            } else {
                depth_within(bytes, i + 1, depth, false, false, limit)
            }
        }
    }
}

/// Whether a byte sequence's JSON nesting stays within the depth the
/// canonicalizer is allowed.
pub open spec fn depth_bounded(bytes: Seq<u8>) -> bool {
    depth_within(bytes, 0, 0, false, false, MAX_JSON_DEPTH as int)
}

/// Check the nesting depth of a byte sequence before handing it to the
/// canonicalizer.
pub(crate) fn check_depth(bytes: &[u8]) -> (r: bool)
    ensures
        r == depth_bounded(bytes@),
{
    let n = bytes.len();
    let mut i: usize = 0;
    let mut depth: u32 = 0;
    let mut in_string = false;
    let mut escaped = false;
    while i < n
        invariant
            n == bytes@.len(),
            i <= n,
            depth <= MAX_JSON_DEPTH,
            !escaped || in_string,
            depth_bounded(bytes@) == depth_within(
                bytes@,
                i as int,
                depth as int,
                in_string,
                escaped,
                MAX_JSON_DEPTH as int,
            ),
        decreases n - i,
    {
        let b = bytes[i];
        if in_string {
            if escaped {
                escaped = false;
            } else if b == 92 {
                escaped = true;
            } else if b == 34 {
                in_string = false;
            }
        } else {
            if b == 34 {
                in_string = true;
            } else if b == 123 || b == 91 {
                if depth + 1 > MAX_JSON_DEPTH {
                    return false;
                }
                depth = depth + 1;
            } else if b == 125 || b == 93 {
                if depth > 0 {
                    depth = depth - 1;
                }
            }
        }
        i += 1;
    }
    true
}

/// Relies on `base64::engine::general_purpose::STANDARD.encode`: the encoding
/// is a pure function of the input bytes, and decoding inverts it.
#[verifier::external_body]
pub(crate) fn b64_encode(bytes: &[u8]) -> (r: String)
    ensures
        r@ == b64_of(bytes@),
        b64_parse(r@) == Some(bytes@),
{
    base64::engine::general_purpose::STANDARD.encode(bytes)
}

/// Relies on `base64::engine::general_purpose::STANDARD.decode`: the decoding
/// is a pure function of the input text; it fails exactly on text that is not
/// standard-alphabet base64.
#[verifier::external_body]
pub(crate) fn b64_decode(text: &str) -> (r: Option<Vec<u8>>)
    ensures
        match r {
            Some(v) => b64_parse(text@) == Some(v@),
            None => b64_parse(text@) is None,
        },
{
    base64::engine::general_purpose::STANDARD.decode(text).ok()
}

/// Relies on `rand::rngs::OsRng::fill_bytes`: 32 fresh bytes from the
/// operating system's randomness. Nothing beyond the length can be promised
/// of a random value.
#[verifier::external_body]
fn ed_generate_secret() -> (r: Vec<u8>)
    ensures
        r@.len() == 32,
{
    let mut bytes = [0u8; 32];
    rand::rngs::OsRng.fill_bytes(&mut bytes);
    bytes.to_vec()
}

/// Relies on `ed25519_dalek::SigningKey::verifying_key`: the public key is a
/// pure function of the 32 secret bytes, is itself 32 bytes, and is a valid
/// curve point (so `VerifyingKey::from_bytes` accepts it).
#[verifier::external_body]
fn ed_public_exec(secret: &[u8]) -> (r: Vec<u8>)
    requires
        secret@.len() == 32,
    ensures
        r@ == ed_public_of(secret@),
        r@.len() == 32,
        ed_pub_valid(r@),
{
    let bytes: [u8; 32] = secret.try_into().unwrap();
    let signing_key = ed25519_dalek::SigningKey::from_bytes(&bytes);
    signing_key.verifying_key().to_bytes().to_vec()
}

/// Relies on `ed25519_dalek::Signer::sign`: Ed25519 signing is deterministic
/// in the secret key and message (RFC 8032), the signature is 64 bytes, and
/// strict verification under the derived public key accepts it.
#[verifier::external_body]
fn ed_sign_exec(secret: &[u8], message: &[u8]) -> (r: Vec<u8>)
    requires
        secret@.len() == 32,
    ensures
        r@ == ed_sign(secret@, message@),
        r@.len() == 64,
        ed_verify(ed_public_of(secret@), message@, r@),
{
    let bytes: [u8; 32] = secret.try_into().unwrap();
    let signing_key = ed25519_dalek::SigningKey::from_bytes(&bytes);
    signing_key.sign(message).to_bytes().to_vec()
}

/// Relies on `ed25519_dalek::VerifyingKey::from_bytes`: whether 32 bytes
/// decode to a valid public key point is a pure function of the bytes.
#[verifier::external_body]
fn ed_pub_check(key: &[u8]) -> (r: bool)
    requires
        key@.len() == 32,
    ensures
        r == ed_pub_valid(key@),
{
    let bytes: [u8; 32] = key.try_into().unwrap();
    ed25519_dalek::VerifyingKey::from_bytes(&bytes).is_ok()
}

/// Relies on `ed25519_dalek::VerifyingKey::verify_strict`: whether the
/// signature is valid for the message under the key is a pure function of
/// the three byte sequences.
#[verifier::external_body]
fn ed_verify_exec(key: &[u8], message: &[u8], signature: &[u8]) -> (r: bool)
    requires
        key@.len() == 32,
        ed_pub_valid(key@),
        signature@.len() == 64,
    ensures
        r == ed_verify(key@, message@, signature@),
{
    let key_bytes: [u8; 32] = key.try_into().unwrap();
    let sig_bytes: [u8; 64] = signature.try_into().unwrap();
    let verifying_key = ed25519_dalek::VerifyingKey::from_bytes(&key_bytes).unwrap();
    let signature = ed25519_dalek::Signature::from_bytes(&sig_bytes);
    verifying_key.verify_strict(message, &signature).is_ok()
}

/// Relies on `json_syntax::Value::from_str`, `Value::canonicalize` and
/// compact printing: parse the bytes as a UTF-8 JSON document and print it
/// in canonical form (RFC 8785; numbers beyond double precision go through
/// a lossy conversion there). The result is a pure function of the input
/// bytes; `None` exactly when the bytes are not a UTF-8 JSON document.
/// The output is itself canonical, so canonicalizing it returns it
/// unchanged (keys are already sorted, and the number printing re-parses
/// to the same double). The canonicalizer, the printer and the value's
/// drop recurse once per nesting level, so the input's depth must be
/// bounded first.
#[verifier::external_body]
pub fn canonical_json(text: &[u8]) -> (r: Option<Vec<u8>>)
    requires
        depth_bounded(text@),
    ensures
        match r {
            Some(v) => canon_of(text@) == Some(v@) && canon_of(v@) == Some(v@),
            None => canon_of(text@) is None,
        },
{
    let text = match core::str::from_utf8(text) {
        Ok(text) => text,
        Err(_) => return None,
    };
    let mut value = match json_syntax::Value::from_str(text) {
        Ok(value) => value,
        Err(_) => return None,
    };
    value.canonicalize();
    Some(value.compact_print().to_string().into_bytes())
}

/// An Ed25519 public key: 32 bytes that decode to a valid curve point.
/// Public keys double as peer identity and are compared by byte identity.
#[derive(Debug, Clone, PartialEq, Eq, Hash)]
pub struct PublicKey {
    bytes: Vec<u8>,
}

impl View for PublicKey {
    type V = Seq<u8>;

    closed spec fn view(&self) -> Seq<u8> {
        self.bytes@
    }
}

impl DeepView for PublicKey {
    type V = Seq<u8>;

    open spec fn deep_view(&self) -> Seq<u8> {
        self@
    }
}

impl PublicKey {
    /// A well-formed public key: 32 bytes forming a valid curve point.
    pub open spec fn wf(&self) -> bool {
        self@.len() == 32 && ed_pub_valid(self@)
    }

    /// Build a public key from base64 text.
    pub fn new_from_b64(b64_string: &str) -> (r: Result<Self, NewKeyError>)
        ensures
            match r {
                Ok(k) => k.wf() && b64_parse(b64_string@) == Some(k@),
                Err(NewKeyError::CannotDecode) => b64_parse(b64_string@) is None,
                Err(NewKeyError::IncorrectLength) => (b64_parse(b64_string@) matches Some(b)
                    && b.len() != 32),
                Err(NewKeyError::InvalidKey) => (b64_parse(b64_string@) matches Some(b)
                    && b.len() == 32 && !ed_pub_valid(b)),
            },
    {
        match b64_decode(b64_string) {
            None => Err(NewKeyError::CannotDecode),
            Some(bytes) => {
                if bytes.len() != PUBLIC_KEY_LENGTH {
                    Err(NewKeyError::IncorrectLength)
                } else {
                    Self::new_from_bytes(bytes)
                }
            },
        }
    }

    /// Build a public key from 32 raw bytes.
    pub fn new_from_bytes(bytes: Vec<u8>) -> (r: Result<Self, NewKeyError>)
        requires
            bytes@.len() == 32,
        ensures
            match r {
                Ok(k) => k.wf() && k@ == bytes@,
                Err(e) => e == NewKeyError::InvalidKey && !ed_pub_valid(bytes@),
            },
    {
        if ed_pub_check(bytes.as_slice()) {
            Ok(PublicKey { bytes })
        } else {
            Err(NewKeyError::InvalidKey)
        }
    }

    /// The raw 32 key bytes.
    pub fn as_bytes(&self) -> (r: &[u8])
        ensures
            r@ == self@,
    {
        self.bytes.as_slice()
    }

    /// The base64 text form of the key.
    pub fn to_string(&self) -> (r: String)
        ensures
            r@ == b64_of(self@),
            b64_parse(r@) == Some(self@),
    {
        b64_encode(self.bytes.as_slice())
    }

    /// An owned copy of the key.
    pub fn duplicate(&self) -> (r: Self)
        ensures
            r@ == self@,
            r.wf() == self.wf(),
    {
        let mut bytes: Vec<u8> = Vec::new();
        bytes.extend_from_slice(self.bytes.as_slice());
        assert(bytes@ == self.bytes@);
        PublicKey { bytes }
    }

    /// Whether two keys hold the same bytes.
    pub fn same_key(&self, other: &PublicKey) -> (r: bool)
        ensures
            r == (self@ == other@),
    {
        bytes_eq(self.bytes.as_slice(), other.bytes.as_slice())
    }

    /// Verify a base64 signature over a message under this key.
    pub(crate) fn verify(&self, message: &[u8], signature_b64: &str) -> (r: bool)
        requires
            self.wf(),
        ensures
            r == (b64_parse(signature_b64@) matches Some(s) && s.len() == 64
                && ed_verify(self@, message@, s)),
    {
        match b64_decode(signature_b64) {
            None => false,
            Some(sig_bytes) => {
                if sig_bytes.len() != SIGNATURE_LENGTH {
                    false
                } else {
                    ed_verify_exec(self.bytes.as_slice(), message, sig_bytes.as_slice())
                }
            },
        }
    }
}

/// An Ed25519 secret key: 32 bytes. Any 32 bytes are a valid secret key.
#[derive(Debug, Clone, PartialEq, Eq)]
pub struct SecretKey {
    bytes: Vec<u8>,
}

impl View for SecretKey {
    type V = Seq<u8>;

    closed spec fn view(&self) -> Seq<u8> {
        self.bytes@
    }
}

impl SecretKey {
    /// A well-formed secret key: exactly 32 bytes.
    pub open spec fn wf(&self) -> bool {
        self@.len() == 32
    }

    /// Generate a fresh random secret key.
    pub fn generate() -> (r: Self)
        ensures
            r.wf(),
    {
        SecretKey { bytes: ed_generate_secret() }
    }

    /// Build a secret key from base64 text.
    pub fn new_from_b64(b64_string: &str) -> (r: Result<Self, NewKeyError>)
        ensures
            match r {
                Ok(k) => k.wf() && b64_parse(b64_string@) == Some(k@),
                Err(NewKeyError::CannotDecode) => b64_parse(b64_string@) is None,
                Err(NewKeyError::IncorrectLength) => (b64_parse(b64_string@) matches Some(b)
                    && b.len() != 32),
                Err(NewKeyError::InvalidKey) => false,
            },
    {
        match b64_decode(b64_string) {
            None => Err(NewKeyError::CannotDecode),
            Some(bytes) => {
                if bytes.len() != SECRET_KEY_LENGTH {
                    Err(NewKeyError::IncorrectLength)
                } else {
                    Ok(SecretKey { bytes })
                }
            },
        }
    }

    /// Build a secret key from 32 raw bytes.
    pub fn new_from_bytes(bytes: Vec<u8>) -> (r: Self)
        requires
            bytes@.len() == 32,
        ensures
            r@ == bytes@,
            r.wf(),
    {
        SecretKey { bytes }
    }

    /// The raw 32 secret bytes.
    pub fn as_bytes(&self) -> (r: &[u8])
        ensures
            r@ == self@,
    {
        self.bytes.as_slice()
    }

    /// The base64 text form of the secret key.
    pub fn to_string(&self) -> (r: String)
        ensures
            r@ == b64_of(self@),
            b64_parse(r@) == Some(self@),
    {
        b64_encode(self.bytes.as_slice())
    }

    /// The public key belonging to this secret key.
    pub fn public_key(&self) -> (r: PublicKey)
        requires
            self.wf(),
        ensures
            r@ == ed_public_of(self@),
            r.wf(),
    {
        PublicKey { bytes: ed_public_exec(self.bytes.as_slice()) }
    }

    /// An owned copy of the secret key.
    pub fn duplicate(&self) -> (r: Self)
        ensures
            r@ == self@,
            r.wf() == self.wf(),
    {
        let mut bytes: Vec<u8> = Vec::new();
        bytes.extend_from_slice(self.bytes.as_slice());
        assert(bytes@ == self.bytes@);
        SecretKey { bytes }
    }

    /// Sign a message; the result is the base64 text of the 64-byte
    /// Ed25519 signature, which verifies under this key's public key.
    pub(crate) fn sign_b64(&self, message: &[u8]) -> (r: String)
        requires
            self.wf(),
        ensures
            r@ == b64_of(ed_sign(self@, message@)),
            b64_parse(r@) == Some(ed_sign(self@, message@)),
            ed_sign(self@, message@).len() == 64,
            ed_verify(ed_public_of(self@), message@, ed_sign(self@, message@)),
    {
        let signature = ed_sign_exec(self.bytes.as_slice(), message);
        b64_encode(signature.as_slice())
    }
}

/// Whether two byte slices hold the same bytes.
pub(crate) fn bytes_eq(a: &[u8], b: &[u8]) -> (r: bool)
    ensures
        r == (a@ == b@),
{
    if a.len() != b.len() {
        assert(a@ != b@) by {
            assert(a@.len() != b@.len());
        }
        return false;
    }
    let n = a.len();
    let mut i: usize = 0;
    while i < n
        invariant
            n == a@.len() == b@.len(),
            i <= n,
            forall|k: int| 0 <= k < i ==> a@[k] == b@[k],
        decreases n - i,
    {
        if a[i] != b[i] {
            return false;
        }
        i += 1;
    }
    assert(a@ =~= b@);
    true
}

} // verus!
