//! X25519 key pairs in their printable form.
//!
//! A key is 32 bytes, written in standard base64 with padding: 44
//! characters. The public key of a pair is always computed from the
//! private one; the two are never made independently.

use crate::error::ConfigError;
use crate::text::{chars_of, free_of};
use vstd::prelude::*;

verus! {

/// The standard base64 text, with padding, of a byte sequence: what
/// `base64`'s `STANDARD` engine encodes it to.
pub uninterp spec fn base64_standard(bytes: Seq<u8>) -> Seq<char>;

/// The bytes that a text decodes to under `base64`'s `STANDARD` engine,
/// or `None` where that engine rejects the text.
pub uninterp spec fn base64_standard_decoded(text: Seq<char>) -> Option<Seq<u8>>;

/// The X25519 public key of a 32-byte secret: the secret, clamped, times
/// the curve's base point, as `x25519_dalek` computes it.
pub uninterp spec fn x25519_public(secret: Seq<u8>) -> Seq<u8>;

/// `rand_core::Error`, the failure of a random source. It is carried
/// through; nothing is read from it.
#[verifier::external_type_specification]
#[verifier::external_body]
pub struct ExEntropyError(rand_core::Error);

/// `base64::DecodeError`, the reason a text does not decode. It is
/// carried through; nothing is read from it.
#[verifier::external_type_specification]
#[verifier::external_body]
pub struct ExDecodeError(base64::DecodeError);

/// A character of the standard base64 alphabet.
pub open spec fn is_base64_char(c: char) -> bool {
    ('A' <= c && c <= 'Z') || ('a' <= c && c <= 'z') || ('0' <= c && c <= '9') || c == '+' || c
        == '/'
}

/// The shape of a key in print: 43 characters of the base64 alphabet
/// and one `=` of padding.
pub open spec fn is_key_text(t: Seq<char>) -> bool {
    &&& t.len() == 44
    &&& forall|i: int| 0 <= i < 43 ==> is_base64_char(#[trigger] t[i])
    &&& t[43] == '='
}

/// A key in print holds none of the characters outside the base64
/// alphabet and `=`.
pub proof fn lemma_key_text_free_of(t: Seq<char>, c: char)
    requires
        is_key_text(t),
        !is_base64_char(c),
        c != '=',
    ensures
        free_of(t, c),
{
    assert forall|i: int| 0 <= i < t.len() implies t[i] != c by {
        if i < 43 {
            assert(is_base64_char(t[i]));
        }
    }
}

/// The text decodes, and to 32 bytes.
pub open spec fn decodes_to_key(text: Seq<char>) -> bool {
    base64_standard_decoded(text) matches Some(bytes) && bytes.len() == 32
}

/// A key pair in print.
#[derive(Debug)]
pub struct KeyPair {
    pub public: String,
    pub private: String,
}

/// What a key pair holds.
pub struct KeyPairView {
    pub public: Seq<char>,
    pub private: Seq<char>,
}

impl KeyPairView {
    /// Both keys have the shape of a key in print.
    pub open spec fn wf(self) -> bool {
        is_key_text(self.public) && is_key_text(self.private)
    }

    /// The pair is the one that belongs to `secret`: the private key is
    /// the secret in print, the public key is the X25519 public key of
    /// the secret in print.
    pub open spec fn derived_from(self, secret: Seq<u8>) -> bool {
        &&& secret.len() == 32
        &&& x25519_public(secret).len() == 32
        &&& self.private == base64_standard(secret)
        &&& self.public == base64_standard(x25519_public(secret))
    }

    /// The pair belongs to some 32-byte secret.
    pub open spec fn is_derived(self) -> bool {
        exists|secret: Seq<u8>| self.derived_from(secret)
    }
}

impl View for KeyPair {
    type V = KeyPairView;

    open spec fn view(&self) -> KeyPairView {
        KeyPairView { public: self.public@, private: self.private@ }
    }
}

impl Clone for KeyPair {
    fn clone(&self) -> (copy: KeyPair)
        ensures
            copy@ == self@,
    {
        KeyPair { public: self.public.clone(), private: self.private.clone() }
    }
}

/// Draws 32 bytes from the operating system's random source through
/// `rand_core::OsRng::try_fill_bytes`. Nothing is claimed of the bytes,
/// nor of when the source fails.
#[verifier::external_body]
fn os_random_secret() -> (drawn: Result<[u8; 32], rand_core::Error>) {
    let mut bytes = [0u8; 32];
    match rand_core::RngCore::try_fill_bytes(&mut rand_core::OsRng, &mut bytes) {
        Ok(()) => Ok(bytes),
        Err(e) => Err(e),
    }
}

/// Computes the public key of a secret with `x25519_dalek`:
/// `PublicKey::from` on the `StaticSecret` made of the bytes. The result
/// depends on the bytes alone.
#[verifier::external_body]
fn x25519_public_key(secret: &[u8; 32]) -> (public: [u8; 32])
    ensures
        public@ == x25519_public(secret@),
{
    x25519_dalek::PublicKey::from(&x25519_dalek::StaticSecret::from(*secret)).to_bytes()
}

/// Encodes 32 bytes with `base64`'s `STANDARD` engine (`Engine::encode`).
/// Ten full groups of three bytes and one group of two give 43
/// characters of the alphabet and one `=`.
#[verifier::external_body]
fn base64_encode_key(bytes: &[u8; 32]) -> (text: String)
    ensures
        text@ == base64_standard(bytes@),
        is_key_text(text@),
{
    base64::Engine::encode(&base64::engine::general_purpose::STANDARD, bytes)
}

/// Decodes a text with `base64`'s `STANDARD` engine (`Engine::decode`).
/// The result depends on the text alone, and a text that is the encoding
/// of some bytes decodes to those bytes.
#[verifier::external_body]
fn base64_decode(text: &str) -> (decoded: Result<Vec<u8>, base64::DecodeError>)
    ensures
        match decoded {
            Ok(bytes) => {
                &&& base64_standard_decoded(text@) == Some(bytes@)
                &&& forall|b: Seq<u8>| #[trigger] base64_standard(b) == text@ ==> b == bytes@
            },
            Err(_) => {
                &&& base64_standard_decoded(text@) is None
                &&& forall|b: Seq<u8>| #[trigger] base64_standard(b) != text@
            },
        },
{
    base64::Engine::decode(&base64::engine::general_purpose::STANDARD, text)
}

/// The key pair that belongs to a secret.
pub fn keypair_from_secret(secret: &[u8; 32]) -> (pair: KeyPair)
    ensures
        pair@.derived_from(secret@),
        pair@.wf(),
{
    let public = x25519_public_key(secret);
    KeyPair { public: base64_encode_key(&public), private: base64_encode_key(secret) }
}

/// The key pair for what the random source gave: the pair of the secret
/// that was drawn, or `EntropyUnavailable` where the source failed.
pub fn keypair_from_entropy(drawn: Result<[u8; 32], rand_core::Error>) -> (r: Result<
    KeyPair,
    ConfigError,
>)
    ensures
        match drawn {
            Ok(secret) => r matches Ok(pair) && pair@.derived_from(secret@) && pair@.wf(),
            Err(_) => r matches Err(e) && e == ConfigError::EntropyUnavailable,
        },
{
    match drawn {
        Ok(secret) => Ok(keypair_from_secret(&secret)),
        Err(_) => Err(ConfigError::EntropyUnavailable),
    }
}

/// Generates a fresh key pair from 32 random bytes.
///
/// Whatever the random source gives, a pair that comes back belongs to
/// some 32-byte secret, and the only failure is `EntropyUnavailable`.
pub fn generate_keypair() -> (r: Result<KeyPair, ConfigError>)
    ensures
        match r {
            Ok(pair) => pair@.is_derived() && pair@.wf(),
            Err(e) => e == ConfigError::EntropyUnavailable,
        },
{
    keypair_from_entropy(os_random_secret())
}

/// The 32 bytes that a key in print stands for.
///
/// `Some` exactly when the text decodes, and decodes to 32 bytes; the
/// encoding of 32 bytes always decodes to them.
pub fn decode_key(text: &str) -> (r: Option<[u8; 32]>)
    ensures
        match r {
            Some(key) => base64_standard_decoded(text@) == Some(key@),
            None => !decodes_to_key(text@),
        },
        forall|b: Seq<u8>|
            b.len() == 32 && #[trigger] base64_standard(b) == text@ ==> (r matches Some(key)
                && key@ == b),
{
    match base64_decode(text) {
        Ok(bytes) => {
            if bytes.len() != 32 {
                return None;
            }
            let mut key = [0u8; 32];
            let mut i: usize = 0;
            while i < 32
                invariant
                    i <= 32,
                    bytes.len() == 32,
                    forall|j: int| 0 <= j < i ==> key@[j] == bytes@[j],
                decreases 32 - i,
            {
                key[i] = bytes[i];
                i += 1;
            }
            assert(key@ =~= bytes@);
            Some(key)
        },
        Err(_) => None,
    }
}

fn is_base64_char_exec(c: char) -> (r: bool)
    ensures
        r == is_base64_char(c),
{
    (c >= 'A' && c <= 'Z') || (c >= 'a' && c <= 'z') || (c >= '0' && c <= '9') || c == '+' || c
        == '/'
}

/// Whether a text has the shape of a key in print.
pub fn has_key_shape(text: &str) -> (r: bool)
    ensures
        r == is_key_text(text@),
{
    let v = chars_of(text);
    if v.len() != 44 {
        return false;
    }
    let mut i: usize = 0;
    while i < 43
        invariant
            i <= 43,
            v.len() == 44,
            v@ == text@,
            forall|j: int| 0 <= j < i ==> is_base64_char(#[trigger] v@[j]),
        decreases 43 - i,
    {
        if !is_base64_char_exec(v[i]) {
            assert(!is_base64_char(v@[i as int]));
            return false;
        }
        i += 1;
    }
    v[43] == '='
}

impl KeyPair {
    /// Whether both keys have the shape of a key in print.
    pub fn is_well_formed(&self) -> (r: bool)
        ensures
            r == self@.wf(),
    {
        has_key_shape(self.public.as_str()) && has_key_shape(self.private.as_str())
    }

    /// The bytes of both keys, private first.
    ///
    /// `Some` exactly when each key decodes to 32 bytes. A pair that
    /// belongs to a secret always decodes, to that secret and to its
    /// X25519 public key.
    pub fn raw_keys(&self) -> (r: Option<([u8; 32], [u8; 32])>)
        ensures
            match r {
                Some((private, public)) => {
                    &&& base64_standard_decoded(self@.private) == Some(private@)
                    &&& base64_standard_decoded(self@.public) == Some(public@)
                },
                None => !(decodes_to_key(self@.private) && decodes_to_key(self@.public)),
            },
            forall|secret: Seq<u8>| #[trigger]
                self@.derived_from(secret) ==> (r matches Some((private, public)) && private@
                    == secret && public@ == x25519_public(secret)),
    {
        let private = match decode_key(self.private.as_str()) {
            Some(key) => key,
            None => {
                return None;
            },
        };
        let public = match decode_key(self.public.as_str()) {
            Some(key) => key,
            None => {
                return None;
            },
        };
        Some((private, public))
    }

    /// Whether the pair belongs to a secret: whether the private key
    /// decodes to 32 bytes whose key pair is this one.
    pub fn is_consistent(&self) -> (r: bool)
        ensures
            r == self@.is_derived(),
    {
        match decode_key(self.private.as_str()) {
            Some(secret) => {
                let again = keypair_from_secret(&secret);
                let same = again.private == self.private && again.public == self.public;
                proof {
                    if same {
                        assert(self@.derived_from(secret@));
                    } else if self@.is_derived() {
                        let s = choose|s: Seq<u8>| self@.derived_from(s);
                        assert(base64_standard(s) == self.private@);
                        assert(secret@ == s);
                    }
                }
                same
            },
            None => {
                proof {
                    if self@.is_derived() {
                        let s = choose|s: Seq<u8>| self@.derived_from(s);
                        assert(base64_standard(s) == self.private@);
                    }
                }
                false
            },
        }
    }
}

} // verus!
