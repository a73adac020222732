//! Credential codec: authenticated encryption of a `username:password` pair
//! into a portable token and back.
//!
//! A token is the base64url (no padding) encoding of `nonce(12 bytes) ||
//! ciphertext`, where the ciphertext seals the UTF-8 bytes of
//! `username:password` under a 256-bit key and that nonce. A fresh random
//! nonce is drawn on every encryption; decryption fails closed on any
//! tampering.

use vstd::prelude::*;

use aes_gcm::aead::Aead;
use aes_gcm::aead::AeadCore;
use aes_gcm::aead::OsRng;
use aes_gcm::KeyInit;
use base64::Engine;

verus! {

use vstd::string::*;
use vstd::utf8::*;

/// Why a token could not be decoded. Every case is terminal: the token is
/// treated as corrupt or hostile, never as a transient condition.
#[derive(Debug, Clone, Copy, PartialEq, Eq, Structural)]
pub enum CodecError {
    /// The token is not canonical base64url without padding.
    Base64,
    /// The decoded bytes are shorter than one nonce.
    Truncated,
    /// Authenticated decryption rejected the ciphertext.
    Crypto,
    /// The recovered plaintext is not UTF-8.
    Encoding,
    /// The recovered plaintext holds no `:` separator.
    Separator,
}

/// The canonical base64url (no padding) text of a byte sequence.
pub uninterp spec fn b64url_of(bytes: Seq<u8>) -> Seq<char>;

/// The AES-256-GCM sealing (ciphertext followed by its tag) of a plaintext
/// under a key and nonce.
pub uninterp spec fn seal_of(key: Seq<u8>, nonce: Seq<u8>, plain: Seq<u8>) -> Seq<u8>;

/// Longest plaintext handed to one sealing; far below the cipher's limit.
pub const SEAL_PLAIN_MAX: usize = 0x1000_0000;

/// Relies on `base64::engine::general_purpose::URL_SAFE_NO_PAD.encode`:
/// the canonical unpadded base64url text of the input bytes.
#[verifier::external_body]
fn b64url_encode(bytes: &Vec<u8>) -> (r: String)
    ensures
        r@ == b64url_of(bytes@),
{
    base64::engine::general_purpose::URL_SAFE_NO_PAD.encode(bytes)
}

/// Relies on `base64::engine::general_purpose::URL_SAFE_NO_PAD.decode`:
/// it accepts exactly the canonical unpadded base64url texts (its config
/// rejects padding and non-zero trailing bits) and returns the encoded bytes.
#[verifier::external_body]
fn b64url_decode(text: &str) -> (r: Option<Vec<u8>>)
    ensures
        r matches Some(v) ==> text@ == b64url_of(v@),
        r matches Some(v) ==> forall|b: Seq<u8>| text@ == #[trigger] b64url_of(b) ==> v@ == b,
        r is None ==> forall|b: Seq<u8>| text@ != #[trigger] b64url_of(b),
{
    base64::engine::general_purpose::URL_SAFE_NO_PAD.decode(text).ok()
}

/// Relies on `aes_gcm::aead::AeadCore::generate_nonce` over the operating
/// system's randomness: 12 freshly drawn random bytes.
#[verifier::external_body]
fn fresh_nonce() -> (r: Vec<u8>)
    ensures
        r@.len() == 12,
{
    aes_gcm::Aes256Gcm::generate_nonce(&mut OsRng).to_vec()
}

/// Relies on `aes_gcm::aead::Aead::encrypt` for AES-256-GCM: the sealing is
/// a function of key, nonce and plaintext alone, and the call succeeds for
/// every plaintext within the cipher's length bound.
#[verifier::external_body]
fn aead_seal(key: &Vec<u8>, nonce: &Vec<u8>, plain: &Vec<u8>) -> (r: Vec<u8>)
    requires
        key@.len() == 32,
        nonce@.len() == 12,
        plain@.len() <= SEAL_PLAIN_MAX,
    ensures
        r@ == seal_of(key@, nonce@, plain@),
{
    let cipher = aes_gcm::Aes256Gcm::new(aes_gcm::Key::<aes_gcm::Aes256Gcm>::from_slice(key));
    let nonce = aes_gcm::Nonce::from_slice(nonce);
    cipher.encrypt(nonce, plain.as_slice()).unwrap()
}

/// Relies on `aes_gcm::aead::Aead::decrypt` for AES-256-GCM: it recovers
/// exactly the plaintext of a sealing made under the same key and nonce, and
/// rejects every other input.
#[verifier::external_body]
fn aead_open(key: &Vec<u8>, nonce: &Vec<u8>, sealed: &Vec<u8>) -> (r: Option<Vec<u8>>)
    requires
        key@.len() == 32,
        nonce@.len() == 12,
    ensures
        r matches Some(q) ==> sealed@ == seal_of(key@, nonce@, q@),
        r matches Some(q) ==> forall|p: Seq<u8>| sealed@ == #[trigger] seal_of(key@, nonce@, p)
            ==> q@ == p,
        r is None ==> forall|p: Seq<u8>| sealed@ != #[trigger] seal_of(key@, nonce@, p),
{
    let cipher = aes_gcm::Aes256Gcm::new(aes_gcm::Key::<aes_gcm::Aes256Gcm>::from_slice(key));
    let nonce = aes_gcm::Nonce::from_slice(nonce);
    cipher.decrypt(nonce, sealed.as_slice()).ok()
}

/// Relies on `String::from_utf8`: it returns the string whose UTF-8 bytes
/// are the input exactly when the input is valid UTF-8.
#[verifier::external_body]
fn string_from_utf8(bytes: Vec<u8>) -> (r: Option<String>)
    ensures
        r matches Some(t) ==> valid_utf8(bytes@) && t@ == decode_utf8(bytes@),
        r is None ==> !valid_utf8(bytes@),
{
    String::from_utf8(bytes).ok()
}

/// Every scalar encoding takes at most four bytes.
proof fn lemma_encode_utf8_len(chars: Seq<char>)
    ensures
        encode_utf8(chars).len() <= 4 * chars.len(),
    decreases chars.len(),
{
    if chars.len() != 0 {
        lemma_encode_utf8_len(chars.drop_first());
    }
}

/// The bytes of `a` followed by the bytes of `b`.
fn vec_concat(a: &Vec<u8>, b: &Vec<u8>) -> (r: Vec<u8>)
    ensures
        r@ == a@ + b@,
{
    let mut out: Vec<u8> = Vec::new();
    let mut i: usize = 0;
    while i < a.len()
        invariant
            i <= a@.len(),
            out@ == a@.subrange(0, i as int),
        decreases a@.len() - i,
    {
        out.push(a[i]);
        i += 1;
    }
    proof {
        assert(out@ =~= a@);
    }
    let mut j: usize = 0;
    while j < b.len()
        invariant
            j <= b@.len(),
            out@ == a@ + b@.subrange(0, j as int),
        decreases b@.len() - j,
    {
        out.push(b[j]);
        proof {
            assert(a@ + b@.subrange(0, j as int) + seq![b@[j as int]] =~= a@ + b@.subrange(
                0,
                j + 1,
            ));
        }
        j += 1;
    }
    proof {
        assert(a@ + b@.subrange(0, b@.len() as int) =~= a@ + b@);
    }
    out
}

/// The bytes of `v` between `from` and `to`.
fn vec_subrange(v: &Vec<u8>, from: usize, to: usize) -> (r: Vec<u8>)
    requires
        from <= to <= v@.len(),
    ensures
        r@ == v@.subrange(from as int, to as int),
{
    let mut out: Vec<u8> = Vec::new();
    let mut i: usize = from;
    while i < to
        invariant
            from <= i <= to <= v@.len(),
            out@ == v@.subrange(from as int, i as int),
        decreases to - i,
    {
        out.push(v[i]);
        proof {
            assert(v@.subrange(from as int, i as int) + seq![v@[i as int]] =~= v@.subrange(
                from as int,
                i + 1,
            ));
        }
        i += 1;
    }
    out
}

/// The UTF-8 bytes of `username:password`.
pub open spec fn credential_plain(u: Seq<char>, p: Seq<char>) -> Seq<u8> {
    encode_utf8(u + seq![':'] + p)
}

/// The token text produced for the given key, nonce and credentials.
pub open spec fn token_of(key: Seq<u8>, nonce: Seq<u8>, u: Seq<char>, p: Seq<char>) -> Seq<char> {
    b64url_of(nonce + seal_of(key, nonce, credential_plain(u, p)))
}

/// Splits a recovered plaintext at its first `:`.
pub fn split_credentials(s: &str) -> (r: Option<(String, String)>)
    ensures
        r matches Some(c) ==> exists|i: int|
            0 <= i < s@.len() && #[trigger] s@[i] == ':' && (forall|j: int|
                0 <= j < i ==> s@[j] != ':') && c.0@ == s@.subrange(0, i) && c.1@ == s@.subrange(
                i + 1,
                s@.len() as int,
            ),
        r is None <==> !s@.contains(':'),
{
    let n = s.unicode_len();
    let colon = match crate::text::find_char_from(s, 0, ':') {
        Some(i) => i,
        None => {
            proof {
                assert(!s@.contains(':')) by {
                    if s@.contains(':') {
                        let i = s@.index_of(':');
                        assert(s@[i] == ':');
                    }
                }
            }
            return None;
        },
    };
    let user = s.substring_char(0, colon).to_owned();
    let pass = s.substring_char(colon + 1, n).to_owned();
    proof {
        assert(s@[colon as int] == ':');
        assert(s@.contains(':'));
    }
    Some((user, pass))
}

/// Holds the symmetric key and turns credentials into portable tokens and
/// back. One key is provisioned at process start; the codec never exposes it.
pub struct Encrypter {
    key: Vec<u8>,
}

impl Encrypter {
    #[verifier::type_invariant]
    spec fn inv(&self) -> bool {
        self.key@.len() == 32
    }

    /// The key this codec was built with.
    pub closed spec fn key(&self) -> Seq<u8> {
        self.key@
    }

    /// A codec over the given 256-bit key; any other key length is refused.
    pub fn new(key: Vec<u8>) -> (r: Option<Encrypter>)
        ensures
            r is Some <==> key@.len() == 32,
            r matches Some(e) ==> e.key() == key@,
    {
        if key.len() == 32 {
            Some(Encrypter { key })
        } else {
            None
        }
    }

    /// Encrypts `username:password` under a fresh random 12-byte nonce and
    /// returns the base64url token of `nonce || ciphertext`.
    pub fn encrypt(&self, username: &str, password: &str) -> (r: String)
        requires
            username@.len() + password@.len() + 1 <= 0x100_0000,
        ensures
            exists|n: Seq<u8>| n.len() == 12 && r@ == #[trigger] token_of(
                self.key(),
                n,
                username@,
                password@,
            ),
    {
        proof {
            use_type_invariant(self);
        }
        let mut plain_text = username.to_owned();
        plain_text.append(":");
        plain_text.append(password);
        proof {
            reveal_strlit(":");
            assert(plain_text@ =~= username@ + seq![':'] + password@);
            lemma_encode_utf8_len(plain_text@);
        }
        let plain = plain_text.as_str().as_bytes_vec();
        let nonce = fresh_nonce();
        let sealed = aead_seal(&self.key, &nonce, &plain);
        let packed = vec_concat(&nonce, &sealed);
        let token = b64url_encode(&packed);
        proof {
            assert(token@ == token_of(self.key(), nonce@, username@, password@));
        }
        token
    }

    /// Encrypts after checking the length bound that `encrypt` asks for:
    /// credentials too long for one sealing come back as `None`.
    pub fn try_encrypt(&self, username: &str, password: &str) -> (r: Option<String>)
        ensures
            r is Some <==> username@.len() + password@.len() + 1 <= 0x100_0000,
            r matches Some(t) ==> exists|n: Seq<u8>| n.len() == 12 && t@ == #[trigger] token_of(
                self.key(),
                n,
                username@,
                password@,
            ),
    {
        let ulen = username.unicode_len();
        let plen = password.unicode_len();
        if ulen < 0x100_0000 && plen < 0x100_0000 && ulen + plen + 1 <= 0x100_0000 {
            Some(self.encrypt(username, password))
        } else {
            None
        }
    }

    /// Decodes a portable token back into `(username, password)`.
    ///
    /// Fails closed: exactly the tokens of the shape `base64url(nonce ||
    /// sealing)` under this codec's key, whose plaintext is UTF-8 with a `:`,
    /// are accepted. A token made for a username without `:` decodes to the
    /// credentials it was made from.
    pub fn decrypt(&self, token: &str) -> (r: Result<(String, String), CodecError>)
        ensures
            forall|n: Seq<u8>, u: Seq<char>, p: Seq<char>|
                n.len() == 12 && !u.contains(':') && token@ == #[trigger] token_of(
                    self.key(),
                    n,
                    u,
                    p,
                ) ==> (r matches Ok(c) && c.0@ == u && c.1@ == p),
            r == Err::<(String, String), CodecError>(CodecError::Base64) <==> (forall|b: Seq<u8>|
                token@ != #[trigger] b64url_of(b)),
            r == Err::<(String, String), CodecError>(CodecError::Truncated) <==> (exists|b: Seq<u8>|
                token@ == #[trigger] b64url_of(b) && b.len() < 12),
            r == Err::<(String, String), CodecError>(CodecError::Crypto) <==> (exists|b: Seq<u8>|
                token@ == #[trigger] b64url_of(b) && b.len() >= 12 && (forall|q: Seq<u8>|
                    b.skip(12) != #[trigger] seal_of(self.key(), b.take(12), q))),
            r == Err::<(String, String), CodecError>(CodecError::Encoding) <==> (exists|
                b: Seq<u8>,
                q: Seq<u8>,
            |
                token@ == b64url_of(b) && b.len() >= 12 && b.skip(12) == #[trigger] seal_of(
                    self.key(),
                    b.take(12),
                    q,
                ) && !valid_utf8(q)),
            r == Err::<(String, String), CodecError>(CodecError::Separator) <==> (exists|
                b: Seq<u8>,
                q: Seq<u8>,
            |
                token@ == b64url_of(b) && b.len() >= 12 && b.skip(12) == #[trigger] seal_of(
                    self.key(),
                    b.take(12),
                    q,
                ) && valid_utf8(q) && !decode_utf8(q).contains(':')),
            r matches Ok(c) ==> exists|b: Seq<u8>, q: Seq<u8>|
                token@ == b64url_of(b) && b.len() >= 12 && b.skip(12) == #[trigger] seal_of(
                    self.key(),
                    b.take(12),
                    q,
                ) && valid_utf8(q) && exists|i: int|
                    0 <= i < decode_utf8(q).len() && #[trigger] decode_utf8(q)[i] == ':' && (
                    forall|j: int| 0 <= j < i ==> decode_utf8(q)[j] != ':') && c.0@ == decode_utf8(
                        q,
                    ).subrange(0, i) && c.1@ == decode_utf8(q).subrange(
                        i + 1,
                        decode_utf8(q).len() as int,
                    ),
    {
        proof {
            use_type_invariant(self);
        }
        let decoded = b64url_decode(token);
        let bytes = match decoded {
            Some(v) => v,
            None => {
                return Err(CodecError::Base64);
            },
        };
        if bytes.len() < 12 {
            return Err(CodecError::Truncated);
        }
        let nonce = vec_subrange(&bytes, 0, 12);
        let sealed = vec_subrange(&bytes, 12, bytes.len());
        let opened = aead_open(&self.key, &nonce, &sealed);
        let plain = match opened {
            Some(p) => p,
            None => {
                proof {
                    assert forall|q: Seq<u8>| bytes@.skip(12) != #[trigger] seal_of(
                        self.key(),
                        bytes@.take(12),
                        q,
                    ) by {
                        assert(nonce@ =~= bytes@.take(12));
                        assert(sealed@ =~= bytes@.skip(12));
                    }
                    assert forall|n: Seq<u8>, u: Seq<char>, p: Seq<char>|
                        !(n.len() == 12 && !u.contains(':') && token@ == #[trigger] token_of(
                            self.key(),
                            n,
                            u,
                            p,
                        )) by {
                        if n.len() == 12 && token@ == token_of(self.key(), n, u, p) {
                            let cp = credential_plain(u, p);
                            let packed = n + seal_of(self.key(), n, cp);
                            assert(bytes@ == packed);
                            assert(bytes@.take(12) =~= n);
                            assert(bytes@.skip(12) =~= seal_of(self.key(), bytes@.take(12), cp));
                        }
                    }
                }
                return Err(CodecError::Crypto);
            },
        };
        let ghost plain_view = plain@;
        proof {
            assert(nonce@ =~= bytes@.take(12));
            assert(sealed@ =~= bytes@.skip(12));
        }
        let text = match string_from_utf8(plain) {
            Some(t) => t,
            None => {
                proof {
                    assert forall|n: Seq<u8>, u: Seq<char>, p: Seq<char>|
                        !(n.len() == 12 && !u.contains(':') && token@ == #[trigger] token_of(
                            self.key(),
                            n,
                            u,
                            p,
                        )) by {
                        if n.len() == 12 && token@ == token_of(self.key(), n, u, p) {
                            let cp = credential_plain(u, p);
                            let packed = n + seal_of(self.key(), n, cp);
                            assert(bytes@ == packed);
                            assert(bytes@.take(12) =~= n);
                            assert(bytes@.skip(12) =~= seal_of(self.key(), n, cp));
                            assert(plain_view == cp);
                            encode_utf8_valid_utf8(u + seq![':'] + p);
                        }
                    }
                }
                return Err(CodecError::Encoding);
            },
        };
        let creds = match split_credentials(text.as_str()) {
            Some(c) => c,
            None => {
                proof {
                    assert forall|n: Seq<u8>, u: Seq<char>, p: Seq<char>|
                        !(n.len() == 12 && !u.contains(':') && token@ == #[trigger] token_of(
                            self.key(),
                            n,
                            u,
                            p,
                        )) by {
                        if n.len() == 12 && token@ == token_of(self.key(), n, u, p) {
                            let cp = credential_plain(u, p);
                            let packed = n + seal_of(self.key(), n, cp);
                            assert(bytes@ == packed);
                            assert(bytes@.take(12) =~= n);
                            assert(bytes@.skip(12) =~= seal_of(self.key(), n, cp));
                            assert(plain_view == cp);
                            let full = u + seq![':'] + p;
                            encode_utf8_decode_utf8(full);
                            assert(text@ == full);
                            assert(text@[u.len() as int] == ':');
                            assert(text@.contains(':'));
                        }
                    }
                }
                return Err(CodecError::Separator);
            },
        };
        proof {
            assert forall|n: Seq<u8>, u: Seq<char>, p: Seq<char>|
                n.len() == 12 && !u.contains(':') && token@ == #[trigger] token_of(
                    self.key(),
                    n,
                    u,
                    p,
                ) implies creds.0@ == u && creds.1@ == p by {
                let key = self.key();
                // The token pins down the decoded bytes, which split into
                // the nonce and sealing it was built from; the sealing pins
                // down the plaintext; its UTF-8 reads back as `u`, `:`, `p`.
                let packed = n + seal_of(key, n, credential_plain(u, p));
                assert(bytes@ == packed);
                assert(bytes@.take(12) =~= n);
                assert(bytes@.skip(12) =~= seal_of(key, n, credential_plain(u, p)));
                assert(plain_view == credential_plain(u, p));
                let full = u + seq![':'] + p;
                encode_utf8_decode_utf8(full);
                assert(text@ == full);
                let i = choose|i: int|
                    0 <= i < text@.len() && #[trigger] text@[i] == ':' && (forall|j: int|
                        0 <= j < i ==> text@[j] != ':') && creds.0@ == text@.subrange(0, i)
                        && creds.1@ == text@.subrange(i + 1, text@.len() as int);
                assert(full[u.len() as int] == ':');
                assert(i == u.len()) by {
                    if i < u.len() {
                        assert(full[i] == u[i]);
                        assert(u.contains(':')) by {
                            assert(u[i] == ':');
                        }
                    }
                }
                assert(creds.0@ =~= u);
                assert(creds.1@ =~= p);
            }
        }
        Ok(creds)
    }

    /// Decoding a fresh token recovers the credentials it was made from:
    /// for every username without `:` and every password, encrypting and
    /// then decrypting returns the pair unchanged.
    pub fn encrypt_then_decrypt(&self, username: &str, password: &str) -> (r: Result<
        (String, String),
        CodecError,
    >)
        requires
            !username@.contains(':'),
            username@.len() + password@.len() + 1 <= 0x100_0000,
        ensures
            r matches Ok(c) && c.0@ == username@ && c.1@ == password@,
    {
        let token = self.encrypt(username, password);
        self.decrypt(token.as_str())
    }
}

} // verus!
