//! Keys, signatures and secrets: what a relay and its nodes prove to each
//! other, over plain bytes and texts.

use base64::Engine;
use ed25519_dalek::Signer;
use ed25519_dalek::Verifier;
use vstd::prelude::*;
use vstd::string::StringExecFns;
use vstd::utf8::{encode_scalar, encode_utf8};

use crate::failure::{Base64Fault, Failure};

verus! {

// ---- unpadded URL-safe base64 ----

/// The symbol for a value below 64 (RFC 4648, section 5).
pub open spec fn base64_symbol(v: int) -> char {
    if v < 26 {
        ('A' as u32 + v) as char
    } else if v < 52 {
        ('a' as u32 + (v - 26)) as char
    } else if v < 62 {
        ('0' as u32 + (v - 52)) as char
    } else if v == 62 {
        '-'
    } else {
        '_'
    }
}

/// The byte at `i`, and 0 past the end.
pub open spec fn byte_or_zero(data: Seq<u8>, i: int) -> int {
    if 0 <= i < data.len() {
        data[i] as int
    } else {
        0
    }
}

/// The `i`th group of six bits of `data`.
pub open spec fn sextet(data: Seq<u8>, i: int) -> int {
    let first = byte_or_zero(data, 3 * (i / 4));
    let second = byte_or_zero(data, 3 * (i / 4) + 1);
    let third = byte_or_zero(data, 3 * (i / 4) + 2);
    if i % 4 == 0 {
        first / 4
    } else if i % 4 == 1 {
        first % 4 * 16 + second / 16
    } else if i % 4 == 2 {
        second % 16 * 4 + third / 64
    } else {
        third % 64
    }
}

/// How many symbols `n` bytes take.
pub open spec fn base64url_len(n: nat) -> nat {
    ((4 * n + 2) / 3) as nat
}

/// `data` in unpadded URL-safe base64: one symbol for every six bits, the
/// last of them filled up with zero bits.
pub open spec fn base64url(data: Seq<u8>) -> Seq<char> {
    Seq::new(base64url_len(data.len()), |i: int| base64_symbol(sextet(data, i)))
}

/// `base64::Engine::encode` of the engine `URL_SAFE_NO_PAD`: the text is
/// [`base64url`] of the bytes. It panics where the length of the text does
/// not fit the machine, so longer data is left out.
#[verifier::external_body]
fn base64url_encode(data: &[u8]) -> (r: String)
    requires
        data@.len() <= 0x4000_0000,
    ensures
        r@ == base64url(data@),
{
    base64::engine::general_purpose::URL_SAFE_NO_PAD.encode(data)
}

/// The fault that the engine `URL_SAFE_NO_PAD` finds in a text that is not
/// base64.
pub uninterp spec fn base64_fault_of(s: Seq<char>) -> Base64Fault;

/// `base64::Engine::decode` of the engine `URL_SAFE_NO_PAD`, which takes
/// neither padding nor stray bits behind the last byte: it gives back the
/// bytes whose [`base64url`] the text is, and a `base64::DecodeError` where
/// there are none. Of several faults in a text, which one it reports is not
/// stated.
#[verifier::external_body]
fn base64url_decode(s: &str) -> (r: Result<Vec<u8>, Base64Fault>)
    ensures
        r matches Ok(data) ==> base64url(data@) == s@,
        r is Err ==> forall|data: Seq<u8>| #[trigger] base64url(data) != s@,
        r matches Err(fault) ==> fault == base64_fault_of(s@),
{
    match base64::engine::general_purpose::URL_SAFE_NO_PAD.decode(s.as_bytes()) {
        Ok(data) => Ok(data),
        Err(base64::DecodeError::InvalidByte(offset, byte)) => Err(
            Base64Fault::Byte { offset, byte },
        ),
        Err(base64::DecodeError::InvalidLength(n)) => Err(Base64Fault::Length(n)),
        Err(base64::DecodeError::InvalidLastSymbol(offset, byte)) => Err(
            Base64Fault::LastSymbol { offset, byte },
        ),
        Err(base64::DecodeError::InvalidPadding) => Err(Base64Fault::Padding),
    }
}

/// Different values below 64 have different symbols.
proof fn lemma_symbol_injective(v: int, w: int)
    requires
        0 <= v < 64,
        0 <= w < 64,
        base64_symbol(v) == base64_symbol(w),
    ensures
        v == w,
{
}

/// Six bits are below 64.
proof fn lemma_sextet_range(data: Seq<u8>, i: int)
    requires
        i >= 0,
    ensures
        0 <= sextet(data, i) < 64,
{
}

/// The bytes of a group of three, out of its four groups of six bits.
proof fn lemma_bytes_of_sextets(data: Seq<u8>, q: int)
    requires
        q >= 0,
    ensures
        byte_or_zero(data, 3 * q) == sextet(data, 4 * q) * 4 + sextet(data, 4 * q + 1) / 16,
        byte_or_zero(data, 3 * q + 1) == sextet(data, 4 * q + 1) % 16 * 16 + sextet(data, 4 * q + 2)
            / 4,
        byte_or_zero(data, 3 * q + 2) == sextet(data, 4 * q + 2) % 4 * 64 + sextet(data, 4 * q + 3),
{
    assert((4 * q) / 4 == q && (4 * q) % 4 == 0);
    assert((4 * q + 1) / 4 == q && (4 * q + 1) % 4 == 1);
    assert((4 * q + 2) / 4 == q && (4 * q + 2) % 4 == 2);
    assert((4 * q + 3) / 4 == q && (4 * q + 3) % 4 == 3);
}

/// Different bytes have different texts: what base64 writes can be read back
/// in one way only.
pub proof fn base64url_is_injective(a: Seq<u8>, b: Seq<u8>)
    requires
        base64url(a) == base64url(b),
    ensures
        a == b,
{
    assert(base64url(a).len() == base64url_len(a.len()));
    assert(base64url(b).len() == base64url_len(b.len()));
    assert(a.len() == b.len());
    assert forall|j: int| 0 <= j < a.len() implies a[j] == b[j] by {
        let q = j / 3;
        let n = base64url(a).len();
        assert forall|i: int| 0 <= i < n implies sextet(a, i) == sextet(b, i) by {
            assert(base64url(a)[i] == base64_symbol(sextet(a, i)));
            assert(base64url(b)[i] == base64_symbol(sextet(b, i)));
            lemma_sextet_range(a, i);
            lemma_sextet_range(b, i);
            lemma_symbol_injective(sextet(a, i), sextet(b, i));
        }
        lemma_bytes_of_sextets(a, q);
        lemma_bytes_of_sextets(b, q);
        if j % 3 == 0 {
            assert(4 * q + 1 < n);
        } else if j % 3 == 1 {
            assert(4 * q + 2 < n);
        } else {
            assert(4 * q + 3 < n);
        }
    }
    assert(a =~= b);
}

/// The bytes whose base64 `s` is, where there are any.
pub open spec fn base64url_bytes(s: Seq<char>) -> Option<Seq<u8>> {
    if exists|data: Seq<u8>| #[trigger] base64url(data) == s {
        Some(choose|data: Seq<u8>| #[trigger] base64url(data) == s)
    } else {
        None
    }
}

/// Reading back what base64 wrote gives the bytes that were written.
pub proof fn base64url_round_trip(data: Seq<u8>)
    ensures
        base64url_bytes(base64url(data)) == Some(data),
{
    let back = choose|d: Seq<u8>| #[trigger] base64url(d) == base64url(data);
    base64url_is_injective(back, data);
}

/// Writing what base64 read gives the text that was read.
pub proof fn base64url_is_canonical(s: Seq<char>)
    ensures
        base64url_bytes(s) matches Some(data) ==> base64url(data) == s,
{
}

/// `data` in unpadded URL-safe base64.
pub fn encode_base64(data: &[u8]) -> (r: String)
    requires
        data@.len() <= 0x4000_0000,
    ensures
        r@ == base64url(data@),
        base64url_bytes(r@) == Some(data@),
{
    proof {
        base64url_round_trip(data@);
    }
    base64url_encode(data)
}

/// The bytes that `s` is the base64 of.
pub fn decode_base64(s: &str) -> (r: Result<Vec<u8>, Failure>)
    ensures
        match base64url_bytes(s@) {
            Some(data) => r matches Ok(v) && v@ == data,
            None => r == Err::<Vec<u8>, Failure>(Failure::NotBase64(base64_fault_of(s@))),
        },
{
    match base64url_decode(s) {
        Ok(data) => {
            proof {
                base64url_round_trip(data@);
            }
            Ok(data)
        },
        Err(fault) => Err(Failure::NotBase64(fault)),
    }
}

// ---- Ed25519 ----

/// The public key of the signing key with this seed.
pub uninterp spec fn ed25519_public_key(seed: Seq<u8>) -> Seq<u8>;

/// Whether 32 bytes are a public key.
pub uninterp spec fn ed25519_is_key(bytes: Seq<u8>) -> bool;

/// The signature that the signing key with this seed makes over `message`.
pub uninterp spec fn ed25519_signature(seed: Seq<u8>, message: Seq<u8>) -> Seq<u8>;

/// Whether the public key `key` accepts `signature` over `message`.
pub uninterp spec fn ed25519_accepts(key: Seq<u8>, message: Seq<u8>, signature: Seq<u8>) -> bool;

/// `ed25519_dalek::SigningKey::verifying_key`, as bytes: 32 of them, which
/// `VerifyingKey::from_bytes` takes back.
#[verifier::external_body]
fn ed25519_verifying_key(seed: &[u8]) -> (r: Vec<u8>)
    requires
        seed@.len() == 32,
    ensures
        r@ == ed25519_public_key(seed@),
        r@.len() == 32,
        ed25519_is_key(r@),
{
    let seed: [u8; 32] = seed.try_into().unwrap();
    ed25519_dalek::SigningKey::from_bytes(&seed).verifying_key().to_bytes().to_vec()
}

/// `ed25519_dalek::VerifyingKey::from_bytes`: whether it takes the bytes. A
/// key that it gives keeps the bytes that it came from.
#[verifier::external_body]
fn ed25519_takes_key(bytes: &[u8]) -> (r: bool)
    requires
        bytes@.len() == 32,
    ensures
        r == ed25519_is_key(bytes@),
{
    let bytes: [u8; 32] = bytes.try_into().unwrap();
    ed25519_dalek::VerifyingKey::from_bytes(&bytes).is_ok()
}

/// `ed25519_dalek::Signer::sign`, as bytes: 64 of them. The signature is one
/// that the public key of the same seed accepts.
#[verifier::external_body]
fn ed25519_sign(seed: &[u8], message: &[u8]) -> (r: Vec<u8>)
    requires
        seed@.len() == 32,
    ensures
        r@ == ed25519_signature(seed@, message@),
        r@.len() == 64,
        ed25519_accepts(ed25519_public_key(seed@), message@, r@),
{
    let seed: [u8; 32] = seed.try_into().unwrap();
    ed25519_dalek::SigningKey::from_bytes(&seed).sign(message).to_bytes().to_vec()
}

/// `ed25519_dalek::Verifier::verify` on a key out of
/// `VerifyingKey::from_bytes`: whether the signature holds.
#[verifier::external_body]
fn ed25519_verify(key: &[u8], message: &[u8], signature: &[u8]) -> (r: bool)
    requires
        key@.len() == 32,
        ed25519_is_key(key@),
        signature@.len() == 64,
    ensures
        r == ed25519_accepts(key@, message@, signature@),
{
    let key: [u8; 32] = key.try_into().unwrap();
    let signature: [u8; 64] = signature.try_into().unwrap();
    let key = ed25519_dalek::VerifyingKey::from_bytes(&key).unwrap();
    key.verify(message, &ed25519_dalek::Signature::from_bytes(&signature)).is_ok()
}

/// The bytes that a node signs to answer a challenge: what they are for, the
/// device, a zero byte, and the nonce.
pub open spec fn auth_message(device_id: Seq<char>, nonce: Seq<u8>) -> Seq<u8> {
    encode_utf8("recuros-node-auth-v1\0"@) + encode_utf8(device_id) + seq![0u8] + nonce
}

/// The bytes that a node signs to answer a challenge.
pub fn auth_bytes(device_id: &str, nonce: &[u8]) -> (r: Vec<u8>)
    ensures
        r@ == auth_message(device_id@, nonce@),
{
    let mut out: Vec<u8> = Vec::new();
    out.extend_from_slice("recuros-node-auth-v1\0".as_bytes());
    assert(out@ =~= encode_utf8("recuros-node-auth-v1\0"@));
    out.extend_from_slice(device_id.as_bytes());
    out.push(0);
    out.extend_from_slice(nonce);
    assert(out@ =~= auth_message(device_id@, nonce@));
    out
}

/// What is signed for one challenge is not what is signed for another: over
/// nonces of one length, equal bytes come of the same device and nonce.
pub proof fn auth_message_is_injective(d1: Seq<char>, n1: Seq<u8>, d2: Seq<char>, n2: Seq<u8>)
    requires
        n1.len() == n2.len(),
        auth_message(d1, n1) == auth_message(d2, n2),
    ensures
        d1 == d2,
        n1 == n2,
{
    let head = encode_utf8("recuros-node-auth-v1\0"@);
    let a = auth_message(d1, n1);
    let b = auth_message(d2, n2);
    let k = head.len() as int;
    let e1 = encode_utf8(d1);
    let e2 = encode_utf8(d2);
    assert(a.len() == k + e1.len() + 1 + n1.len());
    assert(b.len() == k + e2.len() + 1 + n2.len());
    assert(e1 =~= a.subrange(k, k + e1.len()));
    assert(e2 =~= b.subrange(k, k + e2.len()));
    crate::text::lemma_utf8_injective(d1, d2);
    assert(n1 =~= a.skip(k + e1.len() + 1));
    assert(n2 =~= b.skip(k + e2.len() + 1));
}

/// The bytes of a character other than the zero character hold no zero.
proof fn lemma_scalar_without_zero(c: char)
    requires
        c != '\0',
    ensures
        forall|i: int|
            0 <= i < encode_scalar(c as u32).len() ==> #[trigger] encode_scalar(c as u32)[i] != 0,
{
    let v = c as u32;
    assert(0 < v <= 0x7F ==> (v & 0x7F) as u8 != 0) by (bit_vector);
    assert(0xC0 | ((v >> 6) & 0x1F) as u8 != 0) by (bit_vector);
    assert(0xE0 | ((v >> 12) & 0x0F) as u8 != 0) by (bit_vector);
    assert(0xF0 | ((v >> 18) & 0x7) as u8 != 0) by (bit_vector);
    assert(0x80 | (v & 0x3F) as u8 != 0) by (bit_vector);
    assert(0x80 | ((v >> 6) & 0x3F) as u8 != 0) by (bit_vector);
    assert(0x80 | ((v >> 12) & 0x3F) as u8 != 0) by (bit_vector);
}

/// The bytes of a text without the zero character hold no zero.
proof fn lemma_text_without_zero(s: Seq<char>)
    requires
        !s.contains('\0'),
    ensures
        forall|i: int| 0 <= i < encode_utf8(s).len() ==> #[trigger] encode_utf8(s)[i] != 0,
    decreases s.len(),
{
    if s.len() > 0 {
        let rest = s.drop_first();
        assert(s[0] != '\0');
        assert forall|i: int| 0 <= i < rest.len() implies #[trigger] rest[i] != '\0' by {
            assert(s[i + 1] == rest[i]);
        }
        lemma_scalar_without_zero(s[0]);
        lemma_text_without_zero(rest);
        let first = encode_scalar(s[0] as u32);
        assert forall|i: int| 0 <= i < encode_utf8(s).len() implies #[trigger] encode_utf8(s)[i]
            != 0 by {
            if i < first.len() {
                assert(encode_utf8(s)[i] == first[i]);
            } else {
                assert(encode_utf8(s)[i] == encode_utf8(rest)[i - first.len()]);
            }
        }
    }
}

/// Whatever the lengths of the nonces: of devices whose ids hold no zero
/// character, equal bytes come of the same device and nonce.
pub proof fn auth_message_separates_devices(
    d1: Seq<char>,
    n1: Seq<u8>,
    d2: Seq<char>,
    n2: Seq<u8>,
)
    requires
        !d1.contains('\0'),
        !d2.contains('\0'),
        auth_message(d1, n1) == auth_message(d2, n2),
    ensures
        d1 == d2,
        n1 == n2,
{
    let k = encode_utf8("recuros-node-auth-v1\0"@).len() as int;
    let a = auth_message(d1, n1);
    let b = auth_message(d2, n2);
    let e1 = encode_utf8(d1);
    let e2 = encode_utf8(d2);
    lemma_text_without_zero(d1);
    lemma_text_without_zero(d2);
    assert(a[k + e1.len()] == 0);
    assert(b[k + e2.len()] == 0);
    if e1.len() < e2.len() {
        assert(b[k + e1.len()] == e2[e1.len() as int]);
    }
    if e2.len() < e1.len() {
        assert(a[k + e2.len()] == e1[e2.len() as int]);
    }
    assert(e1.len() == e2.len());
    assert(a.len() == k + e1.len() + 1 + n1.len());
    assert(b.len() == k + e2.len() + 1 + n2.len());
    auth_message_is_injective(d1, n1, d2, n2);
}

/// The text of a public key.
pub fn encode_public_key(key: &[u8]) -> (r: String)
    requires
        key@.len() == 32,
    ensures
        r@ == base64url(key@),
        base64url_bytes(r@) == Some(key@),
{
    encode_base64(key)
}

/// The key that a text stands for, or what is wrong with the text.
pub open spec fn public_key_of(value: Seq<char>) -> Result<Seq<u8>, Failure> {
    match base64url_bytes(value) {
        None => Err(Failure::NotBase64(base64_fault_of(value))),
        Some(bytes) => if bytes.len() != 32 {
            Err(Failure::KeyLength)
        } else if !ed25519_is_key(bytes) {
            Err(Failure::NotAKey)
        } else {
            Ok(bytes)
        },
    }
}

/// The public key that a text stands for.
pub fn decode_public_key(value: &str) -> (r: Result<Vec<u8>, Failure>)
    ensures
        match public_key_of(value@) {
            Ok(key) => r matches Ok(v) && v@ == key,
            Err(e) => r == Err::<Vec<u8>, Failure>(e),
        },
{
    let bytes = match decode_base64(value) {
        Ok(bytes) => bytes,
        Err(e) => return Err(e),
    };
    if bytes.len() != 32 {
        return Err(Failure::KeyLength);
    }
    if !ed25519_takes_key(bytes.as_slice()) {
        return Err(Failure::NotAKey);
    }
    Ok(bytes)
}

/// A key's text stands for that key and no other, and is the only text that
/// does.
pub proof fn public_key_text_round_trip(key: Seq<u8>, text: Seq<char>)
    requires
        key.len() == 32,
        ed25519_is_key(key),
    ensures
        public_key_of(base64url(key)) == Ok::<Seq<u8>, Failure>(key),
        public_key_of(text) == Ok::<Seq<u8>, Failure>(key) <==> text == base64url(key),
{
    base64url_round_trip(key);
    base64url_is_canonical(text);
}

/// Whether `signature` answers the challenge `nonce` to `device_id` for the
/// public key `public_key`; where it does not, why.
pub open spec fn signature_verdict(
    public_key: Seq<char>,
    device_id: Seq<char>,
    nonce: Seq<u8>,
    signature: Seq<char>,
) -> Result<(), Failure> {
    match public_key_of(public_key) {
        Err(e) => Err(e),
        Ok(key) => match base64url_bytes(signature) {
            None => Err(Failure::NotBase64(base64_fault_of(signature))),
            Some(bytes) => if bytes.len() != 64 {
                Err(Failure::SignatureLength)
            } else if !ed25519_accepts(key, auth_message(device_id, nonce), bytes) {
                Err(Failure::SignatureRefused)
            } else {
                Ok(())
            },
        },
    }
}

/// Checks the answer to a challenge.
pub fn verify_signature(public_key: &str, device_id: &str, nonce: &[u8], signature: &str) -> (r:
    Result<(), Failure>)
    ensures
        r == signature_verdict(public_key@, device_id@, nonce@, signature@),
{
    let key = match decode_public_key(public_key) {
        Ok(key) => key,
        Err(e) => return Err(e),
    };
    let bytes = match decode_base64(signature) {
        Ok(bytes) => bytes,
        Err(e) => return Err(e),
    };
    if bytes.len() != 64 {
        return Err(Failure::SignatureLength);
    }
    let message = auth_bytes(device_id, nonce);
    if ed25519_verify(key.as_slice(), message.as_slice(), bytes.as_slice()) {
        Ok(())
    } else {
        Err(Failure::SignatureRefused)
    }
}

/// A device's signing key, with the public key that belongs to it.
pub struct DeviceKey {
    seed: Vec<u8>,
    public_key: Vec<u8>,
}

impl DeviceKey {
    #[verifier::type_invariant]
    spec fn belongs_together(self) -> bool {
        &&& self.seed@.len() == 32
        &&& self.public_key@ == ed25519_public_key(self.seed@)
        &&& self.public_key@.len() == 32
        &&& ed25519_is_key(self.public_key@)
    }

    /// The seed that the key is made of.
    pub closed spec fn seed(self) -> Seq<u8> {
        self.seed@
    }

    /// The key with this seed.
    pub fn from_bytes(seed: Vec<u8>) -> (r: Self)
        requires
            seed@.len() == 32,
        ensures
            r.seed() == seed@,
    {
        let public_key = ed25519_verifying_key(seed.as_slice());
        DeviceKey { seed, public_key }
    }

    /// The text of the public key.
    pub fn public_key(&self) -> (r: String)
        ensures
            r@ == base64url(ed25519_public_key(self.seed())),
            public_key_of(r@) == Ok::<Seq<u8>, Failure>(ed25519_public_key(self.seed())),
    {
        proof {
            use_type_invariant(self);
        }
        encode_public_key(self.public_key.as_slice())
    }

    /// The device's answer to a challenge. Its own public key accepts it.
    pub fn sign_challenge(&self, device_id: &str, nonce: &[u8]) -> (r: String)
        ensures
            r@ == base64url(ed25519_signature(self.seed(), auth_message(device_id@, nonce@))),
            signature_verdict(
                base64url(ed25519_public_key(self.seed())),
                device_id@,
                nonce@,
                r@,
            ) is Ok,
    {
        proof {
            use_type_invariant(self);
        }
        let message = auth_bytes(device_id, nonce);
        let signature = ed25519_sign(self.seed.as_slice(), message.as_slice());
        proof {
            base64url_round_trip(self.public_key@);
        }
        encode_base64(signature.as_slice())
    }
}

// ---- secrets ----

/// `getrandom::Error`: why there are no random bytes.
#[verifier::external_type_specification]
#[verifier::external_body]
pub struct ExRandomError(getrandom::Error);

/// `getrandom::fill` on `n` bytes: all of them, or an error. Which bytes they
/// are is chance.
#[verifier::external_body]
fn os_random(n: usize) -> (r: Result<Vec<u8>, getrandom::Error>)
    requires
        n <= 0x4000_0000,
    ensures
        r matches Ok(bytes) ==> bytes@.len() == n,
{
    let mut bytes = vec![0u8; n];
    getrandom::fill(&mut bytes).map(|()| bytes)
}

/// `getrandom::Error` in words. Nothing is stated of the words.
#[verifier::external_body]
fn random_error_text(error: &getrandom::Error) -> (r: String) {
    error.to_string()
}

/// `n` random bytes.
pub fn random_bytes(n: usize) -> (r: Result<Vec<u8>, Failure>)
    requires
        n <= 0x4000_0000,
    ensures
        match r {
            Ok(bytes) => bytes@.len() == n,
            Err(e) => e is Randomness,
        },
{
    match os_random(n) {
        Ok(bytes) => Ok(bytes),
        Err(error) => Err(Failure::Randomness(random_error_text(&error))),
    }
}

/// The secret with this prefix over these bytes.
pub fn secret_of(prefix: &str, bytes: &[u8]) -> (r: String)
    requires
        bytes@.len() <= 0x4000_0000,
    ensures
        r@ == prefix@ + base64url(bytes@),
{
    let mut out = prefix.to_owned();
    out.append(encode_base64(bytes).as_str());
    out
}

/// Whether `s` is a secret with this prefix: 32 bytes in base64 behind it.
pub open spec fn is_secret(prefix: Seq<char>, s: Seq<char>) -> bool {
    exists|bytes: Seq<u8>| bytes.len() == 32 && s == prefix + #[trigger] base64url(bytes)
}

/// A new secret with this prefix.
pub fn secret(prefix: &str) -> (r: Result<String, Failure>)
    ensures
        match r {
            Ok(s) => is_secret(prefix@, s@),
            Err(e) => e is Randomness,
        },
{
    match random_bytes(32) {
        Ok(bytes) => Ok(secret_of(prefix, bytes.as_slice())),
        Err(e) => Err(e),
    }
}

/// The BLAKE3 hash of `data`, in hexadecimal.
pub uninterp spec fn blake3_hex(data: Seq<u8>) -> Seq<char>;

/// `blake3::hash` and `Hash::to_hex`: the hash in hexadecimal.
#[verifier::external_body]
fn blake3_hash(data: &[u8]) -> (r: String)
    ensures
        r@ == blake3_hex(data@),
{
    blake3::hash(data).to_hex().to_string()
}

/// What a store keeps in the place of a secret.
pub open spec fn secret_hash(value: Seq<char>) -> Seq<char> {
    blake3_hex(encode_utf8(value))
}

/// What a store keeps in the place of a secret.
pub fn hash_secret(value: &str) -> (r: String)
    ensures
        r@ == secret_hash(value@),
{
    blake3_hash(value.as_bytes())
}

/// Whether two byte strings are equal, found without stopping at the first
/// difference.
pub fn constant_time_eq(a: &[u8], b: &[u8]) -> (r: bool)
    ensures
        r == (a@ == b@),
{
    if a.len() != b.len() {
        return false;
    }
    let mut out: u8 = 0;
    let mut i: usize = 0;
    while i < a.len()
        invariant
            i <= a@.len(),
            a@.len() == b@.len(),
            out == 0 <==> a@.take(i as int) =~= b@.take(i as int),
        decreases a@.len() - i,
    {
        let x: u8 = a[i];
        let y: u8 = b[i];
        assert((out | (x ^ y)) == 0 <==> out == 0 && x == y) by (bit_vector);
        proof {
            let s = a@.take(i + 1);
            let t = b@.take(i + 1);
            assert(s.drop_last() =~= a@.take(i as int));
            assert(t.drop_last() =~= b@.take(i as int));
            if s == t {
                assert(s.last() == t.last());
            }
            if out == 0 && x == y {
                assert(s =~= s.drop_last().push(x));
                assert(t =~= t.drop_last().push(y));
            }
        }
        out = out | (x ^ y);
        i += 1;
    }
    assert(a@.take(a@.len() as int) =~= a@);
    assert(b@.take(b@.len() as int) =~= b@);
    out == 0
}

// ---- ids ----

/// A digit of Crockford's base 32, in either case: the digits, and the
/// letters but I, L, O and U.
pub open spec fn is_crockford(c: char) -> bool {
    ||| '0' <= c <= '9'
    ||| 'A' <= c <= 'Z' && c != 'I' && c != 'L' && c != 'O' && c != 'U'
    ||| 'a' <= c <= 'z' && c != 'i' && c != 'l' && c != 'o' && c != 'u'
}

/// The text of a ULID: 26 such digits.
pub open spec fn is_ulid(s: Seq<char>) -> bool {
    s.len() == 26 && forall|i: int| 0 <= i < 26 ==> is_crockford(#[trigger] s[i])
}

/// `ulid::Ulid::new`, as text. Which ULID it is depends on the time and on
/// chance.
#[verifier::external_body]
pub(crate) fn fresh_id() -> (r: String)
    ensures
        is_ulid(r@),
{
    ulid::Ulid::new().to_string()
}

/// `ulid::Ulid::from_string`: whether it takes the text.
#[verifier::external_body]
pub(crate) fn parses_as_ulid(s: &str) -> (r: bool)
    ensures
        r == is_ulid(s@),
{
    ulid::Ulid::from_string(s).is_ok()
}

// ---- laws ----

/// A signature is taken where the public key is one, and it accepts the 64 bytes
/// that the signature's text stands for over what this device signs for this
/// nonce; in no other case. A text that is not base64, or of another length, is
/// named as what it is before any signature is looked at.
pub proof fn a_signature_holds_where_the_key_accepts_it(
    public_key: Seq<char>,
    device_id: Seq<char>,
    nonce: Seq<u8>,
    signature: Seq<char>,
)
    ensures
        signature_verdict(public_key, device_id, nonce, signature) is Ok <==> {
            &&& public_key_of(public_key) is Ok
            &&& base64url_bytes(signature) is Some
            &&& base64url_bytes(signature)->Some_0.len() == 64
            &&& ed25519_accepts(
                public_key_of(public_key)->Ok_0,
                auth_message(device_id, nonce),
                base64url_bytes(signature)->Some_0,
            )
        },
        public_key_of(public_key) matches Ok(key) ==> key.len() == 32 && ed25519_is_key(key)
            && public_key == base64url(key),
        public_key_of(public_key) == Err::<Seq<u8>, Failure>(Failure::KeyLength) <==> (
        base64url_bytes(public_key) matches Some(bytes) && bytes.len() != 32),
        public_key_of(public_key) == Err::<Seq<u8>, Failure>(Failure::NotAKey) <==> (
        base64url_bytes(public_key) matches Some(bytes) && bytes.len() == 32 && !ed25519_is_key(
            bytes,
        )),
        public_key_of(public_key) matches Err(e) ==> signature_verdict(
            public_key,
            device_id,
            nonce,
            signature,
        ) == Err::<(), Failure>(e),
        signature_verdict(public_key, device_id, nonce, signature) == Err::<(), Failure>(
            Failure::SignatureLength,
        ) <==> public_key_of(public_key) is Ok && (base64url_bytes(signature) matches Some(bytes)
            && bytes.len() != 64),
{
    base64url_is_canonical(public_key);
}

/// What a device signs says what it is for, which device it is and what it was
/// asked, each in its place.
pub proof fn what_is_signed_names_its_purpose(device_id: Seq<char>, nonce: Seq<u8>)
    ensures
        encode_utf8("recuros-node-auth-v1\0"@).is_prefix_of(auth_message(device_id, nonce)),
        nonce.is_suffix_of(auth_message(device_id, nonce)),
        ({
            let head = encode_utf8("recuros-node-auth-v1\0"@).len() as int;
            let id = encode_utf8(device_id);
            let message = auth_message(device_id, nonce);
            &&& message.subrange(head, head + id.len()) == id
            &&& message[head + id.len()] == 0
            &&& message.len() == head + id.len() + 1 + nonce.len()
        }),
{
    let tag = encode_utf8("recuros-node-auth-v1\0"@);
    let id = encode_utf8(device_id);
    let head = tag.len() as int;
    let message = auth_message(device_id, nonce);
    assert(message.take(head) =~= tag);
    assert(message.subrange(head, head + id.len()) =~= id);
    assert(message.skip(message.len() - nonce.len()) =~= nonce);
}

/// Base64 is made of letters, digits, the hyphen and the underscore alone, so it
/// can stand in an address as it is.
pub proof fn base64url_is_url_safe(data: Seq<u8>, i: int)
    requires
        0 <= i < base64url(data).len(),
    ensures
        ({
            let c = base64url(data)[i];
            ||| 'A' <= c <= 'Z'
            ||| 'a' <= c <= 'z'
            ||| '0' <= c <= '9'
            ||| c == '-'
            ||| c == '_'
        }),
{
    lemma_sextet_range(data, i);
}

/// A secret starts with its prefix and has one length, and two secrets with one
/// prefix are the same only where they were made of the same bytes.
pub proof fn a_secret_is_its_prefix_and_its_bytes(
    prefix: Seq<char>,
    s: Seq<char>,
    a: Seq<u8>,
    b: Seq<u8>,
)
    ensures
        is_secret(prefix, s) ==> prefix.is_prefix_of(s) && s.len() == prefix.len() + 43,
        a.len() == 32 ==> is_secret(prefix, prefix + base64url(a)),
        prefix + base64url(a) == prefix + base64url(b) <==> a == b,
{
    if is_secret(prefix, s) {
        let bytes = choose|bytes: Seq<u8>|
            bytes.len() == 32 && s == prefix + #[trigger] base64url(bytes);
        assert(s.take(prefix.len() as int) =~= prefix);
    }
    if prefix + base64url(a) == prefix + base64url(b) {
        let n = prefix.len() as int;
        assert((prefix + base64url(a)).skip(n) =~= base64url(a));
        assert((prefix + base64url(b)).skip(n) =~= base64url(b));
        base64url_is_injective(a, b);
    }
}

/// A ULID has 26 characters, letters and digits of ASCII, and none of them is a
/// letter that is taken for a digit or for another letter.
pub proof fn a_ulid_is_unambiguous(s: Seq<char>, i: int)
    requires
        is_ulid(s),
        0 <= i < s.len(),
    ensures
        s.len() == 26,
        ('0' <= s[i] <= '9') || ('A' <= s[i] <= 'Z') || ('a' <= s[i] <= 'z'),
        s[i] != 'I' && s[i] != 'L' && s[i] != 'O' && s[i] != 'U',
        s[i] != 'i' && s[i] != 'l' && s[i] != 'o' && s[i] != 'u',
{
    assert(is_crockford(s[i]));
}

} // verus!
