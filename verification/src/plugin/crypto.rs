//! Digests, hexadecimal text and ed25519 signatures.

use crate::json;
use crate::text;
use crate::text::Text;
use sha2::Digest;
use vstd::prelude::*;

verus! {

/// The SHA-256 digest of a message.
pub uninterp spec fn sha256_of(message: Seq<u8>) -> Seq<u8>;

/// Whether 32 bytes are the compressed form of a curve point, and so a public key.
pub uninterp spec fn ed25519_point(bytes: Seq<u8>) -> bool;

/// The public key of a secret key.
pub uninterp spec fn ed25519_public(secret: Seq<u8>) -> Seq<u8>;

/// The signature of a message under a secret key.
pub uninterp spec fn ed25519_signature(secret: Seq<u8>, message: Seq<u8>) -> Seq<u8>;

/// What is wrong with a signature of a message under a public key, if anything.
pub uninterp spec fn ed25519_problem(
    public: Seq<u8>,
    message: Seq<u8>,
    signature: Seq<u8>,
) -> Option<Seq<char>>;

/// What is wrong with bytes that are no public key.
pub uninterp spec fn ed25519_refusal(bytes: Seq<u8>) -> Seq<char>;

/// What is wrong with text that is not hexadecimal.
pub uninterp spec fn hex_problem(digits: Seq<char>) -> Seq<char>;

/// Whether a signature of a message is valid under a public key.
pub open spec fn ed25519_verifies(
    public: Seq<u8>,
    message: Seq<u8>,
    signature: Seq<u8>,
) -> bool {
    ed25519_problem(public, message, signature) is None
}

/// Calls `sha2::Sha256::digest`. The digest is a function of the message, 32
/// bytes long.
#[verifier::external_body]
pub(crate) fn sha256(message: &[u8]) -> (r: Vec<u8>)
    ensures
        r@ == sha256_of(message@),
        r@.len() == 32,
{
    sha2::Sha256::digest(message).to_vec()
}

/// The bytes in lower-case hexadecimal notation, two digits each.
pub open spec fn hex_text(bytes: Seq<u8>) -> Text {
    Seq::new(
        2 * bytes.len(),
        |i: int|
            if i % 2 == 0 {
                json::hex_digit(bytes[i / 2] as int / 16)
            } else {
                json::hex_digit(bytes[i / 2] as int % 16)
            },
    )
}

/// The value of a hexadecimal digit, in either case.
pub open spec fn hex_value(c: char) -> Option<int> {
    if '0' <= c <= '9' {
        Some(c as int - 48)
    } else if 'a' <= c <= 'f' {
        Some(c as int - 87)
    } else if 'A' <= c <= 'F' {
        Some(c as int - 55)
    } else {
        None
    }
}

/// `t` is an even number of hexadecimal digits.
pub open spec fn is_hex(t: Text) -> bool {
    t.len() % 2 == 0 && forall|i: int| 0 <= i < t.len() ==> hex_value(#[trigger] t[i]) is Some
}

/// The bytes that hexadecimal text stands for.
pub open spec fn hex_bytes(t: Text) -> Seq<u8> {
    Seq::new(
        t.len() / 2,
        |i: int| (16 * hex_value(t[2 * i])->0 + hex_value(t[2 * i + 1])->0) as u8,
    )
}

/// Calls `hex::encode`: lower-case digits, two for each byte.
#[verifier::external_body]
pub(crate) fn hex_encode(bytes: &[u8]) -> (r: String)
    ensures
        r@ == hex_text(bytes@),
{
    hex::encode(bytes)
}

/// Calls `hex::decode`: succeeds on an even number of digits of either case,
/// and gives the bytes they stand for. The wording of the error is a function of
/// the text.
#[verifier::external_body]
pub(crate) fn hex_decode(digits: &str) -> (r: Result<Vec<u8>, String>)
    ensures
        r is Ok <==> is_hex(digits@),
        match r {
            Ok(v) => v@ == hex_bytes(digits@),
            Err(e) => e@ == hex_problem(digits@),
        },
{
    hex::decode(digits).map_err(|e| e.to_string())
}

/// Calls `ed25519_dalek::VerifyingKey::from_bytes`: whether the bytes are a
/// public key, and how the error is worded, are functions of the bytes.
#[verifier::external_body]
pub(crate) fn check_public_key(bytes: &[u8]) -> (r: Result<(), String>)
    requires
        bytes@.len() == 32,
    ensures
        r is Ok <==> ed25519_point(bytes@),
        r matches Err(e) ==> e@ == ed25519_refusal(bytes@),
{
    let key: [u8; 32] = bytes.try_into().unwrap_or_default();
    ed25519_dalek::VerifyingKey::from_bytes(&key).map(|_| ()).map_err(|e| e.to_string())
}

/// Calls `ed25519_dalek::SigningKey::verifying_key`. The public key is a
/// function of the secret one, 32 bytes long, and accepted as a public key.
#[verifier::external_body]
pub(crate) fn public_key_of(secret: &[u8]) -> (r: Vec<u8>)
    requires
        secret@.len() == 32,
    ensures
        r@ == ed25519_public(secret@),
        r@.len() == 32,
        ed25519_point(r@),
{
    let key: [u8; 32] = secret.try_into().unwrap_or_default();
    ed25519_dalek::SigningKey::from_bytes(&key).verifying_key().to_bytes().to_vec()
}

/// Calls `ed25519_dalek::SigningKey::sign`. The signature is a function of the
/// secret key and the message, 64 bytes long, and valid for that message under
/// the public key of the secret one.
#[verifier::external_body]
pub(crate) fn sign_message(secret: &[u8], message: &[u8]) -> (r: Vec<u8>)
    requires
        secret@.len() == 32,
    ensures
        r@ == ed25519_signature(secret@, message@),
        r@.len() == 64,
        ed25519_verifies(ed25519_public(secret@), message@, r@),
{
    let key: [u8; 32] = secret.try_into().unwrap_or_default();
    let key = ed25519_dalek::SigningKey::from_bytes(&key);
    ed25519_dalek::Signer::sign(&key, message).to_bytes().to_vec()
}

/// Calls `ed25519_dalek::VerifyingKey::verify`. Whether the signature is valid,
/// and how the error is worded, are functions of the key, the message and the
/// signature.
#[verifier::external_body]
pub(crate) fn signature_problem(public: &[u8], message: &[u8], signature: &[u8]) -> (r: Option<
    String,
>)
    requires
        public@.len() == 32,
        ed25519_point(public@),
        signature@.len() == 64,
    ensures
        text::opt_text(r) == ed25519_problem(public@, message@, signature@),
{
    let key: [u8; 32] = public.try_into().unwrap_or_default();
    let signature: [u8; 64] = signature.try_into().unwrap_or([0u8; 64]);
    let signature = ed25519_dalek::Signature::from_bytes(&signature);
    let key = match ed25519_dalek::VerifyingKey::from_bytes(&key) {
        Ok(key) => key,
        Err(e) => return Some(e.to_string()),
    };
    ed25519_dalek::Verifier::verify(&key, message, &signature).err().map(|e| e.to_string())
}

/// Reading hexadecimal text gives back the bytes that were written.
pub proof fn law_hex_round_trip(bytes: Seq<u8>)
    ensures
        is_hex(hex_text(bytes)),
        hex_bytes(hex_text(bytes)) == bytes,
{
    let t = hex_text(bytes);
    assert forall|i: int| 0 <= i < t.len() implies hex_value(#[trigger] t[i]) is Some by {
        let b = bytes[i / 2] as int;
        assert(0 <= b / 16 < 16 && 0 <= b % 16 < 16);
    }
    assert forall|i: int| 0 <= i < bytes.len() implies #[trigger] hex_bytes(t)[i] == bytes[i] by {
        let b = bytes[i] as int;
        assert((2 * i) / 2 == i && (2 * i) % 2 == 0);
        assert((2 * i + 1) / 2 == i && (2 * i + 1) % 2 == 1);
        assert(hex_value(t[2 * i]) == Some(b / 16));
        assert(hex_value(t[2 * i + 1]) == Some(b % 16));
        assert(16 * (b / 16) + b % 16 == b);
    }
    assert(hex_bytes(t) =~= bytes);
}

} // verus!
