//! Signing, verification and hashing.
//!
//! Signatures are ECDSA over secp256k1; hashes are SHA-256.  Keys and
//! signatures travel as lowercase hex strings.  The outside calls stand
//! behind trusted wrappers whose contracts name their results; everything
//! around them is verified.

use k256::ecdsa::signature::{Signer, Verifier};
use sha2::Digest;
use vstd::prelude::*;

verus! {

/// Failure of a cryptographic operation.
#[derive(Debug, Clone, Copy, PartialEq, Eq, Structural)]
pub enum CryptoError {
    /// A private key that the curve refuses.
    InvalidPrivateKey,
    /// A public key that is not a valid SEC1 point encoding.
    InvalidPublicKey,
    /// A signature of the wrong shape.
    InvalidSignature,
    /// A string that is not even-length hex.
    HexDecode,
}

/// Whether `c` is an ASCII hex digit, either case.
pub open spec fn is_hex_digit(c: char) -> bool {
    ('0' <= c && c <= '9') || ('a' <= c && c <= 'f') || ('A' <= c && c <= 'F')
}

/// Whether `s` decodes as hex: even length, hex digits only.
pub open spec fn hex_decodable(s: Seq<char>) -> bool {
    s.len() % 2 == 0 && (forall|i: int| 0 <= i < s.len() ==> is_hex_digit(#[trigger] s[i]))
}

/// The lowercase hex digit character for a value below 16.
pub open spec fn hex_char(d: nat) -> char {
    if d == 0 {
        '0'
    } else if d == 1 {
        '1'
    } else if d == 2 {
        '2'
    } else if d == 3 {
        '3'
    } else if d == 4 {
        '4'
    } else if d == 5 {
        '5'
    } else if d == 6 {
        '6'
    } else if d == 7 {
        '7'
    } else if d == 8 {
        '8'
    } else if d == 9 {
        '9'
    } else if d == 10 {
        'a'
    } else if d == 11 {
        'b'
    } else if d == 12 {
        'c'
    } else if d == 13 {
        'd'
    } else if d == 14 {
        'e'
    } else {
        'f'
    }
}

/// Lowercase hex encoding of a byte string: two digits per byte.
pub open spec fn hex_of(b: Seq<u8>) -> Seq<char>
    decreases b.len(),
{
    if b.len() == 0 {
        Seq::empty()
    } else {
        hex_of(b.drop_last()) + seq![
            hex_char((b.last() / 16) as nat),
            hex_char((b.last() % 16) as nat),
        ]
    }
}

/// The SHA-256 digest of a byte string.  Stated only through the wrapper
/// below; the algorithm itself is not restated here.
pub uninterp spec fn sha256_of(data: Seq<u8>) -> Seq<u8>;

/// Whether a hex string decodes to a byte string that secp256k1 accepts as a
/// private scalar.
pub uninterp spec fn is_private_key_hex(s: Seq<char>) -> bool;

/// The lowercase hex SEC1 compressed encoding of the public key that belongs
/// to the private key written `priv_hex`.
pub uninterp spec fn pub_of(priv_hex: Seq<char>) -> Seq<char>;

/// The lowercase hex of the deterministic (RFC 6979) ECDSA signature of
/// `msg` under the private key written `priv_hex`.
pub uninterp spec fn sign_of(priv_hex: Seq<char>, msg: Seq<u8>) -> Seq<char>;

/// Whether ECDSA verification of `sig_hex` over `msg` under `pub_hex`
/// succeeds.
pub uninterp spec fn sig_valid(pub_hex: Seq<char>, msg: Seq<u8>, sig_hex: Seq<char>) -> bool;

/// Whether a hex string decodes to a valid SEC1 public key point.
pub uninterp spec fn pubkey_parses(s: Seq<char>) -> bool;

/// Whether a hex string decodes to a well-shaped ECDSA signature.
pub uninterp spec fn sig_parses(s: Seq<char>) -> bool;

/// Relies on `sha2::Sha256::digest`: the digest is 32 bytes and depends on
/// the input alone.
#[verifier::external_body]
pub(crate) fn sha256(data: &[u8]) -> (r: Vec<u8>)
    ensures
        r@ == sha256_of(data@),
        r@.len() == 32,
{
    sha2::Sha256::digest(data).to_vec()
}

/// Relies on `hex::encode`: two lowercase digits per byte, in order.
#[verifier::external_body]
pub(crate) fn hex_encode(data: &[u8]) -> (r: String)
    ensures
        r@ == hex_of(data@),
{
    hex::encode(data)
}

/// Hash a byte string with SHA-256 and return the digest as lowercase hex.
pub fn hash_sha256(data: &[u8]) -> (r: String)
    ensures
        r@ == hex_of(sha256_of(data@)),
{
    let digest = sha256(data);
    hex_encode(digest.as_slice())
}

/// A device or node identity: a secp256k1 keypair, held as hex strings.
/// The fields are kept private so that every value of this type comes from
/// `generate` or `from_private_key_hex` and therefore holds a usable key.
#[derive(Clone, Debug)]
pub struct Keypair {
    private_key_hex: String,
    public_key_hex: String,
}

impl Keypair {
    /// The hex private key this pair was built from.
    pub closed spec fn priv_hex(&self) -> Seq<char> {
        self.private_key_hex@
    }

    /// The hex public key of this pair.
    pub closed spec fn pub_hex(&self) -> Seq<char> {
        self.public_key_hex@
    }

    /// A keypair holds a decodable, curve-accepted private key and the
    /// public key derived from it, whose SEC1 encoding parses back as a
    /// curve point.
    pub open spec fn wf(&self) -> bool {
        hex_decodable(self.priv_hex()) && is_private_key_hex(self.priv_hex()) && self.pub_hex()
            == pub_of(self.priv_hex()) && hex_decodable(self.pub_hex()) && pubkey_parses(
            self.pub_hex(),
        )
    }

    /// Relies on `k256::ecdsa::SigningKey::random` and the SEC1 encoding of
    /// its verifying key: a fresh key is a valid private scalar, its public
    /// key is the 33-byte compressed point, both are hex-encoded lowercase,
    /// and the public encoding parses back as a curve point.
    #[verifier::external_body]
    pub fn generate() -> (r: Keypair)
        ensures
            r.wf(),
            is_private_key_hex(r.priv_hex()),
            r.pub_hex() == pub_of(r.priv_hex()),
            r.pub_hex().len() == 66,
            hex_decodable(r.priv_hex()),
            hex_decodable(r.pub_hex()),
            pubkey_parses(r.pub_hex()),
    {
        let signing_key = k256::ecdsa::SigningKey::random(&mut rand::rngs::OsRng);
        let verifying_key = signing_key.verifying_key();
        Keypair {
            private_key_hex: hex::encode(signing_key.to_bytes()),
            public_key_hex: hex::encode(verifying_key.to_sec1_bytes()),
        }
    }

    /// Relies on `hex::decode` and `k256::SecretKey::from_slice`: the pair is
    /// rebuilt from the given private key exactly when the string is hex and
    /// the scalar is accepted by the curve.
    #[verifier::external_body]
    pub fn from_private_key_hex(hex_key: &str) -> (r: Result<Keypair, CryptoError>)
        ensures
            match r {
                Ok(kp) => kp.wf() && kp.priv_hex() == hex_key@ && hex_decodable(hex_key@)
                    && is_private_key_hex(hex_key@) && kp.pub_hex().len() == 66 && hex_decodable(
                    kp.pub_hex(),
                ) && pubkey_parses(kp.pub_hex()),
                Err(CryptoError::HexDecode) => !hex_decodable(hex_key@),
                Err(CryptoError::InvalidPrivateKey) => hex_decodable(hex_key@)
                    && !is_private_key_hex(hex_key@),
                Err(_) => false,
            },
    {
        let Ok(bytes) = hex::decode(hex_key) else {
            return Err(CryptoError::HexDecode);
        };
        let Ok(secret_key) = k256::SecretKey::from_slice(&bytes) else {
            return Err(CryptoError::InvalidPrivateKey);
        };
        let signing_key = k256::ecdsa::SigningKey::from(secret_key);
        let verifying_key = signing_key.verifying_key();
        Ok(Keypair {
            private_key_hex: hex_key.to_owned(),
            public_key_hex: hex::encode(verifying_key.to_sec1_bytes()),
        })
    }

    /// The private key as lowercase hex (or as given to
    /// `from_private_key_hex`).
    pub fn private_key_hex(&self) -> (r: String)
        ensures
            r@ == self.priv_hex(),
    {
        self.private_key_hex.clone()
    }

    /// The public key as lowercase hex.
    pub fn public_key_hex(&self) -> (r: String)
        ensures
            r@ == self.pub_hex(),
    {
        self.public_key_hex.clone()
    }

    /// Relies on `k256::ecdsa::SigningKey`'s `Signer` impl: RFC 6979 makes
    /// the signature a function of key and message alone, the 64-byte
    /// compact encoding round-trips through `Signature::from_slice`, and
    /// the verifying key of the same pair accepts the (low-S normalised)
    /// signature.
    #[verifier::external_body]
    pub fn sign(&self, data: &[u8]) -> (r: String)
        ensures
            self.wf() ==> r@ == sign_of(self.priv_hex(), data@),
            self.wf() ==> sig_valid(self.pub_hex(), data@, r@),
            self.wf() ==> hex_decodable(r@) && sig_parses(r@),
            self.wf() ==> r@.len() == 128,
    {
        let Ok(bytes) = hex::decode(&self.private_key_hex) else {
            return String::new();
        };
        let Ok(signing_key) = k256::ecdsa::SigningKey::from_slice(&bytes) else {
            return String::new();
        };
        let signature: k256::ecdsa::Signature = signing_key.sign(data);
        hex::encode(signature.to_bytes())
    }
}

/// A signature a well-formed keypair produces verifies under its public
/// key: signing and then verifying the same bytes always succeeds.
pub fn sign_then_verify(kp: &Keypair, data: &[u8]) -> (ok: bool)
    requires
        kp.wf(),
    ensures
        ok,
{
    let signature = kp.sign(data);
    let pub_hex = kp.public_key_hex();
    match verify_signature(pub_hex.as_str(), data, signature.as_str()) {
        Ok(v) => v,
        Err(_) => false,
    }
}

/// Relies on `hex::decode`, `k256::ecdsa::VerifyingKey::from_sec1_bytes`,
/// `k256::ecdsa::Signature::from_slice` and the `Verifier` impl: the answer
/// depends on the three inputs alone, and the inputs are checked in order
/// (public key hex, public key point, signature hex, signature shape), each
/// malformed one yielding the error named for it.
#[verifier::external_body]
pub fn verify_signature(public_key_hex: &str, data: &[u8], signature_hex: &str) -> (r: Result<
    bool,
    CryptoError,
>)
    ensures
        !hex_decodable(public_key_hex@) ==> r matches Err(CryptoError::HexDecode),
        hex_decodable(public_key_hex@) && !pubkey_parses(public_key_hex@) ==> r matches Err(
            CryptoError::InvalidPublicKey,
        ),
        hex_decodable(public_key_hex@) && pubkey_parses(public_key_hex@) && !hex_decodable(
            signature_hex@,
        ) ==> r matches Err(CryptoError::HexDecode),
        hex_decodable(public_key_hex@) && pubkey_parses(public_key_hex@) && hex_decodable(
            signature_hex@,
        ) && !sig_parses(signature_hex@) ==> r matches Err(CryptoError::InvalidSignature),
        hex_decodable(public_key_hex@) && pubkey_parses(public_key_hex@) && hex_decodable(
            signature_hex@,
        ) && sig_parses(signature_hex@) ==> r is Ok,
        match r {
            Ok(b) => hex_decodable(public_key_hex@) && pubkey_parses(public_key_hex@)
                && hex_decodable(signature_hex@) && sig_parses(signature_hex@) && b == sig_valid(
                public_key_hex@,
                data@,
                signature_hex@,
            ),
            Err(CryptoError::HexDecode) => !hex_decodable(public_key_hex@) || !hex_decodable(
                signature_hex@,
            ),
            Err(CryptoError::InvalidPublicKey) => !pubkey_parses(public_key_hex@),
            Err(CryptoError::InvalidSignature) => !sig_parses(signature_hex@),
            Err(_) => false,
        },
{
    let Ok(pubkey_bytes) = hex::decode(public_key_hex) else {
        return Err(CryptoError::HexDecode);
    };
    let Ok(verifying_key) = k256::ecdsa::VerifyingKey::from_sec1_bytes(&pubkey_bytes) else {
        return Err(CryptoError::InvalidPublicKey);
    };
    let Ok(sig_bytes) = hex::decode(signature_hex) else {
        return Err(CryptoError::HexDecode);
    };
    let Ok(signature) = k256::ecdsa::Signature::from_slice(&sig_bytes) else {
        return Err(CryptoError::InvalidSignature);
    };
    Ok(verifying_key.verify(data, &signature).is_ok())
}

} // verus!
