//! Crypto engines: AES-256-GCM with a fresh random nonce per seal, and RSA
//! key pairs (PKCS#1 v1.5 encryption, PKCS#1 v1.5 with SHA-256 signatures,
//! PKCS#8 / SubjectPublicKeyInfo DER encodings).
use vstd::prelude::*;
use aes_gcm::aead::{Aead, AeadCore, KeyInit};
use rand::RngCore;
use rsa::pkcs8::{DecodePrivateKey, DecodePublicKey, EncodePrivateKey, EncodePublicKey};
use rsa::signature::{SignatureEncoding, Signer as SignatureSigner, Verifier as SignatureVerifier};

verus! {

/// Why a crypto operation failed.
#[derive(Debug, Clone, Copy, PartialEq, Eq, Structural)]
pub enum CryptoError {
    /// An AES-256 key must be exactly 32 bytes.
    InvalidKeyLength,
    /// A sealed text is shorter than its 12-byte nonce.
    CiphertextTooShort,
    /// The AEAD tag did not match: the data was altered or the key differs.
    AuthenticationFailed,
    /// The text is larger than a frame can carry.
    MessageTooLarge,
    RsaEncryptFailed,
    RsaDecryptFailed,
    /// The key pair holds only a public key.
    MissingPrivateKey,
    KeyEncodingFailed,
    KeyDecodingFailed,
    KeyGenerationFailed,
    /// Key generation was asked for a size outside 1024..=4096 bits.
    UnsupportedKeySize,
    SigningFailed,
}

pub const KEY_LEN: usize = 32;

pub const NONCE_LEN: usize = 12;

pub const TAG_LEN: usize = 16;

/// Longest plaintext that an engine seals.
pub const MAX_PLAINTEXT: usize = 16777216;

/// AES-256-GCM encryption of `plaintext` under `key` and `nonce` with no
/// associated data: the ciphertext followed by the 16-byte tag.
pub uninterp spec fn aes_gcm_seal(key: Seq<u8>, nonce: Seq<u8>, plaintext: Seq<u8>) -> Seq<u8>;

/// Relies on `RngCore::fill_bytes` of `rand::rngs::OsRng`: 32 bytes from the
/// operating system's CSPRNG.
#[verifier::external_body]
fn random_key() -> (r: Vec<u8>)
    ensures
        r@.len() == KEY_LEN,
{
    let mut key = [0u8; 32];
    rand::rngs::OsRng.fill_bytes(&mut key);
    key.to_vec()
}

/// Relies on `AeadCore::generate_nonce` of `Aes256Gcm` with `OsRng`: a fresh
/// random 12-byte nonce.
#[verifier::external_body]
fn random_nonce() -> (r: Vec<u8>)
    ensures
        r@.len() == NONCE_LEN,
{
    aes_gcm::Aes256Gcm::generate_nonce(&mut rand::rngs::OsRng).to_vec()
}

/// Relies on `Aead::encrypt` of `Aes256Gcm` (built by `KeyInit::new` from the
/// key): it fails only above 2^36 bytes of plaintext, and returns the
/// ciphertext, as long as the plaintext, followed by a 16-byte tag.
#[verifier::external_body]
fn gcm_encrypt(key: &[u8], nonce: &[u8], plaintext: &[u8]) -> (r: Option<Vec<u8>>)
    requires
        key@.len() == KEY_LEN,
        nonce@.len() == NONCE_LEN,
        plaintext@.len() <= MAX_PLAINTEXT,
    ensures
        r is Some,
        r->0@ == aes_gcm_seal(key@, nonce@, plaintext@),
        r->0@.len() == plaintext@.len() + TAG_LEN,
{
    let cipher = aes_gcm::Aes256Gcm::new(aes_gcm::Key::<aes_gcm::Aes256Gcm>::from_slice(key));
    cipher.encrypt(aes_gcm::Nonce::from_slice(nonce), plaintext).ok()
}

/// Relies on `Aead::decrypt` of `Aes256Gcm` (built by `KeyInit::new` from the
/// key): it recomputes the tag over the ciphertext and, only where it equals
/// the given tag, returns the ciphertext XOR the key stream. So it succeeds
/// exactly on what `Aead::encrypt` returns for that key and nonce, and gives
/// back its plaintext.
#[verifier::external_body]
fn gcm_decrypt(key: &[u8], nonce: &[u8], ciphertext: &[u8]) -> (r: Option<Vec<u8>>)
    requires
        key@.len() == KEY_LEN,
        nonce@.len() == NONCE_LEN,
        ciphertext@.len() <= MAX_PLAINTEXT + TAG_LEN,
    ensures
        r is Some ==> ciphertext@ == aes_gcm_seal(key@, nonce@, r->0@),
        forall|p: Seq<u8>| #[trigger] aes_gcm_seal(key@, nonce@, p) == ciphertext@ ==> r is Some && r->0@ == p,
{
    let cipher = aes_gcm::Aes256Gcm::new(aes_gcm::Key::<aes_gcm::Aes256Gcm>::from_slice(key));
    cipher.decrypt(aes_gcm::Nonce::from_slice(nonce), ciphertext).ok()
}

/// The bytes `b[start..end]`.
fn copy_range(b: &[u8], start: usize, end: usize) -> (r: Vec<u8>)
    requires
        start <= end <= b@.len(),
    ensures
        r@ == b@.subrange(start as int, end as int),
{
    let mut r: Vec<u8> = Vec::new();
    let mut i: usize = start;
    while i < end
        invariant
            start <= i <= end <= b@.len(),
            r@ == b@.subrange(start as int, i as int),
        decreases end - i,
    {
        r.push(b[i]);
        i = i + 1;
        assert(r@ =~= b@.subrange(start as int, i as int));
    }
    r
}

/// Authenticated symmetric encryption.
pub trait SymmetricCrypto {
    /// `ciphertext` is one of the sealings of `plaintext` under this engine.
    spec fn seals(&self, plaintext: Seq<u8>, ciphertext: Seq<u8>) -> bool;

    /// The key the engine holds.
    spec fn key_view(&self) -> Seq<u8>;

    /// Seals `plaintext` under a fresh nonce: nonce, ciphertext, tag.
    fn encrypt(&self, plaintext: &[u8]) -> (r: Result<Vec<u8>, CryptoError>)
        ensures
            r matches Ok(c) ==> self.seals(plaintext@, c@) && c@.len() == plaintext@.len() + NONCE_LEN + TAG_LEN,
            plaintext@.len() <= MAX_PLAINTEXT ==> r is Ok,
    ;

    /// Opens what `encrypt` sealed; anything else is rejected.
    fn decrypt(&self, ciphertext: &[u8]) -> (r: Result<Vec<u8>, CryptoError>)
        ensures
            r matches Ok(p) ==> self.seals(p@, ciphertext@),
            forall|p: Seq<u8>| #[trigger] self.seals(p, ciphertext@) ==> (r matches Ok(q) && q@ == p),
    ;

    fn key_bytes(&self) -> (r: Vec<u8>)
        ensures
            r@ == self.key_view(),
    ;
}

/// AES-256-GCM engine; a sealed text is the nonce followed by the
/// ciphertext and tag.
pub struct AesGcmEngine {
    key: Vec<u8>,
}

/// `c` is `p` sealed under `key` with the nonce that `c` starts with.
pub open spec fn aes_sealing(key: Seq<u8>, p: Seq<u8>, c: Seq<u8>) -> bool {
    &&& NONCE_LEN <= c.len() <= MAX_PLAINTEXT + NONCE_LEN + TAG_LEN
    &&& c.subrange(NONCE_LEN as int, c.len() as int) == aes_gcm_seal(key, c.subrange(0, NONCE_LEN as int), p)
}

impl AesGcmEngine {
    #[verifier::type_invariant]
    spec fn inv(&self) -> bool {
        self.key@.len() == KEY_LEN
    }

    pub closed spec fn key(&self) -> Seq<u8> {
        self.key@
    }

    /// An engine with a fresh random 256-bit key.
    pub fn new_random() -> (r: AesGcmEngine)
        ensures
            r.key().len() == KEY_LEN,
    {
        AesGcmEngine { key: random_key() }
    }

    /// An engine for the given key, which must be exactly 32 bytes.
    pub fn from_key(key_bytes: &[u8]) -> (r: Result<AesGcmEngine, CryptoError>)
        ensures
            match r {
                Ok(e) => key_bytes@.len() == KEY_LEN && e.key() == key_bytes@,
                Err(err) => key_bytes@.len() != KEY_LEN && err == CryptoError::InvalidKeyLength,
            },
    {
        if key_bytes.len() != KEY_LEN {
            return Err(CryptoError::InvalidKeyLength);
        }
        let mut key: Vec<u8> = Vec::new();
        let mut i: usize = 0;
        while i < key_bytes.len()
            invariant
                i <= key_bytes@.len(),
                key@ == key_bytes@.subrange(0, i as int),
            decreases key_bytes@.len() - i,
        {
            key.push(key_bytes[i]);
            i = i + 1;
            assert(key@ =~= key_bytes@.subrange(0, i as int));
        }
        assert(key_bytes@.subrange(0, KEY_LEN as int) =~= key_bytes@);
        Ok(AesGcmEngine { key })
    }

    /// Seals `plaintext` under a freshly drawn nonce: the nonce followed by
    /// the ciphertext and tag.
    pub fn seal(&self, plaintext: &[u8]) -> (r: Result<Vec<u8>, CryptoError>)
        ensures
            match r {
                Ok(c) => aes_sealing(self.key(), plaintext@, c@) && c@.len() == plaintext@.len() + NONCE_LEN + TAG_LEN,
                Err(e) => e == CryptoError::MessageTooLarge && plaintext@.len() > MAX_PLAINTEXT,
            },
    {
        proof {
            use_type_invariant(self);
        }
        if plaintext.len() > MAX_PLAINTEXT {
            return Err(CryptoError::MessageTooLarge);
        }
        let nonce = random_nonce();
        let sealed = match gcm_encrypt(self.key.as_slice(), nonce.as_slice(), plaintext) {
            Some(c) => c,
            None => { return Err(CryptoError::MessageTooLarge); },
        };
        let mut out = nonce;
        let ghost n = out@;
        let mut i: usize = 0;
        while i < sealed.len()
            invariant
                n.len() == NONCE_LEN,
                i <= sealed@.len(),
                out@ == n + sealed@.subrange(0, i as int),
            decreases sealed@.len() - i,
        {
            out.push(sealed[i]);
            i = i + 1;
            assert(out@ =~= n + sealed@.subrange(0, i as int));
        }
        proof {
            assert(sealed@.subrange(0, sealed@.len() as int) =~= sealed@);
            assert(out@.subrange(0, NONCE_LEN as int) =~= n);
            assert(out@.subrange(NONCE_LEN as int, out@.len() as int) =~= sealed@);
        }
        Ok(out)
    }

    /// Opens a sealed text: fails on one shorter than the nonce, and on any
    /// that was not sealed under this key.
    pub fn open(&self, data: &[u8]) -> (r: Result<Vec<u8>, CryptoError>)
        ensures
            data@.len() < NONCE_LEN ==> r == Err::<Vec<u8>, CryptoError>(CryptoError::CiphertextTooShort),
            r matches Ok(p) ==> aes_sealing(self.key(), p@, data@),
            forall|p: Seq<u8>| #[trigger] aes_sealing(self.key(), p, data@) ==> (r matches Ok(q) && q@ == p),
    {
        proof {
            use_type_invariant(self);
        }
        if data.len() < NONCE_LEN {
            return Err(CryptoError::CiphertextTooShort);
        }
        if data.len() > MAX_PLAINTEXT + NONCE_LEN + TAG_LEN {
            return Err(CryptoError::MessageTooLarge);
        }
        // a sealed text is the nonce, then the ciphertext and tag
        let nonce = copy_range(data, 0, NONCE_LEN);
        let ciphertext = copy_range(data, NONCE_LEN, data.len());
        match gcm_decrypt(self.key.as_slice(), nonce.as_slice(), ciphertext.as_slice()) {
            Some(p) => Ok(p),
            None => Err(CryptoError::AuthenticationFailed),
        }
    }
}

impl SymmetricCrypto for AesGcmEngine {
    open spec fn seals(&self, plaintext: Seq<u8>, ciphertext: Seq<u8>) -> bool {
        aes_sealing(self.key(), plaintext, ciphertext)
    }

    open spec fn key_view(&self) -> Seq<u8> {
        self.key()
    }

    fn encrypt(&self, plaintext: &[u8]) -> (r: Result<Vec<u8>, CryptoError>) {
        self.seal(plaintext)
    }

    fn decrypt(&self, ciphertext: &[u8]) -> (r: Result<Vec<u8>, CryptoError>) {
        self.open(ciphertext)
    }

    fn key_bytes(&self) -> (r: Vec<u8>) {
        let r = self.key.clone();
        assert(r@ =~= self.key@);
        r
    }
}

/// A PKCS#8 DER text that holds a valid RSA private key.
pub uninterp spec fn pkcs8_rsa_key_parses(der: Seq<u8>) -> bool;

/// A SubjectPublicKeyInfo DER text that holds a valid RSA public key of at
/// most 4096 bits.
pub uninterp spec fn spki_rsa_key_parses(der: Seq<u8>) -> bool;

/// The SubjectPublicKeyInfo DER of the public half of the PKCS#8 key `der`.
pub uninterp spec fn spki_of_pkcs8(der: Seq<u8>) -> Seq<u8>;

/// The length in bytes of the modulus of the public key `spki`.
pub uninterp spec fn rsa_modulus_len(spki: Seq<u8>) -> nat;

/// PKCS#1 v1.5 decryption of `c` under the private key `pkcs8`.
pub uninterp spec fn pkcs1v15_open(pkcs8: Seq<u8>, c: Seq<u8>) -> Option<Seq<u8>>;

/// `sig` is a valid RSASSA-PKCS1-v1_5 SHA-256 signature of `m` under `spki`.
pub uninterp spec fn pkcs1v15_sha256_verifies(spki: Seq<u8>, m: Seq<u8>, sig: Seq<u8>) -> bool;

/// Relies on `RsaPrivateKey::new` with `OsRng`, the key given out by
/// `EncodePrivateKey::to_pkcs8_der`: a fresh key of `bits` bits, whose
/// encoding parses back.
#[verifier::external_body]
fn rsa_generate(bits: usize) -> (r: Option<Vec<u8>>)
    requires
        1024 <= bits <= 4096,
    ensures
        r is Some ==> pkcs8_rsa_key_parses(r->0@) && spki_rsa_key_parses(spki_of_pkcs8(r->0@)),
{
    match rsa::RsaPrivateKey::new(&mut rand::rngs::OsRng, bits) {
        Ok(key) => match key.to_pkcs8_der() {
            Ok(doc) => Some(doc.as_bytes().to_vec()),
            Err(_) => None,
        },
        Err(_) => None,
    }
}

/// Relies on `DecodePrivateKey::from_pkcs8_der`, which validates the key.
#[verifier::external_body]
fn rsa_pkcs8_parses(der: &[u8]) -> (r: bool)
    ensures
        r == pkcs8_rsa_key_parses(der@),
{
    rsa::RsaPrivateKey::from_pkcs8_der(der).is_ok()
}

/// Relies on `DecodePublicKey::from_public_key_der`, which checks the key
/// (at most 4096 bits).
#[verifier::external_body]
fn rsa_spki_parses(der: &[u8]) -> (r: bool)
    ensures
        r == spki_rsa_key_parses(der@),
{
    rsa::RsaPublicKey::from_public_key_der(der).is_ok()
}

/// Relies on `From<&RsaPrivateKey> for RsaPublicKey`, given the PKCS#8 key
/// and giving out SubjectPublicKeyInfo DER.
#[verifier::external_body]
fn rsa_public_half(pkcs8: &[u8]) -> (r: Option<Vec<u8>>)
    requires
        pkcs8_rsa_key_parses(pkcs8@),
    ensures
        r is Some,
        r->0@ == spki_of_pkcs8(pkcs8@),
{
    match rsa::RsaPrivateKey::from_pkcs8_der(pkcs8) {
        Ok(key) => match rsa::RsaPublicKey::from(&key).to_public_key_der() {
            Ok(doc) => Some(doc.as_bytes().to_vec()),
            Err(_) => None,
        },
        Err(_) => None,
    }
}

/// Relies on `RsaPublicKey::encrypt` with `Pkcs1v15Encrypt` and `OsRng`: it
/// refuses data longer than the modulus less 11 bytes; otherwise the result
/// is as long as the modulus, and PKCS#1 v1.5 decryption under the matching
/// private key gives the data back. The padding is random.
#[verifier::external_body]
fn rsa_encrypt(spki: &[u8], data: &[u8]) -> (r: Option<Vec<u8>>)
    requires
        spki_rsa_key_parses(spki@),
    ensures
        r is Some <==> data@.len() + 11 <= rsa_modulus_len(spki@),
        r is Some ==> r->0@.len() == rsa_modulus_len(spki@),
        r is Some ==> forall|sk: Seq<u8>| pkcs8_rsa_key_parses(sk) && spki_of_pkcs8(sk) == spki@
            ==> #[trigger] pkcs1v15_open(sk, r->0@) == Some(data@),
{
    match rsa::RsaPublicKey::from_public_key_der(spki) {
        Ok(key) => key.encrypt(&mut rand::rngs::OsRng, rsa::Pkcs1v15Encrypt, data).ok(),
        Err(_) => None,
    }
}

/// Relies on `RsaPrivateKey::decrypt` with `Pkcs1v15Encrypt`.
#[verifier::external_body]
fn rsa_decrypt(pkcs8: &[u8], data: &[u8]) -> (r: Option<Vec<u8>>)
    requires
        pkcs8_rsa_key_parses(pkcs8@),
    ensures
        r is Some <==> pkcs1v15_open(pkcs8@, data@) is Some,
        r is Some ==> pkcs1v15_open(pkcs8@, data@) == Some(r->0@),
{
    match rsa::RsaPrivateKey::from_pkcs8_der(pkcs8) {
        Ok(key) => key.decrypt(rsa::Pkcs1v15Encrypt, data).ok(),
        Err(_) => None,
    }
}

/// Relies on `Signer::try_sign` of `pkcs1v15::SigningKey<Sha256>`: what it
/// gives out verifies under the public half.
#[verifier::external_body]
fn rsa_sign(pkcs8: &[u8], data: &[u8]) -> (r: Option<Vec<u8>>)
    requires
        pkcs8_rsa_key_parses(pkcs8@),
    ensures
        r is Some ==> pkcs1v15_sha256_verifies(spki_of_pkcs8(pkcs8@), data@, r->0@),
{
    match rsa::RsaPrivateKey::from_pkcs8_der(pkcs8) {
        Ok(key) => match SignatureSigner::try_sign(&rsa::pkcs1v15::SigningKey::<rsa::sha2::Sha256>::new(key), data) {
            Ok(sig) => Some(sig.to_vec()),
            Err(_) => None,
        },
        Err(_) => None,
    }
}

/// Relies on `Verifier::verify` of `pkcs1v15::VerifyingKey<Sha256>`, after
/// `Signature::try_from` on the bytes (which does not fail).
#[verifier::external_body]
fn rsa_verify(spki: &[u8], data: &[u8], signature: &[u8]) -> (r: bool)
    requires
        spki_rsa_key_parses(spki@),
    ensures
        r == pkcs1v15_sha256_verifies(spki@, data@, signature@),
{
    match (rsa::RsaPublicKey::from_public_key_der(spki), rsa::pkcs1v15::Signature::try_from(signature)) {
        (Ok(key), Ok(sig)) => SignatureVerifier::verify(&rsa::pkcs1v15::VerifyingKey::<rsa::sha2::Sha256>::new(key), data, &sig).is_ok(),
        _ => false,
    }
}

/// The standard Base64 alphabet (RFC 4648).
pub open spec fn base64_alphabet() -> Seq<char> {
    seq!['A', 'B', 'C', 'D', 'E', 'F', 'G', 'H', 'I', 'J', 'K', 'L', 'M', 'N', 'O', 'P', 'Q', 'R', 'S', 'T', 'U', 'V', 'W', 'X', 'Y', 'Z', 'a', 'b', 'c', 'd', 'e', 'f', 'g', 'h', 'i', 'j', 'k', 'l', 'm', 'n', 'o', 'p', 'q', 'r', 's', 't', 'u', 'v', 'w', 'x', 'y', 'z', '0', '1', '2', '3', '4', '5', '6', '7', '8', '9', '+', '/']
}

/// The symbol for the six-bit value `v`.
pub open spec fn base64_symbol(v: u8) -> char {
    base64_alphabet()[(v & 63u8) as int]
}

/// Standard Base64 (RFC 4648, padded) of `bytes`: each group of three bytes
/// becomes four symbols, and a last group of one or two bytes is padded
/// with `=`.
pub open spec fn base64_of(bytes: Seq<u8>) -> Seq<char>
    decreases bytes.len(),
{
    if bytes.len() == 0 {
        Seq::empty()
    } else if bytes.len() == 1 {
        let a = bytes[0];
        seq![base64_symbol(a >> 2u8), base64_symbol((a & 3u8) << 4u8), '=', '=']
    } else if bytes.len() == 2 {
        let (a, b) = (bytes[0], bytes[1]);
        seq![base64_symbol(a >> 2u8), base64_symbol(((a & 3u8) << 4u8) | (b >> 4u8)), base64_symbol((b & 15u8) << 2u8), '=']
    } else {
        let (a, b, c) = (bytes[0], bytes[1], bytes[2]);
        seq![
            base64_symbol(a >> 2u8),
            base64_symbol(((a & 3u8) << 4u8) | (b >> 4u8)),
            base64_symbol(((b & 15u8) << 2u8) | (c >> 6u8)),
            base64_symbol(c & 63u8),
        ] + base64_of(bytes.subrange(3, bytes.len() as int))
    }
}

/// Relies on `Engine::encode` of `base64::engine::general_purpose::STANDARD`.
#[verifier::external_body]
fn b64_encode(bytes: &[u8]) -> (r: String)
    ensures
        r@ == base64_of(bytes@),
{
    base64::Engine::encode(&base64::engine::general_purpose::STANDARD, bytes)
}

/// Relies on `Engine::decode` of `base64::engine::general_purpose::STANDARD`,
/// whose configuration requires canonical padding and no stray trailing
/// bits: the bytes whose standard Base64 is `text`, and `None` exactly where
/// `text` is not such an encoding.
#[verifier::external_body]
fn b64_decode(text: &str) -> (r: Option<Vec<u8>>)
    ensures
        r matches Some(b) ==> base64_of(b@) == text@,
        forall|b: Seq<u8>| #[trigger] base64_of(b) == text@ ==> r is Some && r->0@ == b,
{
    base64::Engine::decode(&base64::engine::general_purpose::STANDARD, text).ok()
}

/// A public-key pair, as exchanged and stored by users.
pub trait CryptoKeyPair {
    /// The public key's DER form.
    spec fn public_der(&self) -> Seq<u8>;

    /// The private key's DER form, where the pair holds it.
    spec fn private_der(&self) -> Option<Seq<u8>>;

    fn algorithm_name(&self) -> &'static str;

    /// The public key, DER-encoded.
    fn public_key_bytes(&self) -> (r: Result<Vec<u8>, CryptoError>)
        ensures
            r matches Ok(d) && d@ == self.public_der(),
    ;

    /// The private key, DER-encoded.
    fn private_key_bytes(&self) -> (r: Result<Vec<u8>, CryptoError>)
        ensures
            r is Ok <==> self.private_der() is Some,
            r matches Ok(d) ==> self.private_der() == Some(d@),
            r matches Err(e) ==> e == CryptoError::MissingPrivateKey,
    ;
}

/// Makes new key pairs.
pub trait KeyGenerator {
    type Pair: CryptoKeyPair;

    /// The generator's settings are supported.
    spec fn supported(&self) -> bool;

    /// A fresh pair; unsupported settings are refused before any work.
    fn generate(&self) -> (r: Result<Self::Pair, CryptoError>)
        ensures
            (r matches Err(e) && e == CryptoError::UnsupportedKeySize) <==> !self.supported(),
            r matches Ok(k) ==> k.private_der() is Some,
    ;
}

/// Public-key encryption of short data (a wrapped session key).
pub trait Encryptor {
    /// The private half is present.
    spec fn can_decrypt(&self) -> bool;

    /// `data` is short enough to encrypt.
    spec fn fits(&self, data: Seq<u8>) -> bool;

    /// `c` is one of the encryptions of `data` under this public key.
    spec fn wraps(&self, data: Seq<u8>, c: Seq<u8>) -> bool;

    fn encrypt(&self, data: &[u8]) -> (r: Result<Vec<u8>, CryptoError>)
        ensures
            r is Ok <==> self.fits(data@),
            r matches Ok(c) ==> self.wraps(data@, c@),
            r matches Err(e) ==> e == CryptoError::RsaEncryptFailed,
    ;

    /// Refused with `MissingPrivateKey` exactly where there is no private
    /// half; what this key's public half wrapped opens to its data.
    fn decrypt(&self, data: &[u8]) -> (r: Result<Vec<u8>, CryptoError>)
        ensures
            (r matches Err(e) && e == CryptoError::MissingPrivateKey) <==> !self.can_decrypt(),
            forall|p: Seq<u8>| self.can_decrypt() && #[trigger] self.wraps(p, data@) ==> (r matches Ok(q) && q@ == p),
    ;
}

/// Signatures over arbitrary data.
pub trait Signer {
    /// The private half is present.
    spec fn can_sign(&self) -> bool;

    /// `sig` is a valid signature of `data` under this public key.
    spec fn accepts(&self, data: Seq<u8>, sig: Seq<u8>) -> bool;

    /// Refused with `MissingPrivateKey` exactly where there is no private
    /// half; what comes out verifies.
    fn sign(&self, data: &[u8]) -> (r: Result<Vec<u8>, CryptoError>)
        ensures
            (r matches Err(e) && e == CryptoError::MissingPrivateKey) <==> !self.can_sign(),
            r matches Ok(s) ==> self.accepts(data@, s@),
    ;

    fn verify(&self, data: &[u8], signature: &[u8]) -> (r: Result<bool, CryptoError>)
        ensures
            r == Ok::<bool, CryptoError>(self.accepts(data@, signature@)),
    ;
}

/// An RSA key pair, held as DER: PKCS#8 for the private key, which a
/// client lacks, and SubjectPublicKeyInfo for the public key.
pub struct RsaKeyPair {
    private_der: Option<Vec<u8>>,
    public_der: Vec<u8>,
}

/// `c` wraps `data` under the public key `spki`: as long as the modulus, and
/// opening to `data` under every private key whose public half is `spki`.
pub open spec fn rsa_wraps(spki: Seq<u8>, data: Seq<u8>, c: Seq<u8>) -> bool {
    &&& c.len() == rsa_modulus_len(spki)
    &&& forall|sk: Seq<u8>| pkcs8_rsa_key_parses(sk) && spki_of_pkcs8(sk) == spki ==> #[trigger] pkcs1v15_open(sk, c) == Some(data)
}

impl RsaKeyPair {
    #[verifier::type_invariant]
    spec fn inv(&self) -> bool {
        &&& spki_rsa_key_parses(self.public_der@)
        &&& self.private_der matches Some(d) ==> pkcs8_rsa_key_parses(d@) && self.public_der@ == spki_of_pkcs8(d@)
    }

    pub closed spec fn public_view(&self) -> Seq<u8> {
        self.public_der@
    }

    pub closed spec fn private_view(&self) -> Option<Seq<u8>> {
        match self.private_der {
            Some(d) => Some(d@),
            None => None,
        }
    }

    /// Whether the pair can decrypt and sign.
    pub open spec fn has_private_key(&self) -> bool {
        self.private_view() is Some
    }

    /// A full pair from a PKCS#8 DER private key.
    pub fn from_private_der(der: &[u8]) -> (r: Result<RsaKeyPair, CryptoError>)
        ensures
            r is Ok <==> pkcs8_rsa_key_parses(der@) && spki_rsa_key_parses(spki_of_pkcs8(der@)),
            r matches Ok(k) ==> k.private_view() == Some(der@) && k.public_view() == spki_of_pkcs8(der@),
            r matches Err(e) ==> e == CryptoError::KeyDecodingFailed,
    {
        if !rsa_pkcs8_parses(der) {
            return Err(CryptoError::KeyDecodingFailed);
        }
        let public_der = match rsa_public_half(der) {
            Some(p) => p,
            None => { return Err(CryptoError::KeyDecodingFailed); },
        };
        if !rsa_spki_parses(public_der.as_slice()) {
            return Err(CryptoError::KeyDecodingFailed);
        }
        assert(der@.subrange(0, der@.len() as int) =~= der@);
        Ok(RsaKeyPair { private_der: Some(copy_range(der, 0, der.len())), public_der })
    }

    /// A public-only pair from a SubjectPublicKeyInfo DER public key.
    pub fn from_public_der(der: &[u8]) -> (r: Result<RsaKeyPair, CryptoError>)
        ensures
            r is Ok <==> spki_rsa_key_parses(der@),
            r matches Ok(k) ==> k.private_view() is None && k.public_view() == der@,
            r matches Err(e) ==> e == CryptoError::KeyDecodingFailed,
    {
        if !rsa_spki_parses(der) {
            return Err(CryptoError::KeyDecodingFailed);
        }
        assert(der@.subrange(0, der@.len() as int) =~= der@);
        Ok(RsaKeyPair { private_der: None, public_der: copy_range(der, 0, der.len()) })
    }

    /// A public-only pair from the Base64 of a SubjectPublicKeyInfo DER key.
    pub fn from_public_b64(text: &str) -> (r: Result<RsaKeyPair, CryptoError>)
        ensures
            r is Ok <==> exists|b: Seq<u8>| base64_of(b) == text@ && #[trigger] spki_rsa_key_parses(b),
            r matches Ok(k) ==> k.private_view() is None && base64_of(k.public_view()) == text@,
            r matches Err(e) ==> e == CryptoError::KeyDecodingFailed,
    {
        match b64_decode(text) {
            Some(der) => RsaKeyPair::from_public_der(der.as_slice()),
            None => Err(CryptoError::KeyDecodingFailed),
        }
    }

    /// A full pair from the Base64 of a PKCS#8 DER private key.
    pub fn from_private_b64(text: &str) -> (r: Result<RsaKeyPair, CryptoError>)
        ensures
            r is Ok <==> exists|b: Seq<u8>| base64_of(b) == text@ && #[trigger] pkcs8_rsa_key_parses(b)
                && spki_rsa_key_parses(spki_of_pkcs8(b)),
            r matches Ok(k) ==> k.private_view() is Some && base64_of(k.private_view()->0) == text@,
            r matches Err(e) ==> e == CryptoError::KeyDecodingFailed,
    {
        match b64_decode(text) {
            Some(der) => RsaKeyPair::from_private_der(der.as_slice()),
            None => Err(CryptoError::KeyDecodingFailed),
        }
    }

    /// The public key as Base64 of its DER form.
    pub fn public_key_b64(&self) -> (r: String)
        ensures
            r@ == base64_of(self.public_view()),
    {
        b64_encode(self.public_der.as_slice())
    }

    /// The private key as Base64 of its PKCS#8 DER form.
    pub fn private_key_b64(&self) -> (r: Result<String, CryptoError>)
        ensures
            r is Ok <==> self.private_view() is Some,
            r matches Ok(t) ==> t@ == base64_of(self.private_view()->0),
            r matches Err(e) ==> e == CryptoError::MissingPrivateKey,
    {
        match &self.private_der {
            Some(d) => Ok(b64_encode(d.as_slice())),
            None => Err(CryptoError::MissingPrivateKey),
        }
    }
}

impl CryptoKeyPair for RsaKeyPair {
    open spec fn public_der(&self) -> Seq<u8> {
        self.public_view()
    }

    open spec fn private_der(&self) -> Option<Seq<u8>> {
        self.private_view()
    }

    fn algorithm_name(&self) -> &'static str {
        "RSA"
    }

    fn public_key_bytes(&self) -> (r: Result<Vec<u8>, CryptoError>) {
        Ok(copy_range(self.public_der.as_slice(), 0, self.public_der.len()))
    }

    fn private_key_bytes(&self) -> (r: Result<Vec<u8>, CryptoError>) {
        match &self.private_der {
            Some(d) => Ok(copy_range(d.as_slice(), 0, d.len())),
            None => Err(CryptoError::MissingPrivateKey),
        }
    }
}

impl Encryptor for RsaKeyPair {
    open spec fn can_decrypt(&self) -> bool {
        self.has_private_key()
    }

    /// At most the modulus length less 11 bytes.
    open spec fn fits(&self, data: Seq<u8>) -> bool {
        data.len() + 11 <= rsa_modulus_len(self.public_view())
    }

    open spec fn wraps(&self, data: Seq<u8>, c: Seq<u8>) -> bool {
        rsa_wraps(self.public_view(), data, c)
    }

    /// PKCS#1 v1.5 encryption with the public key.
    fn encrypt(&self, data: &[u8]) -> (r: Result<Vec<u8>, CryptoError>) {
        proof {
            use_type_invariant(self);
        }
        match rsa_encrypt(self.public_der.as_slice(), data) {
            Some(c) => Ok(c),
            None => Err(CryptoError::RsaEncryptFailed),
        }
    }

    /// PKCS#1 v1.5 decryption with the private key.
    fn decrypt(&self, data: &[u8]) -> (r: Result<Vec<u8>, CryptoError>) {
        proof {
            use_type_invariant(self);
        }
        match &self.private_der {
            Some(k) => {
                proof {
                    assert forall|p: Seq<u8>| #[trigger] self.wraps(p, data@) implies pkcs1v15_open(k@, data@) == Some(p) by {}
                }
                match rsa_decrypt(k.as_slice(), data) {
                    Some(p) => Ok(p),
                    None => Err(CryptoError::RsaDecryptFailed),
                }
            },
            None => Err(CryptoError::MissingPrivateKey),
        }
    }
}

impl Signer for RsaKeyPair {
    open spec fn can_sign(&self) -> bool {
        self.has_private_key()
    }

    /// RSASSA-PKCS1-v1_5 with SHA-256.
    open spec fn accepts(&self, data: Seq<u8>, sig: Seq<u8>) -> bool {
        pkcs1v15_sha256_verifies(self.public_view(), data, sig)
    }

    fn sign(&self, data: &[u8]) -> (r: Result<Vec<u8>, CryptoError>) {
        proof {
            use_type_invariant(self);
        }
        match &self.private_der {
            Some(k) => match rsa_sign(k.as_slice(), data) {
                Some(sig) => Ok(sig),
                None => Err(CryptoError::SigningFailed),
            },
            None => Err(CryptoError::MissingPrivateKey),
        }
    }

    fn verify(&self, data: &[u8], signature: &[u8]) -> (r: Result<bool, CryptoError>) {
        proof {
            use_type_invariant(self);
        }
        Ok(rsa_verify(self.public_der.as_slice(), data, signature))
    }
}

/// Makes RSA key pairs of a given modulus size.
pub struct RsaKeyGenerator {
    pub bits: usize,
}

impl Default for RsaKeyGenerator {
    fn default() -> (r: RsaKeyGenerator)
        ensures
            r.bits == 4096,
    {
        RsaKeyGenerator { bits: 4096 }
    }
}

impl KeyGenerator for RsaKeyGenerator {
    type Pair = RsaKeyPair;

    /// Moduli of 1024 to 4096 bits.
    open spec fn supported(&self) -> bool {
        1024 <= self.bits <= 4096
    }

    /// A fresh pair; sizes outside 1024..=4096 bits are refused.
    fn generate(&self) -> (r: Result<RsaKeyPair, CryptoError>) {
        if self.bits < 1024 || self.bits > 4096 {
            return Err(CryptoError::UnsupportedKeySize);
        }
        let private_der = match rsa_generate(self.bits) {
            Some(d) => d,
            None => { return Err(CryptoError::KeyGenerationFailed); },
        };
        let public_der = match rsa_public_half(private_der.as_slice()) {
            Some(p) => p,
            None => { return Err(CryptoError::KeyGenerationFailed); },
        };
        Ok(RsaKeyPair { private_der: Some(private_der), public_der })
    }
}

/// Public-key algorithms that key generation supports.
pub enum Algorithm {
    Rsa,
}

/// The key generator for `algo`, with its default settings.
pub fn create_generator(algo: Algorithm) -> (r: RsaKeyGenerator)
    ensures
        r.bits == 4096,
{
    match algo {
        Algorithm::Rsa => RsaKeyGenerator::default(),
    }
}

} // verus!
