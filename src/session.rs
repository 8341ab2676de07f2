//! Secure session: the per-session AEAD context, sealing and opening of
//! message payloads, and the two halves of the handshake that establishes
//! the session key.
use vstd::prelude::*;
use crate::crypto::{RsaKeyPair, AesGcmEngine, CryptoError, Encryptor, SymmetricCrypto, aes_sealing, KEY_LEN, MAX_PLAINTEXT, NONCE_LEN, TAG_LEN};
use crate::msgpack::MAX_FRAME;
use crate::wire::{Command, Message, Protocol, SecureConnectPayload, WireRecord};

verus! {

/// Why a handshake could not be completed.
#[derive(Debug, Clone, Copy, PartialEq, Eq, Structural)]
pub enum HandshakeError {
    /// The first frame of a session was not `SecureConnect`.
    WrongFirstCommand,
    /// The `SecureConnect` payload is not a valid record.
    PayloadDecodeFailed,
    /// The wrapped session key could not be decrypted.
    RsaDecryptFailed,
    /// The unwrapped session key is not 32 bytes long.
    KeyLengthInvalid,
    /// The session key could not be wrapped with the gateway's key.
    RsaEncryptFailed,
    /// The handshake message would exceed the frame limit.
    EncodeFailed,
}

/// The cipher name that a client announces.
pub open spec fn aes_algorithm_name() -> Seq<char> {
    "AES-256-GCM"@
}

/// The AEAD context of one session; empty until the handshake is done.
pub struct SecureContext {
    pub crypto: Option<AesGcmEngine>,
}

/// A payload sealed under `ctx`: unchanged while the context is empty.
pub open spec fn sealed_under(ctx: Option<AesGcmEngine>, plain: Seq<u8>, sealed: Seq<u8>) -> bool {
    match ctx {
        None => sealed == plain,
        Some(e) => aes_sealing(e.key(), plain, sealed),
    }
}

impl SecureContext {
    /// An empty context: messages pass unchanged.
    pub fn new() -> (r: SecureContext)
        ensures
            r.crypto is None,
    {
        SecureContext { crypto: None }
    }

    /// Seals the payload of `msg`; the command stays in the clear.
    pub fn seal_message(&self, msg: Message) -> (r: Result<Message, CryptoError>)
        ensures
            match r {
                Ok(m) => m.command == msg.command && sealed_under(self.crypto, msg.payload@, m.payload@)
                    && (self.crypto is Some ==> m.payload@.len() == msg.payload@.len() + NONCE_LEN + TAG_LEN),
                Err(e) => self.crypto is Some && e == CryptoError::MessageTooLarge && msg.payload@.len() > MAX_PLAINTEXT,
            },
    {
        match &self.crypto {
            None => Ok(msg),
            Some(engine) => {
                let payload = engine.seal(msg.payload.as_slice())?;
                Ok(Message::new(msg.command, payload))
            },
        }
    }

    /// Opens the payload of `msg`. With a key in place, a payload that was
    /// not sealed under it, or that is shorter than a nonce, is rejected.
    pub fn unseal_message(&self, msg: Message) -> (r: Result<Message, CryptoError>)
        ensures
            r matches Ok(m) ==> m.command == msg.command && sealed_under(self.crypto, m.payload@, msg.payload@),
            forall|p: Seq<u8>| #[trigger] sealed_under(self.crypto, p, msg.payload@) ==> (r matches Ok(m) && m.command == msg.command && m.payload@ == p),
            self.crypto is Some && msg.payload@.len() < NONCE_LEN ==> r == Err::<Message, CryptoError>(CryptoError::CiphertextTooShort),
    {
        match &self.crypto {
            None => Ok(msg),
            Some(engine) => {
                let payload = engine.open(msg.payload.as_slice())?;
                Ok(Message::new(msg.command, payload))
            },
        }
    }
}

/// `b` is the encoding of the `SecureConnect` record `v`.
pub open spec fn encodes_secure_connect(b: Seq<u8>, v: (Protocol, u16, Seq<u8>, Seq<char>)) -> bool {
    b.len() <= MAX_FRAME && SecureConnectPayload::enc(v) == b
}

/// Gateway side, after the wrapped key went through RSA decryption:
/// builds the session context from the unwrapped key, which must be exactly
/// 32 bytes (checked before any AEAD engine is built).
pub fn accept_unwrapped_key(payload: &SecureConnectPayload, unwrapped: Result<Vec<u8>, CryptoError>) -> (r: Result<(SecureContext, Protocol, u16), HandshakeError>)
    ensures
        match unwrapped {
            Err(_) => r == Err::<(SecureContext, Protocol, u16), HandshakeError>(HandshakeError::RsaDecryptFailed),
            Ok(k) => if k@.len() != KEY_LEN {
                r == Err::<(SecureContext, Protocol, u16), HandshakeError>(HandshakeError::KeyLengthInvalid)
            } else {
                r matches Ok((ctx, protocol, port)) && ctx.crypto matches Some(e) && e.key() == k@
                    && protocol == payload.protocol && port == payload.port
            },
        },
{
    let key = match unwrapped {
        Ok(k) => k,
        Err(_) => { return Err(HandshakeError::RsaDecryptFailed); },
    };
    if key.len() != KEY_LEN {
        return Err(HandshakeError::KeyLengthInvalid);
    }
    let engine = match AesGcmEngine::from_key(key.as_slice()) {
        Ok(e) => e,
        Err(_) => { return Err(HandshakeError::KeyLengthInvalid); },
    };
    Ok((SecureContext { crypto: Some(engine) }, payload.protocol, payload.port))
}

/// Gateway side of the handshake: the first frame must be `SecureConnect`
/// with a valid record; its wrapped key is decrypted with `server_key_pair`
/// and must yield a 32-byte AES key.
pub fn handle_server_handshake<E: Encryptor>(raw_packet: Message, server_key_pair: &E) -> (r: Result<(SecureContext, Protocol, u16), HandshakeError>)
    ensures
        raw_packet.command != Command::SecureConnect ==> r == Err::<(SecureContext, Protocol, u16), HandshakeError>(HandshakeError::WrongFirstCommand),
        raw_packet.command == Command::SecureConnect ==> ((r == Err::<(SecureContext, Protocol, u16), HandshakeError>(HandshakeError::PayloadDecodeFailed))
            <==> !exists|v| #[trigger] encodes_secure_connect(raw_packet.payload@, v)),
        r matches Ok((ctx, protocol, port)) ==> (ctx.crypto matches Some(e) && e.key().len() == KEY_LEN) && exists|v: (Protocol, u16, Seq<u8>, Seq<char>)|
            #[trigger] encodes_secure_connect(raw_packet.payload@, v) && v.0 == protocol && v.1 == port,
        // a key that this pair's public half wrapped is accepted and primes the context
        forall|v: (Protocol, u16, Seq<u8>, Seq<char>), k: Seq<u8>|
            raw_packet.command == Command::SecureConnect && #[trigger] encodes_secure_connect(raw_packet.payload@, v)
                && server_key_pair.can_decrypt() && #[trigger] server_key_pair.wraps(k, v.2) && k.len() == KEY_LEN
                ==> (r matches Ok((ctx, protocol, port)) && protocol == v.0 && port == v.1
                    && (ctx.crypto matches Some(e) && e.key() == k)),
{
    if raw_packet.command != Command::SecureConnect {
        return Err(HandshakeError::WrongFirstCommand);
    }
    let payload: SecureConnectPayload = match raw_packet.deserialize_payload() {
        Ok(p) => p,
        Err(_) => {
            proof {
                assert forall|v| !#[trigger] encodes_secure_connect(raw_packet.payload@, v) by {}
            }
            return Err(HandshakeError::PayloadDecodeFailed);
        },
    };
    let unwrapped = server_key_pair.decrypt(payload.encrypted_key.as_slice());
    let r = accept_unwrapped_key(&payload, unwrapped);
    proof {
        assert(encodes_secure_connect(raw_packet.payload@, payload@));
        assert forall|v: (Protocol, u16, Seq<u8>, Seq<char>), k: Seq<u8>|
            #[trigger] encodes_secure_connect(raw_packet.payload@, v) && server_key_pair.can_decrypt()
                && #[trigger] server_key_pair.wraps(k, v.2) && k.len() == KEY_LEN implies v == payload@ && (unwrapped matches Ok(q) && q@ == k) by {
        }
    }
    r
}

/// Client side, after the session key went through RSA encryption: the
/// `SecureConnect` message that carries the wrapped key, and the context
/// primed with `engine`.
pub fn build_secure_connect(protocol: Protocol, port: u16, engine: AesGcmEngine, wrapped: Result<Vec<u8>, CryptoError>) -> (r: Result<(SecureContext, Message), HandshakeError>)
    ensures
        match wrapped {
            Err(_) => r matches Err(e) && e == HandshakeError::RsaEncryptFailed,
            Ok(w) => match r {
                Ok((ctx, msg)) => ctx.crypto == Some(engine) && msg.command == Command::SecureConnect && msg.payload@.len() <= MAX_FRAME
                    && msg.payload@ == SecureConnectPayload::enc((protocol, port, w@, aes_algorithm_name())),
                Err(e) => e == HandshakeError::EncodeFailed
                    && SecureConnectPayload::enc((protocol, port, w@, aes_algorithm_name())).len() > MAX_FRAME,
            },
        },
{
    let encrypted_key = match wrapped {
        Ok(w) => w,
        Err(_) => { return Err(HandshakeError::RsaEncryptFailed); },
    };
    let payload = SecureConnectPayload {
        protocol,
        port,
        encrypted_key,
        algorithm: "AES-256-GCM".to_string(),
    };
    let msg = match Message::from_payload(Command::SecureConnect, &payload) {
        Ok(m) => m,
        Err(_) => { return Err(HandshakeError::EncodeFailed); },
    };
    Ok((SecureContext { crypto: Some(engine) }, msg))
}

/// Client side of the handshake: a fresh AES-256 key, wrapped with the
/// gateway's public key into a `SecureConnect` message for `(port,
/// protocol)`, and the context primed with that key.
pub fn create_secure_connect_packet<E: Encryptor>(protocol: Protocol, port: u16, server_public_key: &E) -> (r: Result<(SecureContext, Message), HandshakeError>)
    ensures
        r matches Ok((ctx, msg)) ==> msg.command == Command::SecureConnect && (ctx.crypto matches Some(e)
            && e.key().len() == KEY_LEN && exists|w: Seq<u8>| msg.payload@ == #[trigger] SecureConnectPayload::enc((protocol, port, w, aes_algorithm_name()))
                && server_public_key.wraps(e.key(), w)),
        // the session key is short enough for the gateway's key: the packet is built
        (forall|k: Seq<u8>| k.len() == KEY_LEN ==> #[trigger] server_public_key.fits(k))
            ==> (r is Ok || r == Err::<(SecureContext, Message), HandshakeError>(HandshakeError::EncodeFailed)),
        r matches Ok((_, msg)) ==> msg.payload@.len() <= MAX_FRAME,
        r matches Err(e) ==> e == HandshakeError::RsaEncryptFailed || e == HandshakeError::EncodeFailed,
{
    let engine = AesGcmEngine::new_random();
    let key_bytes = engine.key_bytes();
    let wrapped = server_public_key.encrypt(key_bytes.as_slice());
    let ghost w = wrapped;
    let r = build_secure_connect(protocol, port, engine, wrapped);
    proof {
        if let Ok(c) = w {
            assert(server_public_key.wraps(key_bytes@, c@));
        }
    }
    r
}

/// The gateway accepts what a client builds with the gateway's public key:
/// where the client wrapped its session key with a pair whose public key is
/// the gateway's, the gateway's full pair opens the wrapped key, so
/// `handle_server_handshake` primes the gateway's context with the client's
/// key and returns the client's target.
pub proof fn lemma_handshake_round_trip(
    client_key: &RsaKeyPair,
    server_key: &RsaKeyPair,
    payload: Seq<u8>,
    protocol: Protocol,
    port: u16,
    wrapped: Seq<u8>,
    key: Seq<u8>,
)
    requires
        client_key.public_view() == server_key.public_view(),
        server_key.has_private_key(),
        payload == SecureConnectPayload::enc((protocol, port, wrapped, aes_algorithm_name())),
        payload.len() <= MAX_FRAME,
        client_key.wraps(key, wrapped),
        key.len() == KEY_LEN,
    ensures
        encodes_secure_connect(payload, (protocol, port, wrapped, aes_algorithm_name())),
        server_key.can_decrypt(),
        server_key.wraps(key, wrapped),
{
}

} // verus!
