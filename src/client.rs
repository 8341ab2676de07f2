//! Client side of a tunnel: per-session decisions from the handshake reply
//! to bridging, the traffic counters, and the server-info exchange. The
//! caller performs the I/O and hands events in.
use vstd::prelude::*;
use crate::crypto::Encryptor;
use crate::gateway::{frame_of, sealed_frame_of, MAX_DATA};
use crate::msgpack::MAX_FRAME;
use crate::session::{HandshakeError, SecureContext, aes_algorithm_name, create_secure_connect_packet, sealed_under};
use crate::wire::{
    Command, ConnectResponsePayload, Message, PingPayload, Protocol, SecureConnectPayload,
    ServerInfoResponsePayload, StatsPayload, WireRecord,
};

verus! {

/// Why a client tunnel session ended.
#[derive(Debug, Clone, PartialEq, Eq)]
pub enum TunnelError {
    /// A frame is not a valid message or record.
    WireDecodeFailed,
    /// A payload did not open under the session key.
    UnsealFailed,
    /// The gateway refused the target; its reason.
    HandshakeRejected(String),
    /// The gateway answered with another command than expected.
    UnexpectedCommand,
    /// The handshake message could not be built.
    Handshake(HandshakeError),
    /// The WebSocket failed or closed.
    WsIo,
    /// The local TCP connection failed.
    LocalIo,
}

/// Monotonic traffic counters of one tunnel.
#[derive(Debug, Clone, Copy, Default)]
pub struct TunnelStats {
    pub upload_total: u64,
    pub download_total: u64,
    pub upload_speed: u64,
    pub download_speed: u64,
    pub last_rtt_ms: u64,
}

impl TunnelStats {
    pub fn new() -> (r: TunnelStats)
        ensures
            r.upload_total == 0 && r.download_total == 0 && r.upload_speed == 0 && r.download_speed == 0 && r.last_rtt_ms == 0,
    {
        TunnelStats { upload_total: 0, download_total: 0, upload_speed: 0, download_speed: 0, last_rtt_ms: 0 }
    }

    /// A copy of the counters.
    pub fn get_snapshot(&self) -> (r: StatsPayload)
        ensures
            r.upload_total == self.upload_total,
            r.download_total == self.download_total,
            r.upload_speed == self.upload_speed,
            r.download_speed == self.download_speed,
            r.rtt_ms == Some(self.last_rtt_ms),
    {
        StatsPayload {
            upload_total: self.upload_total,
            download_total: self.download_total,
            upload_speed: self.upload_speed,
            download_speed: self.download_speed,
            rtt_ms: Some(self.last_rtt_ms),
        }
    }

    /// Counts bytes read from the local connection (saturating).
    pub fn add_upload(&mut self, n: u64)
        ensures
            final(self).upload_total == (if old(self).upload_total + n > u64::MAX { u64::MAX as int } else { old(self).upload_total + n }),
            final(self).download_total == old(self).download_total,
            final(self).upload_speed == old(self).upload_speed,
            final(self).download_speed == old(self).download_speed,
            final(self).last_rtt_ms == old(self).last_rtt_ms,
    {
        self.upload_total = self.upload_total.saturating_add(n);
    }

    /// Counts bytes written to the local connection (saturating).
    pub fn add_download(&mut self, n: u64)
        ensures
            final(self).download_total == (if old(self).download_total + n > u64::MAX { u64::MAX as int } else { old(self).download_total + n }),
            final(self).upload_total == old(self).upload_total,
            final(self).upload_speed == old(self).upload_speed,
            final(self).download_speed == old(self).download_speed,
            final(self).last_rtt_ms == old(self).last_rtt_ms,
    {
        self.download_total = self.download_total.saturating_add(n);
    }

    /// One tick of the 1 Hz sampler: the speeds become the growth of the
    /// totals since the previous tick, whose totals were `last_up` and
    /// `last_down`; returns the totals for the next tick.
    pub fn sample(&mut self, last_up: u64, last_down: u64) -> (r: (u64, u64))
        ensures
            final(self).upload_speed == (if old(self).upload_total >= last_up { old(self).upload_total - last_up } else { 0 }),
            final(self).download_speed == (if old(self).download_total >= last_down { old(self).download_total - last_down } else { 0 }),
            final(self).upload_total == old(self).upload_total,
            final(self).download_total == old(self).download_total,
            final(self).last_rtt_ms == old(self).last_rtt_ms,
            r == (old(self).upload_total, old(self).download_total),
    {
        self.upload_speed = self.upload_total.saturating_sub(last_up);
        self.download_speed = self.download_total.saturating_sub(last_down);
        (self.upload_total, self.download_total)
    }
}

/// Round-trip time of a `Pong` that echoes `sent`, received at `now`.
pub open spec fn rtt_of(now: u64, sent: u64) -> u64 {
    if now >= sent { (now - sent) as u64 } else { 0 }
}

/// Where a client session stands.
#[derive(Debug, Clone, Copy, PartialEq, Eq, Structural)]
pub enum ClientState {
    AwaitingConnectResponse,
    Bridging,
    Closed,
}

/// What the caller has to do for a client session.
#[derive(Debug)]
pub enum ClientAction {
    /// Send this binary frame to the gateway.
    SendFrame(Vec<u8>),
    /// Write these bytes to the local TCP connection.
    WriteLocal(Vec<u8>),
    /// End the session: close the WebSocket and the local connection.
    Close,
}

pub open spec fn writes_local(actions: Seq<ClientAction>) -> bool {
    exists|i: int| 0 <= i < actions.len() && actions[i] is WriteLocal
}

/// State of one client session (one local TCP connection).
pub struct ClientSession {
    pub secure_context: SecureContext,
    pub state: ClientState,
}

impl ClientSession {
    pub open spec fn wf(&self) -> bool {
        self.secure_context.crypto is Some
    }

    /// Starts a session towards `(port, protocol)`: the `SecureConnect`
    /// frame to send first, carrying a fresh key wrapped with `server_key`.
    pub fn start<E: Encryptor>(protocol: Protocol, port: u16, server_key: &E) -> (r: Result<(ClientSession, Vec<u8>), TunnelError>)
        ensures
            r matches Ok((s, f)) ==> s.wf() && s.state is AwaitingConnectResponse,
            r matches Err(e) ==> e == TunnelError::Handshake(HandshakeError::RsaEncryptFailed)
                || e == TunnelError::Handshake(HandshakeError::EncodeFailed),
            r matches Ok((s, f)) ==> exists|w: Seq<u8>| #[trigger] frame_of(f@, Command::SecureConnect, SecureConnectPayload::enc((protocol, port, w, aes_algorithm_name()))),
    {
        let (secure_context, msg) = match create_secure_connect_packet(protocol, port, server_key) {
            Ok(x) => x,
            Err(e) => { return Err(TunnelError::Handshake(e)); },
        };
        let frame = match msg.to_vec() {
            Ok(f) => f,
            Err(_) => { return Err(TunnelError::Handshake(HandshakeError::EncodeFailed)); },
        };
        proof {
            let w = choose|w: Seq<u8>| msg.payload@ == #[trigger] SecureConnectPayload::enc((protocol, port, w, aes_algorithm_name()));
            assert(frame_of(frame@, Command::SecureConnect, SecureConnectPayload::enc((protocol, port, w, aes_algorithm_name()))));
            assert(exists|w: Seq<u8>| #[trigger] frame_of(frame@, Command::SecureConnect, SecureConnectPayload::enc((protocol, port, w, aes_algorithm_name()))));
        }
        let ghost sent = frame@;
        let r = Ok((ClientSession { secure_context, state: ClientState::AwaitingConnectResponse }, frame));
        assert(r matches Ok((_, f)) && f@ == sent);
        r
    }

    /// Takes the gateway's one reply to the handshake: a sealed
    /// `ConnectResponse`; on success the session bridges.
    pub fn on_handshake_reply(&mut self, frame: &[u8]) -> (r: Result<(), TunnelError>)
        requires
            old(self).wf(),
            old(self).state is AwaitingConnectResponse,
        ensures
            final(self).wf(),
            final(self).secure_context == old(self).secure_context,
            r is Ok <==> final(self).state is Bridging,
            r is Err ==> final(self).state is Closed,
            r is Ok ==> exists|m: Seq<char>, s: Seq<u8>| #[trigger] frame_of(frame@, Command::ConnectResponse, s)
                && #[trigger] sealed_under(old(self).secure_context.crypto, ConnectResponsePayload::enc((true, m)), s),
            forall|s: Seq<u8>, p: Seq<u8>, m: Seq<char>|
                #[trigger] frame_of(frame@, Command::ConnectResponse, s) && #[trigger] sealed_under(old(self).secure_context.crypto, p, s)
                    && p == #[trigger] ConnectResponsePayload::enc((false, m)) && p.len() <= MAX_FRAME
                    ==> (r matches Err(TunnelError::HandshakeRejected(reason)) && reason@ == m),
            forall|s: Seq<u8>, p: Seq<u8>, m: Seq<char>|
                #[trigger] frame_of(frame@, Command::ConnectResponse, s) && #[trigger] sealed_under(old(self).secure_context.crypto, p, s)
                    && p == #[trigger] ConnectResponsePayload::enc((true, m)) && p.len() <= MAX_FRAME ==> r is Ok,
    {
        let msg = match Message::from_slice(frame) {
            Ok(m) => m,
            Err(_) => {
                self.state = ClientState::Closed;
                return Err(TunnelError::WireDecodeFailed);
            },
        };
        let ghost sealed = msg.payload@;
        let msg = match self.secure_context.unseal_message(msg) {
            Ok(m) => m,
            Err(_) => {
                self.state = ClientState::Closed;
                return Err(TunnelError::UnsealFailed);
            },
        };
        if msg.command != Command::ConnectResponse {
            self.state = ClientState::Closed;
            return Err(TunnelError::UnexpectedCommand);
        }
        let response: ConnectResponsePayload = match msg.deserialize_payload() {
            Ok(p) => p,
            Err(_) => {
                self.state = ClientState::Closed;
                return Err(TunnelError::WireDecodeFailed);
            },
        };
        if !response.success {
            self.state = ClientState::Closed;
            return Err(TunnelError::HandshakeRejected(response.message));
        }
        self.state = ClientState::Bridging;
        assert(frame_of(frame@, Command::ConnectResponse, sealed));
        assert(sealed_under(old(self).secure_context.crypto, ConnectResponsePayload::enc((true, response.message@)), sealed));
        Ok(())
    }

    /// The frame of `command` with `payload` sealed under the session key.
    fn sealed_frame(&self, command: Command, payload: Vec<u8>) -> (r: Option<Vec<u8>>)
        ensures
            r matches Some(f) ==> sealed_frame_of(self.secure_context, f@, command, payload@),
            payload@.len() <= MAX_DATA ==> r is Some,
    {
        let sealed = match self.secure_context.seal_message(Message::new(command, payload)) {
            Ok(m) => m,
            Err(_) => { return None; },
        };
        match sealed.to_vec() {
            Ok(f) => {
                assert(frame_of(f@, command, sealed.payload@));
                Some(f)
            },
            Err(_) => None,
        }
    }

    /// One frame from the gateway while bridging.
    pub fn on_ws_frame(&mut self, frame: &[u8], now_ms: u64, stats: &mut TunnelStats) -> (r: Vec<ClientAction>)
        requires
            old(self).wf(),
        ensures
            final(self).wf(),
            final(self).secure_context == old(self).secure_context,
            final(stats).upload_total == old(stats).upload_total,
            final(stats).upload_speed == old(stats).upload_speed,
            final(stats).download_speed == old(stats).download_speed,
            !(old(self).state is Bridging) ==> r@.len() == 0 && final(self).state == old(self).state && *final(stats) == *old(stats),
            writes_local(r@) ==> old(self).state is Bridging,
            // a `Data` payload is written out exactly and counted
            forall|s: Seq<u8>, p: Seq<u8>|
                #[trigger] frame_of(frame@, Command::Data, s) && #[trigger] sealed_under(old(self).secure_context.crypto, p, s)
                    && old(self).state is Bridging ==> r@.len() == 1 && (r@[0] matches ClientAction::WriteLocal(b) && b@ == p)
                    && final(self).state is Bridging
                    && final(stats).download_total == (if old(stats).download_total + p.len() > u64::MAX { u64::MAX as int } else { old(stats).download_total + p.len() })
                    && final(stats).last_rtt_ms == old(stats).last_rtt_ms,
            // a `Pong` sets the round-trip time from its echoed timestamp
            forall|s: Seq<u8>, t: u64|
                #[trigger] frame_of(frame@, Command::Pong, s) && #[trigger] sealed_under(old(self).secure_context.crypto, PingPayload::enc(t), s)
                    && old(self).state is Bridging ==> r@.len() == 0 && final(stats).last_rtt_ms == rtt_of(now_ms, t)
                    && final(stats).download_total == old(stats).download_total,
            // `Disconnect` ends the session
            forall|s: Seq<u8>, p: Seq<u8>|
                #[trigger] frame_of(frame@, Command::Disconnect, s) && #[trigger] sealed_under(old(self).secure_context.crypto, p, s)
                    && old(self).state is Bridging ==> r@ == seq![ClientAction::Close] && final(self).state is Closed,
            // a payload that does not open under the key ends the session
            forall|c: Command, s: Seq<u8>|
                #[trigger] frame_of(frame@, c, s) && old(self).state is Bridging
                    && (forall|p: Seq<u8>| !#[trigger] sealed_under(old(self).secure_context.crypto, p, s))
                    ==> r@ == seq![ClientAction::Close] && final(self).state is Closed,
    {
        let mut r: Vec<ClientAction> = Vec::new();
        if self.state != ClientState::Bridging {
            return r;
        }
        let msg = match Message::from_slice(frame) {
            Ok(m) => m,
            Err(_) => {
                self.state = ClientState::Closed;
                r.push(ClientAction::Close);
                return r;
            },
        };
        let msg = match self.secure_context.unseal_message(msg) {
            Ok(m) => m,
            Err(_) => {
                self.state = ClientState::Closed;
                r.push(ClientAction::Close);
                assert(r@ =~= seq![ClientAction::Close]);
                return r;
            },
        };
        match msg.command {
            Command::Data => {
                stats.add_download(msg.payload.len() as u64);
                r.push(ClientAction::WriteLocal(msg.payload));
            },
            Command::Pong => {
                let echoed: Result<PingPayload, _> = msg.deserialize_payload();
                match echoed {
                    Ok(ping) => {
                        stats.last_rtt_ms = now_ms.saturating_sub(ping.timestamp);
                    },
                    Err(_) => {},
                }
            },
            Command::Disconnect => {
                self.state = ClientState::Closed;
                r.push(ClientAction::Close);
                assert(r@ =~= seq![ClientAction::Close]);
            },
            _ => {},
        }
        r
    }

    /// Bytes read from the local connection go out in a sealed `Data` frame.
    pub fn on_local_data(&mut self, data: Vec<u8>, stats: &mut TunnelStats) -> (r: Vec<ClientAction>)
        requires
            old(self).wf(),
        ensures
            final(self).wf(),
            final(self).secure_context == old(self).secure_context,
            !(old(self).state is Bridging) ==> r@.len() == 0 && final(self).state == old(self).state && *final(stats) == *old(stats),
            old(self).state is Bridging && data@.len() <= MAX_DATA ==> r@.len() == 1 && final(self).state is Bridging
                && (r@[0] matches ClientAction::SendFrame(f) && sealed_frame_of(old(self).secure_context, f@, Command::Data, data@))
                && final(stats).upload_total == (if old(stats).upload_total + data@.len() > u64::MAX { u64::MAX as int } else { old(stats).upload_total + data@.len() }),
            // the other counters are not touched
            final(stats).download_total == old(stats).download_total,
            final(stats).upload_speed == old(stats).upload_speed,
            final(stats).download_speed == old(stats).download_speed,
            final(stats).last_rtt_ms == old(stats).last_rtt_ms,
    {
        let mut r: Vec<ClientAction> = Vec::new();
        if self.state != ClientState::Bridging {
            return r;
        }
        stats.add_upload(data.len() as u64);
        match self.sealed_frame(Command::Data, data) {
            Some(f) => r.push(ClientAction::SendFrame(f)),
            None => {
                self.state = ClientState::Closed;
                r.push(ClientAction::Close);
            },
        }
        r
    }

    /// The local connection reached its end: a sealed `Disconnect`, then
    /// the session ends.
    pub fn on_local_eof(&mut self) -> (r: Vec<ClientAction>)
        requires
            old(self).wf(),
        ensures
            final(self).wf(),
            final(self).secure_context == old(self).secure_context,
            final(self).state is Closed,
            old(self).state is Bridging ==> r@.len() == 2 && r@[1] is Close && (r@[0] matches ClientAction::SendFrame(f)
                && sealed_frame_of(old(self).secure_context, f@, Command::Disconnect, Seq::empty())),
            !(old(self).state is Bridging) ==> r@ == seq![ClientAction::Close],
    {
        let mut r: Vec<ClientAction> = Vec::new();
        if self.state == ClientState::Bridging {
            match self.sealed_frame(Command::Disconnect, Vec::new()) {
                Some(f) => r.push(ClientAction::SendFrame(f)),
                None => {},
            }
        }
        self.state = ClientState::Closed;
        r.push(ClientAction::Close);
        assert(!(old(self).state is Bridging) ==> r@ =~= seq![ClientAction::Close]);
        r
    }

    /// A sealed `Ping` carrying `now_ms`.
    pub fn ping_frame(&self, now_ms: u64) -> (r: Option<Vec<u8>>)
        ensures
            r matches Some(f) ==> sealed_frame_of(self.secure_context, f@, Command::Ping, PingPayload::enc(now_ms)),
            r is Some,
    {
        let ping = PingPayload { timestamp: now_ms };
        let bytes = match ping.to_wire() {
            Ok(b) => b,
            Err(_) => { return None; },
        };
        self.sealed_frame(Command::Ping, bytes)
    }
}

/// Stateless exchanges of a client with a gateway.
pub struct WsClientService;

impl WsClientService {
    /// The plaintext `GetServerInfo` frame.
    pub fn server_info_request() -> (r: Vec<u8>)
        ensures
            frame_of(r@, Command::GetServerInfo, Seq::empty()),
    {
        let msg = Message::new(Command::GetServerInfo, Vec::new());
        match msg.to_vec() {
            Ok(f) => f,
            Err(_) => Vec::new(),
        }
    }

    /// Reads the gateway's plaintext answer to `GetServerInfo`.
    pub fn read_server_info_reply(frame: &[u8]) -> (r: Result<ServerInfoResponsePayload, TunnelError>)
        ensures
            r matches Ok(info) ==> exists|s: Seq<u8>| #[trigger] frame_of(frame@, Command::ServerInfoResponse, s) && ServerInfoResponsePayload::enc(info@) == s,
            forall|v: (Seq<char>, Seq<crate::wire::AllowedPort>)|
                #[trigger] frame_of(frame@, Command::ServerInfoResponse, ServerInfoResponsePayload::enc(v))
                    && ServerInfoResponsePayload::enc(v).len() <= MAX_FRAME ==> (r matches Ok(info) && info@ == v),
    {
        let msg = match Message::from_slice(frame) {
            Ok(m) => m,
            Err(_) => { return Err(TunnelError::WireDecodeFailed); },
        };
        if msg.command != Command::ServerInfoResponse {
            return Err(TunnelError::UnexpectedCommand);
        }
        match msg.deserialize_payload() {
            Ok(info) => {
                assert(frame_of(frame@, Command::ServerInfoResponse, msg.payload@));
                Ok(info)
            },
            Err(_) => Err(TunnelError::WireDecodeFailed),
        }
    }
}

} // verus!
