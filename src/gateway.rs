//! Gateway session: one per accepted WebSocket. It receives the handshake,
//! authorizes the target against the allow-list, asks for the backend
//! connection, then bridges bytes. The session decides; the caller performs
//! the actions it returns and reports back what happened.
use vstd::prelude::*;
use vstd::utf8::{encode_utf8, encode_utf8_first_scalar, is_ascii_chars_encode_utf8};
use crate::crypto::Encryptor;
use crate::msgpack::MAX_FRAME;
use crate::session::{HandshakeError, SecureContext, handle_server_handshake, sealed_under};
use crate::wire::{
    AllowedPort, Command, ConnectResponsePayload, Message, Protocol, ServerInfoResponsePayload,
    WireRecord, enc_message,
};

verus! {

/// Where a gateway session stands.
#[derive(Debug, Clone, Copy, PartialEq, Eq, Structural)]
pub enum GatewayState {
    /// No key yet; only `SecureConnect` and `GetServerInfo` do anything.
    AwaitingHandshake,
    /// Authorized; the backend connection to `port` is being made.
    Dialing { port: u16 },
    /// Bytes flow between the client and the backend.
    Bridging,
    /// The session is over.
    Closed,
}

/// What the caller has to do for a session.
#[derive(Debug)]
pub enum GatewayAction {
    /// Send this binary frame to the client.
    SendFrame(Vec<u8>),
    /// Connect over TCP to 127.0.0.1 on this port, then report back with
    /// `on_backend_connected` or `on_backend_connect_failed`.
    DialBackend(u16),
    /// Write these bytes to the backend connection.
    ForwardToBackend(Vec<u8>),
    /// Close the WebSocket and drop the backend connection.
    Close,
}

/// `(port, protocol)` is on the allow-list: both must match one entry.
pub open spec fn allowed(list: Seq<AllowedPort>, port: u16, protocol: Protocol) -> bool {
    exists|i: int| 0 <= i < list.len() && list[i].port == port && list[i].protocol == protocol
}

/// Exact-match membership of `(port, protocol)` in the allow-list.
pub fn is_allowed(list: &[AllowedPort], port: u16, protocol: Protocol) -> (r: bool)
    ensures
        r == allowed(list@, port, protocol),
{
    let mut i: usize = 0;
    while i < list.len()
        invariant
            i <= list@.len(),
            forall|j: int| 0 <= j < i ==> !(list@[j].port == port && list@[j].protocol == protocol),
        decreases list@.len() - i,
    {
        if list[i].port == port && list[i].protocol == protocol {
            return true;
        }
        i = i + 1;
    }
    false
}

/// `frame` is the whole encoding of a message with command `c` and payload `p`.
pub open spec fn frame_of(frame: Seq<u8>, c: Command, p: Seq<u8>) -> bool {
    frame.len() <= MAX_FRAME && enc_message(c, p) == frame
}

/// `frame` carries a message with command `c` whose payload seals `p`.
pub open spec fn sealed_frame_of(ctx: SecureContext, frame: Seq<u8>, c: Command, p: Seq<u8>) -> bool {
    exists|s: Seq<u8>| #[trigger] frame_of(frame, c, s) && sealed_under(ctx.crypto, p, s)
}

/// Commands whose payload is never sealed.
pub open spec fn is_plaintext_command(c: Command) -> bool {
    c == Command::SecureConnect || c == Command::GetServerInfo
}

pub open spec fn forwards(actions: Seq<GatewayAction>) -> bool {
    exists|i: int| 0 <= i < actions.len() && actions[i] is ForwardToBackend
}

pub open spec fn dials(actions: Seq<GatewayAction>, port: u16) -> bool {
    exists|i: int| 0 <= i < actions.len() && actions[i] == GatewayAction::DialBackend(port)
}

pub open spec fn digit_char(d: nat) -> char {
    if d == 0 { '0' } else if d == 1 { '1' } else if d == 2 { '2' } else if d == 3 { '3' } else if d
        == 4 { '4' } else if d == 5 { '5' } else if d == 6 { '6' } else if d == 7 { '7' } else if d
        == 8 { '8' } else { '9' }
}

/// The decimal digits of `n`, without leading zeros.
pub open spec fn decimal(n: nat) -> Seq<char>
    decreases n,
{
    if n < 10 {
        seq![digit_char(n)]
    } else {
        decimal(n / 10).push(digit_char(n % 10))
    }
}

fn digit_str(d: u64) -> (r: &'static str)
    requires
        d < 10,
    ensures
        r@ == seq![digit_char(d as nat)],
{
    if d == 0 {
        proof { reveal_strlit("0"); }
        "0"
    } else if d == 1 {
        proof { reveal_strlit("1"); }
        "1"
    } else if d == 2 {
        proof { reveal_strlit("2"); }
        "2"
    } else if d == 3 {
        proof { reveal_strlit("3"); }
        "3"
    } else if d == 4 {
        proof { reveal_strlit("4"); }
        "4"
    } else if d == 5 {
        proof { reveal_strlit("5"); }
        "5"
    } else if d == 6 {
        proof { reveal_strlit("6"); }
        "6"
    } else if d == 7 {
        proof { reveal_strlit("7"); }
        "7"
    } else if d == 8 {
        proof { reveal_strlit("8"); }
        "8"
    } else {
        proof { reveal_strlit("9"); }
        "9"
    }
}

/// The decimal digits of `n`.
fn decimal_string(n: u64) -> (r: String)
    ensures
        r@ == decimal(n as nat),
    decreases n,
{
    if n < 10 {
        String::from_str(digit_str(n))
    } else {
        let mut s = decimal_string(n / 10);
        s.append(digit_str(n % 10));
        s
    }
}

pub open spec fn protocol_text(p: Protocol) -> Seq<char> {
    match p {
        Protocol::TCP => "TCP"@,
        Protocol::UDP => "UDP"@,
    }
}

/// The reason sent to a client whose target is refused.
pub open spec fn unauthorized_text(port: u16, protocol: Protocol) -> Seq<char> {
    "Unauthorized access to port "@ + decimal(port as nat) + ": "@ + protocol_text(protocol)
}

proof fn lemma_decimal_short(n: nat)
    requires
        n < 100000,
    ensures
        decimal(n).len() <= 5,
{
    reveal_with_fuel(decimal, 6);
}

/// A refusal's reason is short enough to go out in one frame.
proof fn lemma_unauthorized_fits(port: u16, protocol: Protocol)
    ensures
        ConnectResponsePayload::enc((false, unauthorized_text(port, protocol))).len() <= MAX_DATA,
{
    let t = unauthorized_text(port, protocol);
    reveal_strlit("Unauthorized access to port ");
    reveal_strlit(": ");
    reveal_strlit("TCP");
    reveal_strlit("UDP");
    lemma_decimal_short(port as nat);
    lemma_encode_utf8_len(t);
}

/// Every character takes at most four bytes in UTF-8.
proof fn lemma_encode_utf8_len(t: Seq<char>)
    ensures
        encode_utf8(t).len() <= 4 * t.len(),
    decreases t.len(),
{
    if t.len() > 0 {
        encode_utf8_first_scalar(t);
        lemma_encode_utf8_len(t.drop_first());
    }
}

/// The reason sent to a client that asks for a plaintext session.
pub open spec fn required_text() -> Seq<char> {
    "Secure connection is required."@
}

proof fn lemma_required_fits()
    ensures
        ConnectResponsePayload::enc((false, required_text())).len() <= MAX_DATA,
{
    reveal_strlit("Secure connection is required.");
    lemma_encode_utf8_len(required_text());
}

fn unauthorized_message(port: u16, protocol: Protocol) -> (r: String)
    ensures
        r@ == unauthorized_text(port, protocol),
{
    let mut m = String::from_str("Unauthorized access to port ");
    let digits = decimal_string(port as u64);
    m.append(digits.as_str());
    m.append(": ");
    match protocol {
        Protocol::TCP => m.append("TCP"),
        Protocol::UDP => m.append("UDP"),
    }
    m
}

/// Largest payload that always fits in a sealed frame: a byte takes up to
/// two bytes in a frame, so this is half of `MAX_FRAME`, less the frame's
/// headers and the 28 bytes of nonce and tag.
pub const MAX_DATA: usize = 8388564;

/// State of one gateway session.
pub struct WsProxySession {
    pub allowed_ports: Vec<AllowedPort>,
    /// Reported in `ServerInfoResponse`.
    pub server_version: String,
    pub secure_context: SecureContext,
    pub state: GatewayState,
}

impl WsProxySession {
    /// The key exists exactly from authorization on.
    pub open spec fn wf(&self) -> bool {
        &&& (self.state is AwaitingHandshake ==> self.secure_context.crypto is None)
        &&& (self.state is Dialing || self.state is Bridging) ==> self.secure_context.crypto is Some
    }

    pub fn new(allowed_ports: Vec<AllowedPort>, server_version: String) -> (r: WsProxySession)
        ensures
            r.wf(),
            r.state == GatewayState::AwaitingHandshake,
            r.allowed_ports@ == allowed_ports@,
            r.server_version@ == server_version@,
    {
        WsProxySession { allowed_ports, server_version, secure_context: SecureContext::new(), state: GatewayState::AwaitingHandshake }
    }

    /// The frame that carries `command` with `payload` sealed under the
    /// session key, or `None` where it would exceed the frame limit.
    pub fn send_packet(&self, command: Command, payload: Vec<u8>) -> (r: Option<Vec<u8>>)
        ensures
            r matches Some(f) ==> sealed_frame_of(self.secure_context, f@, command, payload@),
            payload@.len() <= MAX_DATA ==> r is Some,
    {
        let sealed = match self.secure_context.seal_message(Message::new(command, payload)) {
            Ok(m) => m,
            Err(_) => { return None; },
        };
        match sealed.to_vec() {
            Ok(f) => {
                assert(frame_of(f@, command, sealed.payload@));
                Some(f)
            },
            Err(_) => None,
        }
    }

    /// A sealed `ConnectResponse` frame, if it fits.
    fn response_frame(&self, success: bool, message: String) -> (r: Option<Vec<u8>>)
        ensures
            r matches Some(f) ==> sealed_frame_of(self.secure_context, f@, Command::ConnectResponse, ConnectResponsePayload::enc((success, message@))),
            ConnectResponsePayload::enc((success, message@)).len() <= MAX_DATA ==> r is Some,
    {
        let payload = ConnectResponsePayload { success, message };
        match payload.to_wire() {
            Ok(bytes) => self.send_packet(Command::ConnectResponse, bytes),
            Err(_) => None,
        }
    }

    /// Ends the session: a failure response, if one fits, then `Close`.
    pub fn stop_with_error(&mut self, message: String) -> (r: Vec<GatewayAction>)
        requires
            old(self).wf(),
        ensures
            final(self).wf(),
            final(self).state == GatewayState::Closed,
            final(self).allowed_ports == old(self).allowed_ports,
            final(self).secure_context == old(self).secure_context,
            !forwards(r@),
            forall|p: u16| !#[trigger] dials(r@, p),
            r@.len() >= 1 && r@.last() is Close,
            r@.len() <= 2,
            r@.len() == 2 ==> (r@[0] matches GatewayAction::SendFrame(f) && sealed_frame_of(old(self).secure_context, f@, Command::ConnectResponse, ConnectResponsePayload::enc((false, message@)))),
            ConnectResponsePayload::enc((false, message@)).len() <= MAX_DATA ==> r@.len() == 2,
    {
        let mut r: Vec<GatewayAction> = Vec::new();
        let ghost msg = message@;
        match self.response_frame(false, message) {
            Some(f) => r.push(GatewayAction::SendFrame(f)),
            None => {},
        }
        r.push(GatewayAction::Close);
        self.state = GatewayState::Closed;
        r
    }

    /// Handles one binary frame from the client.
    pub fn handle<E: Encryptor>(&mut self, frame: &[u8], server_key: &E) -> (r: Vec<GatewayAction>)
        requires
            old(self).wf(),
        ensures
            final(self).wf(),
            final(self).allowed_ports == old(self).allowed_ports,
            // a closed session stays closed and does nothing
            old(self).state is Closed ==> r@.len() == 0 && final(self).state is Closed,
            // nothing reaches the backend before the session bridges
            forwards(r@) ==> old(self).state is Bridging,
            // only an allow-listed TCP target is ever dialled, and only once
            forall|p: u16| #[trigger] dials(r@, p) ==> allowed(old(self).allowed_ports@, p, Protocol::TCP)
                && old(self).state is AwaitingHandshake && final(self).state == (GatewayState::Dialing { port: p }),
            // a payload that does not open under the session key ends the session
            forall|c: Command, s: Seq<u8>|
                #[trigger] frame_of(frame@, c, s) && !is_plaintext_command(c) && old(self).secure_context.crypto is Some
                    && !(old(self).state is Closed) && (forall|p: Seq<u8>| !#[trigger] sealed_under(old(self).secure_context.crypto, p, s))
                    ==> r@ == seq![GatewayAction::Close] && final(self).state is Closed,
            // while bridging, a `Data` frame forwards exactly the bytes it seals
            forall|s: Seq<u8>, p: Seq<u8>|
                #[trigger] frame_of(frame@, Command::Data, s) && #[trigger] sealed_under(old(self).secure_context.crypto, p, s)
                    && old(self).state is Bridging ==> r@.len() == 1 && (r@[0] matches GatewayAction::ForwardToBackend(b) && b@ == p)
                    && final(self).state is Bridging,
            // `Disconnect` ends the session
            forall|s: Seq<u8>| #[trigger] frame_of(frame@, Command::Disconnect, s) && !(old(self).state is Closed)
                && !(old(self).state is AwaitingHandshake) ==> r@ == seq![GatewayAction::Close] && final(self).state is Closed,
            // before the handshake only `SecureConnect`, `GetServerInfo` and the refused
            // `Connect` do anything; every other command is ignored
            forall|c: Command, s: Seq<u8>|
                #[trigger] frame_of(frame@, c, s) && old(self).state is AwaitingHandshake && !is_plaintext_command(c)
                    && c != Command::Connect ==> r@.len() == 0 && final(self).state == old(self).state
                    && final(self).secure_context == old(self).secure_context,
            // `Ping` is answered by a `Pong` that seals the same payload
            forall|s: Seq<u8>, p: Seq<u8>|
                #[trigger] frame_of(frame@, Command::Ping, s) && #[trigger] sealed_under(old(self).secure_context.crypto, p, s)
                    && !(old(self).state is Closed) && !(old(self).state is AwaitingHandshake) && p.len() <= MAX_DATA
                    ==> r@.len() == 1 && final(self).state == old(self).state
                    && final(self).secure_context == old(self).secure_context
                    && (r@[0] matches GatewayAction::SendFrame(f) && sealed_frame_of(old(self).secure_context, f@, Command::Pong, p)),
            // `GetServerInfo` is answered in plaintext with the version and the allow-list
            forall|s: Seq<u8>| #[trigger] frame_of(frame@, Command::GetServerInfo, s) && !(old(self).state is Closed)
                ==> final(self).state == old(self).state && final(self).secure_context == old(self).secure_context
                    && r@.len() <= 1 && (r@.len() == 1 ==> (r@[0] matches GatewayAction::SendFrame(f)
                    && frame_of(f@, Command::ServerInfoResponse, ServerInfoResponsePayload::enc((old(self).server_version@, old(self).allowed_ports@)))))
                    && (ServerInfoResponsePayload::enc((old(self).server_version@, old(self).allowed_ports@)).len() <= MAX_FRAME / 2 - 16 ==> r@.len() == 1),
            // a plaintext `Connect` is refused with a `ConnectResponse` and ends the session
            forall|s: Seq<u8>| #[trigger] frame_of(frame@, Command::Connect, s) && !(old(self).state is Closed)
                ==> final(self).state is Closed && r@.len() >= 1 && r@.last() is Close,
            forall|s: Seq<u8>, p: Seq<u8>|
                #[trigger] frame_of(frame@, Command::Connect, s) && #[trigger] sealed_under(old(self).secure_context.crypto, p, s)
                    && !(old(self).state is Closed) ==> r@.len() == 2 && (r@[0] matches GatewayAction::SendFrame(f)
                    && sealed_frame_of(old(self).secure_context, f@, Command::ConnectResponse, ConnectResponsePayload::enc((false, required_text())))),
            // a frame that is no message is dropped; the session goes on unchanged
            (forall|c: Command, s: Seq<u8>| !#[trigger] frame_of(frame@, c, s)) ==> r@.len() == 0
                && final(self).state == old(self).state && final(self).secure_context == old(self).secure_context,
            // a `Data` frame before the session bridges is dropped; the session goes on unchanged
            forall|s: Seq<u8>, p: Seq<u8>|
                #[trigger] frame_of(frame@, Command::Data, s) && #[trigger] sealed_under(old(self).secure_context.crypto, p, s)
                    && !(old(self).state is Bridging) ==> r@.len() == 0 && final(self).state == old(self).state
                    && final(self).secure_context == old(self).secure_context,
            // the key only changes in the handshake
            !(old(self).state is AwaitingHandshake) ==> final(self).secure_context == old(self).secure_context,
    {
        if self.state == GatewayState::Closed {
            return Vec::new();
        }
        let packet = match Message::from_slice(frame) {
            Ok(m) => m,
            Err(_) => { return Vec::new(); },
        };
        let ghost raw = packet.payload@;
        assert(frame_of(frame@, packet.command, raw));
        if self.state == GatewayState::AwaitingHandshake && packet.command != Command::SecureConnect
            && packet.command != Command::GetServerInfo && packet.command != Command::Connect {
            return Vec::new();
        }
        let packet = if packet.command != Command::SecureConnect && packet.command != Command::GetServerInfo {
            match self.secure_context.unseal_message(packet) {
                Ok(m) => m,
                Err(_) => {
                    self.state = GatewayState::Closed;
                    let mut r: Vec<GatewayAction> = Vec::new();
                    r.push(GatewayAction::Close);
                    assert(r@ =~= seq![GatewayAction::Close]);
                    return r;
                },
            }
        } else {
            packet
        };
        let mut r: Vec<GatewayAction> = Vec::new();
        match packet.command {
            Command::SecureConnect => {
                if self.state != GatewayState::AwaitingHandshake {
                    return r;
                }
                let outcome = handle_server_handshake(packet, server_key);
                return self.accept_handshake(outcome);
            },
            Command::Connect => {
                let message = String::from_str("Secure connection is required.");
                proof {
                    lemma_required_fits();
                }
                return self.stop_with_error(message);
            },
            Command::Data => {
                if self.state == GatewayState::Bridging {
                    r.push(GatewayAction::ForwardToBackend(packet.payload));
                }
            },
            Command::Disconnect => {
                self.state = GatewayState::Closed;
                r.push(GatewayAction::Close);
                assert(r@ =~= seq![GatewayAction::Close]);
            },
            Command::GetServerInfo => {
                let info = ServerInfoResponsePayload {
                    server_version: self.server_version.clone(),
                    allowed_ports: self.allowed_ports.clone(),
                };
                assert(info@ == (self.server_version@, self.allowed_ports@));
                match Message::from_payload(Command::ServerInfoResponse, &info) {
                    Ok(m) => match m.to_vec() {
                        Ok(f) => {
                            assert(frame_of(f@, Command::ServerInfoResponse, m.payload@));
                            r.push(GatewayAction::SendFrame(f));
                        },
                        Err(_) => {},
                    },
                    Err(_) => {},
                }
            },
            Command::Ping => {
                match self.send_packet(Command::Pong, packet.payload) {
                    Some(f) => r.push(GatewayAction::SendFrame(f)),
                    None => {},
                }
            },
            _ => {},
        }
        r
    }

    /// Decides on the outcome of the server side of the handshake: a
    /// failure ends the session without a response; an allow-listed TCP
    /// target is dialled; any other target gets a sealed refusal.
    pub fn accept_handshake(&mut self, outcome: Result<(SecureContext, Protocol, u16), HandshakeError>) -> (r: Vec<GatewayAction>)
        requires
            old(self).wf(),
            old(self).state is AwaitingHandshake,
            outcome matches Ok((ctx, _, _)) ==> ctx.crypto is Some,
        ensures
            final(self).wf(),
            final(self).allowed_ports == old(self).allowed_ports,
            !forwards(r@),
            match outcome {
                Err(_) => r@ == seq![GatewayAction::Close] && final(self).state is Closed
                    && final(self).secure_context == old(self).secure_context,
                Ok((ctx, protocol, port)) => final(self).secure_context == ctx && if protocol == Protocol::TCP && allowed(old(self).allowed_ports@, port, protocol) {
                    r@ == seq![GatewayAction::DialBackend(port)] && final(self).state == (GatewayState::Dialing { port })
                } else {
                    final(self).state is Closed && r@.len() == 2 && r@[1] is Close && (r@[0] matches GatewayAction::SendFrame(f)
                        && sealed_frame_of(ctx, f@, Command::ConnectResponse, ConnectResponsePayload::enc((false, unauthorized_text(port, protocol)))))
                },
            },
            forall|p: u16| #[trigger] dials(r@, p) ==> allowed(old(self).allowed_ports@, p, Protocol::TCP)
                && final(self).state == (GatewayState::Dialing { port: p }),
    {
        let (context, protocol, port) = match outcome {
            Ok(x) => x,
            Err(_) => {
                // no response: a failed unwrap gives the peer nothing to probe
                self.state = GatewayState::Closed;
                let mut r: Vec<GatewayAction> = Vec::new();
                r.push(GatewayAction::Close);
                assert(r@ =~= seq![GatewayAction::Close]);
                return r;
            },
        };
        self.secure_context = context;
        self.state = GatewayState::Dialing { port };
        if protocol != Protocol::TCP || !is_allowed(self.allowed_ports.as_slice(), port, protocol) {
            let message = unauthorized_message(port, protocol);
            proof {
                lemma_unauthorized_fits(port, protocol);
            }
            return self.stop_with_error(message);
        }
        let mut r: Vec<GatewayAction> = Vec::new();
        r.push(GatewayAction::DialBackend(port));
        assert(r@ =~= seq![GatewayAction::DialBackend(port)]);
        proof {
            assert forall|p: u16| #[trigger] dials(r@, p) implies p == port by {
                let i = choose|i: int| 0 <= i < r@.len() && r@[i] == GatewayAction::DialBackend(p);
                assert(i == 0);
            }
        }
        r
    }

    /// The backend connection is up: the session bridges and tells the
    /// client so.
    pub fn on_backend_connected(&mut self) -> (r: Vec<GatewayAction>)
        requires
            old(self).wf(),
        ensures
            final(self).wf(),
            final(self).allowed_ports == old(self).allowed_ports,
            final(self).secure_context == old(self).secure_context,
            !forwards(r@),
            forall|p: u16| !#[trigger] dials(r@, p),
            old(self).state is Dialing ==> final(self).state is Bridging && r@.len() == 1 && (r@[0] matches GatewayAction::SendFrame(f)
                && sealed_frame_of(old(self).secure_context, f@, Command::ConnectResponse, ConnectResponsePayload::enc((true, "OK"@)))),
            !(old(self).state is Dialing) ==> r@.len() == 0 && final(self).state == old(self).state,
    {
        let mut r: Vec<GatewayAction> = Vec::new();
        match self.state {
            GatewayState::Dialing { .. } => {
                self.state = GatewayState::Bridging;
                let ok = String::from_str("OK");
                proof {
                    reveal_strlit("OK");
                    is_ascii_chars_encode_utf8(ok@);
                    assert(encode_utf8(ok@).len() == 2);
                }
                match self.response_frame(true, ok) {
                    Some(f) => r.push(GatewayAction::SendFrame(f)),
                    None => {},
                }
            },
            _ => {},
        }
        r
    }

    /// The backend could not be reached: the client gets the reason, then
    /// the session ends.
    pub fn on_backend_connect_failed(&mut self, reason: String) -> (r: Vec<GatewayAction>)
        requires
            old(self).wf(),
        ensures
            final(self).wf(),
            final(self).allowed_ports == old(self).allowed_ports,
            final(self).secure_context == old(self).secure_context,
            !forwards(r@),
            forall|p: u16| !#[trigger] dials(r@, p),
            !(old(self).state is Closed) ==> final(self).state is Closed && r@.last() is Close,
            old(self).state is Closed ==> r@.len() == 0 && final(self).state is Closed,
            // the client learns why, in a sealed `ConnectResponse`
            !(old(self).state is Closed) && ConnectResponsePayload::enc((false, reason@)).len() <= MAX_DATA
                ==> r@.len() == 2 && (r@[0] matches GatewayAction::SendFrame(f)
                && sealed_frame_of(old(self).secure_context, f@, Command::ConnectResponse, ConnectResponsePayload::enc((false, reason@)))),
    {
        if self.state == GatewayState::Closed {
            return Vec::new();
        }
        self.stop_with_error(reason)
    }

    /// Bytes read from the backend go to the client in a sealed `Data`
    /// frame.
    pub fn on_backend_data(&mut self, data: Vec<u8>) -> (r: Vec<GatewayAction>)
        requires
            old(self).wf(),
        ensures
            final(self).wf(),
            final(self).allowed_ports == old(self).allowed_ports,
            final(self).secure_context == old(self).secure_context,
            !forwards(r@),
            forall|p: u16| !#[trigger] dials(r@, p),
            !(old(self).state is Bridging) ==> r@.len() == 0 && final(self).state == old(self).state,
            old(self).state is Bridging && data@.len() <= MAX_DATA ==> r@.len() == 1 && final(self).state is Bridging
                && (r@[0] matches GatewayAction::SendFrame(f) && sealed_frame_of(old(self).secure_context, f@, Command::Data, data@)),
            old(self).state is Bridging && data@.len() > MAX_DATA ==> (r@.len() == 1 && final(self).state is Bridging
                && (r@[0] matches GatewayAction::SendFrame(f) && sealed_frame_of(old(self).secure_context, f@, Command::Data, data@)))
                || (r@ == seq![GatewayAction::Close] && final(self).state is Closed),
    {
        let mut r: Vec<GatewayAction> = Vec::new();
        if self.state != GatewayState::Bridging {
            return r;
        }
        match self.send_packet(Command::Data, data) {
            Some(f) => r.push(GatewayAction::SendFrame(f)),
            None => {
                self.state = GatewayState::Closed;
                r.push(GatewayAction::Close);
                assert(r@ =~= seq![GatewayAction::Close]);
            },
        }
        r
    }

    /// The backend connection ended, or the WebSocket did: the session ends.
    pub fn on_closed(&mut self) -> (r: Vec<GatewayAction>)
        requires
            old(self).wf(),
        ensures
            final(self).wf(),
            final(self).allowed_ports == old(self).allowed_ports,
            final(self).secure_context == old(self).secure_context,
            final(self).state is Closed,
            old(self).state is Closed ==> r@.len() == 0,
            !(old(self).state is Closed) ==> r@ == seq![GatewayAction::Close],
    {
        let mut r: Vec<GatewayAction> = Vec::new();
        if self.state != GatewayState::Closed {
            r.push(GatewayAction::Close);
            assert(r@ =~= seq![GatewayAction::Close]);
        }
        self.state = GatewayState::Closed;
        r
    }
}

} // verus!
