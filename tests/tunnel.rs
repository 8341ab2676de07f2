use mc_connect_core::client::{ClientAction, ClientSession, ClientState, TunnelError, TunnelStats, WsClientService};
use mc_connect_core::crypto::{CryptoKeyPair, KeyGenerator, RsaKeyGenerator, RsaKeyPair, SymmetricCrypto};
use mc_connect_core::gateway::{is_allowed, GatewayAction, WsProxySession, GatewayState};
use mc_connect_core::session::{create_secure_connect_packet, handle_server_handshake, HandshakeError, SecureContext};
use mc_connect_core::wire::{AllowedPort, Command, ConnectResponsePayload, Message, PingPayload, Protocol, WireRecord};

fn keys() -> (RsaKeyPair, RsaKeyPair) {
    let pair = RsaKeyGenerator { bits: 1024 }.generate().unwrap();
    let public = RsaKeyPair::from_public_der(&pair.public_key_bytes().unwrap()).unwrap();
    (pair, public)
}

fn minecraft() -> Vec<AllowedPort> {
    vec![AllowedPort { port: 25565, protocol: Protocol::TCP }]
}

fn one_frame(actions: &[GatewayAction]) -> Vec<u8> {
    match actions {
        [GatewayAction::SendFrame(f)] => f.clone(),
        other => panic!("expected one frame, got {:?}", other),
    }
}

/// A gateway and a client session past the handshake.
fn bridged(pair: &RsaKeyPair, public: &RsaKeyPair) -> (WsProxySession, ClientSession) {
    let mut gw = WsProxySession::new(minecraft(), "0.1.0".to_string());
    let (mut client, hello) = ClientSession::start(Protocol::TCP, 25565, public).unwrap();
    let actions = gw.handle(&hello, pair);
    assert!(matches!(actions.as_slice(), [GatewayAction::DialBackend(25565)]));
    assert_eq!(gw.state, GatewayState::Dialing { port: 25565 });
    let reply = one_frame(&gw.on_backend_connected());
    assert_eq!(gw.state, GatewayState::Bridging);
    client.on_handshake_reply(&reply).unwrap();
    assert_eq!(client.state, ClientState::Bridging);
    (gw, client)
}

#[test]
fn handshake_contexts_agree() {
    let (pair, public) = keys();
    let (client_ctx, msg) = create_secure_connect_packet(Protocol::TCP, 25565, &public).unwrap();
    assert_eq!(msg.command, Command::SecureConnect);
    let (server_ctx, proto, port) = handle_server_handshake(msg, &pair).unwrap();
    assert_eq!((proto, port), (Protocol::TCP, 25565));
    let sealed = client_ctx.seal_message(Message::new(Command::Data, b"abc".to_vec())).unwrap();
    assert_ne!(sealed.payload, b"abc".to_vec());
    assert_eq!(server_ctx.unseal_message(sealed).unwrap().payload, b"abc".to_vec());
}

#[test]
fn handshake_rejects_other_first_command() {
    let (pair, _) = keys();
    let r = handle_server_handshake(Message::new(Command::Data, vec![]), &pair);
    assert_eq!(r.err().unwrap(), HandshakeError::WrongFirstCommand);
    let r = handle_server_handshake(Message::new(Command::SecureConnect, vec![1, 2, 3]), &pair);
    assert_eq!(r.err().unwrap(), HandshakeError::PayloadDecodeFailed);
}

#[test]
fn empty_context_passes_messages_unchanged() {
    let ctx = SecureContext::new();
    let m = ctx.seal_message(Message::new(Command::Ping, vec![1, 2])).unwrap();
    assert_eq!(m.payload, vec![1, 2]);
    assert_eq!(ctx.unseal_message(m).unwrap().payload, vec![1, 2]);
}

#[test]
fn happy_path_echo() {
    let (pair, public) = keys();
    let (mut gw, mut client) = bridged(&pair, &public);
    let mut stats = TunnelStats::new();
    let up = client.on_local_data(vec![0x48, 0x65, 0x6C, 0x6C, 0x6F], &mut stats);
    let frame = match up.as_slice() {
        [ClientAction::SendFrame(f)] => f.clone(),
        other => panic!("{:?}", other),
    };
    let forwarded = gw.handle(&frame, &pair);
    let bytes = match forwarded.as_slice() {
        [GatewayAction::ForwardToBackend(b)] => b.clone(),
        other => panic!("{:?}", other),
    };
    assert_eq!(bytes, b"Hello".to_vec());
    // the backend echoes
    let back = one_frame(&gw.on_backend_data(bytes));
    let down = client.on_ws_frame(&back, 0, &mut stats);
    match down.as_slice() {
        [ClientAction::WriteLocal(b)] => assert_eq!(b, &vec![0x48, 0x65, 0x6C, 0x6C, 0x6F]),
        other => panic!("{:?}", other),
    }
    assert_eq!(stats.upload_total, 5);
    assert_eq!(stats.download_total, 5);
}

#[test]
fn unauthorized_target_is_refused_without_dialing() {
    let (pair, public) = keys();
    let mut gw = WsProxySession::new(minecraft(), "0.1.0".to_string());
    let (mut client, hello) = ClientSession::start(Protocol::TCP, 8080, &public).unwrap();
    let actions = gw.handle(&hello, &pair);
    assert_eq!(actions.len(), 2);
    assert!(actions.iter().all(|a| !matches!(a, GatewayAction::DialBackend(_))));
    assert!(matches!(actions[1], GatewayAction::Close));
    assert_eq!(gw.state, GatewayState::Closed);
    let reply = match &actions[0] {
        GatewayAction::SendFrame(f) => f.clone(),
        other => panic!("{:?}", other),
    };
    match client.on_handshake_reply(&reply) {
        Err(TunnelError::HandshakeRejected(reason)) => {
            assert!(reason.contains("Unauthorized"));
            assert_eq!(reason, "Unauthorized access to port 8080: TCP");
        },
        other => panic!("{:?}", other),
    }
}

#[test]
fn udp_target_is_refused_even_when_listed() {
    let (pair, public) = keys();
    let mut gw = WsProxySession::new(vec![AllowedPort { port: 19132, protocol: Protocol::UDP }], "0.1.0".to_string());
    let (_, hello) = ClientSession::start(Protocol::UDP, 19132, &public).unwrap();
    let actions = gw.handle(&hello, &pair);
    assert!(actions.iter().all(|a| !matches!(a, GatewayAction::DialBackend(_))));
    assert_eq!(gw.state, GatewayState::Closed);
}

#[test]
fn wrong_public_key_closes_without_response() {
    let (pair, _) = keys();
    let (_, other_public) = keys();
    let mut gw = WsProxySession::new(minecraft(), "0.1.0".to_string());
    let (_, hello) = ClientSession::start(Protocol::TCP, 25565, &other_public).unwrap();
    let actions = gw.handle(&hello, &pair);
    assert!(matches!(actions.as_slice(), [GatewayAction::Close]));
    assert_eq!(gw.state, GatewayState::Closed);
}

#[test]
fn tampered_data_frame_closes_the_session() {
    let (pair, public) = keys();
    let (mut gw, mut client) = bridged(&pair, &public);
    let mut stats = TunnelStats::new();
    let frame = match client.on_local_data(b"secret".to_vec(), &mut stats).as_slice() {
        [ClientAction::SendFrame(f)] => f.clone(),
        other => panic!("{:?}", other),
    };
    let mut tampered = frame.clone();
    let last = tampered.len() - 1;
    tampered[last] ^= 0x01;
    let actions = gw.handle(&tampered, &pair);
    assert!(matches!(actions.as_slice(), [GatewayAction::Close]));
    assert_eq!(gw.state, GatewayState::Closed);
    // a closed session ignores everything after
    assert!(gw.handle(&frame, &pair).is_empty());
}

#[test]
fn tampered_frame_closes_the_client() {
    let (pair, public) = keys();
    let (mut gw, mut client) = bridged(&pair, &public);
    let mut stats = TunnelStats::new();
    let mut frame = one_frame(&gw.on_backend_data(b"data".to_vec()));
    let last = frame.len() - 1;
    frame[last] ^= 0x80;
    let actions = client.on_ws_frame(&frame, 0, &mut stats);
    assert!(matches!(actions.as_slice(), [ClientAction::Close]));
    assert_eq!(client.state, ClientState::Closed);
    assert_eq!(stats.download_total, 0);
}

#[test]
fn rtt_measurement() {
    let (pair, public) = keys();
    let (mut gw, mut client) = bridged(&pair, &public);
    let mut stats = TunnelStats::new();
    let t = 1_000_000u64;
    let ping = client.ping_frame(t).unwrap();
    let pong = one_frame(&gw.handle(&ping, &pair));
    let echoed = Message::from_slice(&pong).unwrap();
    assert_eq!(echoed.command, Command::Pong);
    assert!(client.on_ws_frame(&pong, t + 42, &mut stats).is_empty());
    assert_eq!(stats.last_rtt_ms, 42);
    assert_eq!(stats.get_snapshot().rtt_ms, Some(42));
    // a clock that went back gives zero, not a wrap-around
    let pong2 = one_frame(&gw.handle(&client.ping_frame(t).unwrap(), &pair));
    client.on_ws_frame(&pong2, t - 5, &mut stats);
    assert_eq!(stats.last_rtt_ms, 0);
}

#[test]
fn concurrent_sessions_are_independent() {
    let (pair, public) = keys();
    let (mut gw_a, mut client_a) = bridged(&pair, &public);
    let (mut gw_b, mut client_b) = bridged(&pair, &public);
    assert_ne!(
        client_a.secure_context.crypto.as_ref().map(|e| e.key_bytes()),
        client_b.secure_context.crypto.as_ref().map(|e| e.key_bytes())
    );
    let mut stats = TunnelStats::new();
    let frame_a = match client_a.on_local_data(b"for A".to_vec(), &mut stats).as_slice() {
        [ClientAction::SendFrame(f)] => f.clone(),
        other => panic!("{:?}", other),
    };
    // session B cannot open what session A sealed
    assert!(matches!(gw_b.handle(&frame_a, &pair).as_slice(), [GatewayAction::Close]));
    match gw_a.handle(&frame_a, &pair).as_slice() {
        [GatewayAction::ForwardToBackend(b)] => assert_eq!(b, &b"for A".to_vec()),
        other => panic!("{:?}", other),
    }
    let _ = client_b.on_local_eof();
}

#[test]
fn data_before_bridging_is_dropped() {
    let (pair, public) = keys();
    let mut gw = WsProxySession::new(minecraft(), "0.1.0".to_string());
    let early = Message::new(Command::Data, b"too early".to_vec()).to_vec().unwrap();
    assert!(gw.handle(&early, &pair).is_empty());
    let (client, hello) = ClientSession::start(Protocol::TCP, 25565, &public).unwrap();
    gw.handle(&hello, &pair);
    assert_eq!(gw.state, GatewayState::Dialing { port: 25565 });
    let sealed = client.secure_context.seal_message(Message::new(Command::Data, b"still early".to_vec())).unwrap();
    let frame = sealed.to_vec().unwrap();
    assert!(gw.handle(&frame, &pair).is_empty());
}

#[test]
fn bytes_arrive_in_order() {
    let (pair, public) = keys();
    let (mut gw, mut client) = bridged(&pair, &public);
    let mut stats = TunnelStats::new();
    let chunks: Vec<Vec<u8>> = (0..20u8).map(|i| vec![i; (i as usize) * 100 + 1]).collect();
    let mut received = Vec::new();
    for c in &chunks {
        let f = match client.on_local_data(c.clone(), &mut stats).as_slice() {
            [ClientAction::SendFrame(f)] => f.clone(),
            other => panic!("{:?}", other),
        };
        for a in gw.handle(&f, &pair) {
            if let GatewayAction::ForwardToBackend(b) = a {
                received.extend(b);
            }
        }
    }
    assert_eq!(received, chunks.concat());
}

#[test]
fn local_eof_sends_disconnect_and_gateway_closes() {
    let (pair, public) = keys();
    let (mut gw, mut client) = bridged(&pair, &public);
    let actions = client.on_local_eof();
    assert_eq!(actions.len(), 2);
    assert!(matches!(actions[1], ClientAction::Close));
    let frame = match &actions[0] {
        ClientAction::SendFrame(f) => f.clone(),
        other => panic!("{:?}", other),
    };
    assert!(matches!(gw.handle(&frame, &pair).as_slice(), [GatewayAction::Close]));
    assert_eq!(gw.state, GatewayState::Closed);
}

#[test]
fn backend_failure_reaches_the_client() {
    let (pair, public) = keys();
    let mut gw = WsProxySession::new(minecraft(), "0.1.0".to_string());
    let (mut client, hello) = ClientSession::start(Protocol::TCP, 25565, &public).unwrap();
    gw.handle(&hello, &pair);
    let actions = gw.on_backend_connect_failed("Connection refused".to_string());
    assert_eq!(actions.len(), 2);
    let reply = match &actions[0] {
        GatewayAction::SendFrame(f) => f.clone(),
        other => panic!("{:?}", other),
    };
    assert_eq!(client.on_handshake_reply(&reply), Err(TunnelError::HandshakeRejected("Connection refused".to_string())));
    assert_eq!(client.state, ClientState::Closed);
}

#[test]
fn plaintext_connect_is_refused() {
    let (pair, _) = keys();
    let mut gw = WsProxySession::new(minecraft(), "0.1.0".to_string());
    let frame = Message::new(Command::Connect, vec![]).to_vec().unwrap();
    let actions = gw.handle(&frame, &pair);
    assert_eq!(actions.len(), 2);
    let reply = match &actions[0] {
        GatewayAction::SendFrame(f) => Message::from_slice(f).unwrap(),
        other => panic!("{:?}", other),
    };
    let payload: ConnectResponsePayload = reply.deserialize_payload().unwrap();
    assert!(!payload.success);
    assert_eq!(payload.message, "Secure connection is required.");
    assert_eq!(gw.state, GatewayState::Closed);
}

#[test]
fn server_info_exchange() {
    let (pair, _) = keys();
    let mut gw = WsProxySession::new(minecraft(), "1.2.3".to_string());
    let request = WsClientService::server_info_request();
    assert_eq!(Message::from_slice(&request).unwrap().command, Command::GetServerInfo);
    let reply = one_frame(&gw.handle(&request, &pair));
    let info = WsClientService::read_server_info_reply(&reply).unwrap();
    assert_eq!(info.server_version, "1.2.3");
    assert_eq!(info.allowed_ports, minecraft());
    assert_eq!(gw.state, GatewayState::AwaitingHandshake);
    let not_info = Message::new(Command::Pong, vec![]).to_vec().unwrap();
    assert_eq!(WsClientService::read_server_info_reply(&not_info).err().unwrap(), TunnelError::UnexpectedCommand);
    assert_eq!(WsClientService::read_server_info_reply(&[1, 2]).err().unwrap(), TunnelError::WireDecodeFailed);
}

#[test]
fn allow_list_is_exact_match() {
    let list = vec![
        AllowedPort { port: 25565, protocol: Protocol::TCP },
        AllowedPort { port: 19132, protocol: Protocol::UDP },
    ];
    assert!(is_allowed(&list, 25565, Protocol::TCP));
    assert!(!is_allowed(&list, 25565, Protocol::UDP));
    assert!(!is_allowed(&list, 25566, Protocol::TCP));
    assert!(is_allowed(&list, 19132, Protocol::UDP));
    assert!(!is_allowed(&[], 25565, Protocol::TCP));
}

#[test]
fn stats_counters_and_sampler() {
    let mut s = TunnelStats::new();
    s.add_upload(100);
    s.add_download(40);
    let (up, down) = s.sample(0, 0);
    assert_eq!((up, down), (100, 40));
    assert_eq!((s.upload_speed, s.download_speed), (100, 40));
    s.add_upload(10);
    let next = s.sample(up, down);
    assert_eq!(next, (110, 40));
    assert_eq!((s.upload_speed, s.download_speed), (10, 0));
    s.add_upload(u64::MAX);
    assert_eq!(s.upload_total, u64::MAX);
    let snap = s.get_snapshot();
    assert_eq!(snap.upload_total, u64::MAX);
    assert_eq!(snap.download_total, 40);
}

#[test]
fn ping_payload_carries_timestamp() {
    let (pair, public) = keys();
    let (gw, client) = bridged(&pair, &public);
    let ping = Message::from_slice(&client.ping_frame(77).unwrap()).unwrap();
    assert_eq!(ping.command, Command::Ping);
    let opened = gw.secure_context.unseal_message(ping).unwrap();
    let p: PingPayload = opened.deserialize_payload().unwrap();
    assert_eq!(p.timestamp, 77);
    assert_eq!(p.to_wire().unwrap(), opened.payload);
}

#[test]
fn failed_handshake_closes_without_response() {
    let mut gw = WsProxySession::new(minecraft(), "0.1.0".to_string());
    let actions = gw.accept_handshake(Err(HandshakeError::RsaDecryptFailed));
    assert!(matches!(actions.as_slice(), [GatewayAction::Close]));
    assert_eq!(gw.state, GatewayState::Closed);
}

#[test]
fn accepted_handshake_dials_only_listed_targets() {
    let (pair, public) = keys();
    for (port, dials) in [(25565u16, true), (25566, false)] {
        let mut gw = WsProxySession::new(minecraft(), "0.1.0".to_string());
        let (_, msg) = create_secure_connect_packet(Protocol::TCP, port, &public).unwrap();
        let outcome = handle_server_handshake(msg, &pair);
        let actions = gw.accept_handshake(outcome);
        assert_eq!(actions.iter().any(|a| matches!(a, GatewayAction::DialBackend(p) if *p == port)), dials);
    }
}

#[test]
fn undecodable_frame_is_dropped() {
    let (pair, public) = keys();
    let (mut gw, _client) = bridged(&pair, &public);
    assert!(gw.handle(&[0xc1, 0x00, 0x17], &pair).is_empty());
    assert!(gw.handle(&[], &pair).is_empty());
    assert_eq!(gw.state, GatewayState::Bridging);
}

#[test]
fn connect_failure_after_dial_is_sealed() {
    let (pair, public) = keys();
    let mut gw = WsProxySession::new(minecraft(), "0.1.0".to_string());
    let (client, hello) = ClientSession::start(Protocol::TCP, 25565, &public).unwrap();
    gw.handle(&hello, &pair);
    let actions = gw.on_backend_connect_failed("refused".to_string());
    let frame = match &actions[0] {
        GatewayAction::SendFrame(f) => Message::from_slice(f).unwrap(),
        other => panic!("{:?}", other),
    };
    // not readable without the session key
    assert!(frame.deserialize_payload::<ConnectResponsePayload>().is_err());
    let opened = client.secure_context.unseal_message(frame).unwrap();
    let p: ConnectResponsePayload = opened.deserialize_payload().unwrap();
    assert_eq!((p.success, p.message.as_str()), (false, "refused"));
}

#[test]
fn commands_before_handshake_are_ignored() {
    let (pair, _) = keys();
    let mut gw = WsProxySession::new(minecraft(), "0.1.0".to_string());
    for c in [Command::Ping, Command::Pong, Command::Disconnect, Command::Data, Command::Stats] {
        let frame = Message::new(c, vec![1, 2, 3]).to_vec().unwrap();
        assert!(gw.handle(&frame, &pair).is_empty());
        assert_eq!(gw.state, GatewayState::AwaitingHandshake);
    }
}
