use mc_connect_core::msgpack::MAX_FRAME;
use mc_connect_core::wire::{
    AllowedPort, Command, ConnectResponsePayload, Message, PingPayload, Protocol,
    SecureConnectPayload, ServerInfoResponsePayload, WireError, WireRecord,
};

const ALL_COMMANDS: [(Command, &str); 10] = [
    (Command::Connect, "Connect"),
    (Command::ConnectResponse, "ConnectResponse"),
    (Command::GetServerInfo, "GetServerInfo"),
    (Command::ServerInfoResponse, "ServerInfoResponse"),
    (Command::Data, "Data"),
    (Command::Disconnect, "Disconnect"),
    (Command::Ping, "Ping"),
    (Command::Pong, "Pong"),
    (Command::Stats, "Stats"),
    (Command::SecureConnect, "SecureConnect"),
];

#[test]
fn message_round_trip_every_command() {
    for (c, _) in ALL_COMMANDS.iter() {
        for payload in [vec![], vec![0u8, 1, 127, 128, 255], (0..=255u8).collect::<Vec<u8>>()] {
            let m = Message::new(*c, payload.clone());
            let bytes = m.to_vec().unwrap();
            let back = Message::from_slice(&bytes).unwrap();
            assert_eq!(back.command, *c);
            assert_eq!(back.payload, payload);
        }
    }
}

#[test]
fn message_bytes_match_rmp_serde() {
    for (c, name) in ALL_COMMANDS.iter() {
        let payload: Vec<u8> = (0..40u8).map(|i| i.wrapping_mul(37)).collect();
        let ours = Message::new(*c, payload.clone()).to_vec().unwrap();
        let reference = rmp_serde::to_vec(&(name, &payload)).unwrap();
        assert_eq!(ours, reference);
        let decoded: (String, Vec<u8>) = rmp_serde::from_slice(&ours).unwrap();
        assert_eq!(decoded.0, *name);
        assert_eq!(decoded.1, payload);
    }
}

#[test]
fn long_payload_uses_array16_header() {
    let payload = vec![200u8; 300];
    let bytes = Message::new(Command::Data, payload.clone()).to_vec().unwrap();
    assert_eq!(bytes, rmp_serde::to_vec(&("Data", &payload)).unwrap());
    assert_eq!(bytes[0], 0x92);
    assert_eq!(&bytes[1..6], &[0xa4, b'D', b'a', b't', b'a']);
    assert_eq!(&bytes[6..9], &[0xdc, 0x01, 0x2c]);
    assert_eq!(&bytes[9..11], &[0xcc, 200]);
    assert_eq!(bytes.len(), 9 + 600);
}

#[test]
fn unknown_command_is_malformed() {
    let bytes = rmp_serde::to_vec(&("Reboot", vec![1u8, 2])).unwrap();
    assert_eq!(Message::from_slice(&bytes).unwrap_err(), WireError::Malformed);
}

#[test]
fn trailing_or_truncated_bytes_are_malformed() {
    let mut bytes = Message::new(Command::Ping, vec![1, 2, 3]).to_vec().unwrap();
    bytes.push(0);
    assert_eq!(Message::from_slice(&bytes).unwrap_err(), WireError::Malformed);
    bytes.truncate(bytes.len() - 2);
    assert_eq!(Message::from_slice(&bytes).unwrap_err(), WireError::Malformed);
    assert_eq!(Message::from_slice(&[]).unwrap_err(), WireError::Malformed);
}

#[test]
fn non_shortest_integer_is_malformed() {
    // 5 written as a u8 (0xcc 0x05) instead of a positive fixint
    let bytes = vec![0x92, 0xa4, b'D', b'a', b't', b'a', 0x91, 0xcc, 0x05];
    assert_eq!(Message::from_slice(&bytes).unwrap_err(), WireError::Malformed);
}

#[test]
fn oversized_frame_is_rejected() {
    let bytes = vec![0u8; MAX_FRAME + 1];
    assert_eq!(Message::from_slice(&bytes).unwrap_err(), WireError::FrameTooLarge);
    let m = Message::new(Command::Data, vec![200u8; MAX_FRAME / 2]);
    assert_eq!(m.to_vec().unwrap_err(), WireError::FrameTooLarge);
}

#[test]
fn ping_payload_round_trip_and_layout() {
    for t in [0u64, 127, 128, 255, 256, 65535, 65536, 4294967295, 4294967296, u64::MAX] {
        let bytes = PingPayload { timestamp: t }.to_wire().unwrap();
        assert_eq!(bytes, rmp_serde::to_vec(&(t,)).unwrap());
        assert_eq!(PingPayload::from_wire(&bytes).unwrap().timestamp, t);
    }
}

#[test]
fn connect_response_round_trip() {
    for (ok, text) in [(true, "OK"), (false, "Unauthorized access to port 8080: TCP"), (false, "é ünïcode ✓"), (true, "")] {
        let p = ConnectResponsePayload { success: ok, message: text.to_string() };
        let bytes = p.to_wire().unwrap();
        assert_eq!(bytes, rmp_serde::to_vec(&(ok, text)).unwrap());
        let back = ConnectResponsePayload::from_wire(&bytes).unwrap();
        assert_eq!(back.success, ok);
        assert_eq!(back.message, text);
    }
}

#[test]
fn connect_response_with_invalid_utf8_is_malformed() {
    let bytes = vec![0x92, 0xc3, 0xa2, 0xff, 0xfe];
    assert_eq!(ConnectResponsePayload::from_wire(&bytes).unwrap_err(), WireError::Malformed);
}

#[test]
fn secure_connect_round_trip() {
    let key: Vec<u8> = (0..=255u8).collect();
    let long_alg = "A".repeat(40);
    for (proto, name) in [(Protocol::TCP, "TCP"), (Protocol::UDP, "UDP")] {
        for alg in ["AES-256-GCM", long_alg.as_str()] {
            let p = SecureConnectPayload {
                protocol: proto,
                port: 25565,
                encrypted_key: key.clone(),
                algorithm: alg.to_string(),
            };
            let bytes = p.to_wire().unwrap();
            assert_eq!(bytes, rmp_serde::to_vec(&(name, 25565u16, &key, alg)).unwrap());
            let back = SecureConnectPayload::from_wire(&bytes).unwrap();
            assert_eq!(back.protocol, proto);
            assert_eq!(back.port, 25565);
            assert_eq!(back.encrypted_key, key);
            assert_eq!(back.algorithm, alg);
        }
    }
}

#[test]
fn secure_connect_port_out_of_range_is_malformed() {
    let bytes = rmp_serde::to_vec(&("TCP", 70000u32, vec![1u8], "AES-256-GCM")).unwrap();
    assert_eq!(SecureConnectPayload::from_wire(&bytes).unwrap_err(), WireError::Malformed);
}

#[test]
fn server_info_round_trip() {
    let ports = vec![
        AllowedPort { port: 25565, protocol: Protocol::TCP },
        AllowedPort { port: 19132, protocol: Protocol::UDP },
    ];
    let p = ServerInfoResponsePayload { server_version: "0.1.0".to_string(), allowed_ports: ports.clone() };
    let bytes = p.to_wire().unwrap();
    let reference = rmp_serde::to_vec(&("0.1.0", vec![(25565u16, "TCP"), (19132u16, "UDP")])).unwrap();
    assert_eq!(bytes, reference);
    let back = ServerInfoResponsePayload::from_wire(&bytes).unwrap();
    assert_eq!(back.server_version, "0.1.0");
    assert_eq!(back.allowed_ports, ports);
    let many: Vec<AllowedPort> = (0..20u16).map(|i| AllowedPort { port: 1000 + i, protocol: Protocol::TCP }).collect();
    let p = ServerInfoResponsePayload { server_version: String::new(), allowed_ports: many.clone() };
    let back = ServerInfoResponsePayload::from_wire(&p.to_wire().unwrap()).unwrap();
    assert_eq!(back.allowed_ports, many);
}

#[test]
fn message_from_payload_and_back() {
    let m = Message::from_payload(Command::Ping, &PingPayload { timestamp: 99 }).unwrap();
    assert_eq!(m.command, Command::Ping);
    let p: PingPayload = m.deserialize_payload().unwrap();
    assert_eq!(p.timestamp, 99);
    let wrong: Result<ConnectResponsePayload, WireError> = m.deserialize_payload();
    assert_eq!(wrong.unwrap_err(), WireError::Malformed);
}
