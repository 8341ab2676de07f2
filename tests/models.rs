use mc_connect_core::models::{MappingInfo, SettingsError, StartServerConfig};
use mc_connect_core::wire::{AllowedPort, Protocol};

fn mapping(protocol: &str) -> MappingInfo {
    MappingInfo {
        id: "m1".to_string(),
        ws_url: "ws://127.0.0.1:8080/ws".to_string(),
        bind_addr: "127.0.0.1".to_string(),
        local_port: 25565,
        remote_port: 25565,
        protocol: protocol.to_string(),
        ping_interval: 5,
        public_key: None,
    }
}

#[test]
fn mapping_protocols() {
    assert_eq!(mapping("tcp").protocol_value(), Ok(Protocol::TCP));
    assert_eq!(mapping("UDP").protocol_value(), Ok(Protocol::UDP));
    assert_eq!(mapping("Tcp").protocol_value(), Ok(Protocol::TCP));
    assert_eq!(mapping("http").protocol_value(), Err(SettingsError::UnsupportedProtocol));
    assert_eq!(mapping(" tcp").protocol_value(), Err(SettingsError::UnsupportedProtocol));
}

#[test]
fn server_targets_skip_unknown_protocols() {
    let cfg = StartServerConfig {
        port: 8080,
        allowed_ports: vec![(25565, "tcp".to_string()), (53, "dns".to_string()), (19132, "UDP".to_string())],
        private_key_b64: String::new(),
        encryption_type: "RSA".to_string(),
    };
    assert_eq!(
        cfg.allowed_targets().unwrap(),
        vec![AllowedPort { port: 25565, protocol: Protocol::TCP }, AllowedPort { port: 19132, protocol: Protocol::UDP }]
    );
    let other = StartServerConfig { encryption_type: "ED25519".to_string(), ..cfg };
    assert_eq!(other.allowed_targets().unwrap_err(), SettingsError::UnsupportedEncryption);
}
