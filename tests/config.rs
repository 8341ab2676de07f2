use mc_connect_core::config::{parse_allowed_ports, PortListError};
use mc_connect_core::registry::AppState;
use mc_connect_core::wire::{AllowedPort, Protocol};

fn ap(port: u16, protocol: Protocol) -> AllowedPort {
    AllowedPort { port, protocol }
}

#[test]
fn parses_single_entry() {
    assert_eq!(parse_allowed_ports("25565:tcp").unwrap(), vec![ap(25565, Protocol::TCP)]);
}

#[test]
fn parses_and_sorts_with_blanks_and_case() {
    let r = parse_allowed_ports(" 8080:TCP , 443:udp ,, 80:Tcp,\t443:tcp ,").unwrap();
    assert_eq!(r, vec![ap(80, Protocol::TCP), ap(443, Protocol::UDP), ap(443, Protocol::TCP), ap(8080, Protocol::TCP)]);
}

#[test]
fn empty_text_is_an_empty_list() {
    assert_eq!(parse_allowed_ports("").unwrap(), vec![]);
    assert_eq!(parse_allowed_ports(" , ,").unwrap(), vec![]);
}

#[test]
fn port_forms() {
    assert_eq!(parse_allowed_ports("+80:tcp").unwrap(), vec![ap(80, Protocol::TCP)]);
    assert_eq!(parse_allowed_ports("0065535:udp").unwrap(), vec![ap(65535, Protocol::UDP)]);
    assert_eq!(parse_allowed_ports("65536:tcp").unwrap_err(), PortListError::InvalidPort);
    assert_eq!(parse_allowed_ports("99999999999:tcp").unwrap_err(), PortListError::InvalidPort);
    assert_eq!(parse_allowed_ports("x:tcp").unwrap_err(), PortListError::InvalidPort);
    assert_eq!(parse_allowed_ports("-1:tcp").unwrap_err(), PortListError::InvalidPort);
    assert_eq!(parse_allowed_ports(":tcp").unwrap_err(), PortListError::InvalidPort);
    assert_eq!(parse_allowed_ports("80 :tcp").unwrap_err(), PortListError::InvalidPort);
}

#[test]
fn format_errors() {
    assert_eq!(parse_allowed_ports("80").unwrap_err(), PortListError::InvalidFormat);
    assert_eq!(parse_allowed_ports("80:tcp:x").unwrap_err(), PortListError::InvalidFormat);
    assert_eq!(parse_allowed_ports("80:sctp").unwrap_err(), PortListError::UnsupportedProtocol);
    assert_eq!(parse_allowed_ports("80: tcp").unwrap_err(), PortListError::UnsupportedProtocol);
    // the first bad entry decides
    assert_eq!(parse_allowed_ports("80:sctp,x:tcp").unwrap_err(), PortListError::UnsupportedProtocol);
}

#[test]
fn registry_insert_replace_remove() {
    let mut st: AppState<u32, &str> = AppState::new();
    let a = "a".to_string();
    assert!(!st.is_mapping_running(&a));
    assert_eq!(st.insert_tunnel(a.clone(), 1), None);
    assert_eq!(st.insert_tunnel("b".to_string(), 2), None);
    assert!(st.is_mapping_running(&a));
    assert_eq!(st.insert_tunnel(a.clone(), 3), Some(1));
    assert_eq!(st.get_tunnel(&a), Some(&3));
    assert_eq!(st.remove_tunnel(&a), Some(3));
    assert_eq!(st.remove_tunnel(&a), None);
    assert_eq!(st.get_tunnel(&"b".to_string()), Some(&2));
    assert!(!st.is_server_running());
    assert_eq!(st.start_server("gw"), Ok(()));
    assert_eq!(st.start_server("gw2"), Err("gw2"));
    assert_eq!(st.stop_server(), Some("gw"));
    assert!(!st.is_server_running());
}
