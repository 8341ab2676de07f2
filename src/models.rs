//! Settings and events exchanged with a desktop front-end.
use vstd::prelude::*;
use crate::config::{chars_of, protocol_from_text, protocol_of, protocol_of_chars};
use crate::wire::{AllowedPort, Protocol, StatsPayload};

verus! {

/// One client tunnel as a front-end starts it.
#[derive(Debug, Clone)]
pub struct MappingInfo {
    pub id: String,
    pub ws_url: String,
    pub bind_addr: String,
    pub local_port: u16,
    pub remote_port: u16,
    /// `"tcp"` or `"udp"`, in any case.
    pub protocol: String,
    /// Seconds between application-level pings.
    pub ping_interval: u64,
    /// Gateway public key, Base64 DER.
    pub public_key: Option<String>,
}

/// Why a front-end's settings were refused.
#[derive(Debug, Clone, Copy, PartialEq, Eq, Structural)]
pub enum SettingsError {
    UnsupportedProtocol,
    /// Only RSA key pairs are implemented.
    UnsupportedEncryption,
}

impl MappingInfo {
    /// The protocol the tunnel carries.
    pub fn protocol_value(&self) -> (r: Result<Protocol, SettingsError>)
        ensures
            match protocol_of(self.protocol@) {
                Some(p) => r == Ok::<Protocol, SettingsError>(p),
                None => r == Err::<Protocol, SettingsError>(SettingsError::UnsupportedProtocol),
            },
    {
        match protocol_from_text(self.protocol.as_str()) {
            Some(p) => Ok(p),
            None => Err(SettingsError::UnsupportedProtocol),
        }
    }
}

/// A gateway as a front-end starts it.
#[derive(Debug, Clone)]
pub struct StartServerConfig {
    pub port: u16,
    /// Targets as `(port, protocol name)`.
    pub allowed_ports: Vec<(u16, String)>,
    pub private_key_b64: String,
    pub encryption_type: String,
}

/// The allow-list that `(port, protocol name)` pairs stand for: pairs whose
/// protocol is neither TCP nor UDP are left out, the others kept in order.
pub open spec fn targets_of(pairs: Seq<(u16, Seq<char>)>) -> Seq<AllowedPort>
    decreases pairs.len(),
{
    if pairs.len() == 0 {
        Seq::empty()
    } else {
        let rest = targets_of(pairs.drop_last());
        match protocol_of(pairs.last().1) {
            Some(protocol) => rest.push(AllowedPort { port: pairs.last().0, protocol }),
            None => rest,
        }
    }
}

pub open spec fn pair_views(v: Seq<(u16, String)>) -> Seq<(u16, Seq<char>)> {
    Seq::new(v.len(), |i: int| (v[i].0, v[i].1@))
}

impl StartServerConfig {
    /// The gateway's allow-list; refused unless the encryption type is
    /// `"RSA"`.
    pub fn allowed_targets(&self) -> (r: Result<Vec<AllowedPort>, SettingsError>)
        ensures
            self.encryption_type@ != "RSA"@ ==> (r matches Err(e) && e == SettingsError::UnsupportedEncryption),
            self.encryption_type@ == "RSA"@ ==> (r matches Ok(v) && v@ == targets_of(pair_views(self.allowed_ports@))),
    {
        let rsa = String::from_str("RSA");
        if self.encryption_type != rsa {
            return Err(SettingsError::UnsupportedEncryption);
        }
        let ghost pairs = pair_views(self.allowed_ports@);
        let mut out: Vec<AllowedPort> = Vec::new();
        let mut i: usize = 0;
        while i < self.allowed_ports.len()
            invariant
                i <= self.allowed_ports@.len(),
                pairs == pair_views(self.allowed_ports@),
                out@ == targets_of(pairs.subrange(0, i as int)),
            decreases self.allowed_ports@.len() - i,
        {
            let chars = chars_of(self.allowed_ports[i].1.as_str());
            proof {
                assert(pairs.subrange(0, i + 1).drop_last() =~= pairs.subrange(0, i as int));
                assert(pairs.subrange(0, i + 1).last() == pairs[i as int]);
            }
            match protocol_of_chars(&chars) {
                Some(protocol) => out.push(AllowedPort { port: self.allowed_ports[i].0, protocol }),
                None => {},
            }
            i = i + 1;
        }
        assert(pairs.subrange(0, pairs.len() as int) =~= pairs);
        Ok(out)
    }
}

/// A saved tunnel.
#[derive(Debug, Clone)]
pub struct MappingConfig {
    pub id: String,
    pub name: String,
    pub ws_url: String,
    pub bind_addr: String,
    pub local_port: u16,
    pub remote_port: u16,
    pub protocol: String,
    pub public_key: Option<String>,
    pub ping_interval: u64,
}

/// Saved gateway settings.
#[derive(Debug, Clone)]
pub struct SavedServerConfig {
    pub listen_port: u16,
    pub private_key: Option<String>,
    pub public_key: Option<String>,
    pub encryption_type: String,
    pub allowed_ports: Vec<(u16, String)>,
}

#[derive(Debug, Clone)]
pub struct AppSettings {
    pub server_mode_enabled: bool,
}

/// Everything a front-end persists.
#[derive(Debug, Clone)]
pub struct AppPersistConfig {
    pub mappings: Vec<MappingConfig>,
    pub server_config: SavedServerConfig,
    pub app_settings: AppSettings,
}

/// A log line shown to the user.
#[derive(Debug, Clone)]
pub struct LogEntry {
    pub timestamp: String,
    /// INFO, SUCCESS, WARN or ERROR.
    pub level: String,
    pub message: String,
}

/// A statistics snapshot of one tunnel.
#[derive(Debug, Clone)]
pub struct StatsEvent {
    pub id: String,
    pub stats: StatsPayload,
}

/// Whether a tunnel runs, and why it stopped.
#[derive(Debug, Clone)]
pub struct TunnelStatus {
    pub id: String,
    pub running: bool,
    pub message: String,
}

} // verus!
