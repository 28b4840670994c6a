//! Configuration of the remote bridge.
use vstd::prelude::*;

verus! {

/// Bridge configuration.
#[derive(Debug, Clone)]
pub struct Config {
    /// Bridge identity and listener settings.
    pub bridge: BridgeConfig,
    /// Local hub connection settings.
    pub local: LocalConfig,
    /// Remote peers to connect to.
    pub peer: Vec<PeerConfig>,
    /// Address mapping rules.
    pub mapping: Vec<MappingConfig>,
}

/// Bridge identity and listener.
#[derive(Debug, Clone)]
pub struct BridgeConfig {
    /// Display name of the bridge voice.
    pub name: String,
    /// Address to bind the listener to: an IPv4 or IPv6 literal (brackets
    /// optional for IPv6) or a resolvable hostname.
    pub listen_addr: String,
    /// Port to listen on.
    pub listen_port: u16,
    /// Shared secret that peers must present. Without one, authentication is
    /// disabled.
    pub auth_token: Option<String>,
    /// Maximum number of simultaneously open inbound connections.
    pub max_inbound: usize,
}

/// Where the listener binds by default.
pub fn default_listen_addr() -> (r: String)
    ensures
        r@ == "0.0.0.0"@,
{
    "0.0.0.0".to_owned()
}

/// How many inbound connections are allowed by default.
pub fn default_max_inbound() -> (r: usize)
    ensures
        r == 32,
{
    32
}

/// Local hub connection.
#[derive(Debug, Clone)]
pub struct LocalConfig {
    /// Explicit hub port. If set, discovery is bypassed.
    pub port: Option<u16>,
}

impl Default for LocalConfig {
    fn default() -> (r: Self)
        ensures
            r.port is None,
    {
        LocalConfig { port: None }
    }
}

/// A remote peer to connect to.
#[derive(Debug, Clone)]
pub struct PeerConfig {
    /// Hostname or IP address.
    pub host: String,
    /// Port number.
    pub port: u16,
    /// Whether to reconnect after a disconnect.
    pub reconnect: bool,
    /// Whether to replay current param state to this peer after the handshake.
    pub replay_params: bool,
}

/// The default of the switches of a peer.
pub fn default_true() -> (r: bool)
    ensures
        r,
{
    true
}

/// An address mapping rule.
#[derive(Debug, Clone)]
pub struct MappingConfig {
    /// Routing pattern to match against.
    pub from_pattern: String,
    /// Output address template (may use `{capture}` and `**`).
    pub to_template: String,
    /// Direction: `outbound`, `inbound` or `both`.
    pub direction: String,
    /// Signal type filter; empty for all types.
    pub signal_filter: Vec<String>,
}

} // verus!
