//! The options of a session transport, with their defaults.

use crate::error::Error;
use vstd::prelude::*;

verus! {

/// The default UDP port of a session transport.
pub const NDN_QUIC_PORT: u16 = 6367;

/// The largest datagram of a session transport.
pub const MAX_DATAGRAM_SIZE: usize = 1200;

/// The largest packet that a session carries.
pub const MAX_PACKET_SIZE: usize = 8800;

/// The time that an expressed Interest waits for its Data, in milliseconds.
pub const DEFAULT_INTEREST_TIMEOUT_MS: u64 = 4000;

/// The size of the chunks in which a large packet is written.
pub const DEFAULT_FRAGMENT_SIZE: usize = 1000;

/// The idle timeout of a session, in milliseconds.
pub const DEFAULT_IDLE_TIMEOUT_MS: u64 = 30000;

/// The interval between keep-alive probes, in milliseconds.
pub const DEFAULT_KEEP_ALIVE_MS: u64 = 5000;

/// The most connections that a server accepts.
pub const DEFAULT_MAX_CONNECTIONS: u32 = 1000;

/// The number of events that a transport buffers.
pub const DEFAULT_EVENT_BUFFER_SIZE: usize = 100;

/// The protocol identifier that both peers of a session must negotiate: `ndn1`.
pub fn alpn() -> (id: [u8; 4])
    ensures
        id@ == seq![0x6eu8, 0x64u8, 0x6eu8, 0x31u8],
{
    let id: [u8; 4] = [0x6e, 0x64, 0x6e, 0x31];
    assert(id@ =~= seq![0x6eu8, 0x64u8, 0x6eu8, 0x31u8]);
    id
}

/// The options of the accepting side.
#[derive(Debug, Clone)]
pub struct ServerOptions {
    /// The address to listen on.
    pub listen_addr: String,
    /// The path of the certificate file.
    pub cert_path: String,
    /// The path of the private key file.
    pub key_path: String,
    /// The idle timeout, in milliseconds.
    pub idle_timeout_ms: Option<u64>,
    /// The keep-alive interval, in milliseconds.
    pub keep_alive_interval_ms: Option<u64>,
    /// The most connections.
    pub max_connections: Option<u32>,
}

impl Default for ServerOptions {
    fn default() -> (o: Self)
        ensures
            o.listen_addr@ == "0.0.0.0:6367"@,
            o.cert_path@ == "cert.pem"@,
            o.key_path@ == "key.pem"@,
            o.idle_timeout_ms == Some(DEFAULT_IDLE_TIMEOUT_MS),
            o.keep_alive_interval_ms == Some(DEFAULT_KEEP_ALIVE_MS),
            o.max_connections == Some(DEFAULT_MAX_CONNECTIONS),
    {
        ServerOptions {
            listen_addr: "0.0.0.0:6367".to_owned(),
            cert_path: "cert.pem".to_owned(),
            key_path: "key.pem".to_owned(),
            idle_timeout_ms: Some(DEFAULT_IDLE_TIMEOUT_MS),
            keep_alive_interval_ms: Some(DEFAULT_KEEP_ALIVE_MS),
            max_connections: Some(DEFAULT_MAX_CONNECTIONS),
        }
    }
}

/// The options of the initiating side.
#[derive(Debug, Clone)]
pub struct ClientOptions {
    /// The path of a certificate authority to trust besides the system's.
    pub ca_cert_path: Option<String>,
    /// The idle timeout, in milliseconds.
    pub idle_timeout_ms: Option<u64>,
    /// The keep-alive interval, in milliseconds.
    pub keep_alive_interval_ms: Option<u64>,
    /// Whether the certificate of the server is verified.
    pub verify_certificate: bool,
}

impl Default for ClientOptions {
    fn default() -> (o: Self)
        ensures
            o.ca_cert_path is None,
            o.idle_timeout_ms == Some(DEFAULT_IDLE_TIMEOUT_MS),
            o.keep_alive_interval_ms == Some(DEFAULT_KEEP_ALIVE_MS),
            o.verify_certificate,
    {
        ClientOptions {
            ca_cert_path: None,
            idle_timeout_ms: Some(DEFAULT_IDLE_TIMEOUT_MS),
            keep_alive_interval_ms: Some(DEFAULT_KEEP_ALIVE_MS),
            verify_certificate: true,
        }
    }
}

/// The idle timeout as the session layer takes it: the low 32 bits of the
/// milliseconds, or nothing where the option is absent.
pub fn idle_timeout_setting(idle_timeout_ms: Option<u64>) -> (r: Option<u32>)
    ensures
        r == match idle_timeout_ms {
            Some(ms) => Some((ms % 0x1_0000_0000) as u32),
            None => None,
        },
{
    match idle_timeout_ms {
        Some(ms) => Some((ms % 0x1_0000_0000) as u32),
        None => None,
    }
}

/// The roles of a transport.
#[derive(Debug, Clone, Copy, PartialEq, Eq, Structural)]
pub enum TransportMode {
    /// Initiates sessions.
    Client,
    /// Accepts sessions.
    Server,
    /// Does both.
    Dual,
}

/// The configuration of a transport.
#[derive(Debug, Clone)]
pub struct TransportConfig {
    /// The role.
    pub mode: TransportMode,
    /// The options of the accepting side; needed by a server.
    pub server_options: Option<ServerOptions>,
    /// The options of the initiating side.
    pub client_options: ClientOptions,
    /// The number of events that are buffered.
    pub event_buffer_size: usize,
    /// The time that an expressed Interest waits, in milliseconds.
    pub interest_timeout_ms: u64,
}

impl Default for TransportConfig {
    fn default() -> (c: Self)
        ensures
            c.mode == TransportMode::Client,
            c.server_options is None,
            c.client_options.ca_cert_path is None,
            c.client_options.idle_timeout_ms == Some(DEFAULT_IDLE_TIMEOUT_MS),
            c.client_options.keep_alive_interval_ms == Some(DEFAULT_KEEP_ALIVE_MS),
            c.client_options.verify_certificate,
            c.event_buffer_size == DEFAULT_EVENT_BUFFER_SIZE,
            c.interest_timeout_ms == DEFAULT_INTEREST_TIMEOUT_MS,
    {
        TransportConfig {
            mode: TransportMode::Client,
            server_options: None,
            client_options: ClientOptions::default(),
            event_buffer_size: DEFAULT_EVENT_BUFFER_SIZE,
            interest_timeout_ms: DEFAULT_INTEREST_TIMEOUT_MS,
        }
    }
}

impl TransportConfig {
    /// Whether the transport initiates sessions.
    pub fn needs_client(&self) -> (b: bool)
        ensures
            b == (self.mode == TransportMode::Client || self.mode == TransportMode::Dual),
    {
        match self.mode {
            TransportMode::Client => true,
            TransportMode::Server => false,
            TransportMode::Dual => true,
        }
    }

    /// Whether the transport accepts sessions.
    pub fn needs_server(&self) -> (b: bool)
        ensures
            b == (self.mode == TransportMode::Server || self.mode == TransportMode::Dual),
    {
        match self.mode {
            TransportMode::Client => false,
            TransportMode::Server => true,
            TransportMode::Dual => true,
        }
    }

    /// Checks the configuration: a transport that accepts sessions needs
    /// the options of the accepting side.
    pub fn validate(&self) -> (r: Result<(), Error>)
        ensures
            match r {
                Ok(_) => !(self.mode != TransportMode::Client && self.server_options is None),
                Err(e) => self.mode != TransportMode::Client && self.server_options is None && e
                    == Error::ConfigError,
            },
    {
        if self.needs_server() && self.server_options.is_none() {
            Err(Error::ConfigError)
        } else {
            Ok(())
        }
    }

    /// The time that an expressed Interest waits: what the caller asks for,
    /// else what the configuration says.
    pub fn timeout_for(&self, requested_ms: Option<u64>) -> (ms: u64)
        ensures
            ms == match requested_ms {
                Some(t) => t,
                None => self.interest_timeout_ms,
            },
    {
        match requested_ms {
            Some(t) => t,
            None => self.interest_timeout_ms,
        }
    }
}

/// How the fast path is attached to an interface.
#[derive(Debug, Clone, Copy, PartialEq, Eq, Structural)]
pub struct XdpAttachFlags {
    /// Offload to the hardware where it can.
    pub offload: bool,
    /// Attach in the slower, more compatible mode of the network stack.
    pub skb_mode: bool,
}

/// The modes of attachment.
#[derive(Debug, Clone, Copy, PartialEq, Eq, Structural)]
pub enum XdpAttachMode {
    /// In the hardware.
    Hardware,
    /// In the network stack.
    Skb,
    /// In the driver.
    Driver,
}

impl Default for XdpAttachFlags {
    fn default() -> (f: Self)
        ensures
            !f.offload,
            !f.skb_mode,
    {
        XdpAttachFlags { offload: false, skb_mode: false }
    }
}

impl XdpAttachFlags {
    /// The mode that the flags choose: hardware where offload is asked for,
    /// else the network stack where that is asked for, else the driver.
    pub fn mode(&self) -> (m: XdpAttachMode)
        ensures
            m == if self.offload {
                XdpAttachMode::Hardware
            } else if self.skb_mode {
                XdpAttachMode::Skb
            } else {
                XdpAttachMode::Driver
            },
    {
        if self.offload {
            XdpAttachMode::Hardware
        } else if self.skb_mode {
            XdpAttachMode::Skb
        } else {
            XdpAttachMode::Driver
        }
    }
}

} // verus!
