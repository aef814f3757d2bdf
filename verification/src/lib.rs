//! tunnelion: a private tunnel relay. A relay on a public host accepts one control
//! connection from a client (PSK handshake, then Yamux) and turns each public TCP
//! connection on a tunnel's listen port into a Yamux stream tagged with the tunnel's
//! name; the client routes each stream to that tunnel's local address.
//!
//! This library holds the protocol's wire formats and handshake, the relay's and the
//! client's configuration rules, the client's reconnect schedule and dashboard state,
//! and the byte-piping decisions; the program around it does the networking.

pub mod addr;
pub mod bridge;
pub mod client;
pub mod config;
mod crypto;
pub mod dashboard;
pub mod demo;
pub mod handshake;
pub mod protocol;
pub mod relay;
pub mod sockparse;
pub mod text;

pub use addr::{parse_local_socket, LocalAddrError, SockAddr};
pub use bridge::{Bridge, BridgeAction, BridgeEvent};
pub use client::{
    build_name_to_local, client_config_from_parts, connect_hint, handshake_hint, prepare_client,
    ClientConfig, ReconnectPolicy, Routes, TunnelYaml,
};
pub use config::ConfigError;
pub use dashboard::{
    format_bytes, row_highlighted, row_status, ActiveStreamGuard, ControlState, DashboardStats,
    TunnelRowStats,
};
pub use handshake::{ClientHandshake, ServerHandshake};
pub use protocol::{
    ct_eq_32, encode_stream_header, ProtocolError, StreamHeaderDecoder, CLIENT_PROOF_LEN, MAGIC,
    MAX_TUNNEL_NAME_LEN, PROTOCOL_VERSION, SERVER_BANNER_LEN, SERVER_PROOF_LEN,
    STREAM_HEADER_VERSION,
};
pub use relay::{
    after_control_connection, relay_file_config_from_parts, relay_file_with_psk,
    tunnel_accept_step, validate_tunnel_list, ControlOutcome, RelayConfig, RelayFileConfig,
    RelayNext, TunnelAction, TunnelEvent, TunnelListen,
};
pub use sockparse::parse_socket_addr;
pub use text::lossy_preview;
