//! Errors in the relay's and the client's configuration, with their messages.

use vstd::prelude::*;
use vstd::string::*;

use crate::addr::{
    local_addr_error_cause, local_addr_error_message, sock_addr_text, LocalAddrError, SockAddr,
};
use crate::text::{hex, push_str, push_string};

verus! {

/// A refused configuration.
#[derive(Clone, Debug, PartialEq, Eq)]
pub enum ConfigError {
    /// `relay.yaml` lists no tunnel.
    RelayTunnelsEmpty,
    /// `control.addr` is not a socket address.
    BadControlAddr,
    /// The `listen` entry of the named tunnel is not a socket address.
    BadListenAddr(String),
    /// An empty tunnel list.
    NoTunnels,
    /// Two tunnels share this name.
    DuplicateTunnelName(String),
    /// Two tunnels share this listen address.
    DuplicateListen(SockAddr),
    /// `tunnels.yaml` lists no tunnel.
    ClientTunnelsEmpty,
    /// `relay.addr` is not a socket address.
    BadRelayAddr,
    /// The named tunnel's `addr` entry is neither a socket address nor a port.
    BadTunnelAddr { name: String, addr: String, cause: LocalAddrError },
    /// The pre-shared key is empty.
    EmptyPsk,
}

/// The escape of one ASCII character inside a quoted string, as `{:?}` writes it:
/// tab, CR, LF, backslash, double quote and NUL by their short escapes, other control
/// characters as `\u{..}` in lowercase hex; every other character as itself.
pub open spec fn escape_ascii_char(c: char) -> Seq<char> {
    let v = c as u32;
    if c == '\t' {
        "\\t"@
    } else if c == '\r' {
        "\\r"@
    } else if c == '\n' {
        "\\n"@
    } else if c == '\\' {
        "\\\\"@
    } else if c == '"' {
        "\\\""@
    } else if v == 0 {
        "\\0"@
    } else if v < 0x20 || v == 0x7f {
        "\\u{"@ + hex(v as nat) + "}"@
    } else {
        seq![c]
    }
}

/// Escapes of an ASCII character sequence, concatenated.
pub open spec fn escape_ascii(s: Seq<char>) -> Seq<char>
    decreases s.len(),
{
    if s.len() == 0 {
        Seq::empty()
    } else {
        escape_ascii(s.drop_last()) + escape_ascii_char(s.last())
    }
}

/// Whether every character of `s` is ASCII.
pub open spec fn all_ascii(s: Seq<char>) -> bool {
    forall|i: int| 0 <= i < s.len() ==> (#[trigger] s[i] as u32) < 0x80
}

/// What `{:?}` writes for a string: the text in double quotes, with escapes.
pub uninterp spec fn debug_str(s: Seq<char>) -> Seq<char>;

/// `<str as Debug>::fmt`, through `format!`: the text in double quotes with its
/// special characters escaped. For ASCII text the escapes are those of
/// [`escape_ascii_char`]; beyond ASCII, which characters std escapes (those it
/// deems not printable, and grapheme extenders) is left to the name.
#[verifier::external_body]
fn debug_string(s: &str) -> (res: String)
    ensures
        res@ == debug_str(s@),
        all_ascii(s@) ==> res@ == "\""@ + escape_ascii(s@) + "\""@,
{
    format!("{:?}", s)
}

/// The message of a configuration error.
pub open spec fn config_error_message(e: ConfigError) -> Seq<char> {
    match e {
        ConfigError::RelayTunnelsEmpty => "relay: tunnels: must contain at least one tunnel"@,
        ConfigError::BadControlAddr => "control.addr must be a host:port socket address"@,
        ConfigError::BadListenAddr(name) => "tunnels."@ + name@ + ".listen must be a socket address"@,
        ConfigError::NoTunnels => "relay: need at least one tunnel"@,
        ConfigError::DuplicateTunnelName(name) => "relay: duplicate tunnel name "@ + debug_str(name@),
        ConfigError::DuplicateListen(a) => "relay: duplicate listen address "@ + sock_addr_text(a)
            + " (each tunnel needs a distinct port)"@,
        ConfigError::ClientTunnelsEmpty => "tunnels: must contain at least one tunnel"@,
        ConfigError::BadRelayAddr => "relay.addr must be a host:port socket address"@,
        ConfigError::BadTunnelAddr { name, addr, .. } => "tunnel "@ + debug_str(name@) + " addr "@
            + debug_str(addr@),
        ConfigError::EmptyPsk => "PSK is empty (set from environment)"@,
    }
}

impl ConfigError {
    /// The human-readable message of the error.
    pub fn message(&self) -> (res: String)
        ensures
            res@ == config_error_message(*self),
    {
        let mut s = String::new();
        match self {
            ConfigError::RelayTunnelsEmpty => push_str(
                &mut s,
                "relay: tunnels: must contain at least one tunnel",
            ),
            ConfigError::BadControlAddr => push_str(
                &mut s,
                "control.addr must be a host:port socket address",
            ),
            ConfigError::BadListenAddr(name) => {
                push_str(&mut s, "tunnels.");
                push_str(&mut s, name.as_str());
                push_str(&mut s, ".listen must be a socket address");
            },
            ConfigError::NoTunnels => push_str(&mut s, "relay: need at least one tunnel"),
            ConfigError::DuplicateTunnelName(name) => {
                push_str(&mut s, "relay: duplicate tunnel name ");
                push_string(&mut s, &debug_string(name.as_str()));
            },
            ConfigError::DuplicateListen(a) => {
                push_str(&mut s, "relay: duplicate listen address ");
                a.push_text(&mut s);
                push_str(&mut s, " (each tunnel needs a distinct port)");
            },
            ConfigError::ClientTunnelsEmpty => push_str(
                &mut s,
                "tunnels: must contain at least one tunnel",
            ),
            ConfigError::BadRelayAddr => push_str(
                &mut s,
                "relay.addr must be a host:port socket address",
            ),
            ConfigError::BadTunnelAddr { name, addr, .. } => {
                push_str(&mut s, "tunnel ");
                push_string(&mut s, &debug_string(name.as_str()));
                push_str(&mut s, " addr ");
                push_string(&mut s, &debug_string(addr.as_str()));
            },
            ConfigError::EmptyPsk => push_str(&mut s, "PSK is empty (set from environment)"),
        }
        assert(s@ =~= config_error_message(*self));
        s
    }

    /// The message of the error this one wraps, if any.
    pub fn cause(&self) -> (res: Option<&'static str>)
        ensures
            match res {
                Some(c) => config_error_cause(*self) == Some(c@),
                None => config_error_cause(*self) is None,
            },
    {
        match self {
            ConfigError::BadControlAddr => Some("invalid socket address syntax"),
            ConfigError::BadListenAddr(_) => Some("invalid socket address syntax"),
            ConfigError::BadRelayAddr => Some("invalid socket address syntax"),
            ConfigError::BadTunnelAddr { cause, .. } => Some(cause.message()),
            _ => None,
        }
    }

    /// The message of the error under [`Self::cause`], if that one wraps another.
    pub fn inner_cause(&self) -> (res: Option<&'static str>)
        ensures
            match res {
                Some(c) => config_error_inner_cause(*self) == Some(c@),
                None => config_error_inner_cause(*self) is None,
            },
    {
        match self {
            ConfigError::BadTunnelAddr { cause, .. } => Some(cause.cause()),
            _ => None,
        }
    }
}

/// The message of the std parse error under a tunnel's local-address error; other
/// configuration errors have no second level.
pub open spec fn config_error_inner_cause(e: ConfigError) -> Option<Seq<char>> {
    match e {
        ConfigError::BadTunnelAddr { cause, .. } => Some(local_addr_error_cause(cause)),
        _ => None,
    }
}

/// The message of the error a configuration error wraps: a socket address that does
/// not read fails with the message of `std::net::AddrParseError`; a tunnel's local
/// address with that of [`LocalAddrError`]. Other errors wrap none.
pub open spec fn config_error_cause(e: ConfigError) -> Option<Seq<char>> {
    match e {
        ConfigError::BadControlAddr => Some("invalid socket address syntax"@),
        ConfigError::BadListenAddr(_) => Some("invalid socket address syntax"@),
        ConfigError::BadRelayAddr => Some("invalid socket address syntax"@),
        ConfigError::BadTunnelAddr { cause, .. } => Some(local_addr_error_message(cause)),
        _ => None,
    }
}

} // verus!
