//! The client's configuration, its routing of tunnel names to local addresses, the
//! reconnect policy of its control session, and the hints it prints on failure.

use vstd::prelude::*;
use vstd::string::*;
use vstd::arithmetic::power2::{lemma2_to64, lemma_pow2_pos, lemma_pow2_unfold, pow2};

use crate::addr::{local_addr_of, parse_local_socket, SockAddr};
use crate::config::ConfigError;
use crate::dashboard::ControlState;
use crate::protocol::{io_error_text, protocol_error_message, ProtocolError};
use crate::sockparse::{parse_socket_addr, socket_addr_of};
use crate::text::{contains_seq, contains_str, push_str, push_string};

verus! {

/// One tunnel of `tunnels.yaml`: the local address (a socket address or a port) and the
/// public domain.
#[derive(Clone, Debug)]
pub struct TunnelYaml {
    pub addr: String,
    pub domain: String,
}

/// Everything the client runs with. `tunnels` holds each tunnel name with its entry,
/// in name order, each name once (see [`ClientConfig::wf`]).
#[derive(Clone, Debug)]
pub struct ClientConfig {
    pub relay_addr: SockAddr,
    pub psk: Vec<u8>,
    pub tunnels: Vec<(String, TunnelYaml)>,
}

/// Whether `a` sorts before `b`: compared character by character, a proper prefix
/// first (the order of `String` keys in a sorted map).
pub open spec fn text_lt(a: Seq<char>, b: Seq<char>) -> bool
    decreases a.len(),
{
    if a.len() == 0 {
        b.len() > 0
    } else if b.len() == 0 {
        false
    } else if a[0] != b[0] {
        (a[0] as u32) < (b[0] as u32)
    } else {
        text_lt(a.drop_first(), b.drop_first())
    }
}

/// Whether the tunnel names are in strictly increasing order.
pub open spec fn names_ascending(tunnels: Seq<(String, TunnelYaml)>) -> bool {
    forall|i: int, j: int|
        0 <= i < j < tunnels.len() ==> text_lt(tunnels[i].0@, tunnels[j].0@)
}

/// No text sorts before itself.
pub proof fn lemma_text_lt_irreflexive(a: Seq<char>)
    ensures
        !text_lt(a, a),
    decreases a.len(),
{
    if a.len() > 0 {
        lemma_text_lt_irreflexive(a.drop_first());
    }
}

impl ClientConfig {
    /// Well-formed: the tunnels are in name order, each name once, as in a sorted map.
    pub open spec fn wf(&self) -> bool {
        names_ascending(self.tunnels@)
    }
}

/// In a well-formed configuration no two tunnels share a name.
pub proof fn lemma_wf_names_distinct(cfg: ClientConfig, i: int, j: int)
    requires
        cfg.wf(),
        0 <= i < cfg.tunnels@.len(),
        0 <= j < cfg.tunnels@.len(),
        i != j,
    ensures
        cfg.tunnels@[i].0@ != cfg.tunnels@[j].0@,
{
    if i < j {
        assert(text_lt(cfg.tunnels@[i].0@, cfg.tunnels@[j].0@));
        lemma_text_lt_irreflexive(cfg.tunnels@[i].0@);
    } else {
        assert(text_lt(cfg.tunnels@[j].0@, cfg.tunnels@[i].0@));
        lemma_text_lt_irreflexive(cfg.tunnels@[j].0@);
    }
}

/// Builds the client configuration from what `tunnels.yaml` held: the relay address
/// text and the tunnels in name order. At least one tunnel is required, then a relay
/// address that reads as a socket address; the PSK starts empty.
pub fn client_config_from_parts(
    relay_addr: &str,
    tunnels: Vec<(String, TunnelYaml)>,
) -> (res: Result<ClientConfig, ConfigError>)
    requires
        names_ascending(tunnels@),
    ensures
        tunnels@.len() == 0 ==> res == Err::<ClientConfig, _>(ConfigError::ClientTunnelsEmpty),
        tunnels@.len() > 0 && socket_addr_of(relay_addr@) is None ==> res == Err::<
            ClientConfig,
            _,
        >(ConfigError::BadRelayAddr),
        tunnels@.len() > 0 && socket_addr_of(relay_addr@) is Some ==> (res matches Ok(cfg)
            && cfg.relay_addr == socket_addr_of(relay_addr@)->0 && cfg.psk@.len() == 0
            && cfg.tunnels@ == tunnels@ && cfg.wf()),
{
    if tunnels.len() == 0 {
        return Err(ConfigError::ClientTunnelsEmpty);
    }
    match parse_socket_addr(relay_addr) {
        Some(a) => Ok(ClientConfig { relay_addr: a, psk: Vec::new(), tunnels }),
        None => Err(ConfigError::BadRelayAddr),
    }
}

/// Tunnel names with their local addresses, in the configuration's order.
pub struct Routes {
    entries: Vec<(String, SockAddr)>,
}

impl View for Routes {
    type V = Seq<(Seq<char>, SockAddr)>;

    closed spec fn view(&self) -> Seq<(Seq<char>, SockAddr)> {
        self.entries@.map_values(|e: (String, SockAddr)| (e.0@, e.1))
    }
}

/// The local address routed for `name`: that of its first entry, if any.
pub open spec fn route_lookup(routes: Seq<(Seq<char>, SockAddr)>, name: Seq<char>) -> Option<
    SockAddr,
>
    decreases routes.len(),
{
    if routes.len() == 0 {
        None
    } else if routes[0].0 == name {
        Some(routes[0].1)
    } else {
        route_lookup(routes.drop_first(), name)
    }
}

/// Whether every tunnel's `addr` entry reads.
pub open spec fn all_local_addrs_read(tunnels: Seq<(String, TunnelYaml)>) -> bool {
    forall|i: int| 0 <= i < tunnels.len() ==> local_addr_of((#[trigger] tunnels[i]).1.addr@) is Ok
}

/// Index of the first tunnel whose `addr` entry does not read.
pub open spec fn first_bad_local(tunnels: Seq<(String, TunnelYaml)>, i: nat) -> nat
    decreases tunnels.len() - i,
{
    if i >= tunnels.len() {
        i
    } else if local_addr_of(tunnels[i as int].1.addr@) is Err {
        i
    } else {
        first_bad_local(tunnels, i + 1)
    }
}

/// The routes of a configuration whose entries all read.
pub open spec fn routes_of(tunnels: Seq<(String, TunnelYaml)>) -> Seq<(Seq<char>, SockAddr)> {
    tunnels.map_values(
        |t: (String, TunnelYaml)| (t.0@, local_addr_of(t.1.addr@)->Ok_0),
    )
}

impl Routes {
    /// The local address for a tunnel name from a stream header; `None` for a name the
    /// configuration does not know.
    pub fn lookup(&self, name: &String) -> (res: Option<SockAddr>)
        ensures
            res == route_lookup(self@, name@),
    {
        let n = self.entries.len();
        let mut i: usize = 0;
        assert(self@.subrange(0, n as int) =~= self@);
        while i < n
            invariant
                n == self@.len(),
                i <= n,
                route_lookup(self@, name@) == route_lookup(self@.subrange(i as int, n as int), name@),
            decreases n - i,
        {
            assert(self@.subrange(i as int, n as int).drop_first() =~= self@.subrange(
                i + 1,
                n as int,
            ));
            if self.entries[i].0 == *name {
                return Some(self.entries[i].1);
            }
            i = i + 1;
        }
        None
    }

    /// Number of routes.
    pub fn len(&self) -> (n: usize)
        ensures
            n == self@.len(),
    {
        self.entries.len()
    }
}

/// Reads every tunnel's local address, in order; the first entry that does not read
/// is reported with its name and text.
#[verifier::spinoff_prover]
#[verifier::rlimit(40)]
pub fn build_name_to_local(cfg: &ClientConfig) -> (res: Result<Routes, ConfigError>)
    ensures
        all_local_addrs_read(cfg.tunnels@) ==> (res matches Ok(r) && r@ == routes_of(
            cfg.tunnels@,
        )),
        !all_local_addrs_read(cfg.tunnels@) ==> (res matches Err(ConfigError::BadTunnelAddr {
            name,
            addr,
            cause,
        }) && name@ == cfg.tunnels@[first_bad_local(cfg.tunnels@, 0) as int].0@ && addr@
            == cfg.tunnels@[first_bad_local(cfg.tunnels@, 0) as int].1.addr@ && Err::<
            SockAddr,
            _,
        >(cause) == local_addr_of(cfg.tunnels@[first_bad_local(cfg.tunnels@, 0) as int].1.addr@)),
{
    let n = cfg.tunnels.len();
    let mut entries: Vec<(String, SockAddr)> = Vec::new();
    let mut i: usize = 0;
    while i < n
        invariant
            n == cfg.tunnels@.len(),
            i <= n,
            first_bad_local(cfg.tunnels@, 0) == first_bad_local(cfg.tunnels@, i as nat),
            forall|k: int|
                0 <= k < i ==> local_addr_of((#[trigger] cfg.tunnels@[k]).1.addr@) is Ok,
            entries@.map_values(|e: (String, SockAddr)| (e.0@, e.1)) == routes_of(
                cfg.tunnels@.subrange(0, i as int),
            ),
        decreases n - i,
    {
        let (name, t) = &cfg.tunnels[i];
        let ghost before = entries@;
        match parse_local_socket(t.addr.as_str()) {
            Ok(local) => {
                let nm = name.clone();
                assert(local == local_addr_of(cfg.tunnels@[i as int].1.addr@)->Ok_0);
                entries.push((nm, local));
                assert(cfg.tunnels@.subrange(0, i + 1) =~= cfg.tunnels@.subrange(0, i as int).push(
                    cfg.tunnels@[i as int],
                ));
                assert(routes_of(cfg.tunnels@.subrange(0, i + 1)) =~= routes_of(
                    cfg.tunnels@.subrange(0, i as int),
                ).push((cfg.tunnels@[i as int].0@, local_addr_of(cfg.tunnels@[i as int].1.addr@)->Ok_0)));
                assert(entries@.map_values(|e: (String, SockAddr)| (e.0@, e.1)) =~= routes_of(
                    cfg.tunnels@.subrange(0, i + 1),
                ));
            },
            Err(cause) => {
                return Err(
                    ConfigError::BadTunnelAddr { name: name.clone(), addr: t.addr.clone(), cause },
                );
            },
        }
        i = i + 1;
    }
    assert(cfg.tunnels@.subrange(0, n as int) =~= cfg.tunnels@);
    let r = Routes { entries };
    assert(r@ == routes_of(cfg.tunnels@));
    Ok(r)
}

proof fn lemma_route_lookup_at(rs: Seq<(Seq<char>, SockAddr)>, name: Seq<char>, i: int)
    requires
        0 <= i < rs.len(),
        rs[i].0 == name,
        forall|k: int| 0 <= k < i ==> (#[trigger] rs[k]).0 != name,
    ensures
        route_lookup(rs, name) == Some(rs[i].1),
    decreases i,
{
    if i > 0 {
        let rest = rs.drop_first();
        assert(rs[0].0 != name);
        assert forall|k: int| 0 <= k < i - 1 implies (#[trigger] rest[k]).0 != name by {
            assert(rest[k] == rs[k + 1]);
        }
        lemma_route_lookup_at(rest, name, i - 1);
    }
}

proof fn lemma_route_lookup_absent(rs: Seq<(Seq<char>, SockAddr)>, name: Seq<char>)
    requires
        forall|k: int| 0 <= k < rs.len() ==> (#[trigger] rs[k]).0 != name,
    ensures
        route_lookup(rs, name) is None,
    decreases rs.len(),
{
    if rs.len() > 0 {
        let rest = rs.drop_first();
        assert(rs[0].0 != name);
        assert forall|k: int| 0 <= k < rest.len() implies (#[trigger] rest[k]).0 != name by {
            assert(rest[k] == rs[k + 1]);
        }
        lemma_route_lookup_absent(rest, name);
    }
}

/// A stream tagged with the name of the tunnel configured at index `i` (its first
/// entry) is routed to that tunnel's local address.
pub proof fn lemma_configured_name_is_routed(tunnels: Seq<(String, TunnelYaml)>, i: int)
    requires
        all_local_addrs_read(tunnels),
        0 <= i < tunnels.len(),
        forall|k: int| 0 <= k < i ==> (#[trigger] tunnels[k]).0@ != tunnels[i].0@,
    ensures
        route_lookup(routes_of(tunnels), tunnels[i].0@) == Some(
            local_addr_of(tunnels[i].1.addr@)->Ok_0,
        ),
{
    let rs = routes_of(tunnels);
    assert forall|k: int| 0 <= k < i implies (#[trigger] rs[k]).0 != tunnels[i].0@ by {
        assert(rs[k].0 == tunnels[k].0@);
    }
    lemma_route_lookup_at(rs, tunnels[i].0@, i);
}

/// A stream tagged with a name that no tunnel has is not routed.
pub proof fn lemma_unknown_name_is_not_routed(tunnels: Seq<(String, TunnelYaml)>, name: Seq<char>)
    requires
        forall|k: int| 0 <= k < tunnels.len() ==> (#[trigger] tunnels[k]).0@ != name,
    ensures
        route_lookup(routes_of(tunnels), name) is None,
{
    let rs = routes_of(tunnels);
    assert forall|k: int| 0 <= k < rs.len() implies (#[trigger] rs[k]).0 != name by {
        assert(rs[k].0 == tunnels[k].0@);
    }
    lemma_route_lookup_absent(rs, name);
}

/// In a well-formed configuration whose entries all read, a stream tagged with any
/// configured tunnel's name is routed to that tunnel's local address.
pub proof fn lemma_wf_config_routes_each_name(cfg: ClientConfig, i: int)
    requires
        cfg.wf(),
        all_local_addrs_read(cfg.tunnels@),
        0 <= i < cfg.tunnels@.len(),
    ensures
        route_lookup(routes_of(cfg.tunnels@), cfg.tunnels@[i].0@) == Some(
            local_addr_of(cfg.tunnels@[i].1.addr@)->Ok_0,
        ),
{
    assert forall|k: int| 0 <= k < i implies (#[trigger] cfg.tunnels@[k]).0@
        != cfg.tunnels@[i].0@ by {
        lemma_wf_names_distinct(cfg, k, i);
    }
    lemma_configured_name_is_routed(cfg.tunnels@, i);
}

/// Checks made before the client connects: a non-empty PSK, then every tunnel's local
/// address.
pub fn prepare_client(cfg: &ClientConfig) -> (res: Result<Routes, ConfigError>)
    ensures
        cfg.psk@.len() == 0 ==> res matches Err(ConfigError::EmptyPsk),
        cfg.psk@.len() > 0 && all_local_addrs_read(cfg.tunnels@) ==> (res matches Ok(r) && r@
            == routes_of(cfg.tunnels@)),
        cfg.psk@.len() > 0 && !all_local_addrs_read(cfg.tunnels@) ==> res matches Err(
            ConfigError::BadTunnelAddr { .. },
        ),
{
    if cfg.psk.len() == 0 {
        return Err(ConfigError::EmptyPsk);
    }
    build_name_to_local(cfg)
}

/// First wait after a clean disconnect, and first wait after a failure, in ms.
pub const INITIAL_BACKOFF_MS: u64 = 500;

/// Longest wait between attempts, in ms.
pub const MAX_BACKOFF_MS: u64 = 30000;

/// The wait that follows `b` after another failure: doubled, at most the maximum.
pub open spec fn next_backoff(b: nat) -> nat {
    if 2 * b > MAX_BACKOFF_MS {
        MAX_BACKOFF_MS as nat
    } else {
        2 * b
    }
}

/// The wait before retry number `k + 1` after `k` earlier consecutive failures.
pub open spec fn backoff_after(k: nat) -> nat
    decreases k,
{
    if k == 0 {
        INITIAL_BACKOFF_MS as nat
    } else {
        next_backoff(backoff_after((k - 1) as nat))
    }
}

/// Reconnect schedule of the client's control session: after a failure it waits the
/// current backoff, which then doubles up to `MAX_BACKOFF_MS`; after a clean end of a
/// good session it waits `INITIAL_BACKOFF_MS` and the backoff starts over.
pub struct ReconnectPolicy {
    backoff_ms: u64,
    ever_connected: bool,
}

impl View for ReconnectPolicy {
    /// Current backoff and whether a session ever ended cleanly.
    type V = (nat, bool);

    closed spec fn view(&self) -> (nat, bool) {
        (self.backoff_ms as nat, self.ever_connected)
    }
}

impl ReconnectPolicy {
    #[verifier::type_invariant]
    spec fn bounded(&self) -> bool {
        INITIAL_BACKOFF_MS <= self.backoff_ms <= MAX_BACKOFF_MS
    }

    /// The schedule before the first attempt.
    pub fn new() -> (p: Self)
        ensures
            p@ == (INITIAL_BACKOFF_MS as nat, false),
    {
        ReconnectPolicy { backoff_ms: INITIAL_BACKOFF_MS, ever_connected: false }
    }

    /// The current backoff, always between the initial and the maximum wait.
    pub fn backoff_ms(&self) -> (b: u64)
        ensures
            b == self@.0,
            INITIAL_BACKOFF_MS <= b <= MAX_BACKOFF_MS,
    {
        proof {
            use_type_invariant(self);
        }
        self.backoff_ms
    }

    /// The status shown while the next attempt runs: reconnecting once a session
    /// ended cleanly, connecting before.
    pub fn status(&self) -> (s: ControlState)
        ensures
            s == (if self@.1 {
                ControlState::Reconnecting
            } else {
                ControlState::Connecting
            }),
    {
        if self.ever_connected {
            ControlState::Reconnecting
        } else {
            ControlState::Connecting
        }
    }

    /// A session ended cleanly: returns the wait before reconnecting.
    pub fn session_ended(&mut self) -> (wait_ms: u64)
        ensures
            wait_ms == INITIAL_BACKOFF_MS,
            final(self)@ == (INITIAL_BACKOFF_MS as nat, true),
    {
        proof {
            use_type_invariant(&*self);
        }
        self.ever_connected = true;
        self.backoff_ms = INITIAL_BACKOFF_MS;
        INITIAL_BACKOFF_MS
    }

    /// Connecting or the handshake failed: returns the wait before the next attempt.
    pub fn session_failed(&mut self) -> (wait_ms: u64)
        ensures
            wait_ms == old(self)@.0,
            final(self)@ == (next_backoff(old(self)@.0), old(self)@.1),
    {
        proof {
            use_type_invariant(&*self);
        }
        let wait = self.backoff_ms;
        let doubled: u64 = wait * 2;
        self.backoff_ms = if doubled > MAX_BACKOFF_MS {
            MAX_BACKOFF_MS
        } else {
            doubled
        };
        wait
    }
}

/// The waits of consecutive failures double from the initial wait and stop at the
/// maximum: the `k`-th failure in a row (counting from 0, since the start or since a
/// clean end) waits `min(INITIAL_BACKOFF_MS * 2^k, MAX_BACKOFF_MS)`.
pub proof fn lemma_backoff_doubles_to_cap(k: nat)
    ensures
        backoff_after(k) == (if INITIAL_BACKOFF_MS as nat * pow2(k) > MAX_BACKOFF_MS as nat {
            MAX_BACKOFF_MS as nat
        } else {
            INITIAL_BACKOFF_MS as nat * pow2(k)
        }),
    decreases k,
{
    if k > 0 {
        lemma_backoff_doubles_to_cap((k - 1) as nat);
        lemma_pow2_unfold(k);
        lemma_pow2_pos((k - 1) as nat);
    } else {
        lemma2_to64();
    }
}

/// The hint printed for a handshake error.
pub open spec fn handshake_hint_text(p: ProtocolError) -> Seq<char> {
    match p {
        ProtocolError::InvalidHandshake => "PSK handshake failed: secret does not match the relay (check TUNNELION_PSK on client and server)."@,
        ProtocolError::BadMagic => "Handshake failed: connected host does not speak tunnelion on this port (wrong service or corrupt first bytes)."@,
        ProtocolError::BadVersion(_) => "Handshake failed: connected host does not speak tunnelion on this port (wrong service or corrupt first bytes)."@,
        ProtocolError::Io(_) => "Network I/O error during handshake: "@,
        ProtocolError::UnexpectedEof => "Handshake failed: connection closed before handshake finished (relay reset or TLS on the control port?)."@,
        _ => "Protocol error: "@ + protocol_error_message(p),
    }
}

/// The hint for a protocol error from the control connection. For an I/O error the
/// hint is its prefix followed by the I/O error's text.
pub fn handshake_hint(p: &ProtocolError) -> (res: String)
    ensures
        p is Io ==> res@.subrange(0, handshake_hint_text(*p).len() as int) == handshake_hint_text(
            *p,
        ) && res@.len() >= handshake_hint_text(*p).len(),
        !(p is Io) ==> res@ == handshake_hint_text(*p),
{
    let mut s = String::new();
    match p {
        ProtocolError::InvalidHandshake => push_str(
            &mut s,
            "PSK handshake failed: secret does not match the relay (check TUNNELION_PSK on client and server).",
        ),
        ProtocolError::BadMagic | ProtocolError::BadVersion(_) => push_str(
            &mut s,
            "Handshake failed: connected host does not speak tunnelion on this port (wrong service or corrupt first bytes).",
        ),
        ProtocolError::Io(e) => {
            push_str(&mut s, "Network I/O error during handshake: ");
            let ghost prefix = s@;
            let t = io_error_text(e);
            push_string(&mut s, &t);
            assert(s@.subrange(0, prefix.len() as int) =~= prefix);
        },
        ProtocolError::UnexpectedEof => push_str(
            &mut s,
            "Handshake failed: connection closed before handshake finished (relay reset or TLS on the control port?).",
        ),
        _ => {
            push_str(&mut s, "Protocol error: ");
            let m = p.message();
            push_string(&mut s, &m);
        },
    }
    assert(!(p is Io) ==> s@ =~= handshake_hint_text(*p));
    s
}

/// The hint for a failure with no protocol error behind it, from the error's text:
/// one naming the relay address when the connection to the relay failed.
pub open spec fn connect_hint_text(root: Seq<char>) -> Option<Seq<char>> {
    if contains_seq(root, "connect relay"@) || contains_seq(root, "Connection refused"@) {
        Some("Cannot open TCP to relay at the configured address: "@ + root)
    } else {
        None
    }
}

/// See [`connect_hint_text`].
pub fn connect_hint(root: &str) -> (res: Option<String>)
    ensures
        match res {
            Some(s) => connect_hint_text(root@) == Some(s@),
            None => connect_hint_text(root@) is None,
        },
{
    if contains_str(root, "connect relay") || contains_str(root, "Connection refused") {
        let mut s = String::new();
        push_str(&mut s, "Cannot open TCP to relay at the configured address: ");
        push_str(&mut s, root);
        Some(s)
    } else {
        None
    }
}

} // verus!
