//! The relay's configuration: tunnel names with their public listen addresses, the
//! checks on them, and the relay's decision after each control connection.

use vstd::prelude::*;

use crate::addr::SockAddr;
use crate::config::ConfigError;
use crate::sockparse::{parse_socket_addr, socket_addr_of};

verus! {

/// One tunnel: logical name (must match the client's tunnel keys) and public listen
/// address.
#[derive(Clone, Debug, PartialEq, Eq)]
pub struct TunnelListen {
    pub name: String,
    pub listen: SockAddr,
}

/// Everything the relay runs with.
#[derive(Clone, Debug)]
pub struct RelayConfig {
    pub control_listen: SockAddr,
    pub psk: Vec<u8>,
    pub tunnels: Vec<TunnelListen>,
}

/// The parsed `relay.yaml` body (no PSK; that comes from the environment).
#[derive(Debug)]
pub struct RelayFileConfig {
    pub control_listen: SockAddr,
    pub tunnels: Vec<TunnelListen>,
}

/// Names and listen addresses of a tunnel list.
pub open spec fn listen_entries(ts: Seq<TunnelListen>) -> Seq<(Seq<char>, SockAddr)> {
    ts.map_values(|t: TunnelListen| (t.name@, t.listen))
}

/// Entry `i` repeats the name of an earlier entry.
pub open spec fn name_dup_at(es: Seq<(Seq<char>, SockAddr)>, i: int) -> bool {
    exists|j: int| 0 <= j < i && (#[trigger] es[j]).0 == es[i].0
}

/// Entry `i` repeats the listen address of an earlier entry.
pub open spec fn listen_dup_at(es: Seq<(Seq<char>, SockAddr)>, i: int) -> bool {
    exists|j: int| 0 <= j < i && (#[trigger] es[j]).1 == es[i].1
}

/// The first entry, from `i` on, that repeats an earlier name or listen address, and
/// whether it is the name (`true`) that repeats; a repeated name is found before a
/// repeated address on the same entry.
pub open spec fn first_duplicate(es: Seq<(Seq<char>, SockAddr)>, i: nat) -> Option<(nat, bool)>
    decreases es.len() - i,
{
    if i >= es.len() {
        None
    } else if name_dup_at(es, i as int) {
        Some((i, true))
    } else if listen_dup_at(es, i as int) {
        Some((i, false))
    } else {
        first_duplicate(es, i + 1)
    }
}

/// What the validation of a tunnel list decides.
pub open spec fn tunnel_list_verdict(ts: Seq<TunnelListen>) -> Result<(), ConfigError> {
    let es = listen_entries(ts);
    if ts.len() == 0 {
        Err(ConfigError::NoTunnels)
    } else {
        match first_duplicate(es, 0) {
            None => Ok(()),
            Some((i, true)) => Err(ConfigError::DuplicateTunnelName(ts[i as int].name)),
            Some((i, false)) => Err(ConfigError::DuplicateListen(ts[i as int].listen)),
        }
    }
}

/// The verdict is equal to the expected one, comparing names by their characters.
pub open spec fn verdict_matches(res: Result<(), ConfigError>, expected: Result<(), ConfigError>) -> bool {
    match (res, expected) {
        (Ok(()), Ok(())) => true,
        (Err(ConfigError::DuplicateTunnelName(a)), Err(ConfigError::DuplicateTunnelName(b))) => a@
            == b@,
        (Err(a), Err(b)) => !(a is DuplicateTunnelName) && a == b,
        _ => false,
    }
}

/// Fails on an empty list, on a repeated tunnel name, or on a repeated listen address;
/// the first offending entry decides, its name checked before its address.
pub fn validate_tunnel_list(tunnels: &[TunnelListen]) -> (res: Result<(), ConfigError>)
    ensures
        verdict_matches(res, tunnel_list_verdict(tunnels@)),
{
    let ghost es = listen_entries(tunnels@);
    let n = tunnels.len();
    if n == 0 {
        return Err(ConfigError::NoTunnels);
    }
    let mut i: usize = 0;
    while i < n
        invariant
            n == tunnels@.len(),
            es == listen_entries(tunnels@),
            i <= n,
            first_duplicate(es, 0) == first_duplicate(es, i as nat),
        decreases n - i,
    {
        let mut j: usize = 0;
        while j < i
            invariant
                n == tunnels@.len(),
                es == listen_entries(tunnels@),
                j <= i < n,
                first_duplicate(es, 0) == first_duplicate(es, i as nat),
                forall|k: int| 0 <= k < j ==> es[k].0 != es[i as int].0,
            decreases i - j,
        {
            if tunnels[j].name == tunnels[i].name {
                assert(es[j as int].0 == es[i as int].0);
                assert(name_dup_at(es, i as int));
                return Err(ConfigError::DuplicateTunnelName(tunnels[i].name.clone()));
            }
            j = j + 1;
        }
        assert(!name_dup_at(es, i as int));
        let mut j: usize = 0;
        while j < i
            invariant
                n == tunnels@.len(),
                es == listen_entries(tunnels@),
                j <= i < n,
                first_duplicate(es, 0) == first_duplicate(es, i as nat),
                !name_dup_at(es, i as int),
                forall|k: int| 0 <= k < j ==> es[k].1 != es[i as int].1,
            decreases i - j,
        {
            if tunnels[j].listen == tunnels[i].listen {
                assert(es[j as int].1 == es[i as int].1);
                assert(listen_dup_at(es, i as int));
                return Err(ConfigError::DuplicateListen(tunnels[i].listen));
            }
            j = j + 1;
        }
        assert(!listen_dup_at(es, i as int));
        i = i + 1;
    }
    Ok(())
}

/// No two entries share a name, and no two share a listen address.
pub open spec fn all_distinct(es: Seq<(Seq<char>, SockAddr)>) -> bool {
    forall|i: int, j: int|
        0 <= i < j < es.len() ==> (#[trigger] es[i]).0 != (#[trigger] es[j]).0 && es[i].1
            != es[j].1
}

proof fn lemma_first_duplicate_none(es: Seq<(Seq<char>, SockAddr)>, i: nat)
    ensures
        first_duplicate(es, i) is None <==> (forall|k: int|
            i <= k < es.len() ==> !name_dup_at(es, k) && !listen_dup_at(es, k)),
    decreases es.len() - i,
{
    if i < es.len() {
        lemma_first_duplicate_none(es, i + 1);
    }
}

/// A non-empty tunnel list passes validation exactly when its names are pairwise
/// distinct and its listen addresses are pairwise distinct.
pub proof fn lemma_validation_accepts_iff_distinct(ts: Seq<TunnelListen>)
    ensures
        tunnel_list_verdict(ts) is Ok <==> ts.len() > 0 && all_distinct(listen_entries(ts)),
{
    let es = listen_entries(ts);
    lemma_first_duplicate_none(es, 0);
    if ts.len() > 0 && first_duplicate(es, 0) is None {
        assert forall|i: int, j: int| 0 <= i < j < es.len() implies (#[trigger] es[i]).0 != (
        #[trigger] es[j]).0 && es[i].1 != es[j].1 by {
            assert(!name_dup_at(es, j));
            assert(!listen_dup_at(es, j));
        }
    }
    if all_distinct(es) {
        assert forall|k: int| 0 <= k < es.len() implies !name_dup_at(es, k) && !listen_dup_at(
            es,
            k,
        ) by {
            if name_dup_at(es, k) {
                let j = choose|j: int| 0 <= j < k && (#[trigger] es[j]).0 == es[k].0;
                assert(es[j].0 != es[k].0);
            }
            if listen_dup_at(es, k) {
                let j = choose|j: int| 0 <= j < k && (#[trigger] es[j]).1 == es[k].1;
                assert(es[j].1 != es[k].1);
            }
        }
    }
}

/// The tunnels of a `relay.yaml` as read: each name with its parsed listen address,
/// `None` where the text was not a socket address.
pub open spec fn parsed_all(tunnels: Seq<(String, Option<SockAddr>)>) -> bool {
    forall|i: int| 0 <= i < tunnels.len() ==> (#[trigger] tunnels[i]).1 is Some
}

/// Index of the first tunnel whose listen address did not parse.
pub open spec fn first_unparsed(tunnels: Seq<(String, Option<SockAddr>)>, i: nat) -> nat
    decreases tunnels.len() - i,
{
    if i >= tunnels.len() {
        i
    } else if tunnels[i as int].1 is None {
        i
    } else {
        first_unparsed(tunnels, i + 1)
    }
}

/// The tunnel list built from parsed entries.
pub open spec fn tunnels_of(tunnels: Seq<(String, Option<SockAddr>)>) -> Seq<TunnelListen> {
    tunnels.map_values(
        |t: (String, Option<SockAddr>)| TunnelListen { name: t.0, listen: t.1->0 },
    )
}

/// Each tunnel's name with its listen text read as a socket address (`None` where it
/// does not read).
pub open spec fn parsed_listens(tunnels: Seq<(String, String)>) -> Seq<(String, Option<SockAddr>)> {
    tunnels.map_values(|t: (String, String)| (t.0, socket_addr_of(t.1@)))
}

/// Builds the relay's file configuration from what `relay.yaml` held: the control
/// address text and the tunnels in name order with their listen texts. Checks, in
/// order: at least one tunnel, the control address, each listen address (each must
/// read as a socket address), then [`validate_tunnel_list`].
pub fn relay_file_config_from_parts(
    control: &str,
    tunnels: Vec<(String, String)>,
) -> (res: Result<RelayFileConfig, ConfigError>)
    ensures
        tunnels@.len() == 0 ==> res == Err::<RelayFileConfig, _>(ConfigError::RelayTunnelsEmpty),
        tunnels@.len() > 0 && socket_addr_of(control@) is None ==> res == Err::<
            RelayFileConfig,
            _,
        >(ConfigError::BadControlAddr),
        tunnels@.len() > 0 && socket_addr_of(control@) is Some && !parsed_all(
            parsed_listens(tunnels@),
        ) ==> (res matches Err(ConfigError::BadListenAddr(name)) && name@ == tunnels@[first_unparsed(
            parsed_listens(tunnels@),
            0,
        ) as int].0@),
        tunnels@.len() > 0 && socket_addr_of(control@) is Some && parsed_all(
            parsed_listens(tunnels@),
        ) ==> match res {
            Ok(cfg) => cfg.control_listen == socket_addr_of(control@)->0 && cfg.tunnels@
                == tunnels_of(parsed_listens(tunnels@)) && tunnel_list_verdict(
                tunnels_of(parsed_listens(tunnels@)),
            ) is Ok,
            Err(e) => verdict_matches(
                Err(e),
                tunnel_list_verdict(tunnels_of(parsed_listens(tunnels@))),
            ),
        },
{
    let n = tunnels.len();
    let mut parsed: Vec<(String, Option<SockAddr>)> = Vec::new();
    let mut i: usize = 0;
    while i < n
        invariant
            n == tunnels@.len(),
            i <= n,
            parsed@ == parsed_listens(tunnels@.subrange(0, i as int)),
        decreases n - i,
    {
        let (name, listen) = &tunnels[i];
        let a = parse_socket_addr(listen.as_str());
        parsed.push((name.clone(), a));
        assert(tunnels@.subrange(0, i + 1) =~= tunnels@.subrange(0, i as int).push(
            tunnels@[i as int],
        ));
        assert(parsed@ =~= parsed_listens(tunnels@.subrange(0, i + 1)));
        i = i + 1;
    }
    assert(tunnels@.subrange(0, n as int) =~= tunnels@);
    let res = file_config_from_parsed(parse_socket_addr(control), parsed);
    proof {
        if tunnels@.len() > 0 && socket_addr_of(control@) is Some && !parsed_all(
            parsed_listens(tunnels@),
        ) {
            let k = first_unparsed(parsed_listens(tunnels@), 0) as int;
            lemma_first_unparsed_in_range(parsed_listens(tunnels@), 0);
            assert(parsed_listens(tunnels@)[k].0 == tunnels@[k].0);
        }
    }
    res
}

proof fn lemma_first_unparsed_in_range(ts: Seq<(String, Option<SockAddr>)>, i: nat)
    requires
        !parsed_all(ts),
        forall|k: int| 0 <= k < i ==> (#[trigger] ts[k]).1 is Some,
    ensures
        first_unparsed(ts, i) < ts.len(),
    decreases ts.len() - i,
{
    if i < ts.len() && ts[i as int].1 is Some {
        lemma_first_unparsed_in_range(ts, i + 1);
    }
}

fn file_config_from_parsed(
    control: Option<SockAddr>,
    tunnels: Vec<(String, Option<SockAddr>)>,
) -> (res: Result<RelayFileConfig, ConfigError>)
    ensures
        tunnels@.len() == 0 ==> res == Err::<RelayFileConfig, _>(ConfigError::RelayTunnelsEmpty),
        tunnels@.len() > 0 && control is None ==> res == Err::<RelayFileConfig, _>(
            ConfigError::BadControlAddr,
        ),
        tunnels@.len() > 0 && control is Some && !parsed_all(tunnels@) ==> (res matches Err(
            ConfigError::BadListenAddr(name),
        ) && name@ == tunnels@[first_unparsed(tunnels@, 0) as int].0@),
        tunnels@.len() > 0 && control is Some && parsed_all(tunnels@) ==> match res {
            Ok(cfg) => cfg.control_listen == control->0 && cfg.tunnels@ == tunnels_of(tunnels@)
                && tunnel_list_verdict(tunnels_of(tunnels@)) is Ok,
            Err(e) => verdict_matches(Err(e), tunnel_list_verdict(tunnels_of(tunnels@))),
        },
{
    let n = tunnels.len();
    if n == 0 {
        return Err(ConfigError::RelayTunnelsEmpty);
    }
    let control_listen = match control {
        Some(a) => a,
        None => return Err(ConfigError::BadControlAddr),
    };
    let mut list: Vec<TunnelListen> = Vec::new();
    let mut i: usize = 0;
    while i < n
        invariant
            n == tunnels@.len(),
            i <= n,
            control == Some(control_listen),
            first_unparsed(tunnels@, 0) == first_unparsed(tunnels@, i as nat),
            forall|k: int| 0 <= k < i ==> (#[trigger] tunnels@[k]).1 is Some,
            list@ == tunnels_of(tunnels@.subrange(0, i as int)),
        decreases n - i,
    {
        let (name, listen) = &tunnels[i];
        match listen {
            Some(a) => {
                list.push(TunnelListen { name: name.clone(), listen: *a });
                assert(tunnels_of(tunnels@.subrange(0, i + 1)) =~= tunnels_of(
                    tunnels@.subrange(0, i as int),
                ).push(TunnelListen { name: tunnels@[i as int].0, listen: *a }));
            },
            None => {
                return Err(ConfigError::BadListenAddr(name.clone()));
            },
        }
        i = i + 1;
    }
    assert(tunnels@.subrange(0, n as int) =~= tunnels@);
    match validate_tunnel_list(list.as_slice()) {
        Ok(()) => Ok(RelayFileConfig { control_listen, tunnels: list }),
        Err(e) => Err(e),
    }
}

/// Turns the file configuration and the PSK into a [`RelayConfig`].
pub fn relay_file_with_psk(file: RelayFileConfig, psk: Vec<u8>) -> (cfg: RelayConfig)
    ensures
        cfg.control_listen == file.control_listen,
        cfg.psk@ == psk@,
        cfg.tunnels@ == file.tunnels@,
{
    RelayConfig { control_listen: file.control_listen, psk, tunnels: file.tunnels }
}

/// How a control connection ended.
#[derive(Clone, Copy, Debug, PartialEq, Eq, Structural)]
pub enum ControlOutcome {
    /// The PSK handshake failed (wrong PSK, truncated client, or not a tunnelion client).
    HandshakeFailed,
    /// The Yamux session ended, cleanly or with an error.
    SessionEnded,
}

/// What the relay does next.
#[derive(Clone, Copy, Debug, PartialEq, Eq, Structural)]
pub enum RelayNext {
    /// Close the control TCP connection and accept the next one.
    AcceptNext,
}

/// The relay's decision after a control connection: whatever happened, it closes
/// that connection and keeps serving; a bad client never stops the relay.
pub fn after_control_connection(outcome: ControlOutcome) -> (next: RelayNext)
    ensures
        next == RelayNext::AcceptNext,
{
    match outcome {
        ControlOutcome::HandshakeFailed => RelayNext::AcceptNext,
        ControlOutcome::SessionEnded => RelayNext::AcceptNext,
    }
}

/// What happens in a tunnel's accept loop.
#[derive(Clone, Copy, Debug, PartialEq, Eq, Structural)]
pub enum TunnelEvent {
    /// The shutdown signal arrived, or its channel closed.
    Shutdown,
    /// The shutdown channel reported missed signals.
    ShutdownLagged,
    /// Accepting a public connection failed.
    AcceptFailed,
    /// A public connection was accepted.
    Accepted,
    /// Opening the outbound Yamux stream failed.
    OpenFailed,
    /// The outbound Yamux stream is open.
    Opened,
    /// Writing the stream header failed.
    HeaderFailed,
    /// The stream header is written.
    HeaderWritten,
}

/// What a tunnel's accept loop does next.
#[derive(Clone, Copy, Debug, PartialEq, Eq, Structural)]
pub enum TunnelAction {
    /// Leave the loop without error.
    Stop,
    /// Wait for the next signal or connection.
    Wait,
    /// Leave the loop with the accept error.
    Fail,
    /// Open an outbound Yamux stream for the connection.
    OpenStream,
    /// Tell the other loops to stop, then leave with the error: the session is gone.
    ShutdownAndFail,
    /// Write the stream header (the tunnel's name) on the new stream.
    WriteHeader,
    /// Drop this connection and its stream, and wait for the next.
    DropConnection,
    /// Pipe bytes between the connection and the stream in a task of their own, and
    /// wait for the next connection.
    SpawnBridge,
}

/// The accept loop's decision on each event: a shutdown stops it, a lagged shutdown
/// channel is ignored, an accept error ends it with that error, a failure to open a
/// stream stops every tunnel, and a failed header only drops that connection.
pub open spec fn tunnel_accept_action(ev: TunnelEvent) -> TunnelAction {
    match ev {
        TunnelEvent::Shutdown => TunnelAction::Stop,
        TunnelEvent::ShutdownLagged => TunnelAction::Wait,
        TunnelEvent::AcceptFailed => TunnelAction::Fail,
        TunnelEvent::Accepted => TunnelAction::OpenStream,
        TunnelEvent::OpenFailed => TunnelAction::ShutdownAndFail,
        TunnelEvent::Opened => TunnelAction::WriteHeader,
        TunnelEvent::HeaderFailed => TunnelAction::DropConnection,
        TunnelEvent::HeaderWritten => TunnelAction::SpawnBridge,
    }
}

/// See [`tunnel_accept_action`].
pub fn tunnel_accept_step(ev: TunnelEvent) -> (a: TunnelAction)
    ensures
        a == tunnel_accept_action(ev),
{
    match ev {
        TunnelEvent::Shutdown => TunnelAction::Stop,
        TunnelEvent::ShutdownLagged => TunnelAction::Wait,
        TunnelEvent::AcceptFailed => TunnelAction::Fail,
        TunnelEvent::Accepted => TunnelAction::OpenStream,
        TunnelEvent::OpenFailed => TunnelAction::ShutdownAndFail,
        TunnelEvent::Opened => TunnelAction::WriteHeader,
        TunnelEvent::HeaderFailed => TunnelAction::DropConnection,
        TunnelEvent::HeaderWritten => TunnelAction::SpawnBridge,
    }
}

/// Only an accept error or a lost session ends a tunnel's loop with an error; a bad
/// public connection never does.
pub proof fn lemma_tunnel_loop_fails_only_on_accept_or_open(ev: TunnelEvent)
    ensures
        (tunnel_accept_action(ev) == TunnelAction::Fail || tunnel_accept_action(ev)
            == TunnelAction::ShutdownAndFail) <==> (ev == TunnelEvent::AcceptFailed || ev
            == TunnelEvent::OpenFailed),
{
}

} // verus!
