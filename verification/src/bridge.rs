//! Piping bytes between a TCP connection and a tunnel stream, with half-close: when
//! the TCP side reaches end of input, the tunnel stream's write side is closed and
//! bytes keep flowing from the tunnel until it ends too. The caller reads and writes;
//! [`Bridge::step`] decides what to do with each read.

use vstd::prelude::*;

verus! {

/// The outcome of a read: how many bytes came in (0 at end of input).
#[derive(Clone, Copy, Debug, PartialEq, Eq, Structural)]
pub enum BridgeEvent {
    /// A read from the TCP side (public client on the relay, upstream on the client).
    TcpRead(u64),
    /// A read from the tunnel stream.
    TunnelRead(u64),
}

/// What to do after a read.
#[derive(Clone, Copy, Debug, PartialEq, Eq, Structural)]
pub enum BridgeAction {
    /// Write the bytes just read from TCP to the tunnel stream.
    WriteTunnel(u64),
    /// Close the tunnel stream's write side; keep reading from the tunnel.
    CloseTunnelWrite,
    /// Write the bytes just read from the tunnel to TCP.
    WriteTcp(u64),
    /// The tunnel stream ended: the session is over.
    Finish,
}

/// State of one piped session.
pub struct Bridge {
    tcp_closed: bool,
    to_tunnel: u64,
    to_tcp: u64,
}

/// Bridge state as values: whether TCP input ended, bytes sent toward the tunnel and
/// bytes sent toward TCP (both counted modulo 2^64).
pub struct BridgeView {
    pub tcp_closed: bool,
    pub to_tunnel: u64,
    pub to_tcp: u64,
}

impl View for Bridge {
    type V = BridgeView;

    closed spec fn view(&self) -> BridgeView {
        BridgeView { tcp_closed: self.tcp_closed, to_tunnel: self.to_tunnel, to_tcp: self.to_tcp }
    }
}

/// The action for an event.
pub open spec fn bridge_action(ev: BridgeEvent) -> BridgeAction {
    match ev {
        BridgeEvent::TcpRead(0) => BridgeAction::CloseTunnelWrite,
        BridgeEvent::TcpRead(n) => BridgeAction::WriteTunnel(n),
        BridgeEvent::TunnelRead(0) => BridgeAction::Finish,
        BridgeEvent::TunnelRead(n) => BridgeAction::WriteTcp(n),
    }
}

impl Bridge {
    /// A session with both directions open and nothing sent.
    pub fn new() -> (b: Self)
        ensures
            b@ == (BridgeView { tcp_closed: false, to_tunnel: 0, to_tcp: 0 }),
    {
        Bridge { tcp_closed: false, to_tunnel: 0, to_tcp: 0 }
    }

    /// Whether TCP is still read; once its input ended only the tunnel is read.
    pub fn reads_tcp(&self) -> (b: bool)
        ensures
            b == !self@.tcp_closed,
    {
        !self.tcp_closed
    }

    /// Bytes sent toward the tunnel so far (modulo 2^64).
    pub fn bytes_to_tunnel(&self) -> (n: u64)
        ensures
            n == self@.to_tunnel,
    {
        self.to_tunnel
    }

    /// Bytes sent toward TCP so far (modulo 2^64).
    pub fn bytes_to_tcp(&self) -> (n: u64)
        ensures
            n == self@.to_tcp,
    {
        self.to_tcp
    }

    /// Decides on a read. A TCP read is only made while TCP input is open.
    pub fn step(&mut self, ev: BridgeEvent) -> (act: BridgeAction)
        requires
            !(old(self)@.tcp_closed && ev is TcpRead),
        ensures
            act == bridge_action(ev),
            final(self)@.tcp_closed == (old(self)@.tcp_closed || ev == BridgeEvent::TcpRead(0)),
            final(self)@.to_tunnel == match ev {
                BridgeEvent::TcpRead(n) => old(self)@.to_tunnel.wrapping_add(n),
                BridgeEvent::TunnelRead(_) => old(self)@.to_tunnel,
            },
            final(self)@.to_tcp == match ev {
                BridgeEvent::TcpRead(_) => old(self)@.to_tcp,
                BridgeEvent::TunnelRead(n) => old(self)@.to_tcp.wrapping_add(n),
            },
    {
        match ev {
            BridgeEvent::TcpRead(n) => {
                if n == 0 {
                    self.tcp_closed = true;
                    BridgeAction::CloseTunnelWrite
                } else {
                    self.to_tunnel = self.to_tunnel.wrapping_add(n);
                    BridgeAction::WriteTunnel(n)
                }
            },
            BridgeEvent::TunnelRead(n) => {
                if n == 0 {
                    BridgeAction::Finish
                } else {
                    self.to_tcp = self.to_tcp.wrapping_add(n);
                    BridgeAction::WriteTcp(n)
                }
            },
        }
    }
}

/// A session ends only when the tunnel stream ends; the end of TCP input never ends
/// it, and every non-empty read is forwarded to the other side.
pub proof fn lemma_bridge_finishes_only_on_tunnel_eof(ev: BridgeEvent)
    ensures
        bridge_action(ev) == BridgeAction::Finish <==> ev == BridgeEvent::TunnelRead(0),
        (ev matches BridgeEvent::TcpRead(n) && n > 0) ==> bridge_action(ev)
            == BridgeAction::WriteTunnel(ev->TcpRead_0),
        (ev matches BridgeEvent::TunnelRead(n) && n > 0) ==> bridge_action(ev)
            == BridgeAction::WriteTcp(ev->TunnelRead_0),
{
}

} // verus!
