//! State shown by the client's dashboard: the control session's status and, per
//! tunnel, bytes in each direction and the number of open streams.

use vstd::prelude::*;
use vstd::string::*;

use crate::client::ClientConfig;
use crate::config::ConfigError;
use crate::text::{decimal, digit_char, digit_of, push_char, push_decimal, push_str};

verus! {

/// Control session lifecycle for the status line.
#[derive(Clone, Copy, Debug, PartialEq, Eq, Structural)]
pub enum ControlState {
    Starting,
    Connecting,
    Live,
    Reconnecting,
    Down,
}

/// The one-byte code of a state.
pub open spec fn control_code(s: ControlState) -> u8 {
    match s {
        ControlState::Starting => 0,
        ControlState::Connecting => 1,
        ControlState::Live => 2,
        ControlState::Reconnecting => 3,
        ControlState::Down => 4,
    }
}

/// The state of a code; unknown codes read as `Starting`.
pub open spec fn control_of_code(c: u8) -> ControlState {
    if c == 1 {
        ControlState::Connecting
    } else if c == 2 {
        ControlState::Live
    } else if c == 3 {
        ControlState::Reconnecting
    } else if c == 4 {
        ControlState::Down
    } else {
        ControlState::Starting
    }
}

impl ControlState {
    /// The state's one-byte code.
    pub fn code(self) -> (c: u8)
        ensures
            c == control_code(self),
    {
        match self {
            ControlState::Starting => 0,
            ControlState::Connecting => 1,
            ControlState::Live => 2,
            ControlState::Reconnecting => 3,
            ControlState::Down => 4,
        }
    }

    /// The state of a code; unknown codes read as `Starting`.
    pub fn from_code(c: u8) -> (s: ControlState)
        ensures
            s == control_of_code(c),
    {
        match c {
            1 => ControlState::Connecting,
            2 => ControlState::Live,
            3 => ControlState::Reconnecting,
            4 => ControlState::Down,
            _ => ControlState::Starting,
        }
    }

    /// The label on the status line.
    pub fn label(self) -> (l: &'static str)
        ensures
            l@ == control_label(self),
    {
        match self {
            ControlState::Starting => "starting",
            ControlState::Connecting => "connecting…",
            ControlState::Live => "connected",
            ControlState::Reconnecting => "reconnecting…",
            ControlState::Down => "disconnected",
        }
    }
}

/// The label on the status line.
pub open spec fn control_label(s: ControlState) -> Seq<char> {
    match s {
        ControlState::Starting => "starting"@,
        ControlState::Connecting => "connecting…"@,
        ControlState::Live => "connected"@,
        ControlState::Reconnecting => "reconnecting…"@,
        ControlState::Down => "disconnected"@,
    }
}

/// Every state reads back from its code.
pub proof fn lemma_control_code_roundtrip(s: ControlState)
    ensures
        control_of_code(control_code(s)) == s,
{
}

/// Counters of one tunnel row.
pub struct TunnelRowStats {
    pub name: String,
    /// Shown as in YAML (`addr` field).
    pub local_addr_display: String,
    pub domain: String,
    /// Bytes read from Yamux (from the internet / relay).
    pub bytes_in: u64,
    /// Bytes written to Yamux (toward the internet / relay).
    pub bytes_out: u64,
    pub active_streams: u32,
}

/// Stands for one stream counted as active on the row of a tunnel; handed back to
/// that row when the stream ends.
pub struct ActiveStreamGuard {
    row: String,
}

impl ActiveStreamGuard {
    /// The name of the row the stream was counted on.
    pub closed spec fn row_name(&self) -> Seq<char> {
        self.row@
    }
}

impl TunnelRowStats {
    /// A copy of the row.
    pub fn clone_row(&self) -> (r: TunnelRowStats)
        ensures
            r == *self,
    {
        TunnelRowStats {
            name: self.name.clone(),
            local_addr_display: self.local_addr_display.clone(),
            domain: self.domain.clone(),
            bytes_in: self.bytes_in,
            bytes_out: self.bytes_out,
            active_streams: self.active_streams,
        }
    }

    /// Counts one more active stream (wrapping, as an atomic add does); the guard
    /// names this row.
    pub fn begin_stream(&mut self) -> (g: ActiveStreamGuard)
        ensures
            g.row_name() == old(self).name@,
            final(self).active_streams == old(self).active_streams.wrapping_add(1),
            final(self).bytes_in == old(self).bytes_in,
            final(self).bytes_out == old(self).bytes_out,
            final(self).name == old(self).name,
            final(self).local_addr_display == old(self).local_addr_display,
            final(self).domain == old(self).domain,
    {
        self.active_streams = self.active_streams.wrapping_add(1);
        ActiveStreamGuard { row: self.name.clone() }
    }

    /// Counts one active stream less (wrapping, as an atomic sub does), for a guard
    /// taken on this row.
    pub fn end_stream(&mut self, guard: ActiveStreamGuard)
        requires
            guard.row_name() == old(self).name@,
        ensures
            final(self).active_streams == old(self).active_streams.wrapping_sub(1),
            final(self).bytes_in == old(self).bytes_in,
            final(self).bytes_out == old(self).bytes_out,
            final(self).name == old(self).name,
            final(self).local_addr_display == old(self).local_addr_display,
            final(self).domain == old(self).domain,
    {
        self.active_streams = self.active_streams.wrapping_sub(1);
    }

    /// Adds bytes read from the tunnel (wrapping).
    pub fn add_bytes_in(&mut self, n: u64)
        ensures
            final(self).bytes_in == old(self).bytes_in.wrapping_add(n),
            final(self).bytes_out == old(self).bytes_out,
            final(self).active_streams == old(self).active_streams,
            final(self).name == old(self).name,
    {
        self.bytes_in = self.bytes_in.wrapping_add(n);
    }

    /// Adds bytes written to the tunnel (wrapping).
    pub fn add_bytes_out(&mut self, n: u64)
        ensures
            final(self).bytes_out == old(self).bytes_out.wrapping_add(n),
            final(self).bytes_in == old(self).bytes_in,
            final(self).active_streams == old(self).active_streams,
            final(self).name == old(self).name,
    {
        self.bytes_out = self.bytes_out.wrapping_add(n);
    }
}

/// Ending a stream undoes beginning it: the count of active streams is back where it
/// was, whatever it was.
pub proof fn lemma_begin_end_restores(count: u32)
    ensures
        count.wrapping_add(1).wrapping_sub(1) == count,
{
}

/// `2^32`, the modulus of the row counters.
pub open spec fn counter_modulus() -> int {
    0x1_0000_0000
}

/// A wrapping step of a counter follows the step of the number it counts, modulo
/// `2^32`.
proof fn lemma_wrapping_step(a: u32, l: int)
    requires
        a as int == l % counter_modulus(),
    ensures
        a.wrapping_add(1) as int == (l + 1) % counter_modulus(),
        a.wrapping_sub(1) as int == (l - 1) % counter_modulus(),
{
    let m = counter_modulus();
    vstd::arithmetic::div_mod::lemma_add_mod_noop(l, 1, m);
    vstd::arithmetic::div_mod::lemma_sub_mod_noop(l, 1, m);
    assert(1int % m == 1);
    if a as int + 1 < m {
        vstd::arithmetic::div_mod::lemma_small_mod((a as int + 1) as nat, m as nat);
    } else {
        assert((a as int + 1) % m == 0);
    }
    if a as int >= 1 {
        vstd::arithmetic::div_mod::lemma_small_mod((a as int - 1) as nat, m as nat);
    } else {
        assert((0int - 1) % m == m - 1);
    }
}

/// Whether the rows have pairwise distinct names.
pub open spec fn row_names_distinct(rows: Seq<TunnelRowStats>) -> bool {
    forall|i: int, j: int|
        0 <= i < rows.len() && 0 <= j < rows.len() && i != j ==> rows[i].name@ != rows[j].name@
}

/// Whether row `i` is the first one named `name`.
pub open spec fn is_first_row_named(rows: Seq<TunnelRowStats>, name: Seq<char>, i: int) -> bool {
    &&& 0 <= i < rows.len()
    &&& rows[i].name@ == name
    &&& forall|k: int| 0 <= k < i ==> rows[k].name@ != name
}

/// Dashboard state: relay address, control status and tunnel rows. Alongside the
/// rows it keeps, as a ghost, how many guards each row has handed out and not yet
/// taken back. Its fields are private: every state is reached through the methods
/// below, which keep the row names distinct and each row's count of active streams
/// equal to its live guards.
pub struct DashboardStats {
    relay_display: String,
    control: u8,
    tunnels: Vec<TunnelRowStats>,
    live: Ghost<Seq<int>>,
}

/// Whether the active-stream count of every row is its number of live guards, modulo
/// `2^32` (the counter wraps).
pub open spec fn counts_match(rows: Seq<TunnelRowStats>, live: Seq<int>) -> bool {
    &&& live.len() == rows.len()
    &&& forall|i: int|
        0 <= i < rows.len() ==> (#[trigger] rows[i]).active_streams as int == live[i]
            % counter_modulus()
}

impl DashboardStats {
    #[verifier::type_invariant]
    spec fn well_formed(self) -> bool {
        &&& row_names_distinct(self.tunnels@)
        &&& counts_match(self.tunnels@, self.live@)
    }

    /// One row per configured tunnel, in configuration order, with zero counters; the
    /// status starts as `Starting`.
    pub fn new(cfg: &ClientConfig) -> (res: Result<Self, ConfigError>)
        requires
            cfg.wf(),
        ensures
            res matches Ok(d) && d.control_state_spec() == ControlState::Starting && d.relay_text()
                == crate::addr::sock_addr_text(cfg.relay_addr) && d.rows().len()
                == cfg.tunnels@.len() && (forall|i: int|
                0 <= i < d.rows().len() ==> {
                    let r = #[trigger] d.rows()[i];
                    &&& r.name@ == cfg.tunnels@[i].0@
                    &&& r.local_addr_display@ == cfg.tunnels@[i].1.addr@
                    &&& r.domain@ == cfg.tunnels@[i].1.domain@
                    &&& r.bytes_in == 0
                    &&& r.bytes_out == 0
                    &&& r.active_streams == 0
                }) && d.live_guards() == Seq::new(d.rows().len(), |i: int| 0int)
                && d.counts_match_guards() && row_names_distinct(d.rows()),
    {
        let mut rows: Vec<TunnelRowStats> = Vec::new();
        let n = cfg.tunnels.len();
        for i in 0..n
            invariant
                n == cfg.tunnels@.len(),
                rows@.len() == i,
                forall|k: int|
                    0 <= k < i ==> {
                        let r = #[trigger] rows@[k];
                        &&& r.name@ == cfg.tunnels@[k].0@
                        &&& r.local_addr_display@ == cfg.tunnels@[k].1.addr@
                        &&& r.domain@ == cfg.tunnels@[k].1.domain@
                        &&& r.bytes_in == 0
                        &&& r.bytes_out == 0
                        &&& r.active_streams == 0
                    },
        {
            let (name, t) = &cfg.tunnels[i];
            rows.push(
                TunnelRowStats {
                    name: name.clone(),
                    local_addr_display: t.addr.clone(),
                    domain: t.domain.clone(),
                    bytes_in: 0,
                    bytes_out: 0,
                    active_streams: 0,
                },
            );
        }
        let ghost zeros = Seq::new(n as nat, |i: int| 0int);
        proof {
            assert forall|i: int| 0 <= i < rows@.len() implies (#[trigger] rows@[i]).active_streams
                as int == zeros[i] % counter_modulus() by {
                assert(rows@[i].active_streams == 0);
            }
            assert forall|i: int, j: int|
                0 <= i < rows@.len() && 0 <= j < rows@.len() && i != j implies rows@[i].name@
                != rows@[j].name@ by {
                crate::client::lemma_wf_names_distinct(*cfg, i, j);
            }
        }
        let d = DashboardStats {
            relay_display: cfg.relay_addr.to_text(),
            control: ControlState::Starting.code(),
            tunnels: rows,
            live: Ghost(zeros),
        };
        Ok(d)
    }

    /// The tunnel rows.
    pub closed spec fn rows(&self) -> Seq<TunnelRowStats> {
        self.tunnels@
    }

    /// The relay address as shown.
    pub closed spec fn relay_text(&self) -> Seq<char> {
        self.relay_display@
    }

    /// The status currently shown.
    pub closed spec fn control_state_spec(&self) -> ControlState {
        control_of_code(self.control)
    }

    /// Per row, the guards it handed out (by [`Self::begin_stream`]) and has not taken
    /// back (by [`Self::end_stream`]).
    pub closed spec fn live_guards(&self) -> Seq<int> {
        self.live@
    }

    /// Every row's count of active streams is its number of live guards, modulo
    /// `2^32` (the counter wraps).
    pub open spec fn counts_match_guards(&self) -> bool {
        counts_match(self.rows(), self.live_guards())
    }

    /// The tunnel rows.
    pub fn tunnels(&self) -> (r: &Vec<TunnelRowStats>)
        ensures
            r@ == self.rows(),
    {
        &self.tunnels
    }

    /// The relay address as shown.
    pub fn relay_display(&self) -> (r: &String)
        ensures
            r@ == self.relay_text(),
    {
        &self.relay_display
    }

    /// Records the control status.
    pub fn set_control(&mut self, s: ControlState)
        ensures
            final(self).control_state_spec() == s,
            final(self).rows() == old(self).rows(),
            final(self).relay_text() == old(self).relay_text(),
            final(self).live_guards() == old(self).live_guards(),
    {
        proof {
            use_type_invariant(&*self);
        }
        self.control = s.code();
    }

    /// The control status.
    pub fn control_state(&self) -> (s: ControlState)
        ensures
            s == self.control_state_spec(),
    {
        ControlState::from_code(self.control)
    }

    /// Index of the first row of a tunnel name.
    pub fn row_index(&self, name: &String) -> (res: Option<usize>)
        ensures
            match res {
                Some(i) => is_first_row_named(self.rows(), name@, i as int),
                None => forall|k: int|
                    0 <= k < self.rows().len() ==> self.rows()[k].name@ != name@,
            },
    {
        let n = self.tunnels.len();
        for i in 0..n
            invariant
                n == self.rows().len(),
                forall|k: int| 0 <= k < i ==> self.rows()[k].name@ != name@,
        {
            if self.tunnels[i].name == *name {
                return Some(i);
            }
        }
        None
    }

    /// Replaces row `row` and the ghost count of live guards.
    fn put_row(&mut self, row: usize, r: TunnelRowStats, live: Ghost<Seq<int>>)
        requires
            row < old(self).rows().len(),
            r.name == old(self).rows()[row as int].name,
            counts_match(old(self).rows().update(row as int, r), live@),
        ensures
            final(self).rows() == old(self).rows().update(row as int, r),
            final(self).live_guards() == live@,
            final(self).control_state_spec() == old(self).control_state_spec(),
            final(self).relay_text() == old(self).relay_text(),
    {
        proof {
            use_type_invariant(&*self);
        }
        let mut holder = DashboardStats {
            relay_display: String::new(),
            control: 0,
            tunnels: Vec::new(),
            live: Ghost(Seq::empty()),
        };
        std::mem::swap(self, &mut holder);
        let DashboardStats { relay_display, control, tunnels: mut rows, live: _ } = holder;
        let ghost before = rows@;
        rows.remove(row);
        rows.insert(row, r);
        assert(rows@ =~= before.update(row as int, r));
        proof {
            assert forall|i: int, j: int|
                0 <= i < rows@.len() && 0 <= j < rows@.len() && i != j implies rows@[i].name@
                != rows@[j].name@ by {
                assert(before[i].name@ != before[j].name@);
            }
        }
        *self = DashboardStats { relay_display, control, tunnels: rows, live };
    }

    /// Counts a new active stream on row `row`; the guard names the row.
    pub fn begin_stream(&mut self, row: usize) -> (g: ActiveStreamGuard)
        requires
            row < old(self).rows().len(),
        ensures
            g.row_name() == old(self).rows()[row as int].name@,
            final(self).rows().len() == old(self).rows().len(),
            final(self).rows()[row as int].active_streams == old(self).rows()[row as int].active_streams.wrapping_add(1),
            final(self).rows()[row as int].name == old(self).rows()[row as int].name,
            final(self).rows()[row as int].bytes_in == old(self).rows()[row as int].bytes_in,
            final(self).rows()[row as int].bytes_out == old(self).rows()[row as int].bytes_out,
            forall|k: int|
                0 <= k < old(self).rows().len() && k != row ==> final(self).rows()[k] == old(self).rows()[k],
            final(self).control_state_spec() == old(self).control_state_spec(),
            final(self).relay_text() == old(self).relay_text(),
            final(self).live_guards() == old(self).live_guards().update(
                row as int,
                old(self).live_guards()[row as int] + 1,
            ),
            final(self).counts_match_guards(),
            row_names_distinct(final(self).rows()),
    {
        proof {
            use_type_invariant(&*self);
        }
        let mut r = self.tunnels[row].clone_row();
        let g = r.begin_stream();
        let ghost live = self.live@.update(row as int, self.live@[row as int] + 1);
        proof {
            lemma_wrapping_step(self.tunnels@[row as int].active_streams, self.live@[row as int]);
            let rows = self.tunnels@.update(row as int, r);
            assert forall|i: int| 0 <= i < rows.len() implies (#[trigger] rows[i]).active_streams
                as int == live[i] % counter_modulus() by {
                if i != row {
                    assert(rows[i] == self.tunnels@[i]);
                }
            }
        }
        self.put_row(row, r, Ghost(live));
        proof {
            use_type_invariant(&*self);
        }
        g
    }

    /// Counts the end of a stream on the row named by its guard (the row names are
    /// distinct); nothing changes if no row has that name.
    pub fn end_stream(&mut self, guard: ActiveStreamGuard)
        ensures
            final(self).rows().len() == old(self).rows().len(),
            final(self).control_state_spec() == old(self).control_state_spec(),
            final(self).relay_text() == old(self).relay_text(),
            forall|i: int|
                0 <= i < old(self).rows().len() && old(self).rows()[i].name@ == guard.row_name()
                    ==> {
                    &&& final(self).rows()[i].active_streams == old(self).rows()[i].active_streams.wrapping_sub(1)
                    &&& final(self).rows()[i].name == old(self).rows()[i].name
                    &&& final(self).rows()[i].bytes_in == old(self).rows()[i].bytes_in
                    &&& final(self).rows()[i].bytes_out == old(self).rows()[i].bytes_out
                    &&& forall|k: int|
                        0 <= k < old(self).rows().len() && k != i ==> final(self).rows()[k] == old(
                            self,
                        ).rows()[k]
                    &&& final(self).live_guards() == old(self).live_guards().update(
                        i,
                        old(self).live_guards()[i] - 1,
                    )
                },
            (forall|k: int|
                0 <= k < old(self).rows().len() ==> old(self).rows()[k].name@ != guard.row_name())
                ==> final(self).rows() == old(self).rows() && final(self).live_guards() == old(
                self,
            ).live_guards(),
            final(self).counts_match_guards(),
            row_names_distinct(final(self).rows()),
    {
        proof {
            use_type_invariant(&*self);
        }
        let found = self.row_index(&guard.row);
        match found {
            None => {},
            Some(row) => {
                let mut r = self.tunnels[row].clone_row();
                r.end_stream(guard);
                let ghost live = self.live@.update(row as int, self.live@[row as int] - 1);
                proof {
                    lemma_wrapping_step(
                        self.tunnels@[row as int].active_streams,
                        self.live@[row as int],
                    );
                    let rows = self.tunnels@.update(row as int, r);
                    assert forall|i: int| 0 <= i < rows.len() implies (
                    #[trigger] rows[i]).active_streams as int == live[i] % counter_modulus() by {
                        if i != row {
                            assert(rows[i] == self.tunnels@[i]);
                        }
                    }
                }
                self.put_row(row, r, Ghost(live));
            },
        }
        proof {
            use_type_invariant(&*self);
        }
    }

    /// Adds bytes read from the tunnel to row `row` (wrapping).
    pub fn add_bytes_in(&mut self, row: usize, n: u64)
        requires
            row < old(self).rows().len(),
        ensures
            final(self).rows().len() == old(self).rows().len(),
            final(self).rows()[row as int].bytes_in == old(self).rows()[row as int].bytes_in.wrapping_add(n),
            final(self).rows()[row as int].bytes_out == old(self).rows()[row as int].bytes_out,
            final(self).rows()[row as int].active_streams == old(self).rows()[row as int].active_streams,
            final(self).rows()[row as int].name == old(self).rows()[row as int].name,
            forall|k: int|
                0 <= k < old(self).rows().len() && k != row ==> final(self).rows()[k] == old(self).rows()[k],
            final(self).live_guards() == old(self).live_guards(),
            final(self).control_state_spec() == old(self).control_state_spec(),
    {
        proof {
            use_type_invariant(&*self);
        }
        let mut r = self.tunnels[row].clone_row();
        r.add_bytes_in(n);
        let ghost live = self.live@;
        proof {
            let rows = self.tunnels@.update(row as int, r);
            assert forall|i: int| 0 <= i < rows.len() implies (#[trigger] rows[i]).active_streams
                as int == live[i] % counter_modulus() by {
                if i != row {
                    assert(rows[i] == self.tunnels@[i]);
                }
            }
        }
        self.put_row(row, r, Ghost(live));
    }

    /// Adds bytes written to the tunnel to row `row` (wrapping).
    pub fn add_bytes_out(&mut self, row: usize, n: u64)
        requires
            row < old(self).rows().len(),
        ensures
            final(self).rows().len() == old(self).rows().len(),
            final(self).rows()[row as int].bytes_out == old(self).rows()[row as int].bytes_out.wrapping_add(n),
            final(self).rows()[row as int].bytes_in == old(self).rows()[row as int].bytes_in,
            final(self).rows()[row as int].active_streams == old(self).rows()[row as int].active_streams,
            final(self).rows()[row as int].name == old(self).rows()[row as int].name,
            forall|k: int|
                0 <= k < old(self).rows().len() && k != row ==> final(self).rows()[k] == old(self).rows()[k],
            final(self).live_guards() == old(self).live_guards(),
            final(self).control_state_spec() == old(self).control_state_spec(),
    {
        proof {
            use_type_invariant(&*self);
        }
        let mut r = self.tunnels[row].clone_row();
        r.add_bytes_out(n);
        let ghost live = self.live@;
        proof {
            let rows = self.tunnels@.update(row as int, r);
            assert forall|i: int| 0 <= i < rows.len() implies (#[trigger] rows[i]).active_streams
                as int == live[i] % counter_modulus() by {
                if i != row {
                    assert(rows[i] == self.tunnels@[i]);
                }
            }
        }
        self.put_row(row, r, Ghost(live));
    }
}

/// In a dashboard whose rows have distinct names, the end of a stream begun on row
/// `row` is counted on that same row.
pub proof fn lemma_stream_ends_on_its_row(rows: Seq<TunnelRowStats>, row: int)
    requires
        row_names_distinct(rows),
        0 <= row < rows.len(),
    ensures
        is_first_row_named(rows, rows[row].name@, row),
{
}

/// A stream begun and then ended leaves a row's count of live guards, and its count of
/// active streams, where they were.
pub proof fn lemma_begin_end_restores_guards(live: Seq<int>, row: int)
    requires
        0 <= row < live.len(),
    ensures
        live.update(row, live[row] + 1).update(row, live.update(row, live[row] + 1)[row] - 1)
            == live,
{
    assert(live.update(row, live[row] + 1).update(row, live.update(row, live[row] + 1)[row] - 1)
        =~= live);
}

/// The row status text: `…` while the control session is not live, else
/// `Active (n)` with open streams, or `Idle`.
pub open spec fn row_status_text(ctrl: ControlState, active: u32) -> Seq<char> {
    if ctrl != ControlState::Live {
        "…"@
    } else if active > 0 {
        "Active ("@ + decimal(active as nat) + ")"@
    } else {
        "Idle"@
    }
}

/// See [`row_status_text`].
pub fn row_status(ctrl: ControlState, active: u32) -> (res: String)
    ensures
        res@ == row_status_text(ctrl, active),
{
    let mut s = String::new();
    if ctrl != ControlState::Live {
        push_str(&mut s, "…");
    } else if active > 0 {
        push_str(&mut s, "Active (");
        push_decimal(&mut s, active as u64);
        push_str(&mut s, ")");
    } else {
        push_str(&mut s, "Idle");
    }
    assert(s@ =~= row_status_text(ctrl, active));
    s
}

/// A row is highlighted while the session is live and the tunnel has open streams.
pub fn row_highlighted(ctrl: ControlState, active: u32) -> (b: bool)
    ensures
        b == (active > 0 && ctrl == ControlState::Live),
{
    active > 0 && ctrl == ControlState::Live
}

/// `t / d` rounded to the nearest integer, ties to even.
pub open spec fn div_round_half_even(t: nat, d: nat) -> nat {
    let q = t / d;
    let r = t % d;
    if 2 * r > d || (2 * r == d && q % 2 == 1) {
        q + 1
    } else {
        q
    }
}

/// The smallest power of two `u >= start` with `n / u < 2^53`, doubling from `start`.
pub open spec fn f64_unit_from(n: nat, u: nat) -> nat
    decreases n - u,
{
    if u == 0 || n / u < 9007199254740992 || u > n {
        u
    } else {
        proof {
            assert(2 * u <= n) by (nonlinear_arith)
                requires
                    u > 0,
                    n / u >= 9007199254740992,
            ;
        }
        f64_unit_from(n, 2 * u)
    }
}

/// The integer value of `n as f64`: `n` rounded to 53 significant bits, ties to even.
pub open spec fn f64_value(n: nat) -> nat {
    let u = f64_unit_from(n, 1);
    div_round_half_even(n, u) * u
}

/// Digits of a value with `places` decimals, the value being `q / 10^places`.
pub open spec fn fixed_text(q: nat, places: nat) -> Seq<char> {
    if places == 1 {
        decimal(q / 10) + "."@ + seq![digit_of(q % 10)]
    } else {
        decimal(q / 100) + "."@ + seq![digit_of((q / 10) % 10), digit_of(q % 10)]
    }
}

/// Byte counts as the dashboard shows them: `n B` below 1 KiB; KiB with one decimal
/// below 1 MiB; MiB with two decimals above. Decimals round to nearest, ties to even,
/// and the MiB figure starts from `n` rounded to an `f64`.
pub open spec fn format_bytes_text(n: u64) -> Seq<char> {
    if n < 1024 {
        decimal(n as nat) + " B"@
    } else if n < 1048576 {
        fixed_text(div_round_half_even(n as nat * 10, 1024), 1) + " KiB"@
    } else {
        fixed_text(div_round_half_even(f64_value(n as nat) * 100, 1048576), 2) + " MiB"@
    }
}

fn div_round_half_even_exec(t: u128, d: u128) -> (q: u128)
    requires
        d > 0,
        d <= 0x1_0000_0000_0000_0000,
        t < 0x1_0000_0000_0000_0000_0000_0000_0000,
    ensures
        q == div_round_half_even(t as nat, d as nat),
{
    let q = t / d;
    let r = t % d;
    assert(r < d);
    if 2 * r > d || (2 * r == d && q % 2 == 1) {
        assert(q + 1 <= t) by (nonlinear_arith)
            requires
                q == t / d,
                r == t % d,
                r < d,
                d > 0,
                2 * r >= d,
        ;
        q + 1
    } else {
        q
    }
}

fn f64_value_exec(n: u64) -> (v: u128)
    ensures
        v == f64_value(n as nat),
        v <= 0x2_0000_0000_0000_0000,
{
    let mut u: u128 = 1;
    while !((n as u128) / u < 9007199254740992 || u > n as u128)
        invariant
            1 <= u <= n as u128 + 1,
            f64_unit_from(n as nat, u as nat) == f64_unit_from(n as nat, 1),
        decreases n as u128 + 1 - u,
    {
        assert(2 * u <= n as u128) by (nonlinear_arith)
            requires
                u > 0,
                (n as u128) / u >= 9007199254740992,
        ;
        u = 2 * u;
    }
    let q = div_round_half_even_exec(n as u128, u);
    proof {
        assert(q <= n as u128 / u + 1);
        assert(q * u <= n as u128 + u) by (nonlinear_arith)
            requires
                q <= n as u128 / u + 1,
                u > 0,
        ;
    }
    q * u
}

fn push_fixed(s: &mut String, q: u128, places: u8)
    requires
        places == 1 || places == 2,
        q < 0x1_0000_0000_0000_0000,
    ensures
        final(s)@ == old(s)@ + fixed_text(q as nat, places as nat),
{
    let ghost before = s@;
    if places == 1 {
        push_decimal(s, (q / 10) as u64);
        push_str(s, ".");
        push_char(s, digit_char((q % 10) as u64));
    } else {
        push_decimal(s, (q / 100) as u64);
        push_str(s, ".");
        push_char(s, digit_char(((q / 10) % 10) as u64));
        push_char(s, digit_char((q % 10) as u64));
    }
    assert(s@ =~= before + fixed_text(q as nat, places as nat));
}

/// Human-readable byte count; see [`format_bytes_text`].
pub fn format_bytes(n: u64) -> (res: String)
    ensures
        res@ == format_bytes_text(n),
{
    let mut s = String::new();
    if n < 1024 {
        push_decimal(&mut s, n);
        push_str(&mut s, " B");
    } else if n < 1048576 {
        let q = div_round_half_even_exec((n as u128) * 10, 1024);
        assert(q <= 10240) by (nonlinear_arith)
            requires
                q <= (n as u128 * 10) / 1024 + 1,
                n < 1048576,
        ;
        push_fixed(&mut s, q, 1);
        push_str(&mut s, " KiB");
    } else {
        let v = f64_value_exec(n);
        let q = div_round_half_even_exec(v * 100, 1048576);
        assert(q <= 0x1_0000_0000_0000_0000) by (nonlinear_arith)
            requires
                q <= (v * 100) / 1048576 + 1,
                v <= 0x2_0000_0000_0000_0000,
        ;
        push_fixed(&mut s, q, 2);
        push_str(&mut s, " MiB");
    }
    assert(s@ =~= format_bytes_text(n));
    s
}

} // verus!
