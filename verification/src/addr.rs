//! Socket addresses as plain values, their text form, and the local-address syntax
//! of the client's tunnel entries (a socket address, or a bare port on 127.0.0.1).

use vstd::prelude::*;
use vstd::string::*;

use crate::sockparse::{parse_socket_chars, socket_addr_of};
use crate::text::{
    chars_of, decimal, hex, push_char, push_decimal, push_hex, push_str, string_from_chars,
};

verus! {

/// A socket address: an IPv4 address and port, or an IPv6 address, port, flow
/// label and scope id. Addresses are held as their big-endian integer value.
#[allow(inconsistent_fields)]
#[derive(Clone, Copy, Debug, PartialEq, Eq, Structural, Hash)]
pub enum SockAddr {
    V4 { ip: u32, port: u16 },
    V6 { ip: u128, port: u16, flowinfo: u32, scope_id: u32 },
}

/// 127.0.0.1 as an integer.
pub const LOOPBACK_V4: u32 = 0x7f00_0001;

/// The divisor that brings IPv4 octet `k` (0 = most significant) to the low byte.
pub open spec fn octet_divisor(k: nat) -> nat {
    if k == 0 {
        16777216
    } else if k == 1 {
        65536
    } else if k == 2 {
        256
    } else {
        1
    }
}

/// Octet `k` of an IPv4 address.
pub open spec fn octet(ip: u32, k: nat) -> nat {
    (ip as nat / octet_divisor(k)) % 256
}

/// Dotted-decimal text of an IPv4 address.
pub open spec fn ipv4_text(ip: u32) -> Seq<char> {
    decimal(octet(ip, 0)) + "."@ + decimal(octet(ip, 1)) + "."@ + decimal(octet(ip, 2)) + "."@
        + decimal(octet(ip, 3))
}

/// The divisor that brings IPv6 segment `k` (0 = most significant) to the low 16 bits.
pub open spec fn segment_divisor(k: nat) -> nat {
    if k == 0 {
        5192296858534827628530496329220096
    } else if k == 1 {
        79228162514264337593543950336
    } else if k == 2 {
        1208925819614629174706176
    } else if k == 3 {
        18446744073709551616
    } else if k == 4 {
        281474976710656
    } else if k == 5 {
        4294967296
    } else if k == 6 {
        65536
    } else {
        1
    }
}

/// Segment `k` of an IPv6 address.
pub open spec fn segment(ip: u128, k: nat) -> nat {
    (ip as nat / segment_divisor(k)) % 65536
}

/// The eight segments of an IPv6 address.
pub open spec fn segments(ip: u128) -> Seq<nat> {
    Seq::new(8, |k: int| segment(ip, k as nat))
}

/// Segments in lowercase hex, separated by colons.
pub open spec fn join_hex(s: Seq<nat>) -> Seq<char>
    decreases s.len(),
{
    if s.len() == 0 {
        Seq::empty()
    } else if s.len() == 1 {
        hex(s[0])
    } else {
        join_hex(s.drop_last()) + ":"@ + hex(s.last())
    }
}

/// Scans `s` from index `i` for the first longest run of zero segments, given the
/// current run and the best run so far; returns the best run's start and length.
pub open spec fn zero_run_scan(
    s: Seq<nat>,
    i: nat,
    cur_start: nat,
    cur_len: nat,
    best_start: nat,
    best_len: nat,
) -> (nat, nat)
    decreases s.len() - i,
{
    if i >= s.len() {
        (best_start, best_len)
    } else if s[i as int] == 0 {
        let cs = if cur_len == 0 {
            i
        } else {
            cur_start
        };
        let cl = cur_len + 1;
        if cl > best_len {
            zero_run_scan(s, i + 1, cs, cl, cs, cl)
        } else {
            zero_run_scan(s, i + 1, cs, cl, best_start, best_len)
        }
    } else {
        zero_run_scan(s, i + 1, 0, 0, best_start, best_len)
    }
}

/// Whether the address is an IPv4-mapped IPv6 address (`::ffff:a.b.c.d`).
pub open spec fn is_v4_mapped(ip: u128) -> bool {
    let s = segments(ip);
    s[0] == 0 && s[1] == 0 && s[2] == 0 && s[3] == 0 && s[4] == 0 && s[5] == 0xffff
}

/// Text of an IPv6 address: IPv4-mapped addresses as `::ffff:` and dotted decimal;
/// otherwise lowercase hex segments with the first longest run of two or more zero
/// segments shortened to `::`.
pub open spec fn ipv6_text(ip: u128) -> Seq<char> {
    if is_v4_mapped(ip) {
        "::ffff:"@ + ipv4_text((ip as nat % 4294967296) as u32)
    } else {
        let s = segments(ip);
        let (start, len) = zero_run_scan(s, 0, 0, 0, 0, 0);
        if len > 1 {
            join_hex(s.subrange(0, start as int)) + "::"@ + join_hex(
                s.subrange((start + len) as int, 8),
            )
        } else {
            join_hex(s)
        }
    }
}

/// Text of a socket address: `a.b.c.d:port`, or `[ip]:port` with `%scope` inside
/// the brackets when the scope id is not zero.
pub open spec fn sock_addr_text(a: SockAddr) -> Seq<char> {
    match a {
        SockAddr::V4 { ip, port } => ipv4_text(ip) + ":"@ + decimal(port as nat),
        SockAddr::V6 { ip, port, flowinfo, scope_id } => "["@ + ipv6_text(ip) + (if scope_id
            == 0 {
            Seq::empty()
        } else {
            "%"@ + decimal(scope_id as nat)
        }) + "]:"@ + decimal(port as nat),
    }
}

fn push_ipv4(s: &mut String, ip: u32)
    ensures
        final(s)@ == old(s)@ + ipv4_text(ip),
{
    let ghost before = s@;
    push_decimal(s, ((ip / 16777216) % 256) as u64);
    push_str(s, ".");
    push_decimal(s, ((ip / 65536) % 256) as u64);
    push_str(s, ".");
    push_decimal(s, ((ip / 256) % 256) as u64);
    push_str(s, ".");
    push_decimal(s, (ip % 256) as u64);
    assert(s@ =~= before + ipv4_text(ip));
}

fn segment_exec(ip: u128, k: usize) -> (r: u64)
    requires
        k < 8,
    ensures
        r as nat == segment(ip, k as nat),
{
    let d: u128 = if k == 0 {
        5192296858534827628530496329220096
    } else if k == 1 {
        79228162514264337593543950336
    } else if k == 2 {
        1208925819614629174706176
    } else if k == 3 {
        18446744073709551616
    } else if k == 4 {
        281474976710656
    } else if k == 5 {
        4294967296
    } else if k == 6 {
        65536
    } else {
        1
    };
    ((ip / d) % 65536) as u64
}

fn segments_exec(ip: u128) -> (v: Vec<u64>)
    ensures
        v@.len() == 8,
        forall|k: int| 0 <= k < 8 ==> v@[k] as nat == #[trigger] segments(ip)[k],
{
    let mut v: Vec<u64> = Vec::new();
    for k in 0..8
        invariant
            v@.len() == k,
            forall|j: int| 0 <= j < k ==> v@[j] as nat == #[trigger] segments(ip)[j],
    {
        v.push(segment_exec(ip, k));
    }
    v
}

/// The segments of `v[from..to]`, as naturals.
pub open spec fn nat_view(v: Seq<u64>) -> Seq<nat> {
    v.map_values(|x: u64| x as nat)
}

fn push_join_hex(s: &mut String, v: &Vec<u64>, from: usize, to: usize)
    requires
        from <= to <= v@.len(),
    ensures
        final(s)@ == old(s)@ + join_hex(nat_view(v@).subrange(from as int, to as int)),
{
    let ghost before = s@;
    let mut i = from;
    while i < to
        invariant
            from <= i <= to <= v@.len(),
            s@ == before + join_hex(nat_view(v@).subrange(from as int, i as int)),
        decreases to - i,
    {
        let ghost prev = s@;
        if i > from {
            push_str(s, ":");
        }
        push_hex(s, v[i]);
        let ghost sub = nat_view(v@).subrange(from as int, i + 1);
        assert(sub.drop_last() =~= nat_view(v@).subrange(from as int, i as int));
        assert(sub.last() == v@[i as int] as nat);
        if i == from {
            assert(sub.len() == 1);
            assert(nat_view(v@).subrange(from as int, i as int) =~= Seq::<nat>::empty());
        }
        assert(s@ =~= before + join_hex(sub));
        i = i + 1;
    }
}

fn zero_run_exec(
    v: &Vec<u64>,
    i: usize,
    cur_start: usize,
    cur_len: usize,
    best_start: usize,
    best_len: usize,
) -> (r: (usize, usize))
    requires
        v@.len() == 8,
        i <= 8,
        cur_start <= 8,
        cur_len <= i,
        best_start <= 8,
        best_len <= 8,
    ensures
        (r.0 as nat, r.1 as nat) == zero_run_scan(
            nat_view(v@),
            i as nat,
            cur_start as nat,
            cur_len as nat,
            best_start as nat,
            best_len as nat,
        ),
        r.0 <= 8,
        r.1 <= 8,
    decreases 8 - i,
{
    if i >= 8 {
        (best_start, best_len)
    } else if v[i] == 0 {
        let cs = if cur_len == 0 {
            i
        } else {
            cur_start
        };
        let cl = cur_len + 1;
        if cl > best_len {
            zero_run_exec(v, i + 1, cs, cl, cs, cl)
        } else {
            zero_run_exec(v, i + 1, cs, cl, best_start, best_len)
        }
    } else {
        zero_run_exec(v, i + 1, 0, 0, best_start, best_len)
    }
}

proof fn lemma_zero_run_bounds(
    s: Seq<nat>,
    i: nat,
    cur_start: nat,
    cur_len: nat,
    best_start: nat,
    best_len: nat,
)
    requires
        s.len() == 8,
        i <= 8,
        cur_len <= i,
        cur_len > 0 ==> cur_start + cur_len == i,
        best_start + best_len <= 8,
    ensures
        ({
            let r = zero_run_scan(s, i, cur_start, cur_len, best_start, best_len);
            r.0 + r.1 <= 8
        }),
    decreases 8 - i,
{
    if i < 8 {
        if s[i as int] == 0 {
            let cs = if cur_len == 0 {
                i
            } else {
                cur_start
            };
            let cl = cur_len + 1;
            if cl > best_len {
                lemma_zero_run_bounds(s, i + 1, cs, cl, cs, cl);
            } else {
                lemma_zero_run_bounds(s, i + 1, cs, cl, best_start, best_len);
            }
        } else {
            lemma_zero_run_bounds(s, i + 1, 0, 0, best_start, best_len);
        }
    }
}

fn push_ipv6(s: &mut String, ip: u128)
    ensures
        final(s)@ == old(s)@ + ipv6_text(ip),
{
    let ghost before = s@;
    let v = segments_exec(ip);
    assert(nat_view(v@) =~= segments(ip));
    if v[0] == 0 && v[1] == 0 && v[2] == 0 && v[3] == 0 && v[4] == 0 && v[5] == 0xffff {
        push_str(s, "::ffff:");
        push_ipv4(s, (ip % 4294967296) as u32);
        assert(s@ =~= before + ipv6_text(ip));
        return ;
    }
    let (start, len) = zero_run_exec(&v, 0, 0, 0, 0, 0);
    proof {
        lemma_zero_run_bounds(segments(ip), 0, 0, 0, 0, 0);
    }
    if len > 1 {
        push_join_hex(s, &v, 0, start);
        push_str(s, "::");
        push_join_hex(s, &v, start + len, 8);
    } else {
        push_join_hex(s, &v, 0, 8);
        assert(nat_view(v@).subrange(0, 8) =~= nat_view(v@));
    }
    assert(s@ =~= before + ipv6_text(ip));
}

impl SockAddr {
    /// The port.
    pub fn port(&self) -> (p: u16)
        ensures
            p == match *self {
                SockAddr::V4 { port, .. } => port,
                SockAddr::V6 { port, .. } => port,
            },
    {
        match self {
            SockAddr::V4 { port, .. } => *port,
            SockAddr::V6 { port, .. } => *port,
        }
    }

    /// The text form of the address, as a socket address is displayed.
    pub fn to_text(&self) -> (res: String)
        ensures
            res@ == sock_addr_text(*self),
    {
        let mut s = String::new();
        self.push_text(&mut s);
        assert(s@ =~= sock_addr_text(*self));
        s
    }

    /// Appends the text form of the address.
    pub fn push_text(&self, s: &mut String)
        ensures
            final(s)@ == old(s)@ + sock_addr_text(*self),
    {
        let ghost before = s@;
        match self {
            SockAddr::V4 { ip, port } => {
                push_ipv4(s, *ip);
                push_str(s, ":");
                push_decimal(s, *port as u64);
            },
            SockAddr::V6 { ip, port, flowinfo: _, scope_id } => {
                push_str(s, "[");
                push_ipv6(s, *ip);
                if *scope_id != 0 {
                    push_str(s, "%");
                    push_decimal(s, *scope_id as u64);
                }
                push_str(s, "]:");
                push_decimal(s, *port as u64);
            },
        }
        assert(s@ =~= before + sock_addr_text(*self));
    }
}

/// A Unicode `White_Space` character, as `char::is_whitespace` decides.
pub open spec fn is_whitespace(c: char) -> bool {
    let v = c as u32;
    (0x9 <= v && v <= 0xd) || v == 0x20 || v == 0x85 || v == 0xa0 || v == 0x1680 || (0x2000 <= v
        && v <= 0x200a) || v == 0x2028 || v == 0x2029 || v == 0x202f || v == 0x205f || v == 0x3000
}

fn is_whitespace_exec(c: char) -> (b: bool)
    ensures
        b == is_whitespace(c),
{
    let v: u32 = c as u32;
    (0x9 <= v && v <= 0xd) || v == 0x20 || v == 0x85 || v == 0xa0 || v == 0x1680 || (0x2000 <= v
        && v <= 0x200a) || v == 0x2028 || v == 0x2029 || v == 0x202f || v == 0x205f || v == 0x3000
}

/// Index of the first character that is not whitespace (or the length).
pub open spec fn trim_start_index(s: Seq<char>, i: nat) -> nat
    decreases s.len() - i,
{
    if i >= s.len() {
        s.len()
    } else if is_whitespace(s[i as int]) {
        trim_start_index(s, i + 1)
    } else {
        i
    }
}

/// One past the last character that is not whitespace, at or after `lo`.
pub open spec fn trim_end_index(s: Seq<char>, lo: nat, j: nat) -> nat
    decreases j,
{
    if j <= lo {
        lo
    } else if is_whitespace(s[j - 1]) {
        trim_end_index(s, lo, (j - 1) as nat)
    } else {
        j
    }
}

/// `s` without leading and trailing whitespace, as `str::trim` gives it.
pub open spec fn trim(s: Seq<char>) -> Seq<char> {
    let lo = trim_start_index(s, 0);
    let hi = trim_end_index(s, lo, s.len());
    s.subrange(lo as int, hi as int)
}

fn trim_exec(s: &Vec<char>) -> (r: (usize, usize))
    ensures
        r.0 as nat == trim_start_index(s@, 0),
        r.1 as nat == trim_end_index(s@, r.0 as nat, s@.len()),
        r.0 <= r.1 <= s@.len(),
{
    let n = s.len();
    let mut lo: usize = 0;
    while lo < n && is_whitespace_exec(s[lo])
        invariant
            n == s@.len(),
            lo <= n,
            trim_start_index(s@, lo as nat) == trim_start_index(s@, 0),
        decreases n - lo,
    {
        lo = lo + 1;
    }
    let mut hi: usize = n;
    while hi > lo && is_whitespace_exec(s[hi - 1])
        invariant
            n == s@.len(),
            lo <= hi <= n,
            trim_end_index(s@, lo as nat, hi as nat) == trim_end_index(s@, lo as nat, n as nat),
        decreases hi,
    {
        hi = hi - 1;
    }
    (lo, hi)
}

/// Whether `c` is an ASCII digit.
pub open spec fn is_digit(c: char) -> bool {
    '0' <= c && c <= '9'
}

/// Value of a run of ASCII digits.
pub open spec fn digits_value(s: Seq<char>) -> nat
    decreases s.len(),
{
    if s.len() == 0 {
        0
    } else {
        digits_value(s.drop_last()) * 10 + ((s.last() as u32) - 48) as nat
    }
}

/// The digits of a decimal number, after at most one leading `+` (a lone `+` has no
/// digits).
pub open spec fn unsigned_digits(s: Seq<char>) -> Seq<char> {
    if s.len() > 1 && s[0] == '+' {
        s.drop_first()
    } else {
        s
    }
}

/// A decimal `u16` as `u16::from_str` reads it: an optional leading `+`, then one or
/// more ASCII digits whose value fits in 16 bits.
pub open spec fn parse_u16(s: Seq<char>) -> Option<u16> {
    let d = unsigned_digits(s);
    if d.len() > 0 && (forall|i: int| 0 <= i < d.len() ==> is_digit(#[trigger] d[i]))
        && digits_value(d) <= 0xffff {
        Some(digits_value(d) as u16)
    } else {
        None
    }
}

fn parse_u16_exec(s: &Vec<char>, lo: usize, hi: usize) -> (r: Option<u16>)
    requires
        lo <= hi <= s@.len(),
    ensures
        r == parse_u16(s@.subrange(lo as int, hi as int)),
{
    let ghost t = s@.subrange(lo as int, hi as int);
    let mut start = lo;
    if hi - lo > 1 && s[lo] == '+' {
        start = lo + 1;
    }
    let ghost d = s@.subrange(start as int, hi as int);
    assert(d =~= unsigned_digits(t));
    if start == hi {
        return None;
    }
    let mut value: u32 = 0;
    let mut i = start;
    while i < hi
        invariant
            lo <= start <= i <= hi <= s@.len(),
            d == s@.subrange(start as int, hi as int),
            d == unsigned_digits(s@.subrange(lo as int, hi as int)),
            forall|k: int| 0 <= k < i - start ==> is_digit(#[trigger] d[k]),
            value as nat == digits_value(d.subrange(0, i - start)),
            value <= 0xffff,
        decreases hi - i,
    {
        let c = s[i];
        if !('0' <= c && c <= '9') {
            assert(!is_digit(d[i - start]));
            return None;
        }
        let dv: u32 = (c as u32) - 48;
        assert(d.subrange(0, i + 1 - start).drop_last() =~= d.subrange(0, i - start));
        let next: u32 = value * 10 + dv;
        if next > 0xffff {
            proof {
                if forall|k: int| 0 <= k < d.len() ==> is_digit(#[trigger] d[k]) {
                    lemma_digits_value_prefix_mono(d, (i + 1 - start) as nat);
                }
            }
            return None;
        }
        value = next;
        i = i + 1;
    }
    assert(d.subrange(0, hi - start) =~= d);
    Some(value as u16)
}

proof fn lemma_digits_value_prefix_mono(d: Seq<char>, k: nat)
    requires
        k <= d.len(),
        forall|i: int| 0 <= i < d.len() ==> is_digit(#[trigger] d[i]),
    ensures
        digits_value(d.subrange(0, k as int)) <= digits_value(d),
    decreases d.len() - k,
{
    if k < d.len() {
        lemma_digits_value_prefix_mono(d, k + 1);
        assert(d.subrange(0, k + 1 as int).drop_last() =~= d.subrange(0, k as int));
    } else {
        assert(d.subrange(0, k as int) =~= d);
    }
}

/// Reads a decimal `u16` as `u16::from_str` does; see [`parse_u16`].
pub fn parse_port(s: &str) -> (r: Option<u16>)
    ensures
        r == parse_u16(s@),
{
    let cs = chars_of(s);
    assert(cs@.subrange(0, cs@.len() as int) =~= cs@);
    parse_u16_exec(&cs, 0, cs.len())
}

/// `s` without leading and trailing whitespace.
pub fn trim_str(s: &str) -> (r: String)
    ensures
        r@ == trim(s@),
{
    let cs = chars_of(s);
    let (lo, hi) = trim_exec(&cs);
    string_from_chars(cs.as_slice(), lo, hi)
}

/// Why text did not read as a `u16`, as `std::num::IntErrorKind` tells it.
#[derive(Clone, Copy, Debug, PartialEq, Eq, Structural)]
pub enum PortErrorKind {
    /// The text is empty.
    Empty,
    /// A character that is not a digit comes first.
    InvalidDigit,
    /// The digits read so far exceed `u16::MAX` before any other character.
    PosOverflow,
}

/// The value of an ASCII digit.
pub open spec fn digit_val(c: char) -> nat {
    ((c as u32) - 48) as nat
}

/// Scans the digits `d[i..]` with `v` read so far, as `u16::from_str` does: at each
/// position a non-digit is reported first, then a value beyond `u16::MAX`.
pub open spec fn port_kind_scan(d: Seq<char>, i: int, v: nat) -> PortErrorKind
    decreases d.len() - i,
{
    if i < 0 || i >= d.len() {
        PortErrorKind::InvalidDigit
    } else if !is_digit(d[i]) {
        PortErrorKind::InvalidDigit
    } else if v * 10 + digit_val(d[i]) > 0xffff {
        PortErrorKind::PosOverflow
    } else {
        port_kind_scan(d, i + 1, v * 10 + digit_val(d[i]))
    }
}

/// The kind of error `u16::from_str` reports for text that is not a `u16`.
pub open spec fn port_error_kind(t: Seq<char>) -> PortErrorKind {
    if t.len() == 0 {
        PortErrorKind::Empty
    } else {
        port_kind_scan(unsigned_digits(t), 0, 0)
    }
}

/// The message `std::num::ParseIntError` shows for each kind.
pub open spec fn port_error_kind_message(k: PortErrorKind) -> Seq<char> {
    match k {
        PortErrorKind::Empty => "cannot parse integer from empty string"@,
        PortErrorKind::InvalidDigit => "invalid digit found in string"@,
        PortErrorKind::PosOverflow => "number too large to fit in target type"@,
    }
}

fn port_error_kind_exec(s: &Vec<char>, lo: usize, hi: usize) -> (k: PortErrorKind)
    requires
        lo <= hi <= s@.len(),
    ensures
        k == port_error_kind(s@.subrange(lo as int, hi as int)),
{
    let ghost t = s@.subrange(lo as int, hi as int);
    if lo == hi {
        return PortErrorKind::Empty;
    }
    let mut start = lo;
    if hi - lo > 1 && s[lo] == '+' {
        start = lo + 1;
    }
    let ghost d = s@.subrange(start as int, hi as int);
    assert(d =~= unsigned_digits(t));
    let mut value: u32 = 0;
    let mut i = start;
    while i < hi
        invariant
            lo <= start <= i <= hi <= s@.len(),
            d == s@.subrange(start as int, hi as int),
            d == unsigned_digits(t),
            t == s@.subrange(lo as int, hi as int),
            t.len() > 0,
            value <= 0xffff,
            port_error_kind(t) == port_kind_scan(d, i - start, value as nat),
        decreases hi - i,
    {
        let c = s[i];
        assert(c == d[i - start]);
        if !('0' <= c && c <= '9') {
            return PortErrorKind::InvalidDigit;
        }
        let next: u32 = value * 10 + ((c as u32) - 48);
        if next > 0xffff {
            return PortErrorKind::PosOverflow;
        }
        value = next;
        i = i + 1;
    }
    PortErrorKind::InvalidDigit
}

/// Why a tunnel's local address entry was refused.
#[derive(Clone, Copy, Debug, PartialEq, Eq, Structural)]
pub enum LocalAddrError {
    /// Text with a colon that is not a socket address.
    InvalidAddr,
    /// Text without a colon that is not a decimal `u16` port, with the reason.
    InvalidPort(PortErrorKind),
}

/// The message of a local-address error.
pub open spec fn local_addr_error_message(e: LocalAddrError) -> Seq<char> {
    match e {
        LocalAddrError::InvalidAddr => "invalid addr (expected host:port or port)"@,
        LocalAddrError::InvalidPort(_) => "invalid port"@,
    }
}

/// The message of the std error under a local-address error: that of
/// `std::net::AddrParseError` for a socket address, that of
/// `std::num::ParseIntError` for a port.
pub open spec fn local_addr_error_cause(e: LocalAddrError) -> Seq<char> {
    match e {
        LocalAddrError::InvalidAddr => "invalid socket address syntax"@,
        LocalAddrError::InvalidPort(k) => port_error_kind_message(k),
    }
}

impl LocalAddrError {
    /// The human-readable message of the error.
    pub fn message(&self) -> (res: &'static str)
        ensures
            res@ == local_addr_error_message(*self),
    {
        match self {
            LocalAddrError::InvalidAddr => "invalid addr (expected host:port or port)",
            LocalAddrError::InvalidPort(_) => "invalid port",
        }
    }

    /// The message of the std parse error this error wraps.
    pub fn cause(&self) -> (res: &'static str)
        ensures
            res@ == local_addr_error_cause(*self),
    {
        match self {
            LocalAddrError::InvalidAddr => "invalid socket address syntax",
            LocalAddrError::InvalidPort(PortErrorKind::Empty) => "cannot parse integer from empty string",
            LocalAddrError::InvalidPort(PortErrorKind::InvalidDigit) => "invalid digit found in string",
            LocalAddrError::InvalidPort(PortErrorKind::PosOverflow) => "number too large to fit in target type",
        }
    }
}

/// Whether `c` occurs in `s`.
pub open spec fn has_char(s: Seq<char>, c: char) -> bool {
    exists|i: int| 0 <= i < s.len() && s[i] == c
}

/// How a tunnel's `addr` entry reads: surrounding whitespace is ignored; text with a
/// colon must be a socket address (`a.b.c.d:port` or `[ipv6]:port`); anything else
/// must be a port, on 127.0.0.1.
pub open spec fn local_addr_of(addr: Seq<char>) -> Result<SockAddr, LocalAddrError> {
    let t = trim(addr);
    if has_char(t, ':') {
        match socket_addr_of(t) {
            Some(a) => Ok(a),
            None => Err(LocalAddrError::InvalidAddr),
        }
    } else {
        match parse_u16(t) {
            Some(p) => Ok(SockAddr::V4 { ip: LOOPBACK_V4, port: p }),
            None => Err(LocalAddrError::InvalidPort(port_error_kind(t))),
        }
    }
}

fn chars_between(s: &Vec<char>, lo: usize, hi: usize) -> (r: Vec<char>)
    requires
        lo <= hi <= s@.len(),
    ensures
        r@ == s@.subrange(lo as int, hi as int),
{
    let mut r: Vec<char> = Vec::new();
    let mut i = lo;
    while i < hi
        invariant
            lo <= i <= hi <= s@.len(),
            r@ == s@.subrange(lo as int, i as int),
        decreases hi - i,
    {
        r.push(s[i]);
        assert(r@ =~= s@.subrange(lo as int, i + 1));
        i = i + 1;
    }
    r
}

/// Reads a tunnel's local address: surrounding whitespace is ignored; text with a
/// colon must be a socket address; anything else must be a port, on 127.0.0.1.
pub fn parse_local_socket(addr: &str) -> (res: Result<SockAddr, LocalAddrError>)
    ensures
        res == local_addr_of(addr@),
{
    let cs = chars_of(addr);
    let (lo, hi) = trim_exec(&cs);
    let ghost t = cs@.subrange(lo as int, hi as int);
    assert(t == trim(addr@));
    let mut i = lo;
    while i < hi
        invariant
            lo <= i <= hi <= cs@.len(),
            cs@ == addr@,
            t == trim(addr@),
            t == cs@.subrange(lo as int, hi as int),
            forall|k: int| 0 <= k < i - lo ==> t[k] != ':',
        decreases hi - i,
    {
        if cs[i] == ':' {
            assert(t[i - lo] == ':');
            let trimmed = chars_between(&cs, lo, hi);
            return match parse_socket_chars(&trimmed) {
                Some(a) => Ok(a),
                None => Err(LocalAddrError::InvalidAddr),
            };
        }
        i = i + 1;
    }
    assert(!has_char(t, ':'));
    match parse_u16_exec(&cs, lo, hi) {
        Some(p) => Ok(SockAddr::V4 { ip: LOOPBACK_V4, port: p }),
        None => Err(LocalAddrError::InvalidPort(port_error_kind_exec(&cs, lo, hi))),
    }
}

} // verus!
