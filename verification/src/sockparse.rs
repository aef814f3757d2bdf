//! Reading socket addresses from text, with the grammar of `SocketAddr::from_str`:
//! `a.b.c.d:port`, or `[ipv6]:port` / `[ipv6%scope]:port`. IPv4 octets are decimal,
//! at most three digits, without leading zeros; IPv6 groups are one to four hex
//! digits, with one `::` for a run of zero groups and an optional trailing embedded
//! IPv4 address; ports and scope ids are decimal with leading zeros allowed.
//!
//! The specification reads like a parser: each `read_*` function takes the text and a
//! position and gives the value read and the position after it, or `None`; a failed
//! reader consumes nothing.

use vstd::prelude::*;

use crate::addr::{
    ipv4_text, ipv6_text, is_v4_mapped, join_hex, octet, segment, segments, sock_addr_text,
    zero_run_scan, SockAddr,
};
use crate::text::{chars_of, decimal, digit_of, digits, hex};

verus! {

/// The value of `c` as a digit in base 10 or 16 (either case), as `char::to_digit`.
pub open spec fn digit_value(c: char, radix: nat) -> Option<nat> {
    let v = c as u32;
    if 48 <= v && v <= 57 {
        Some((v - 48) as nat)
    } else if radix == 16 && 97 <= v && v <= 102 {
        Some((v - 87) as nat)
    } else if radix == 16 && 65 <= v && v <= 70 {
        Some((v - 55) as nat)
    } else {
        None
    }
}

/// The number of digits in a row from position `i`.
pub open spec fn digit_run(s: Seq<char>, i: int, radix: nat) -> nat
    decreases s.len() - i,
{
    if i < 0 || i >= s.len() || digit_value(s[i], radix) is None {
        0
    } else {
        1 + digit_run(s, i + 1, radix)
    }
}

/// The value of the `k` digits from position `i`.
pub open spec fn digits_val(s: Seq<char>, i: int, k: nat, radix: nat) -> nat
    decreases k,
{
    if k == 0 {
        0
    } else {
        digits_val(s, i, (k - 1) as nat, radix) * radix + digit_value(s[i + k - 1], radix)->0
    }
}

/// Reads a number: all the digits in a row (at least one), refused when there are
/// more than `max_digits` of them, when a leading zero is not allowed and there is
/// one before other digits, or when the value exceeds `max_value`.
pub open spec fn read_number(
    s: Seq<char>,
    i: int,
    radix: nat,
    max_digits: Option<nat>,
    allow_zero_prefix: bool,
    max_value: nat,
) -> Option<(nat, int)> {
    let k = digit_run(s, i, radix);
    if k == 0 {
        None
    } else if max_digits matches Some(m) && k > m {
        None
    } else if !allow_zero_prefix && s[i] == '0' && k > 1 {
        None
    } else if digits_val(s, i, k, radix) > max_value {
        None
    } else {
        Some((digits_val(s, i, k, radix), i + k))
    }
}

/// Whether `c` stands at position `i`.
pub open spec fn char_at(s: Seq<char>, i: int, c: char) -> bool {
    0 <= i < s.len() && s[i] == c
}

/// An IPv4 octet.
pub open spec fn read_octet(s: Seq<char>, i: int) -> Option<(nat, int)> {
    read_number(s, i, 10, Some(3), false, 255)
}

/// A dot, then an octet.
pub open spec fn read_dot_octet(s: Seq<char>, i: int) -> Option<(nat, int)> {
    if char_at(s, i, '.') {
        read_octet(s, i + 1)
    } else {
        None
    }
}

/// An IPv4 address `a.b.c.d`, as its big-endian integer.
pub open spec fn read_ipv4(s: Seq<char>, i: int) -> Option<(nat, int)> {
    match read_octet(s, i) {
        None => None,
        Some((a, p1)) => match read_dot_octet(s, p1) {
            None => None,
            Some((b, p2)) => match read_dot_octet(s, p2) {
                None => None,
                Some((c, p3)) => match read_dot_octet(s, p3) {
                    None => None,
                    Some((d, p4)) => Some((a * 16777216 + b * 65536 + c * 256 + d, p4)),
                },
            },
        },
    }
}

/// A hex group of the IPv6 address.
pub open spec fn read_hex_group(s: Seq<char>, i: int) -> Option<(nat, int)> {
    read_number(s, i, 16, Some(4), true, 65535)
}

/// Group number `idx`: after a colon unless it is the first.
pub open spec fn read_sep_group(s: Seq<char>, i: int, idx: nat) -> Option<(nat, int)> {
    if idx == 0 {
        read_hex_group(s, i)
    } else if char_at(s, i, ':') {
        read_hex_group(s, i + 1)
    } else {
        None
    }
}

/// An embedded IPv4 address in group position `idx`: after a colon unless first.
pub open spec fn read_sep_ipv4(s: Seq<char>, i: int, idx: nat) -> Option<(nat, int)> {
    if idx == 0 {
        read_ipv4(s, i)
    } else if char_at(s, i, ':') {
        read_ipv4(s, i + 1)
    } else {
        None
    }
}

/// Reads up to `limit` groups, starting at group number `idx` with `acc` read so far;
/// an embedded IPv4 address counts as two groups and ends the reading. Returns the
/// groups, the position after them, and whether an IPv4 address ended them.
pub open spec fn read_groups(s: Seq<char>, i: int, idx: nat, limit: nat, acc: Seq<nat>) -> (
    Seq<nat>,
    int,
    bool,
)
    decreases limit - idx,
{
    if idx >= limit {
        (acc, i, false)
    } else {
        let v4 = if idx + 1 < limit {
            read_sep_ipv4(s, i, idx)
        } else {
            None
        };
        match v4 {
            Some((ip, p)) => (acc.push(ip / 65536).push(ip % 65536), p, true),
            None => match read_sep_group(s, i, idx) {
                Some((g, p)) => read_groups(s, p, idx + 1, limit, acc.push(g)),
                None => (acc, i, false),
            },
        }
    }
}

/// The integer whose 16-bit digits, most significant first, are `g`.
pub open spec fn groups_value(g: Seq<nat>) -> nat
    decreases g.len(),
{
    if g.len() == 0 {
        0
    } else {
        groups_value(g.drop_last()) * 65536 + g.last()
    }
}

/// `n` zero groups.
pub open spec fn zero_groups(n: nat) -> Seq<nat> {
    Seq::new(n, |k: int| 0nat)
}

/// An IPv6 address: eight groups, or the groups before and after one `::`, which
/// stands for at least one zero group; an embedded IPv4 address may only end it.
pub open spec fn read_ipv6(s: Seq<char>, i: int) -> Option<(nat, int)> {
    let (head, p1, head_v4) = read_groups(s, i, 0, 8, Seq::empty());
    if head.len() == 8 {
        Some((groups_value(head), p1))
    } else if head_v4 {
        None
    } else if !(char_at(s, p1, ':') && char_at(s, p1 + 1, ':')) {
        None
    } else {
        let limit = (7 - head.len()) as nat;
        let (tail, p2, _) = read_groups(s, p1 + 2, 0, limit, Seq::empty());
        Some(
            (
                groups_value(head + zero_groups((8 - head.len() - tail.len()) as nat) + tail),
                p2,
            ),
        )
    }
}

/// A colon, then a decimal port.
pub open spec fn read_port(s: Seq<char>, i: int) -> Option<(nat, int)> {
    if char_at(s, i, ':') {
        read_number(s, i + 1, 10, None, true, 65535)
    } else {
        None
    }
}

/// A percent sign, then a decimal scope id.
pub open spec fn read_scope(s: Seq<char>, i: int) -> Option<(nat, int)> {
    if char_at(s, i, '%') {
        read_number(s, i + 1, 10, None, true, 4294967295)
    } else {
        None
    }
}

/// `a.b.c.d:port`.
pub open spec fn read_socket_v4(s: Seq<char>, i: int) -> Option<(SockAddr, int)> {
    match read_ipv4(s, i) {
        None => None,
        Some((ip, p)) => match read_port(s, p) {
            None => None,
            Some((port, q)) => Some((SockAddr::V4 { ip: ip as u32, port: port as u16 }, q)),
        },
    }
}

/// `[ipv6]:port` or `[ipv6%scope]:port`.
pub open spec fn read_socket_v6(s: Seq<char>, i: int) -> Option<(SockAddr, int)> {
    if !char_at(s, i, '[') {
        None
    } else {
        match read_ipv6(s, i + 1) {
            None => None,
            Some((ip, p)) => {
                let (scope, q) = match read_scope(s, p) {
                    Some((sc, q)) => (sc, q),
                    None => (0nat, p),
                };
                if !char_at(s, q, ']') {
                    None
                } else {
                    match read_port(s, q + 1) {
                        None => None,
                        Some((port, r)) => Some(
                            (
                                SockAddr::V6 {
                                    ip: ip as u128,
                                    port: port as u16,
                                    flowinfo: 0,
                                    scope_id: scope as u32,
                                },
                                r,
                            ),
                        ),
                    }
                }
            },
        }
    }
}

/// The socket address the whole text reads as: the IPv4 form is tried first, then
/// the IPv6 form; the reading must use up the text.
pub open spec fn socket_addr_of(s: Seq<char>) -> Option<SockAddr> {
    match read_socket_v4(s, 0) {
        Some((a, p)) => if p == s.len() {
            Some(a)
        } else {
            None
        },
        None => match read_socket_v6(s, 0) {
            Some((a, p)) => if p == s.len() {
                Some(a)
            } else {
                None
            },
            None => None,
        },
    }
}

proof fn lemma_digits_val_shift(s: Seq<char>, i: int, t: Seq<char>, j: int, k: nat, radix: nat)
    requires
        forall|x: int| i <= x < i + k ==> #[trigger] s[x] == t[x - i + j],
    ensures
        digits_val(s, i, k, radix) == digits_val(t, j, k, radix),
    decreases k,
{
    if k > 0 {
        lemma_digits_val_shift(s, i, t, j, (k - 1) as nat, radix);
        assert(s[i + k - 1] == t[(i + k - 1) - i + j]);
    }
}

/// The decimal text of `n`: digits only, reading back as `n`, a leading zero only in
/// `0`, and at most three digits below 1000.
proof fn lemma_decimal_shape(n: nat)
    ensures
        decimal(n).len() >= 1,
        forall|m: int| 0 <= m < decimal(n).len() ==> digit_value(#[trigger] decimal(n)[m], 10) is Some,
        digits_val(decimal(n), 0, decimal(n).len(), 10) == n,
        decimal(n)[0] == '0' ==> n == 0 && decimal(n).len() == 1,
        n < 10 ==> decimal(n).len() == 1,
        n < 100 ==> decimal(n).len() <= 2,
        n < 1000 ==> decimal(n).len() <= 3,
    decreases n,
{
    if n < 10 {
        assert(decimal(n) == seq![digit_of(n)]);
        assert(digit_value(digit_of(n), 10) == Some(n));
        assert(digits_val(decimal(n), 0, 0, 10) == 0);
    } else {
        let q = n / 10;
        let r = n % 10;
        assert(q < n);
        lemma_decimal_shape(q);
        let dq = decimal(q);
        let d = decimal(n);
        assert(d == dq.push(digit_of(r)));
        assert(digit_value(digit_of(r), 10) == Some(r));
        assert forall|m: int| 0 <= m < d.len() implies digit_value(#[trigger] d[m], 10) is Some by {
            if m < dq.len() {
                assert(d[m] == dq[m]);
            }
        }
        lemma_digits_val_shift(d, 0, dq, 0, dq.len(), 10);
        assert(digits_val(d, 0, d.len(), 10) == digits_val(d, 0, dq.len(), 10) * 10 + r);
        assert(n == q * 10 + r);
        assert(d[0] == dq[0]);
        assert(q >= 1);
    }
}

proof fn lemma_digit_run_of_decimal(s: Seq<char>, i: int, n: nat, m: nat)
    requires
        0 <= i,
        m <= decimal(n).len(),
        i + decimal(n).len() <= s.len(),
        forall|x: int| i <= x < i + decimal(n).len() ==> #[trigger] s[x] == decimal(n)[x - i],
        i + decimal(n).len() == s.len() || digit_value(s[i + decimal(n).len()], 10) is None,
    ensures
        digit_run(s, i + m, 10) == decimal(n).len() - m,
    decreases decimal(n).len() - m,
{
    lemma_decimal_shape(n);
    if m < decimal(n).len() {
        lemma_digit_run_of_decimal(s, i, n, m + 1);
        assert(s[i + m] == decimal(n)[(i + m) - i]);
    }
}

/// A decimal text of `n` at position `i`, followed by a non-digit or the end, reads as
/// `n` with the given limits.
proof fn lemma_read_decimal(s: Seq<char>, i: int, n: nat, md: Option<nat>, az: bool, mv: nat)
    requires
        0 <= i,
        i + decimal(n).len() <= s.len(),
        forall|x: int| i <= x < i + decimal(n).len() ==> #[trigger] s[x] == decimal(n)[x - i],
        i + decimal(n).len() == s.len() || digit_value(s[i + decimal(n).len()], 10) is None,
        n <= mv,
        md matches Some(k) ==> decimal(n).len() <= k,
    ensures
        read_number(s, i, 10, md, az, mv) == Some((n, i + decimal(n).len())),
{
    lemma_decimal_shape(n);
    lemma_digit_run_of_decimal(s, i, n, 0);
    lemma_digits_val_shift(s, i, decimal(n), 0, decimal(n).len(), 10);
    assert(s[i] == decimal(n)[i - i]);
}

/// The dotted-decimal text of `ip` at `q`, followed by a character that is no decimal
/// digit, reads as `ip`.
#[verifier::spinoff_prover]
#[verifier::rlimit(40)]
proof fn lemma_read_ipv4_text(s: Seq<char>, q: int, ip: u32)
    requires
        0 <= q,
        q + ipv4_text(ip).len() < s.len(),
        forall|x: int|
            q <= x < q + ipv4_text(ip).len() ==> #[trigger] s[x] == ipv4_text(ip)[x - q],
        digit_value(s[q + ipv4_text(ip).len()], 10) is None,
    ensures
        read_ipv4(s, q) == Some((ip as nat, q + ipv4_text(ip).len())),
{
    let a0 = octet(ip, 0);
    let a1 = octet(ip, 1);
    let a2 = octet(ip, 2);
    let a3 = octet(ip, 3);
    let d0 = decimal(a0);
    let d1 = decimal(a1);
    let d2 = decimal(a2);
    let d3 = decimal(a3);
    let t = ipv4_text(ip);
    lemma_decimal_shape(a0);
    lemma_decimal_shape(a1);
    lemma_decimal_shape(a2);
    lemma_decimal_shape(a3);
    let dot = "."@;
    reveal_strlit(".");
    assert(t == d0 + dot + d1 + dot + d2 + dot + d3);
    let p1 = q + d0.len();
    let q1 = p1 + 1;
    let p2 = q1 + d1.len();
    let q2 = p2 + 1;
    let p3 = q2 + d2.len();
    let q3 = p3 + 1;
    let p4 = q3 + d3.len();
    assert(p4 == q + t.len());
    assert(s[p1] == t[p1 - q]);
    assert(s[p2] == t[p2 - q]);
    assert(s[p3] == t[p3 - q]);
    assert(s[p1] == '.');
    assert(s[p2] == '.');
    assert(s[p3] == '.');
    assert(digit_value('.', 10) is None);
    assert forall|x: int| q <= x < q + d0.len() implies #[trigger] s[x] == d0[x - q] by {
        assert(s[x] == t[x - q]);
    }
    assert forall|x: int| q1 <= x < q1 + d1.len() implies #[trigger] s[x] == d1[x - q1] by {
        assert(s[x] == t[x - q]);
    }
    assert forall|x: int| q2 <= x < q2 + d2.len() implies #[trigger] s[x] == d2[x - q2] by {
        assert(s[x] == t[x - q]);
    }
    assert forall|x: int| q3 <= x < q3 + d3.len() implies #[trigger] s[x] == d3[x - q3] by {
        assert(s[x] == t[x - q]);
    }
    lemma_read_decimal(s, q, a0, Some(3), false, 255);
    lemma_read_decimal(s, q1, a1, Some(3), false, 255);
    lemma_read_decimal(s, q2, a2, Some(3), false, 255);
    lemma_read_decimal(s, q3, a3, Some(3), false, 255);
    assert(ip == ((ip / 16777216) % 256) * 16777216 + ((ip / 65536) % 256) * 65536 + ((ip / 256)
        % 256) * 256 + ip % 256) by (bit_vector);
}

/// The text of an IPv4 socket address reads back as that address.
pub proof fn lemma_ipv4_socket_text_reads_back(ip: u32, port: u16)
    ensures
        socket_addr_of(sock_addr_text(SockAddr::V4 { ip, port })) == Some(
            SockAddr::V4 { ip, port },
        ),
{
    let t = ipv4_text(ip);
    let dp = decimal(port as nat);
    let s = sock_addr_text(SockAddr::V4 { ip, port });
    lemma_decimal_shape(port as nat);
    reveal_strlit(":");
    assert(s == t + ":"@ + dp);
    let p4 = t.len() as int;
    let q4 = p4 + 1;
    assert(s.len() == q4 + dp.len());
    assert(s[p4] == ':');
    assert(digit_value(':', 10) is None);
    assert forall|x: int| 0 <= x < 0 + t.len() implies #[trigger] s[x] == t[x - 0] by {}
    assert forall|x: int| q4 <= x < q4 + dp.len() implies #[trigger] s[x] == dp[x - q4] by {}
    lemma_read_ipv4_text(s, 0, ip);
    lemma_read_decimal(s, q4, port as nat, None, true, 65535);
    assert(read_socket_v4(s, 0) == Some((SockAddr::V4 { ip, port }, s.len() as int)));
}

/// The hex text of a 16-bit value: one to four hex digits, reading back as the value.
proof fn lemma_hex_shape(n: nat)
    ensures
        hex(n).len() >= 1,
        forall|m: int| 0 <= m < hex(n).len() ==> digit_value(#[trigger] hex(n)[m], 16) is Some,
        digits_val(hex(n), 0, hex(n).len(), 16) == n,
        n < 16 ==> hex(n).len() == 1,
        n < 256 ==> hex(n).len() <= 2,
        n < 4096 ==> hex(n).len() <= 3,
        n < 65536 ==> hex(n).len() <= 4,
    decreases n,
{
    if n < 16 {
        assert(hex(n) == seq![digit_of(n)]);
        assert(digit_value(digit_of(n), 16) == Some(n));
        assert(digits_val(hex(n), 0, 0, 16) == 0);
    } else {
        let q = n / 16;
        let r = n % 16;
        assert(q < n);
        lemma_hex_shape(q);
        let dq = hex(q);
        let d = hex(n);
        assert(d == dq.push(digit_of(r)));
        assert(digit_value(digit_of(r), 16) == Some(r));
        assert forall|m: int| 0 <= m < d.len() implies digit_value(#[trigger] d[m], 16) is Some by {
            if m < dq.len() {
                assert(d[m] == dq[m]);
            }
        }
        lemma_digits_val_shift(d, 0, dq, 0, dq.len(), 16);
        assert(digits_val(d, 0, d.len(), 16) == digits_val(d, 0, dq.len(), 16) * 16 + r);
        assert(n == q * 16 + r);
    }
}

/// A run of exactly `len` digits from position `i`.
proof fn lemma_digit_run_exact(s: Seq<char>, i: int, len: nat, radix: nat)
    requires
        0 <= i,
        i + len <= s.len(),
        forall|x: int| i <= x < i + len ==> digit_value(#[trigger] s[x], radix) is Some,
        i + len == s.len() || digit_value(s[i + len], radix) is None,
    ensures
        digit_run(s, i, radix) == len,
    decreases len,
{
    if len > 0 {
        assert(digit_value(s[i], radix) is Some);
        lemma_digit_run_exact(s, i + 1, (len - 1) as nat, radix);
    }
}

/// The hex text of a 16-bit value at `i`, followed by a character that is no hex
/// digit, reads as a group.
proof fn lemma_read_hex_group(s: Seq<char>, i: int, v: nat)
    requires
        v < 65536,
        0 <= i,
        i + hex(v).len() < s.len(),
        forall|x: int| i <= x < i + hex(v).len() ==> #[trigger] s[x] == hex(v)[x - i],
        digit_value(s[i + hex(v).len()], 16) is None,
    ensures
        read_hex_group(s, i) == Some((v, i + hex(v).len())),
{
    lemma_hex_shape(v);
    assert forall|x: int| i <= x < i + hex(v).len() implies digit_value(#[trigger] s[x], 16) is Some by {
        assert(s[x] == hex(v)[x - i]);
    }
    lemma_digit_run_exact(s, i, hex(v).len(), 16);
    lemma_digits_val_shift(s, i, hex(v), 0, hex(v).len(), 16);
}

proof fn lemma_decimal_run_le(s: Seq<char>, q: int, len: nat)
    requires
        0 <= q,
        q + len < s.len(),
        digit_value(s[q + len], 10) is None,
    ensures
        digit_run(s, q, 10) <= len,
    decreases len,
{
    if len > 0 && digit_value(s[q], 10) is Some {
        lemma_decimal_run_le(s, q + 1, (len - 1) as nat);
    }
}

/// Hex digits followed by a character that is neither a decimal digit nor a dot do
/// not read as an IPv4 address.
proof fn lemma_no_ipv4_in_hex(s: Seq<char>, q: int, len: nat)
    requires
        0 <= q,
        q + len < s.len(),
        forall|x: int| q <= x < q + len ==> digit_value(#[trigger] s[x], 16) is Some,
        digit_value(s[q + len], 10) is None,
        s[q + len] != '.',
    ensures
        read_ipv4(s, q) is None,
{
    lemma_decimal_run_le(s, q, len);
    let r = digit_run(s, q, 10);
    if let Some((a, p1)) = read_octet(s, q) {
        assert(p1 == q + r);
        if p1 < q + len {
            assert(digit_value(s[p1], 16) is Some);
            assert(s[p1] != '.');
        }
        assert(read_dot_octet(s, p1) is None);
    }
}

/// The text of hex groups from group `k` on: each after a colon, except group 0.
pub open spec fn groups_text(g: Seq<nat>, k: nat) -> Seq<char>
    decreases g.len() - k,
{
    if k >= g.len() {
        Seq::empty()
    } else {
        (if k == 0 {
            hex(g[0])
        } else {
            ":"@ + hex(g[k as int])
        }) + groups_text(g, k + 1)
    }
}

proof fn lemma_groups_text_push(g: Seq<nat>, x: nat, k: nat)
    requires
        k <= g.len(),
    ensures
        groups_text(g.push(x), k) == groups_text(g, k) + (if g.len() == 0 {
            hex(x)
        } else {
            ":"@ + hex(x)
        }),
    decreases g.len() - k,
{
    let gx = g.push(x);
    if k < g.len() {
        lemma_groups_text_push(g, x, k + 1);
        assert(gx[k as int] == g[k as int]);
        let sep = if k == 0 {
            hex(g[0])
        } else {
            ":"@ + hex(g[k as int])
        };
        let tail = if g.len() == 0 {
            hex(x)
        } else {
            ":"@ + hex(x)
        };
        assert(groups_text(gx, k) == sep + groups_text(gx, k + 1));
        assert(groups_text(g, k) == sep + groups_text(g, k + 1));
        assert(sep + (groups_text(g, k + 1) + tail) =~= (sep + groups_text(g, k + 1)) + tail);
    } else {
        assert(gx[k as int] == x);
        assert(groups_text(gx, k + 1) =~= Seq::<char>::empty());
        assert(groups_text(g, k) =~= Seq::<char>::empty());
    }
}

/// `join_hex` written from the front.
proof fn lemma_join_hex_front(g: Seq<nat>)
    ensures
        join_hex(g) == groups_text(g, 0),
    decreases g.len(),
{
    if g.len() == 0 {
    } else if g.len() == 1 {
        assert(groups_text(g, 1) =~= Seq::<char>::empty());
        assert(groups_text(g, 0) =~= hex(g[0]));
    } else {
        let h = g.drop_last();
        lemma_join_hex_front(h);
        lemma_groups_text_push(h, g.last(), 0);
        assert(h.push(g.last()) =~= g);
    }
}

/// Reading hex groups `k..` of `g` from their text at `p`, where at the end `e` of
/// the text stands a character that is neither a hex digit nor a dot and from which
/// no further group or IPv4 address reads, gives back exactly the groups of `g`.
proof fn lemma_read_groups_text(s: Seq<char>, g: Seq<nat>, k: nat, p: int, limit: nat)
    requires
        k <= g.len() <= limit,
        forall|x: int| 0 <= x < g.len() ==> #[trigger] g[x] < 65536,
        0 <= p,
        p + groups_text(g, k).len() < s.len(),
        forall|x: int|
            p <= x < p + groups_text(g, k).len() ==> #[trigger] s[x] == groups_text(g, k)[x - p],
        digit_value(s[p + groups_text(g, k).len()], 16) is None,
        s[p + groups_text(g, k).len()] != '.',
        g.len() < limit ==> read_sep_ipv4(s, p + groups_text(g, k).len(), g.len()) is None
            && read_sep_group(s, p + groups_text(g, k).len(), g.len()) is None,
    ensures
        read_groups(s, p, k, limit, g.subrange(0, k as int)) == (
            g,
            p + groups_text(g, k).len(),
            false,
        ),
    decreases g.len() - k,
{
    reveal_strlit(":");
    let e = p + groups_text(g, k).len();
    if k < g.len() {
        let v = g[k as int];
        let h = hex(v);
        lemma_hex_shape(v);
        let sep = if k == 0 {
            h
        } else {
            ":"@ + h
        };
        let rest = groups_text(g, k + 1);
        let t = groups_text(g, k);
        assert(t == sep + rest);
        let q = if k == 0 {
            p
        } else {
            p + 1
        };
        let after = q + h.len();
        assert(after == p + sep.len());
        assert forall|x: int| q <= x < q + h.len() implies #[trigger] s[x] == h[x - q] by {
            assert(s[x] == t[x - p]);
            assert(t[x - p] == sep[x - p]);
        }
        assert forall|x: int| q <= x < q + h.len() implies digit_value(#[trigger] s[x], 16)
            is Some by {
            assert(s[x] == h[x - q]);
        }
        if k + 1 < g.len() {
            let h2 = hex(g[(k + 1) as int]);
            assert(rest == (":"@ + h2) + groups_text(g, k + 2));
            assert(s[after] == t[after - p]);
            assert(t[after - p] == rest[0]);
            assert(rest[0] == ':');
        } else {
            assert(rest =~= Seq::<char>::empty());
            assert(after == e);
        }
        assert(digit_value(s[after], 16) is None);
        assert(digit_value(s[after], 10) is None);
        assert(s[after] != '.');
        if k > 0 {
            assert(s[p] == t[0]);
            assert(t[0] == ':');
        }
        lemma_no_ipv4_in_hex(s, q, h.len());
        lemma_read_hex_group(s, q, v);
        assert(read_sep_group(s, p, k) == Some((v, after)));
        assert(read_sep_ipv4(s, p, k) is None);
        assert(g.subrange(0, k as int).push(v) =~= g.subrange(0, (k + 1) as int));
        assert forall|x: int| after <= x < after + rest.len() implies #[trigger] s[x] == rest[x
            - after] by {
            assert(s[x] == t[x - p]);
        }
        lemma_read_groups_text(s, g, k + 1, after, limit);
    } else {
        assert(groups_text(g, k) =~= Seq::<char>::empty());
        assert(g.subrange(0, k as int) =~= g);
    }
}

/// The run that `zero_run_scan` picks lies within the segments and holds only zeros.
proof fn lemma_zero_run_scan_zeros(s: Seq<nat>, i: nat, cs: nat, cl: nat, bs: nat, bl: nat)
    requires
        i <= s.len(),
        cl > 0 ==> cs + cl == i,
        forall|k: int| cs <= k < cs + cl ==> #[trigger] s[k] == 0,
        bs + bl <= i,
        forall|k: int| bs <= k < bs + bl ==> #[trigger] s[k] == 0,
    ensures
        ({
            let (st, ln) = zero_run_scan(s, i, cs, cl, bs, bl);
            &&& st + ln <= s.len()
            &&& forall|k: int| st <= k < st + ln ==> #[trigger] s[k] == 0
        }),
    decreases s.len() - i,
{
    if i < s.len() {
        if s[i as int] == 0 {
            let ncs = if cl == 0 {
                i
            } else {
                cs
            };
            let ncl = cl + 1;
            assert forall|k: int| ncs <= k < ncs + ncl implies #[trigger] s[k] == 0 by {
                if k < i {
                    assert(cl > 0);
                }
            }
            if ncl > bl {
                lemma_zero_run_scan_zeros(s, i + 1, ncs, ncl, ncs, ncl);
            } else {
                lemma_zero_run_scan_zeros(s, i + 1, ncs, ncl, bs, bl);
            }
        } else {
            lemma_zero_run_scan_zeros(s, i + 1, 0, 0, bs, bl);
        }
    }
}

/// The first `k + 1` segments of an address, as a number, are the address divided by
/// the divisor of segment `k`.
proof fn lemma_segments_prefix_value(ip: u128, k: nat)
    requires
        k < 8,
    ensures
        groups_value(segments(ip).subrange(0, (k + 1) as int)) == ip as nat / crate::addr::segment_divisor(
            k,
        ),
    decreases k,
{
    let m: int = 65536;
    let segs = segments(ip);
    let d = crate::addr::segment_divisor(k) as int;
    let x = ip as int;
    if k == 0 {
        let sub = segs.subrange(0, 1);
        assert(sub.drop_last() =~= Seq::<nat>::empty());
        assert(groups_value(Seq::<nat>::empty()) == 0);
        assert(sub.last() == segs[0]);
        assert(groups_value(sub) == groups_value(sub.drop_last()) * 65536 + sub.last());
        assert(groups_value(sub) == segs[0]);
        assert(x / d < m) by (nonlinear_arith)
            requires
                x < 0x1_0000_0000_0000_0000_0000_0000_0000_0000,
                d == 5192296858534827628530496329220096,
                m == 65536,
        ;
        assert(x / d >= 0) by (nonlinear_arith)
            requires
                x >= 0,
                d > 0,
        ;
        vstd::arithmetic::div_mod::lemma_small_mod((x / d) as nat, m as nat);
    } else {
        lemma_segments_prefix_value(ip, (k - 1) as nat);
        let pd = crate::addr::segment_divisor((k - 1) as nat) as int;
        assert(pd == d * m);
        let sub = segs.subrange(0, (k + 1) as int);
        assert(sub.drop_last() =~= segs.subrange(0, k as int));
        assert(groups_value(sub) == groups_value(segs.subrange(0, k as int)) * 65536 + segs[k as int]);
        vstd::arithmetic::div_mod::lemma_div_denominator(x, d, m);
        let y = x / d;
        assert(x / d >= 0) by (nonlinear_arith)
            requires
                x >= 0,
                d > 0,
        ;
        vstd::arithmetic::div_mod::lemma_fundamental_div_mod(y, m);
        assert(segs[k as int] == (y % m) as nat);
        assert(x / pd == y / m);
        assert(y == m * (y / m) + y % m);
        assert((y / m) * 65536 == m * (y / m)) by (nonlinear_arith)
            requires
                m == 65536,
        ;
    }
}

/// An address is the number its eight segments spell.
proof fn lemma_segments_value(ip: u128)
    ensures
        groups_value(segments(ip)) == ip as nat,
{
    lemma_segments_prefix_value(ip, 7);
    vstd::arithmetic::div_mod::lemma_div_basics_2(ip as int);
    assert(crate::addr::segment_divisor(7) == 1);
    assert(segments(ip).subrange(0, 8) =~= segments(ip));
}

/// The hex text of `0xffff` is `ffff`.
proof fn lemma_hex_ffff()
    ensures
        hex(65535) == seq!['f', 'f', 'f', 'f'],
{
    reveal_with_fuel(digits, 5);
    assert(digit_of(15) == 'f');
    assert(hex(15) == seq!['f']);
    assert(hex(255) =~= seq!['f', 'f']);
    assert(hex(4095) =~= seq!['f', 'f', 'f']);
    assert(hex(65535) =~= seq!['f', 'f', 'f', 'f']);
}

/// Nothing reads as a group or an IPv4 address at a character that is neither a
/// digit nor (after the first group) a colon.
proof fn lemma_nothing_reads_at(s: Seq<char>, e: int, idx: nat)
    requires
        0 <= e < s.len(),
        digit_value(s[e], 16) is None,
        idx > 0 ==> s[e] != ':',
    ensures
        read_sep_ipv4(s, e, idx) is None,
        read_sep_group(s, e, idx) is None,
{
    assert(digit_value(s[e], 10) is None);
    assert(digit_run(s, e, 10) == 0);
    assert(digit_run(s, e, 16) == 0);
}

/// Nothing reads as a further group or IPv4 address where `::` stands.
proof fn lemma_nothing_reads_at_double_colon(s: Seq<char>, e: int, idx: nat)
    requires
        0 <= e,
        e + 1 < s.len(),
        s[e] == ':',
        s[e + 1] == ':',
    ensures
        read_sep_ipv4(s, e, idx) is None,
        read_sep_group(s, e, idx) is None,
{
    assert(digit_value(':', 10) is None);
    assert(digit_value(':', 16) is None);
    assert(digit_run(s, e, 10) == 0);
    assert(digit_run(s, e, 16) == 0);
    assert(digit_run(s, e + 1, 10) == 0);
    assert(digit_run(s, e + 1, 16) == 0);
}

/// The IPv4-mapped form `::ffff:a.b.c.d` reads as its address.
#[verifier::spinoff_prover]
#[verifier::rlimit(60)]
proof fn lemma_read_ipv6_text_mapped(s: Seq<char>, p: int, ip: u128)
    requires
        0 <= p,
        p + ipv6_text(ip).len() < s.len(),
        forall|x: int|
            p <= x < p + ipv6_text(ip).len() ==> #[trigger] s[x] == ipv6_text(ip)[x - p],
        s[p + ipv6_text(ip).len()] == '%' || s[p + ipv6_text(ip).len()] == ']',
        is_v4_mapped(ip),
    ensures
        read_ipv6(s, p) == Some((ip as nat, p + ipv6_text(ip).len())),
{
    let t = ipv6_text(ip);
    let e = p + t.len();
    let segs = segments(ip);
    reveal_strlit(":");
    reveal_strlit("::");
    reveal_strlit("::ffff:");
    assert(digit_value(s[e], 16) is None);
    assert(s[e] != '.' && s[e] != ':');
    assert forall|x: int| 0 <= x < segs.len() implies #[trigger] segs[x] < 65536 by {}
    lemma_segments_value(ip);
    let low = (ip as nat % 4294967296) as u32;
    let v4t = ipv4_text(low);
    assert(t == "::ffff:"@ + v4t);
    assert(s[p] == ':');
    assert(s[p + 1] == ':');
    lemma_nothing_reads_at_double_colon(s, p, 0);
    assert(read_groups(s, p, 0, 8, Seq::empty()) == (Seq::<nat>::empty(), p, false));
    lemma_hex_ffff();
    assert forall|x: int| p + 2 <= x < p + 2 + hex(65535).len() implies #[trigger] s[x]
        == hex(65535)[x - (p + 2)] by {
        assert(s[x] == t[x - p]);
    }
    assert(s[p + 6] == ':');
    assert(digit_value(s[p + 6], 16) is None);
    lemma_read_hex_group(s, p + 2, 65535);
    assert(digit_value(s[p + 2], 10) is None);
    assert(digit_run(s, p + 2, 10) == 0);
    assert(read_sep_ipv4(s, p + 2, 0) is None);
    assert(read_sep_group(s, p + 2, 0) == Some((65535nat, p + 6)));
    assert forall|x: int| p + 7 <= x < p + 7 + v4t.len() implies #[trigger] s[x] == v4t[x - (
    p + 7)] by {
        assert(s[x] == t[x - p]);
    }
    assert(e == p + 7 + v4t.len());
    lemma_read_ipv4_text(s, p + 7, low);
    assert(read_sep_ipv4(s, p + 6, 1) == Some((low as nat, e)));
    let tail = seq![65535nat, low as nat / 65536, low as nat % 65536];
    assert(read_groups(s, p + 7 - 1, 1, 7, seq![65535nat]) == (tail, e, true)) by {
        assert(seq![65535nat].push(low as nat / 65536).push(low as nat % 65536) =~= tail);
    }
    assert(read_groups(s, p + 2, 0, 7, Seq::empty()) == (tail, e, true)) by {
        assert(Seq::<nat>::empty().push(65535nat) =~= seq![65535nat]);
    }
    let all = Seq::<nat>::empty() + zero_groups(5) + tail;
    assert(ip % 0x1_0000_0000 / 0x10000 == (ip / 0x10000) % 0x10000) by (bit_vector);
    assert(ip % 0x1_0000_0000 % 0x10000 == ip % 0x10000) by (bit_vector);
    assert(segs[6] == segment(ip, 6));
    assert(segs[7] == segment(ip, 7));
    vstd::arithmetic::div_mod::lemma_div_basics_2(ip as int);
    assert(all =~= segs);
}

/// Hex groups with the first longest zero run shortened to `::` read as their address.
#[verifier::spinoff_prover]
#[verifier::rlimit(60)]
proof fn lemma_read_ipv6_text_compressed(s: Seq<char>, p: int, ip: u128)
    requires
        0 <= p,
        p + ipv6_text(ip).len() < s.len(),
        forall|x: int|
            p <= x < p + ipv6_text(ip).len() ==> #[trigger] s[x] == ipv6_text(ip)[x - p],
        s[p + ipv6_text(ip).len()] == '%' || s[p + ipv6_text(ip).len()] == ']',
        !is_v4_mapped(ip),
        zero_run_scan(segments(ip), 0, 0, 0, 0, 0).1 > 1,
    ensures
        read_ipv6(s, p) == Some((ip as nat, p + ipv6_text(ip).len())),
{
    let t = ipv6_text(ip);
    let e = p + t.len();
    let segs = segments(ip);
    reveal_strlit(":");
    reveal_strlit("::");
    reveal_strlit("::ffff:");
    assert(digit_value(s[e], 16) is None);
    assert(s[e] != '.' && s[e] != ':');
    assert forall|x: int| 0 <= x < segs.len() implies #[trigger] segs[x] < 65536 by {}
    lemma_segments_value(ip);
    let (st, ln) = zero_run_scan(segs, 0, 0, 0, 0, 0);
    lemma_zero_run_scan_zeros(segs, 0, 0, 0, 0, 0);
    let g1 = segs.subrange(0, st as int);
    let g2 = segs.subrange((st + ln) as int, 8);
    let t1 = join_hex(g1);
    let t2 = join_hex(g2);
    assert(t == t1 + "::"@ + t2);
    lemma_join_hex_front(g1);
    lemma_join_hex_front(g2);
    let e1 = p + t1.len();
    let p2 = e1 + 2;
    assert(e == p2 + t2.len());
    assert(s[e1] == t[e1 - p]);
    assert(s[e1 + 1] == t[e1 + 1 - p]);
    assert(s[e1] == ':');
    assert(s[e1 + 1] == ':');
    assert forall|x: int| 0 <= x < g1.len() implies #[trigger] g1[x] < 65536 by {
        assert(g1[x] == segs[x]);
    }
    assert forall|x: int| 0 <= x < g2.len() implies #[trigger] g2[x] < 65536 by {
        assert(g2[x] == segs[x + st + ln]);
    }
    assert forall|x: int| p <= x < p + groups_text(g1, 0).len() implies #[trigger] s[x]
        == groups_text(g1, 0)[x - p] by {
        assert(s[x] == t[x - p]);
    }
    assert forall|x: int| p2 <= x < p2 + groups_text(g2, 0).len() implies #[trigger] s[x]
        == groups_text(g2, 0)[x - p2] by {
        assert(s[x] == t[x - p]);
    }
    assert(digit_value(':', 16) is None);
    lemma_nothing_reads_at_double_colon(s, e1, g1.len());
    lemma_read_groups_text(s, g1, 0, p, 8);
    assert(g1.subrange(0, 0) =~= Seq::<nat>::empty());
    lemma_nothing_reads_at(s, e, g2.len());
    lemma_read_groups_text(s, g2, 0, p2, (7 - st) as nat);
    assert(g2.subrange(0, 0) =~= Seq::<nat>::empty());
    assert(g1 + zero_groups(ln) + g2 =~= segs);
}

/// All eight hex groups read as their address.
#[verifier::spinoff_prover]
#[verifier::rlimit(60)]
proof fn lemma_read_ipv6_text_full(s: Seq<char>, p: int, ip: u128)
    requires
        0 <= p,
        p + ipv6_text(ip).len() < s.len(),
        forall|x: int|
            p <= x < p + ipv6_text(ip).len() ==> #[trigger] s[x] == ipv6_text(ip)[x - p],
        s[p + ipv6_text(ip).len()] == '%' || s[p + ipv6_text(ip).len()] == ']',
        !is_v4_mapped(ip),
        zero_run_scan(segments(ip), 0, 0, 0, 0, 0).1 <= 1,
    ensures
        read_ipv6(s, p) == Some((ip as nat, p + ipv6_text(ip).len())),
{
    let t = ipv6_text(ip);
    let e = p + t.len();
    let segs = segments(ip);
    reveal_strlit(":");
    reveal_strlit("::");
    reveal_strlit("::ffff:");
    assert(digit_value(s[e], 16) is None);
    assert(s[e] != '.' && s[e] != ':');
    assert forall|x: int| 0 <= x < segs.len() implies #[trigger] segs[x] < 65536 by {}
    lemma_segments_value(ip);
    assert(t == join_hex(segs));
    lemma_join_hex_front(segs);
    lemma_read_groups_text(s, segs, 0, p, 8);
    assert(segs.subrange(0, 0) =~= Seq::<nat>::empty());
}

/// The text of an IPv6 address at `p`, followed by `%` or `]`, reads as that address.
proof fn lemma_read_ipv6_text(s: Seq<char>, p: int, ip: u128)
    requires
        0 <= p,
        p + ipv6_text(ip).len() < s.len(),
        forall|x: int|
            p <= x < p + ipv6_text(ip).len() ==> #[trigger] s[x] == ipv6_text(ip)[x - p],
        s[p + ipv6_text(ip).len()] == '%' || s[p + ipv6_text(ip).len()] == ']',
    ensures
        read_ipv6(s, p) == Some((ip as nat, p + ipv6_text(ip).len())),
{
    if is_v4_mapped(ip) {
        lemma_read_ipv6_text_mapped(s, p, ip);
    } else if zero_run_scan(segments(ip), 0, 0, 0, 0, 0).1 > 1 {
        lemma_read_ipv6_text_compressed(s, p, ip);
    } else {
        lemma_read_ipv6_text_full(s, p, ip);
    }
}

/// The text of an IPv6 socket address with flow label 0 reads back as that address
/// (the text carries no flow label).
#[verifier::spinoff_prover]
#[verifier::rlimit(40)]
pub proof fn lemma_ipv6_socket_text_reads_back(ip: u128, port: u16, scope_id: u32)
    ensures
        socket_addr_of(sock_addr_text(SockAddr::V6 { ip, port, flowinfo: 0, scope_id })) == Some(
            SockAddr::V6 { ip, port, flowinfo: 0, scope_id },
        ),
{
    let a = SockAddr::V6 { ip, port, flowinfo: 0, scope_id };
    let s = sock_addr_text(a);
    let t = ipv6_text(ip);
    let dp = decimal(port as nat);
    let ds = decimal(scope_id as nat);
    reveal_strlit("[");
    reveal_strlit("]:");
    reveal_strlit("%");
    lemma_decimal_shape(port as nat);
    lemma_decimal_shape(scope_id as nat);
    let sc = if scope_id == 0 {
        Seq::<char>::empty()
    } else {
        "%"@ + ds
    };
    assert(s == "["@ + t + sc + "]:"@ + dp);
    let e6: int = 1 + t.len() as int;
    let rb: int = e6 + sc.len();
    assert(s.len() == rb + 2 + dp.len());
    assert(s[0] == '[');
    assert(digit_value('[', 10) is None);
    assert(digit_run(s, 0, 10) == 0);
    assert(read_socket_v4(s, 0) is None);
    assert(s[rb] == ']');
    assert(s[rb + 1] == ':');
    assert forall|x: int| 1 <= x < 1 + t.len() implies #[trigger] s[x] == t[x - 1] by {}
    lemma_read_ipv6_text(s, 1, ip);
    if scope_id == 0 {
        assert(s[e6] == ']');
        assert(read_scope(s, e6) is None);
    } else {
        assert(s[e6] == '%');
        assert forall|x: int| e6 + 1 <= x < e6 + 1 + ds.len() implies #[trigger] s[x] == ds[x - (
        e6 + 1)] by {}
        assert(digit_value(']', 10) is None);
        lemma_read_decimal(s, e6 + 1, scope_id as nat, None, true, 4294967295);
    }
    assert forall|x: int| rb + 2 <= x < rb + 2 + dp.len() implies #[trigger] s[x] == dp[x - (rb
        + 2)] by {}
    lemma_read_decimal(s, rb + 2, port as nat, None, true, 65535);
    assert(read_socket_v6(s, 0) == Some((a, s.len() as int)));
}

/// `c` with a lowercase hex letter turned uppercase; other characters as they are.
pub open spec fn upper_hex_char(c: char) -> char {
    if 'a' <= c && c <= 'f' {
        ((c as u32) - 32) as char
    } else {
        c
    }
}

/// A way to write the 16-bit group `v`: `pad` leading zeros, then the hex digits of
/// `v`, in uppercase if `upper`.
pub open spec fn group_written(v: nat, pad: nat, upper: bool) -> Seq<char> {
    Seq::new(pad, |i: int| '0') + (if upper {
        hex(v).map_values(|c: char| upper_hex_char(c))
    } else {
        hex(v)
    })
}

/// The texts `ws[k..]` joined by colons.
pub open spec fn colon_joined(ws: Seq<Seq<char>>, k: nat) -> Seq<char>
    decreases ws.len() - k,
{
    if k >= ws.len() {
        Seq::empty()
    } else {
        (if k == 0 {
            ws[0]
        } else {
            ":"@ + ws[k as int]
        }) + colon_joined(ws, k + 1)
    }
}

/// The groups `g`, each written with its own padding and case.
pub open spec fn groups_written(g: Seq<nat>, pads: Seq<nat>, ups: Seq<bool>) -> Seq<Seq<char>> {
    Seq::new(g.len(), |k: int| group_written(g[k], pads[k], ups[k]))
}

/// Whether each group fits in 16 bits and its padded writing has at most four digits.
pub open spec fn groups_writable(g: Seq<nat>, pads: Seq<nat>, ups: Seq<bool>) -> bool {
    &&& pads.len() == g.len()
    &&& ups.len() == g.len()
    &&& forall|k: int| 0 <= k < g.len() ==> #[trigger] g[k] < 65536 && hex(g[k]).len() + pads[k] <= 4
}

/// Whether `w` is one to four hex digits whose value is `v`.
spec fn writes_group(w: Seq<char>, v: nat) -> bool {
    &&& 1 <= w.len() <= 4
    &&& forall|x: int| 0 <= x < w.len() ==> digit_value(#[trigger] w[x], 16) is Some
    &&& digits_val(w, 0, w.len(), 16) == v
}

proof fn lemma_digits_val_same_digits(s: Seq<char>, i: int, t: Seq<char>, j: int, k: nat, radix: nat)
    requires
        forall|x: int| i <= x < i + k ==> digit_value(#[trigger] s[x], radix) == digit_value(t[x - i + j], radix),
    ensures
        digits_val(s, i, k, radix) == digits_val(t, j, k, radix),
    decreases k,
{
    if k > 0 {
        lemma_digits_val_same_digits(s, i, t, j, (k - 1) as nat, radix);
        assert(digit_value(s[i + k - 1], radix) == digit_value(t[(i + k - 1) - i + j], radix));
    }
}

proof fn lemma_digits_val_leading_zeros(s: Seq<char>, pad: nat, m: nat)
    requires
        pad + m <= s.len(),
        forall|x: int| 0 <= x < pad ==> #[trigger] s[x] == '0',
    ensures
        digits_val(s, 0, pad + m, 16) == digits_val(s, pad as int, m, 16),
    decreases pad + m,
{
    if m == 0 {
        if pad > 0 {
            lemma_digits_val_leading_zeros(s, (pad - 1) as nat, 0);
            assert(s[pad - 1] == '0');
            assert(digit_value('0', 16) == Some(0nat));
        }
    } else {
        lemma_digits_val_leading_zeros(s, pad, (m - 1) as nat);
        assert(digits_val(s, 0, pad + m, 16) == digits_val(s, 0, (pad + m - 1) as nat, 16) * 16
            + digit_value(s[pad + m - 1], 16)->0);
    }
}

/// Lowercase and uppercase hex letters have the same value; an uppercase letter
/// stands for the same digit as its lowercase form.
pub proof fn lemma_hex_letters_either_case(c: char)
    ensures
        'a' <= c <= 'f' ==> digit_value(c, 16) == Some(((c as u32) - 87) as nat),
        'a' <= c <= 'f' ==> upper_hex_char(c) as u32 == (c as u32) - 32,
        digit_value(c, 16) is Some ==> digit_value(upper_hex_char(c), 16) == digit_value(c, 16),
        'A' <= c <= 'F' ==> digit_value(c, 16) == Some(((c as u32) - 55) as nat),
{
}

/// Every way of writing a group is one to four hex digits with the group's value.
proof fn lemma_group_written_shape(v: nat, pad: nat, up: bool)
    requires
        v < 65536,
        hex(v).len() + pad <= 4,
    ensures
        writes_group(group_written(v, pad, up), v),
        group_written(v, pad, up).len() == pad + hex(v).len(),
{
    lemma_hex_shape(v);
    let h = hex(v);
    let u = if up {
        h.map_values(|c: char| upper_hex_char(c))
    } else {
        h
    };
    let w = group_written(v, pad, up);
    assert(w == Seq::new(pad, |i: int| '0') + u);
    assert forall|x: int| 0 <= x < u.len() implies digit_value(#[trigger] u[x], 16) == digit_value(
        h[x],
        16,
    ) by {
        lemma_hex_letters_either_case(h[x]);
    }
    assert forall|x: int| 0 <= x < w.len() implies digit_value(#[trigger] w[x], 16) is Some by {
        if x < pad {
            assert(w[x] == '0');
        } else {
            assert(w[x] == u[x - pad]);
            assert(digit_value(h[x - pad], 16) is Some);
        }
    }
    assert forall|x: int| 0 <= x < pad implies #[trigger] w[x] == '0' by {}
    lemma_digits_val_leading_zeros(w, pad, u.len());
    assert forall|x: int| pad <= x < pad + u.len() implies digit_value(#[trigger] w[x], 16)
        == digit_value(h[x - pad + 0], 16) by {
        assert(w[x] == u[x - pad]);
    }
    lemma_digits_val_same_digits(w, pad as int, h, 0, u.len(), 16);
}

/// A written group at `q`, followed by a character that is no hex digit, reads as its
/// value.
proof fn lemma_read_written_group(s: Seq<char>, q: int, w: Seq<char>, v: nat)
    requires
        writes_group(w, v),
        v < 65536,
        0 <= q,
        q + w.len() < s.len(),
        forall|x: int| q <= x < q + w.len() ==> #[trigger] s[x] == w[x - q],
        digit_value(s[q + w.len()], 16) is None,
    ensures
        read_hex_group(s, q) == Some((v, q + w.len())),
{
    assert forall|x: int| q <= x < q + w.len() implies digit_value(#[trigger] s[x], 16) is Some by {
        assert(s[x] == w[x - q]);
    }
    lemma_digit_run_exact(s, q, w.len(), 16);
    lemma_digits_val_shift(s, q, w, 0, w.len(), 16);
}

/// Reading groups `k..` from written texts `ws` at `p`, where at the end `e` stands a
/// character that is neither a hex digit nor a dot and from which no further group
/// or IPv4 address reads, gives back exactly the groups.
proof fn lemma_read_written_groups(
    s: Seq<char>,
    ws: Seq<Seq<char>>,
    g: Seq<nat>,
    k: nat,
    p: int,
    limit: nat,
)
    requires
        ws.len() == g.len(),
        k <= g.len() <= limit,
        forall|x: int| 0 <= x < g.len() ==> #[trigger] g[x] < 65536,
        forall|x: int| 0 <= x < g.len() ==> writes_group(#[trigger] ws[x], g[x]),
        0 <= p,
        p + colon_joined(ws, k).len() < s.len(),
        forall|x: int|
            p <= x < p + colon_joined(ws, k).len() ==> #[trigger] s[x] == colon_joined(ws, k)[x - p],
        digit_value(s[p + colon_joined(ws, k).len()], 16) is None,
        s[p + colon_joined(ws, k).len()] != '.',
        g.len() < limit ==> read_sep_ipv4(s, p + colon_joined(ws, k).len(), g.len()) is None
            && read_sep_group(s, p + colon_joined(ws, k).len(), g.len()) is None,
    ensures
        read_groups(s, p, k, limit, g.subrange(0, k as int)) == (
            g,
            p + colon_joined(ws, k).len(),
            false,
        ),
    decreases g.len() - k,
{
    reveal_strlit(":");
    let e = p + colon_joined(ws, k).len();
    if k < g.len() {
        let v = g[k as int];
        let h = ws[k as int];
        assert(writes_group(h, v));
        let sep = if k == 0 {
            h
        } else {
            ":"@ + h
        };
        let rest = colon_joined(ws, k + 1);
        let t = colon_joined(ws, k);
        assert(t == sep + rest);
        let q = if k == 0 {
            p
        } else {
            p + 1
        };
        let after = q + h.len();
        assert(after == p + sep.len());
        assert forall|x: int| q <= x < q + h.len() implies #[trigger] s[x] == h[x - q] by {
            assert(s[x] == t[x - p]);
            assert(t[x - p] == sep[x - p]);
        }
        assert forall|x: int| q <= x < q + h.len() implies digit_value(#[trigger] s[x], 16)
            is Some by {
            assert(s[x] == h[x - q]);
        }
        if k + 1 < g.len() {
            let h2 = ws[(k + 1) as int];
            assert(rest == (":"@ + h2) + colon_joined(ws, k + 2));
            assert(s[after] == t[after - p]);
            assert(t[after - p] == rest[0]);
            assert(rest[0] == ':');
        } else {
            assert(rest =~= Seq::<char>::empty());
            assert(after == e);
        }
        assert(digit_value(s[after], 16) is None);
        assert(digit_value(s[after], 10) is None);
        assert(s[after] != '.');
        if k > 0 {
            assert(s[p] == t[0]);
            assert(t[0] == ':');
        }
        lemma_no_ipv4_in_hex(s, q, h.len());
        lemma_read_written_group(s, q, h, v);
        assert(read_sep_group(s, p, k) == Some((v, after)));
        assert(read_sep_ipv4(s, p, k) is None);
        assert(g.subrange(0, k as int).push(v) =~= g.subrange(0, (k + 1) as int));
        assert forall|x: int| after <= x < after + rest.len() implies #[trigger] s[x] == rest[x
            - after] by {
            assert(s[x] == t[x - p]);
        }
        lemma_read_written_groups(s, ws, g, k + 1, after, limit);
    } else {
        assert(colon_joined(ws, k) =~= Seq::<char>::empty());
        assert(g.subrange(0, k as int) =~= g);
    }
}

proof fn lemma_groups_value_split(g: Seq<nat>)
    requires
        g.len() > 0,
        g.last() < 65536,
    ensures
        groups_value(g) % 65536 == g.last(),
        groups_value(g) / 65536 == groups_value(g.drop_last()),
{
    vstd::arithmetic::div_mod::lemma_fundamental_div_mod_converse(
        groups_value(g) as int,
        65536,
        groups_value(g.drop_last()) as int,
        g.last() as int,
    );
}

/// Two group sequences of one length with the same value are the same.
proof fn lemma_groups_value_injective(a: Seq<nat>, b: Seq<nat>)
    requires
        a.len() == b.len(),
        forall|x: int| 0 <= x < a.len() ==> #[trigger] a[x] < 65536,
        forall|x: int| 0 <= x < b.len() ==> #[trigger] b[x] < 65536,
        groups_value(a) == groups_value(b),
    ensures
        a == b,
    decreases a.len(),
{
    if a.len() > 0 {
        lemma_groups_value_split(a);
        lemma_groups_value_split(b);
        let a2 = a.drop_last();
        let b2 = b.drop_last();
        assert forall|x: int| 0 <= x < a2.len() implies #[trigger] a2[x] < 65536 by {
            assert(a2[x] == a[x]);
        }
        assert forall|x: int| 0 <= x < b2.len() implies #[trigger] b2[x] < 65536 by {
            assert(b2[x] == b[x]);
        }
        lemma_groups_value_injective(a2, b2);
        assert(a =~= a2.push(a.last()));
        assert(b =~= b2.push(b.last()));
    } else {
        assert(a =~= b);
    }
}

/// Eight 16-bit groups are the segments of the number they spell.
proof fn lemma_segments_of_groups_value(g: Seq<nat>)
    requires
        g.len() == 8,
        forall|x: int| 0 <= x < g.len() ==> #[trigger] g[x] < 65536,
    ensures
        groups_value(g) < 0x1_0000_0000_0000_0000_0000_0000_0000_0000,
        segments(groups_value(g) as u128) == g,
{
    assert(groups_bounded(g)) by {
        assert forall|k: int| 0 <= k < g.len() implies #[trigger] g[k] <= 65535 by {
            assert(g[k] < 65536);
        }
    }
    lemma_groups_value_bound(g);
    assert(pow65536(8) == 0x1_0000_0000_0000_0000_0000_0000_0000_0000) by {
        reveal_with_fuel(pow65536, 9);
    }
    let x = groups_value(g) as u128;
    lemma_segments_value(x);
    let sg = segments(x);
    assert forall|k: int| 0 <= k < sg.len() implies #[trigger] sg[k] < 65536 by {}
    lemma_groups_value_injective(sg, g);
}

proof fn lemma_written_groups_shape(g: Seq<nat>, pads: Seq<nat>, ups: Seq<bool>)
    requires
        groups_writable(g, pads, ups),
    ensures
        groups_written(g, pads, ups).len() == g.len(),
        forall|x: int|
            0 <= x < g.len() ==> writes_group(#[trigger] groups_written(g, pads, ups)[x], g[x]),
        forall|x: int| 0 <= x < g.len() ==> #[trigger] g[x] < 65536,
{
    assert forall|x: int| 0 <= x < g.len() implies writes_group(
        #[trigger] groups_written(g, pads, ups)[x],
        g[x],
    ) by {
        assert(g[x] < 65536 && hex(g[x]).len() + pads[x] <= 4);
        lemma_group_written_shape(g[x], pads[x], ups[x]);
    }
    assert forall|x: int| 0 <= x < g.len() implies #[trigger] g[x] < 65536 by {
        assert(g[x] < 65536 && hex(g[x]).len() + pads[x] <= 4);
    }
}

/// After an IPv6 address read up to `e`, where `]` stands, the rest `]:port` reads:
/// the socket address is the one with that address, port, flow label 0 and scope 0.
proof fn lemma_read_bracket_port(s: Seq<char>, e: int, ip: nat, port: u16)
    requires
        s.len() >= 1,
        s[0] == '[',
        1 <= e,
        read_ipv6(s, 1) == Some((ip, e)),
        ip < 0x1_0000_0000_0000_0000_0000_0000_0000_0000,
        e + 2 + decimal(port as nat).len() == s.len(),
        s[e] == ']',
        s[e + 1] == ':',
        forall|x: int|
            e + 2 <= x < s.len() ==> #[trigger] s[x] == decimal(port as nat)[x - (e + 2)],
    ensures
        socket_addr_of(s) == Some(
            SockAddr::V6 { ip: ip as u128, port, flowinfo: 0, scope_id: 0 },
        ),
{
    lemma_decimal_shape(port as nat);
    assert(digit_value('[', 10) is None);
    assert(digit_run(s, 0, 10) == 0);
    assert(read_socket_v4(s, 0) is None);
    assert(read_scope(s, e) is None);
    lemma_read_decimal(s, e + 2, port as nat, None, true, 65535);
}

/// Any IPv6 socket text with all eight groups, each written with one to four hex
/// digits in either case and with any leading zeros, reads as the address whose
/// segments are those groups, with the port written after it.
pub proof fn lemma_written_ipv6_socket_reads(
    g: Seq<nat>,
    pads: Seq<nat>,
    ups: Seq<bool>,
    port: u16,
)
    requires
        g.len() == 8,
        groups_writable(g, pads, ups),
    ensures
        socket_addr_of(
            "["@ + colon_joined(groups_written(g, pads, ups), 0) + "]:"@ + decimal(port as nat),
        ) matches Some(SockAddr::V6 { ip, port: q, flowinfo, scope_id }) && q == port
            && flowinfo == 0 && scope_id == 0 && segments(ip) == g,
{
    let ws = groups_written(g, pads, ups);
    let t = colon_joined(ws, 0);
    let dp = decimal(port as nat);
    reveal_strlit("[");
    reveal_strlit("]:");
    let s = "["@ + t + "]:"@ + dp;
    lemma_written_groups_shape(g, pads, ups);
    lemma_decimal_shape(port as nat);
    let e: int = 1 + t.len() as int;
    assert(s.len() == e + 2 + dp.len());
    assert(s[0] == '[');
    assert(s[e] == ']');
    assert(s[e + 1] == ':');
    assert(digit_value(']', 16) is None);
    assert forall|x: int| 1 <= x < 1 + t.len() implies #[trigger] s[x] == t[x - 1] by {}
    assert forall|x: int| e + 2 <= x < s.len() implies #[trigger] s[x] == dp[x - (e + 2)] by {}
    lemma_read_written_groups(s, ws, g, 0, 1, 8);
    assert(g.subrange(0, 0) =~= Seq::<nat>::empty());
    assert(read_ipv6(s, 1) == Some((groups_value(g), e)));
    lemma_segments_of_groups_value(g);
    lemma_read_bracket_port(s, e, groups_value(g), port);
}

/// Any IPv6 socket text with `::` between a head and a tail of groups (at most seven
/// in all), each written with one to four hex digits in either case and with any
/// leading zeros, reads as the address whose segments are the head, then zeros, then
/// the tail, with the port written after it.
pub proof fn lemma_written_compressed_ipv6_socket_reads(
    g1: Seq<nat>,
    pads1: Seq<nat>,
    ups1: Seq<bool>,
    g2: Seq<nat>,
    pads2: Seq<nat>,
    ups2: Seq<bool>,
    port: u16,
)
    requires
        g1.len() + g2.len() <= 7,
        groups_writable(g1, pads1, ups1),
        groups_writable(g2, pads2, ups2),
    ensures
        socket_addr_of(
            "["@ + colon_joined(groups_written(g1, pads1, ups1), 0) + "::"@ + colon_joined(
                groups_written(g2, pads2, ups2),
                0,
            ) + "]:"@ + decimal(port as nat),
        ) matches Some(SockAddr::V6 { ip, port: q, flowinfo, scope_id }) && q == port
            && flowinfo == 0 && scope_id == 0 && segments(ip) == g1 + Seq::new(
            (8 - g1.len() - g2.len()) as nat,
            |i: int| 0nat,
        ) + g2,
{
    let ws1 = groups_written(g1, pads1, ups1);
    let ws2 = groups_written(g2, pads2, ups2);
    let t1 = colon_joined(ws1, 0);
    let t2 = colon_joined(ws2, 0);
    let dp = decimal(port as nat);
    reveal_strlit("[");
    reveal_strlit("]:");
    reveal_strlit("::");
    let s = "["@ + t1 + "::"@ + t2 + "]:"@ + dp;
    lemma_written_groups_shape(g1, pads1, ups1);
    lemma_written_groups_shape(g2, pads2, ups2);
    lemma_decimal_shape(port as nat);
    let e1: int = 1 + t1.len() as int;
    let p2: int = e1 + 2;
    let e: int = p2 + t2.len();
    assert(s.len() == e + 2 + dp.len());
    assert(s[0] == '[');
    assert(s[e1] == ':');
    assert(s[e1 + 1] == ':');
    assert(s[e] == ']');
    assert(s[e + 1] == ':');
    assert(digit_value(']', 16) is None);
    assert(digit_value(':', 16) is None);
    assert forall|x: int| 1 <= x < 1 + t1.len() implies #[trigger] s[x] == t1[x - 1] by {}
    assert forall|x: int| p2 <= x < p2 + t2.len() implies #[trigger] s[x] == t2[x - p2] by {}
    assert forall|x: int| e + 2 <= x < s.len() implies #[trigger] s[x] == dp[x - (e + 2)] by {}
    lemma_nothing_reads_at_double_colon(s, e1, g1.len());
    lemma_read_written_groups(s, ws1, g1, 0, 1, 8);
    assert(g1.subrange(0, 0) =~= Seq::<nat>::empty());
    lemma_nothing_reads_at(s, e, g2.len());
    lemma_read_written_groups(s, ws2, g2, 0, p2, (7 - g1.len()) as nat);
    assert(g2.subrange(0, 0) =~= Seq::<nat>::empty());
    let all = g1 + zero_groups((8 - g1.len() - g2.len()) as nat) + g2;
    assert(read_ipv6(s, 1) == Some((groups_value(all), e)));
    assert(all =~= g1 + Seq::new((8 - g1.len() - g2.len()) as nat, |i: int| 0nat) + g2);
    assert forall|x: int| 0 <= x < all.len() implies #[trigger] all[x] < 65536 by {
        if x < g1.len() {
            assert(all[x] == g1[x]);
        } else if x >= 8 - g2.len() {
            assert(all[x] == g2[x - (8 - g2.len())]);
        }
    }
    lemma_segments_of_groups_value(all);
    lemma_read_bracket_port(s, e, groups_value(all), port);
}

fn digit_value_exec(c: char, radix: u64) -> (r: Option<u64>)
    requires
        radix == 10 || radix == 16,
    ensures
        match r {
            Some(d) => digit_value(c, radix as nat) == Some(d as nat) && d < radix,
            None => digit_value(c, radix as nat) is None,
        },
{
    let v: u32 = c as u32;
    if 48 <= v && v <= 57 {
        Some((v - 48) as u64)
    } else if radix == 16 && 97 <= v && v <= 102 {
        Some((v - 87) as u64)
    } else if radix == 16 && 65 <= v && v <= 70 {
        Some((v - 55) as u64)
    } else {
        None
    }
}

proof fn lemma_digit_run_step(s: Seq<char>, i: int, radix: nat)
    requires
        0 <= i < s.len(),
        digit_value(s[i], radix) is Some,
    ensures
        digit_run(s, i, radix) == 1 + digit_run(s, i + 1, radix),
{
}

fn read_number_exec(
    s: &Vec<char>,
    i: usize,
    radix: u64,
    max_digits: Option<u64>,
    allow_zero_prefix: bool,
    max_value: u64,
) -> (r: Option<(u64, usize)>)
    requires
        i <= s@.len(),
        radix == 10 || radix == 16,
        max_value <= 0xffff_ffff,
    ensures
        match r {
            Some((v, j)) => read_number(
                s@,
                i as int,
                radix as nat,
                match max_digits {
                    Some(m) => Some(m as nat),
                    None => None,
                },
                allow_zero_prefix,
                max_value as nat,
            ) == Some((v as nat, j as int)) && j <= s@.len(),
            None => read_number(
                s@,
                i as int,
                radix as nat,
                match max_digits {
                    Some(m) => Some(m as nat),
                    None => None,
                },
                allow_zero_prefix,
                max_value as nat,
            ) is None,
        },
{
    let n = s.len();
    let mut j = i;
    let mut value: u64 = 0;
    let mut over = false;
    loop
        invariant
            i <= j <= n,
            n == s@.len(),
            radix == 10 || radix == 16,
            max_value <= 0xffff_ffff,
            digit_run(s@, i as int, radix as nat) == (j - i) + digit_run(s@, j as int, radix as nat),
            over ==> digits_val(s@, i as int, (j - i) as nat, radix as nat) > max_value,
            !over ==> value == digits_val(s@, i as int, (j - i) as nat, radix as nat) && value
                <= max_value,
        ensures
            digit_run(s@, j as int, radix as nat) == 0,
        decreases n - j,
    {
        if j >= n {
            break ;
        }
        let d = match digit_value_exec(s[j], radix) {
            Some(d) => d,
            None => break ,
        };
        proof {
            lemma_digit_run_step(s@, j as int, radix as nat);
            assert(digits_val(s@, i as int, (j + 1 - i) as nat, radix as nat) == digits_val(
                s@,
                i as int,
                (j - i) as nat,
                radix as nat,
            ) * radix + d);
            if over {
                let prev = digits_val(s@, i as int, (j - i) as nat, radix as nat);
                assert(prev * radix + d >= prev) by (nonlinear_arith)
                    requires
                        radix >= 10,
                ;
            }
        }
        if !over {
            let next = value * radix + d;
            if next > max_value {
                over = true;
            } else {
                value = next;
            }
        }
        j = j + 1;
    }
    let k = j - i;
    assert(digit_run(s@, i as int, radix as nat) == k);
    if k == 0 {
        return None;
    }
    match max_digits {
        Some(m) => {
            if k as u64 > m {
                return None;
            }
        },
        None => {},
    }
    if !allow_zero_prefix && s[i] == '0' && k > 1 {
        return None;
    }
    if over {
        return None;
    }
    Some((value, j))
}

fn read_octet_exec(s: &Vec<char>, i: usize) -> (r: Option<(u64, usize)>)
    requires
        i <= s@.len(),
    ensures
        match r {
            Some((v, j)) => read_octet(s@, i as int) == Some((v as nat, j as int)) && j <= s@.len(),
            None => read_octet(s@, i as int) is None,
        },
{
    read_number_exec(s, i, 10, Some(3), false, 255)
}

fn read_dot_octet_exec(s: &Vec<char>, i: usize) -> (r: Option<(u64, usize)>)
    requires
        i <= s@.len(),
    ensures
        match r {
            Some((v, j)) => read_dot_octet(s@, i as int) == Some((v as nat, j as int)) && j
                <= s@.len(),
            None => read_dot_octet(s@, i as int) is None,
        },
{
    if i < s.len() && s[i] == '.' {
        read_octet_exec(s, i + 1)
    } else {
        None
    }
}

fn read_ipv4_exec(s: &Vec<char>, i: usize) -> (r: Option<(u64, usize)>)
    requires
        i <= s@.len(),
    ensures
        match r {
            Some((v, j)) => read_ipv4(s@, i as int) == Some((v as nat, j as int)) && j <= s@.len()
                && v <= 0xffff_ffff,
            None => read_ipv4(s@, i as int) is None,
        },
{
    let (a, p1) = match read_octet_exec(s, i) {
        Some(x) => x,
        None => return None,
    };
    let (b, p2) = match read_dot_octet_exec(s, p1) {
        Some(x) => x,
        None => return None,
    };
    let (c, p3) = match read_dot_octet_exec(s, p2) {
        Some(x) => x,
        None => return None,
    };
    let (d, p4) = match read_dot_octet_exec(s, p3) {
        Some(x) => x,
        None => return None,
    };
    Some((a * 16777216 + b * 65536 + c * 256 + d, p4))
}

fn read_hex_group_exec(s: &Vec<char>, i: usize) -> (r: Option<(u64, usize)>)
    requires
        i <= s@.len(),
    ensures
        match r {
            Some((v, j)) => read_hex_group(s@, i as int) == Some((v as nat, j as int)) && j
                <= s@.len(),
            None => read_hex_group(s@, i as int) is None,
        },
{
    read_number_exec(s, i, 16, Some(4), true, 65535)
}

fn read_sep_group_exec(s: &Vec<char>, i: usize, idx: u64) -> (r: Option<(u64, usize)>)
    requires
        i <= s@.len(),
    ensures
        match r {
            Some((v, j)) => read_sep_group(s@, i as int, idx as nat) == Some((v as nat, j as int))
                && j <= s@.len(),
            None => read_sep_group(s@, i as int, idx as nat) is None,
        },
{
    if idx == 0 {
        read_hex_group_exec(s, i)
    } else if i < s.len() && s[i] == ':' {
        read_hex_group_exec(s, i + 1)
    } else {
        None
    }
}

fn read_sep_ipv4_exec(s: &Vec<char>, i: usize, idx: u64) -> (r: Option<(u64, usize)>)
    requires
        i <= s@.len(),
    ensures
        match r {
            Some((v, j)) => read_sep_ipv4(s@, i as int, idx as nat) == Some((v as nat, j as int))
                && j <= s@.len() && v <= 0xffff_ffff,
            None => read_sep_ipv4(s@, i as int, idx as nat) is None,
        },
{
    if idx == 0 {
        read_ipv4_exec(s, i)
    } else if i < s.len() && s[i] == ':' {
        read_ipv4_exec(s, i + 1)
    } else {
        None
    }
}

/// All elements are 16-bit values.
pub open spec fn groups_bounded(g: Seq<nat>) -> bool {
    forall|k: int| 0 <= k < g.len() ==> #[trigger] g[k] <= 65535
}

proof fn lemma_read_groups_shape(s: Seq<char>, i: int, idx: nat, limit: nat, acc: Seq<nat>)
    requires
        idx <= limit,
        acc.len() == idx,
        groups_bounded(acc),
        0 <= i <= s.len(),
    ensures
        ({
            let (g, p, _) = read_groups(s, i, idx, limit, acc);
            &&& g.len() <= limit
            &&& g.len() >= idx
            &&& g.subrange(0, idx as int) == acc
            &&& groups_bounded(g)
            &&& i <= p <= s.len()
        }),
    decreases limit - idx,
{
    reveal_with_fuel(read_groups, 2);
    if idx < limit {
        let v4 = if idx + 1 < limit {
            read_sep_ipv4(s, i, idx)
        } else {
            None
        };
        match v4 {
            Some((ip, p)) => {
                lemma_sep_ipv4_bounds(s, i, idx);
                let g = acc.push(ip / 65536).push(ip % 65536);
                assert(g.subrange(0, idx as int) =~= acc);
                assert(ip / 65536 <= 65535) by (nonlinear_arith)
                    requires
                        ip <= 0xffff_ffff,
                ;
            },
            None => match read_sep_group(s, i, idx) {
                Some((gv, p)) => {
                    lemma_sep_group_bounds(s, i, idx);
                    lemma_read_groups_shape(s, p, idx + 1, limit, acc.push(gv));
                    let (g, _, _) = read_groups(s, p, idx + 1, limit, acc.push(gv));
                    assert(g.subrange(0, idx as int) =~= acc.push(gv).subrange(0, idx as int));
                    assert(acc.push(gv).subrange(0, idx as int) =~= acc);
                    assert(g.subrange(0, idx as int) =~= g.subrange(0, (idx + 1) as int).subrange(
                        0,
                        idx as int,
                    ));
                },
                None => {
                    assert(acc.subrange(0, idx as int) =~= acc);
                },
            },
        }
    } else {
        assert(acc.subrange(0, idx as int) =~= acc);
    }
}

proof fn lemma_number_bounds(
    s: Seq<char>,
    i: int,
    radix: nat,
    md: Option<nat>,
    az: bool,
    mv: nat,
)
    requires
        0 <= i <= s.len(),
    ensures
        read_number(s, i, radix, md, az, mv) matches Some((v, p)) ==> v <= mv && i < p <= s.len(),
{
    lemma_digit_run_bound(s, i, radix);
}

proof fn lemma_digit_run_bound(s: Seq<char>, i: int, radix: nat)
    requires
        0 <= i <= s.len(),
    ensures
        i + digit_run(s, i, radix) <= s.len(),
    decreases s.len() - i,
{
    if i < s.len() && digit_value(s[i], radix) is Some {
        lemma_digit_run_bound(s, i + 1, radix);
    }
}

proof fn lemma_ipv4_bounds(s: Seq<char>, i: int)
    requires
        0 <= i <= s.len(),
    ensures
        read_ipv4(s, i) matches Some((v, p)) ==> v <= 0xffff_ffff && i < p <= s.len(),
{
    lemma_number_bounds(s, i, 10, Some(3), false, 255);
    if let Some((a, p1)) = read_octet(s, i) {
        if char_at(s, p1, '.') {
            lemma_number_bounds(s, p1 + 1, 10, Some(3), false, 255);
            if let Some((b, p2)) = read_dot_octet(s, p1) {
                if char_at(s, p2, '.') {
                    lemma_number_bounds(s, p2 + 1, 10, Some(3), false, 255);
                    if let Some((c, p3)) = read_dot_octet(s, p2) {
                        if char_at(s, p3, '.') {
                            lemma_number_bounds(s, p3 + 1, 10, Some(3), false, 255);
                        }
                    }
                }
            }
        }
    }
}

proof fn lemma_sep_ipv4_bounds(s: Seq<char>, i: int, idx: nat)
    requires
        0 <= i <= s.len(),
    ensures
        read_sep_ipv4(s, i, idx) matches Some((v, p)) ==> v <= 0xffff_ffff && i < p <= s.len(),
{
    lemma_ipv4_bounds(s, i);
    if i < s.len() {
        lemma_ipv4_bounds(s, i + 1);
    }
}

proof fn lemma_sep_group_bounds(s: Seq<char>, i: int, idx: nat)
    requires
        0 <= i <= s.len(),
    ensures
        read_sep_group(s, i, idx) matches Some((v, p)) ==> v <= 65535 && i < p <= s.len(),
{
    lemma_number_bounds(s, i, 16, Some(4), true, 65535);
    if i < s.len() {
        lemma_number_bounds(s, i + 1, 16, Some(4), true, 65535);
    }
}

fn read_groups_exec(s: &Vec<char>, i: usize, limit: u64) -> (r: (Vec<u64>, usize, bool))
    requires
        i <= s@.len(),
        limit <= 8,
    ensures
        read_groups(s@, i as int, 0, limit as nat, Seq::empty()) == (
            r.0@.map_values(|x: u64| x as nat),
            r.1 as int,
            r.2,
        ),
        r.0@.len() <= limit,
        r.1 <= s@.len(),
        forall|k: int| 0 <= k < r.0@.len() ==> #[trigger] r.0@[k] <= 65535,
{
    let mut acc: Vec<u64> = Vec::new();
    let mut pos = i;
    let mut idx: u64 = 0;
    assert(acc@.map_values(|x: u64| x as nat) =~= Seq::<nat>::empty());
    loop
        invariant
            idx <= limit <= 8,
            acc@.len() == idx,
            pos <= s@.len(),
            forall|k: int| 0 <= k < acc@.len() ==> #[trigger] acc@[k] <= 65535,
            read_groups(s@, i as int, 0, limit as nat, Seq::empty()) == read_groups(
                s@,
                pos as int,
                idx as nat,
                limit as nat,
                acc@.map_values(|x: u64| x as nat),
            ),
        decreases limit - idx,
    {
        let ghost accv = acc@.map_values(|x: u64| x as nat);
        if idx >= limit {
            return (acc, pos, false);
        }
        if idx + 1 < limit {
            match read_sep_ipv4_exec(s, pos, idx) {
                Some((ip, p)) => {
                    acc.push(ip / 65536);
                    acc.push(ip % 65536);
                    assert(acc@.map_values(|x: u64| x as nat) =~= accv.push((ip / 65536) as nat).push(
                        (ip % 65536) as nat,
                    ));
                    return (acc, p, true);
                },
                None => {},
            }
        }
        match read_sep_group_exec(s, pos, idx) {
            Some((g, p)) => {
                proof {
                    lemma_sep_group_bounds(s@, pos as int, idx as nat);
                }
                acc.push(g);
                assert(acc@.map_values(|x: u64| x as nat) =~= accv.push(g as nat));
                pos = p;
                idx = idx + 1;
            },
            None => {
                return (acc, pos, false);
            },
        }
    }
}

/// `65536^n`.
pub open spec fn pow65536(n: nat) -> nat
    decreases n,
{
    if n == 0 {
        1
    } else {
        pow65536((n - 1) as nat) * 65536
    }
}

proof fn lemma_groups_value_bound(g: Seq<nat>)
    requires
        groups_bounded(g),
    ensures
        groups_value(g) < pow65536(g.len()),
    decreases g.len(),
{
    if g.len() > 0 {
        let h = g.drop_last();
        assert(groups_bounded(h)) by {
            assert forall|k: int| 0 <= k < h.len() implies #[trigger] h[k] <= 65535 by {
                assert(h[k] == g[k]);
            }
        }
        lemma_groups_value_bound(h);
        let a = groups_value(h);
        let b = pow65536(h.len());
        assert(a * 65536 + g.last() < b * 65536) by (nonlinear_arith)
            requires
                a < b,
                g.last() <= 65535,
        ;
    }
}

fn groups_value_exec(g: &Vec<u64>) -> (v: u128)
    requires
        g@.len() == 8,
        forall|k: int| 0 <= k < g@.len() ==> #[trigger] g@[k] <= 65535,
    ensures
        v as nat == groups_value(g@.map_values(|x: u64| x as nat)),
{
    let ghost gv = g@.map_values(|x: u64| x as nat);
    let mut v: u128 = 0;
    let mut k: usize = 0;
    assert(pow65536(8) == 0x1_0000_0000_0000_0000_0000_0000_0000_0000) by {
        reveal_with_fuel(pow65536, 9);
    }
    while k < 8
        invariant
            k <= 8,
            g@.len() == 8,
            gv == g@.map_values(|x: u64| x as nat),
            forall|j: int| 0 <= j < g@.len() ==> #[trigger] g@[j] <= 65535,
            v as nat == groups_value(gv.subrange(0, k as int)),
            pow65536(8) == 0x1_0000_0000_0000_0000_0000_0000_0000_0000,
        decreases 8 - k,
    {
        let ghost pre = gv.subrange(0, k as int);
        let ghost next = gv.subrange(0, k + 1);
        assert(next.drop_last() =~= pre);
        assert(groups_bounded(next)) by {
            assert forall|j: int| 0 <= j < next.len() implies #[trigger] next[j] <= 65535 by {
                assert(next[j] == g@[j] as nat);
            }
        }
        proof {
            lemma_groups_value_bound(next);
            lemma_pow65536_mono(next.len(), 8);
        }
        assert(v as nat * 65536 + g@[k as int] as nat == groups_value(next));
        v = v * 65536 + g[k] as u128;
        k = k + 1;
    }
    assert(gv.subrange(0, 8) =~= gv);
    v
}

proof fn lemma_pow65536_mono(a: nat, b: nat)
    requires
        a <= b,
    ensures
        pow65536(a) <= pow65536(b),
    decreases b,
{
    if a < b {
        lemma_pow65536_mono(a, (b - 1) as nat);
        assert(pow65536((b - 1) as nat) >= 1) by {
            lemma_pow65536_pos((b - 1) as nat);
        }
    }
}

proof fn lemma_pow65536_pos(n: nat)
    ensures
        pow65536(n) >= 1,
    decreases n,
{
    if n > 0 {
        lemma_pow65536_pos((n - 1) as nat);
    }
}

fn read_ipv6_exec(s: &Vec<char>, i: usize) -> (r: Option<(u128, usize)>)
    requires
        i <= s@.len(),
    ensures
        match r {
            Some((v, j)) => read_ipv6(s@, i as int) == Some((v as nat, j as int)) && j <= s@.len(),
            None => read_ipv6(s@, i as int) is None,
        },
{
    let (head, p1, head_v4) = read_groups_exec(s, i, 8);
    let ghost hv = head@.map_values(|x: u64| x as nat);
    if head.len() == 8 {
        let v = groups_value_exec(&head);
        return Some((v, p1));
    }
    if head_v4 {
        return None;
    }
    if !(p1 < s.len() && s[p1] == ':' && p1 + 1 < s.len() && s[p1 + 1] == ':') {
        return None;
    }
    let limit: u64 = 7 - head.len() as u64;
    let (tail, p2, _) = read_groups_exec(s, p1 + 2, limit);
    let ghost tv = tail@.map_values(|x: u64| x as nat);
    let mut all: Vec<u64> = Vec::new();
    all.extend_from_slice(head.as_slice());
    let zeros = 8 - head.len() - tail.len();
    let mut z: usize = 0;
    while z < zeros
        invariant
            z <= zeros,
            all@ == head@ + Seq::new(z as nat, |k: int| 0u64),
        decreases zeros - z,
    {
        all.push(0);
        assert(all@ =~= head@ + Seq::new((z + 1) as nat, |k: int| 0u64));
        z = z + 1;
    }
    all.extend_from_slice(tail.as_slice());
    assert(all@.map_values(|x: u64| x as nat) =~= hv + zero_groups(zeros as nat) + tv);
    assert forall|k: int| 0 <= k < all@.len() implies #[trigger] all@[k] <= 65535 by {
        if k < head@.len() {
            assert(all@[k] == head@[k]);
        } else if k < head@.len() + zeros {
        } else {
            assert(all@[k] == tail@[k - head@.len() - zeros]);
        }
    }
    let v = groups_value_exec(&all);
    Some((v, p2))
}

fn read_port_exec(s: &Vec<char>, i: usize) -> (r: Option<(u64, usize)>)
    requires
        i <= s@.len(),
    ensures
        match r {
            Some((v, j)) => read_port(s@, i as int) == Some((v as nat, j as int)) && j <= s@.len()
                && v <= 65535,
            None => read_port(s@, i as int) is None,
        },
{
    if i < s.len() && s[i] == ':' {
        read_number_exec(s, i + 1, 10, None, true, 65535)
    } else {
        None
    }
}

fn read_scope_exec(s: &Vec<char>, i: usize) -> (r: Option<(u64, usize)>)
    requires
        i <= s@.len(),
    ensures
        match r {
            Some((v, j)) => read_scope(s@, i as int) == Some((v as nat, j as int)) && j <= s@.len()
                && v <= 0xffff_ffff,
            None => read_scope(s@, i as int) is None,
        },
{
    if i < s.len() && s[i] == '%' {
        read_number_exec(s, i + 1, 10, None, true, 0xffff_ffff)
    } else {
        None
    }
}

fn read_socket_v4_exec(s: &Vec<char>) -> (r: Option<(SockAddr, usize)>)
    ensures
        match r {
            Some((a, j)) => read_socket_v4(s@, 0) == Some((a, j as int)),
            None => read_socket_v4(s@, 0) is None,
        },
{
    let (ip, p) = match read_ipv4_exec(s, 0) {
        Some(x) => x,
        None => return None,
    };
    let (port, q) = match read_port_exec(s, p) {
        Some(x) => x,
        None => return None,
    };
    Some((SockAddr::V4 { ip: ip as u32, port: port as u16 }, q))
}

fn read_socket_v6_exec(s: &Vec<char>) -> (r: Option<(SockAddr, usize)>)
    ensures
        match r {
            Some((a, j)) => read_socket_v6(s@, 0) == Some((a, j as int)),
            None => read_socket_v6(s@, 0) is None,
        },
{
    if !(0 < s.len() && s[0] == '[') {
        return None;
    }
    let (ip, p) = match read_ipv6_exec(s, 1) {
        Some(x) => x,
        None => return None,
    };
    let (scope, q) = match read_scope_exec(s, p) {
        Some((sc, q)) => (sc, q),
        None => (0, p),
    };
    if !(q < s.len() && s[q] == ']') {
        return None;
    }
    let (port, r) = match read_port_exec(s, q + 1) {
        Some(x) => x,
        None => return None,
    };
    Some((SockAddr::V6 { ip, port: port as u16, flowinfo: 0, scope_id: scope as u32 }, r))
}

/// Reads a whole text as a socket address, as `SocketAddr::from_str` does; see
/// [`socket_addr_of`].
pub fn parse_socket_addr(text: &str) -> (r: Option<SockAddr>)
    ensures
        r == socket_addr_of(text@),
{
    let s = chars_of(text);
    parse_socket_chars(&s)
}

/// [`parse_socket_addr`] on characters.
pub fn parse_socket_chars(s: &Vec<char>) -> (r: Option<SockAddr>)
    ensures
        r == socket_addr_of(s@),
{
    match read_socket_v4_exec(s) {
        Some((a, p)) => {
            if p == s.len() {
                Some(a)
            } else {
                None
            }
        },
        None => match read_socket_v6_exec(s) {
            Some((a, p)) => {
                if p == s.len() {
                    Some(a)
                } else {
                    None
                }
            },
            None => None,
        },
    }
}

} // verus!
