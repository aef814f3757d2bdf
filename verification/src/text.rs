//! Text helpers: decimal and hex rendering, UTF-8 decoding, substring search and
//! the printable preview of raw bytes.

use vstd::prelude::*;
use vstd::string::*;
use vstd::utf8::*;

verus! {

/// The ASCII digit for `d` (`0..=9` map to `'0'..='9'`, `10..=15` to `'a'..='f'`).
pub open spec fn digit_of(d: nat) -> char {
    if d < 10 {
        (48 + d) as char
    } else {
        (87 + d) as char
    }
}

/// Digits of `n` in base `base`, most significant first, without leading zeros
/// (zero is the single digit `0`).
pub open spec fn digits(n: nat, base: nat) -> Seq<char>
    decreases n,
{
    if base < 2 || n < base {
        seq![digit_of(n)]
    } else {
        proof {
            assert(n / base < n) by (nonlinear_arith)
                requires
                    base >= 2,
                    n >= base,
            ;
        }
        digits(n / base, base).push(digit_of(n % base))
    }
}

/// Decimal rendering of `n`, as `{}` formats an unsigned integer.
pub open spec fn decimal(n: nat) -> Seq<char> {
    digits(n, 10)
}

/// Lowercase hexadecimal rendering of `n`, as `{:x}` formats an unsigned integer.
pub open spec fn hex(n: nat) -> Seq<char> {
    digits(n, 16)
}

/// `String::push`: appends one character.
#[verifier::external_body]
pub(crate) fn push_char(s: &mut String, c: char)
    ensures
        final(s)@ == old(s)@.push(c),
{
    s.push(c)
}

/// Appends `t` to `s`.
pub fn push_str(s: &mut String, t: &str)
    ensures
        final(s)@ == old(s)@ + t@,
{
    s.append(t);
}

/// Appends every character of `t` to `s`.
pub fn push_string(s: &mut String, t: &String)
    ensures
        final(s)@ == old(s)@ + t@,
{
    s.append(t.as_str());
}

/// The digit character for `d` (`0..=15`).
pub fn digit_char(d: u64) -> (c: char)
    requires
        d < 16,
    ensures
        c == digit_of(d as nat),
{
    let b: u8 = if d < 10 {
        48u8 + (d as u8)
    } else {
        87u8 + (d as u8)
    };
    b as char
}

/// Appends the digits of `n` in base `base` (2..=16).
pub fn push_digits(s: &mut String, n: u64, base: u64)
    requires
        2 <= base <= 16,
    ensures
        final(s)@ == old(s)@ + digits(n as nat, base as nat),
    decreases n,
{
    let ghost before = old(s)@;
    if n >= base {
        assert(n / base < n) by (nonlinear_arith)
            requires
                base >= 2,
                n >= base,
        ;
        push_digits(s, n / base, base);
        push_char(s, digit_char(n % base));
        assert(s@ =~= before + digits(n as nat, base as nat));
    } else {
        assert(n % base == n) by (nonlinear_arith)
            requires
                n < base,
        ;
        push_char(s, digit_char(n % base));
        assert(s@ =~= before + digits(n as nat, base as nat));
    }
}

/// Appends the decimal rendering of `n`.
pub fn push_decimal(s: &mut String, n: u64)
    ensures
        final(s)@ == old(s)@ + decimal(n as nat),
{
    push_digits(s, n, 10);
}

/// Appends the lowercase hexadecimal rendering of `n`.
pub fn push_hex(s: &mut String, n: u64)
    ensures
        final(s)@ == old(s)@ + hex(n as nat),
{
    push_digits(s, n, 16);
}

/// `String::from_utf8`: `Some` exactly for valid UTF-8, with the decoded characters.
#[verifier::external_body]
pub(crate) fn string_from_utf8(bytes: Vec<u8>) -> (res: Option<String>)
    ensures
        res is Some <==> valid_utf8(bytes@),
        res matches Some(s) ==> s@ == decode_utf8(bytes@),
{
    String::from_utf8(bytes).ok()
}

/// What `String::from_utf8_lossy` makes of `bytes`.
pub uninterp spec fn utf8_lossy(bytes: Seq<u8>) -> Seq<char>;

/// `String::from_utf8_lossy`, as a vector of characters: the decoding of `bytes`
/// with each invalid sequence replaced by U+FFFD; on valid UTF-8 it is the plain
/// decoding. Every character, decoded or replacement, stands for at least one byte,
/// so there are no more characters than bytes.
#[verifier::external_body]
pub(crate) fn chars_from_utf8_lossy(bytes: &[u8]) -> (res: Vec<char>)
    ensures
        res@ == utf8_lossy(bytes@),
        valid_utf8(bytes@) ==> res@ == decode_utf8(bytes@),
        res@.len() <= bytes@.len(),
{
    String::from_utf8_lossy(bytes).chars().collect()
}

/// The characters of `s`, in order.
pub fn chars_of(s: &str) -> (res: Vec<char>)
    ensures
        res@ == s@,
{
    let mut out: Vec<char> = Vec::new();
    for c in it: s.chars()
        invariant
            out@ == it.seq().take(it.index() as int),
    {
        out.push(c);
    }
    out
}

/// Builds a `String` from the characters `cs[lo..hi]`.
pub fn string_from_chars(cs: &[char], lo: usize, hi: usize) -> (res: String)
    requires
        lo <= hi <= cs@.len(),
    ensures
        res@ == cs@.subrange(lo as int, hi as int),
{
    let mut out = String::new();
    let mut i = lo;
    while i < hi
        invariant
            lo <= i <= hi <= cs@.len(),
            out@ == cs@.subrange(lo as int, i as int),
        decreases hi - i,
    {
        push_char(&mut out, cs[i]);
        assert(cs@.subrange(lo as int, i + 1) == cs@.subrange(lo as int, i as int).push(
            cs@[i as int],
        ));
        i = i + 1;
    }
    out
}

/// `needle` occurs in `hay` starting at index `i`.
pub open spec fn occurs_at(hay: Seq<char>, needle: Seq<char>, i: int) -> bool {
    0 <= i && i + needle.len() <= hay.len() && hay.subrange(i, i + needle.len()) == needle
}

/// `needle` occurs somewhere in `hay`.
pub open spec fn contains_seq(hay: Seq<char>, needle: Seq<char>) -> bool {
    exists|i: int| occurs_at(hay, needle, i)
}

/// Substring search, as `str::contains` with a `&str` pattern.
pub fn contains_str(hay: &str, needle: &str) -> (res: bool)
    ensures
        res == contains_seq(hay@, needle@),
{
    let h = chars_of(hay);
    let n = chars_of(needle);
    let hl = h.len();
    let nl = n.len();
    if nl > hl {
        assert forall|i: int| !occurs_at(hay@, needle@, i) by {}
        return false;
    }
    let mut i: usize = 0;
    while i <= hl - nl
        invariant
            h@ == hay@,
            n@ == needle@,
            hl == h@.len(),
            nl == n@.len(),
            nl <= hl,
            i <= hl - nl + 1,
            forall|k: int| 0 <= k < i ==> !occurs_at(hay@, needle@, k),
        decreases hl - nl + 1 - i,
    {
        let mut j: usize = 0;
        let mut same = true;
        while j < nl
            invariant
                h@ == hay@,
                n@ == needle@,
                hl == h@.len(),
                nl == n@.len(),
                i + nl <= hl,
                j <= nl,
                same == (forall|m: int| 0 <= m < j ==> h@[i + m] == n@[m]),
            decreases nl - j,
        {
            if h[i + j] != n[j] {
                same = false;
            }
            j = j + 1;
        }
        if same {
            assert(hay@.subrange(i as int, i + nl) =~= needle@);
            assert(occurs_at(hay@, needle@, i as int));
            return true;
        }
        assert(!occurs_at(hay@, needle@, i as int)) by {
            if hay@.subrange(i as int, i + nl) == needle@ {
                assert forall|m: int| 0 <= m < nl implies h@[i + m] == n@[m] by {
                    assert(hay@.subrange(i as int, i + nl)[m] == h@[i + m]);
                }
            }
        }
        i = i + 1;
    }
    assert forall|k: int| !occurs_at(hay@, needle@, k) by {
        if occurs_at(hay@, needle@, k) {
            assert(0 <= k < i);
        }
    }
    false
}

/// A control character in the sense of `char::is_control`: general category Cc,
/// which is U+0000..=U+001F and U+007F..=U+009F.
pub open spec fn is_control(c: char) -> bool {
    (c as u32) <= 0x1f || (0x7f <= (c as u32) && (c as u32) <= 0x9f)
}

/// The preview character for `c`: control characters other than tab become a space.
pub open spec fn preview_char(c: char) -> char {
    if is_control(c) && c != '\t' {
        ' '
    } else {
        c
    }
}

/// The printable preview of at most `max` leading bytes of `buf`.
pub open spec fn preview(buf: Seq<u8>, max: nat) -> Seq<char> {
    let end = if buf.len() < max {
        buf.len()
    } else {
        max
    };
    utf8_lossy(buf.subrange(0, end as int)).map_values(|c: char| preview_char(c))
}

fn preview_of(c: char) -> (r: char)
    ensures
        r == preview_char(c),
{
    let v: u32 = c as u32;
    if (v <= 0x1f || (0x7f <= v && v <= 0x9f)) && c != '\t' {
        ' '
    } else {
        c
    }
}

/// A printable preview of the first `max` bytes of `buf`: the bytes decoded as
/// UTF-8 with invalid sequences replaced, then every control character except
/// tab replaced by a space.
pub fn lossy_preview(buf: &[u8], max: usize) -> (res: String)
    ensures
        res@ == preview(buf@, max as nat),
        res@.len() <= buf@.len(),
        res@.len() <= max,
        forall|i: int| 0 <= i < res@.len() ==> !is_control(#[trigger] res@[i]) || res@[i] == '\t',
        valid_utf8(buf@.subrange(0, if buf@.len() < max { buf@.len() as int } else { max as int }))
            ==> res@ == decode_utf8(
            buf@.subrange(0, if buf@.len() < max { buf@.len() as int } else { max as int }),
        ).map_values(|c: char| preview_char(c)),
{
    let end = if buf.len() < max {
        buf.len()
    } else {
        max
    };
    let mut head: Vec<u8> = Vec::new();
    for i in 0..end
        invariant
            end <= buf@.len(),
            head@ == buf@.subrange(0, i as int),
    {
        head.push(buf[i]);
        assert(buf@.subrange(0, i + 1) == buf@.subrange(0, i as int).push(buf@[i as int]));
    }
    let cs = chars_from_utf8_lossy(head.as_slice());
    let ghost lossy = utf8_lossy(buf@.subrange(0, end as int));
    assert(cs@ == lossy);
    assert(head@ == buf@.subrange(0, end as int));
    let mut out = String::new();
    let n = cs.len();
    for i in 0..n
        invariant
            n == cs@.len(),
            cs@ == lossy,
            out@ == lossy.subrange(0, i as int).map_values(|c: char| preview_char(c)),
    {
        push_char(&mut out, preview_of(cs[i]));
        assert(lossy.subrange(0, i + 1).map_values(|c: char| preview_char(c)) =~= lossy.subrange(
            0,
            i as int,
        ).map_values(|c: char| preview_char(c)).push(preview_char(lossy[i as int])));
    }
    assert(lossy.subrange(0, n as int) == lossy);
    assert forall|i: int| 0 <= i < out@.len() implies !is_control(#[trigger] out@[i]) || out@[i]
        == '\t' by {
        assert(out@[i] == preview_char(lossy[i]));
    }
    out
}

} // verus!
