//! Hostname extraction and the guard against local and private network
//! targets.
//!
//! The hostname is pulled out of a lower-cased URL with a minimal,
//! dependency-free parse. A host is blocked when it is a well-known local
//! name, or a numeric IPv4/IPv6 literal in a loopback, private,
//! link-local, unique-local, carrier-grade-NAT, unspecified or broadcast
//! range. No DNS resolution is performed: this is a best-effort literal
//! check only.

use vstd::prelude::*;
use crate::text::{
    chars_eq_str,
    chars_of_str,
    copy_range,
    ends_with_chars,
    first_where,
    has_prefix,
    has_prefix_chars,
    lemma_first_where,
};

verus! {

// ---------------------------------------------------------------------
// Digits and hexadecimal digits
// ---------------------------------------------------------------------
/// A decimal digit.
pub open spec fn is_digit(c: char) -> bool {
    48 <= c as u32 && c as u32 <= 57
}

/// The value of a decimal digit.
pub open spec fn digit_val(c: char) -> int {
    c as u32 - 48
}

/// A lower-case hexadecimal digit.
pub open spec fn is_hex(c: char) -> bool {
    is_digit(c) || (97 <= c as u32 && c as u32 <= 102)
}

/// The value of a lower-case hexadecimal digit.
pub open spec fn hex_val(c: char) -> int {
    if is_digit(c) {
        c as u32 - 48
    } else {
        c as u32 - 87
    }
}

fn is_digit_char(c: char) -> (r: bool)
    ensures
        r == is_digit(c),
{
    let u = c as u32;
    48 <= u && u <= 57
}

fn is_hex_char(c: char) -> (r: bool)
    ensures
        r == is_hex(c),
{
    let u = c as u32;
    (48 <= u && u <= 57) || (97 <= u && u <= 102)
}

// ---------------------------------------------------------------------
// IPv4 literals
// ---------------------------------------------------------------------
/// The number of consecutive decimal digits at position `i`, capped at 3.
pub open spec fn oct_len(s: Seq<char>, i: int) -> int {
    if 0 <= i < s.len() && is_digit(s[i]) {
        if i + 1 < s.len() && is_digit(s[i + 1]) {
            if i + 2 < s.len() && is_digit(s[i + 2]) {
                3
            } else {
                2
            }
        } else {
            1
        }
    } else {
        0
    }
}

/// The value of the digit run at position `i`.
pub open spec fn oct_val(s: Seq<char>, i: int) -> int {
    let k = oct_len(s, i);
    if k == 1 {
        digit_val(s[i])
    } else if k == 2 {
        10 * digit_val(s[i]) + digit_val(s[i + 1])
    } else if k == 3 {
        100 * digit_val(s[i]) + 10 * digit_val(s[i + 1]) + digit_val(s[i + 2])
    } else {
        256
    }
}

/// A well-formed dotted-quad octet at position `i`: one to three digits,
/// no leading zero, value at most 255, and not followed by a fourth digit.
pub open spec fn oct_ok(s: Seq<char>, i: int) -> bool {
    let k = oct_len(s, i);
    &&& 1 <= k
    &&& (k > 1 ==> s[i] != '0')
    &&& oct_val(s, i) <= 255
    &&& (i + k == s.len() || !is_digit(s[i + k]))
}

/// Whether `s` is a strict dotted-quad IPv4 literal.
pub open spec fn is_ipv4(s: Seq<char>) -> bool {
    let i1 = oct_len(s, 0) + 1;
    let i2 = i1 + oct_len(s, i1) + 1;
    let i3 = i2 + oct_len(s, i2) + 1;
    &&& oct_ok(s, 0)
    &&& i1 - 1 < s.len() && s[i1 - 1] == '.'
    &&& oct_ok(s, i1)
    &&& i2 - 1 < s.len() && s[i2 - 1] == '.'
    &&& oct_ok(s, i2)
    &&& i3 - 1 < s.len() && s[i3 - 1] == '.'
    &&& oct_ok(s, i3)
    &&& i3 + oct_len(s, i3) == s.len()
}

/// The `j`-th octet (0-based) of an IPv4 literal.
pub open spec fn ipv4_octet(s: Seq<char>, j: int) -> int {
    let i1 = oct_len(s, 0) + 1;
    let i2 = i1 + oct_len(s, i1) + 1;
    let i3 = i2 + oct_len(s, i2) + 1;
    if j == 0 {
        oct_val(s, 0)
    } else if j == 1 {
        oct_val(s, i1)
    } else if j == 2 {
        oct_val(s, i2)
    } else {
        oct_val(s, i3)
    }
}

/// Whether an IPv4 literal lies in a blocked range: loopback, private,
/// link-local, unspecified, broadcast, or carrier-grade NAT.
pub open spec fn blocked_v4(s: Seq<char>) -> bool {
    let o0 = ipv4_octet(s, 0);
    let o1 = ipv4_octet(s, 1);
    let o2 = ipv4_octet(s, 2);
    let o3 = ipv4_octet(s, 3);
    ||| o0 == 127  // 127.0.0.0/8
    ||| o0 == 10  // 10.0.0.0/8
    ||| (o0 == 172 && 16 <= o1 <= 31)  // 172.16.0.0/12
    ||| (o0 == 192 && o1 == 168)  // 192.168.0.0/16
    ||| (o0 == 169 && o1 == 254)  // 169.254.0.0/16
    ||| (o0 == 0 && o1 == 0 && o2 == 0 && o3 == 0)  // 0.0.0.0
    ||| (o0 == 255 && o1 == 255 && o2 == 255 && o3 == 255)  // 255.255.255.255
    ||| (o0 == 100 && 64 <= o1 <= 127)  // 100.64.0.0/10
}

/// Parse a dotted-quad octet at position `i` of `v`.
fn parse_octet(v: &Vec<char>, i: usize) -> (r: Option<(u8, usize)>)
    requires
        i <= v@.len(),
    ensures
        match r {
            Some(p) => {
                &&& oct_ok(v@, i as int)
                &&& p.0 as int == oct_val(v@, i as int)
                &&& p.1 == i + oct_len(v@, i as int)
                &&& i < p.1 <= v@.len()
            },
            None => !oct_ok(v@, i as int),
        },
{
    let n = v.len();
    if i >= n || !is_digit_char(v[i]) {
        return None;
    }
    let d0 = (v[i] as u32) - 48;
    if i + 1 >= n || !is_digit_char(v[i + 1]) {
        return Some((d0 as u8, i + 1));
    }
    let d1 = (v[i + 1] as u32) - 48;
    if i + 2 >= n || !is_digit_char(v[i + 2]) {
        if v[i] == '0' {
            return None;
        }
        return Some(((10 * d0 + d1) as u8, i + 2));
    }
    let d2 = (v[i + 2] as u32) - 48;
    if i + 3 < n && is_digit_char(v[i + 3]) {
        return None;
    }
    if v[i] == '0' {
        return None;
    }
    let val = 100 * d0 + 10 * d1 + d2;
    if val > 255 {
        return None;
    }
    Some((val as u8, i + 3))
}

/// Parse `v` as an IPv4 literal, returning its four octets.
pub fn parse_ipv4(v: &Vec<char>) -> (r: Option<(u8, u8, u8, u8)>)
    ensures
        match r {
            Some(o) => {
                &&& is_ipv4(v@)
                &&& o.0 as int == ipv4_octet(v@, 0)
                &&& o.1 as int == ipv4_octet(v@, 1)
                &&& o.2 as int == ipv4_octet(v@, 2)
                &&& o.3 as int == ipv4_octet(v@, 3)
            },
            None => !is_ipv4(v@),
        },
{
    let n = v.len();
    let o0 = match parse_octet(v, 0) {
        Some(p) => p,
        None => {
            return None;
        },
    };
    if o0.1 >= n || v[o0.1] != '.' {
        return None;
    }
    let o1 = match parse_octet(v, o0.1 + 1) {
        Some(p) => p,
        None => {
            return None;
        },
    };
    if o1.1 >= n || v[o1.1] != '.' {
        return None;
    }
    let o2 = match parse_octet(v, o1.1 + 1) {
        Some(p) => p,
        None => {
            return None;
        },
    };
    if o2.1 >= n || v[o2.1] != '.' {
        return None;
    }
    let o3 = match parse_octet(v, o2.1 + 1) {
        Some(p) => p,
        None => {
            return None;
        },
    };
    if o3.1 != n {
        return None;
    }
    Some((o0.0, o1.0, o2.0, o3.0))
}

// ---------------------------------------------------------------------
// IPv6 literals
// ---------------------------------------------------------------------
/// The number of consecutive hexadecimal digits at position `i`, capped
/// at 4.
pub open spec fn hg_len(s: Seq<char>, i: int) -> int {
    if 0 <= i < s.len() && is_hex(s[i]) {
        if i + 1 < s.len() && is_hex(s[i + 1]) {
            if i + 2 < s.len() && is_hex(s[i + 2]) {
                if i + 3 < s.len() && is_hex(s[i + 3]) {
                    4
                } else {
                    3
                }
            } else {
                2
            }
        } else {
            1
        }
    } else {
        0
    }
}

/// The value of the hexadecimal digit run at position `i`.
pub open spec fn hg_val(s: Seq<char>, i: int) -> int {
    let k = hg_len(s, i);
    if k == 1 {
        hex_val(s[i])
    } else if k == 2 {
        16 * hex_val(s[i]) + hex_val(s[i + 1])
    } else if k == 3 {
        256 * hex_val(s[i]) + 16 * hex_val(s[i + 1]) + hex_val(s[i + 2])
    } else if k == 4 {
        4096 * hex_val(s[i]) + 256 * hex_val(s[i + 1]) + 16 * hex_val(s[i + 2]) + hex_val(
            s[i + 3],
        )
    } else {
        0x10000
    }
}

/// A well-formed IPv6 group at position `i`: one to four hexadecimal
/// digits, not followed by a fifth.
pub open spec fn hg_ok(s: Seq<char>, i: int) -> bool {
    let k = hg_len(s, i);
    1 <= k && (i + k == s.len() || !is_hex(s[i + k]))
}

/// The two 16-bit segments of an embedded dotted-quad IPv4 tail.
pub open spec fn v4_segs(q: Seq<char>) -> Seq<int> {
    seq![
        ipv4_octet(q, 0) * 256 + ipv4_octet(q, 1),
        ipv4_octet(q, 2) * 256 + ipv4_octet(q, 3),
    ]
}

/// Parse the colon-separated list of IPv6 groups running from position
/// `i` to the end of `s`. When `v4_ok` is set, the final list element
/// may be an embedded dotted-quad IPv4 address, standing for two
/// segments. `None` when the text is not such a list.
pub open spec fn groups_from(s: Seq<char>, i: int, v4_ok: bool) -> Option<Seq<int>>
    decreases s.len() - i,
{
    if !(0 <= i <= s.len()) {
        None
    } else if v4_ok && is_ipv4(s.subrange(i, s.len() as int)) {
        Some(v4_segs(s.subrange(i, s.len() as int)))
    } else if !hg_ok(s, i) {
        None
    } else {
        let k = hg_len(s, i);
        if i + k == s.len() {
            Some(seq![hg_val(s, i)])
        } else if s[i + k] == ':' {
            match groups_from(s, i + k + 1, v4_ok) {
                Some(rest) => Some(seq![hg_val(s, i)] + rest),
                None => None,
            }
        } else {
            None
        }
    }
}

/// The group values as mathematical integers.
pub open spec fn seg_ints(g: Seq<u16>) -> Seq<int> {
    g.map_values(|x: u16| x as int)
}

/// Parse a hexadecimal group at position `i` of `v`.
fn parse_hex_group(v: &Vec<char>, i: usize) -> (r: Option<(u16, usize)>)
    requires
        i <= v@.len(),
    ensures
        match r {
            Some(p) => {
                &&& hg_ok(v@, i as int)
                &&& p.0 as int == hg_val(v@, i as int)
                &&& p.1 == i + hg_len(v@, i as int)
                &&& i < p.1 <= v@.len()
            },
            None => !hg_ok(v@, i as int),
        },
{
    let n = v.len();
    if i >= n || !is_hex_char(v[i]) {
        return None;
    }
    let h0 = hex_char_val(v[i]);
    if i + 1 >= n || !is_hex_char(v[i + 1]) {
        return Some((h0 as u16, i + 1));
    }
    let h1 = hex_char_val(v[i + 1]);
    if i + 2 >= n || !is_hex_char(v[i + 2]) {
        return Some(((16 * h0 + h1) as u16, i + 2));
    }
    let h2 = hex_char_val(v[i + 2]);
    if i + 3 >= n || !is_hex_char(v[i + 3]) {
        return Some(((256 * h0 + 16 * h1 + h2) as u16, i + 3));
    }
    let h3 = hex_char_val(v[i + 3]);
    if i + 4 < n && is_hex_char(v[i + 4]) {
        return None;
    }
    Some(((4096 * h0 + 256 * h1 + 16 * h2 + h3) as u16, i + 4))
}

fn hex_char_val(c: char) -> (r: u32)
    requires
        is_hex(c),
    ensures
        r as int == hex_val(c),
{
    let u = c as u32;
    if u <= 57 {
        u - 48
    } else {
        u - 87
    }
}

/// Parse the colon-separated group list running from `i` to the end of
/// `v`, with an embedded dotted-quad tail allowed when `v4_ok` is set.
fn parse_groups(v: &Vec<char>, i: usize, v4_ok: bool) -> (r: Option<Vec<u16>>)
    requires
        i <= v@.len(),
    ensures
        match r {
            Some(g) => groups_from(v@, i as int, v4_ok) == Some(seg_ints(g@)) && g@.len() >= 1,
            None => groups_from(v@, i as int, v4_ok) is None,
        },
    decreases v@.len() - i,
{
    let n = v.len();
    if v4_ok {
        let rest = copy_range(v, i, n);
        match parse_ipv4(&rest) {
            Some(o) => {
                let (o0, o1, o2, o3) = o;
                let mut g: Vec<u16> = Vec::new();
                g.push((o0 as u16) * 256 + (o1 as u16));
                g.push((o2 as u16) * 256 + (o3 as u16));
                proof {
                    assert(seg_ints(g@) =~= v4_segs(v@.subrange(i as int, n as int)));
                }
                return Some(g);
            },
            None => {},
        }
    }
    let head = match parse_hex_group(v, i) {
        Some(p) => p,
        None => {
            return None;
        },
    };
    if head.1 == n {
        let mut g: Vec<u16> = Vec::new();
        g.push(head.0);
        proof {
            assert(seg_ints(g@) =~= seq![hg_val(v@, i as int)]);
        }
        return Some(g);
    }
    if v[head.1] != ':' {
        return None;
    }
    match parse_groups(v, head.1 + 1, v4_ok) {
        Some(rest) => {
            let mut g: Vec<u16> = Vec::new();
            g.push(head.0);
            let mut rest = rest;
            let ghost rest_view = rest@;
            g.append(&mut rest);
            proof {
                assert(g@ =~= seq![head.0].add(rest_view));
                assert(seg_ints(g@) =~= seq![hg_val(v@, i as int)] + seg_ints(rest_view));
            }
            Some(g)
        },
        None => None,
    }
}

/// The position of the first `::` in `s`, or `s.len()` when there is
/// none.
pub open spec fn dcolon_pos(s: Seq<char>) -> int
    decreases s.len(),
{
    if s.len() < 2 {
        s.len() as int
    } else if s[0] == ':' && s[1] == ':' {
        0
    } else {
        1 + dcolon_pos(s.drop_first())
    }
}

/// `dcolon_pos` is the position of the first adjacent pair of colons.
proof fn lemma_dcolon_found(s: Seq<char>, i: int)
    requires
        0 <= i,
        i + 2 <= s.len(),
        forall|k: int| 0 <= k < i ==> !(#[trigger] s[k] == ':' && s[k + 1] == ':'),
        s[i] == ':' && s[i + 1] == ':',
    ensures
        dcolon_pos(s) == i,
    decreases s.len(),
{
    if i == 0 {
    } else {
        let t = s.drop_first();
        assert(forall|k: int| 0 <= k < i - 1 ==> !(#[trigger] t[k] == ':' && t[k + 1] == ':'));
        lemma_dcolon_found(t, i - 1);
    }
}

/// When no adjacent pair of colons exists, `dcolon_pos` is `s.len()`.
proof fn lemma_dcolon_none(s: Seq<char>)
    requires
        forall|k: int| 0 <= k && k + 2 <= s.len() ==> !(#[trigger] s[k] == ':' && s[k + 1] == ':'),
    ensures
        dcolon_pos(s) == s.len(),
    decreases s.len(),
{
    if s.len() < 2 {
    } else {
        let t = s.drop_first();
        assert(forall|k: int| 0 <= k && k + 2 <= t.len() ==> !(#[trigger] t[k] == ':' && t[k + 1] == ':'));
        lemma_dcolon_none(t);
    }
}

/// Find the first `::` in `v`.
fn find_dcolon(v: &Vec<char>) -> (r: Option<usize>)
    ensures
        match r {
            Some(i) => i + 2 <= v@.len() && dcolon_pos(v@) == i,
            None => dcolon_pos(v@) == v@.len(),
        },
{
    let n = v.len();
    if n < 2 {
        return None;
    }
    let mut i: usize = 0;
    while i < n - 1
        invariant
            n == v@.len(),
            2 <= n,
            0 <= i <= n,
            forall|k: int| 0 <= k < i ==> !(#[trigger] v@[k] == ':' && v@[k + 1] == ':'),
        decreases n - i,
    {
        if v[i] == ':' && v[i + 1] == ':' {
            proof {
                lemma_dcolon_found(v@, i as int);
            }
            return Some(i);
        }
        i = i + 1;
    }
    proof {
        lemma_dcolon_none(v@);
    }
    None
}

/// A sequence of `n` zero segments.
pub open spec fn zero_segs(n: int) -> Seq<int> {
    Seq::new(n as nat, |j: int| 0)
}

/// Parse `s` as an IPv6 literal (brackets already stripped), giving its
/// eight 16-bit segments. Compressed `::` notation is supported, and
/// the final groups may be written as an embedded dotted-quad IPv4
/// address; such a tail never stands before a `::`.
pub open spec fn spec_ipv6_segs(s: Seq<char>) -> Option<Seq<int>> {
    let m = dcolon_pos(s);
    if m + 2 <= s.len() {
        if s.len() == 2 {
            Some(zero_segs(8))
        } else if m == 0 {
            match groups_from(s, 2, true) {
                Some(t) => if t.len() <= 7 {
                    Some(zero_segs(8 - t.len()) + t)
                } else {
                    None
                },
                None => None,
            }
        } else if m + 2 == s.len() {
            match groups_from(s.subrange(0, m), 0, false) {
                Some(h) => if h.len() <= 7 {
                    Some(h + zero_segs(8 - h.len()))
                } else {
                    None
                },
                None => None,
            }
        } else {
            match (groups_from(s.subrange(0, m), 0, false), groups_from(s, m + 2, true)) {
                (Some(h), Some(t)) => if h.len() + t.len() <= 7 {
                    Some(h + zero_segs(8 - h.len() - t.len()) + t)
                } else {
                    None
                },
                _ => None,
            }
        }
    } else {
        match groups_from(s, 0, true) {
            Some(g) => if g.len() == 8 {
                Some(g)
            } else {
                None
            },
            None => None,
        }
    }
}

/// Whether eight IPv6 segments lie in a blocked range: unspecified,
/// loopback, link-local `fe80::/10`, or unique-local `fc00::/7`.
pub open spec fn blocked_v6(g: Seq<int>) -> bool {
    ||| (forall|i: int| 0 <= i < 8 ==> g[i] == 0)  // ::
    ||| ((forall|i: int| 0 <= i < 7 ==> g[i] == 0) && g[7] == 1)  // ::1
    ||| 0xfe80 <= g[0] <= 0xfebf  // fe80::/10
    ||| 0xfc00 <= g[0] <= 0xfdff  // fc00::/7
}

/// Parse `v` as an IPv6 literal into its eight segments.
pub fn parse_ipv6(v: &Vec<char>) -> (r: Option<Vec<u16>>)
    ensures
        match r {
            Some(g) => spec_ipv6_segs(v@) == Some(seg_ints(g@)) && g@.len() == 8,
            None => spec_ipv6_segs(v@) is None,
        },
{
    let n = v.len();
    match find_dcolon(v) {
        Some(m) => {
            if n == 2 {
                let g = eight_zero_segs();
                proof {
                    assert(seg_ints(g@) =~= zero_segs(8));
                }
                return Some(g);
            }
            if m == 0 {
                match parse_groups(v, 2, true) {
                    Some(t) => {
                        if t.len() <= 7 {
                            let g = pad_segs(&t, true);
                            proof {
                                assert(seg_ints(g@) =~= zero_segs(8 - t@.len()) + seg_ints(t@));
                            }
                            return Some(g);
                        }
                        return None;
                    },
                    None => {
                        return None;
                    },
                }
            }
            let head_chars = copy_range(v, 0, m);
            if m + 2 == n {
                match parse_groups(&head_chars, 0, false) {
                    Some(h) => {
                        if h.len() <= 7 {
                            let g = pad_segs(&h, false);
                            proof {
                                assert(seg_ints(g@) =~= seg_ints(h@) + zero_segs(8 - h@.len()));
                            }
                            return Some(g);
                        }
                        return None;
                    },
                    None => {
                        return None;
                    },
                }
            }
            match (parse_groups(&head_chars, 0, false), parse_groups(v, m + 2, true)) {
                (Some(h), Some(t)) => {
                    if h.len() <= 7 && t.len() <= 7 - h.len() {
                        let g = join_segs(&h, &t);
                        proof {
                            assert(seg_ints(g@) =~= seg_ints(h@) + zero_segs(
                                8 - h@.len() - t@.len(),
                            ) + seg_ints(t@));
                        }
                        return Some(g);
                    }
                    None
                },
                _ => None,
            }
        },
        None => {
            match parse_groups(v, 0, true) {
                Some(g) => {
                    if g.len() == 8 {
                        return Some(g);
                    }
                    None
                },
                None => None,
            }
        },
    }
}

/// Eight zero segments.
fn eight_zero_segs() -> (g: Vec<u16>)
    ensures
        g@.len() == 8,
        forall|i: int| 0 <= i < 8 ==> g@[i] == 0,
{
    let mut g: Vec<u16> = Vec::new();
    g.push(0);
    g.push(0);
    g.push(0);
    g.push(0);
    g.push(0);
    g.push(0);
    g.push(0);
    g.push(0);
    g
}

/// Pad `t` with zero segments to eight, in front when `front` is set,
/// at the back otherwise.
fn pad_segs(t: &Vec<u16>, front: bool) -> (g: Vec<u16>)
    requires
        t@.len() <= 8,
    ensures
        front ==> g@ == Seq::new((8 - t@.len()) as nat, |j: int| 0u16) + t@,
        !front ==> g@ == t@ + Seq::new((8 - t@.len()) as nat, |j: int| 0u16),
        g@.len() == 8,
{
    let pad = 8 - t.len();
    let mut g: Vec<u16> = Vec::new();
    if front {
        let mut j: usize = 0;
        while j < pad
            invariant
                pad == 8 - t@.len(),
                0 <= j <= pad,
                g@ =~= Seq::new(j as nat, |k: int| 0u16),
            decreases pad - j,
        {
            g.push(0);
            assert(g@ =~= Seq::new((j + 1) as nat, |k: int| 0u16));
            j = j + 1;
        }
        let mut i: usize = 0;
        while i < t.len()
            invariant
                pad == 8 - t@.len(),
                0 <= i <= t@.len(),
                g@ =~= Seq::new(pad as nat, |k: int| 0u16) + t@.subrange(0, i as int),
            decreases t@.len() - i,
        {
            g.push(t[i]);
            assert(g@ =~= Seq::new(pad as nat, |k: int| 0u16) + t@.subrange(0, i + 1 as int));
            i = i + 1;
        }
        proof {
            assert(t@.subrange(0, t@.len() as int) =~= t@);
            assert(g@ =~= Seq::new(pad as nat, |k: int| 0u16) + t@);
        }
    } else {
        let mut i: usize = 0;
        while i < t.len()
            invariant
                pad == 8 - t@.len(),
                0 <= i <= t@.len(),
                g@ =~= t@.subrange(0, i as int),
            decreases t@.len() - i,
        {
            g.push(t[i]);
            assert(g@ =~= t@.subrange(0, i + 1 as int));
            i = i + 1;
        }
        let mut j: usize = 0;
        while j < pad
            invariant
                pad == 8 - t@.len(),
                0 <= j <= pad,
                g@ =~= t@ + Seq::new(j as nat, |k: int| 0u16),
            decreases pad - j,
        {
            g.push(0);
            assert(g@ =~= t@ + Seq::new((j + 1) as nat, |k: int| 0u16));
            j = j + 1;
        }
    }
    g
}

/// `h`, then zero segments up to eight, then `t`.
fn join_segs(h: &Vec<u16>, t: &Vec<u16>) -> (g: Vec<u16>)
    requires
        h@.len() + t@.len() <= 8,
    ensures
        g@ == h@ + Seq::new((8 - h@.len() - t@.len()) as nat, |j: int| 0u16) + t@,
        g@.len() == 8,
{
    let pad = 8 - h.len() - t.len();
    let mut g: Vec<u16> = Vec::new();
    let mut i: usize = 0;
    while i < h.len()
        invariant
            pad == 8 - h@.len() - t@.len(),
            0 <= i <= h@.len(),
            g@ =~= h@.subrange(0, i as int),
        decreases h@.len() - i,
    {
        g.push(h[i]);
        assert(g@ =~= h@.subrange(0, i + 1 as int));
        i = i + 1;
    }
    proof {
        assert(h@.subrange(0, h@.len() as int) =~= h@);
    }
    let mut j: usize = 0;
    while j < pad
        invariant
            pad == 8 - h@.len() - t@.len(),
            0 <= j <= pad,
            g@ =~= h@ + Seq::new(j as nat, |k: int| 0u16),
        decreases pad - j,
    {
        g.push(0);
        assert(g@ =~= h@ + Seq::new((j + 1) as nat, |k: int| 0u16));
        j = j + 1;
    }
    let mut i2: usize = 0;
    while i2 < t.len()
        invariant
            pad == 8 - h@.len() - t@.len(),
            0 <= i2 <= t@.len(),
            g@ =~= h@ + Seq::new(pad as nat, |k: int| 0u16) + t@.subrange(0, i2 as int),
        decreases t@.len() - i2,
    {
        g.push(t[i2]);
        assert(g@ =~= h@ + Seq::new(pad as nat, |k: int| 0u16) + t@.subrange(0, i2 + 1 as int));
        i2 = i2 + 1;
    }
    proof {
        assert(t@.subrange(0, t@.len() as int) =~= t@);
        assert(g@ =~= h@ + Seq::new(pad as nat, |k: int| 0u16) + t@);
    }
    g
}

// ---------------------------------------------------------------------
// The blocklist over whole hostnames
// ---------------------------------------------------------------------
/// The host with square brackets stripped from its ends.
pub open spec fn strip_brackets(s: Seq<char>) -> Seq<char>
    decreases s.len(),
{
    if s.len() > 0 && s[0] == '[' {
        strip_brackets(s.drop_first())
    } else if s.len() > 0 && s[s.len() - 1] == ']' {
        strip_brackets(s.drop_last())
    } else {
        s
    }
}

/// The bracket-stripped host is the subrange between the leading `[`s
/// and the trailing `]`s.
proof fn lemma_strip_brackets_subrange(s: Seq<char>, a: int, b: int)
    requires
        0 <= a <= b <= s.len(),
        forall|k: int| 0 <= k < a ==> s[k] == '[',
        forall|k: int| b <= k < s.len() ==> s[k] == ']',
        a < b ==> s[a] != '[',
        a < b ==> s[b - 1] != ']',
    ensures
        strip_brackets(s) == s.subrange(a, b),
    decreases s.len(),
{
    if s.len() == 0 {
        assert(strip_brackets(s) =~= s.subrange(a, b));
    } else if s[0] == '[' {
        let t = s.drop_first();
        assert(t =~= s.subrange(1, s.len() as int));
        if a > 0 {
            lemma_strip_brackets_subrange(t, a - 1, b - 1);
            assert(t.subrange(a - 1, b - 1) =~= s.subrange(a, b));
        } else {
            assert(a == b);
            lemma_strip_brackets_subrange(t, 0, 0);
            assert(t.subrange(0, 0) =~= s.subrange(a, b));
        }
    } else if s[s.len() - 1] == ']' {
        let t = s.drop_last();
        assert(t =~= s.subrange(0, s.len() - 1));
        assert(b < s.len());
        lemma_strip_brackets_subrange(t, a, b);
        assert(t.subrange(a, b) =~= s.subrange(a, b));
    } else {
        assert(a == 0);
        assert(b == s.len());
        assert(s.subrange(0, s.len() as int) =~= s);
    }
}

/// Strip square brackets from both ends of the host.
fn strip_brackets_exec(v: &Vec<char>) -> (r: Vec<char>)
    ensures
        r@ == strip_brackets(v@),
{
    let n = v.len();
    let mut a: usize = 0;
    while a < n && v[a] == '['
        invariant
            n == v@.len(),
            0 <= a <= n,
            forall|k: int| 0 <= k < a ==> v@[k] == '[',
        decreases n - a,
    {
        a = a + 1;
    }
    let mut b: usize = n;
    while b > a && v[b - 1] == ']'
        invariant
            n == v@.len(),
            a <= b <= n,
            forall|k: int| 0 <= k < a ==> v@[k] == '[',
            forall|k: int| b <= k < n ==> v@[k] == ']',
            a < n ==> v@[a as int] != '[',
        decreases b,
    {
        b = b - 1;
    }
    proof {
        lemma_strip_brackets_subrange(v@, a as int, b as int);
    }
    copy_range(v, a, b)
}

/// Whether a hostname is a potential local or private network target.
///
/// String-level blocklist first, then classification of numeric IPv4 and
/// IPv6 literals by range.
pub open spec fn spec_is_blocked_host(h: Seq<char>) -> bool {
    ||| h == "localhost"@
    ||| h == "localhost.localdomain"@
    ||| (h.len() >= 10 && h.subrange(h.len() - 10, h.len() as int) == ".localhost"@)
    ||| h == "[::]"@
    ||| h == "[::1]"@
    ||| (is_ipv4(strip_brackets(h)) && blocked_v4(strip_brackets(h)))
    ||| (spec_ipv6_segs(strip_brackets(h)) matches Some(g) && blocked_v6(g))
}

// ---------------------------------------------------------------------
// Hostname extraction
// ---------------------------------------------------------------------
/// The characters at which a host ends: port, path, query or fragment.
pub open spec fn host_end_pred() -> spec_fn(char) -> bool {
    |c: char| c == ':' || c == '/' || c == '?' || c == '#'
}

/// The userinfo separator.
pub open spec fn at_pred() -> spec_fn(char) -> bool {
    |c: char| c == '@'
}

/// The closing bracket of an IPv6 literal.
pub open spec fn rbracket_pred() -> spec_fn(char) -> bool {
    |c: char| c == ']'
}

/// The characters at which the authority ends: path, query or fragment.
/// The port's `:` is part of the authority, so it is not among them.
pub open spec fn auth_end_pred() -> spec_fn(char) -> bool {
    |c: char| c == '/' || c == '?' || c == '#'
}

/// Whether a lower-cased string starts with `http://` or `https://`.
pub open spec fn scheme_ok(low: Seq<char>) -> bool {
    has_prefix(low, "http://"@) || has_prefix(low, "https://"@)
}

/// The length of the recognized scheme prefix.
pub open spec fn scheme_len(low: Seq<char>) -> int {
    if has_prefix(low, "https://"@) {
        8
    } else {
        7
    }
}

/// The hostname of a lower-cased URL, if one can be extracted: the text
/// after the scheme and any `user:pass@` userinfo, up to the first of
/// `:`, `/`, `?`, `#`, with a bracketed IPv6 literal kept as one token
/// including its brackets. Userinfo can only stand within the
/// authority, so an `@` is only recognized before the first `/`, `?`
/// or `#`; later ones are path or query text. Malformed bracket syntax
/// yields no host.
pub open spec fn spec_host_of(low: Seq<char>) -> Option<Seq<char>> {
    if !scheme_ok(low) {
        None
    } else {
        let rest = low.subrange(scheme_len(low), low.len() as int);
        let ae = first_where(rest, 0, auth_end_pred());
        let at = first_where(rest, 0, at_pred());
        let hp = if at < ae {
            rest.subrange(at + 1, rest.len() as int)
        } else {
            rest
        };
        if hp.len() > 0 && hp[0] == '[' {
            let ce = first_where(hp, 0, rbracket_pred());
            if ce < hp.len() {
                if ce + 1 > 2 {
                    Some(hp.subrange(0, ce + 1))
                } else {
                    None
                }
            } else {
                None
            }
        } else {
            let he = first_where(hp, 0, host_end_pred());
            if he == 0 {
                None
            } else {
                Some(hp.subrange(0, he))
            }
        }
    }
}

/// Extract the hostname from a lower-cased URL.
pub fn extract_host(low: &Vec<char>) -> (r: Option<Vec<char>>)
    ensures
        match r {
            Some(h) => spec_host_of(low@) == Some(h@),
            None => spec_host_of(low@) is None,
        },
{
    let n = low.len();
    let https = chars_of_str("https://");
    let http = chars_of_str("http://");
    proof {
        reveal_strlit("https://");
        reveal_strlit("http://");
    }
    let is_https = has_prefix_chars(low, &https);
    let is_http = has_prefix_chars(low, &http);
    if !is_http && !is_https {
        assert(!scheme_ok(low@));
        return None;
    }
    let sl: usize = if is_https {
        8
    } else {
        7
    };
    assert(sl as int == scheme_len(low@));
    let rest = copy_range(low, sl, n);
    let rlen = rest.len();
    // The authority ends at the first path, query or fragment character.
    let mut a: usize = 0;
    while a < rlen && rest[a] != '/' && rest[a] != '?' && rest[a] != '#'
        invariant
            rlen == rest@.len(),
            0 <= a <= rlen,
            forall|k: int| 0 <= k < a ==> rest@[k] != '/' && rest@[k] != '?' && rest@[k] != '#',
        decreases rlen - a,
    {
        a = a + 1;
    }
    proof {
        assert(forall|k: int| 0 <= k < a ==> !#[trigger] auth_end_pred()(rest@[k]));
        if a < rlen {
            assert(auth_end_pred()(rest@[a as int]));
        }
        lemma_first_where(rest@, 0, auth_end_pred(), a as int);
    }
    // Strip userinfo: everything up to and including the first `@`, but
    // only when that `@` stands within the authority.
    let mut j: usize = 0;
    while j < rlen && rest[j] != '@'
        invariant
            rlen == rest@.len(),
            0 <= j <= rlen,
            forall|k: int| 0 <= k < j ==> rest@[k] != '@',
        decreases rlen - j,
    {
        j = j + 1;
    }
    proof {
        assert(forall|k: int| 0 <= k < j ==> !#[trigger] at_pred()(rest@[k]));
        if j < rlen {
            assert(at_pred()(rest@[j as int]));
        }
        lemma_first_where(rest@, 0, at_pred(), j as int);
    }
    let hp: Vec<char> = if j < a {
        copy_range(&rest, j + 1, rlen)
    } else {
        rest
    };
    let hlen = hp.len();
    if hlen > 0 && hp[0] == '[' {
        // A bracketed IPv6 literal: find the closing bracket.
        let mut c: usize = 0;
        while c < hlen && hp[c] != ']'
            invariant
                hlen == hp@.len(),
                0 <= c <= hlen,
                forall|k: int| 0 <= k < c ==> hp@[k] != ']',
            decreases hlen - c,
        {
            c = c + 1;
        }
        proof {
            assert(forall|k: int| 0 <= k < c ==> !#[trigger] rbracket_pred()(hp@[k]));
            if c < hlen {
                assert(rbracket_pred()(hp@[c as int]));
            }
            lemma_first_where(hp@, 0, rbracket_pred(), c as int);
        }
        if c < hlen {
            if c + 1 > 2 {
                let h = copy_range(&hp, 0, c + 1);
                return Some(h);
            }
            return None;
        }
        return None;
    }
    let mut e: usize = 0;
    while e < hlen && hp[e] != ':' && hp[e] != '/' && hp[e] != '?' && hp[e] != '#'
        invariant
            hlen == hp@.len(),
            0 <= e <= hlen,
            forall|k: int| 0 <= k < e ==> hp@[k] != ':' && hp@[k] != '/' && hp@[k] != '?'
                && hp@[k] != '#',
        decreases hlen - e,
    {
        e = e + 1;
    }
    proof {
        assert(forall|k: int| 0 <= k < e ==> !#[trigger] host_end_pred()(hp@[k]));
        if e < hlen {
            assert(host_end_pred()(hp@[e as int]));
        }
        lemma_first_where(hp@, 0, host_end_pred(), e as int);
    }
    if e == 0 {
        return None;
    }
    let h = copy_range(&hp, 0, e);
    Some(h)
}

/// Hosts on the blocklist are refused by the guard: the well-known
/// local names and loopback, private, link-local and metadata-service
/// literals, and the IPv6 loopback and unspecified addresses.
pub proof fn lemma_blocked_host_examples()
    ensures
        spec_is_blocked_host("localhost"@),
        spec_is_blocked_host("127.0.0.1"@),
        spec_is_blocked_host("127.0.0.2"@),
        spec_is_blocked_host("10.0.0.1"@),
        spec_is_blocked_host("172.16.0.1"@),
        spec_is_blocked_host("192.168.1.1"@),
        spec_is_blocked_host("169.254.169.254"@),
        spec_is_blocked_host("[::1]"@),
        spec_is_blocked_host("[::]"@),
        spec_is_blocked_host("[::0.0.0.1]"@),
        spec_is_blocked_host("[fe80::1.2.3.4]"@),
{
    reveal_strlit("127.0.0.1");
    reveal_strlit("127.0.0.2");
    reveal_strlit("10.0.0.1");
    reveal_strlit("172.16.0.1");
    reveal_strlit("192.168.1.1");
    reveal_strlit("169.254.169.254");
    assert(strip_brackets("127.0.0.1"@) == "127.0.0.1"@);
    assert(is_ipv4("127.0.0.1"@) && blocked_v4("127.0.0.1"@));
    assert(strip_brackets("127.0.0.2"@) == "127.0.0.2"@);
    assert(is_ipv4("127.0.0.2"@) && blocked_v4("127.0.0.2"@));
    assert(strip_brackets("10.0.0.1"@) == "10.0.0.1"@);
    assert(is_ipv4("10.0.0.1"@) && blocked_v4("10.0.0.1"@));
    assert(strip_brackets("172.16.0.1"@) == "172.16.0.1"@);
    assert(is_ipv4("172.16.0.1"@) && blocked_v4("172.16.0.1"@));
    assert(strip_brackets("192.168.1.1"@) == "192.168.1.1"@);
    assert(is_ipv4("192.168.1.1"@) && blocked_v4("192.168.1.1"@));
    assert(strip_brackets("169.254.169.254"@) == "169.254.169.254"@);
    assert(is_ipv4("169.254.169.254"@) && blocked_v4("169.254.169.254"@));
    reveal_strlit("[::0.0.0.1]");
    let lb = "[::0.0.0.1]"@;
    let lbu = lb.subrange(1, lb.len() - 1);
    lemma_strip_brackets_subrange(lb, 1, lb.len() - 1);
    lemma_dcolon_found(lbu, 0);
    let lbq = lbu.subrange(2, lbu.len() as int);
    assert(is_ipv4(lbq));
    assert(groups_from(lbu, 2, true) == Some(v4_segs(lbq)));
    assert(spec_ipv6_segs(lbu) == Some(zero_segs(6) + v4_segs(lbq)));
    assert(blocked_v6(zero_segs(6) + v4_segs(lbq))) by {
        let g = zero_segs(6) + v4_segs(lbq);
        assert(forall|i: int| 0 <= i < 7 ==> g[i] == 0);
        assert(g[7] == 1);
    }
    reveal_strlit("[fe80::1.2.3.4]");
    let ll = "[fe80::1.2.3.4]"@;
    let llu = ll.subrange(1, ll.len() - 1);
    lemma_strip_brackets_subrange(ll, 1, ll.len() - 1);
    lemma_dcolon_found(llu, 4);
    let llh = llu.subrange(0, 4);
    let llq = llu.subrange(6, llu.len() as int);
    assert(is_ipv4(llq));
    assert(groups_from(llu, 6, true) == Some(v4_segs(llq)));
    assert(!is_ipv4(llh));
    assert(groups_from(llh, 0, false) == Some(seq![hg_val(llh, 0)]));
    assert(hg_val(llh, 0) == 0xfe80);
    assert(spec_ipv6_segs(llu) == Some(seq![hg_val(llh, 0)] + zero_segs(5) + v4_segs(llq)));
    assert(blocked_v6(seq![hg_val(llh, 0)] + zero_segs(5) + v4_segs(llq)));
}

/// Decide whether a hostname is a potential SSRF target.
pub fn is_ssrf_target(host: &Vec<char>) -> (r: bool)
    ensures
        r == spec_is_blocked_host(host@),
{
    if chars_eq_str(host, "localhost") {
        return true;
    }
    if chars_eq_str(host, "localhost.localdomain") {
        return true;
    }
    let dot_localhost = chars_of_str(".localhost");
    proof {
        reveal_strlit(".localhost");
    }
    if ends_with_chars(host, &dot_localhost) {
        return true;
    }
    if chars_eq_str(host, "[::]") {
        return true;
    }
    if chars_eq_str(host, "[::1]") {
        return true;
    }
    let u = strip_brackets_exec(host);
    let b4 = match parse_ipv4(&u) {
        Some(o) => {
            let (o0, o1, o2, o3) = o;
            o0 == 127 || o0 == 10 || (o0 == 172 && 16 <= o1 && o1 <= 31) || (o0 == 192 && o1
                == 168) || (o0 == 169 && o1 == 254) || (o0 == 0 && o1 == 0 && o2 == 0 && o3 == 0)
                || (o0 == 255 && o1 == 255 && o2 == 255 && o3 == 255) || (o0 == 100 && 64 <= o1
                && o1 <= 127)
        },
        None => false,
    };
    let b6 = match parse_ipv6(&u) {
        Some(g) => {
            let all0 = g[0] == 0 && g[1] == 0 && g[2] == 0 && g[3] == 0 && g[4] == 0 && g[5] == 0
                && g[6] == 0;
            let blocked = (all0 && g[7] == 0) || (all0 && g[7] == 1) || (0xfe80 <= g[0] && g[0]
                <= 0xfebf) || (0xfc00 <= g[0] && g[0] <= 0xfdff);
            proof {
                let segs = seg_ints(g@);
                assert(segs[0] == g@[0] as int && segs[1] == g@[1] as int && segs[2] == g@[2] as int
                    && segs[3] == g@[3] as int && segs[4] == g@[4] as int && segs[5] == g@[5] as int
                    && segs[6] == g@[6] as int && segs[7] == g@[7] as int);
                if all0 && g@[7] == 0 {
                    assert(forall|i: int| 0 <= i < 8 ==> segs[i] == 0) by {
                        assert(segs[0] == 0 && segs[1] == 0 && segs[2] == 0 && segs[3] == 0
                            && segs[4] == 0 && segs[5] == 0 && segs[6] == 0 && segs[7] == 0);
                    }
                }
                if all0 && g@[7] == 1 {
                    assert(forall|i: int| 0 <= i < 7 ==> segs[i] == 0) by {
                        assert(segs[0] == 0 && segs[1] == 0 && segs[2] == 0 && segs[3] == 0
                            && segs[4] == 0 && segs[5] == 0 && segs[6] == 0);
                    }
                }
                assert(blocked == blocked_v6(segs));
            }
            blocked
        },
        None => false,
    };
    b4 || b6
}

} // verus!
