//! Socket addresses as plain values: an IPv4 or IPv6 address and a port.
//!
//! Configuration carries addresses as text: `"a.b.c.d:port"`, or the
//! bracketed `"[v6]:port"` form with hex groups, one optional `::` elision,
//! an optional embedded IPv4 tail, and an optional `%scope`. Parsing
//! follows the strict textual grammar — octets `0..=255` without leading
//! zeros, ports `0..=65535` — and rendering gives the canonical form, with
//! the leftmost longest zero run compressed and v4-mapped addresses in
//! their dotted form.

use vstd::prelude::*;

verus! {

use crate::json::hex_val;
use crate::json::hex_val_of;
use crate::parse::digit_prefix_len;
use crate::parse::digit_value;
use crate::parse::digits_val;
use crate::parse::lemma_digit_prefix_len_from_scan;
use crate::parse::lemma_dpl_le_len;
use crate::parse::lemma_pow10_mono;
use crate::parse::pow10;
use crate::parse::spec_digit_value;
use crate::text::hex_digit;
use crate::text::push_char;
use crate::text::spec_decimal;
use crate::text::u16_to_string;
use crate::text::u32_to_string;

/// An IPv4 or IPv6 socket address.
#[derive(Debug, PartialEq, Eq, Clone, Copy)]
pub enum SockAddr {
    V4 { ip: [u8; 4], port: u16 },
    V6 { groups: [u16; 8], scope_id: u32, port: u16 },
}

/// Spec-level form of a [`SockAddr`].
pub enum SockAddrView {
    V4 { ip: Seq<u8>, port: u16 },
    V6 { groups: Seq<u16>, scope_id: u32, port: u16 },
}

impl View for SockAddr {
    type V = SockAddrView;

    open spec fn view(&self) -> SockAddrView {
        match self {
            SockAddr::V4 { ip, port } => SockAddrView::V4 { ip: ip@, port: *port },
            SockAddr::V6 { groups, scope_id, port } => SockAddrView::V6 {
                groups: groups@,
                scope_id: *scope_id,
                port: *port,
            },
        }
    }
}

/// A 16-bit group in lowercase hex, no leading zeros.
pub open spec fn spec_hex16(v: u16) -> Seq<char>
    decreases v,
{
    if v < 16 {
        seq![hex_digit(v as u32)]
    } else {
        spec_hex16(v / 16).push(hex_digit((v % 16) as u32))
    }
}

/// Groups joined with colons.
pub open spec fn spec_hex_groups_csv(g: Seq<u16>) -> Seq<char>
    decreases g.len(),
{
    if g.len() == 0 {
        Seq::empty()
    } else if g.len() == 1 {
        spec_hex16(g[0])
    } else {
        spec_hex_groups_csv(g.drop_last()) + seq![':'] + spec_hex16(g.last())
    }
}

/// An address of the v4-mapped block, whose last four bytes are an IPv4
/// address.
pub open spec fn is_v4_mapped(g: Seq<u16>) -> bool {
    g.len() == 8 && g[0] == 0 && g[1] == 0 && g[2] == 0 && g[3] == 0 && g[4] == 0 && g[5] == 0xffff
}

/// The leftmost longest run of zero groups from `i` on, folding the best
/// run found so far and the run currently open; a later run replaces the
/// best one only when strictly longer.
pub open spec fn spec_best_zero_run(
    g: Seq<u16>,
    i: int,
    best_s: int,
    best_l: int,
    cur_s: int,
    cur_l: int,
) -> (int, int)
    decreases g.len() - i,
{
    if i < 0 || i >= g.len() {
        if cur_l > best_l {
            (cur_s, cur_l)
        } else {
            (best_s, best_l)
        }
    } else if g[i] == 0 {
        spec_best_zero_run(
            g,
            i + 1,
            best_s,
            best_l,
            if cur_l == 0 {
                i
            } else {
                cur_s
            },
            cur_l + 1,
        )
    } else if cur_l > best_l {
        spec_best_zero_run(g, i + 1, cur_s, cur_l, 0, 0)
    } else {
        spec_best_zero_run(g, i + 1, best_s, best_l, 0, 0)
    }
}

/// The leftmost longest run of zero groups.
pub open spec fn spec_zero_run(g: Seq<u16>) -> (int, int) {
    spec_best_zero_run(g, 0, 0, 0, 0, 0)
}

/// An IPv6 address in canonical form: the v4-mapped block dotted, else hex
/// groups with the leftmost longest zero run of two or more compressed.
pub open spec fn spec_render_ipv6(g: Seq<u16>) -> Seq<char> {
    if is_v4_mapped(g) {
        "::ffff:"@ + spec_decimal((g[6] >> 8) as nat) + seq!['.'] + spec_decimal(
            (g[6] & 0xff) as nat,
        ) + seq!['.'] + spec_decimal((g[7] >> 8) as nat) + seq!['.'] + spec_decimal(
            (g[7] & 0xff) as nat,
        )
    } else {
        let (s0, l0) = spec_zero_run(g);
        if l0 > 1 {
            spec_hex_groups_csv(g.take(s0)) + "::"@ + spec_hex_groups_csv(g.skip(s0 + l0))
        } else {
            spec_hex_groups_csv(g)
        }
    }
}

/// The textual form of a socket address: `a.b.c.d:port`, or the bracketed
/// IPv6 form with the scope id shown only when it is not zero.
pub open spec fn spec_render_sock_addr(a: SockAddrView) -> Seq<char> {
    match a {
        SockAddrView::V4 { ip, port } => spec_decimal(ip[0] as nat) + seq!['.'] + spec_decimal(
            ip[1] as nat,
        ) + seq!['.'] + spec_decimal(ip[2] as nat) + seq!['.'] + spec_decimal(ip[3] as nat)
            + seq![':'] + spec_decimal(port as nat),
        SockAddrView::V6 { groups, scope_id, port } => seq!['['] + spec_render_ipv6(groups) + (
        if scope_id == 0 {
            Seq::<char>::empty()
        } else {
            seq!['%'] + spec_decimal(scope_id as nat)
        }) + seq![']'] + seq![':'] + spec_decimal(port as nat),
    }
}

/// Renders a 16-bit group in lowercase hex.
fn u16_to_hex(n: u16) -> (r: String)
    ensures
        r@ == spec_hex16(n),
{
    let mut digits: Vec<char> = Vec::new();
    let mut m = n;
    proof {
        assert(spec_hex16(n) =~= spec_hex16(n) + digits@.reverse());
    }
    while m > 0
        invariant
            m > 0 ==> spec_hex16(n) == spec_hex16(m) + digits@.reverse(),
            m == 0 && digits@.len() > 0 ==> spec_hex16(n) == digits@.reverse(),
            m == 0 && digits@.len() == 0 ==> n == 0,
        decreases m,
    {
        let ghost prev = digits@;
        let d = (m % 16) as u32;
        let dch = if d < 10 {
            (('0' as u8) + d as u8) as char
        } else {
            (('a' as u8) + (d - 10) as u8) as char
        };
        digits.push(dch);
        proof {
            assert((prev.push(dch)).reverse() =~= seq![dch] + prev.reverse());
        }
        m = m / 16;
        proof {
            if m == 0 {
                assert(spec_hex16(n) =~= digits@.reverse());
            } else {
                assert(spec_hex16(n) =~= spec_hex16(m) + digits@.reverse());
            }
        }
    }
    if digits.len() == 0 {
        proof {
            reveal_with_fuel(spec_hex16, 2);
        }
        let mut s = String::new();
        push_char(&mut s, '0');
        proof {
            assert(s@ =~= spec_hex16(0));
        }
        return s;
    }
    let mut s = String::new();
    let mut i: usize = digits.len();
    while i > 0
        invariant
            i <= digits@.len(),
            digits@.len() > 0 && spec_hex16(n) == digits@.reverse(),
            s@ == digits@.reverse().take((digits@.len() - i) as int),
        decreases i,
    {
        i = i - 1;
        let c = digits[i];
        push_char(&mut s, c);
        proof {
            assert(s@ =~= digits@.reverse().take((digits@.len() - i) as int));
        }
    }
    proof {
        assert(digits@.reverse().take(digits@.len() as int) =~= digits@.reverse());
    }
    s
}

/// Appends the groups within `[from, to)` joined with colons.
fn append_hex_groups(out: &mut String, g: &[u16; 8], from: usize, to: usize)
    requires
        from <= to <= 8,
    ensures
        final(out)@ == old(out)@ + spec_hex_groups_csv(g@.subrange(from as int, to as int)),
{
    let ghost base = out@;
    let mut i: usize = from;
    while i < to
        invariant
            from <= i <= to <= 8,
            out@ == base + spec_hex_groups_csv(g@.subrange(from as int, i as int)),
        decreases to - i,
    {
        if i > from {
            push_char(out, ':');
        }
        let h = u16_to_hex(g[i]);
        out.append(h.as_str());
        proof {
            let gg = g@.subrange(from as int, i + 1);
            assert(gg.drop_last() =~= g@.subrange(from as int, i as int));
            assert(gg.last() == g@[i as int]);
            assert(out@ =~= base + spec_hex_groups_csv(gg));
        }
        i = i + 1;
    }
}

/// Finds the leftmost longest run of zero groups.
fn zero_run(g: &[u16; 8]) -> (r: (usize, usize))
    ensures
        (r.0 as int, r.1 as int) == spec_zero_run(g@),
        r.0 + r.1 <= 8,
{
    let mut best_s: usize = 0;
    let mut best_l: usize = 0;
    let mut cur_s: usize = 0;
    let mut cur_l: usize = 0;
    let mut i: usize = 0;
    while i < 8
        invariant
            i <= 8,
            best_s + best_l <= i,
            cur_l <= i,
            cur_l > 0 ==> cur_s + cur_l == i,
            cur_l == 0 ==> cur_s == 0,
            spec_zero_run(g@) == spec_best_zero_run(
                g@,
                i as int,
                best_s as int,
                best_l as int,
                cur_s as int,
                cur_l as int,
            ),
        decreases 8 - i,
    {
        if g[i] == 0 {
            if cur_l == 0 {
                cur_s = i;
            }
            cur_l = cur_l + 1;
        } else if cur_l > best_l {
            best_s = cur_s;
            best_l = cur_l;
            cur_s = 0;
            cur_l = 0;
        } else {
            cur_s = 0;
            cur_l = 0;
        }
        i = i + 1;
    }
    if cur_l > best_l {
        (cur_s, cur_l)
    } else {
        (best_s, best_l)
    }
}

/// Renders an IPv6 address canonically.
fn render_ipv6(g: &[u16; 8]) -> (r: String)
    ensures
        r@ == spec_render_ipv6(g@),
{
    if g[0] == 0 && g[1] == 0 && g[2] == 0 && g[3] == 0 && g[4] == 0 && g[5] == 0xffff {
        let mut s = String::from_str("::ffff:");
        let o0 = u16_to_string(g[6] >> 8u16);
        s.append(o0.as_str());
        s.append(".");
        let o1 = u16_to_string(g[6] & 0xff);
        s.append(o1.as_str());
        s.append(".");
        let o2 = u16_to_string(g[7] >> 8u16);
        s.append(o2.as_str());
        s.append(".");
        let o3 = u16_to_string(g[7] & 0xff);
        s.append(o3.as_str());
        proof {
            reveal_strlit(".");
            assert("."@ =~= seq!['.']);
            assert(s@ =~= spec_render_ipv6(g@));
        }
        s
    } else {
        let (s0, l0) = zero_run(g);
        let mut s = String::new();
        if l0 > 1 {
            append_hex_groups(&mut s, g, 0, s0);
            s.append("::");
            append_hex_groups(&mut s, g, s0 + l0, 8);
            proof {
                reveal_strlit("::");
                assert(g@.subrange(0, s0 as int) =~= g@.take(s0 as int));
                assert(g@.subrange(s0 + l0, 8) =~= g@.skip(s0 + l0));
                assert(s@ =~= spec_render_ipv6(g@));
            }
        } else {
            append_hex_groups(&mut s, g, 0, 8);
            proof {
                assert(g@.subrange(0, 8) =~= g@);
                assert(s@ =~= spec_render_ipv6(g@));
            }
        }
        s
    }
}

impl SockAddr {
    /// Renders the address in its textual form.
    pub fn render(&self) -> (r: String)
        ensures
            r@ == spec_render_sock_addr(self@),
    {
        match self {
            SockAddr::V4 { ip, port } => {
                let mut s = u32_to_string(ip[0] as u32);
                s.append(".");
                let o1 = u32_to_string(ip[1] as u32);
                s.append(o1.as_str());
                s.append(".");
                let o2 = u32_to_string(ip[2] as u32);
                s.append(o2.as_str());
                s.append(".");
                let o3 = u32_to_string(ip[3] as u32);
                s.append(o3.as_str());
                s.append(":");
                let p = u32_to_string(*port as u32);
                s.append(p.as_str());
                proof {
                    reveal_strlit(".");
                    reveal_strlit(":");
                    assert("."@ =~= seq!['.']);
                    assert(":"@ =~= seq![':']);
                    assert(s@ =~= spec_render_sock_addr(self@));
                }
                s
            },
            SockAddr::V6 { groups, scope_id, port } => {
                let mut s = String::new();
                push_char(&mut s, '[');
                let body = render_ipv6(groups);
                s.append(body.as_str());
                if *scope_id != 0 {
                    push_char(&mut s, '%');
                    let sc = u32_to_string(*scope_id);
                    s.append(sc.as_str());
                }
                push_char(&mut s, ']');
                push_char(&mut s, ':');
                let p = u16_to_string(*port);
                s.append(p.as_str());
                proof {
                    assert(s@ =~= spec_render_sock_addr(self@));
                }
                s
            },
        }
    }
}

/// A decimal number at the head of `s` without a leading zero, at most
/// `max_digits` long: the rest of the input and the value, or none.
pub open spec fn spec_strict_number(s: Seq<char>, max_digits: nat) -> Option<(Seq<char>, nat)> {
    let k = digit_prefix_len(s, max_digits);
    if k == 0 {
        None
    } else if k > 1 && s[0] == '0' {
        None
    } else {
        Some((s.skip(k as int), digits_val(s.take(k as int))))
    }
}

/// One octet of the dotted form: at most three digits, no leading zero,
/// valued up to 255.
pub open spec fn spec_octet(s: Seq<char>) -> Option<(Seq<char>, u8)> {
    match spec_strict_number(s, 3) {
        None => None,
        Some((rest, v)) => if v <= 255 {
            Some((rest, v as u8))
        } else {
            None
        },
    }
}

/// A literal dot at the head of `s`.
pub open spec fn spec_dot(s: Seq<char>) -> Option<Seq<char>> {
    if s.len() >= 1 && s[0] == '.' {
        Some(s.drop_first())
    } else {
        None
    }
}

/// Powers of sixteen.
pub open spec fn pow16(n: nat) -> nat
    decreases n,
{
    if n == 0 {
        1
    } else {
        16 * pow16((n - 1) as nat)
    }
}

/// How many hex digits stand at `pos`, at most `cap` many.
pub open spec fn hex_run(text: Seq<char>, pos: int, cap: int) -> int
    decreases cap,
{
    if cap <= 0 || pos < 0 || pos >= text.len() || hex_val(text[pos]) is None {
        0
    } else {
        1 + hex_run(text, pos + 1, cap - 1)
    }
}

/// The value of the `k` hex digits at `pos`, most significant first.
pub open spec fn hex_run_val(text: Seq<char>, pos: int, k: int) -> int
    decreases k,
{
    if k <= 0 {
        0
    } else {
        hex_run_val(text, pos, k - 1) * 16 + (match hex_val(text[pos + k - 1]) {
            Some(v) => v as int,
            None => 0,
        })
    }
}

proof fn lemma_hex_run_bounds(text: Seq<char>, pos: int, cap: int)
    requires
        0 <= pos <= text.len(),
        cap >= 0,
    ensures
        0 <= hex_run(text, pos, cap) <= cap,
        pos + hex_run(text, pos, cap) <= text.len(),
    decreases cap,
{
    if cap > 0 && pos < text.len() && hex_val(text[pos]) is Some {
        lemma_hex_run_bounds(text, pos + 1, cap - 1);
    }
}

proof fn lemma_hex_run_val_bound(text: Seq<char>, pos: int, k: int)
    requires
        k >= 0,
    ensures
        0 <= hex_run_val(text, pos, k) < pow16(k as nat),
    decreases k,
{
    if k > 0 {
        lemma_hex_run_val_bound(text, pos, k - 1);
        match hex_val(text[pos + k - 1]) {
            Some(v) => {
                assert(v < 16);
            },
            None => {},
        }
    }
}

proof fn lemma_hex_run_from_scan(text: Seq<char>, pos: int, cap: int, k: int)
    requires
        0 <= k <= cap,
        0 <= pos,
        pos + k <= text.len(),
        forall|j: int| pos <= j < pos + k ==> hex_val(#[trigger] text[j]) is Some,
        k < cap && pos + k < text.len() ==> hex_val(text[pos + k]) is None,
    ensures
        hex_run(text, pos, cap) == k,
    decreases k,
{
    if k > 0 {
        assert(hex_val(text[pos]) is Some);
        lemma_hex_run_from_scan(text, pos + 1, cap - 1, k - 1);
    }
}

/// A group of one to four hex digits and its value.
pub open spec fn spec_hex_group_at(text: Seq<char>, pos: int) -> Option<(u16, int)> {
    let k = hex_run(text, pos, 4);
    if k == 0 {
        None
    } else {
        Some((hex_run_val(text, pos, k) as u16, pos + k))
    }
}

/// Scans the hex group at `pos`.
fn scan_hex_group(text: &str, pos: usize) -> (r: (usize, u16))
    requires
        pos <= text@.len(),
    ensures
        r.0 == hex_run(text@, pos as int, 4),
        r.1 as int == hex_run_val(text@, pos as int, r.0 as int),
        pos + r.0 <= text@.len(),
        r.0 <= 4,
{
    let len = text.unicode_len();
    let mut k: usize = 0;
    let mut val: u16 = 0;
    loop
        invariant
            k <= 4,
            pos + k <= len,
            len == text@.len(),
            forall|j: int| pos <= j < pos + k ==> hex_val(#[trigger] text@[j]) is Some,
            val as int == hex_run_val(text@, pos as int, k as int),
            val < pow16(k as nat),
        decreases 4 - k,
    {
        if k == 4 || pos + k == len {
            proof {
                lemma_hex_run_from_scan(text@, pos as int, 4, k as int);
            }
            return (k, val);
        }
        let c = text.get_char(pos + k);
        match hex_val_of(c) {
            Some(d) => {
                proof {
                    reveal_with_fuel(pow16, 6);
                    lemma_hex_run_val_bound(text@, pos as int, k as int);
                }
                val = val * 16 + (d as u16);
                k = k + 1;
            },
            None => {
                proof {
                    lemma_hex_run_from_scan(text@, pos as int, 4, k as int);
                }
                return (k, val);
            },
        }
    }
}

/// One octet at `pos`: its value and the position after it.
pub open spec fn spec_octet_at(text: Seq<char>, pos: int) -> Option<(u8, int)> {
    if pos < 0 || pos > text.len() {
        None
    } else {
        match spec_octet(text.skip(pos)) {
            None => None,
            Some((rest, v)) => Some((v, text.len() - rest.len())),
        }
    }
}

/// A dotted IPv4 address at `pos`: its octets and the position after it.
pub open spec fn spec_ipv4_at(text: Seq<char>, pos: int) -> Option<((u8, u8, u8, u8), int)> {
    match spec_octet_at(text, pos) {
        None => None,
        Some((a, p1)) => {
            if 0 <= p1 < text.len() && text[p1] == '.' {
                match spec_octet_at(text, p1 + 1) {
                    None => None,
                    Some((b, p2)) => {
                        if 0 <= p2 < text.len() && text[p2] == '.' {
                            match spec_octet_at(text, p2 + 1) {
                                None => None,
                                Some((c, p3)) => {
                                    if 0 <= p3 < text.len() && text[p3] == '.' {
                                        match spec_octet_at(text, p3 + 1) {
                                            None => None,
                                            Some((d, p4)) => Some(((a, b, c, d), p4)),
                                        }
                                    } else {
                                        None
                                    }
                                },
                            }
                        } else {
                            None
                        }
                    },
                }
            } else {
                None
            }
        },
    }
}

pub proof fn lemma_octet_at_bounds(text: Seq<char>, pos: int)
    requires
        0 <= pos <= text.len(),
        spec_octet_at(text, pos) is Some,
    ensures
        pos < spec_octet_at(text, pos)->Some_0.1 <= text.len(),
{
    let suffix = text.skip(pos);
    lemma_dpl_le_len(suffix, 3);
}

pub proof fn lemma_ipv4_at_bounds(text: Seq<char>, pos: int)
    requires
        0 <= pos <= text.len(),
        spec_ipv4_at(text, pos) is Some,
    ensures
        pos < spec_ipv4_at(text, pos)->Some_0.1 <= text.len(),
{
    let (a, p1) = spec_octet_at(text, pos)->Some_0;
    lemma_octet_at_bounds(text, pos);
    let (b, p2) = spec_octet_at(text, p1 + 1)->Some_0;
    lemma_octet_at_bounds(text, p1 + 1);
    let (c, p3) = spec_octet_at(text, p2 + 1)->Some_0;
    lemma_octet_at_bounds(text, p2 + 1);
    lemma_octet_at_bounds(text, p3 + 1);
}

/// Parses one octet at `pos`, position form.
fn octet_at(text: &str, pos: usize) -> (r: Option<(u8, usize)>)
    requires
        pos <= text@.len(),
    ensures
        match spec_octet_at(text@, pos as int) {
            Some((v, p)) => r matches Some(q) && q.0 == v && q.1 == p && pos < p <= text@.len(),
            None => r is None,
        },
{
    proof {
        if spec_octet_at(text@, pos as int) is Some {
            lemma_octet_at_bounds(text@, pos as int);
        }
    }
    match parse_octet_at(text, pos) {
        Some((p, v)) => {
            proof {
                let suffix = text@.skip(pos as int);
                let pr = spec_octet(suffix)->Some_0;
                assert(text@.skip(p as int) == pr.0);
                assert(text@.skip(p as int).len() == text@.len() - p);
            }
            Some((v, p))
        },
        None => None,
    }
}

/// Parses a dotted IPv4 address at `pos`, position form.
fn ipv4_at(text: &str, pos: usize) -> (r: Option<((u8, u8, u8, u8), usize)>)
    requires
        pos <= text@.len(),
    ensures
        match spec_ipv4_at(text@, pos as int) {
            Some((v, p)) => r matches Some(q) && q.0 == v && q.1 == p && pos < p <= text@.len(),
            None => r is None,
        },
{
    let (a, p1) = match octet_at(text, pos) {
        Some(x) => x,
        None => {
            return None;
        },
    };
    proof {
        if p1 < text@.len() {
            assert(text@.skip(p1 as int)[0] == text@[p1 as int]);
        }
    }
    let p1d = match expect_char_at(text, p1, '.') {
        Some(p) => p,
        None => {
            return None;
        },
    };
    let (b, p2) = match octet_at(text, p1d) {
        Some(x) => x,
        None => {
            return None;
        },
    };
    proof {
        if p2 < text@.len() {
            assert(text@.skip(p2 as int)[0] == text@[p2 as int]);
        }
    }
    let p2d = match expect_char_at(text, p2, '.') {
        Some(p) => p,
        None => {
            return None;
        },
    };
    let (c, p3) = match octet_at(text, p2d) {
        Some(x) => x,
        None => {
            return None;
        },
    };
    proof {
        if p3 < text@.len() {
            assert(text@.skip(p3 as int)[0] == text@[p3 as int]);
        }
    }
    let p3d = match expect_char_at(text, p3, '.') {
        Some(p) => p,
        None => {
            return None;
        },
    };
    let (d, p4) = match octet_at(text, p3d) {
        Some(x) => x,
        None => {
            return None;
        },
    };
    Some(((a, b, c, d), p4))
}

/// Reads address groups at `pos`, slots `i` to `limit`: a colon before
/// every group but the first, each group hex or — while two or more slots
/// remain — a trailing embedded IPv4 address filling two of them. Stops
/// without consuming a separator whose group does not follow.
pub open spec fn spec_read_groups(
    text: Seq<char>,
    pos: int,
    i: int,
    limit: int,
    acc: Seq<u16>,
) -> (Seq<u16>, int, bool)
    decreases limit - i,
{
    if i >= limit || pos < 0 || pos > text.len() {
        (acc, pos, false)
    } else if !(i == 0 || (pos < text.len() && text[pos] == ':')) {
        (acc, pos, false)
    } else {
        let q = if i == 0 {
            pos
        } else {
            pos + 1
        };
        if i < limit - 1 && spec_ipv4_at(text, q) is Some {
            let ip4 = spec_ipv4_at(text, q)->Some_0;
            (
                acc.push((ip4.0.0 as int * 256 + ip4.0.1 as int) as u16).push(
                    (ip4.0.2 as int * 256 + ip4.0.3 as int) as u16,
                ),
                ip4.1,
                true,
            )
        } else {
            match spec_hex_group_at(text, q) {
                None => (acc, pos, false),
                Some((g, p2)) => spec_read_groups(text, p2, i + 1, limit, acc.push(g)),
            }
        }
    }
}

pub proof fn lemma_read_groups_bounds(text: Seq<char>, pos: int, i: int, limit: int, acc: Seq<u16>)
    requires
        0 <= pos <= text.len(),
        0 <= i,
    ensures
        ({
            let gp = spec_read_groups(text, pos, i, limit, acc);
            &&& pos <= gp.1 <= text.len()
            &&& acc.len() <= gp.0.len()
            &&& gp.0.len() <= acc.len() + (if limit - i >= 0 {
                limit - i
            } else {
                0int
            })
        }),
    decreases limit - i,
{
    if i >= limit || !(i == 0 || (pos < text.len() && text[pos] == ':')) {
    } else {
        let q = if i == 0 {
            pos
        } else {
            pos + 1
        };
        if i < limit - 1 && spec_ipv4_at(text, q) is Some {
            lemma_ipv4_at_bounds(text, q);
        } else {
            match spec_hex_group_at(text, q) {
                None => {},
                Some((g, p2)) => {
                    lemma_hex_run_bounds(text, q, 4);
                    lemma_read_groups_bounds(text, p2, i + 1, limit, acc.push(g));
                },
            }
        }
    }
}

/// Reads address groups, mirroring the group grammar.
fn read_groups(text: &str, pos: usize, i: usize, limit: usize, acc: Vec<u16>) -> (r: (
    Vec<u16>,
    usize,
    bool,
))
    requires
        pos <= text@.len(),
        limit <= 8,
    ensures
        ({
            let gp = spec_read_groups(text@, pos as int, i as int, limit as int, acc@);
            r.0@ == gp.0 && r.1 as int == gp.1 && r.2 == gp.2 && pos <= r.1 <= text@.len()
        }),
    decreases limit - i,
{
    let len = text.unicode_len();
    if i >= limit {
        return (acc, pos, false);
    }
    if !(i == 0 || (pos < len && text.get_char(pos) == ':')) {
        return (acc, pos, false);
    }
    let q = if i == 0 {
        pos
    } else {
        pos + 1
    };
    if i < limit - 1 {
        if let Some((ip4, p2)) = ipv4_at(text, q) {
            let (a, b, c, d) = ip4;
            let mut acc2 = acc;
            let ghost prev = acc2@;
            acc2.push((a as u16) * 256 + (b as u16));
            acc2.push((c as u16) * 256 + (d as u16));
            proof {
                assert(acc2@ =~= prev.push((a as int * 256 + b as int) as u16).push(
                    (c as int * 256 + d as int) as u16,
                ));
            }
            return (acc2, p2, true);
        }
    }
    let (k, g) = scan_hex_group(text, q);
    if k == 0 {
        return (acc, pos, false);
    }
    proof {
        lemma_hex_run_val_bound(text@, q as int, k as int);
        reveal_with_fuel(pow16, 6);
    }
    let mut acc2 = acc;
    acc2.push(g);
    read_groups(text, q + k, i + 1, limit, acc2)
}

/// A sequence of zero groups.
pub open spec fn zero_groups(n: int) -> Seq<u16> {
    Seq::new(
        if n >= 0 {
            n as nat
        } else {
            0
        },
        |i: int| 0u16,
    )
}

/// An IPv6 address at `pos`: eight groups read directly, or fewer on each
/// side of one `::` elision filled with zeros in between; an embedded IPv4
/// tail before the elision must complete the eight groups.
pub open spec fn spec_ipv6_at(text: Seq<char>, pos: int) -> Option<(Seq<u16>, int)> {
    let hd = spec_read_groups(text, pos, 0, 8, Seq::empty());
    if hd.0.len() == 8 {
        Some((hd.0, hd.1))
    } else if hd.2 {
        None
    } else if hd.1 + 2 <= text.len() && text[hd.1] == ':' && text[hd.1 + 1] == ':' {
        let tl = spec_read_groups(text, hd.1 + 2, 0, 8 - hd.0.len() - 1, Seq::empty());
        Some((hd.0 + zero_groups(8 - hd.0.len() - tl.0.len()) + tl.0, tl.1))
    } else {
        None
    }
}

/// Parses an IPv6 address at `pos`.
fn ipv6_at(text: &str, pos: usize) -> (r: Option<(Vec<u16>, usize)>)
    requires
        pos <= text@.len(),
    ensures
        match spec_ipv6_at(text@, pos as int) {
            Some((g, p)) => r matches Some(q) && q.0@ == g && q.1 == p && pos <= p <= text@.len()
                && g.len() == 8,
            None => r is None,
        },
{
    let len = text.unicode_len();
    let empty_acc: Vec<u16> = Vec::new();
    proof {
        assert(empty_acc@ =~= Seq::<u16>::empty());
    }
    let (head, p1, used4) = read_groups(text, pos, 0, 8, empty_acc);
    proof {
        lemma_read_groups_bounds(text@, pos as int, 0, 8, Seq::empty());
    }
    if head.len() == 8 {
        return Some((head, p1));
    }
    if used4 {
        return None;
    }
    if !(len - p1 >= 2 && text.get_char(p1) == ':' && text.get_char(p1 + 1) == ':') {
        return None;
    }
    let limit = 8 - head.len() - 1;
    let empty_acc2: Vec<u16> = Vec::new();
    proof {
        assert(empty_acc2@ =~= Seq::<u16>::empty());
    }
    let (tail, p2, _) = read_groups(text, p1 + 2, 0, limit, empty_acc2);
    proof {
        lemma_read_groups_bounds(text@, p1 as int + 2, 0, limit as int, Seq::empty());
    }
    let mut full: Vec<u16> = Vec::new();
    let mut j: usize = 0;
    proof {
        assert(full@ =~= head@.take(0));
    }
    while j < head.len()
        invariant
            j <= head@.len(),
            full@ == head@.take(j as int),
        decreases head@.len() - j,
    {
        let x = head[j];
        full.push(x);
        proof {
            assert(full@ =~= head@.take(j + 1));
        }
        j = j + 1;
    }
    proof {
        assert(head@.take(head@.len() as int) =~= head@);
        assert(full@ + zero_groups(0) =~= full@);
    }
    let zeros = 8 - head.len() - tail.len();
    let mut z: usize = 0;
    while z < zeros
        invariant
            z <= zeros,
            full@ == head@ + zero_groups(z as int),
        decreases zeros - z,
    {
        full.push(0);
        proof {
            assert(full@ =~= head@ + zero_groups(z + 1));
        }
        z = z + 1;
    }
    let mut t: usize = 0;
    proof {
        assert(full@ + tail@.take(0) =~= full@);
    }
    while t < tail.len()
        invariant
            t <= tail@.len(),
            full@ == head@ + zero_groups(zeros as int) + tail@.take(t as int),
        decreases tail@.len() - t,
    {
        let x = tail[t];
        full.push(x);
        proof {
            assert(full@ =~= head@ + zero_groups(zeros as int) + tail@.take(t + 1));
        }
        t = t + 1;
    }
    proof {
        assert(tail@.take(tail@.len() as int) =~= tail@);
        assert(full@ =~= head@ + zero_groups(8 - head@.len() - tail@.len()) + tail@);
    }
    Some((full, p2))
}

/// The optional `%` scope id at `pos`: its decimal value, or zero and the
/// same position when there is none.
pub open spec fn spec_scope_at(text: Seq<char>, pos: int) -> Option<(u32, int)> {
    if 0 <= pos < text.len() && text[pos] == '%' {
        let d = text.skip(pos + 1);
        let k = digit_prefix_len(d, d.len());
        if k == 0 {
            None
        } else if digits_val(d.take(k as int)) <= 0xffffffff {
            Some((digits_val(d.take(k as int)) as u32, pos + 1 + k))
        } else {
            None
        }
    } else {
        Some((0, pos))
    }
}

/// Scans the decimal digits at `start`, returning how many there are and
/// their value, capped just above the largest scope id.
fn scan_scope_digits(text: &str, start: usize) -> (r: (usize, u64))
    requires
        start <= text@.len(),
    ensures
        ({
            let d = text@.skip(start as int);
            r.0 == digit_prefix_len(d, d.len()) && r.1 == vstd::math::min(
                digits_val(d.take(r.0 as int)) as int,
                0x100000000,
            ) && start + r.0 <= text@.len()
        }),
{
    let ghost d = text@.skip(start as int);
    let len = text.unicode_len();
    let mut k: usize = 0;
    let mut val: u64 = 0;
    loop
        invariant
            start <= text@.len(),
            len == text@.len(),
            d == text@.skip(start as int),
            start + k <= len,
            forall|j: int| 0 <= j < k ==> spec_digit_value(#[trigger] d[j]) is Some,
            val == vstd::math::min(digits_val(d.take(k as int)) as int, 0x100000000) as u64,
        decreases len - (start + k),
    {
        if start + k == len {
            proof {
                lemma_digit_prefix_len_from_scan(d, d.len(), k as nat);
            }
            return (k, val);
        }
        let c = text.get_char(start + k);
        proof {
            assert(d[k as int] == text@[start + k]);
        }
        match digit_value(c) {
            Some(dv) => {
                proof {
                    assert(d.take(k + 1).drop_last() =~= d.take(k as int));
                    assert(d.take(k + 1).last() == d[k as int]);
                }
                let next = val * 10 + (dv as u64);
                if next > 0x100000000 {
                    val = 0x100000000;
                } else {
                    val = next;
                }
                k = k + 1;
            },
            None => {
                proof {
                    lemma_digit_prefix_len_from_scan(d, d.len(), k as nat);
                }
                return (k, val);
            },
        }
    }
}

/// Parses the optional scope id at `pos`.
fn scope_at(text: &str, pos: usize) -> (r: Option<(u32, usize)>)
    requires
        pos <= text@.len(),
    ensures
        match spec_scope_at(text@, pos as int) {
            Some((v, p)) => r matches Some(q) && q.0 == v && q.1 == p && pos <= p <= text@.len(),
            None => r is None,
        },
{
    let len = text.unicode_len();
    if !(pos < len && text.get_char(pos) == '%') {
        return Some((0, pos));
    }
    let (k, val) = scan_scope_digits(text, pos + 1);
    if k == 0 {
        return None;
    }
    if val <= 0xffffffff {
        Some((val as u32, pos + 1 + k))
    } else {
        None
    }
}

/// The whole textual form: `a.b.c.d:port`, or `[v6]:port` with an optional
/// `%scope` before the closing bracket; the port runs to the end of the
/// input, leading zeros kept, and fits 16 bits.
pub open spec fn spec_parse_sock_addr(s: Seq<char>) -> Option<SockAddrView> {
    if s.len() > 0 && s[0] == '[' {
        match spec_ipv6_at(s, 1) {
            None => None,
            Some((g, p1)) => match spec_scope_at(s, p1) {
                None => None,
                Some((sc, p2)) => {
                    if p2 + 2 <= s.len() && s[p2] == ']' && s[p2 + 1] == ':' {
                        match spec_plain_port(s.skip(p2 + 2)) {
                            None => None,
                            Some(v) => Some(SockAddrView::V6 { groups: g, scope_id: sc, port: v }),
                        }
                    } else {
                        None
                    }
                },
            },
        }
    } else {
        match spec_octet(s) {
            None => None,
            Some((r1, a)) => match spec_dot(r1) {
                None => None,
                Some(r2) => match spec_octet(r2) {
                    None => None,
                    Some((r3, b)) => match spec_dot(r3) {
                        None => None,
                        Some(r4) => match spec_octet(r4) {
                            None => None,
                            Some((r5, c)) => match spec_dot(r5) {
                                None => None,
                                Some(r6) => match spec_octet(r6) {
                                    None => None,
                                    Some((r7, d)) => {
                                        if r7.len() >= 1 && r7[0] == ':' {
                                            match spec_plain_port(r7.drop_first()) {
                                                None => None,
                                                Some(v) => Some(
                                                    SockAddrView::V4 {
                                                        ip: seq![a, b, c, d],
                                                        port: v,
                                                    },
                                                ),
                                            }
                                        } else {
                                            None
                                        }
                                    },
                                },
                            },
                        },
                    },
                },
            },
        }
    }
}

/// Counts the leading digits of `input` from `from`, at most `cap` many,
/// and their value.
fn scan_digits_from(input: &str, from: usize, cap: usize) -> (r: (usize, u32))
    requires
        from <= input@.len(),
        cap <= 6,
    ensures
        r.0 == digit_prefix_len(input@.skip(from as int), cap as nat),
        r.1 == digits_val(input@.skip(from as int).take(r.0 as int)),
        from + r.0 <= input@.len(),
        r.0 <= cap,
{
    let ghost s = input@.skip(from as int);
    let len = input.unicode_len();
    let mut k: usize = 0;
    let mut val: u32 = 0;
    loop
        invariant
            s == input@.skip(from as int),
            from <= input@.len(),
            len == input@.len(),
            k <= cap,
            cap <= 6,
            from + k <= len,
            forall|j: int| 0 <= j < k ==> spec_digit_value(#[trigger] s[j]) is Some,
            val == digits_val(s.take(k as int)),
            val < pow10(k as nat),
        decreases cap - k,
    {
        if k == cap || from + k == len {
            proof {
                lemma_digit_prefix_len_from_scan(s, cap as nat, k as nat);
            }
            return (k, val);
        }
        let c = input.get_char(from + k);
        proof {
            assert(s[k as int] == input@[from + k]);
        }
        match digit_value(c) {
            Some(d) => {
                proof {
                    reveal_with_fuel(pow10, 8);
                    assert(s.take(k + 1).drop_last() =~= s.take(k as int));
                    assert(s.take(k + 1).last() == s[k as int]);
                    lemma_pow10_mono(k as nat, 5);
                }
                val = val * 10 + (d as u32);
                k = k + 1;
            },
            None => {
                proof {
                    lemma_digit_prefix_len_from_scan(s, cap as nat, k as nat);
                }
                return (k, val);
            },
        }
    }
}

/// Parses one octet at `pos`, returning the next position and its value.
fn parse_octet_at(input: &str, pos: usize) -> (r: Option<(usize, u8)>)
    requires
        pos <= input@.len(),
    ensures
        match spec_octet(input@.skip(pos as int)) {
            Some((rest, v)) => r matches Some(p) && input@.skip(p.0 as int) == rest && p.1 == v
                && pos <= p.0 <= input@.len(),
            None => r is None,
        },
{
    let ghost s = input@.skip(pos as int);
    let len = input.unicode_len();
    let (k, val) = scan_digits_from(input, pos, 3);
    if k == 0 {
        return None;
    }
    proof {
        assert(s[0] == input@[pos as int]);
    }
    if k > 1 && input.get_char(pos) == '0' {
        return None;
    }
    proof {
        lemma_dpl_le_len(s, 3);
        assert(s.skip(k as int) =~= input@.skip(pos + k));
    }
    if val <= 255 {
        Some((pos + k, val as u8))
    } else {
        None
    }
}

/// Expects one character at `pos`, returning the next position.
fn expect_char_at(input: &str, pos: usize, c: char) -> (r: Option<usize>)
    requires
        pos <= input@.len(),
    ensures
        ({
            let s = input@.skip(pos as int);
            if s.len() >= 1 && s[0] == c {
                r matches Some(p) && p == pos + 1 && p <= input@.len() && input@.skip(p as int)
                    == s.drop_first()
            } else {
                r is None
            }
        }),
{
    let len = input.unicode_len();
    proof {
        if pos < input@.len() {
            assert(input@.skip(pos as int)[0] == input@[pos as int]);
            assert(input@.skip(pos as int + 1) =~= input@.skip(pos as int).drop_first());
        }
    }
    if pos < len && input.get_char(pos) == c {
        Some(pos + 1)
    } else {
        None
    }
}

/// Parses the full textual form; any other input yields nothing.
#[verifier::rlimit(50)]
pub fn parse_sock_addr(input: &str) -> (r: Option<SockAddr>)
    ensures
        match spec_parse_sock_addr(input@) {
            Some(v) => r matches Some(a) && a@ == v,
            None => r is None,
        },
{
    let len = input.unicode_len();
    if len > 0 && input.get_char(0) == '[' {
        let (g, p1) = match ipv6_at(input, 1) {
            Some(x) => x,
            None => {
                return None;
            },
        };
        let (sc, p2) = match scope_at(input, p1) {
            Some(x) => x,
            None => {
                return None;
            },
        };
        if !(len - p2 >= 2 && input.get_char(p2) == ']' && input.get_char(p2 + 1) == ':') {
            return None;
        }
        let port = match parse_plain_port_at(input, p2 + 2) {
            Some(v) => v,
            None => {
                return None;
            },
        };
        let mut groups: [u16; 8] = [0, 0, 0, 0, 0, 0, 0, 0];
        let mut j: usize = 0;
        while j < 8
            invariant
                j <= 8,
                g@.len() == 8,
                forall|i: int| 0 <= i < j ==> groups@[i] == #[trigger] g@[i],
            decreases 8 - j,
    {
            groups[j] = g[j];
            j = j + 1;
        }
        proof {
            assert(groups@ =~= g@);
        }
        Some(SockAddr::V6 { groups, scope_id: sc, port })
    } else {
        proof {
            assert(input@.skip(0) =~= input@);
        }
        let (p1, a) = match parse_octet_at(input, 0) {
            Some(p) => p,
            None => {
                return None;
            },
        };
        let p1d = match expect_char_at(input, p1, '.') {
            Some(p) => p,
            None => {
                return None;
            },
        };
        let (p2, b) = match parse_octet_at(input, p1d) {
            Some(p) => p,
            None => {
                return None;
            },
        };
        let p2d = match expect_char_at(input, p2, '.') {
            Some(p) => p,
            None => {
                return None;
            },
        };
        let (p3, c) = match parse_octet_at(input, p2d) {
            Some(p) => p,
            None => {
                return None;
            },
        };
        let p3d = match expect_char_at(input, p3, '.') {
            Some(p) => p,
            None => {
                return None;
            },
        };
        let (p4, d) = match parse_octet_at(input, p3d) {
            Some(p) => p,
            None => {
                return None;
            },
        };
        let p5 = match expect_char_at(input, p4, ':') {
            Some(p) => p,
            None => {
                return None;
            },
        };
        proof {
            assert(input@.skip(p4 as int).drop_first() =~= input@.skip(p5 as int));
        }
        match parse_plain_port_at(input, p5) {
            Some(port) => {
                let r = SockAddr::V4 { ip: [a, b, c, d], port };
                proof {
                    assert(r@->V4_ip =~= seq![a, b, c, d]);
                }
                Some(r)
            },
            None => None,
        }
    }
}

/// A run of decimal digits read as a port, leading zeros kept.
pub open spec fn spec_plain_port(d: Seq<char>) -> Option<u16> {
    if d.len() > 0 && (forall|i: int| 0 <= i < d.len() ==> spec_digit_value(#[trigger] d[i])
        is Some) && crate::parse::digits_val(d) <= 0xffff {
        Some(crate::parse::digits_val(d) as u16)
    } else {
        None
    }
}

/// Parses the port digits at `pos`, which run to the end of the input.
pub(crate) fn parse_plain_port_at(input: &str, pos: usize) -> (r: Option<u16>)
    requires
        pos <= input@.len(),
    ensures
        match spec_plain_port(input@.skip(pos as int)) {
            Some(p) => r matches Some(v) && v == p,
            None => r is None,
        },
{
    let ghost d = input@.skip(pos as int);
    let len = input.unicode_len();
    if pos == len {
        return None;
    }
    let mut i: usize = pos;
    let mut val: u32 = 0;
    while i < len
        invariant
            pos <= i <= len,
            len == input@.len(),
            d == input@.skip(pos as int),
            forall|j: int| 0 <= j < i - pos ==> spec_digit_value(#[trigger] d[j]) is Some,
            val == vstd::math::min(crate::parse::digits_val(d.take(i - pos)) as int, 0x10000)
                as u32,
        decreases len - i,
    {
        let c = input.get_char(i);
        proof {
            assert(d[i - pos] == input@[i as int]);
        }
        match digit_value(c) {
            Some(dv) => {
                proof {
                    assert(d.take(i - pos + 1).drop_last() =~= d.take(i - pos));
                    assert(d.take(i - pos + 1).last() == d[i - pos]);
                }
                let next = val * 10 + (dv as u32);
                if next > 0x10000 {
                    val = 0x10000;
                } else {
                    val = next;
                }
                i = i + 1;
            },
            None => {
                return None;
            },
        }
    }
    proof {
        assert(d.take((len - pos) as int) =~= d);
    }
    if val <= 0xffff {
        Some(val as u16)
    } else {
        None
    }
}

} // verus!
