//! Socket addresses as plain values, with their textual grammar.
//!
//! A node's public address is an IPv4 or IPv6 address and a port. The wire
//! protocol carries addresses as text: `a.b.c.d:port` for IPv4 and
//! `[h:h:...:h]:port` for IPv6, where the bracketed part is up to eight
//! colon-separated lowercase hexadecimal groups, with an optional single
//! `::` standing for a run of zero groups. The serializer always writes the
//! full eight-group form; the parser also accepts `::` compression and
//! leading zeros inside groups.

use vstd::prelude::*;

use crate::text::{
    all_dec_digits, all_hex_digits, digits_of, find_char, is_dec_digit, is_hex_digit, seq_val,
    spec_parse_dec_u128,
};
use crate::text::{
    check_all_hex_digits, digit_value, find_char_in, parse_dec_u128, append_dec_u128,
    append_hex_u16, push_char,
};
use crate::text::{
    lemma_digit_val_char, lemma_digits_of_val, lemma_digits_of_len, lemma_seq_val_bound,
    lemma_find_char, lemma_find_char_is, lemma_find_char_none,
};

verus! {

/// An IP address held as its numeric value: 32 bits for IPv4, 128 bits for
/// IPv6, most significant octet first.
#[derive(Clone, Copy, PartialEq, Eq, Structural, Debug)]
pub enum IpRepr {
    V4(u32),
    V6(u128),
}

/// A socket address: an IP address and a port.
#[derive(Clone, Copy, PartialEq, Eq, Structural, Debug)]
pub struct SockAddr {
    pub ip: IpRepr,
    pub port: u16,
}

// ---------------------------------------------------------------------------
// Formatting
// ---------------------------------------------------------------------------

/// Octet `k` (from the most significant, `0 <= k < 4`) of an IPv4 value.
pub open spec fn v4_octet(ip: u32, k: int) -> u8 {
    if k == 0 {
        ((ip / 0x1000000) % 0x100) as u8
    } else if k == 1 {
        ((ip / 0x10000) % 0x100) as u8
    } else if k == 2 {
        ((ip / 0x100) % 0x100) as u8
    } else {
        (ip % 0x100) as u8
    }
}

/// The dotted-quad text of an IPv4 value.
pub open spec fn spec_fmt_v4(ip: u32) -> Seq<char> {
    digits_of(v4_octet(ip, 0) as nat, 10) + seq!['.'] + digits_of(v4_octet(ip, 1) as nat, 10)
        + seq!['.'] + digits_of(v4_octet(ip, 2) as nat, 10) + seq!['.'] + digits_of(
        v4_octet(ip, 3) as nat,
        10,
    )
}

/// The place value of 16-bit group `k` (from the most significant,
/// `0 <= k < 8`) of an IPv6 value.
pub open spec fn group_divisor(k: int) -> u128 {
    if k == 0 {
        0x1_0000_0000_0000_0000_0000_0000_0000
    } else if k == 1 {
        0x1_0000_0000_0000_0000_0000_0000
    } else if k == 2 {
        0x1_0000_0000_0000_0000_0000
    } else if k == 3 {
        0x1_0000_0000_0000_0000
    } else if k == 4 {
        0x1_0000_0000_0000
    } else if k == 5 {
        0x1_0000_0000
    } else if k == 6 {
        0x1_0000
    } else {
        1
    }
}

/// Group `k` of an IPv6 value.
pub open spec fn v6_group(ip: u128, k: int) -> u16 {
    ((ip / group_divisor(k)) % 0x10000) as u16
}

/// The eight groups of an IPv6 value, most significant first.
pub open spec fn v6_groups(ip: u128) -> Seq<u16> {
    Seq::new(8, |k: int| v6_group(ip, k))
}

/// Groups joined with `:`, each in lowercase hexadecimal without leading
/// zeros.
pub open spec fn fmt_groups(gs: Seq<u16>) -> Seq<char>
    decreases gs.len(),
{
    if gs.len() == 0 {
        Seq::empty()
    } else if gs.len() == 1 {
        digits_of(gs[0] as nat, 16)
    } else {
        digits_of(gs[0] as nat, 16) + seq![':'] + fmt_groups(gs.drop_first())
    }
}

/// The full eight-group text of an IPv6 value.
pub open spec fn spec_fmt_v6(ip: u128) -> Seq<char> {
    fmt_groups(v6_groups(ip))
}

/// The canonical text of a socket address.
pub open spec fn spec_fmt_sockaddr(a: SockAddr) -> Seq<char> {
    match a.ip {
        IpRepr::V4(v) => spec_fmt_v4(v) + seq![':'] + digits_of(a.port as nat, 10),
        IpRepr::V6(v) => seq!['['] + spec_fmt_v6(v) + seq![']'] + seq![':'] + digits_of(
            a.port as nat,
            10,
        ),
    }
}

/// The characters the protocol admits inside an address field.
pub open spec fn is_addr_char(c: char) -> bool {
    is_hex_digit(c) || c == ':' || c == '.' || c == '[' || c == ']'
}

/// Every character of `s` may stand in an address field.
pub open spec fn all_addr_chars(s: Seq<char>) -> bool {
    forall|i: int| 0 <= i < s.len() ==> is_addr_char(#[trigger] s[i])
}

// ---------------------------------------------------------------------------
// Parsing
// ---------------------------------------------------------------------------

/// An IPv4 octet: one to three decimal digits, no leading zero, at most 255.
pub open spec fn spec_parse_octet(s: Seq<char>) -> Option<u8> {
    if s.len() > 0 && all_dec_digits(s) && (s.len() > 1 ==> s[0] != '0') && seq_val(s, 10) <= 255 {
        Some(seq_val(s, 10) as u8)
    } else {
        None
    }
}

/// A port: decimal digits, no leading zero, at most 65535.
pub open spec fn spec_parse_port(s: Seq<char>) -> Option<u16> {
    if s.len() > 0 && all_dec_digits(s) && (s.len() > 1 ==> s[0] != '0') && seq_val(s, 10)
        <= 65535 {
        Some(seq_val(s, 10) as u16)
    } else {
        None
    }
}

/// An IPv6 group: one to four lowercase hexadecimal digits; leading zeros
/// are accepted.
pub open spec fn spec_parse_group(s: Seq<char>) -> Option<u16> {
    if 1 <= s.len() <= 4 && all_hex_digits(s) {
        Some(seq_val(s, 16) as u16)
    } else {
        None
    }
}

/// The IPv4 value of four octets.
pub open spec fn v4_value(o0: u8, o1: u8, o2: u8, o3: u8) -> u32 {
    (o0 * 0x1000000 + o1 * 0x10000 + o2 * 0x100 + o3) as u32
}

/// Parses dotted-quad IPv4 text.
pub open spec fn spec_parse_v4(s: Seq<char>) -> Option<u32> {
    match find_char(s, '.') {
        None => None,
        Some(i1) => match spec_parse_octet(s.take(i1)) {
            None => None,
            Some(o0) => {
                let r1 = s.skip(i1 + 1);
                match find_char(r1, '.') {
                    None => None,
                    Some(i2) => match spec_parse_octet(r1.take(i2)) {
                        None => None,
                        Some(o1) => {
                            let r2 = r1.skip(i2 + 1);
                            match find_char(r2, '.') {
                                None => None,
                                Some(i3) => match (
                                    spec_parse_octet(r2.take(i3)),
                                    spec_parse_octet(r2.skip(i3 + 1)),
                                ) {
                                    (Some(o2), Some(o3)) => Some(v4_value(o0, o1, o2, o3)),
                                    _ => None,
                                },
                            }
                        }
                    },
                }
            }
        },
    }
}

/// Index of the first `::` in `s`, if any.
pub open spec fn find_dcolon(s: Seq<char>) -> Option<int>
    decreases s.len(),
{
    if s.len() < 2 {
        None
    } else if s[0] == ':' && s[1] == ':' {
        Some(0)
    } else {
        match find_dcolon(s.drop_first()) {
            Some(i) => Some(i + 1),
            None => None,
        }
    }
}

/// `find_dcolon` returns exactly the first adjacent pair of colons.
pub proof fn lemma_find_dcolon(s: Seq<char>)
    ensures
        match find_dcolon(s) {
            Some(i) => 0 <= i < s.len() - 1 && s[i] == ':' && s[i + 1] == ':' && forall|j: int|
                0 <= j < i ==> !(#[trigger] s[j] == ':' && s[j + 1] == ':'),
            None => forall|j: int| 0 <= j < s.len() - 1 ==> !(#[trigger] s[j] == ':' && s[j + 1] == ':'),
        },
    decreases s.len(),
{
    if s.len() >= 2 && !(s[0] == ':' && s[1] == ':') {
        let t = s.drop_first();
        lemma_find_dcolon(t);
        assert(forall|j: int| 1 <= j < s.len() ==> s[j] == t[j - 1]);
        match find_dcolon(t) {
            Some(i) => {
                assert forall|j: int| 0 <= j < i + 1 implies !(#[trigger] s[j] == ':' && s[j + 1] == ':') by {
                    if j > 0 {
                        assert(s[j] == t[j - 1] && s[j + 1] == t[j]);
                    }
                }
            }
            None => {
                assert forall|j: int| 0 <= j < s.len() - 1 implies !(#[trigger] s[j] == ':' && s[j + 1]
                    == ':') by {
                    if j > 0 {
                        assert(s[j] == t[j - 1] && s[j + 1] == t[j]);
                    }
                }
            }
        }
    }
}

/// The first adjacent colon pair characterizes `find_dcolon`.
pub proof fn lemma_find_dcolon_is(s: Seq<char>, i: int)
    requires
        0 <= i < s.len() - 1,
        s[i] == ':',
        s[i + 1] == ':',
        forall|j: int| 0 <= j < i ==> !(#[trigger] s[j] == ':' && s[j + 1] == ':'),
    ensures
        find_dcolon(s) == Some(i),
{
    lemma_find_dcolon(s);
    match find_dcolon(s) {
        Some(k) => {
            if k < i {
                assert(!(s[k] == ':' && s[k + 1] == ':'));
            }
            if k > i {
                assert(!(s[i] == ':' && s[i + 1] == ':'));
            }
        }
        None => {
            assert(!(s[i] == ':' && s[i + 1] == ':'));
        }
    }
}

/// Without an adjacent colon pair, `find_dcolon` finds nothing.
pub proof fn lemma_find_dcolon_none(s: Seq<char>)
    requires
        forall|j: int| 0 <= j < s.len() - 1 ==> !(#[trigger] s[j] == ':' && s[j + 1] == ':'),
    ensures
        find_dcolon(s) == None::<int>,
{
    lemma_find_dcolon(s);
    if let Some(k) = find_dcolon(s) {
        assert(!(s[k] == ':' && s[k + 1] == ':'));
    }
}

/// Splits colon-separated groups; every group must parse.
pub open spec fn spec_split_groups(s: Seq<char>) -> Option<Seq<u16>>
    decreases s.len(),
    via spec_split_groups_decreases
{
    match find_char(s, ':') {
        None => match spec_parse_group(s) {
            Some(g) => Some(seq![g]),
            None => None,
        },
        Some(i) => match (spec_parse_group(s.take(i)), spec_split_groups(s.skip(i + 1))) {
            (Some(g), Some(gs)) => Some(seq![g] + gs),
            _ => None,
        },
    }
}

#[via_fn]
proof fn spec_split_groups_decreases(s: Seq<char>) {
    lemma_find_char(s, ':');
}

/// A run of zero groups.
pub open spec fn zero_groups(n: int) -> Seq<u16> {
    Seq::new(n as nat, |i: int| 0u16)
}

/// The 128-bit value of a sequence of 16-bit groups, most significant first.
pub open spec fn groups_val(gs: Seq<u16>) -> int
    decreases gs.len(),
{
    if gs.len() == 0 {
        0
    } else {
        groups_val(gs.drop_last()) * 0x10000 + gs.last()
    }
}

/// Parses IPv6 text: eight groups, or fewer with one `::` standing for the
/// missing zero groups.
pub open spec fn spec_parse_v6(s: Seq<char>) -> Option<u128> {
    match find_dcolon(s) {
        None => match spec_split_groups(s) {
            Some(gs) => if gs.len() == 8 {
                Some(groups_val(gs) as u128)
            } else {
                None
            },
            None => None,
        },
        Some(i) => {
            let left = s.take(i);
            let right = s.skip(i + 2);
            let lgs = if left.len() == 0 {
                Some(Seq::<u16>::empty())
            } else {
                spec_split_groups(left)
            };
            let rgs = if right.len() == 0 {
                Some(Seq::<u16>::empty())
            } else {
                spec_split_groups(right)
            };
            match (lgs, rgs) {
                (Some(l), Some(r)) => if l.len() + r.len() <= 7 {
                    Some(groups_val(l + zero_groups(8 - l.len() - r.len()) + r) as u128)
                } else {
                    None
                },
                _ => None,
            }
        }
    }
}

/// Decides membership in the address character class.
pub fn is_addr_char_exec(c: char) -> (r: bool)
    ensures
        r == is_addr_char(c),
{
    crate::text::is_hex_digit_char(c) || c == ':' || c == '.' || c == '[' || c == ']'
}

/// Whether every character of `s` in `[from, to)` may stand in an address
/// field.
pub fn check_all_addr_chars(s: &str, from: usize, to: usize) -> (r: bool)
    requires
        from <= to <= s@.len(),
    ensures
        r == all_addr_chars(s@.subrange(from as int, to as int)),
{
    let mut i: usize = from;
    while i < to
        invariant
            from <= i <= to <= s@.len(),
            forall|j: int| from <= j < i ==> is_addr_char(#[trigger] s@[j]),
        decreases to - i,
    {
        if !is_addr_char_exec(s.get_char(i)) {
            assert(!is_addr_char(s@.subrange(from as int, to as int)[i - from]));
            return false;
        }
        i += 1;
    }
    assert(forall|j: int| 0 <= j < to - from ==> s@.subrange(from as int, to as int)[j] == s@[j
        + from]);
    true
}

// ---------------------------------------------------------------------------
// Round trip: formatted addresses parse back to themselves
// ---------------------------------------------------------------------------

/// Hexadecimal digits are letters and digits, not punctuation.
pub proof fn lemma_hex_digit_not_punct(c: char)
    requires
        is_hex_digit(c),
    ensures
        c != '.' && c != ':' && c != '[' && c != ']' && c != ',' && c != ';' && c != '{' && c
            != '}' && c != '=',
{
}

/// The canonical octet text parses back to the octet.
pub proof fn lemma_octet_roundtrip(o: u8)
    ensures
        spec_parse_octet(digits_of(o as nat, 10)) == Some(o),
        all_dec_digits(digits_of(o as nat, 10)),
        digits_of(o as nat, 10).len() >= 1,
{
    lemma_digits_of_val(o as nat, 10);
}

/// The canonical port text parses back to the port.
pub proof fn lemma_port_roundtrip(p: u16)
    ensures
        spec_parse_port(digits_of(p as nat, 10)) == Some(p),
        all_dec_digits(digits_of(p as nat, 10)),
        digits_of(p as nat, 10).len() >= 1,
{
    lemma_digits_of_val(p as nat, 10);
}

/// The canonical group text parses back to the group.
pub proof fn lemma_group_roundtrip(g: u16)
    ensures
        spec_parse_group(digits_of(g as nat, 16)) == Some(g),
        all_hex_digits(digits_of(g as nat, 16)),
        1 <= digits_of(g as nat, 16).len() <= 4,
{
    lemma_digits_of_val(g as nat, 16);
    assert(vstd::arithmetic::power::pow(16, 4) == 0x10000) by {
        reveal_with_fuel(vstd::arithmetic::power::pow, 5);
    }
    lemma_digits_of_len(g as nat, 16, 4);
}

/// The four octets of an IPv4 value reassemble to the value.
pub proof fn lemma_v4_value(ip: u32)
    ensures
        v4_value(v4_octet(ip, 0), v4_octet(ip, 1), v4_octet(ip, 2), v4_octet(ip, 3)) == ip,
{
    let i = ip as int;
    let a2 = i / 0x100;
    let a3 = i / 0x10000;
    let a4 = i / 0x1000000;
    vstd::arithmetic::div_mod::lemma_fundamental_div_mod(i, 0x100);
    vstd::arithmetic::div_mod::lemma_div_denominator(i, 0x100, 0x100);
    assert(a2 / 0x100 == a3);
    vstd::arithmetic::div_mod::lemma_fundamental_div_mod(a2, 0x100);
    vstd::arithmetic::div_mod::lemma_div_denominator(i, 0x10000, 0x100);
    assert(a3 / 0x100 == a4);
    vstd::arithmetic::div_mod::lemma_fundamental_div_mod(a3, 0x100);
    vstd::arithmetic::div_mod::lemma_multiply_divide_lt(i, 0x1000000, 0x100);
    assert(a4 < 0x100);
    vstd::arithmetic::div_mod::lemma_div_pos_is_pos(i, 0x1000000);
    vstd::arithmetic::div_mod::lemma_small_mod(a4 as nat, 0x100);
    assert(v4_octet(ip, 0) == a4);
    assert(v4_octet(ip, 1) == a3 % 0x100);
    assert(v4_octet(ip, 2) == a2 % 0x100);
    assert(v4_octet(ip, 3) == i % 0x100);
}

/// The canonical IPv4 text parses back to the value, and holds only decimal
/// digits and dots.
#[verifier::rlimit(30)]
pub proof fn lemma_v4_roundtrip(ip: u32)
    ensures
        spec_parse_v4(spec_fmt_v4(ip)) == Some(ip),
        spec_fmt_v4(ip).len() >= 1,
        is_dec_digit(spec_fmt_v4(ip)[0]),
        forall|j: int| 0 <= j < spec_fmt_v4(ip).len() ==> is_dec_digit(#[trigger] spec_fmt_v4(
            ip,
        )[j]) || spec_fmt_v4(ip)[j] == '.',
{
    let o0 = v4_octet(ip, 0);
    let o1 = v4_octet(ip, 1);
    let o2 = v4_octet(ip, 2);
    let o3 = v4_octet(ip, 3);
    let d0 = digits_of(o0 as nat, 10);
    let d1 = digits_of(o1 as nat, 10);
    let d2 = digits_of(o2 as nat, 10);
    let d3 = digits_of(o3 as nat, 10);
    lemma_octet_roundtrip(o0);
    lemma_octet_roundtrip(o1);
    lemma_octet_roundtrip(o2);
    lemma_octet_roundtrip(o3);
    let s = spec_fmt_v4(ip);
    assert(s =~= d0 + seq!['.'] + (d1 + seq!['.'] + (d2 + seq!['.'] + d3)));

    assert forall|j: int| 0 <= j < d0.len() implies s[j] != '.' by {
        assert(s[j] == d0[j]);
        lemma_hex_digit_not_punct(d0[j]);
    }
    assert(s[d0.len() as int] == '.');
    lemma_find_char_is(s, '.', d0.len() as int);
    assert(s.take(d0.len() as int) =~= d0);
    let r1 = s.skip(d0.len() as int + 1);
    assert(r1 =~= d1 + seq!['.'] + (d2 + seq!['.'] + d3));

    assert forall|j: int| 0 <= j < d1.len() implies r1[j] != '.' by {
        assert(r1[j] == d1[j]);
        lemma_hex_digit_not_punct(d1[j]);
    }
    assert(r1[d1.len() as int] == '.');
    lemma_find_char_is(r1, '.', d1.len() as int);
    assert(r1.take(d1.len() as int) =~= d1);
    let r2 = r1.skip(d1.len() as int + 1);
    assert(r2 =~= d2 + seq!['.'] + d3);

    assert forall|j: int| 0 <= j < d2.len() implies r2[j] != '.' by {
        assert(r2[j] == d2[j]);
        lemma_hex_digit_not_punct(d2[j]);
    }
    assert(r2[d2.len() as int] == '.');
    lemma_find_char_is(r2, '.', d2.len() as int);
    assert(r2.take(d2.len() as int) =~= d2);
    assert(r2.skip(d2.len() as int + 1) =~= d3);

    assert(spec_parse_v4(s) == Some(v4_value(o0, o1, o2, o3)));
    lemma_v4_value(ip);

    assert(is_dec_digit(s[0])) by {
        assert(s[0] == d0[0]);
    }
    assert forall|j: int| 0 <= j < s.len() implies is_dec_digit(#[trigger] s[j]) || s[j]
        == '.' by {
        let l0 = d0.len() as int;
        let l1 = d1.len() as int;
        let l2 = d2.len() as int;
        if j < l0 {
            assert(s[j] == d0[j]);
        } else if j == l0 {
        } else if j < l0 + 1 + l1 {
            assert(s[j] == d1[j - l0 - 1]);
        } else if j == l0 + 1 + l1 {
        } else if j < l0 + 1 + l1 + 1 + l2 {
            assert(s[j] == d2[j - l0 - 1 - l1 - 1]);
        } else if j == l0 + 1 + l1 + 1 + l2 {
        } else {
            assert(s[j] == d3[j - l0 - 1 - l1 - 1 - l2 - 1]);
        }
    }
}

/// Formatted groups split back into the same groups; the text is nonempty,
/// starts with a digit, holds only digits and single colons.
pub proof fn lemma_fmt_groups(gs: Seq<u16>)
    requires
        gs.len() >= 1,
    ensures
        fmt_groups(gs).len() >= 1,
        is_hex_digit(fmt_groups(gs)[0]),
        forall|j: int| 0 <= j < fmt_groups(gs).len() ==> is_hex_digit(#[trigger] fmt_groups(
            gs,
        )[j]) || fmt_groups(gs)[j] == ':',
        forall|j: int| 0 <= j < fmt_groups(gs).len() - 1 ==> !(#[trigger] fmt_groups(gs)[j] == ':'
            && fmt_groups(gs)[j + 1] == ':'),
        spec_split_groups(fmt_groups(gs)) == Some(gs),
    decreases gs.len(),
{
    let s = fmt_groups(gs);
    let d0 = digits_of(gs[0] as nat, 16);
    lemma_group_roundtrip(gs[0]);
    if gs.len() == 1 {
        assert(s =~= d0);
        assert forall|j: int| 0 <= j < s.len() implies s[j] != ':' by {
            lemma_hex_digit_not_punct(s[j]);
        }
        lemma_find_char_none(s, ':');
        assert(seq![gs[0]] =~= gs);
    } else {
        let rest = gs.drop_first();
        lemma_fmt_groups(rest);
        let r = fmt_groups(rest);
        assert(s =~= d0 + seq![':'] + r);
        let l0 = d0.len() as int;
        assert forall|j: int| 0 <= j < l0 implies s[j] != ':' by {
            assert(s[j] == d0[j]);
            lemma_hex_digit_not_punct(d0[j]);
        }
        assert(s[l0] == ':');
        lemma_find_char_is(s, ':', l0);
        assert(s.take(l0) =~= d0);
        assert(s.skip(l0 + 1) =~= r);
        assert(seq![gs[0]] + rest =~= gs);
        assert(spec_split_groups(s) == Some(gs));

        assert forall|j: int| 0 <= j < s.len() implies is_hex_digit(#[trigger] s[j]) || s[j]
            == ':' by {
            if j < l0 {
                assert(s[j] == d0[j]);
            } else if j > l0 {
                assert(s[j] == r[j - l0 - 1]);
            }
        }
        assert forall|j: int| 0 <= j < s.len() - 1 implies !(#[trigger] s[j] == ':' && s[j + 1]
            == ':') by {
            if j < l0 {
                assert(s[j] == d0[j]);
                lemma_hex_digit_not_punct(d0[j]);
            } else if j == l0 {
                assert(s[j + 1] == r[0]);
                lemma_hex_digit_not_punct(r[0]);
            } else {
                assert(s[j] == r[j - l0 - 1]);
                assert(s[j + 1] == r[j - l0]);
            }
        }
    }
}

/// The first `k` groups of an IPv6 value reassemble to the value shifted
/// right past the remaining groups.
proof fn lemma_groups_val_prefix(ip: u128, k: int)
    requires
        1 <= k <= 8,
    ensures
        groups_val(v6_groups(ip).take(k)) == ip as int / group_divisor(k - 1) as int,
    decreases k,
{
    let gs = v6_groups(ip);
    let i = ip as int;
    if k == 1 {
        assert(gs.take(1).drop_last() =~= Seq::<u16>::empty());
        assert(gs.take(1).last() == gs[0]);
        let gd = group_divisor(0) as int;
        let y = i / gd;
        vstd::arithmetic::div_mod::lemma_multiply_divide_lt(i, gd, 0x10000);
        vstd::arithmetic::div_mod::lemma_div_pos_is_pos(i, gd);
        assert(0 <= y < 0x10000);
        vstd::arithmetic::div_mod::lemma_small_mod(y as nat, 0x10000);
        assert(gs[0] == v6_group(ip, 0));
        assert(gs[0] as int == y % 0x10000);
        assert(gs[0] as int == y);
        assert(groups_val(gs.take(1)) == groups_val(Seq::<u16>::empty()) * 0x10000 + gs[0]);
        assert(groups_val(Seq::<u16>::empty()) == 0);
        assert(groups_val(gs.take(1)) == y);
    } else {
        lemma_groups_val_prefix(ip, k - 1);
        assert(gs.take(k).drop_last() =~= gs.take(k - 1));
        assert(gs.take(k).last() == gs[k - 1]);
        let gd = group_divisor(k - 1) as int;
        let y = i / gd;
        assert(group_divisor(k - 2) as int == gd * 0x10000);
        vstd::arithmetic::div_mod::lemma_div_denominator(i, gd, 0x10000);
        assert(y / 0x10000 == i / (gd * 0x10000));
        assert(y / 0x10000 == i / group_divisor(k - 2) as int);
        vstd::arithmetic::div_mod::lemma_div_pos_is_pos(i, gd);
        vstd::arithmetic::div_mod::lemma_mod_division_less_than_divisor(y, 0x10000);
        assert(0 <= y % 0x10000 < 0x10000);
        assert(gs[k - 1] == v6_group(ip, k - 1));
        assert(gs[k - 1] as int == y % 0x10000);
        vstd::arithmetic::div_mod::lemma_fundamental_div_mod(y, 0x10000);
        assert(y == 0x10000 * (y / 0x10000) + y % 0x10000);
        assert(groups_val(gs.take(k)) == groups_val(gs.take(k - 1)) * 0x10000 + gs[k - 1]);
        assert(groups_val(gs.take(k)) == (i / group_divisor(k - 2) as int) * 0x10000 + y
            % 0x10000);
        assert(groups_val(gs.take(k)) == y);
    }
}

/// The eight groups of an IPv6 value reassemble to the value.
pub proof fn lemma_v6_groups_val(ip: u128)
    ensures
        groups_val(v6_groups(ip)) == ip,
{
    lemma_groups_val_prefix(ip, 8);
    assert(v6_groups(ip).take(8) =~= v6_groups(ip));
    vstd::arithmetic::div_mod::lemma_div_basics(ip as int);
}

/// The canonical IPv6 text parses back to the value, and holds only
/// hexadecimal digits and colons, starting with a digit.
pub proof fn lemma_v6_roundtrip(ip: u128)
    ensures
        spec_parse_v6(spec_fmt_v6(ip)) == Some(ip),
        spec_fmt_v6(ip).len() >= 1,
        is_hex_digit(spec_fmt_v6(ip)[0]),
        forall|j: int| 0 <= j < spec_fmt_v6(ip).len() ==> is_hex_digit(#[trigger] spec_fmt_v6(
            ip,
        )[j]) || spec_fmt_v6(ip)[j] == ':',
{
    let gs = v6_groups(ip);
    assert(gs.len() == 8);
    lemma_fmt_groups(gs);
    let s = spec_fmt_v6(ip);
    lemma_find_dcolon_none(s);
    lemma_v6_groups_val(ip);
}

/// The canonical socket-address text parses back to the address; every
/// character of it is an address character.
#[verifier::rlimit(30)]
pub proof fn lemma_sockaddr_roundtrip(a: SockAddr)
    ensures
        spec_parse_sockaddr(spec_fmt_sockaddr(a)) == Some(a),
        spec_fmt_sockaddr(a).len() >= 1,
        all_addr_chars(spec_fmt_sockaddr(a)),
{
    let s = spec_fmt_sockaddr(a);
    let pd = digits_of(a.port as nat, 10);
    lemma_port_roundtrip(a.port);
    match a.ip {
        IpRepr::V4(v) => {
            lemma_v4_roundtrip(v);
            let f = spec_fmt_v4(v);
            let lf = f.len() as int;
            assert(s =~= f + seq![':'] + pd);
            assert(s[0] == f[0]);
            assert(s[0] != '[') by {
                lemma_hex_digit_not_punct(s[0]);
            }
            assert forall|j: int| 0 <= j < lf implies s[j] != ':' by {
                assert(s[j] == f[j]);
                if is_dec_digit(f[j]) {
                    lemma_hex_digit_not_punct(f[j]);
                }
            }
            assert(s[lf] == ':');
            lemma_find_char_is(s, ':', lf);
            assert(s.take(lf) =~= f);
            assert(s.skip(lf + 1) =~= pd);
            assert(spec_parse_sockaddr(s) == Some(a));
            assert forall|j: int| 0 <= j < s.len() implies is_addr_char(#[trigger] s[j]) by {
                if j < lf {
                    assert(s[j] == f[j]);
                } else if j > lf {
                    assert(s[j] == pd[j - lf - 1]);
                }
            }
        }
        IpRepr::V6(v) => {
            lemma_v6_roundtrip(v);
            let f = spec_fmt_v6(v);
            let lf = f.len() as int;
            assert(s =~= seq!['['] + f + seq![']'] + seq![':'] + pd);
            assert(s[0] == '[');
            assert forall|j: int| 0 <= j < 1 + lf implies s[j] != ']' by {
                if j >= 1 {
                    assert(s[j] == f[j - 1]);
                    if is_hex_digit(f[j - 1]) {
                        lemma_hex_digit_not_punct(f[j - 1]);
                    }
                }
            }
            assert(s[1 + lf] == ']');
            lemma_find_char_is(s, ']', 1 + lf);
            assert(s[1 + lf + 1] == ':');
            assert(s.subrange(1, 1 + lf) =~= f);
            assert(s.skip(1 + lf + 2) =~= pd);
            assert(spec_parse_sockaddr(s) == Some(a));
            assert forall|j: int| 0 <= j < s.len() implies is_addr_char(#[trigger] s[j]) by {
                if 1 <= j < 1 + lf {
                    assert(s[j] == f[j - 1]);
                } else if j > 2 + lf {
                    assert(s[j] == pd[j - lf - 3]);
                }
            }
        }
    }
}

/// Parses socket-address text: `v4:port`, or `[v6]:port`.
pub open spec fn spec_parse_sockaddr(s: Seq<char>) -> Option<SockAddr> {
    if s.len() == 0 {
        None
    } else if s[0] == '[' {
        match find_char(s, ']') {
            None => None,
            Some(j) => if j + 1 < s.len() && s[j + 1] == ':' {
                match (spec_parse_v6(s.subrange(1, j)), spec_parse_port(s.skip(j + 2))) {
                    (Some(ip), Some(p)) => Some(SockAddr { ip: IpRepr::V6(ip), port: p }),
                    _ => None,
                }
            } else {
                None
            },
        }
    } else {
        match find_char(s, ':') {
            None => None,
            Some(j) => match (spec_parse_v4(s.take(j)), spec_parse_port(s.skip(j + 1))) {
                (Some(ip), Some(p)) => Some(SockAddr { ip: IpRepr::V4(ip), port: p }),
                _ => None,
            },
        }
    }
}

// ---------------------------------------------------------------------------
// Executable parsing
// ---------------------------------------------------------------------------

/// Parses a whole string slice as an IPv4 octet.
pub fn parse_octet(s: &str) -> (r: Option<u8>)
    ensures
        r == spec_parse_octet(s@),
{
    let len = s.unicode_len();
    if len == 0 {
        return None;
    }
    if len > 1 && s.get_char(0) == '0' {
        return None;
    }
    proof {
        assert(s@.subrange(0, len as int) =~= s@);
    }
    match parse_dec_u128(s, 0, len) {
        Some(v) => {
            proof {
                assert(spec_parse_dec_u128(s@) == Some(v));
                assert(s@.len() > 0 && all_dec_digits(s@));
                crate::text::lemma_seq_val_nonneg(s@, 10);
                assert(seq_val(s@, 10) == v as int);
            }
            if v <= 255 {
                Some(v as u8)
            } else {
                None
            }
        }
        None => {
            proof {
                if s@.len() > 0 && all_dec_digits(s@) && seq_val(s@, 10) <= 255 {
                    assert(spec_parse_dec_u128(s@) is Some);
                }
            }
            None
        }
    }
}

/// Parses a whole string slice as a port number.
pub fn parse_port(s: &str) -> (r: Option<u16>)
    ensures
        r == spec_parse_port(s@),
{
    let len = s.unicode_len();
    if len == 0 {
        return None;
    }
    if len > 1 && s.get_char(0) == '0' {
        return None;
    }
    proof {
        assert(s@.subrange(0, len as int) =~= s@);
    }
    match parse_dec_u128(s, 0, len) {
        Some(v) => {
            proof {
                assert(spec_parse_dec_u128(s@) == Some(v));
                assert(s@.len() > 0 && all_dec_digits(s@));
                crate::text::lemma_seq_val_nonneg(s@, 10);
                assert(seq_val(s@, 10) == v as int);
            }
            if v <= 65535 {
                Some(v as u16)
            } else {
                None
            }
        }
        None => {
            proof {
                if s@.len() > 0 && all_dec_digits(s@) && seq_val(s@, 10) <= 65535 {
                    assert(spec_parse_dec_u128(s@) is Some);
                }
            }
            None
        }
    }
}

/// Parses a whole string slice as an IPv6 group.
pub fn parse_group(s: &str) -> (r: Option<u16>)
    ensures
        r == spec_parse_group(s@),
{
    let len = s.unicode_len();
    if len < 1 || len > 4 {
        return None;
    }
    proof {
        assert(s@.subrange(0, len as int) =~= s@);
    }
    if !check_all_hex_digits(s, 0, len) {
        return None;
    }
    proof {
        assert(vstd::arithmetic::power::pow(16, 0) == 1 && vstd::arithmetic::power::pow(16, 1)
            == 16 && vstd::arithmetic::power::pow(16, 2) == 256 && vstd::arithmetic::power::pow(
            16,
            3,
        ) == 4096) by {
            reveal_with_fuel(vstd::arithmetic::power::pow, 5);
        }
    }
    let mut acc: u16 = 0;
    let mut i: usize = 0;
    while i < len
        invariant
            i <= len,
            1 <= len <= 4,
            len == s@.len(),
            all_hex_digits(s@),
            acc == seq_val(s@.take(i as int), 16),
            vstd::arithmetic::power::pow(16, 0) == 1,
            vstd::arithmetic::power::pow(16, 1) == 16,
            vstd::arithmetic::power::pow(16, 2) == 256,
            vstd::arithmetic::power::pow(16, 3) == 4096,
        decreases len - i,
    {
        let c = s.get_char(i);
        assert(is_hex_digit(c));
        let v = digit_value(c);
        proof {
            assert(all_hex_digits(s@.take(i as int))) by {
                assert(forall|j: int| 0 <= j < i ==> s@.take(i as int)[j] == s@[j]);
            }
            lemma_seq_val_bound(s@.take(i as int), 16);
            assert(acc <= 4095);
            assert(s@.take(i as int + 1).drop_last() =~= s@.take(i as int));
            assert(s@.take(i as int + 1).last() == c);
            lemma_digit_val_char(c);
        }
        acc = acc * 16 + v as u16;
        i += 1;
    }
    proof {
        assert(s@.take(len as int) =~= s@);
        lemma_seq_val_bound(s@, 16);
        assert(vstd::arithmetic::power::pow(16, 4) == 0x10000) by {
            reveal_with_fuel(vstd::arithmetic::power::pow, 5);
        }
        assert(vstd::arithmetic::power::pow(16, s@.len()) <= 0x10000) by {
            if s@.len() < 4 {
                vstd::arithmetic::power::lemma_pow_increases(16, s@.len(), 4);
            }
        }
    }
    Some(acc)
}

/// Parses a whole string slice as dotted-quad IPv4 text.
pub fn parse_v4(s: &str) -> (r: Option<u32>)
    ensures
        r == spec_parse_v4(s@),
{
    let len = s.unicode_len();
    let i1 = match find_char_in(s, 0, '.') {
        Some(i) => i,
        None => {
            proof {
                lemma_find_char_none(s@, '.');
            }
            return None;
        }
    };
    proof {
        lemma_find_char_is(s@, '.', i1 as int);
    }
    let head1 = s.substring_char(0, i1);
    assert(head1@ =~= s@.take(i1 as int));
    let o0 = match parse_octet(head1) {
        Some(o) => o,
        None => {
            return None;
        }
    };
    let r1 = s.substring_char(i1 + 1, len);
    proof {
        assert(r1@ =~= s@.skip(i1 as int + 1));
    }
    let len1 = r1.unicode_len();
    let i2 = match find_char_in(r1, 0, '.') {
        Some(i) => i,
        None => {
            proof {
                lemma_find_char_none(r1@, '.');
            }
            return None;
        }
    };
    proof {
        lemma_find_char_is(r1@, '.', i2 as int);
    }
    let head2 = r1.substring_char(0, i2);
    assert(head2@ =~= r1@.take(i2 as int));
    let o1 = match parse_octet(head2) {
        Some(o) => o,
        None => {
            return None;
        }
    };
    let r2 = r1.substring_char(i2 + 1, len1);
    proof {
        assert(r2@ =~= r1@.skip(i2 as int + 1));
    }
    let len2 = r2.unicode_len();
    let i3 = match find_char_in(r2, 0, '.') {
        Some(i) => i,
        None => {
            proof {
                lemma_find_char_none(r2@, '.');
            }
            return None;
        }
    };
    let head3 = r2.substring_char(0, i3);
    let tail3 = r2.substring_char(i3 + 1, len2);
    proof {
        lemma_find_char_is(r2@, '.', i3 as int);
        assert(head3@ =~= r2@.take(i3 as int));
        assert(tail3@ =~= r2@.skip(i3 as int + 1));
    }
    let o2 = match parse_octet(head3) {
        Some(o) => o,
        None => {
            return None;
        }
    };
    let o3 = match parse_octet(tail3) {
        Some(o) => o,
        None => {
            return None;
        }
    };
    Some(o0 as u32 * 0x1000000 + o1 as u32 * 0x10000 + o2 as u32 * 0x100 + o3 as u32)
}

/// Finds the first `::` in a string slice.
pub fn find_dcolon_in(s: &str) -> (r: Option<usize>)
    ensures
        match r {
            Some(i) => find_dcolon(s@) == Some(i as int),
            None => find_dcolon(s@) == None::<int>,
        },
{
    let len = s.unicode_len();
    if len < 2 {
        proof {
            lemma_find_dcolon(s@);
            if let Some(k) = find_dcolon(s@) {
                assert(false);
            }
        }
        return None;
    }
    let mut i: usize = 0;
    while i + 1 < len
        invariant
            len == s@.len(),
            len >= 2,
            i <= len - 1,
            forall|j: int| 0 <= j < i ==> !(#[trigger] s@[j] == ':' && s@[j + 1] == ':'),
        decreases len - i,
    {
        if s.get_char(i) == ':' && s.get_char(i + 1) == ':' {
            proof {
                lemma_find_dcolon_is(s@, i as int);
            }
            return Some(i);
        }
        i += 1;
    }
    proof {
        lemma_find_dcolon_none(s@);
    }
    None
}

/// Splits a string slice into its colon-separated groups.
pub fn split_groups(s: &str) -> (r: Option<Vec<u16>>)
    ensures
        match r {
            Some(v) => spec_split_groups(s@) == Some(v@),
            None => spec_split_groups(s@) is None,
        },
    decreases s@.len(),
{
    let len = s.unicode_len();
    match find_char_in(s, 0, ':') {
        None => {
            proof {
                lemma_find_char_none(s@, ':');
            }
            match parse_group(s) {
                Some(g) => {
                    let mut v: Vec<u16> = Vec::new();
                    v.push(g);
                    proof {
                        assert(v@ =~= seq![g]);
                    }
                    Some(v)
                }
                None => None,
            }
        }
        Some(i) => {
            proof {
                lemma_find_char_is(s@, ':', i as int);
            }
            let head = s.substring_char(0, i);
            assert(head@ =~= s@.take(i as int));
            let g = match parse_group(head) {
                Some(g) => g,
                None => {
                    return None;
                }
            };
            let rest = s.substring_char(i + 1, len);
            proof {
                assert(rest@ =~= s@.skip(i as int + 1));
            }
            match split_groups(rest) {
                Some(mut v) => {
                    let ghost tail = v@;
                    v.insert(0, g);
                    proof {
                        assert(v@ =~= seq![g] + tail);
                    }
                    Some(v)
                }
                None => None,
            }
        }
    }
}

/// A group sequence's value is nonnegative and below `2^16` to the power of
/// its length.
proof fn lemma_groups_val_bound(gs: Seq<u16>)
    ensures
        0 <= groups_val(gs) < vstd::arithmetic::power::pow(0x10000, gs.len()),
    decreases gs.len(),
{
    if gs.len() == 0 {
        assert(vstd::arithmetic::power::pow(0x10000, 0) == 1) by {
            reveal_with_fuel(vstd::arithmetic::power::pow, 1);
        }
    } else {
        let t = gs.drop_last();
        lemma_groups_val_bound(t);
        let q = vstd::arithmetic::power::pow(0x10000, t.len());
        assert(vstd::arithmetic::power::pow(0x10000, gs.len()) == 0x10000 * q) by {
            reveal(vstd::arithmetic::power::pow);
        }
        assert(groups_val(t) * 0x10000 + gs.last() < 0x10000 * q) by (nonlinear_arith)
            requires
                0 <= groups_val(t) < q,
                gs.last() < 0x10000,
        ;
        assert(groups_val(t) * 0x10000 >= 0) by (nonlinear_arith)
            requires
                groups_val(t) >= 0,
        ;
    }
}

/// Computes the 128-bit value of exactly eight groups.
pub fn groups_to_value(v: &Vec<u16>) -> (r: u128)
    requires
        v@.len() == 8,
    ensures
        r as int == groups_val(v@),
{
    proof {
        assert(vstd::arithmetic::power::pow(0x10000, 0) == 1 && vstd::arithmetic::power::pow(
            0x10000,
            1,
        ) == 0x1_0000 && vstd::arithmetic::power::pow(0x10000, 2) == 0x1_0000_0000
            && vstd::arithmetic::power::pow(0x10000, 3) == 0x1_0000_0000_0000
            && vstd::arithmetic::power::pow(0x10000, 4) == 0x1_0000_0000_0000_0000
            && vstd::arithmetic::power::pow(0x10000, 5) == 0x1_0000_0000_0000_0000_0000
            && vstd::arithmetic::power::pow(0x10000, 6) == 0x1_0000_0000_0000_0000_0000_0000
            && vstd::arithmetic::power::pow(0x10000, 7)
            == 0x1_0000_0000_0000_0000_0000_0000_0000) by {
            reveal_with_fuel(vstd::arithmetic::power::pow, 8);
        }
    }
    let mut acc: u128 = 0;
    let mut i: usize = 0;
    while i < 8
        invariant
            i <= 8,
            v@.len() == 8,
            acc as int == groups_val(v@.take(i as int)),
            vstd::arithmetic::power::pow(0x10000, 7) == 0x1_0000_0000_0000_0000_0000_0000_0000,
            forall|k: nat| k < 7 ==> #[trigger] vstd::arithmetic::power::pow(0x10000, k)
                <= 0x1_0000_0000_0000_0000_0000_0000,
        decreases 8 - i,
    {
        let g = v[i];
        proof {
            lemma_groups_val_bound(v@.take(i as int));
            if i as int <= 6 {
                assert(vstd::arithmetic::power::pow(0x10000, i as nat)
                    <= 0x1_0000_0000_0000_0000_0000_0000);
            }
            assert(acc <= 0x1_0000_0000_0000_0000_0000_0000_0000 - 1);
            assert(v@.take(i as int + 1).drop_last() =~= v@.take(i as int));
            assert(v@.take(i as int + 1).last() == v@[i as int]);
        }
        acc = acc * 0x10000 + g as u128;
        i += 1;
    }
    proof {
        assert(v@.take(8) =~= v@);
    }
    acc
}

/// Parses a whole string slice as IPv6 text.
pub fn parse_v6(s: &str) -> (r: Option<u128>)
    ensures
        r == spec_parse_v6(s@),
{
    let len = s.unicode_len();
    match find_dcolon_in(s) {
        None => match split_groups(s) {
            Some(v) => if v.len() == 8 {
                proof {
                    lemma_groups_val_bound(v@);
                }
                Some(groups_to_value(&v))
            } else {
                None
            },
            None => None,
        },
        Some(i) => {
            proof {
                lemma_find_dcolon(s@);
            }
            let left = s.substring_char(0, i);
            let right = s.substring_char(i + 2, len);
            proof {
                assert(left@ =~= s@.take(i as int));
                assert(right@ =~= s@.skip(i as int + 2));
            }
            let lv: Vec<u16> = if left.unicode_len() == 0 {
                Vec::new()
            } else {
                match split_groups(left) {
                    Some(v) => v,
                    None => {
                        return None;
                    }
                }
            };
            let rv: Vec<u16> = if right.unicode_len() == 0 {
                Vec::new()
            } else {
                match split_groups(right) {
                    Some(v) => v,
                    None => {
                        return None;
                    }
                }
            };
            proof {
                if left@.len() == 0 {
                    assert(lv@ =~= Seq::<u16>::empty());
                }
                if right@.len() == 0 {
                    assert(rv@ =~= Seq::<u16>::empty());
                }
            }
            if lv.len() <= 7 && rv.len() <= 7 - lv.len() {
                let mut all = lv;
                let ghost lseq = all@;
                let zeros: usize = 8 - all.len() - rv.len();
                let mut z: usize = 0;
                while z < zeros
                    invariant
                        z <= zeros,
                        all@ =~= lseq + zero_groups(z as int),
                    decreases zeros - z,
                {
                    all.push(0u16);
                    proof {
                        assert(lseq + zero_groups(z as int) + seq![0u16] =~= lseq + zero_groups(
                            z as int + 1,
                        ));
                    }
                    z += 1;
                }
                let mut j: usize = 0;
                while j < rv.len()
                    invariant
                        j <= rv@.len(),
                        all@ =~= lseq + zero_groups(zeros as int) + rv@.take(j as int),
                    decreases rv@.len() - j,
                {
                    let ghost before = all@;
                    all.push(rv[j]);
                    proof {
                        assert(before.push(rv@[j as int]) =~= lseq + zero_groups(zeros as int)
                            + rv@.take(j as int + 1));
                    }
                    j += 1;
                }
                proof {
                    assert(rv@.take(rv@.len() as int) =~= rv@);
                    assert(all@ =~= lseq + zero_groups(zeros as int) + rv@);
                    lemma_groups_val_bound(all@);
                }
                Some(groups_to_value(&all))
            } else {
                None
            }
        }
    }
}

// ---------------------------------------------------------------------------
// Executable formatting
// ---------------------------------------------------------------------------

/// Appending a group to a joined group text adds a separating colon and the
/// group's digits.
proof fn lemma_fmt_groups_snoc(gs: Seq<u16>, g: u16)
    ensures
        gs.len() == 0 ==> fmt_groups(gs.push(g)) == digits_of(g as nat, 16),
        gs.len() > 0 ==> fmt_groups(gs.push(g)) == fmt_groups(gs) + seq![':'] + digits_of(
            g as nat,
            16,
        ),
    decreases gs.len(),
{
    let p = gs.push(g);
    if gs.len() == 0 {
        assert(p.len() == 1);
        assert(p[0] == g);
    } else if gs.len() == 1 {
        assert(p.len() == 2);
        assert(p[0] == gs[0]);
        assert(p.drop_first() =~= seq![g]);
        assert(fmt_groups(seq![g]) == digits_of(g as nat, 16));
        assert(fmt_groups(gs) == digits_of(gs[0] as nat, 16));
        assert(fmt_groups(p) =~= fmt_groups(gs) + seq![':'] + digits_of(g as nat, 16));
    } else {
        assert(p.drop_first() =~= gs.drop_first().push(g));
        lemma_fmt_groups_snoc(gs.drop_first(), g);
        assert(p[0] == gs[0]);
        assert(fmt_groups(p) =~= fmt_groups(gs) + seq![':'] + digits_of(g as nat, 16));
    }
}

/// Appends the dotted-quad text of an IPv4 value.
fn append_v4(out: &mut String, ip: u32)
    ensures
        final(out)@ == old(out)@ + spec_fmt_v4(ip),
{
    let o0 = ((ip / 0x1000000) % 0x100) as u8;
    let o1 = ((ip / 0x10000) % 0x100) as u8;
    let o2 = ((ip / 0x100) % 0x100) as u8;
    let o3 = (ip % 0x100) as u8;
    append_dec_u128(out, o0 as u128);
    push_char(out, '.');
    append_dec_u128(out, o1 as u128);
    push_char(out, '.');
    append_dec_u128(out, o2 as u128);
    push_char(out, '.');
    append_dec_u128(out, o3 as u128);
    proof {
        assert(o0 == v4_octet(ip, 0));
        assert(o1 == v4_octet(ip, 1));
        assert(o2 == v4_octet(ip, 2));
        assert(o3 == v4_octet(ip, 3));
        assert(final(out)@ =~= old(out)@ + spec_fmt_v4(ip));
    }
}

/// Appends the full eight-group text of an IPv6 value.
fn append_v6(out: &mut String, ip: u128)
    ensures
        final(out)@ == old(out)@ + spec_fmt_v6(ip),
{
    let ghost gs = v6_groups(ip);
    let ghost base = out@;
    let mut div: u128 = 0x1_0000_0000_0000_0000_0000_0000_0000;
    let mut k: usize = 0;
    while k < 8
        invariant
            k <= 8,
            k < 8 ==> div == group_divisor(k as int),
            out@ == base + fmt_groups(gs.take(k as int)),
            gs == v6_groups(ip),
        decreases 8 - k,
    {
        if k > 0 {
            push_char(out, ':');
        }
        let g = ((ip / div) % 0x10000) as u16;
        proof {
            assert(g == v6_group(ip, k as int));
            assert(gs[k as int] == g);
        }
        append_hex_u16(out, g);
        proof {
            assert(gs.take(k as int + 1) =~= gs.take(k as int).push(g));
            lemma_fmt_groups_snoc(gs.take(k as int), g);
            if k == 0 {
                assert(out@ =~= base + fmt_groups(gs.take(k as int + 1)));
            } else {
                assert(out@ =~= base + fmt_groups(gs.take(k as int + 1)));
            }
        }
        if k < 7 {
            div = div / 0x10000;
            proof {
                assert(div == group_divisor(k as int + 1));
            }
        }
        k += 1;
    }
    proof {
        assert(gs.take(8) =~= gs);
    }
}

/// Appends the canonical text of a socket address.
pub fn append_sockaddr(out: &mut String, a: &SockAddr)
    ensures
        final(out)@ == old(out)@ + spec_fmt_sockaddr(*a),
{
    let ghost base = out@;
    match a.ip {
        IpRepr::V4(v) => {
            append_v4(out, v);
            push_char(out, ':');
            append_dec_u128(out, a.port as u128);
            proof {
                assert(out@ =~= base + spec_fmt_sockaddr(*a));
            }
        }
        IpRepr::V6(v) => {
            push_char(out, '[');
            append_v6(out, v);
            push_char(out, ']');
            push_char(out, ':');
            append_dec_u128(out, a.port as u128);
            proof {
                assert(out@ =~= base + spec_fmt_sockaddr(*a));
            }
        }
    }
}

/// The canonical text of a socket address.
pub fn format_sockaddr(a: &SockAddr) -> (r: String)
    ensures
        r@ == spec_fmt_sockaddr(*a),
{
    let mut out = String::new();
    append_sockaddr(&mut out, a);
    proof {
        assert(out@ =~= spec_fmt_sockaddr(*a));
    }
    out
}

/// Parses a whole string slice as a socket address.
pub fn parse_sockaddr(s: &str) -> (r: Option<SockAddr>)
    ensures
        r == spec_parse_sockaddr(s@),
{
    let len = s.unicode_len();
    if len == 0 {
        return None;
    }
    if s.get_char(0) == '[' {
        match find_char_in(s, 0, ']') {
            None => {
                proof {
                    lemma_find_char_none(s@, ']');
                }
                None
            }
            Some(j) => {
                proof {
                    lemma_find_char_is(s@, ']', j as int);
                }
                if j + 1 < len && s.get_char(j + 1) == ':' {
                    assert(j >= 1) by {
                        assert(s@[0] == '[');
                    }
                    let ipstr = s.substring_char(1, j);
                    let portstr = s.substring_char(j + 2, len);
                    proof {
                        assert(ipstr@ =~= s@.subrange(1, j as int));
                        assert(portstr@ =~= s@.skip(j as int + 2));
                    }
                    let ip = match parse_v6(ipstr) {
                        Some(ip) => ip,
                        None => {
                            return None;
                        }
                    };
                    let p = match parse_port(portstr) {
                        Some(p) => p,
                        None => {
                            return None;
                        }
                    };
                    Some(SockAddr { ip: IpRepr::V6(ip), port: p })
                } else {
                    None
                }
            }
        }
    } else {
        match find_char_in(s, 0, ':') {
            None => {
                proof {
                    lemma_find_char_none(s@, ':');
                }
                None
            }
            Some(j) => {
                let ipstr = s.substring_char(0, j);
                let portstr = s.substring_char(j + 1, len);
                proof {
                    lemma_find_char_is(s@, ':', j as int);
                    assert(ipstr@ =~= s@.take(j as int));
                    assert(portstr@ =~= s@.skip(j as int + 1));
                }
                let ip = match parse_v4(ipstr) {
                    Some(ip) => ip,
                    None => {
                        return None;
                    }
                };
                let p = match parse_port(portstr) {
                    Some(p) => p,
                    None => {
                        return None;
                    }
                };
                Some(SockAddr { ip: IpRepr::V4(ip), port: p })
            }
        }
    }
}

} // verus!
