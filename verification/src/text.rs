//! Text utilities for the wire protocol: decimal and hexadecimal digit
//! strings, their numeric values, canonical formatting, and searching and
//! splitting of character sequences.
//!
//! Everything is specified against `Seq<char>` views; executable code works
//! on `&str` and `String`.

use vstd::prelude::*;

verus! {

// ---------------------------------------------------------------------------
// Character classes and single-digit values
// ---------------------------------------------------------------------------

/// A decimal digit `0` to `9`.
pub open spec fn is_dec_digit(c: char) -> bool {
    '0' as u32 <= c as u32 && c as u32 <= '9' as u32
}

/// A lowercase hexadecimal digit `0` to `9` or `a` to `f`.
pub open spec fn is_hex_digit(c: char) -> bool {
    is_dec_digit(c) || ('a' as u32 <= c as u32 && c as u32 <= 'f' as u32)
}

/// Numeric value of a digit character; meaningful only on hexadecimal digits.
pub open spec fn digit_val(c: char) -> int {
    if is_dec_digit(c) {
        c as u32 - '0' as u32
    } else {
        c as u32 - 'a' as u32 + 10
    }
}

/// The lowercase digit character for a value below sixteen.
pub open spec fn digit_char(d: int) -> char {
    if d == 0 { '0' }
    else if d == 1 { '1' }
    else if d == 2 { '2' }
    else if d == 3 { '3' }
    else if d == 4 { '4' }
    else if d == 5 { '5' }
    else if d == 6 { '6' }
    else if d == 7 { '7' }
    else if d == 8 { '8' }
    else if d == 9 { '9' }
    else if d == 10 { 'a' }
    else if d == 11 { 'b' }
    else if d == 12 { 'c' }
    else if d == 13 { 'd' }
    else if d == 14 { 'e' }
    else { 'f' }
}

/// `digit_char` and `digit_val` are mutually inverse below sixteen.
pub proof fn lemma_digit_char_val(d: int)
    requires
        0 <= d < 16,
    ensures
        is_hex_digit(digit_char(d)),
        digit_val(digit_char(d)) == d,
        d < 10 ==> is_dec_digit(digit_char(d)),
        d >= 10 ==> !is_dec_digit(digit_char(d)),
{
}

/// Decimal digits map injectively back to their values.
pub proof fn lemma_digit_val_char(c: char)
    requires
        is_hex_digit(c),
    ensures
        0 <= digit_val(c) < 16,
        digit_char(digit_val(c)) == c,
        is_dec_digit(c) ==> digit_val(c) < 10,
{
}

/// Executable digit character table.
pub fn digit_to_char(d: u8) -> (c: char)
    requires
        d < 16,
    ensures
        c == digit_char(d as int),
{
    if d == 0 { '0' }
    else if d == 1 { '1' }
    else if d == 2 { '2' }
    else if d == 3 { '3' }
    else if d == 4 { '4' }
    else if d == 5 { '5' }
    else if d == 6 { '6' }
    else if d == 7 { '7' }
    else if d == 8 { '8' }
    else if d == 9 { '9' }
    else if d == 10 { 'a' }
    else if d == 11 { 'b' }
    else if d == 12 { 'c' }
    else if d == 13 { 'd' }
    else if d == 14 { 'e' }
    else { 'f' }
}

/// Decides membership in the decimal digit class.
pub fn is_dec_digit_char(c: char) -> (r: bool)
    ensures
        r == is_dec_digit(c),
{
    '0' <= c && c <= '9'
}

/// Decides membership in the lowercase hexadecimal digit class.
pub fn is_hex_digit_char(c: char) -> (r: bool)
    ensures
        r == is_hex_digit(c),
{
    ('0' <= c && c <= '9') || ('a' <= c && c <= 'f')
}

/// Executable value of a hexadecimal digit.
pub fn digit_value(c: char) -> (d: u8)
    requires
        is_hex_digit(c),
    ensures
        d == digit_val(c),
        d < 16,
{
    if '0' <= c && c <= '9' {
        (c as u32 - '0' as u32) as u8
    } else {
        (c as u32 - 'a' as u32 + 10) as u8
    }
}

// ---------------------------------------------------------------------------
// Digit strings and their values
// ---------------------------------------------------------------------------

/// Every character is a decimal digit.
pub open spec fn all_dec_digits(s: Seq<char>) -> bool {
    forall|i: int| 0 <= i < s.len() ==> is_dec_digit(#[trigger] s[i])
}

/// Every character is a lowercase hexadecimal digit.
pub open spec fn all_hex_digits(s: Seq<char>) -> bool {
    forall|i: int| 0 <= i < s.len() ==> is_hex_digit(#[trigger] s[i])
}

/// Value of a digit string in the given base, most significant digit first.
pub open spec fn seq_val(s: Seq<char>, base: int) -> int
    decreases s.len(),
{
    if s.len() == 0 {
        0
    } else {
        seq_val(s.drop_last(), base) * base + digit_val(s.last())
    }
}

/// The canonical digit string of a number in the given base: no leading
/// zeros, a single `0` for zero.
pub open spec fn digits_of(n: nat, base: int) -> Seq<char>
    decreases n,
    via digits_of_decreases
{
    if n < base || base <= 1 {
        seq![digit_char(n as int)]
    } else {
        digits_of((n as int / base) as nat, base).push(digit_char(n as int % base))
    }
}

#[via_fn]
proof fn digits_of_decreases(n: nat, base: int) {
    if !(n < base || base <= 1) {
        vstd::arithmetic::div_mod::lemma_div_decreases(n as int, base);
        vstd::arithmetic::div_mod::lemma_div_pos_is_pos(n as int, base);
    }
}

/// A digit string is in the right class and evaluates back to the number it
/// was formatted from: the formatting round trip.
pub proof fn lemma_digits_of_val(n: nat, base: int)
    requires
        base == 10 || base == 16,
    ensures
        digits_of(n, base).len() >= 1,
        seq_val(digits_of(n, base), base) == n,
        base == 10 ==> all_dec_digits(digits_of(n, base)),
        base == 16 ==> all_hex_digits(digits_of(n, base)),
        n > 0 ==> digits_of(n, base)[0] != '0',
        n == 0 ==> digits_of(n, base) =~= seq!['0'],
    decreases n,
{
    if n < base {
        lemma_digit_char_val(n as int);
        let s = digits_of(n, base);
        assert(s =~= seq![digit_char(n as int)]);
        assert(s.drop_last() =~= Seq::<char>::empty());
        assert(s.last() == digit_char(n as int));
        assert(seq_val(s, base) == seq_val(s.drop_last(), base) * base + digit_val(s.last()));
        assert(seq_val(s.drop_last(), base) == 0);
    } else {
        let q = (n as int / base) as nat;
        vstd::arithmetic::div_mod::lemma_div_pos_is_pos(n as int, base);
        assert(q < n) by {
            vstd::arithmetic::div_mod::lemma_div_decreases(n as int, base);
        }
        lemma_digits_of_val(q, base);
        lemma_digit_char_val(n as int % base);
        let s = digits_of(n, base);
        assert(s =~= digits_of(q, base).push(digit_char(n as int % base)));
        assert(s.drop_last() =~= digits_of(q, base));
        assert(s.last() == digit_char(n as int % base));
        assert(seq_val(s, base) == q * base + n as int % base);
        assert(q * base + n as int % base == n) by {
            vstd::arithmetic::div_mod::lemma_fundamental_div_mod(n as int, base);
        }
        assert forall|i: int| 0 <= i < s.len() implies is_hex_digit(#[trigger] s[i]) by {
            if i < s.len() - 1 {
                assert(s[i] == digits_of(q, base)[i]);
            }
        }
        if base == 10 {
            assert forall|i: int| 0 <= i < s.len() implies is_dec_digit(#[trigger] s[i]) by {
                if i < s.len() - 1 {
                    assert(s[i] == digits_of(q, base)[i]);
                }
            }
        }
        assert(s[0] == digits_of(q, base)[0]);
        assert(q > 0);
    }
}

/// The value of a digit string is nonnegative and below `base ^ length`.
pub proof fn lemma_seq_val_nonneg(s: Seq<char>, base: int)
    requires
        base >= 2,
        all_hex_digits(s),
        base == 16 || all_dec_digits(s),
    ensures
        seq_val(s, base) >= 0,
    decreases s.len(),
{
    if s.len() > 0 {
        assert(all_hex_digits(s.drop_last())) by {
            assert(forall|i: int| 0 <= i < s.len() - 1 ==> s.drop_last()[i] == s[i]);
        }
        assert(is_hex_digit(s.last()));
        lemma_digit_val_char(s.last());
        lemma_seq_val_nonneg(s.drop_last(), base);
        assert(seq_val(s.drop_last(), base) * base >= 0) by (nonlinear_arith)
            requires seq_val(s.drop_last(), base) >= 0, base >= 2;
    }
}

/// Extending a digit string on the right can only increase its value.
pub proof fn lemma_seq_val_prefix_le(s: Seq<char>, i: int, base: int)
    requires
        base == 10 || base == 16,
        0 <= i <= s.len(),
        base == 10 ==> all_dec_digits(s),
        base == 16 ==> all_hex_digits(s),
    ensures
        seq_val(s.take(i), base) <= seq_val(s, base),
    decreases s.len() - i,
{
    if i < s.len() {
        lemma_seq_val_prefix_le(s, i + 1, base);
        let t = s.take(i + 1);
        assert(t.drop_last() =~= s.take(i));
        assert(is_hex_digit(t.last())) by {
            assert(t.last() == s[i]);
        }
        lemma_digit_val_char(t.last());
        let v = seq_val(s.take(i), base);
        assert(all_hex_digits(s.take(i))) by {
            assert(forall|j: int| 0 <= j < i ==> s.take(i)[j] == s[j]);
        }
        if base == 10 {
            assert(all_dec_digits(s.take(i))) by {
                assert(forall|j: int| 0 <= j < i ==> s.take(i)[j] == s[j]);
            }
        }
        lemma_seq_val_nonneg(s.take(i), base);
        assert(v * base >= v) by (nonlinear_arith)
            requires v >= 0, base >= 2;
        assert(seq_val(t, base) == v * base + digit_val(t.last()));
        assert(seq_val(t, base) >= v);
    } else {
        assert(s.take(i) =~= s);
    }
}

/// The two lowercase hexadecimal digits of a byte.
pub open spec fn spec_hex_byte(b: u8) -> Seq<char> {
    seq![digit_char(b as int / 16), digit_char(b as int % 16)]
}

/// The lowercase hexadecimal text of a byte string: two digits per byte.
pub open spec fn spec_hex_bytes(bs: Seq<u8>) -> Seq<char>
    decreases bs.len(),
{
    if bs.len() == 0 {
        Seq::empty()
    } else {
        spec_hex_byte(bs[0]) + spec_hex_bytes(bs.drop_first())
    }
}

/// The bytes of a lowercase hexadecimal text, two digits per byte.
pub open spec fn spec_hex_decode(s: Seq<char>) -> Seq<u8>
    decreases s.len(),
{
    if s.len() < 2 {
        Seq::empty()
    } else {
        seq![(digit_val(s[0]) * 16 + digit_val(s[1])) as u8] + spec_hex_decode(s.skip(2))
    }
}

/// Hexadecimal encoding of bytes doubles the length, yields only lowercase
/// hexadecimal digits, and decodes back to the same bytes.
pub proof fn lemma_hex_bytes_props(bs: Seq<u8>)
    ensures
        spec_hex_bytes(bs).len() == 2 * bs.len(),
        all_hex_digits(spec_hex_bytes(bs)),
        spec_hex_decode(spec_hex_bytes(bs)) == bs,
    decreases bs.len(),
{
    if bs.len() == 0 {
        assert(spec_hex_decode(spec_hex_bytes(bs)) =~= bs);
    } else {
        let rest = bs.drop_first();
        lemma_hex_bytes_props(rest);
        let b = bs[0];
        let hi = b as int / 16;
        let lo = b as int % 16;
        lemma_digit_char_val(hi);
        lemma_digit_char_val(lo);
        let s = spec_hex_bytes(bs);
        assert(s =~= spec_hex_byte(b) + spec_hex_bytes(rest));
        assert(s[0] == digit_char(hi));
        assert(s[1] == digit_char(lo));
        assert(s.skip(2) =~= spec_hex_bytes(rest));
        assert(digit_val(s[0]) * 16 + digit_val(s[1]) == b) by {
            vstd::arithmetic::div_mod::lemma_fundamental_div_mod(b as int, 16);
        }
        assert(spec_hex_decode(s) =~= seq![b] + spec_hex_decode(spec_hex_bytes(rest)));
        assert(spec_hex_decode(s) =~= bs);
        assert forall|i: int| 0 <= i < s.len() implies is_hex_digit(#[trigger] s[i]) by {
            if i >= 2 {
                assert(s[i] == spec_hex_bytes(rest)[i - 2]);
            }
        }
    }
}

/// Hexadecimal decoding halves the length.
pub proof fn lemma_hex_decode_len(s: Seq<char>)
    ensures
        spec_hex_decode(s).len() == s.len() / 2,
    decreases s.len(),
{
    if s.len() >= 2 {
        lemma_hex_decode_len(s.skip(2));
    }
}

/// A digit string's value is below `base` to the power of its length.
pub proof fn lemma_seq_val_bound(s: Seq<char>, base: int)
    requires
        base == 10 || base == 16,
        base == 10 ==> all_dec_digits(s),
        base == 16 ==> all_hex_digits(s),
    ensures
        0 <= seq_val(s, base) < vstd::arithmetic::power::pow(base, s.len()),
    decreases s.len(),
{
    let p = vstd::arithmetic::power::pow(base, s.len());
    if s.len() == 0 {
        assert(p == 1) by {
            vstd::arithmetic::power::lemma_pow0(base);
        }
    } else {
        let t = s.drop_last();
        assert(forall|i: int| 0 <= i < t.len() ==> t[i] == s[i]);
        lemma_seq_val_bound(t, base);
        let q = vstd::arithmetic::power::pow(base, t.len());
        assert(p == base * q) by {
            reveal(vstd::arithmetic::power::pow);
        }
        assert(is_hex_digit(s.last()));
        lemma_digit_val_char(s.last());
        let d = digit_val(s.last());
        if base == 10 {
            assert(is_dec_digit(s.last()));
            assert(d < 10);
        }
        assert(seq_val(s, base) == seq_val(t, base) * base + d);
        assert(seq_val(t, base) * base + d < base * q) by (nonlinear_arith)
            requires
                0 <= seq_val(t, base) < q,
                0 <= d < base,
                base >= 2,
        ;
        assert(seq_val(t, base) * base >= 0) by (nonlinear_arith)
            requires
                seq_val(t, base) >= 0,
                base >= 2,
        ;
    }
}

/// A number below `base ^ k` has at most `k` canonical digits.
pub proof fn lemma_digits_of_len(n: nat, base: int, k: nat)
    requires
        base == 10 || base == 16,
        k >= 1,
        n < vstd::arithmetic::power::pow(base, k),
    ensures
        digits_of(n, base).len() <= k,
    decreases k,
{
    if n < base {
    } else {
        let q = (n as int / base) as nat;
        assert(k >= 2) by {
            vstd::arithmetic::power::lemma_pow1(base);
            if k == 1 {
                assert(vstd::arithmetic::power::pow(base, 1) == base);
            }
        }
        assert(q < vstd::arithmetic::power::pow(base, (k - 1) as nat)) by {
            let p1 = vstd::arithmetic::power::pow(base, (k - 1) as nat);
            assert(vstd::arithmetic::power::pow(base, k) == base * p1) by {
                reveal(vstd::arithmetic::power::pow);
            }
            vstd::arithmetic::power::lemma_pow_positive(base, (k - 1) as nat);
            assert(n as int / base < p1) by (nonlinear_arith)
                requires
                    n < base * p1,
                    base >= 2,
                    p1 >= 1,
                    n >= 0,
            ;
        }
        lemma_digits_of_len(q, base, (k - 1) as nat);
    }
}

// ---------------------------------------------------------------------------
// Searching and splitting
// ---------------------------------------------------------------------------

/// Index of the first occurrence of `c` in `s`, if any.
pub open spec fn find_char(s: Seq<char>, c: char) -> Option<int>
    decreases s.len(),
{
    if s.len() == 0 {
        None
    } else if s[0] == c {
        Some(0)
    } else {
        match find_char(s.drop_first(), c) {
            Some(i) => Some(i + 1),
            None => None,
        }
    }
}

/// `find_char` returns exactly the first occurrence.
pub proof fn lemma_find_char(s: Seq<char>, c: char)
    ensures
        match find_char(s, c) {
            Some(i) => 0 <= i < s.len() && s[i] == c && forall|j: int| 0 <= j < i ==> s[j] != c,
            None => forall|j: int| 0 <= j < s.len() ==> s[j] != c,
        },
    decreases s.len(),
{
    if s.len() > 0 && s[0] != c {
        let t = s.drop_first();
        lemma_find_char(t, c);
        assert(forall|j: int| 1 <= j < s.len() ==> s[j] == t[j - 1]);
        match find_char(t, c) {
            Some(i) => {
                assert(s[i + 1] == t[i]);
                assert forall|j: int| 0 <= j < i + 1 implies s[j] != c by {
                    if j > 0 {
                        assert(s[j] == t[j - 1]);
                    }
                }
            }
            None => {
                assert forall|j: int| 0 <= j < s.len() implies s[j] != c by {
                    if j > 0 {
                        assert(s[j] == t[j - 1]);
                    }
                }
            }
        }
    }
}

/// The first occurrence characterizes `find_char`: if `s[i]` is the first
/// `c`, then `find_char` returns `i`.
pub proof fn lemma_find_char_is(s: Seq<char>, c: char, i: int)
    requires
        0 <= i < s.len(),
        s[i] == c,
        forall|j: int| 0 <= j < i ==> s[j] != c,
    ensures
        find_char(s, c) == Some(i),
{
    lemma_find_char(s, c);
    match find_char(s, c) {
        Some(k) => {
            if k < i {
                assert(s[k] != c);
            }
            if k > i {
                assert(s[i] != c);
            }
        }
        None => {
            assert(s[i] != c);
        }
    }
}

/// When no occurrence exists, `find_char` says so.
pub proof fn lemma_find_char_none(s: Seq<char>, c: char)
    requires
        forall|j: int| 0 <= j < s.len() ==> s[j] != c,
    ensures
        find_char(s, c) == None::<int>,
{
    lemma_find_char(s, c);
    if let Some(k) = find_char(s, c) {
        assert(s[k] != c);
    }
}

/// The pieces of `s` between its commas, in order. A string without commas
/// is one piece; `k` commas give `k + 1` pieces.
pub open spec fn split_at_commas(s: Seq<char>) -> Seq<Seq<char>>
    decreases s.len(),
    via split_at_commas_decreases
{
    match find_char(s, ',') {
        None => seq![s],
        Some(i) => seq![s.take(i)] + split_at_commas(s.skip(i + 1)),
    }
}

#[via_fn]
proof fn split_at_commas_decreases(s: Seq<char>) {
    lemma_find_char(s, ',');
}

/// No character of `s` equals `c`.
pub open spec fn has_no_char(s: Seq<char>, c: char) -> bool {
    forall|j: int| 0 <= j < s.len() ==> s[j] != c
}

/// Splitting a comma-free piece gives that piece alone.
pub proof fn lemma_split_single(s: Seq<char>)
    requires
        has_no_char(s, ','),
    ensures
        split_at_commas(s) =~~= seq![s],
{
    lemma_find_char_none(s, ',');
}

/// Splitting `a + "," + b` peels off the comma-free `a`.
pub proof fn lemma_split_step(a: Seq<char>, b: Seq<char>)
    requires
        has_no_char(a, ','),
    ensures
        split_at_commas(a + seq![','] + b) =~~= seq![a] + split_at_commas(b),
{
    let s = a + seq![','] + b;
    assert(s[a.len() as int] == ',');
    assert(forall|j: int| 0 <= j < a.len() ==> s[j] == a[j] && s[j] != ',');
    lemma_find_char_is(s, ',', a.len() as int);
    assert(s.take(a.len() as int) =~= a);
    assert(s.skip(a.len() as int + 1) =~= b);
}

// ---------------------------------------------------------------------------
// Executable helpers
// ---------------------------------------------------------------------------

/// Whether `p` is a prefix of `s`.
pub open spec fn starts_with(s: Seq<char>, p: Seq<char>) -> bool {
    s.len() >= p.len() && s.take(p.len() as int) == p
}

/// Relies on `String::push`: appends one character to the string.
#[verifier::external_body]
pub(crate) fn push_char(s: &mut String, c: char)
    ensures
        final(s)@ == old(s)@.push(c),
{
    s.push(c);
}

/// Compares two string slices character by character.
pub fn str_eq(a: &str, b: &str) -> (r: bool)
    ensures
        r == (a@ == b@),
{
    let a_len = a.unicode_len();
    let b_len = b.unicode_len();
    if a_len != b_len {
        assert(a@ != b@);
        return false;
    }
    let mut i: usize = 0;
    while i < a_len
        invariant
            i <= a_len,
            a_len == a@.len(),
            a_len == b@.len(),
            forall|j: int| 0 <= j < i ==> a@[j] == b@[j],
        decreases a_len - i,
    {
        if a.get_char(i) != b.get_char(i) {
            return false;
        }
        i += 1;
    }
    proof {
        assert(a@ =~= b@);
    }
    true
}

/// Decides whether `p` is a prefix of `s`.
pub fn has_prefix(s: &str, p: &str) -> (r: bool)
    ensures
        r == starts_with(s@, p@),
{
    let sl = s.unicode_len();
    let pl = p.unicode_len();
    if sl < pl {
        return false;
    }
    let head = s.substring_char(0, pl);
    str_eq(head, p)
}

/// The first index at or after `from` where `c` occurs in `s`, as
/// `find_char` computes it on the tail of the view.
pub fn find_char_in(s: &str, from: usize, c: char) -> (r: Option<usize>)
    requires
        from <= s@.len(),
    ensures
        match r {
            Some(i) => from <= i < s@.len() && s@[i as int] == c && forall|j: int|
                from <= j < i ==> s@[j] != c,
            None => forall|j: int| from <= j < s@.len() ==> s@[j] != c,
        },
{
    let len = s.unicode_len();
    let mut i: usize = from;
    while i < len
        invariant
            from <= i <= len,
            len == s@.len(),
            forall|j: int| from <= j < i ==> s@[j] != c,
        decreases len - i,
    {
        if s.get_char(i) == c {
            return Some(i);
        }
        i += 1;
    }
    None
}

/// Whether every character of `s` in `[from, to)` is a decimal digit.
pub fn check_all_dec_digits(s: &str, from: usize, to: usize) -> (r: bool)
    requires
        from <= to <= s@.len(),
    ensures
        r == all_dec_digits(s@.subrange(from as int, to as int)),
{
    let mut i: usize = from;
    while i < to
        invariant
            from <= i <= to <= s@.len(),
            forall|j: int| from <= j < i ==> is_dec_digit(#[trigger] s@[j]),
        decreases to - i,
    {
        if !is_dec_digit_char(s.get_char(i)) {
            assert(!is_dec_digit(s@.subrange(from as int, to as int)[i - from]));
            return false;
        }
        i += 1;
    }
    assert(forall|j: int| 0 <= j < to - from ==> s@.subrange(from as int, to as int)[j]
        == s@[j + from]);
    true
}

/// Whether every character of `s` in `[from, to)` is a lowercase
/// hexadecimal digit.
pub fn check_all_hex_digits(s: &str, from: usize, to: usize) -> (r: bool)
    requires
        from <= to <= s@.len(),
    ensures
        r == all_hex_digits(s@.subrange(from as int, to as int)),
{
    let mut i: usize = from;
    while i < to
        invariant
            from <= i <= to <= s@.len(),
            forall|j: int| from <= j < i ==> is_hex_digit(#[trigger] s@[j]),
        decreases to - i,
    {
        if !is_hex_digit_char(s.get_char(i)) {
            assert(!is_hex_digit(s@.subrange(from as int, to as int)[i - from]));
            return false;
        }
        i += 1;
    }
    assert(forall|j: int| 0 <= j < to - from ==> s@.subrange(from as int, to as int)[j]
        == s@[j + from]);
    true
}

/// Exact meaning of decimal parsing into a `u128`: defined on nonempty
/// all-digit strings whose value fits; leading zeros are accepted.
pub open spec fn spec_parse_dec_u128(s: Seq<char>) -> Option<u128> {
    if s.len() > 0 && all_dec_digits(s) && seq_val(s, 10) <= u128::MAX {
        Some(seq_val(s, 10) as u128)
    } else {
        None
    }
}

/// Parses the characters of `s` in `[from, to)` as an unsigned decimal
/// number, rejecting empty input, non-digits and overflow.
pub fn parse_dec_u128(s: &str, from: usize, to: usize) -> (r: Option<u128>)
    requires
        from <= to <= s@.len(),
    ensures
        r == spec_parse_dec_u128(s@.subrange(from as int, to as int)),
{
    let ghost d = s@.subrange(from as int, to as int);
    if from == to {
        return None;
    }
    if !check_all_dec_digits(s, from, to) {
        return None;
    }
    let mut acc: u128 = 0;
    let mut i: usize = from;
    while i < to
        invariant
            from <= i <= to <= s@.len(),
            d == s@.subrange(from as int, to as int),
            all_dec_digits(d),
            acc == seq_val(d.take(i - from), 10),
        decreases to - i,
    {
        let c = s.get_char(i);
        assert(d[i - from] == c);
        assert(is_dec_digit(c));
        let v = digit_value(c);
        proof {
            lemma_digit_val_char(c);
            assert(d.take(i - from + 1).drop_last() =~= d.take(i - from));
            assert(d.take(i - from + 1).last() == c);
        }
        if acc > (u128::MAX - v as u128) / 10 {
            proof {
                assert(seq_val(d.take(i - from + 1), 10) == acc * 10 + v);
                assert(acc * 10 + v > u128::MAX) by (nonlinear_arith)
                    requires
                        acc > (u128::MAX - v as u128) / 10,
                        v <= 9,
                        acc <= u128::MAX,
                ;
                lemma_seq_val_prefix_le(d, i - from + 1, 10);
            }
            return None;
        }
        proof {
            assert(acc * 10 + v <= u128::MAX) by (nonlinear_arith)
                requires
                    acc <= (u128::MAX - v as u128) / 10,
                    v <= 9,
                    acc >= 0,
            ;
        }
        acc = acc * 10 + v as u128;
        i += 1;
    }
    proof {
        assert(d.take(to - from) =~= d);
    }
    Some(acc)
}

/// Appends the canonical digit string of `n` in base `base` to `out`.
fn append_radix(out: &mut String, n: u128, base: u128)
    requires
        base == 10 || base == 16,
    ensures
        final(out)@ == old(out)@ + digits_of(n as nat, base as int),
{
    let mut digits: Vec<char> = Vec::new();
    let mut m = n;
    loop
        invariant_except_break
            base == 10 || base == 16,
            digits_of(n as nat, base as int) == digits_of(m as nat, base as int)
                + digits@.reverse(),
        ensures
            digits@.reverse() == digits_of(n as nat, base as int),
        decreases m,
    {
        let d = (m % base) as u8;
        let ghost before = digits@;
        digits.push(digit_to_char(d));
        proof {
            assert(digits@.reverse() =~= seq![digit_char(d as int)] + before.reverse());
        }
        let prev = m;
        m = m / base;
        proof {
            if prev < base {
                assert(m == 0) by (nonlinear_arith)
                    requires m == prev / base, prev < base, base >= 2, prev >= 0;
                assert(digit_char(d as int) == digit_char(prev as int));
                assert(digits_of(prev as nat, base as int) =~= seq![digit_char(prev as int)]);
                assert(digits_of(n as nat, base as int) =~= digits@.reverse());
            } else {
                assert(m >= 1) by (nonlinear_arith)
                    requires m == prev / base, prev >= base, base >= 2;
                assert(m < prev) by {
                    vstd::arithmetic::div_mod::lemma_div_decreases(prev as int, base as int);
                }
                assert(digits_of(prev as nat, base as int) =~= digits_of(m as nat,
                    base as int).push(digit_char(prev as int % base as int)));
                assert(digits_of(m as nat, base as int).push(digit_char(d as int))
                    + before.reverse() =~= digits_of(m as nat, base as int)
                    + digits@.reverse());
            }
        }
        if m == 0 {
            break;
        }
    }
    let ghost target = digits_of(n as nat, base as int);
    let ghost start = out@;
    let total = digits.len();
    let mut i: usize = 0;
    while i < total
        invariant
            total == digits@.len(),
            digits@.reverse() == target,
            i <= total,
            out@ == start + target.take(i as int),
        decreases total - i,
    {
        let c = digits[total - 1 - i];
        proof {
            assert(target[i as int] == digits@[total - 1 - i]);
            assert(start + target.take(i as int + 1) =~= (start + target.take(i as int)).push(
                target[i as int]));
        }
        push_char(out, c);
        i += 1;
    }
    proof {
        assert(target.take(total as int) =~= target);
    }
}

/// Appends the canonical decimal digits of `n` to `out`.
pub fn append_dec_u128(out: &mut String, n: u128)
    ensures
        final(out)@ == old(out)@ + digits_of(n as nat, 10),
{
    append_radix(out, n, 10);
}

/// Appends the canonical lowercase hexadecimal digits of `n` to `out`.
pub fn append_hex_u16(out: &mut String, n: u16)
    ensures
        final(out)@ == old(out)@ + digits_of(n as nat, 16),
{
    append_radix(out, n as u128, 16);
}

} // verus!
