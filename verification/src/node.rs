//! Chord nodes and their identifiers.
//!
//! A node is a value: a 128-bit identifier and a public socket address. The
//! identifier is the MD5 digest of the address bytes (the IP octets followed
//! by the two big-endian port bytes), read as a big-endian 128-bit integer;
//! that integer is the node's position on the ring.

use vstd::prelude::*;

use crate::addr::{v4_octet, IpRepr, SockAddr};
use crate::ring::{spec_strictly_between, strictly_between};
use crate::text::{all_hex_digits, check_all_hex_digits, spec_hex_bytes, spec_hex_decode};
use crate::text::{lemma_hex_bytes_props, lemma_hex_decode_len};

verus! {

// ---------------------------------------------------------------------------
// Big-endian 16-byte integers
// ---------------------------------------------------------------------------

/// The place value of byte `k` (from the most significant, `0 <= k < 16`) of
/// a 128-bit integer.
pub open spec fn byte_divisor(k: int) -> u128 {
    if k == 0 {
        0x100_0000_0000_0000_0000_0000_0000_0000
    } else if k == 1 {
        0x1_0000_0000_0000_0000_0000_0000_0000
    } else if k == 2 {
        0x100_0000_0000_0000_0000_0000_0000
    } else if k == 3 {
        0x1_0000_0000_0000_0000_0000_0000
    } else if k == 4 {
        0x100_0000_0000_0000_0000_0000
    } else if k == 5 {
        0x1_0000_0000_0000_0000_0000
    } else if k == 6 {
        0x100_0000_0000_0000_0000
    } else if k == 7 {
        0x1_0000_0000_0000_0000
    } else if k == 8 {
        0x100_0000_0000_0000
    } else if k == 9 {
        0x1_0000_0000_0000
    } else if k == 10 {
        0x100_0000_0000
    } else if k == 11 {
        0x1_0000_0000
    } else if k == 12 {
        0x100_0000
    } else if k == 13 {
        0x1_0000
    } else if k == 14 {
        0x100
    } else {
        1
    }
}

/// Byte `k` of a 128-bit integer, most significant first.
pub open spec fn u128_byte(x: u128, k: int) -> u8 {
    ((x / byte_divisor(k)) % 0x100) as u8
}

/// The sixteen big-endian bytes of a 128-bit integer.
pub open spec fn spec_u128_be_bytes(x: u128) -> Seq<u8> {
    Seq::new(16, |k: int| u128_byte(x, k))
}

/// The integer value of a byte string read big-endian.
pub open spec fn spec_be_val(bs: Seq<u8>) -> int
    decreases bs.len(),
{
    if bs.len() == 0 {
        0
    } else {
        spec_be_val(bs.drop_last()) * 0x100 + bs.last()
    }
}

/// A byte string's value is nonnegative and below `256` to the power of its
/// length.
pub proof fn lemma_be_val_bound(bs: Seq<u8>)
    ensures
        0 <= spec_be_val(bs) < vstd::arithmetic::power::pow(0x100, bs.len()),
    decreases bs.len(),
{
    if bs.len() == 0 {
        assert(vstd::arithmetic::power::pow(0x100, 0) == 1) by {
            reveal_with_fuel(vstd::arithmetic::power::pow, 1);
        }
    } else {
        let t = bs.drop_last();
        lemma_be_val_bound(t);
        let q = vstd::arithmetic::power::pow(0x100, t.len());
        assert(vstd::arithmetic::power::pow(0x100, bs.len()) == 0x100 * q) by {
            reveal(vstd::arithmetic::power::pow);
        }
        assert(spec_be_val(t) * 0x100 + bs.last() < 0x100 * q) by (nonlinear_arith)
            requires
                0 <= spec_be_val(t) < q,
                bs.last() < 0x100,
        ;
        assert(spec_be_val(t) * 0x100 >= 0) by (nonlinear_arith)
            requires
                spec_be_val(t) >= 0,
        ;
    }
}

/// The first `k` big-endian bytes of an integer reassemble to the integer
/// shifted right past the remaining bytes.
proof fn lemma_be_val_prefix(x: u128, k: int)
    requires
        1 <= k <= 16,
    ensures
        spec_be_val(spec_u128_be_bytes(x).take(k)) == x as int / byte_divisor(k - 1) as int,
    decreases k,
{
    let bs = spec_u128_be_bytes(x);
    let i = x as int;
    if k == 1 {
        assert(bs.take(1).drop_last() =~= Seq::<u8>::empty());
        assert(bs.take(1).last() == bs[0]);
        let gd = byte_divisor(0) as int;
        let y = i / gd;
        vstd::arithmetic::div_mod::lemma_multiply_divide_lt(i, gd, 0x100);
        vstd::arithmetic::div_mod::lemma_div_pos_is_pos(i, gd);
        assert(0 <= y < 0x100);
        vstd::arithmetic::div_mod::lemma_small_mod(y as nat, 0x100);
        assert(bs[0] == u128_byte(x, 0));
        assert(bs[0] as int == y);
        assert(spec_be_val(bs.take(1)) == spec_be_val(Seq::<u8>::empty()) * 0x100 + bs[0]);
        assert(spec_be_val(bs.take(1)) == y);
    } else {
        lemma_be_val_prefix(x, k - 1);
        assert(bs.take(k).drop_last() =~= bs.take(k - 1));
        assert(bs.take(k).last() == bs[k - 1]);
        let gd = byte_divisor(k - 1) as int;
        let y = i / gd;
        assert(byte_divisor(k - 2) as int == gd * 0x100);
        vstd::arithmetic::div_mod::lemma_div_denominator(i, gd, 0x100);
        assert(y / 0x100 == i / byte_divisor(k - 2) as int);
        vstd::arithmetic::div_mod::lemma_div_pos_is_pos(i, gd);
        vstd::arithmetic::div_mod::lemma_mod_division_less_than_divisor(y, 0x100);
        assert(bs[k - 1] == u128_byte(x, k - 1));
        assert(bs[k - 1] as int == y % 0x100);
        vstd::arithmetic::div_mod::lemma_fundamental_div_mod(y, 0x100);
        assert(spec_be_val(bs.take(k)) == spec_be_val(bs.take(k - 1)) * 0x100 + bs[k - 1]);
        assert(spec_be_val(bs.take(k)) == y);
    }
}

/// The sixteen big-endian bytes of an integer reassemble to the integer.
pub proof fn lemma_be_bytes_val(x: u128)
    ensures
        spec_be_val(spec_u128_be_bytes(x)) == x,
{
    lemma_be_val_prefix(x, 16);
    assert(spec_u128_be_bytes(x).take(16) =~= spec_u128_be_bytes(x));
    vstd::arithmetic::div_mod::lemma_div_basics(x as int);
}

/// The sixteen big-endian bytes of a 128-bit integer.
pub fn u128_to_be_bytes(x: u128) -> (r: Vec<u8>)
    ensures
        r@ == spec_u128_be_bytes(x),
{
    let ghost bs = spec_u128_be_bytes(x);
    let mut r: Vec<u8> = Vec::new();
    let mut div: u128 = 0x100_0000_0000_0000_0000_0000_0000_0000;
    let mut k: usize = 0;
    while k < 16
        invariant
            k <= 16,
            k < 16 ==> div == byte_divisor(k as int),
            r@ =~= bs.take(k as int),
            bs == spec_u128_be_bytes(x),
        decreases 16 - k,
    {
        let b = ((x / div) % 0x100) as u8;
        proof {
            assert(b == u128_byte(x, k as int));
            assert(bs[k as int] == b);
            assert(bs.take(k as int + 1) =~= bs.take(k as int).push(b));
        }
        r.push(b);
        if k < 15 {
            div = div / 0x100;
            proof {
                assert(div == byte_divisor(k as int + 1));
            }
        }
        k += 1;
    }
    proof {
        assert(bs.take(16) =~= bs);
    }
    r
}

/// The big-endian value of exactly sixteen bytes.
pub fn be_bytes_to_u128(b: &Vec<u8>) -> (r: u128)
    requires
        b@.len() == 16,
    ensures
        r as int == spec_be_val(b@),
{
    proof {
        assert(vstd::arithmetic::power::pow(0x100, 15)
            == 0x100_0000_0000_0000_0000_0000_0000_0000) by {
            reveal_with_fuel(vstd::arithmetic::power::pow, 16);
        }
    }
    let mut acc: u128 = 0;
    let mut i: usize = 0;
    while i < 16
        invariant
            i <= 16,
            b@.len() == 16,
            acc as int == spec_be_val(b@.take(i as int)),
            vstd::arithmetic::power::pow(0x100, 15)
                == 0x100_0000_0000_0000_0000_0000_0000_0000,
        decreases 16 - i,
    {
        let y = b[i];
        proof {
            lemma_be_val_bound(b@.take(i as int));
            if (i as int) < 15 {
                vstd::arithmetic::power::lemma_pow_increases(0x100, i as nat, 15);
            }
            assert(acc < 0x100_0000_0000_0000_0000_0000_0000_0000);
            assert(b@.take(i as int + 1).drop_last() =~= b@.take(i as int));
            assert(b@.take(i as int + 1).last() == b@[i as int]);
        }
        acc = acc * 0x100 + y as u128;
        i += 1;
    }
    proof {
        assert(b@.take(16) =~= b@);
    }
    acc
}

// ---------------------------------------------------------------------------
// Trusted items: the MD5 digest and hexadecimal codec of outside crates
// ---------------------------------------------------------------------------

/// The MD5 digest of a byte string: a function of the input bytes alone,
/// named here and never written out.
pub uninterp spec fn md5_of(input: Seq<u8>) -> Seq<u8>;

/// Relies on `md5::compute`: the returned digest is sixteen bytes and
/// depends on the input bytes alone.
#[verifier::external_body]
fn md5_digest(input: &Vec<u8>) -> (r: Vec<u8>)
    ensures
        r@ == md5_of(input@),
        r@.len() == 16,
{
    md5::compute(input.as_slice()).0.to_vec()
}

/// Relies on `hex::encode`: each input byte becomes two lowercase
/// hexadecimal digits, in order.
#[verifier::external_body]
fn hex_encode_bytes(b: &Vec<u8>) -> (r: String)
    ensures
        r@ == spec_hex_bytes(b@),
{
    hex::encode(b.as_slice())
}

/// Relies on `hex::decode`: an even-length string of hexadecimal digits
/// decodes to one byte per digit pair.
#[verifier::external_body]
fn hex_decode_digits(s: &str) -> (r: Vec<u8>)
    requires
        s@.len() % 2 == 0,
        all_hex_digits(s@),
    ensures
        r@ == spec_hex_decode(s@),
{
    hex::decode(s).unwrap()
}

// ---------------------------------------------------------------------------
// Identifiers
// ---------------------------------------------------------------------------

/// The bytes hashed to derive a node's identifier: the IP octets followed by
/// the two big-endian port bytes.
pub open spec fn spec_addr_bytes(a: SockAddr) -> Seq<u8> {
    let ip_bytes = match a.ip {
        IpRepr::V4(v) => seq![v4_octet(v, 0), v4_octet(v, 1), v4_octet(v, 2), v4_octet(v, 3)],
        IpRepr::V6(v) => spec_u128_be_bytes(v),
    };
    ip_bytes + seq![(a.port / 0x100) as u8, (a.port % 0x100) as u8]
}

/// The identifier derived from a public address: the big-endian value of
/// the MD5 digest of the address bytes.
pub open spec fn spec_node_id(a: SockAddr) -> u128 {
    spec_be_val(md5_of(spec_addr_bytes(a))) as u128
}

/// The bytes hashed to derive a node's identifier.
pub fn addr_bytes(a: &SockAddr) -> (r: Vec<u8>)
    ensures
        r@ == spec_addr_bytes(*a),
{
    let mut r: Vec<u8> = match a.ip {
        IpRepr::V4(v) => {
            let mut r: Vec<u8> = Vec::new();
            r.push(((v / 0x1000000) % 0x100) as u8);
            r.push(((v / 0x10000) % 0x100) as u8);
            r.push(((v / 0x100) % 0x100) as u8);
            r.push((v % 0x100) as u8);
            proof {
                assert(r@ =~= seq![
                    v4_octet(v, 0),
                    v4_octet(v, 1),
                    v4_octet(v, 2),
                    v4_octet(v, 3),
                ]);
            }
            r
        }
        IpRepr::V6(v) => u128_to_be_bytes(v),
    };
    r.push((a.port / 0x100) as u8);
    r.push((a.port % 0x100) as u8);
    proof {
        assert(r@ =~= spec_addr_bytes(*a));
    }
    r
}

/// The lowercase hexadecimal text of a 128-bit identifier: 32 digits.
pub open spec fn spec_hex_id(id: u128) -> Seq<char> {
    spec_hex_bytes(spec_u128_be_bytes(id))
}

/// The identifier held in hexadecimal text: the big-endian value of its
/// decoded bytes.
pub open spec fn spec_hex_decode_id(s: Seq<char>) -> u128 {
    spec_be_val(spec_hex_decode(s)) as u128
}

/// The identifier whose hexadecimal text is `s`: exactly 32 lowercase
/// hexadecimal digits.
pub open spec fn spec_parse_hex_id(s: Seq<char>) -> Option<u128> {
    if s.len() == 32 && all_hex_digits(s) {
        Some(spec_hex_decode_id(s))
    } else {
        None
    }
}

/// Parses 32 lowercase hexadecimal digits as an identifier.
pub fn parse_hex_id(s: &str) -> (r: Option<u128>)
    ensures
        r == spec_parse_hex_id(s@),
{
    let len = s.unicode_len();
    if len != 32 {
        return None;
    }
    proof {
        assert(s@.subrange(0, 32) =~= s@);
    }
    if !check_all_hex_digits(s, 0, len) {
        return None;
    }
    let bytes = hex_decode_digits(s);
    proof {
        lemma_hex_decode_len(s@);
    }
    Some(be_bytes_to_u128(&bytes))
}

/// Appends the 32 hexadecimal digits of an identifier.
pub fn append_hex_id(out: &mut String, id: u128)
    ensures
        final(out)@ == old(out)@ + spec_hex_id(id),
{
    let bytes = u128_to_be_bytes(id);
    let h = hex_encode_bytes(&bytes);
    out.append(h.as_str());
}

/// The canonical identifier text parses back to the identifier, is 32
/// digits long, and holds only lowercase hexadecimal digits.
pub proof fn lemma_hex_id_roundtrip(id: u128)
    ensures
        spec_parse_hex_id(spec_hex_id(id)) == Some(id),
        spec_hex_id(id).len() == 32,
        all_hex_digits(spec_hex_id(id)),
{
    lemma_hex_bytes_props(spec_u128_be_bytes(id));
    lemma_be_bytes_val(id);
}

// ---------------------------------------------------------------------------
// Nodes
// ---------------------------------------------------------------------------

/// A Chord node: its 128-bit identifier and the public socket address where
/// it can be reached.
#[derive(Clone, Copy, PartialEq, Eq, Structural, Debug)]
pub struct Node {
    pub id: u128,
    pub public_addr: SockAddr,
}

impl Node {
    /// A locally created node carries the identifier derived from its own
    /// public address.
    pub open spec fn wf(self) -> bool {
        self.id == spec_node_id(self.public_addr)
    }

    /// Creates a node for the given public address, deriving its identifier
    /// from the address.
    pub fn new(public_addr: SockAddr) -> (r: Node)
        ensures
            r.public_addr == public_addr,
            r.wf(),
    {
        Node { id: Self::generate_identifier(public_addr), public_addr }
    }

    /// Creates a node from an already-known identifier and public address,
    /// as read off the wire.
    pub fn create_from(id: u128, public_addr: SockAddr) -> (r: Node)
        ensures
            r.id == id,
            r.public_addr == public_addr,
    {
        Node { id, public_addr }
    }

    /// Derives the identifier for a public address: the MD5 digest of the
    /// address bytes read as a big-endian 128-bit integer.
    pub fn generate_identifier(public_addr: SockAddr) -> (r: u128)
        ensures
            r == spec_node_id(public_addr),
    {
        let bytes = addr_bytes(&public_addr);
        let digest = md5_digest(&bytes);
        let r = be_bytes_to_u128(&digest);
        proof {
            lemma_be_val_bound(digest@);
            assert(vstd::arithmetic::power::pow(0x100, 16) == u128::MAX as int + 1) by {
                reveal_with_fuel(vstd::arithmetic::power::pow, 17);
            }
        }
        r
    }

    /// The node's position on the ring: the big-endian value of its sixteen
    /// identifier bytes.
    pub fn get_ring_position(&self) -> (r: u128)
        ensures
            r == self.id,
            r as int == spec_be_val(spec_u128_be_bytes(self.id)),
    {
        proof {
            lemma_be_bytes_val(self.id);
        }
        self.id
    }

    /// The node's identifier as 32 lowercase hexadecimal digits.
    pub fn get_hash_id(&self) -> (r: String)
        ensures
            r@ == spec_hex_id(self.id),
    {
        let mut out = String::new();
        append_hex_id(&mut out, self.id);
        proof {
            assert(out@ =~= spec_hex_id(self.id));
        }
        out
    }

    /// The node's public socket address.
    pub fn get_public_addr(&self) -> (r: SockAddr)
        ensures
            r == self.public_addr,
    {
        self.public_addr
    }

    /// Whether this node's ring position lies strictly between `start` and
    /// `end`, walking the ring clockwise.
    pub fn is_position_strictly_between(&self, start: u128, end: u128) -> (r: bool)
        ensures
            r == spec_strictly_between(self.id, start, end),
    {
        strictly_between(self.id, start, end)
    }
}

/// Identifiers are deterministic: two well-formed nodes with the same
/// public address carry the same identifier.
pub proof fn lemma_identifier_deterministic(n1: Node, n2: Node)
    requires
        n1.wf(),
        n2.wf(),
        n1.public_addr == n2.public_addr,
    ensures
        n1.id == n2.id,
{
}

} // verus!
