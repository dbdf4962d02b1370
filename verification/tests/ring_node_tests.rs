use chord_node::addr::{format_sockaddr, parse_sockaddr, IpRepr, SockAddr};
use chord_node::node::{parse_hex_id, Node};
use chord_node::ring::strictly_between;

#[test]
fn strictly_between_wrap_test() {
    // the wrap-around interval from 10 to 3 holds what follows 10 and what
    // precedes 3
    assert!(strictly_between(2, 10, 3));
    assert!(strictly_between(11, 10, 3));
    assert!(strictly_between(u128::MAX, 10, 3));
    // a position outside the wrapped interval
    assert!(!strictly_between(5, 10, 3));
    // the endpoint is not inside
    assert!(!strictly_between(3, 10, 3));
    // ordinary interval
    assert!(strictly_between(4, 3, 10));
    assert!(!strictly_between(10, 3, 10));
    assert!(!strictly_between(3, 3, 10));
}

#[test]
fn strictly_between_empty_interval_test() {
    // the interval from a point to itself holds nothing
    assert!(!strictly_between(7, 9, 9));
    assert!(!strictly_between(9, 9, 9));
    assert!(!strictly_between(0, 0, 0));
    assert!(!strictly_between(u128::MAX, u128::MAX, u128::MAX));
}

#[test]
fn identifier_deterministic_test() {
    let addr = parse_sockaddr("127.0.0.1:1450").unwrap();
    let n1 = Node::new(addr);
    let n2 = Node::new(addr);
    // two nodes with identical public addresses share an identifier
    assert_eq!(n1.get_ring_position(), n2.get_ring_position());
    assert_eq!(n1.get_hash_id(), n2.get_hash_id());
    assert_eq!(n1, n2);
    // the identifier text is 32 lowercase hexadecimal digits
    let hex_id = n1.get_hash_id();
    assert_eq!(hex_id.len(), 32);
    assert!(hex_id.chars().all(|c| c.is_ascii_hexdigit() && !c.is_ascii_uppercase()));
    // it decodes back to the ring position
    assert_eq!(parse_hex_id(&hex_id).unwrap(), n1.get_ring_position());
}

#[test]
fn ring_position_is_big_endian_id_test() {
    let addr = parse_sockaddr("10.0.0.1:80").unwrap();
    let low = Node::create_from(parse_hex_id("00000000000000000000000000000001").unwrap(), addr);
    assert_eq!(low.get_ring_position(), 1);
    let high = Node::create_from(parse_hex_id("ffffffffffffffffffffffffffffffff").unwrap(), addr);
    assert_eq!(high.get_ring_position(), u128::MAX);
    let mixed = Node::create_from(parse_hex_id("010000000000000000000000000000ff").unwrap(), addr);
    assert_eq!(mixed.get_ring_position(), (1u128 << 120) + 255);
}

#[test]
fn sockaddr_v4_round_trip_test() {
    let a = parse_sockaddr("17.5.7.3:1450").unwrap();
    assert_eq!(a, SockAddr { ip: IpRepr::V4(0x11050703), port: 1450 });
    assert_eq!(format_sockaddr(&a), "17.5.7.3:1450");
}

#[test]
fn sockaddr_v6_round_trip_test() {
    // leading zeros and full grouping are accepted on input
    let a = parse_sockaddr("[2001:0db8:85a3:0000:0000:8a2e:0370:7334]:8080").unwrap();
    // the serializer writes all eight groups without leading zeros
    assert_eq!(format_sockaddr(&a), "[2001:db8:85a3:0:0:8a2e:370:7334]:8080");
    assert_eq!(parse_sockaddr(&format_sockaddr(&a)).unwrap(), a);

    // a compressed run expands to zero groups
    let b = parse_sockaddr("[2001:db8::1]:4040").unwrap();
    assert_eq!(format_sockaddr(&b), "[2001:db8:0:0:0:0:0:1]:4040");
    assert_eq!(parse_sockaddr(&format_sockaddr(&b)).unwrap(), b);

    // the unspecified address is a lone compression
    let d = parse_sockaddr("[::]:1").unwrap();
    assert_eq!(d, SockAddr { ip: IpRepr::V6(0), port: 1 });
    assert_eq!(format_sockaddr(&d), "[0:0:0:0:0:0:0:0]:1");
}

#[test]
fn sockaddr_rejects_malformed_test() {
    assert!(parse_sockaddr("").is_none());
    assert!(parse_sockaddr("1.2.3.4").is_none());
    assert!(parse_sockaddr("1.2.3:80").is_none());
    assert!(parse_sockaddr("256.0.0.1:80").is_none());
    assert!(parse_sockaddr("01.2.3.4:80").is_none());
    assert!(parse_sockaddr("1.2.3.4:65536").is_none());
    assert!(parse_sockaddr("1.2.3.4:080").is_none());
    assert!(parse_sockaddr("[1::2::3]:80").is_none());
    assert!(parse_sockaddr("[1:2:3:4:5:6:7]:80").is_none());
    assert!(parse_sockaddr("[1:2:3:4:5:6:7:8:9]:80").is_none());
    assert!(parse_sockaddr("[12345::1]:80").is_none());
    assert!(parse_sockaddr("[2001:db8::1]80").is_none());
}

#[test]
fn hex_id_rejects_malformed_test() {
    // too short
    assert!(parse_hex_id("abcd").is_none());
    // uppercase digit
    assert!(parse_hex_id("FF000000000000000000000000000001").is_none());
    // a non-digit
    assert!(parse_hex_id("zz000000000000000000000000000001").is_none());
}
