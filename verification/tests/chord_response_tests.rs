use chord_node::addr::parse_sockaddr;
use chord_node::chord_protocol::{ChordResponse, ParseError};
use chord_node::node::{parse_hex_id, Node};

#[test]
fn successor_ipv4_response_parse_test() {
    let response = "SUCCESSOR=[cf4b19e32ce29fef04468ac9d2a6787d][17.5.7.3:1450];";

    let chord_response = ChordResponse::parse(response).unwrap();

    if let ChordResponse::Successor(node) = chord_response {
        assert_eq!(node.get_hash_id(), "cf4b19e32ce29fef04468ac9d2a6787d");
        assert_eq!(node.get_public_addr(), parse_sockaddr("17.5.7.3:1450").unwrap());
    } else {
        panic!("parsing error");
    }
}

#[test]
fn successor_ipv6_response_parse_test() {
    let response =
        "SUCCESSOR=[cf4b19e32ce29fef04468ac9d2a6787d][[2001:0db8:85a3:0000:0000:8a2e:0370:7334]:8080];";

    let chord_response = ChordResponse::parse(response).unwrap();

    if let ChordResponse::Successor(node) = chord_response {
        assert_eq!(node.get_hash_id(), "cf4b19e32ce29fef04468ac9d2a6787d");
        assert_eq!(
            node.get_public_addr(),
            parse_sockaddr("[2001:0db8:85a3:0000:0000:8a2e:0370:7334]:8080").unwrap()
        );
    } else {
        panic!("parsing error");
    }
}

#[test]
fn sucessor_list_response_parse_test() {
    let response = "SUCCESSOR_LIST={[6e4bfa7e2180a1cf55db0e38c12b9979][[2001:0db8:85a3:0000:0000:8a2e:0370:7334]:8080],[6e4bfa7e2180a1cf55db0e38c12b9979][192.168.42.120:2069],[b2c7f1a82d3452f0a8577f7d3b9e38f5][172.16.8.53:9876],[98e317b512a1391a9e0eabf8e3f1c6b4][[2001:db8::1]:4040],[98e317b512a1391a9e0eabf8e3f1c6b4][10.0.0.33:443]};";

    let chord_response = ChordResponse::parse(response).unwrap();

    if let ChordResponse::SuccessorList(successor_list) = chord_response {
        assert_eq!(
            successor_list[0].get_hash_id(),
            "6e4bfa7e2180a1cf55db0e38c12b9979"
        );
        assert_eq!(
            successor_list[0].get_public_addr(),
            parse_sockaddr("[2001:0db8:85a3:0000:0000:8a2e:0370:7334]:8080").unwrap()
        );

        assert_eq!(
            successor_list[2].get_hash_id(),
            "b2c7f1a82d3452f0a8577f7d3b9e38f5"
        );
        assert_eq!(
            successor_list[2].get_public_addr(),
            parse_sockaddr("172.16.8.53:9876").unwrap()
        );

        assert_eq!(
            successor_list[4].get_hash_id(),
            "98e317b512a1391a9e0eabf8e3f1c6b4"
        );
        assert_eq!(
            successor_list[4].get_public_addr(),
            parse_sockaddr("10.0.0.33:443").unwrap()
        );
    } else {
        panic!("parsing error");
    }
}

#[test]
fn predecessor_response_parse_test() {
    // PREDECESSOR with NONE value
    let response = "PREDECESSOR=NONE;";

    assert_eq!(
        ChordResponse::parse(response).unwrap(),
        ChordResponse::Predecessor(None)
    );

    // PREDECESSOR with NODE value
    let response =
        "PREDECESSOR=[cf4b19e32ce29fef04468ac9d2a6787d][[2001:0db8:85a3:0000:0000:8a2e:0370:7334]:8080];";

    let chord_response = ChordResponse::parse(response).unwrap();

    if let ChordResponse::Predecessor(Some(node)) = chord_response {
        assert_eq!(node.get_hash_id(), "cf4b19e32ce29fef04468ac9d2a6787d");
        assert_eq!(
            node.get_public_addr(),
            parse_sockaddr("[2001:0db8:85a3:0000:0000:8a2e:0370:7334]:8080").unwrap()
        );
    } else {
        panic!("parsing error");
    }
}

#[test]
fn active_response_parse_test() {
    let response = "ACTIVE;";

    assert_eq!(ChordResponse::Active, ChordResponse::parse(response).unwrap());
}

#[test]
fn error_response_parse_test() {
    let response = "ERROR=[Some error message ...];";

    let chord_response = ChordResponse::parse(response).unwrap();

    if let ChordResponse::Error(err) = chord_response {
        assert_eq!(err, "Some error message ...");
    } else {
        panic!("parsing error");
    }
}

fn node_from_hex(hex_id: &str, addr: &str) -> Node {
    Node::create_from(parse_hex_id(hex_id).unwrap(), parse_sockaddr(addr).unwrap())
}

#[test]
fn chord_response_to_protocol_text_test() {
    // SUCCESSOR LIST response abstraction
    // to text-based protocol
    let sucessor_list = vec![
        node_from_hex(
            "6e4bfa7e2180a1cf55db0e38c12b9979",
            "[2001:0db8:85a3:0000:0000:8a2e:0370:7334]:8080",
        ),
        node_from_hex("6e4bfa7e2180a1cf55db0e38c12b9979", "192.168.42.120:2069"),
        node_from_hex("b2c7f1a82d3452f0a8577f7d3b9e38f5", "172.16.8.53:9876"),
        node_from_hex("98e317b512a1391a9e0eabf8e3f1c6b4", "[2001:db8::1]:4040"),
        node_from_hex("98e317b512a1391a9e0eabf8e3f1c6b4", "10.0.0.33:443"),
    ];

    let chord_response = ChordResponse::parse(
        &ChordResponse::SuccessorList(sucessor_list.clone()).to_protocol_text(),
    )
    .unwrap();

    if let ChordResponse::SuccessorList(result_successor_list) = chord_response {
        assert_eq!(result_successor_list, sucessor_list);
    } else {
        panic!("parsing error");
    }

    // SUCCESSOR response abstraction
    // to text-based protocol
    let successor = node_from_hex("98e317b512a1391a9e0eabf8e3f1c6b4", "10.0.0.33:443");

    let chord_response =
        ChordResponse::parse(&ChordResponse::Successor(successor.clone()).to_protocol_text())
            .unwrap();

    if let ChordResponse::Successor(result_successor) = chord_response {
        assert_eq!(result_successor, successor);
    } else {
        panic!("parsing error");
    }

    // PREDECESSOR response abstraction
    // to text-based protocol
    assert_eq!(
        ChordResponse::parse(&ChordResponse::Predecessor(None).to_protocol_text()).unwrap(),
        ChordResponse::Predecessor(None)
    );

    let predecessor = node_from_hex("98e317b512a1391a9e0eabf8e3f1c6b4", "10.0.0.33:443");

    let chord_response = ChordResponse::parse(
        &ChordResponse::Predecessor(Some(predecessor.clone())).to_protocol_text(),
    )
    .unwrap();

    if let ChordResponse::Predecessor(Some(result_predecessor)) = chord_response {
        assert_eq!(result_predecessor, predecessor);
    } else {
        panic!("parsing error");
    }

    // ACTIVE response abstraction
    // to text-based protocol
    assert_eq!(ChordResponse::Active.to_protocol_text(), "ACTIVE;");

    // ERROR response abstraction
    // to text-based protocol
    let error_msg = String::from("some error ...");

    let chord_response =
        ChordResponse::parse(&ChordResponse::Error(error_msg.clone()).to_protocol_text()).unwrap();

    if let ChordResponse::Error(result_error_msg) = chord_response {
        assert_eq!(result_error_msg, error_msg);
    } else {
        panic!("parsing error");
    }
}

#[test]
fn response_invalid_socket_address_test() {
    // the shape fits but the octets overflow a byte
    let response = "SUCCESSOR=[cf4b19e32ce29fef04468ac9d2a6787d][999.777.3.4:80];";
    assert_eq!(
        ChordResponse::parse(response),
        Err(ParseError::InvalidSocketAddress)
    );
}

#[test]
fn parse_error_texts_test() {
    assert_eq!(
        ParseError::Protocol.request_text(),
        "invalid request (protocol error)"
    );
    assert_eq!(
        ParseError::InvalidSocketAddress.request_text(),
        "invalid request (invalid socket address)"
    );
    assert_eq!(
        ParseError::Protocol.response_text(),
        "invalid response (protocol error)"
    );
    assert_eq!(
        ParseError::InvalidSocketAddress.response_text(),
        "invalid response (invalid socket address)"
    );
}

#[test]
fn response_protocol_error_test() {
    assert_eq!(
        ChordResponse::parse("HELLO_WORLD;"),
        Err(ParseError::Protocol)
    );
    // four entries instead of five
    let response = "SUCCESSOR_LIST={[6e4bfa7e2180a1cf55db0e38c12b9979][10.0.0.1:80],[6e4bfa7e2180a1cf55db0e38c12b9979][10.0.0.2:80],[6e4bfa7e2180a1cf55db0e38c12b9979][10.0.0.3:80],[6e4bfa7e2180a1cf55db0e38c12b9979][10.0.0.4:80]};";
    assert_eq!(ChordResponse::parse(response), Err(ParseError::Protocol));
    // uppercase hex digits are refused
    let response = "SUCCESSOR=[CF4B19E32CE29FEF04468AC9D2A6787D][17.5.7.3:1450];";
    assert_eq!(ChordResponse::parse(response), Err(ParseError::Protocol));
}
