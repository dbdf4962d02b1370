use chord_node::addr::parse_sockaddr;
use chord_node::chord_protocol::{ChordRequest, ParseError};
use chord_node::node::{parse_hex_id, Node};

#[test]
fn find_successor_of_node_request_parse_test() {
    let request =
        "FIND_SUCCESSOR_OF_NODE=[080501321f1d3ab94c90052a1938e7dc][[2001:0db8:85a3:0000:0000:8a2e:0370:7334]:8080];";

    let chord_request = ChordRequest::parse(request).unwrap();

    if let ChordRequest::FindSuccessorOfNode(target_node) = chord_request {
        assert_eq!(
            target_node.get_hash_id(),
            "080501321f1d3ab94c90052a1938e7dc"
        );
        assert_eq!(
            target_node.get_public_addr(),
            parse_sockaddr("[2001:0db8:85a3:0000:0000:8a2e:0370:7334]:8080").unwrap()
        )
    } else {
        panic!("parsing error");
    }
}

#[test]
fn get_successor_list_request_parse_test() {
    let request = "GET_SUCCESSOR_LIST;";

    assert_eq!(
        ChordRequest::parse(request).unwrap(),
        ChordRequest::GetSuccessorList
    );
}

#[test]
fn get_predecessor_request_parse_test() {
    let request = "GET_PREDECESSOR;";

    assert_eq!(
        ChordRequest::parse(request).unwrap(),
        ChordRequest::GetPredecessor
    );
}

#[test]
fn notification_by_request_parse_test() {
    let request =
        "NOTIFICATION_BY=[080501321f1d3ab94c90052a1938e7dc][[2001:0db8:85a3:0000:0000:8a2e:0370:7334]:8080];";

    let chord_request = ChordRequest::parse(request).unwrap();

    if let ChordRequest::NotificationBy(node) = chord_request {
        assert_eq!(node.get_hash_id(), "080501321f1d3ab94c90052a1938e7dc");
        assert_eq!(
            node.get_public_addr(),
            parse_sockaddr("[2001:0db8:85a3:0000:0000:8a2e:0370:7334]:8080").unwrap()
        )
    } else {
        panic!("parsing error");
    }
}

#[test]
fn check_node_request_parse_test() {
    let request = "CHECK_NODE;";

    assert_eq!(ChordRequest::parse(request).unwrap(), ChordRequest::CheckNode);
}

#[test]
fn chord_request_to_protocol_text_test() {
    let node = Node::create_from(
        parse_hex_id("080501321f1d3ab94c90052a1938e7dc").unwrap(),
        parse_sockaddr("[2001:0db8:85a3:0000:0000:8a2e:0370:7334]:8080").unwrap(),
    );

    // FIND_SUCCESSOR_OF_NODE request abstraction
    // to text-based protocol
    let chord_request =
        ChordRequest::parse(&ChordRequest::FindSuccessorOfNode(node.clone()).to_protocol_text())
            .unwrap();

    if let ChordRequest::FindSuccessorOfNode(target_node) = chord_request {
        assert_eq!(target_node, node)
    } else {
        panic!("parsing error");
    }

    // GET_SUCCESSOR_LIST request abstraction
    // to text-based protocol
    assert_eq!(
        ChordRequest::GetSuccessorList.to_protocol_text(),
        "GET_SUCCESSOR_LIST;"
    );

    // GET_PREDECESSOR request abstraction
    // to text-based protocol
    assert_eq!(
        ChordRequest::GetPredecessor.to_protocol_text(),
        "GET_PREDECESSOR;"
    );

    // NOTIFICATION_BY request abstraction
    // to text-based protocol
    let chord_request =
        ChordRequest::parse(&ChordRequest::NotificationBy(node.clone()).to_protocol_text())
            .unwrap();

    if let ChordRequest::NotificationBy(result_node) = chord_request {
        assert_eq!(result_node, node);
    } else {
        panic!("parsing error");
    }

    // CHECK_NODE request abstraction
    // to text-based protocol
    assert_eq!(ChordRequest::CheckNode.to_protocol_text(), "CHECK_NODE;");
}

#[test]
fn request_invalid_socket_address_test() {
    let request = "NOTIFICATION_BY=[080501321f1d3ab94c90052a1938e7dc][1.2.3:80];";
    assert_eq!(
        ChordRequest::parse(request),
        Err(ParseError::InvalidSocketAddress)
    );
}

#[test]
fn request_serialized_text_is_exact_test() {
    let node = Node::create_from(
        parse_hex_id("080501321f1d3ab94c90052a1938e7dc").unwrap(),
        parse_sockaddr("17.5.7.3:1450").unwrap(),
    );
    assert_eq!(
        ChordRequest::FindSuccessorOfNode(node).to_protocol_text(),
        "FIND_SUCCESSOR_OF_NODE=[080501321f1d3ab94c90052a1938e7dc][17.5.7.3:1450];"
    );
}
