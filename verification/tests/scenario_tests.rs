//! Protocol scenarios driven through the library's handlers and
//! stabilization decisions, with the network exchanges played by hand.

use chord_node::addr::parse_sockaddr;
use chord_node::chord_handler::{
    find_successor_of_node_request_handler, get_predecessor_request_handler,
    get_successor_list_request_handler, node_notification_request_handler, LookupStep,
};
use chord_node::chord_protocol::ChordResponse;
use chord_node::gossip_handler::share_data_request_handler;
use chord_node::gossip_protocol::State;
use chord_node::node::Node;
use chord_node::routing::{
    finger_target, init_core_components, join_core_components, rebuild_successor_list,
    update_finger, RoutingState,
};
use chord_node::stabilize::{choose_current_successor, stabilization_candidate};

fn node_at(id: u128, addr: &str) -> Node {
    Node::create_from(id, parse_sockaddr(addr).unwrap())
}

#[test]
fn single_node_ring_test() {
    let a = node_at(100, "127.0.0.1:1400");
    let state = init_core_components(&a);

    // GET_SUCCESSOR_LIST answers five copies of the node itself
    let response = get_successor_list_request_handler(state.successor_list.clone());
    assert_eq!(response, ChordResponse::SuccessorList(vec![a, a, a, a, a]));

    // GET_PREDECESSOR answers NONE
    let response = get_predecessor_request_handler(state.predecessor);
    assert_eq!(response, ChordResponse::Predecessor(None));
    assert_eq!(response.to_protocol_text(), "PREDECESSOR=NONE;");
}

/// One stabilization tick of `who`, with every peer's state at hand. The
/// first successor-list entry of a live peer answers the predecessor query;
/// the notification and the list rebuild follow the protocol.
fn stabilization_tick(who: &Node, state: &mut RoutingState, peers: &mut [(Node, RoutingState)]) {
    let list = state.successor_list.clone();
    let mut active: Option<Node> = None;
    let mut potential: Option<Node> = None;
    for entry in list.iter() {
        if let Some((_, peer_state)) = peers.iter().find(|(n, _)| n == entry) {
            active = Some(*entry);
            potential = peer_state.predecessor;
            break;
        }
    }
    let active = active.expect("all successors unreachable");
    let candidate = stabilization_candidate(who, &active, &potential);
    let current = match candidate {
        Some(x) => {
            let alive = peers.iter().any(|(n, _)| *n == x);
            choose_current_successor(active, x, alive)
        }
        None => active,
    };
    let (peer_node, peer_state) = peers
        .iter_mut()
        .find(|(n, _)| *n == current)
        .expect("current successor unreachable");
    let response = node_notification_request_handler(
        peer_node,
        &mut peer_state.predecessor,
        peer_state.successor_list.clone(),
        *who,
    );
    let remote_list = match response {
        ChordResponse::SuccessorList(l) => l,
        _ => panic!("current successor unreachable"),
    };
    state.successor_list = rebuild_successor_list(current, &remote_list);
}

#[test]
fn two_node_join_test() {
    let a = node_at(100, "10.0.0.1:1400");
    let b = node_at(200, "10.0.0.2:1401");
    let mut a_state = init_core_components(&a);

    // node B joins via A: FIND_SUCCESSOR_OF_NODE(B) at A
    let step = find_successor_of_node_request_handler(
        &a,
        &a_state.successor_list,
        &a_state.finger_table,
        &b,
    );
    let successor = match step {
        LookupStep::Reply(ChordResponse::Successor(s)) => s,
        _ => panic!("join failed"),
    };
    assert_eq!(successor, a);
    let mut b_state = join_core_components(successor, &a_state.successor_list);
    assert_eq!(b_state.successor_list[0], a);

    // first stabilization round: B runs a tick against A
    {
        let mut peers = [(a, a_state)];
        stabilization_tick(&b, &mut b_state, &mut peers);
        a_state = peers.into_iter().next().unwrap().1;
    }
    assert_eq!(a_state.predecessor, Some(b));

    // second stabilization round: A runs a tick; its own predecessor now
    // points at B, so B becomes A's successor and learns A as predecessor
    {
        let a_self_state = RoutingState {
            successor_list: a_state.successor_list.clone(),
            finger_table: Vec::new(),
            predecessor: a_state.predecessor,
        };
        let mut peers = [(a, a_self_state), (b, b_state)];
        let mut a_routing = RoutingState {
            successor_list: peers[0].1.successor_list.clone(),
            finger_table: Vec::new(),
            predecessor: peers[0].1.predecessor,
        };
        stabilization_tick(&a, &mut a_routing, &mut peers);
        a_state.successor_list = a_routing.successor_list;
        b_state = peers.into_iter().nth(1).unwrap().1;
    }

    assert_eq!(a_state.successor_list[0], b);
    assert_eq!(a_state.predecessor, Some(b));
    assert_eq!(b_state.successor_list[0], a);
    assert_eq!(b_state.predecessor, Some(a));
}

#[test]
fn lookup_hop_test() {
    // a three-node ring a < b < c and a target between b and c
    let a = node_at(10, "10.0.0.1:1400");
    let b = node_at(20, "10.0.0.2:1400");
    let c = node_at(30, "10.0.0.3:1400");
    let k = node_at(25, "10.0.0.4:1400");

    let a_list = vec![b, c, a, b, c];
    let a_fingers = init_core_components(&a).finger_table;
    let step = find_successor_of_node_request_handler(&a, &a_list, &a_fingers, &k);
    let candidates = match step {
        LookupStep::Delegate(cs) => cs,
        _ => panic!("expected delegation"),
    };
    // the first candidate precedes the target most closely
    assert_eq!(candidates[0], b);

    // forwarding to the live candidate answers with c
    let b_list = vec![c, a, b, c, a];
    let b_fingers = init_core_components(&b).finger_table;
    let step = find_successor_of_node_request_handler(&b, &b_list, &b_fingers, &k);
    match step {
        LookupStep::Reply(ChordResponse::Successor(s)) => assert_eq!(s, c),
        _ => panic!("expected an answer"),
    }
}

#[test]
fn duplicate_join_rejection_test() {
    let a = node_at(10, "10.0.0.1:1400");
    let b = node_at(20, "10.0.0.2:1400");
    let a_list = vec![b, a, b, a, b];
    let a_fingers = init_core_components(&a).finger_table;

    // a joining node whose identifier equals the peer's
    let dup_self = node_at(10, "10.0.0.9:1400");
    let step = find_successor_of_node_request_handler(&a, &a_list, &a_fingers, &dup_self);
    match step {
        LookupStep::Reply(ChordResponse::Error(msg)) => {
            assert_eq!(msg, "the node's identifier already exists in the network");
        }
        _ => panic!("expected rejection"),
    }

    // a joining node whose identifier equals the successor's
    let dup_succ = node_at(20, "10.0.0.9:1400");
    let step = find_successor_of_node_request_handler(&a, &a_list, &a_fingers, &dup_succ);
    match step {
        LookupStep::Reply(ChordResponse::Error(msg)) => {
            assert_eq!(msg, "the node's identifier already exists in the network");
        }
        _ => panic!("expected rejection"),
    }
}

#[test]
fn failure_recovery_test() {
    // a four-node ring a < b < c < d; b, a's immediate successor, dies
    let a = node_at(10, "10.0.0.1:1400");
    let b = node_at(20, "10.0.0.2:1400");
    let c = node_at(30, "10.0.0.3:1400");
    let d = node_at(40, "10.0.0.4:1400");

    let mut a_state = init_core_components(&a);
    a_state.successor_list = vec![b, c, d, a, b];

    let c_state = RoutingState {
        successor_list: vec![d, a, b, c, d],
        finger_table: Vec::new(),
        // c still believes the dead b is its predecessor
        predecessor: Some(b),
    };
    let d_state = RoutingState {
        successor_list: vec![a, b, c, d, a],
        finger_table: Vec::new(),
        predecessor: Some(c),
    };

    // one tick with b gone: only c and d answer
    let mut peers = [(c, c_state), (d, d_state)];
    stabilization_tick(&a, &mut a_state, &mut peers);

    // the next live entry replaced the dead successor, and the list was
    // rebuilt from its answer
    assert_eq!(a_state.successor_list[0], c);
    assert_eq!(a_state.successor_list, vec![c, d, a, b, c]);
}

#[test]
fn finger_target_wraps_test() {
    assert_eq!(finger_target(0, 0), 1);
    assert_eq!(finger_target(0, 127), 1u128 << 127);
    // one step past the top of the ring lands at zero
    assert_eq!(finger_target(u128::MAX, 0), 0);
    // half a ring past the top lands just below the half mark
    assert_eq!(finger_target(u128::MAX, 127), (1u128 << 127) - 1);
    assert_eq!(finger_target(100, 4), 116);
}

#[test]
fn update_finger_keeps_shape_test() {
    let a = node_at(10, "10.0.0.1:1400");
    let b = node_at(20, "10.0.0.2:1400");
    let mut fingers = init_core_components(&a).finger_table;
    update_finger(&mut fingers, 3, b);
    assert_eq!(fingers.len(), 128);
    assert_eq!(fingers[0], Some(a));
    assert_eq!(fingers[3], Some(b));
    assert_eq!(fingers[4], None);
}

#[test]
fn gossip_convergence_test() {
    // a three-node ring; a write lands on a at time 100, a later write on c
    // at time 200; each round every node shares with its successor
    let mut slot_a: Option<State> = Some(State { data: String::from("v1"), timestamp: 100 });
    let mut slot_b: Option<State> = None;
    let mut slot_c: Option<State> = Some(State { data: String::from("v2"), timestamp: 200 });

    for _ in 0..2 {
        let from_a = slot_a.as_ref().map(|s| s.snapshot());
        share_data_request_handler(&mut slot_b, from_a);
        let from_b = slot_b.as_ref().map(|s| s.snapshot());
        share_data_request_handler(&mut slot_c, from_b);
        let from_c = slot_c.as_ref().map(|s| s.snapshot());
        share_data_request_handler(&mut slot_a, from_c);
    }

    let expected = State { data: String::from("v2"), timestamp: 200 };
    assert_eq!(slot_a.unwrap(), expected);
    assert_eq!(slot_b.unwrap(), expected);
    assert_eq!(slot_c.unwrap(), expected);
}
