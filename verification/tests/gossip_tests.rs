use chord_node::gossip_handler::{share_data_request_handler, update_data_request_handler};
use chord_node::gossip_protocol::{GossipRequest, GossipResponse, State};

#[test]
fn update_data_request_protocol_parse_test() {
    let request = "UPDATE_DATA=[Some data ...];";

    let gossip_request = GossipRequest::parse(request).unwrap();

    if let GossipRequest::UpdateData(data) = gossip_request {
        assert_eq!(data, String::from("Some data ..."));
    } else {
        panic!("parsing error");
    }
}

#[test]
fn share_data_request_protocol_parse_test() {
    // SHARE_DATA request protocol with NONE
    let request = "SHARE_DATA=NONE;";

    let gossip_request = GossipRequest::parse(request).unwrap();

    assert_eq!(gossip_request, GossipRequest::ShareData(None));

    // SHARE_DATA request protocol with DATA
    let request = "SHARE_DATA=[Some data ...][7851391275623];";

    let gossip_request = GossipRequest::parse(request).unwrap();

    if let GossipRequest::ShareData(data) = gossip_request {
        let data = data.unwrap();
        assert_eq!(data.data, String::from("Some data ..."));
        assert_eq!(data.timestamp, 7851391275623);
    } else {
        panic!("parsing error");
    }
}

#[test]
fn ignore_response_protocol_parse_test() {
    let response = "RESPONSE=IGNORE;";

    assert_eq!(GossipResponse::parse(response).unwrap(), GossipResponse::Ignore);
}

#[test]
fn response_with_data_protocol_parse_test() {
    let response = "RESPONSE=[Some data ...][7851391275623];";

    let gossip_response = GossipResponse::parse(response).unwrap();

    if let GossipResponse::ResponseWithData(data) = gossip_response {
        assert_eq!(data.data, String::from("Some data ..."));
        assert_eq!(data.timestamp, 7851391275623);
    } else {
        panic!("parsing error");
    }
}

#[test]
fn gossip_round_trip_test() {
    let texts = [
        "UPDATE_DATA=[v1];",
        "SHARE_DATA=NONE;",
        "SHARE_DATA=[abc][170];",
        "SHARE_DATA=[abc][340282366920938463463374607431768211455];",
    ];
    for text in texts {
        let m = GossipRequest::parse(text).unwrap();
        assert_eq!(m.to_protocol_text(), *text);
    }
    let texts = ["RESPONSE=IGNORE;", "RESPONSE=[abc][170];"];
    for text in texts {
        let m = GossipResponse::parse(text).unwrap();
        assert_eq!(m.to_protocol_text(), *text);
    }
}

#[test]
fn gossip_timestamp_overflow_is_protocol_error_test() {
    // one above the largest 128-bit value
    let request = "SHARE_DATA=[abc][340282366920938463463374607431768211456];";
    assert!(GossipRequest::parse(request).is_err());
}

#[test]
fn update_data_handler_overwrites_test() {
    let mut slot: Option<State> = Some(State { data: String::from("old"), timestamp: 99 });
    let r = update_data_request_handler(&mut slot, String::from("new"), 42);
    assert_eq!(r, GossipResponse::Ignore);
    let held = slot.unwrap();
    assert_eq!(held.data, "new");
    assert_eq!(held.timestamp, 42);
}

#[test]
fn share_data_handler_merge_table_test() {
    // received None, local None: no write, IGNORE
    let mut slot: Option<State> = None;
    let r = share_data_request_handler(&mut slot, None);
    assert_eq!(r, GossipResponse::Ignore);
    assert!(slot.is_none());

    // received None, local Some: no write, local is sent back
    let mut slot = Some(State { data: String::from("v"), timestamp: 7 });
    let r = share_data_request_handler(&mut slot, None);
    assert_eq!(
        r,
        GossipResponse::ResponseWithData(State { data: String::from("v"), timestamp: 7 })
    );
    assert_eq!(slot.unwrap(), State { data: String::from("v"), timestamp: 7 });

    // received Some, local None: adopt, IGNORE
    let mut slot: Option<State> = None;
    let r = share_data_request_handler(
        &mut slot,
        Some(State { data: String::from("w"), timestamp: 3 }),
    );
    assert_eq!(r, GossipResponse::Ignore);
    assert_eq!(slot.unwrap(), State { data: String::from("w"), timestamp: 3 });

    // received newer: adopt, IGNORE
    let mut slot = Some(State { data: String::from("old"), timestamp: 3 });
    let r = share_data_request_handler(
        &mut slot,
        Some(State { data: String::from("new"), timestamp: 9 }),
    );
    assert_eq!(r, GossipResponse::Ignore);
    assert_eq!(slot.unwrap(), State { data: String::from("new"), timestamp: 9 });

    // received older: keep, local is sent back
    let mut slot = Some(State { data: String::from("keep"), timestamp: 9 });
    let r = share_data_request_handler(
        &mut slot,
        Some(State { data: String::from("stale"), timestamp: 3 }),
    );
    assert_eq!(
        r,
        GossipResponse::ResponseWithData(State { data: String::from("keep"), timestamp: 9 })
    );
    assert_eq!(slot.unwrap(), State { data: String::from("keep"), timestamp: 9 });

    // equal timestamps: keep the local value, IGNORE
    let mut slot = Some(State { data: String::from("mine"), timestamp: 5 });
    let r = share_data_request_handler(
        &mut slot,
        Some(State { data: String::from("theirs"), timestamp: 5 }),
    );
    assert_eq!(r, GossipResponse::Ignore);
    assert_eq!(slot.unwrap(), State { data: String::from("mine"), timestamp: 5 });
}

#[test]
fn gossip_merge_commutative_test() {
    // whichever node receives the other's value, both converge on the
    // higher-timestamped one
    let a = State { data: String::from("v1"), timestamp: 10 };
    let b = State { data: String::from("v2"), timestamp: 20 };

    let mut slot_a = Some(a.snapshot());
    share_data_request_handler(&mut slot_a, Some(b.snapshot()));

    let mut slot_b = Some(b.snapshot());
    share_data_request_handler(&mut slot_b, Some(a.snapshot()));

    assert_eq!(slot_a.unwrap(), b);
    assert_eq!(slot_b.unwrap(), b);
}

#[test]
fn gossip_merge_idempotent_test() {
    let v = State { data: String::from("v"), timestamp: 10 };
    let mut slot = Some(v.snapshot());
    let r = share_data_request_handler(&mut slot, Some(v.snapshot()));
    assert_eq!(r, GossipResponse::Ignore);
    assert_eq!(slot.unwrap(), v);
}
