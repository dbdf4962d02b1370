//! The inbound request dispatch: one wire message is either a Chord request
//! or a Gossip request.

use vstd::prelude::*;

use crate::chord_protocol::{spec_parse_request, ChordRequest};
use crate::gossip_protocol::{
    spec_parse_gossip_request, GossipRequest, GossipRequestView,
};

verus! {

/// Any request a node serves.
pub enum Request {
    ChordRequest(ChordRequest),
    GossipRequest(GossipRequest),
}

/// The mathematical value of a [`Request`].
pub enum RequestView {
    ChordRequest(ChordRequest),
    GossipRequest(GossipRequestView),
}

impl View for Request {
    type V = RequestView;

    open spec fn view(&self) -> RequestView {
        match self {
            Request::ChordRequest(m) => RequestView::ChordRequest(*m),
            Request::GossipRequest(m) => RequestView::GossipRequest(m@),
        }
    }
}

/// What an inbound message means: a Chord request where its codec accepts
/// it, else a Gossip request where that codec accepts it, else nothing.
pub open spec fn spec_parse_global_request(s: Seq<char>) -> Option<RequestView> {
    match spec_parse_request(s) {
        Ok(m) => Some(RequestView::ChordRequest(m)),
        Err(_) => match spec_parse_gossip_request(s) {
            Ok(m) => Some(RequestView::GossipRequest(m)),
            Err(_) => None,
        },
    }
}

impl Request {
    /// Parses an inbound message as a Chord request, then as a Gossip
    /// request.
    pub fn parse(request: &str) -> (r: Option<Request>)
        ensures
            match r {
                Some(m) => spec_parse_global_request(request@) == Some(m@),
                None => spec_parse_global_request(request@) is None,
            },
    {
        if let Ok(chord_request) = ChordRequest::parse(request) {
            return Some(Request::ChordRequest(chord_request));
        }
        if let Ok(gossip_request) = GossipRequest::parse(request) {
            return Some(Request::GossipRequest(gossip_request));
        }
        None
    }
}

} // verus!
