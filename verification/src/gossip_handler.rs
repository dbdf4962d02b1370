//! Handlers for inbound gossip requests: the client-origin write and the
//! latest-write-wins reconciliation merge.

use vstd::prelude::*;

use crate::gossip_protocol::{GossipResponse, GossipResponseView, State, StateView};

verus! {

/// The mathematical value of a gossip slot.
pub open spec fn gossip_view(g: Option<State>) -> Option<StateView> {
    match g {
        None => None,
        Some(st) => Some(st@),
    }
}

/// The latest-write-wins merge: the incoming value replaces the local one
/// exactly when it carries a strictly higher timestamp or there is no local
/// value; on a tie the local value stays.
pub open spec fn spec_merge(received: Option<StateView>, local: Option<StateView>) -> Option<
    StateView,
> {
    match (received, local) {
        (None, l) => l,
        (Some(r), None) => Some(r),
        (Some(r), Some(l)) => if r.timestamp > l.timestamp {
            Some(r)
        } else {
            Some(l)
        },
    }
}

/// What the merge answers: the local value is sent back exactly when the
/// sender is behind — it sent nothing while something is held, or it sent a
/// strictly older value.
pub open spec fn spec_merge_response(received: Option<StateView>, local: Option<StateView>)
    -> GossipResponseView {
    match (received, local) {
        (None, Some(l)) => GossipResponseView::ResponseWithData(l),
        (Some(r), Some(l)) => if r.timestamp < l.timestamp {
            GossipResponseView::ResponseWithData(l)
        } else {
            GossipResponseView::Ignore
        },
        _ => GossipResponseView::Ignore,
    }
}

/// A client-origin write: unconditionally overwrites the gossip slot with
/// the received payload, stamped with the given wall-clock milliseconds.
pub fn update_data_request_handler(
    self_node_gossip_data: &mut Option<State>,
    received_data: String,
    now_millis: u128,
) -> (r: GossipResponse)
    ensures
        gossip_view(*final(self_node_gossip_data)) == Some(
            StateView { data: received_data@, timestamp: now_millis },
        ),
        r@ == GossipResponseView::Ignore,
{
    *self_node_gossip_data = Some(State { data: received_data, timestamp: now_millis });
    GossipResponse::Ignore
}

/// Peer reconciliation: applies the latest-write-wins merge to the gossip
/// slot and answers with the local value exactly when the sender is behind.
pub fn share_data_request_handler(
    self_node_gossip_data: &mut Option<State>,
    received_data: Option<State>,
) -> (r: GossipResponse)
    ensures
        gossip_view(*final(self_node_gossip_data)) == spec_merge(
            gossip_view(received_data),
            gossip_view(*old(self_node_gossip_data)),
        ),
        r@ == spec_merge_response(
            gossip_view(received_data),
            gossip_view(*old(self_node_gossip_data)),
        ),
{
    match received_data {
        None => match &*self_node_gossip_data {
            Some(l) => GossipResponse::ResponseWithData(l.snapshot()),
            None => GossipResponse::Ignore,
        },
        Some(r) => {
            let adopt: bool;
            let respond: bool;
            match &*self_node_gossip_data {
                None => {
                    adopt = true;
                    respond = false;
                }
                Some(l) => {
                    adopt = r.timestamp > l.timestamp;
                    respond = r.timestamp < l.timestamp;
                }
            }
            if adopt {
                *self_node_gossip_data = Some(r);
                GossipResponse::Ignore
            } else if respond {
                match &*self_node_gossip_data {
                    Some(l) => GossipResponse::ResponseWithData(l.snapshot()),
                    None => {
                        proof {
                            assert(false);
                        }
                        GossipResponse::Ignore
                    }
                }
            } else {
                GossipResponse::Ignore
            }
        }
    }
}

/// The merge is commutative on values with distinct timestamps: whichever
/// side receives the other's value, both end at the higher-timestamped one.
pub proof fn lemma_gossip_merge_commutative(s1: StateView, s2: StateView)
    requires
        s1.timestamp != s2.timestamp,
    ensures
        spec_merge(Some(s1), Some(s2)) == spec_merge(Some(s2), Some(s1)),
        spec_merge(Some(s1), Some(s2)) == (if s1.timestamp > s2.timestamp {
            Some(s1)
        } else {
            Some(s2)
        }),
{
}

/// The merge is idempotent: merging a slot's value with itself keeps the
/// slot unchanged, so no write occurs.
pub proof fn lemma_gossip_merge_idempotent(s: Option<StateView>)
    ensures
        spec_merge(s, s) == s,
{
}

} // verus!
