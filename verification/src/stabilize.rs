//! The decisions of the periodic stabilization tick.
//!
//! Each tick walks the successor list for the first entry that answers a
//! predecessor query, may adopt that entry's predecessor as the new
//! successor after a liveness probe, notifies the chosen successor, rebuilds
//! the successor list from its answer, and drops a dead predecessor. The
//! network calls happen outside; the decisions between them are here.

use vstd::prelude::*;

use crate::node::Node;
use crate::ring::{spec_strictly_between, strictly_between};

verus! {

/// The predecessor reported by the active successor is worth probing
/// exactly when the node is alone — its position equals the active
/// successor's — or that predecessor lies strictly between the node and the
/// active successor.
pub open spec fn spec_stabilization_candidate(
    self_node: Node,
    active_successor: Node,
    potential_successor: Option<Node>,
) -> Option<Node> {
    match potential_successor {
        Some(x) => if self_node.id == active_successor.id || spec_strictly_between(
            x.id,
            self_node.id,
            active_successor.id,
        ) {
            Some(x)
        } else {
            None
        },
        None => None,
    }
}

/// Picks the reported predecessor that stabilization should probe, if any.
pub fn stabilization_candidate(
    self_node: &Node,
    active_successor: &Node,
    potential_successor: &Option<Node>,
) -> (r: Option<Node>)
    ensures
        r == spec_stabilization_candidate(*self_node, *active_successor, *potential_successor),
{
    match potential_successor {
        Some(x) => {
            if self_node.id == active_successor.id || strictly_between(
                x.id,
                self_node.id,
                active_successor.id,
            ) {
                Some(*x)
            } else {
                None
            }
        }
        None => None,
    }
}

/// The successor for the rest of the tick: the probed candidate when it
/// answered the liveness probe, else the active successor.
pub fn choose_current_successor(active_successor: Node, candidate: Node, candidate_alive: bool)
    -> (r: Node)
    ensures
        r == (if candidate_alive {
            candidate
        } else {
            active_successor
        }),
{
    if candidate_alive {
        candidate
    } else {
        active_successor
    }
}

/// Clears the predecessor when its liveness probe failed.
pub fn prune_dead_predecessor(self_node_predecessor: &mut Option<Node>, predecessor_alive: bool)
    ensures
        *final(self_node_predecessor) == (if predecessor_alive {
            *old(self_node_predecessor)
        } else {
            None::<Node>
        }),
{
    if !predecessor_alive {
        *self_node_predecessor = None;
    }
}

} // verus!
