//! Handlers for inbound Chord requests, computed over a snapshot of the
//! routing state.
//!
//! The successor lookup is answered locally where the snapshot decides it;
//! otherwise the handler names the candidate peers to probe, in order, and
//! the caller forwards the request to the first live one.

use vstd::prelude::*;

use crate::chord_protocol::{ChordResponse, ChordResponseView};
use crate::node::Node;
use crate::ring::{spec_strictly_between, strictly_between, SUCCESSOR_LIST_LENGTH};

verus! {

/// What a successor lookup does next: reply at once, or forward to the
/// first live node of a candidate list, probed in order.
pub enum LookupStep {
    Reply(ChordResponse),
    Delegate(Vec<Node>),
}

/// The mathematical value of a [`LookupStep`].
pub enum LookupStepView {
    Reply(ChordResponseView),
    Delegate(Seq<Node>),
}

impl View for LookupStep {
    type V = LookupStepView;

    open spec fn view(&self) -> LookupStepView {
        match self {
            LookupStep::Reply(m) => LookupStepView::Reply(m@),
            LookupStep::Delegate(c) => LookupStepView::Delegate(c@),
        }
    }
}

/// The nodes of `nodes[i..]` whose position lies strictly between `lo` and
/// `hi`, from the highest index down.
pub open spec fn spec_candidates_from(nodes: Seq<Node>, i: int, lo: u128, hi: u128) -> Seq<Node>
    decreases nodes.len() - i,
{
    if i < 0 || i >= nodes.len() {
        Seq::empty()
    } else {
        spec_candidates_from(nodes, i + 1, lo, hi) + (if spec_strictly_between(nodes[i].id, lo, hi) {
            seq![nodes[i]]
        } else {
            Seq::empty()
        })
    }
}

/// The populated entries of `fingers[i..]` whose position lies strictly
/// between `lo` and `hi`, from the highest index down.
pub open spec fn spec_finger_candidates_from(
    fingers: Seq<Option<Node>>,
    i: int,
    lo: u128,
    hi: u128,
) -> Seq<Node>
    decreases fingers.len() - i,
{
    if i < 0 || i >= fingers.len() {
        Seq::empty()
    } else {
        spec_finger_candidates_from(fingers, i + 1, lo, hi) + (match fingers[i] {
            Some(n) => if spec_strictly_between(n.id, lo, hi) {
                seq![n]
            } else {
                Seq::empty()
            },
            None => Seq::empty(),
        })
    }
}

/// The local step of a successor lookup. A target that collides with the
/// node or its successor is a duplicate identifier; a single-node ring or a
/// target strictly between the node and its successor is answered with the
/// successor; anything else is delegated. The candidates come from the
/// successor list when the target lies within its span, else from the
/// finger table, in both cases from the highest index down and restricted
/// to positions strictly between the node and the target.
pub open spec fn spec_find_successor_step(
    self_node: Node,
    successor_list: Seq<Node>,
    finger_table: Seq<Option<Node>>,
    target: Node,
) -> LookupStepView {
    let successor = successor_list[0];
    if target.id == self_node.id || target.id == successor.id {
        LookupStepView::Reply(
            ChordResponseView::Error("the node's identifier already exists in the network"@),
        )
    } else if self_node.id == successor.id {
        LookupStepView::Reply(ChordResponseView::Successor(successor))
    } else if spec_strictly_between(target.id, self_node.id, successor.id) {
        LookupStepView::Reply(ChordResponseView::Successor(successor))
    } else if spec_strictly_between(target.id, self_node.id, successor_list.last().id) {
        LookupStepView::Delegate(spec_candidates_from(successor_list, 0, self_node.id, target.id))
    } else {
        LookupStepView::Delegate(
            spec_finger_candidates_from(finger_table, 0, self_node.id, target.id),
        )
    }
}

/// Collects the successor-list candidates, highest index first.
fn collect_candidates(nodes: &Vec<Node>, lo: u128, hi: u128) -> (r: Vec<Node>)
    ensures
        r@ == spec_candidates_from(nodes@, 0, lo, hi),
{
    let mut r: Vec<Node> = Vec::new();
    let mut i: usize = nodes.len();
    while i > 0
        invariant
            i <= nodes@.len(),
            r@ == spec_candidates_from(nodes@, i as int, lo, hi),
        decreases i,
    {
        i = i - 1;
        let n = nodes[i];
        if strictly_between(n.id, lo, hi) {
            r.push(n);
        }
        proof {
            assert(r@ =~= spec_candidates_from(nodes@, i as int, lo, hi));
        }
    }
    r
}

/// Collects the populated finger-table candidates, highest index first.
fn collect_finger_candidates(fingers: &Vec<Option<Node>>, lo: u128, hi: u128) -> (r: Vec<Node>)
    ensures
        r@ == spec_finger_candidates_from(fingers@, 0, lo, hi),
{
    let mut r: Vec<Node> = Vec::new();
    let mut i: usize = fingers.len();
    while i > 0
        invariant
            i <= fingers@.len(),
            r@ == spec_finger_candidates_from(fingers@, i as int, lo, hi),
        decreases i,
    {
        i = i - 1;
        match &fingers[i] {
            Some(n) => {
                if strictly_between(n.id, lo, hi) {
                    r.push(*n);
                }
            }
            None => {}
        }
        proof {
            assert(r@ =~= spec_finger_candidates_from(fingers@, i as int, lo, hi));
        }
    }
    r
}

/// Computes the local step of a successor lookup for `target_node`, over a
/// snapshot of the successor list and finger table.
pub fn find_successor_of_node_request_handler(
    self_node: &Node,
    self_node_successor_list: &Vec<Node>,
    self_node_finger_table: &Vec<Option<Node>>,
    target_node: &Node,
) -> (r: LookupStep)
    requires
        self_node_successor_list@.len() == SUCCESSOR_LIST_LENGTH as int,
    ensures
        r@ == spec_find_successor_step(
            *self_node,
            self_node_successor_list@,
            self_node_finger_table@,
            *target_node,
        ),
{
    let successor = self_node_successor_list[0];
    if target_node.id == self_node.id || target_node.id == successor.id {
        return LookupStep::Reply(
            ChordResponse::Error(
                String::from_str("the node's identifier already exists in the network"),
            ),
        );
    }
    if self_node.id == successor.id {
        return LookupStep::Reply(ChordResponse::Successor(successor));
    }
    if strictly_between(target_node.id, self_node.id, successor.id) {
        return LookupStep::Reply(ChordResponse::Successor(successor));
    }
    let span_end = self_node_successor_list[SUCCESSOR_LIST_LENGTH - 1];
    if strictly_between(target_node.id, self_node.id, span_end.id) {
        LookupStep::Delegate(
            collect_candidates(self_node_successor_list, self_node.id, target_node.id),
        )
    } else {
        LookupStep::Delegate(
            collect_finger_candidates(self_node_finger_table, self_node.id, target_node.id),
        )
    }
}

/// The response when no delegation candidate answered its liveness probe.
pub fn no_reachable_preceding_response() -> (r: ChordResponse)
    ensures
        r@ == ChordResponseView::Error("no reachable preceding node"@),
{
    ChordResponse::Error(String::from_str("no reachable preceding node"))
}

/// Answers a successor-list request with the snapshot itself.
pub fn get_successor_list_request_handler(self_node_successor_list: Vec<Node>) -> (r:
    ChordResponse)
    ensures
        r@ == ChordResponseView::SuccessorList(self_node_successor_list@),
{
    ChordResponse::SuccessorList(self_node_successor_list)
}

/// Answers a predecessor request with the snapshot itself.
pub fn get_predecessor_request_handler(self_node_predecessor: Option<Node>) -> (r: ChordResponse)
    ensures
        r@ == ChordResponseView::Predecessor(self_node_predecessor),
{
    ChordResponse::Predecessor(self_node_predecessor)
}

/// Answers a liveness probe.
pub fn check_node_request_handler() -> (r: ChordResponse)
    ensures
        r@ == ChordResponseView::Active,
{
    ChordResponse::Active
}

/// When an inbound notification replaces the predecessor: when none is
/// held, when the held one is the node itself, or when the sender lies
/// strictly between the held predecessor and the node.
pub open spec fn spec_should_adopt_predecessor(
    self_node: Node,
    predecessor: Option<Node>,
    external: Node,
) -> bool {
    match predecessor {
        None => true,
        Some(p) => p.id == self_node.id || spec_strictly_between(external.id, p.id, self_node.id),
    }
}

/// Handles an inbound notification: adopts the sender as predecessor where
/// [`spec_should_adopt_predecessor`] says so, and always answers with the
/// successor-list snapshot.
pub fn node_notification_request_handler(
    self_node: &Node,
    self_node_predecessor: &mut Option<Node>,
    self_node_successor_list: Vec<Node>,
    external_node: Node,
) -> (r: ChordResponse)
    ensures
        *final(self_node_predecessor) == (if spec_should_adopt_predecessor(
            *self_node,
            *old(self_node_predecessor),
            external_node,
        ) {
            Some(external_node)
        } else {
            *old(self_node_predecessor)
        }),
        r@ == ChordResponseView::SuccessorList(self_node_successor_list@),
{
    let adopt: bool;
    match &*self_node_predecessor {
        None => {
            adopt = true;
        }
        Some(p) => {
            adopt = p.id == self_node.id || strictly_between(
                external_node.id,
                p.id,
                self_node.id,
            );
        }
    }
    if adopt {
        *self_node_predecessor = Some(external_node);
    }
    ChordResponse::SuccessorList(self_node_successor_list)
}

} // verus!
