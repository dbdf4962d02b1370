//! Per-node routing state — successor list, finger table, predecessor — and
//! the bootstrap that fills it.
//!
//! The successor list always holds exactly [`SUCCESSOR_LIST_LENGTH`] nodes
//! and the finger table exactly [`RING_BIT_LENGTH`] optional slots; the
//! constructors here establish that shape and every maintenance step keeps
//! it.

use vstd::prelude::*;

use crate::node::Node;
use crate::ring::{RING_BIT_LENGTH, SUCCESSOR_LIST_LENGTH};
use vstd::pervasive::VecAdditionalExecFns;

verus! {

/// The routing state one node maintains.
pub struct RoutingState {
    pub successor_list: Vec<Node>,
    pub finger_table: Vec<Option<Node>>,
    pub predecessor: Option<Node>,
}

impl RoutingState {
    /// The shape every reachable routing state has: exactly five successor
    /// entries and exactly 128 finger slots.
    pub open spec fn wf(&self) -> bool {
        self.successor_list@.len() == SUCCESSOR_LIST_LENGTH as int && self.finger_table@.len()
            == RING_BIT_LENGTH as int
    }
}

/// A fresh finger table: slot zero holds `first`, every other slot is
/// empty.
pub fn initial_finger_table(first: &Node) -> (r: Vec<Option<Node>>)
    ensures
        r@.len() == RING_BIT_LENGTH as int,
        r@[0] == Some(*first),
        forall|i: int| 1 <= i < r@.len() ==> r@[i] is None,
{
    let mut r: Vec<Option<Node>> = Vec::new();
    r.push(Some(*first));
    let mut i: usize = 1;
    while i < RING_BIT_LENGTH
        invariant
            1 <= i <= RING_BIT_LENGTH,
            r@.len() == i as int,
            r@[0] == Some(*first),
            forall|j: int| 1 <= j < i ==> r@[j] is None,
        decreases RING_BIT_LENGTH - i,
    {
        r.push(None);
        i += 1;
    }
    r
}

/// The successor list of a ring founder: five copies of the node itself.
pub fn init_successor_list(self_node: &Node) -> (r: Vec<Node>)
    ensures
        r@.len() == SUCCESSOR_LIST_LENGTH as int,
        forall|i: int| 0 <= i < r@.len() ==> r@[i] == *self_node,
{
    let mut r: Vec<Node> = Vec::new();
    let mut i: usize = 0;
    while i < SUCCESSOR_LIST_LENGTH
        invariant
            i <= SUCCESSOR_LIST_LENGTH,
            r@.len() == i as int,
            forall|j: int| 0 <= j < i ==> r@[j] == *self_node,
        decreases SUCCESSOR_LIST_LENGTH - i,
    {
        r.push(*self_node);
        i += 1;
    }
    r
}

/// Prepends a node to a remote successor list and truncates to five
/// entries: the new list is the node followed by the first four remote
/// entries.
pub fn rebuild_successor_list(first: Node, remote_list: &Vec<Node>) -> (r: Vec<Node>)
    requires
        remote_list@.len() == SUCCESSOR_LIST_LENGTH as int,
    ensures
        r@ == seq![first] + remote_list@.take(SUCCESSOR_LIST_LENGTH - 1),
        r@.len() == SUCCESSOR_LIST_LENGTH as int,
{
    let mut r: Vec<Node> = Vec::new();
    r.push(first);
    r.push(remote_list[0]);
    r.push(remote_list[1]);
    r.push(remote_list[2]);
    r.push(remote_list[3]);
    proof {
        assert(r@ =~= seq![first] + remote_list@.take(SUCCESSOR_LIST_LENGTH - 1));
    }
    r
}

/// Routing state for a node founding a new ring: its successor list is five
/// copies of itself, finger slot zero points at itself, and it has no
/// predecessor.
pub fn init_core_components(self_node: &Node) -> (r: RoutingState)
    ensures
        r.wf(),
        forall|i: int| 0 <= i < r.successor_list@.len() ==> r.successor_list@[i] == *self_node,
        r.finger_table@[0] == Some(*self_node),
        forall|i: int| 1 <= i < r.finger_table@.len() ==> r.finger_table@[i] is None,
        r.predecessor is None,
{
    RoutingState {
        successor_list: init_successor_list(self_node),
        finger_table: initial_finger_table(self_node),
        predecessor: None,
    }
}

/// The identifier that finger slot `i` is aimed at: the node's position
/// plus `2^i`, wrapping around the ring.
pub open spec fn spec_finger_target(self_id: u128, i: nat) -> u128 {
    ((self_id as int + vstd::arithmetic::power2::pow2(i)) % (u128::MAX as int + 1)) as u128
}

/// Computes the identifier that finger slot `i` is aimed at.
pub fn finger_target(self_id: u128, i: usize) -> (r: u128)
    requires
        i < RING_BIT_LENGTH,
    ensures
        r == spec_finger_target(self_id, i as nat),
{
    proof {
        vstd::arithmetic::power2::lemma2_to64();
        vstd::arithmetic::power2::lemma2_to64_rest();
        vstd::arithmetic::power2::lemma_pow2_adds(64, 63);
        assert(vstd::arithmetic::power2::pow2(127)
            == 0x8000_0000_0000_0000_0000_0000_0000_0000);
    }
    let mut p: u128 = 1;
    let mut k: usize = 0;
    while k < i
        invariant
            k <= i,
            i < 128,
            p == vstd::arithmetic::power2::pow2(k as nat),
            vstd::arithmetic::power2::pow2(127) == 0x8000_0000_0000_0000_0000_0000_0000_0000,
        decreases i - k,
    {
        proof {
            if (k as nat) < 127 {
                vstd::arithmetic::power2::lemma_pow2_strictly_increases(k as nat, 127);
            }
            vstd::arithmetic::power2::lemma_pow2_unfold((k + 1) as nat);
        }
        p = p * 2;
        k += 1;
    }
    proof {
        if (i as nat) < 127 {
            vstd::arithmetic::power2::lemma_pow2_strictly_increases(i as nat, 127);
        }
        vstd::arithmetic::power2::lemma_pow2_pos(i as nat);
    }
    let m_minus_p = u128::MAX - p;
    if self_id <= m_minus_p {
        proof {
            vstd::arithmetic::div_mod::lemma_small_mod(
                (self_id + p) as nat,
                (u128::MAX as nat + 1),
            );
        }
        self_id + p
    } else {
        let r = self_id - m_minus_p - 1;
        proof {
            let m: int = u128::MAX as int + 1;
            let x: int = self_id as int + p as int;
            assert(r as int == x - m);
            vstd::arithmetic::div_mod::lemma_mod_sub_multiples_vanish(x, m);
            vstd::arithmetic::div_mod::lemma_small_mod((x - m) as nat, m as nat);
        }
        r
    }
}

/// Caches a lookup result in finger slot `index`; the other slots and the
/// table's length stay as they were.
pub fn update_finger(finger_table: &mut Vec<Option<Node>>, index: usize, node: Node)
    requires
        index < old(finger_table)@.len(),
    ensures
        final(finger_table)@ == old(finger_table)@.update(index as int, Some(node)),
{
    finger_table.set(index, Some(node));
}

/// Routing state for a node joining a ring, built from the successor found
/// for it and that successor's own list: the successor list is the
/// successor followed by the first four remote entries, finger slot zero
/// points at the successor, and there is no predecessor.
pub fn join_core_components(successor: Node, remote_successor_list: &Vec<Node>) -> (r:
    RoutingState)
    requires
        remote_successor_list@.len() == SUCCESSOR_LIST_LENGTH as int,
    ensures
        r.wf(),
        r.successor_list@ == seq![successor] + remote_successor_list@.take(
            SUCCESSOR_LIST_LENGTH - 1,
        ),
        r.finger_table@[0] == Some(successor),
        forall|i: int| 1 <= i < r.finger_table@.len() ==> r.finger_table@[i] is None,
        r.predecessor is None,
{
    RoutingState {
        successor_list: rebuild_successor_list(successor, remote_successor_list),
        finger_table: initial_finger_table(&successor),
        predecessor: None,
    }
}

} // verus!
