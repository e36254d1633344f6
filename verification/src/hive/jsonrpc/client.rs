//! Rotation over the configured RPC nodes: after an error the scanner moves on
//! to the next node, and after the last node it starts again at the first.
use vstd::arithmetic::div_mod::lemma_small_mod;
use vstd::prelude::*;

verus! {

/// The configured RPC nodes and the one in use.
pub struct NodeRotation {
    rpc_nodes: Vec<String>,
    current_node: usize,
}

/// The node that follows node `index` among `len` nodes.
pub open spec fn next_node_index(index: int, len: int) -> int {
    if index + 1 < len {
        index + 1
    } else {
        0
    }
}

/// The node in use after `steps` rotations from node `index`.
pub open spec fn node_after_rotations(index: int, len: int, steps: nat) -> int
    decreases steps,
{
    if steps == 0 {
        index
    } else {
        next_node_index(node_after_rotations(index, len, (steps - 1) as nat), len)
    }
}

impl NodeRotation {
    #[verifier::type_invariant]
    spec fn inv(self) -> bool {
        self.current_node < self.rpc_nodes.len()
    }

    /// The configured nodes.
    pub closed spec fn nodes(&self) -> Seq<String> {
        self.rpc_nodes@
    }

    /// The position of the node in use.
    pub closed spec fn index(&self) -> int {
        self.current_node as int
    }

    /// Starts with the first node.  There must be at least one.
    pub fn new(rpc_nodes: Vec<String>) -> (r: NodeRotation)
        requires
            rpc_nodes.len() > 0,
        ensures
            r.nodes() == rpc_nodes@,
            r.index() == 0,
    {
        NodeRotation { rpc_nodes, current_node: 0 }
    }

    /// The node in use.
    pub fn current_node(&self) -> (node: String)
        ensures
            0 <= self.index() < self.nodes().len(),
            node == self.nodes()[self.index()],
    {
        proof {
            use_type_invariant(self);
        }
        self.rpc_nodes[self.current_node].clone()
    }

    /// Moves on to the next node, or back to the first after the last one,
    /// and returns it.
    pub fn rotate_node(&mut self) -> (node: String)
        ensures
            final(self).nodes() == old(self).nodes(),
            final(self).index() == next_node_index(old(self).index(), old(self).nodes().len() as int),
            0 <= final(self).index() < final(self).nodes().len(),
            node == final(self).nodes()[final(self).index()],
    {
        proof {
            use_type_invariant(&*self);
        }
        let next = if self.current_node + 1 < self.rpc_nodes.len() {
            self.current_node + 1
        } else {
            0
        };
        self.current_node = next;
        self.rpc_nodes[next].clone()
    }
}

/// Rotation visits the nodes in turn: after `steps` rotations from node
/// `index`, the node in use is `(index + steps) % len`, so every node is used
/// in turn and `len` rotations come back to the node they started from.
pub proof fn lemma_rotation_round_robin(index: int, len: int, steps: nat)
    requires
        0 <= index < len,
    ensures
        node_after_rotations(index, len, steps) == (index + steps) % len,
    decreases steps,
{
    if steps > 0 {
        lemma_rotation_round_robin(index, len, (steps - 1) as nat);
        let prev = (index + steps - 1) % len;
        assert(0 <= prev < len);
        assert((prev + 1) % len == (index + steps) % len) by (nonlinear_arith)
            requires
                prev == (index + steps - 1) % len,
                len > 0,
        ;
        if prev + 1 < len {
            lemma_small_mod((prev + 1) as nat, len as nat);
        } else {
            assert(prev + 1 == len);
            assert(len % len == 0) by (nonlinear_arith)
                requires
                    len > 0,
            ;
        }
    } else {
        lemma_small_mod(index as nat, len as nat);
    }
}

} // verus!
