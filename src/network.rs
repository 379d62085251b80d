//! The network store: dense node and arc identifiers, arcs kept in creation order.
use vstd::prelude::*;
use crate::flow::wf_net;

verus! {

/// The largest number of nodes a network holds.
pub const MAX_NODES: usize = 0x7fff_ffff;

/// The largest number of arcs a network holds.
pub const MAX_ARCS: usize = 0x7fff_ffff;

/// Why an operation on a network was refused.
#[derive(Debug, Clone, Copy, PartialEq, Eq, Structural)]
pub enum FlowError {
    /// A node id names no node of the network.
    InvalidNode,
    /// An arc was given a negative capacity.
    InvalidCapacity,
    /// An arc id names no arc of the network.
    UnknownArc,
    /// The source and the sink of a solve are the same node.
    SameNode,
    /// The capacities sum to more than an `i32` holds.
    Overflow,
    /// The solver's answer could not be certified optimal.
    Uncertified,
}

/// A solved flow: one value per arc, in arc id order, and the flow value.
#[derive(Debug, Clone)]
pub struct MaxFlowResult {
    pub flow: Vec<i32>,
    pub max_flow: i32,
}

/// A directed network with capacitated arcs, grown by appending.
pub struct SimpleMaxFlow {
    pub(crate) num_nodes: usize,
    /// `(tail, head, capacity)` of each arc, indexed by arc id.
    pub(crate) arcs: Vec<(usize, usize, i32)>,
}

impl SimpleMaxFlow {
    /// The node count.
    pub open(crate) spec fn spec_num_nodes(&self) -> nat {
        self.num_nodes as nat
    }

    /// The arcs, indexed by arc id.
    pub open(crate) spec fn spec_arcs(&self) -> Seq<(usize, usize, i32)> {
        self.arcs@
    }

    /// Arcs join existing nodes, capacities are non-negative, and both
    /// counts stay within their limits.
    pub open spec fn wf(&self) -> bool {
        &&& wf_net(self.spec_num_nodes(), self.spec_arcs())
        &&& self.spec_num_nodes() <= MAX_NODES
        &&& self.spec_arcs().len() <= MAX_ARCS
    }

    /// An empty network.
    pub fn new() -> (r: Self)
        ensures
            r.wf(),
            r.spec_num_nodes() == 0,
            r.spec_arcs() == Seq::<(usize, usize, i32)>::empty(),
    {
        SimpleMaxFlow { num_nodes: 0, arcs: Vec::new() }
    }

    /// Appends `n` nodes and returns their ids in creation order.
    pub fn add_nodes(&mut self, n: usize) -> (r: Vec<usize>)
        requires
            old(self).wf(),
            old(self).spec_num_nodes() + n <= MAX_NODES,
        ensures
            final(self).wf(),
            final(self).spec_num_nodes() == old(self).spec_num_nodes() + n,
            final(self).spec_arcs() == old(self).spec_arcs(),
            r@.len() == n,
            forall|i: int| 0 <= i < n ==> r@[i] == old(self).spec_num_nodes() + i,
    {
        let mut r: Vec<usize> = Vec::new();
        let mut i: usize = 0;
        while i < n
            invariant
                self.wf(),
                i <= n,
                self.num_nodes == old(self).num_nodes + i,
                self.arcs@ == old(self).arcs@,
                old(self).spec_num_nodes() + n <= MAX_NODES,
                r@.len() == i,
                forall|k: int| 0 <= k < i ==> r@[k] == old(self).num_nodes + k,
            decreases n - i,
        {
            let id = self.add_node();
            r.push(id);
            i = i + 1;
        }
        r
    }

    /// Appends one node and returns its id, the node count before the call.
    pub fn add_node(&mut self) -> (r: usize)
        requires
            old(self).wf(),
            old(self).spec_num_nodes() < MAX_NODES,
        ensures
            final(self).wf(),
            r == old(self).spec_num_nodes(),
            final(self).spec_num_nodes() == old(self).spec_num_nodes() + 1,
            final(self).spec_arcs() == old(self).spec_arcs(),
    {
        let id = self.num_nodes;
        self.num_nodes = id + 1;
        id
    }

    /// Appends the arc `u -> v` with the given capacity and returns its id,
    /// the arc count before the call.
    pub fn add_arc_with_capacity(&mut self, u: usize, v: usize, capacity: i32) -> (r: Result<
        usize,
        FlowError,
    >)
        requires
            old(self).wf(),
            old(self).spec_arcs().len() < MAX_ARCS,
        ensures
            final(self).wf(),
            final(self).spec_num_nodes() == old(self).spec_num_nodes(),
            u >= old(self).spec_num_nodes() || v >= old(self).spec_num_nodes() ==> r == Err::<
                usize,
                FlowError,
            >(FlowError::InvalidNode) && final(self).spec_arcs() == old(self).spec_arcs(),
            u < old(self).spec_num_nodes() && v < old(self).spec_num_nodes() && capacity < 0 ==> r
                == Err::<usize, FlowError>(FlowError::InvalidCapacity) && final(self).spec_arcs()
                == old(self).spec_arcs(),
            u < old(self).spec_num_nodes() && v < old(self).spec_num_nodes() && capacity >= 0 ==> r
                == Ok::<usize, FlowError>(old(self).spec_arcs().len() as usize)
                && final(self).spec_arcs() == old(self).spec_arcs().push((u, v, capacity)),
    {
        if u >= self.num_nodes || v >= self.num_nodes {
            return Err(FlowError::InvalidNode);
        }
        if capacity < 0 {
            return Err(FlowError::InvalidCapacity);
        }
        let id = self.arcs.len();
        self.arcs.push((u, v, capacity));
        Ok(id)
    }

    /// The tail node of arc `edge_id`.
    pub fn tail(&self, edge_id: usize) -> (r: Result<usize, FlowError>)
        ensures
            edge_id < self.spec_arcs().len() ==> r == Ok::<usize, FlowError>(
                self.spec_arcs()[edge_id as int].0,
            ),
            edge_id >= self.spec_arcs().len() ==> r == Err::<usize, FlowError>(
                FlowError::UnknownArc,
            ),
    {
        if edge_id < self.arcs.len() {
            Ok(self.arcs[edge_id].0)
        } else {
            Err(FlowError::UnknownArc)
        }
    }

    /// The head node of arc `edge_id`.
    pub fn head(&self, edge_id: usize) -> (r: Result<usize, FlowError>)
        ensures
            edge_id < self.spec_arcs().len() ==> r == Ok::<usize, FlowError>(
                self.spec_arcs()[edge_id as int].1,
            ),
            edge_id >= self.spec_arcs().len() ==> r == Err::<usize, FlowError>(
                FlowError::UnknownArc,
            ),
    {
        if edge_id < self.arcs.len() {
            Ok(self.arcs[edge_id].1)
        } else {
            Err(FlowError::UnknownArc)
        }
    }

    /// The capacity of arc `edge_id`.
    pub fn capacity(&self, edge_id: usize) -> (r: Result<i32, FlowError>)
        ensures
            edge_id < self.spec_arcs().len() ==> r == Ok::<i32, FlowError>(
                self.spec_arcs()[edge_id as int].2,
            ),
            edge_id >= self.spec_arcs().len() ==> r == Err::<i32, FlowError>(
                FlowError::UnknownArc,
            ),
    {
        if edge_id < self.arcs.len() {
            Ok(self.arcs[edge_id].2)
        } else {
            Err(FlowError::UnknownArc)
        }
    }

    /// The number of arcs.
    pub fn num_arcs(&self) -> (r: usize)
        ensures
            r == self.spec_arcs().len(),
    {
        self.arcs.len()
    }

    /// The number of nodes.
    pub fn num_nodes(&self) -> (r: usize)
        ensures
            r == self.spec_num_nodes(),
    {
        self.num_nodes
    }
}

impl Default for SimpleMaxFlow {
    fn default() -> (r: Self)
        ensures
            r.wf(),
            r.spec_num_nodes() == 0,
            r.spec_arcs() == Seq::<(usize, usize, i32)>::empty(),
    {
        Self::new()
    }
}

} // verus!
