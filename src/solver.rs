//! Solving: rs_graph's solvers compute a flow, and verified code certifies
//! that what they returned is a maximum flow.
//!
//! rs_graph's push-relabel can stop at a maximum preflow, with excess left on
//! nodes that are cut off from the sink. Such an answer is not certified, and
//! the network is then solved again by rs_graph's Dinic algorithm, whose
//! answer is certified in the same way.
use vstd::prelude::*;
use rs_graph::maxflow::{dinic, pushrelabel};
use rs_graph::traits::Indexable;
use rs_graph::{Buildable, Builder, IndexGraph, Net};
use crate::flow::{
    balance, cap_sum, certified, cut_capacity, is_cut, is_max_flow, lemma_certified_is_max,
    net_out, residual_closed, total_capacity, wf_net,
};
use crate::network::{FlowError, MaxFlowResult, SimpleMaxFlow, MAX_ARCS, MAX_NODES};

verus! {

/// The flow value and the per-arc flows that rs_graph's push-relabel solver
/// returns on a network.
pub uninterp spec fn push_relabel_of(n: nat, arcs: Seq<(usize, usize, i32)>, source: nat, sink: nat) -> (i32, Seq<i32>);

/// Relies on `rs_graph::maxflow::pushrelabel`, run on a `VecGraph<u32>` built
/// with one node per id and one edge per arc in id order: it returns the flow
/// value and `flow_iter` yields one flow per edge in edge order; its result
/// depends on the graph and the capacities alone. The builder panics past its
/// node and edge limits, the solver when source equals sink, and its `i32`
/// sums stay below the total capacity.
#[verifier::external_body]
fn run_push_relabel(n: usize, arcs: &Vec<(usize, usize, i32)>, source: usize, sink: usize) -> (r: (i32, Vec<i32>))
    requires
        wf_net(n as nat, arcs@),
        n <= MAX_NODES,
        arcs@.len() <= MAX_ARCS,
        source < n,
        sink < n,
        source != sink,
        total_capacity(arcs@) <= i32::MAX,
    ensures
        r.0 == push_relabel_of(n as nat, arcs@, source as nat, sink as nat).0,
        r.1@ == push_relabel_of(n as nat, arcs@, source as nat, sink as nat).1,
        r.1@.len() == arcs@.len(),
{
    let mut b = Net::new_builder();
    let nodes = b.add_nodes(n);
    for &(u, v, _) in arcs.iter() {
        b.add_edge(nodes[u], nodes[v]);
    }
    let g = b.into_graph();
    let (value, flow, _) = pushrelabel(&g, g.id2node(source), g.id2node(sink), |e| arcs[e.index()].2);
    (value, flow.into_iter().map(|(_, x)| x).collect())
}

/// The flow value and the per-arc flows that rs_graph's Dinic solver returns
/// on a network.
pub uninterp spec fn dinic_of(n: nat, arcs: Seq<(usize, usize, i32)>, source: nat, sink: nat) -> (i32, Seq<i32>);

/// Relies on `rs_graph::maxflow::dinic`, run on a `VecGraph<u32>` built with
/// one node per id and one edge per arc in id order: it returns the flow
/// value and `flow_iter` yields one flow per edge in edge order; its result
/// depends on the graph and the capacities alone. The builder panics past its
/// node and edge limits, and its `i32` sums stay below the total capacity.
#[verifier::external_body]
fn run_dinic(n: usize, arcs: &Vec<(usize, usize, i32)>, source: usize, sink: usize) -> (r: (i32, Vec<i32>))
    requires
        wf_net(n as nat, arcs@),
        n <= MAX_NODES,
        arcs@.len() <= MAX_ARCS,
        source < n,
        sink < n,
        source != sink,
        total_capacity(arcs@) <= i32::MAX,
    ensures
        r.0 == dinic_of(n as nat, arcs@, source as nat, sink as nat).0,
        r.1@ == dinic_of(n as nat, arcs@, source as nat, sink as nat).1,
        r.1@.len() == arcs@.len(),
{
    let mut b = Net::new_builder();
    let nodes = b.add_nodes(n);
    for &(u, v, _) in arcs.iter() {
        b.add_edge(nodes[u], nodes[v]);
    }
    let g = b.into_graph();
    let (value, flow, _) = dinic(&g, g.id2node(source), g.id2node(sink), |e| arcs[e.index()].2);
    (value, flow.into_iter().map(|(_, x)| x).collect())
}

/// The number of marked nodes.
spec fn count_marked(m: Seq<bool>) -> nat
    decreases m.len(),
{
    if m.len() == 0 {
        0
    } else {
        count_marked(m.drop_last()) + (if m.last() {
            1nat
        } else {
            0nat
        })
    }
}

proof fn lemma_count_bounded(m: Seq<bool>)
    ensures
        count_marked(m) <= m.len(),
    decreases m.len(),
{
    if m.len() > 0 {
        lemma_count_bounded(m.drop_last());
    }
}

proof fn lemma_count_mark(m: Seq<bool>, v: int)
    requires
        0 <= v < m.len(),
        !m[v],
    ensures
        count_marked(m.update(v, true)) == count_marked(m) + 1,
    decreases m.len(),
{
    let u = m.update(v, true);
    if v == m.len() - 1 {
        assert(u.drop_last() =~= m.drop_last());
    } else {
        assert(u.drop_last() =~= m.drop_last().update(v, true));
        lemma_count_mark(m.drop_last(), v);
    }
}

/// Capacity sums grow with the prefix.
proof fn lemma_cap_sum_mono(n: nat, arcs: Seq<(usize, usize, i32)>, i: int, k: int)
    requires
        wf_net(n, arcs),
        0 <= i <= k <= arcs.len(),
    ensures
        0 <= cap_sum(arcs, i) <= cap_sum(arcs, k),
    decreases k,
{
    if k > 0 && i < k {
        lemma_cap_sum_mono(n, arcs, i, k - 1);
    }
    if i > 0 && i == k {
        lemma_cap_sum_mono(n, arcs, i - 1, i - 1);
    }
}

/// A balance over a prefix is bounded by the capacity of that prefix.
proof fn lemma_net_out_bounded(arcs: Seq<(usize, usize, i32)>, f: Seq<i32>, v: int, i: int)
    requires
        f.len() == arcs.len(),
        0 <= i <= arcs.len(),
        forall|j: int| 0 <= j < arcs.len() ==> 0 <= #[trigger] f[j] <= arcs[j].2,
    ensures
        -cap_sum(arcs, i) <= net_out(arcs, f, v, i) <= cap_sum(arcs, i),
    decreases i,
{
    if i > 0 {
        lemma_net_out_bounded(arcs, f, v, i - 1);
        assert(0 <= f[i - 1] <= arcs[i - 1].2);
    }
}

/// Every mark lies inside `x`.
spec fn marks_within(m: Seq<bool>, x: Seq<bool>) -> bool {
    forall|v: int| 0 <= v < m.len() && #[trigger] m[v] ==> x[v]
}

/// A residually closed set holding `s`.
spec fn closed_around(n: nat, arcs: Seq<(usize, usize, i32)>, f: Seq<i32>, s: int, x: Seq<bool>) -> bool {
    x.len() == n && x[s] && residual_closed(arcs, f, x)
}

/// Marks every node reachable from `s` by arcs with residual capacity under
/// `f`; the marked set is the least residually closed set holding `s`.
fn residual_reach(n: usize, arcs: &Vec<(usize, usize, i32)>, s: usize, f: &Vec<i32>) -> (marked: Vec<bool>)
    requires
        wf_net(n as nat, arcs@),
        s < n,
        f@.len() == arcs@.len(),
    ensures
        marked@.len() == n,
        marked@[s as int],
        residual_closed(arcs@, f@, marked@),
        forall|x: Seq<bool>| #[trigger] closed_around(n as nat, arcs@, f@, s as int, x) ==> marks_within(marked@, x),
{
    let mut marked: Vec<bool> = Vec::new();
    let mut i: usize = 0;
    while i < n
        invariant
            i <= n,
            marked@.len() == i,
            forall|v: int| 0 <= v < i ==> marked@[v] == (v == s),
        decreases n - i,
    {
        marked.push(i == s);
        i = i + 1;
    }
    let ghost n0 = n as nat;
    let ghost a = arcs@;
    let ghost fl = f@;
    proof {
        assert forall|x: Seq<bool>| #[trigger] closed_around(n0, a, fl, s as int, x) implies marks_within(marked@, x) by {}
        lemma_count_bounded(marked@);
    }
    let mut changed = true;
    while changed
        invariant
            wf_net(n0, a),
            a == arcs@,
            fl == f@,
            n0 == n,
            fl.len() == a.len(),
            s < n,
            marked@.len() == n,
            marked@[s as int],
            count_marked(marked@) <= n,
            !changed ==> residual_closed(a, fl, marked@),
            forall|x: Seq<bool>| #[trigger] closed_around(n0, a, fl, s as int, x) ==> marks_within(marked@, x),
        decreases n - count_marked(marked@) + (if changed { 1int } else { 0int }),
    {
        let ghost start = marked@;
        changed = false;
        let mut j: usize = 0;
        while j < arcs.len()
            invariant
                wf_net(n0, a),
                a == arcs@,
                fl == f@,
                n0 == n,
                fl.len() == a.len(),
                s < n,
                j <= a.len(),
                marked@.len() == n,
                marked@[s as int],
                count_marked(marked@) <= n,
                !changed ==> marked@ == start,
                changed ==> count_marked(marked@) > count_marked(start),
                count_marked(marked@) >= count_marked(start),
                !changed ==> forall|k: int|
                    0 <= k < j ==> {
                        &&& (marked@[a[k].0 as int] && fl[k] < a[k].2 ==> marked@[a[k].1 as int])
                        &&& (marked@[a[k].1 as int] && fl[k] > 0 ==> marked@[a[k].0 as int])
                    },
                forall|x: Seq<bool>| #[trigger] closed_around(n0, a, fl, s as int, x) ==> marks_within(marked@, x),
            decreases a.len() - j,
        {
            let (u, w, c) = arcs[j];
            let fj = f[j];
            if marked[u] && !marked[w] && fj < c {
                proof {
                    lemma_count_mark(marked@, w as int);
                    lemma_count_bounded(marked@.update(w as int, true));
                    assert forall|x: Seq<bool>| #[trigger] closed_around(n0, a, fl, s as int, x) implies marks_within(marked@.update(w as int, true), x) by {
                        assert(marks_within(marked@, x));
                        assert(x[u as int]);
                        assert(a[j as int].0 == u && a[j as int].1 == w);
                    }
                }
                marked.set(w, true);
                changed = true;
            } else if marked[w] && !marked[u] && fj > 0 {
                proof {
                    lemma_count_mark(marked@, u as int);
                    lemma_count_bounded(marked@.update(u as int, true));
                    assert forall|x: Seq<bool>| #[trigger] closed_around(n0, a, fl, s as int, x) implies marks_within(marked@.update(u as int, true), x) by {
                        assert(marks_within(marked@, x));
                        assert(x[w as int]);
                        assert(a[j as int].0 == u && a[j as int].1 == w);
                    }
                }
                marked.set(u, true);
                changed = true;
            }
            j = j + 1;
        }
    }
    marked
}

/// The outcome of a solve, in plain values: the flow value and the flows.
pub open spec fn outcome_of(r: Result<MaxFlowResult, FlowError>) -> Result<(i32, Seq<i32>), FlowError> {
    match r {
        Ok(res) => Ok((res.max_flow, res.flow@)),
        Err(e) => Err(e),
    }
}

/// What certifying a proposed flow `f` of value `value` answers.
pub open spec fn certify_outcome(
    n: nat,
    arcs: Seq<(usize, usize, i32)>,
    s: nat,
    t: nat,
    value: i32,
    f: Seq<i32>,
) -> Result<(i32, Seq<i32>), FlowError> {
    if certified(n, arcs, s as int, t as int, value as int, f) {
        Ok((value, f))
    } else {
        Err(FlowError::Uncertified)
    }
}

/// What solving from `s` to `t` answers.
pub open spec fn solve_outcome(n: nat, arcs: Seq<(usize, usize, i32)>, s: nat, t: nat) -> Result<
    (i32, Seq<i32>),
    FlowError,
> {
    if s >= n || t >= n {
        Err(FlowError::InvalidNode)
    } else if s == t {
        Err(FlowError::SameNode)
    } else if total_capacity(arcs) > i32::MAX {
        Err(FlowError::Overflow)
    } else {
        let p = push_relabel_of(n, arcs, s, t);
        if certified(n, arcs, s as int, t as int, p.0 as int, p.1) {
            Ok(p)
        } else {
            let d = dinic_of(n, arcs, s, t);
            certify_outcome(n, arcs, s, t, d.0, d.1)
        }
    }
}

/// A flow answered from `s` to `t` is a maximum flow, its value also enters
/// the sink, and some cut has a capacity equal to it.
pub open spec fn answers_max_flow(
    n: nat,
    arcs: Seq<(usize, usize, i32)>,
    s: nat,
    t: nat,
    r: Result<MaxFlowResult, FlowError>,
) -> bool {
    r matches Ok(res) ==> {
        &&& is_max_flow(n, arcs, s as int, t as int, res.max_flow as int, res.flow@)
        &&& res.max_flow == -balance(arcs, res.flow@, t as int)
        &&& exists|x: Seq<bool>|
            is_cut(n, x, s as int, t as int) && cut_capacity(arcs, x) == res.max_flow
    }
}

impl SimpleMaxFlow {
    /// Certifies a proposed flow from `source` to `sink`: one value per arc
    /// within capacity, conservation away from the terminals, `value` as the
    /// net flow out of the source, and the sink out of reach of the source in
    /// the residual network. Answers the flow when all hold.
    pub fn certify(&self, source: usize, sink: usize, value: i32, flow: Vec<i32>) -> (r: Result<
        MaxFlowResult,
        FlowError,
    >)
        requires
            self.wf(),
            source < self.spec_num_nodes(),
            sink < self.spec_num_nodes(),
            source != sink,
            total_capacity(self.spec_arcs()) <= i32::MAX,
        ensures
            outcome_of(r) == certify_outcome(
                self.spec_num_nodes(),
                self.spec_arcs(),
                source as nat,
                sink as nat,
                value,
                flow@,
            ),
            answers_max_flow(self.spec_num_nodes(), self.spec_arcs(), source as nat, sink as nat, r),
    {
        let ghost n0 = self.num_nodes as nat;
        let ghost a = self.arcs@;
        let ghost fl = flow@;
        let ghost s0 = source as int;
        let ghost t0 = sink as int;
        let n = self.num_nodes;
        let m = self.arcs.len();
        if flow.len() != m {
            return Err(FlowError::Uncertified);
        }
        let mut j: usize = 0;
        while j < m
            invariant
                j <= m,
                m == a.len(),
                a == self.arcs@,
                fl == flow@,
                fl.len() == m,
                forall|k: int| 0 <= k < j ==> 0 <= #[trigger] fl[k] <= a[k].2,
            decreases m - j,
        {
            if flow[j] < 0 || flow[j] > self.arcs[j].2 {
                return Err(FlowError::Uncertified);
            }
            j = j + 1;
        }
        let mut bal: Vec<i64> = Vec::new();
        let mut v: usize = 0;
        while v < n
            invariant
                v <= n,
                bal@.len() == v,
                forall|w: int| 0 <= w < v ==> bal@[w] == 0,
            decreases n - v,
        {
            bal.push(0);
            v = v + 1;
        }
        let mut j: usize = 0;
        while j < m
            invariant
                self.wf(),
                n == self.num_nodes,
                n0 == n,
                j <= m,
                m == a.len(),
                a == self.arcs@,
                fl == flow@,
                fl.len() == m,
                total_capacity(a) <= i32::MAX,
                forall|k: int| 0 <= k < m ==> 0 <= #[trigger] fl[k] <= a[k].2,
                bal@.len() == n,
                forall|w: int| 0 <= w < n ==> #[trigger] bal@[w] == net_out(a, fl, w, j as int),
            decreases m - j,
        {
            let (u, w, _) = self.arcs[j];
            let fj = flow[j] as i64;
            proof {
                lemma_net_out_bounded(a, fl, u as int, j as int);
                lemma_net_out_bounded(a, fl, w as int, j as int);
                lemma_cap_sum_mono(n0, a, j as int, m as int);
            }
            let bu = bal[u];
            bal.set(u, bu + fj);
            let bw = bal[w];
            bal.set(w, bw - fj);
            proof {
                assert forall|x: int| 0 <= x < n implies #[trigger] bal@[x] == net_out(a, fl, x, j + 1) by {}
            }
            j = j + 1;
        }
        let mut v: usize = 0;
        while v < n
            invariant
                v <= n,
                n0 == n,
                bal@.len() == n,
                forall|w: int| 0 <= w < n ==> #[trigger] bal@[w] == balance(a, fl, w),
                forall|w: int| 0 <= w < v && w != s0 && w != t0 ==> #[trigger] balance(a, fl, w) == 0,
                s0 == source,
                t0 == sink,
                a == self.arcs@,
                fl == flow@,
                n0 == self.num_nodes,
            decreases n - v,
        {
            if v != source && v != sink && bal[v] != 0 {
                assert(balance(a, fl, v as int) != 0);
                return Err(FlowError::Uncertified);
            }
            v = v + 1;
        }
        if bal[source] != value as i64 {
            return Err(FlowError::Uncertified);
        }
        let marked = residual_reach(n, &self.arcs, source, &flow);
        if marked[sink] {
            proof {
                assert forall|x: Seq<bool>| is_cut(n0, x, s0, t0) implies !residual_closed(a, fl, x) by {
                    if residual_closed(a, fl, x) {
                        assert(closed_around(n0, a, fl, s0, x));
                        assert(marks_within(marked@, x));
                        assert(marked@[t0]);
                        assert(x[t0]);
                    }
                }
                assert(!certified(n0, a, s0, t0, value as int, fl));
            }
            return Err(FlowError::Uncertified);
        }
        proof {
            assert(is_cut(n0, marked@, s0, t0) && residual_closed(a, fl, marked@));
            assert(certified(n0, a, s0, t0, value as int, fl));
            lemma_certified_is_max(n0, a, s0, t0, value as int, fl);
        }
        Ok(MaxFlowResult { flow, max_flow: value })
    }

    /// Computes a maximum flow from `source` to `sink`, with one flow value
    /// per arc in arc id order: push-relabel's answer when it is certified
    /// optimal, else Dinic's. Fails when either node is unknown, when
    /// they are the same node, when the capacities sum past `i32::MAX`, and
    /// when neither answer is certified. The answer depends on
    /// the network and the two nodes alone.
    pub fn solve_maxflow(&self, source: usize, sink: usize) -> (r: Result<MaxFlowResult, FlowError>)
        requires
            self.wf(),
        ensures
            outcome_of(r) == solve_outcome(
                self.spec_num_nodes(),
                self.spec_arcs(),
                source as nat,
                sink as nat,
            ),
            answers_max_flow(self.spec_num_nodes(), self.spec_arcs(), source as nat, sink as nat, r),
    {
        if source >= self.num_nodes || sink >= self.num_nodes {
            return Err(FlowError::InvalidNode);
        }
        if source == sink {
            return Err(FlowError::SameNode);
        }
        let total = self.total_capacity();
        if total.is_none() {
            return Err(FlowError::Overflow);
        }
        let (value, flow) = run_push_relabel(self.num_nodes, &self.arcs, source, sink);
        match self.certify(source, sink, value, flow) {
            Ok(res) => Ok(res),
            Err(_) => {
                let (value, flow) = run_dinic(self.num_nodes, &self.arcs, source, sink);
                self.certify(source, sink, value, flow)
            },
        }
    }

    /// The sum of all capacities, when it fits in an `i32`.
    pub fn total_capacity(&self) -> (r: Option<i32>)
        requires
            self.wf(),
        ensures
            total_capacity(self.spec_arcs()) <= i32::MAX ==> r == Some(
                total_capacity(self.spec_arcs()) as i32,
            ),
            total_capacity(self.spec_arcs()) > i32::MAX ==> r == None::<i32>,
    {
        let ghost a = self.arcs@;
        let ghost n0 = self.num_nodes as nat;
        let m = self.arcs.len();
        let mut sum: i64 = 0;
        let mut j: usize = 0;
        while j < m
            invariant
                self.wf(),
                a == self.arcs@,
                n0 == self.num_nodes,
                m == a.len(),
                j <= m,
                sum == cap_sum(a, j as int),
                0 <= sum <= i32::MAX,
            decreases m - j,
        {
            sum = sum + self.arcs[j].2 as i64;
            if sum > i32::MAX as i64 {
                proof {
                    lemma_cap_sum_mono(n0, a, j + 1, m as int);
                }
                return None;
            }
            j = j + 1;
        }
        Some(sum as i32)
    }
}

} // verus!
