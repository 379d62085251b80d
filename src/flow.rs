//! Mathematical model of networks and flows, and the laws relating them.
//!
//! A network is a node count `n` and a sequence of arcs `(tail, head, capacity)`;
//! a flow is one value per arc. A cut is a sequence of `n` booleans marking the
//! source side.
use vstd::prelude::*;

verus! {

/// Every arc joins two existing nodes and has a non-negative capacity.
pub open spec fn wf_net(n: nat, arcs: Seq<(usize, usize, i32)>) -> bool {
    forall|j: int|
        0 <= j < arcs.len() ==> (arcs[j].0 < n && arcs[j].1 < n && arcs[j].2 >= 0)
}

/// Flow leaving `v` minus flow entering `v`, over the first `i` arcs.
pub open spec fn net_out(arcs: Seq<(usize, usize, i32)>, f: Seq<i32>, v: int, i: int) -> int
    decreases i,
{
    if i <= 0 {
        0
    } else {
        net_out(arcs, f, v, i - 1) + (if arcs[i - 1].0 == v {
            f[i - 1] as int
        } else {
            0
        }) - (if arcs[i - 1].1 == v {
            f[i - 1] as int
        } else {
            0
        })
    }
}

/// Net flow leaving `v` over all arcs.
pub open spec fn balance(arcs: Seq<(usize, usize, i32)>, f: Seq<i32>, v: int) -> int {
    net_out(arcs, f, v, arcs.len() as int)
}

/// Sum of the capacities of the first `i` arcs.
pub open spec fn cap_sum(arcs: Seq<(usize, usize, i32)>, i: int) -> int
    decreases i,
{
    if i <= 0 {
        0
    } else {
        cap_sum(arcs, i - 1) + arcs[i - 1].2
    }
}

pub open spec fn total_capacity(arcs: Seq<(usize, usize, i32)>) -> int {
    cap_sum(arcs, arcs.len() as int)
}

/// One value per arc, each between zero and the arc's capacity.
pub open spec fn feasible(arcs: Seq<(usize, usize, i32)>, f: Seq<i32>) -> bool {
    &&& f.len() == arcs.len()
    &&& forall|j: int| 0 <= j < arcs.len() ==> 0 <= #[trigger] f[j] <= arcs[j].2
}

/// Inflow equals outflow at every node other than `s` and `t`.
pub open spec fn conserving(n: nat, arcs: Seq<(usize, usize, i32)>, f: Seq<i32>, s: int, t: int) -> bool {
    forall|v: int| 0 <= v < n && v != s && v != t ==> #[trigger] balance(arcs, f, v) == 0
}

/// A feasible flow from `s` to `t`.
pub open spec fn is_flow(n: nat, arcs: Seq<(usize, usize, i32)>, f: Seq<i32>, s: int, t: int) -> bool {
    feasible(arcs, f) && conserving(n, arcs, f, s, t)
}

/// A node set holding `s` and not `t`.
pub open spec fn is_cut(n: nat, x: Seq<bool>, s: int, t: int) -> bool {
    x.len() == n && 0 <= s < n && 0 <= t < n && x[s] && !x[t]
}

/// Flow leaving the set `x` minus flow entering it, over the first `i` arcs.
pub open spec fn cross(arcs: Seq<(usize, usize, i32)>, f: Seq<i32>, x: Seq<bool>, i: int) -> int
    decreases i,
{
    if i <= 0 {
        0
    } else {
        cross(arcs, f, x, i - 1) + (if x[arcs[i - 1].0 as int] {
            f[i - 1] as int
        } else {
            0
        }) - (if x[arcs[i - 1].1 as int] {
            f[i - 1] as int
        } else {
            0
        })
    }
}

/// Capacity of the first `i` arcs that leave the set `x`.
pub open spec fn cut_cap_upto(arcs: Seq<(usize, usize, i32)>, x: Seq<bool>, i: int) -> int
    decreases i,
{
    if i <= 0 {
        0
    } else {
        cut_cap_upto(arcs, x, i - 1) + (if x[arcs[i - 1].0 as int] && !x[arcs[i - 1].1 as int] {
            arcs[i - 1].2 as int
        } else {
            0
        })
    }
}

/// Capacity of the cut `x`: total capacity of the arcs leaving it.
pub open spec fn cut_capacity(arcs: Seq<(usize, usize, i32)>, x: Seq<bool>) -> int {
    cut_cap_upto(arcs, x, arcs.len() as int)
}

/// No arc with residual capacity under `f` leaves the set `x`: forward arcs
/// out of `x` are saturated and arcs into `x` carry no flow.
pub open spec fn residual_closed(arcs: Seq<(usize, usize, i32)>, f: Seq<i32>, x: Seq<bool>) -> bool {
    forall|j: int|
        0 <= j < arcs.len() ==> {
            &&& (x[arcs[j].0 as int] && f[j] < arcs[j].2 ==> x[arcs[j].1 as int])
            &&& (x[arcs[j].1 as int] && f[j] > 0 ==> x[arcs[j].0 as int])
        }
}

/// No arc of positive capacity leaves the set `x`.
pub open spec fn capacity_closed(arcs: Seq<(usize, usize, i32)>, x: Seq<bool>) -> bool {
    forall|j: int|
        0 <= j < arcs.len() && x[arcs[j].0 as int] && arcs[j].2 > 0 ==> x[arcs[j].1 as int]
}

/// What a solve certifies before it answers: `f` is a flow of value `value`, and
/// some cut is closed in its residual network.
pub open spec fn certified(
    n: nat,
    arcs: Seq<(usize, usize, i32)>,
    s: int,
    t: int,
    value: int,
    f: Seq<i32>,
) -> bool {
    &&& is_flow(n, arcs, f, s, t)
    &&& value == balance(arcs, f, s)
    &&& exists|x: Seq<bool>| is_cut(n, x, s, t) && residual_closed(arcs, f, x)
}

/// `f` is a flow of value `value`, and no flow has a larger value.
pub open spec fn is_max_flow(
    n: nat,
    arcs: Seq<(usize, usize, i32)>,
    s: int,
    t: int,
    value: int,
    f: Seq<i32>,
) -> bool {
    &&& is_flow(n, arcs, f, s, t)
    &&& value == balance(arcs, f, s)
    &&& forall|g: Seq<i32>| is_flow(n, arcs, g, s, t) ==> balance(arcs, g, s) <= value
}


/// Marking one more node `v` changes the crossing flow by `v`'s own balance.
proof fn lemma_cross_mark(
    n: nat,
    arcs: Seq<(usize, usize, i32)>,
    f: Seq<i32>,
    x: Seq<bool>,
    v: int,
    i: int,
)
    requires
        wf_net(n, arcs),
        x.len() == n,
        0 <= v < n,
        !x[v],
        0 <= i <= arcs.len(),
    ensures
        cross(arcs, f, x.update(v, true), i) == cross(arcs, f, x, i) + net_out(arcs, f, v, i),
    decreases i,
{
    if i > 0 {
        lemma_cross_mark(n, arcs, f, x, v, i - 1);
    }
}

/// With no node marked, nothing crosses.
proof fn lemma_cross_empty(n: nat, arcs: Seq<(usize, usize, i32)>, f: Seq<i32>, x: Seq<bool>, i: int)
    requires
        wf_net(n, arcs),
        x.len() == n,
        forall|v: int| 0 <= v < n ==> !x[v],
        0 <= i <= arcs.len(),
    ensures
        cross(arcs, f, x, i) == 0,
    decreases i,
{
    if i > 0 {
        lemma_cross_empty(n, arcs, f, x, i - 1);
    }
}

/// The marks of `x` among the nodes below `k`.
spec fn marks_below(x: Seq<bool>, k: int) -> Seq<bool> {
    Seq::new(x.len(), |v: int| x[v] && v < k)
}

/// For a conserving flow, the flow crossing the marks below `k` is the balance
/// of the marked terminals below `k`.
proof fn lemma_cross_prefix(
    n: nat,
    arcs: Seq<(usize, usize, i32)>,
    f: Seq<i32>,
    s: int,
    t: int,
    x: Seq<bool>,
    k: int,
)
    requires
        wf_net(n, arcs),
        conserving(n, arcs, f, s, t),
        x.len() == n,
        0 <= k <= n,
    ensures
        cross(arcs, f, marks_below(x, k), arcs.len() as int) == (if 0 <= s < k && x[s] {
            balance(arcs, f, s)
        } else {
            0
        }) + (if 0 <= t < k && x[t] && t != s {
            balance(arcs, f, t)
        } else {
            0
        }),
    decreases k,
{
    let m = arcs.len() as int;
    if k == 0 {
        lemma_cross_empty(n, arcs, f, marks_below(x, 0), m);
    } else {
        lemma_cross_prefix(n, arcs, f, s, t, x, k - 1);
        let v = k - 1;
        if x[v] {
            assert(marks_below(x, k) =~= marks_below(x, k - 1).update(v, true));
            lemma_cross_mark(n, arcs, f, marks_below(x, k - 1), v, m);
            if v != s && v != t {
                assert(balance(arcs, f, v) == 0);
            }
        } else {
            assert(marks_below(x, k) =~= marks_below(x, k - 1));
        }
    }
}

/// For a conserving flow, the flow crossing any node set is the balance of the
/// terminals inside it.
proof fn lemma_cross_terminals(
    n: nat,
    arcs: Seq<(usize, usize, i32)>,
    f: Seq<i32>,
    s: int,
    t: int,
    x: Seq<bool>,
)
    requires
        wf_net(n, arcs),
        conserving(n, arcs, f, s, t),
        x.len() == n,
        0 <= s < n,
        0 <= t < n,
        s != t,
    ensures
        cross(arcs, f, x, arcs.len() as int) == (if x[s] {
            balance(arcs, f, s)
        } else {
            0
        }) + (if x[t] {
            balance(arcs, f, t)
        } else {
            0
        }),
{
    lemma_cross_prefix(n, arcs, f, s, t, x, n as int);
    assert(marks_below(x, n as int) =~= x);
}

/// A feasible flow crosses a node set by at most the set's cut capacity.
proof fn lemma_cross_le_cap(arcs: Seq<(usize, usize, i32)>, f: Seq<i32>, x: Seq<bool>, i: int)
    requires
        feasible(arcs, f),
        0 <= i <= arcs.len(),
    ensures
        cross(arcs, f, x, i) <= cut_cap_upto(arcs, x, i),
    decreases i,
{
    if i > 0 {
        lemma_cross_le_cap(arcs, f, x, i - 1);
        assert(0 <= f[i - 1] <= arcs[i - 1].2);
    }
}

/// A feasible flow crosses a residually closed set by exactly its cut capacity.
proof fn lemma_cross_eq_cap(arcs: Seq<(usize, usize, i32)>, f: Seq<i32>, x: Seq<bool>, i: int)
    requires
        feasible(arcs, f),
        residual_closed(arcs, f, x),
        0 <= i <= arcs.len(),
    ensures
        cross(arcs, f, x, i) == cut_cap_upto(arcs, x, i),
    decreases i,
{
    if i > 0 {
        lemma_cross_eq_cap(arcs, f, x, i - 1);
        assert(0 <= f[i - 1] <= arcs[i - 1].2);
    }
}

/// The value of a flow, the net flow leaving the source, is the net flow
/// entering the sink.
pub proof fn lemma_value_reaches_sink(
    n: nat,
    arcs: Seq<(usize, usize, i32)>,
    f: Seq<i32>,
    s: int,
    t: int,
)
    requires
        wf_net(n, arcs),
        is_flow(n, arcs, f, s, t),
        0 <= s < n,
        0 <= t < n,
        s != t,
    ensures
        balance(arcs, f, s) == -balance(arcs, f, t),
{
    let all = Seq::new(n, |v: int| true);
    lemma_cross_terminals(n, arcs, f, s, t, all);
    lemma_cross_all(arcs, f, all, arcs.len() as int);
}

/// With every node marked, nothing crosses.
proof fn lemma_cross_all(arcs: Seq<(usize, usize, i32)>, f: Seq<i32>, x: Seq<bool>, i: int)
    requires
        0 <= i <= arcs.len(),
        forall|j: int| 0 <= j < arcs.len() ==> x[arcs[j].0 as int] && x[arcs[j].1 as int],
    ensures
        cross(arcs, f, x, i) == 0,
    decreases i,
{
    if i > 0 {
        lemma_cross_all(arcs, f, x, i - 1);
    }
}

/// Weak duality: the value of any flow is at most the capacity of any cut
/// separating the source from the sink.
pub proof fn lemma_flow_le_cut(
    n: nat,
    arcs: Seq<(usize, usize, i32)>,
    f: Seq<i32>,
    s: int,
    t: int,
    x: Seq<bool>,
)
    requires
        wf_net(n, arcs),
        is_flow(n, arcs, f, s, t),
        is_cut(n, x, s, t),
        s != t,
    ensures
        balance(arcs, f, s) <= cut_capacity(arcs, x),
{
    lemma_cross_terminals(n, arcs, f, s, t, x);
    lemma_cross_le_cap(arcs, f, x, arcs.len() as int);
}

/// A certified flow is maximum, its value is the net flow into the sink, and
/// some cut has a capacity equal to its value.
pub proof fn lemma_certified_is_max(
    n: nat,
    arcs: Seq<(usize, usize, i32)>,
    s: int,
    t: int,
    value: int,
    f: Seq<i32>,
)
    requires
        wf_net(n, arcs),
        certified(n, arcs, s, t, value, f),
        s != t,
    ensures
        is_max_flow(n, arcs, s, t, value, f),
        value == -balance(arcs, f, t),
        exists|x: Seq<bool>| is_cut(n, x, s, t) && cut_capacity(arcs, x) == value,
{
    let x = choose|x: Seq<bool>| is_cut(n, x, s, t) && residual_closed(arcs, f, x);
    lemma_cross_terminals(n, arcs, f, s, t, x);
    lemma_cross_eq_cap(arcs, f, x, arcs.len() as int);
    lemma_value_reaches_sink(n, arcs, f, s, t);
    assert forall|g: Seq<i32>| is_flow(n, arcs, g, s, t) implies balance(arcs, g, s) <= value by {
        lemma_flow_le_cut(n, arcs, g, s, t, x);
    }
    assert(is_cut(n, x, s, t) && cut_capacity(arcs, x) == value);
}

/// Balances depend on the arcs' endpoints alone, not on their capacities.
proof fn lemma_net_out_same_ends(
    arcs1: Seq<(usize, usize, i32)>,
    arcs2: Seq<(usize, usize, i32)>,
    f: Seq<i32>,
    v: int,
    i: int,
)
    requires
        arcs1.len() == arcs2.len(),
        0 <= i <= arcs1.len(),
        forall|j: int| 0 <= j < arcs1.len() ==> arcs1[j].0 == arcs2[j].0 && arcs1[j].1 == arcs2[j].1,
    ensures
        net_out(arcs1, f, v, i) == net_out(arcs2, f, v, i),
    decreases i,
{
    if i > 0 {
        lemma_net_out_same_ends(arcs1, arcs2, f, v, i - 1);
    }
}

/// The zero flow has a zero balance everywhere.
proof fn lemma_net_out_zero(arcs: Seq<(usize, usize, i32)>, f: Seq<i32>, v: int, i: int)
    requires
        0 <= i <= arcs.len(),
        f.len() == arcs.len(),
        forall|j: int| 0 <= j < f.len() ==> f[j] == 0,
    ensures
        net_out(arcs, f, v, i) == 0,
    decreases i,
{
    if i > 0 {
        lemma_net_out_zero(arcs, f, v, i - 1);
    }
}

/// A set that no positive-capacity arc leaves has a cut capacity of zero.
proof fn lemma_closed_cap_zero(n: nat, arcs: Seq<(usize, usize, i32)>, x: Seq<bool>, i: int)
    requires
        wf_net(n, arcs),
        capacity_closed(arcs, x),
        0 <= i <= arcs.len(),
    ensures
        cut_cap_upto(arcs, x, i) == 0,
    decreases i,
{
    if i > 0 {
        lemma_closed_cap_zero(n, arcs, x, i - 1);
    }
}

/// A maximum flow has a non-negative value: the zero flow is a flow.
pub proof fn lemma_max_flow_nonnegative(
    n: nat,
    arcs: Seq<(usize, usize, i32)>,
    s: int,
    t: int,
    value: int,
    f: Seq<i32>,
)
    requires
        wf_net(n, arcs),
        is_max_flow(n, arcs, s, t, value, f),
    ensures
        value >= 0,
{
    let z = Seq::new(arcs.len(), |j: int| 0i32);
    assert forall|v: int| 0 <= v < n && v != s && v != t implies #[trigger] balance(arcs, z, v)
        == 0 by {
        lemma_net_out_zero(arcs, z, v, arcs.len() as int);
    }
    lemma_net_out_zero(arcs, z, s, arcs.len() as int);
    assert(is_flow(n, arcs, z, s, t));
}

/// When no path of positive-capacity arcs leads from the source to the sink
/// (some set holds the source, not the sink, and no such arc leaves it), the
/// maximum flow value is zero.
pub proof fn lemma_disconnected_zero(
    n: nat,
    arcs: Seq<(usize, usize, i32)>,
    s: int,
    t: int,
    value: int,
    f: Seq<i32>,
    x: Seq<bool>,
)
    requires
        wf_net(n, arcs),
        s != t,
        is_max_flow(n, arcs, s, t, value, f),
        is_cut(n, x, s, t),
        capacity_closed(arcs, x),
    ensures
        value == 0,
{
    lemma_max_flow_nonnegative(n, arcs, s, t, value, f);
    lemma_flow_le_cut(n, arcs, f, s, t, x);
    lemma_closed_cap_zero(n, arcs, x, arcs.len() as int);
}

/// Raising capacities, with the same nodes and arc endpoints, never lowers
/// the maximum flow value.
pub proof fn lemma_capacity_monotone(
    n: nat,
    arcs1: Seq<(usize, usize, i32)>,
    arcs2: Seq<(usize, usize, i32)>,
    s: int,
    t: int,
    value1: int,
    f1: Seq<i32>,
    value2: int,
    f2: Seq<i32>,
)
    requires
        wf_net(n, arcs1),
        wf_net(n, arcs2),
        arcs1.len() == arcs2.len(),
        forall|j: int|
            0 <= j < arcs1.len() ==> arcs1[j].0 == arcs2[j].0 && arcs1[j].1 == arcs2[j].1
                && arcs1[j].2 <= arcs2[j].2,
        is_max_flow(n, arcs1, s, t, value1, f1),
        is_max_flow(n, arcs2, s, t, value2, f2),
    ensures
        value1 <= value2,
{
    let m = arcs1.len() as int;
    assert forall|v: int| 0 <= v < n && v != s && v != t implies #[trigger] balance(arcs2, f1, v)
        == 0 by {
        lemma_net_out_same_ends(arcs1, arcs2, f1, v, m);
        assert(balance(arcs1, f1, v) == 0);
    }
    lemma_net_out_same_ends(arcs1, arcs2, f1, s, m);
    assert forall|j: int| 0 <= j < arcs2.len() implies 0 <= #[trigger] f1[j] <= arcs2[j].2 by {
        assert(0 <= f1[j] <= arcs1[j].2);
    }
    assert(is_flow(n, arcs2, f1, s, t));
}

} // verus!
