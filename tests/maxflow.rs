use maxflow_net::{FlowError, MaxFlowResult, SimpleMaxFlow};

fn build(n: usize, arcs: &[(usize, usize, i32)]) -> SimpleMaxFlow {
    let mut net = SimpleMaxFlow::new();
    net.add_nodes(n);
    for &(u, v, c) in arcs {
        net.add_arc_with_capacity(u, v, c).unwrap();
    }
    net
}

fn check_flow(net: &SimpleMaxFlow, s: usize, t: usize, res: &MaxFlowResult) {
    let n = net.num_nodes();
    let mut bal = vec![0i64; n];
    assert_eq!(res.flow.len(), net.num_arcs());
    for a in 0..net.num_arcs() {
        let f = res.flow[a];
        assert!(f >= 0 && f <= net.capacity(a).unwrap());
        bal[net.tail(a).unwrap()] += f as i64;
        bal[net.head(a).unwrap()] -= f as i64;
    }
    for v in 0..n {
        if v != s && v != t {
            assert_eq!(bal[v], 0);
        }
    }
    assert_eq!(bal[s], res.max_flow as i64);
    assert_eq!(bal[t], -(res.max_flow as i64));
}

#[test]
fn diamond_with_cross_arc() {
    let net = build(4, &[(0, 1, 10), (0, 2, 5), (1, 3, 5), (2, 3, 10), (1, 2, 15)]);
    let res = net.solve_maxflow(0, 3).unwrap();
    assert_eq!(res.max_flow, 15);
    assert_eq!(res.flow, vec![10, 5, 5, 10, 5]);
    check_flow(&net, 0, 3, &res);
}

#[test]
fn single_arc() {
    let net = build(2, &[(0, 1, 7)]);
    let res = net.solve_maxflow(0, 1).unwrap();
    assert_eq!(res.max_flow, 7);
    assert_eq!(res.flow, vec![7]);
}

#[test]
fn no_arcs() {
    let net = build(2, &[]);
    let res = net.solve_maxflow(0, 1).unwrap();
    assert_eq!(res.max_flow, 0);
    assert!(res.flow.is_empty());
}

#[test]
fn conservation_and_capacity_on_larger_network() {
    let arcs = [
        (0, 1, 16),
        (0, 2, 13),
        (1, 2, 10),
        (2, 1, 4),
        (1, 3, 12),
        (3, 2, 9),
        (2, 4, 14),
        (4, 3, 7),
        (3, 5, 20),
        (4, 5, 4),
    ];
    let net = build(6, &arcs);
    let res = net.solve_maxflow(0, 5).unwrap();
    assert_eq!(res.max_flow, 23);
    check_flow(&net, 0, 5, &res);
}

#[test]
fn value_equals_min_cut() {
    // The cut {0, 1, 2, 4} has capacity 12 + 7 + 4 = 23.
    let arcs = [
        (0, 1, 16),
        (0, 2, 13),
        (1, 2, 10),
        (2, 1, 4),
        (1, 3, 12),
        (3, 2, 9),
        (2, 4, 14),
        (4, 3, 7),
        (3, 5, 20),
        (4, 5, 4),
    ];
    let net = build(6, &arcs);
    let res = net.solve_maxflow(0, 5).unwrap();
    let side = [true, true, true, false, true, false];
    let cap: i32 = arcs.iter().filter(|a| side[a.0] && !side[a.1]).map(|a| a.2).sum();
    assert_eq!(res.max_flow, cap);
}

#[test]
fn parallel_arcs_and_reverse_direction() {
    let net = build(3, &[(0, 1, 3), (0, 1, 4), (1, 2, 5), (2, 1, 9)]);
    let res = net.solve_maxflow(0, 2).unwrap();
    assert_eq!(res.max_flow, 5);
    check_flow(&net, 0, 2, &res);
    let back = net.solve_maxflow(2, 0).unwrap();
    assert_eq!(back.max_flow, 0);
}

#[test]
fn disconnected_gives_zero() {
    let net = build(4, &[(0, 1, 5), (2, 3, 5), (3, 0, 2)]);
    let res = net.solve_maxflow(0, 3).unwrap();
    assert_eq!(res.max_flow, 0);
    check_flow(&net, 0, 3, &res);
}

#[test]
fn zero_capacity_arc_disconnects() {
    let net = build(2, &[(0, 1, 0)]);
    let res = net.solve_maxflow(0, 1).unwrap();
    assert_eq!(res.max_flow, 0);
    assert_eq!(res.flow, vec![0]);
}

#[test]
fn solving_twice_gives_the_same_answer() {
    let net = build(4, &[(0, 1, 3), (0, 2, 3), (1, 2, 2), (1, 3, 2), (2, 3, 4)]);
    let a = net.solve_maxflow(0, 3).unwrap();
    let b = net.solve_maxflow(0, 3).unwrap();
    assert_eq!(a.flow, b.flow);
    assert_eq!(a.max_flow, b.max_flow);
    assert_eq!(a.max_flow, 6);
}

#[test]
fn raising_a_capacity_never_lowers_the_value() {
    let low = build(4, &[(0, 1, 3), (0, 2, 3), (1, 2, 2), (1, 3, 2), (2, 3, 2)]);
    let high = build(4, &[(0, 1, 3), (0, 2, 3), (1, 2, 2), (1, 3, 2), (2, 3, 9)]);
    let a = low.solve_maxflow(0, 3).unwrap().max_flow;
    let b = high.solve_maxflow(0, 3).unwrap().max_flow;
    assert!(a <= b);
    assert_eq!(a, 4);
    assert_eq!(b, 6);
}

#[test]
fn ids_are_dense_and_in_order() {
    let mut net = SimpleMaxFlow::default();
    assert_eq!(net.add_node(), 0);
    assert_eq!(net.add_nodes(3), vec![1, 2, 3]);
    assert_eq!(net.add_nodes(0), Vec::<usize>::new());
    assert_eq!(net.num_nodes(), 4);
    assert_eq!(net.add_arc_with_capacity(3, 1, 2), Ok(0));
    assert_eq!(net.add_arc_with_capacity(0, 2, 9), Ok(1));
    assert_eq!(net.num_arcs(), 2);
    assert_eq!(net.tail(0), Ok(3));
    assert_eq!(net.head(0), Ok(1));
    assert_eq!(net.tail(1), Ok(0));
    assert_eq!(net.head(1), Ok(2));
    assert_eq!(net.capacity(1), Ok(9));
}

#[test]
fn bad_arcs_are_refused() {
    let mut net = build(2, &[]);
    assert_eq!(net.add_arc_with_capacity(0, 2, 1), Err(FlowError::InvalidNode));
    assert_eq!(net.add_arc_with_capacity(5, 1, 1), Err(FlowError::InvalidNode));
    assert_eq!(net.add_arc_with_capacity(0, 1, -1), Err(FlowError::InvalidCapacity));
    assert_eq!(net.num_arcs(), 0);
}

#[test]
fn unknown_arc_lookups_fail() {
    let net = build(2, &[(0, 1, 1)]);
    assert_eq!(net.tail(1), Err(FlowError::UnknownArc));
    assert_eq!(net.head(7), Err(FlowError::UnknownArc));
    assert_eq!(net.capacity(1), Err(FlowError::UnknownArc));
}

#[test]
fn solve_refuses_bad_terminals() {
    let net = build(2, &[(0, 1, 1)]);
    assert_eq!(net.solve_maxflow(0, 2).unwrap_err(), FlowError::InvalidNode);
    assert_eq!(net.solve_maxflow(9, 1).unwrap_err(), FlowError::InvalidNode);
    assert_eq!(net.solve_maxflow(1, 1).unwrap_err(), FlowError::SameNode);
}

#[test]
fn capacity_overflow_is_refused() {
    let net = build(3, &[(0, 1, i32::MAX), (1, 2, 1)]);
    assert_eq!(net.total_capacity(), None);
    assert_eq!(net.solve_maxflow(0, 2).unwrap_err(), FlowError::Overflow);
    let fits = build(3, &[(0, 1, i32::MAX - 1), (1, 2, 1)]);
    assert_eq!(fits.total_capacity(), Some(i32::MAX));
    assert_eq!(fits.solve_maxflow(0, 2).unwrap().max_flow, 1);
}

#[test]
fn certify_accepts_a_maximum_flow() {
    let net = build(4, &[(0, 1, 10), (0, 2, 5), (1, 3, 5), (2, 3, 10), (1, 2, 15)]);
    let res = net.certify(0, 3, 15, vec![10, 5, 5, 10, 5]).unwrap();
    assert_eq!(res.max_flow, 15);
    assert_eq!(res.flow, vec![10, 5, 5, 10, 5]);
}

#[test]
fn certify_rejects_a_smaller_flow() {
    let net = build(4, &[(0, 1, 10), (0, 2, 5), (1, 3, 5), (2, 3, 10), (1, 2, 15)]);
    let r = net.certify(0, 3, 10, vec![5, 5, 5, 5, 0]);
    assert_eq!(r.unwrap_err(), FlowError::Uncertified);
}

#[test]
fn certify_rejects_broken_flows() {
    let net = build(3, &[(0, 1, 4), (1, 2, 3)]);
    // over capacity
    assert_eq!(net.certify(0, 2, 4, vec![4, 4]).unwrap_err(), FlowError::Uncertified);
    // not conserved at node 1
    assert_eq!(net.certify(0, 2, 4, vec![4, 3]).unwrap_err(), FlowError::Uncertified);
    // wrong value
    assert_eq!(net.certify(0, 2, 2, vec![3, 3]).unwrap_err(), FlowError::Uncertified);
    // wrong length
    assert_eq!(net.certify(0, 2, 3, vec![3]).unwrap_err(), FlowError::Uncertified);
    // negative flow
    assert_eq!(net.certify(0, 2, 0, vec![-1, -1]).unwrap_err(), FlowError::Uncertified);
    assert_eq!(net.certify(0, 2, 3, vec![3, 3]).unwrap().max_flow, 3);
}
