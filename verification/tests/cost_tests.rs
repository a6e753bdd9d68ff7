use prada::architecture::PRADAArchitecture;
use prada::extraction::{CompilingCost, CompilingCostFunction, CostNode};
use std::cmp::Ordering;

fn cost(runtime: u64, energy: u64) -> CompilingCost {
    CompilingCost { runtime, energy_consumption: energy }
}

fn cost_function() -> CompilingCostFunction {
    CompilingCostFunction { architecture: PRADAArchitecture::new(128, 512) }
}

#[test]
fn cost_ordering_is_lexicographic() {
    // (r1, e1) < (r2, e2) iff r1 < r2 or (r1 == r2 and e1 < e2)
    assert!(cost(1, 500) < cost(2, 0));
    assert!(cost(2, 1) < cost(2, 3));
    assert!(!(cost(2, 3) < cost(2, 3)));
    assert!(!(cost(3, 0) < cost(2, 500)));
    assert_eq!(cost(2, 3).partial_cmp(&cost(2, 3)), Some(Ordering::Equal));
    assert_eq!(cost(1, 9).partial_cmp(&cost(1, 2)), Some(Ordering::Greater));
    assert_eq!(cost(1, 2).partial_cmp(&cost(4, 0)), Some(Ordering::Less));
}

#[test]
fn cost_addition_is_componentwise() {
    let s = cost(49, 150).add(cost(35, 100));
    assert_eq!(s, cost(84, 250));
}

#[test]
fn cost_sum_has_identity_zero() {
    assert_eq!(CompilingCost::sum(&vec![]), cost(0, 0));
    assert_eq!(CompilingCost::sum(&vec![cost(1, 2), cost(3, 4), cost(5, 6)]), cost(9, 12));
}

#[test]
fn leaf_cost_is_zero() {
    assert_eq!(CompilingCost::leaf(CostNode::False), cost(0, 0));
    assert_eq!(CompilingCost::leaf(CostNode::Input(7)), cost(0, 0));
}

#[test]
fn self_cycle_has_no_cost() {
    // an e-node referring to its own e-class must be rejected
    let f = cost_function();
    let children = vec![cost(0, 0), cost(0, 0), cost(0, 0)];
    assert!(f.cost(5, &CostNode::Maj(5, 1, 2), &children).is_none());
    assert!(f.cost(1, &CostNode::Maj(5, 1, 2), &children).is_none());
    assert!(f.cost(7, &CostNode::Not(7), &vec![cost(0, 0)]).is_none());
}

#[test]
fn node_cost_is_opcost_plus_children() {
    let f = cost_function();
    // leaves cost nothing
    assert_eq!(f.cost(0, &CostNode::False, &vec![]), Some(cost(0, 0)));
    assert_eq!(f.cost(0, &CostNode::Input(3), &vec![]), Some(cost(0, 0)));
    // an inversion costs (35, 100) plus its child
    assert_eq!(f.cost(9, &CostNode::Not(2), &vec![cost(10, 20)]), Some(cost(45, 120)));
    // a majority costs (49, 150) plus its three children
    let children = vec![cost(10, 20), cost(1, 2), cost(0, 0)];
    assert_eq!(f.cost(0, &CostNode::Maj(1, 2, 3), &children), Some(cost(60, 172)));
}

#[test]
fn cost_node_children() {
    assert_eq!(CostNode::False.children(), Vec::<u64>::new());
    assert_eq!(CostNode::Input(4).children(), Vec::<u64>::new());
    assert_eq!(CostNode::Not(9).children(), vec![9]);
    assert_eq!(CostNode::Maj(1, 2, 3).children(), vec![1, 2, 3]);
}
