//! The cost model handed to the e-graph extractor: a two-field cost ordered
//! lexicographically by (runtime, energy), and the per-node cost function.
//!
//! The extractor is an outside collaborator: it calls the cost function once
//! per e-node with the costs of the node's children and picks the cheapest
//! equivalent node. An e-node that refers to its own e-class has no cost, which
//! tells the extractor to drop that candidate.

use vstd::prelude::*;

use core::cmp::Ordering;
use vstd::std_specs::cmp::PartialOrdSpec;
use crate::architecture::PRADAArchitecture;
use crate::program::{NEGATE_ENERGY, NEGATE_LATENCY_NS, TRA_ENERGY, TRA_LATENCY_NS};

verus! {

/// The cost model, tied to one architecture description.
pub struct CompilingCostFunction {
    /// The architecture whose latency and energy table the costs come from.
    pub architecture: PRADAArchitecture,
}

/// Cost of compiling one subtree: estimated runtime and energy, both summed
/// over the subtree. Lower is better; the order is lexicographic by
/// (runtime, energy consumption).
#[derive(Clone, Copy, PartialEq, Eq, Structural, Debug)]
pub struct CompilingCost {
    /// In ns (lower is better), estimated by summing all latencies.
    pub runtime: u64,
    /// In mJ/KOps (lower is better).
    pub energy_consumption: u64,
}

/// The strict lexicographic order on costs: first by runtime, then by energy.
pub open spec fn spec_cost_lt(a: CompilingCost, b: CompilingCost) -> bool {
    a.runtime < b.runtime || (a.runtime == b.runtime && a.energy_consumption
        < b.energy_consumption)
}

impl PartialOrd for CompilingCost {
    fn partial_cmp(&self, other: &Self) -> (r: Option<Ordering>) {
        if self.runtime == other.runtime {
            if self.energy_consumption == other.energy_consumption {
                Some(Ordering::Equal)
            } else if self.energy_consumption < other.energy_consumption {
                Some(Ordering::Less)
            } else {
                Some(Ordering::Greater)
            }
        } else if self.runtime < other.runtime {
            Some(Ordering::Less)
        } else {
            Some(Ordering::Greater)
        }
    }
}

impl vstd::std_specs::cmp::PartialOrdSpecImpl for CompilingCost {
    open spec fn obeys_partial_cmp_spec() -> bool {
        true
    }

    open spec fn partial_cmp_spec(&self, other: &Self) -> Option<Ordering> {
        if self.runtime == other.runtime {
            if self.energy_consumption == other.energy_consumption {
                Some(Ordering::Equal)
            } else if self.energy_consumption < other.energy_consumption {
                Some(Ordering::Less)
            } else {
                Some(Ordering::Greater)
            }
        } else if self.runtime < other.runtime {
            Some(Ordering::Less)
        } else {
            Some(Ordering::Greater)
        }
    }
}

/// One cost compares strictly below another exactly when its runtime is
/// smaller, or the runtimes are equal and its energy is smaller.
pub proof fn lemma_cost_ordering(a: CompilingCost, b: CompilingCost)
    ensures
        a.partial_cmp_spec(&b) == Some(Ordering::Less) <==> spec_cost_lt(a, b),
        a.partial_cmp_spec(&b) == Some(Ordering::Greater) <==> spec_cost_lt(b, a),
        a.partial_cmp_spec(&b) == Some(Ordering::Equal) <==> a == b,
{
}

/// One e-node as the extractor sees it: children are e-class ids. Unlike an
/// MIG node, inversion appears as a node of its own here.
#[derive(Clone, Copy, PartialEq, Eq, Structural, Debug)]
pub enum CostNode {
    /// The constant-false e-node.
    False,
    /// A primary input, by input index.
    Input(u64),
    /// An inversion of one e-class.
    Not(u64),
    /// A majority of three e-classes.
    Maj(u64, u64, u64),
}

impl CostNode {
    /// The e-class ids of the node's children.
    pub open spec fn spec_children(self) -> Seq<u64> {
        match self {
            CostNode::False => seq![],
            CostNode::Input(_) => seq![],
            CostNode::Not(c) => seq![c],
            CostNode::Maj(a, b, c) => seq![a, b, c],
        }
    }

    /// Runtime of the node's own operation, exclusive of its children.
    pub open spec fn spec_opcost_runtime(self) -> u64 {
        match self {
            CostNode::False => 0,
            CostNode::Input(_) => 0,
            CostNode::Not(_) => NEGATE_LATENCY_NS,
            CostNode::Maj(_, _, _) => TRA_LATENCY_NS,
        }
    }

    /// Energy of the node's own operation, exclusive of its children.
    pub open spec fn spec_opcost_energy(self) -> u64 {
        match self {
            CostNode::False => 0,
            CostNode::Input(_) => 0,
            CostNode::Not(_) => NEGATE_ENERGY,
            CostNode::Maj(_, _, _) => TRA_ENERGY,
        }
    }

    /// The e-class ids of the node's children.
    pub fn children(&self) -> (r: Vec<u64>)
        ensures
            r@ == self.spec_children(),
    {
        match self {
            CostNode::False => vec![],
            CostNode::Input(_) => vec![],
            CostNode::Not(c) => vec![*c],
            CostNode::Maj(a, b, c) => vec![*a, *b, *c],
        }
    }
}

/// Sum of the runtimes of a sequence of costs.
pub open spec fn sum_cost_runtime(s: Seq<CompilingCost>) -> int
    decreases s.len(),
{
    if s.len() == 0 {
        0
    } else {
        sum_cost_runtime(s.drop_last()) + s.last().runtime
    }
}

/// Sum of the energies of a sequence of costs.
pub open spec fn sum_cost_energy(s: Seq<CompilingCost>) -> int
    decreases s.len(),
{
    if s.len() == 0 {
        0
    } else {
        sum_cost_energy(s.drop_last()) + s.last().energy_consumption
    }
}

/// Both sums are nonnegative.
pub proof fn lemma_cost_sum_nonneg(s: Seq<CompilingCost>)
    ensures
        0 <= sum_cost_runtime(s),
        0 <= sum_cost_energy(s),
    decreases s.len(),
{
    if s.len() > 0 {
        lemma_cost_sum_nonneg(s.drop_last());
    }
}

/// The sum over a prefix never exceeds the sum over the whole sequence.
pub proof fn lemma_cost_sum_prefix(s: Seq<CompilingCost>, i: int)
    requires
        0 <= i <= s.len(),
    ensures
        0 <= sum_cost_runtime(s.subrange(0, i)) <= sum_cost_runtime(s),
        0 <= sum_cost_energy(s.subrange(0, i)) <= sum_cost_energy(s),
    decreases s.len() - i,
{
    lemma_cost_sum_nonneg(s.subrange(0, i));
    if i < s.len() {
        lemma_cost_sum_prefix(s, i + 1);
        let pre = s.subrange(0, i);
        let post = s.subrange(0, i + 1);
        assert(post.drop_last() =~= pre);
        assert(sum_cost_runtime(post) == sum_cost_runtime(pre) + post.last().runtime);
        assert(sum_cost_energy(post) == sum_cost_energy(pre) + post.last().energy_consumption);
    } else {
        assert(s.subrange(0, i) =~= s);
    }
}

impl CompilingCost {
    /// The cost of a leaf node: nothing to compute, nothing to spend.
    pub fn leaf(root: CostNode) -> (r: Self)
        ensures
            r.runtime == 0,
            r.energy_consumption == 0,
    {
        let _ = root;
        Self { runtime: 0, energy_consumption: 0 }
    }

    /// Componentwise addition of two costs.
    pub fn add(self, rhs: Self) -> (r: Self)
        requires
            self.runtime + rhs.runtime <= u64::MAX,
            self.energy_consumption + rhs.energy_consumption <= u64::MAX,
        ensures
            r.runtime == self.runtime + rhs.runtime,
            r.energy_consumption == self.energy_consumption + rhs.energy_consumption,
    {
        CompilingCost {
            runtime: self.runtime + rhs.runtime,
            energy_consumption: self.energy_consumption + rhs.energy_consumption,
        }
    }

    /// Componentwise sum of a sequence of costs; the identity is (0, 0).
    pub fn sum(costs: &Vec<CompilingCost>) -> (r: Self)
        requires
            sum_cost_runtime(costs@) <= u64::MAX,
            sum_cost_energy(costs@) <= u64::MAX,
        ensures
            r.runtime == sum_cost_runtime(costs@),
            r.energy_consumption == sum_cost_energy(costs@),
    {
        let mut runtime: u64 = 0;
        let mut energy: u64 = 0;
        let n = costs.len();
        let mut i: usize = 0;
        proof {
            assert(costs@.subrange(0, 0) =~= Seq::<CompilingCost>::empty());
        }
        while i < n
            invariant
                i <= n,
                n == costs@.len(),
                runtime == sum_cost_runtime(costs@.subrange(0, i as int)),
                energy == sum_cost_energy(costs@.subrange(0, i as int)),
                sum_cost_runtime(costs@) <= u64::MAX,
                sum_cost_energy(costs@) <= u64::MAX,
            decreases n - i,
        {
            proof {
                let pre = costs@.subrange(0, i as int);
                let post = costs@.subrange(0, i + 1);
                assert(post.drop_last() =~= pre);
                lemma_cost_sum_prefix(costs@, i + 1);
            }
            runtime = runtime + costs[i].runtime;
            energy = energy + costs[i].energy_consumption;
            i = i + 1;
        }
        proof {
            assert(costs@.subrange(0, n as int) =~= costs@);
        }
        CompilingCost { runtime, energy_consumption: energy }
    }
}

impl CompilingCostFunction {
    /// Cost of choosing `enode` for e-class `eclass`, given the costs of the
    /// node's children in child order. An e-node that refers to its own
    /// e-class has no cost, which tells the extractor to drop it; every other
    /// node costs its own operation plus the sum of its children.
    pub fn cost(&self, eclass: u64, enode: &CostNode, child_costs: &Vec<CompilingCost>) -> (r:
        Option<CompilingCost>)
        requires
            child_costs@.len() == enode.spec_children().len(),
            enode.spec_opcost_runtime() + sum_cost_runtime(child_costs@) <= u64::MAX,
            enode.spec_opcost_energy() + sum_cost_energy(child_costs@) <= u64::MAX,
        ensures
            r is Some <==> !enode.spec_children().contains(eclass),
            r matches Some(c) ==> {
                &&& c.runtime == enode.spec_opcost_runtime() + sum_cost_runtime(child_costs@)
                &&& c.energy_consumption == enode.spec_opcost_energy() + sum_cost_energy(
                    child_costs@,
                )
            },
    {
        // detect self-cycles; other cycles surface when compiling, as an error
        let children = enode.children();
        let mut i: usize = 0;
        let n = children.len();
        while i < n
            invariant
                i <= n,
                n == children@.len(),
                children@ == enode.spec_children(),
                forall|j: int| 0 <= j < i ==> children@[j] != eclass,
            decreases n - i,
        {
            if children[i] == eclass {
                return None;
            }
            i = i + 1;
        }
        let op_cost = match enode {
            CostNode::False => CompilingCost::leaf(*enode),
            CostNode::Input(_) => CompilingCost::leaf(*enode),
            CostNode::Not(_) => CompilingCost {
                runtime: NEGATE_LATENCY_NS,
                energy_consumption: NEGATE_ENERGY,
            },
            CostNode::Maj(_, _, _) => CompilingCost {
                runtime: TRA_LATENCY_NS,
                energy_consumption: TRA_ENERGY,
            },
        };
        proof {
            lemma_cost_sum_prefix(child_costs@, 0);
        }
        Some(op_cost.add(CompilingCost::sum(child_costs)))
    }
}

} // verus!
