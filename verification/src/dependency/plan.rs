//! The packages to install, in order.
use vstd::prelude::*;

use crate::dependency::graph::{DependencyGraph, is_install_order};
use crate::dependency::package::{PackageNode, PackageSource, same_node};

verus! {

/// The packages to install, in the order in which they install.
#[derive(Debug)]
pub struct InstallPlan {
    pub packages: Vec<PackageNode>,
}

impl InstallPlan {
    /// The plan that installs every package of the graph, each after the
    /// packages it needs, but along a cycle of dependencies.
    pub fn from_graph(graph: &DependencyGraph) -> (plan: Self)
        ensures
            exists|idx: Seq<usize>|
                is_install_order(graph.nodes(), idx) && idx.len() == plan.packages@.len()
                    && forall|k: int|
                    0 <= k < idx.len() ==> same_node(
                        #[trigger] plan.packages@[k],
                        graph.nodes()[idx[k] as int],
                    ),
    {
        InstallPlan { packages: graph.install_order() }
    }

    /// Where the packages of the AUR stand in the plan, in plan order: the
    /// packages whose sources are to be fetched.
    pub fn aur_positions(&self) -> (r: Vec<usize>)
        ensures
            forall|k: int| 0 <= k < r@.len() ==> #[trigger] r@[k] < self.packages@.len()
                && self.packages@[r@[k] as int].source == PackageSource::Aur,
            forall|j: int, k: int| 0 <= j < k < r@.len() ==> #[trigger] r@[j] < #[trigger] r@[k],
            forall|i: int|
                0 <= i < self.packages@.len() && (#[trigger] self.packages@[i]).source == PackageSource::Aur
                    ==> exists|k: int| 0 <= k < r@.len() && r@[k] == i,
    {
        let mut r: Vec<usize> = Vec::new();
        let mut i: usize = 0;
        while i < self.packages.len()
            invariant
                i <= self.packages@.len(),
                forall|k: int| 0 <= k < r@.len() ==> #[trigger] r@[k] < i
                    && self.packages@[r@[k] as int].source == PackageSource::Aur,
                forall|j: int, k: int| 0 <= j < k < r@.len() ==> #[trigger] r@[j] < #[trigger] r@[k],
                forall|x: int|
                    0 <= x < i && (#[trigger] self.packages@[x]).source == PackageSource::Aur
                        ==> exists|k: int| 0 <= k < r@.len() && r@[k] == x,
            decreases self.packages@.len() - i,
        {
            if self.packages[i].source == PackageSource::Aur {
                let ghost before = r@;
                r.push(i);
                proof {
                    assert forall|x: int|
                        0 <= x < i + 1 && (#[trigger] self.packages@[x]).source == PackageSource::Aur
                            implies exists|k: int| 0 <= k < r@.len() && r@[k] == x by {
                        if x < i {
                            let k = choose|k: int| 0 <= k < before.len() && before[k] == x;
                            assert(r@[k] == x);
                        } else {
                            assert(r@[before.len() as int] == x);
                        }
                    }
                }
            }
            i = i + 1;
        }
        r
    }
}

} // verus!
