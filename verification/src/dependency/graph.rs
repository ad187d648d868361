//! The packages of an installation, keyed by name, and the order in which
//! they install.
use vstd::prelude::*;

use crate::dependency::package::{PackageNode, same_node};
use crate::dependency::Dependency;
use crate::text::str_eq;

verus! {

/// Whether dependency `d` asks for package `n` to be installed first.
pub open spec fn requires_package(d: Dependency, n: PackageNode) -> bool {
    d.kind.resolvable() && d.name@ == n.name@
}

/// Whether the package at `u` needs the package at `v` installed first.
pub open spec fn depends_on(nodes: Seq<PackageNode>, u: int, v: int) -> bool {
    &&& 0 <= u < nodes.len()
    &&& 0 <= v < nodes.len()
    &&& exists|k: int|
        0 <= k < nodes[u].dependencies@.len() && #[trigger] requires_package(
            nodes[u].dependencies@[k],
            nodes[v],
        )
}

/// Whether `p` lists packages each of which needs the next one.
pub open spec fn is_path(nodes: Seq<PackageNode>, p: Seq<usize>) -> bool {
    &&& p.len() > 0
    &&& forall|i: int, j: int|
        0 <= i && j == i + 1 && j < p.len() ==> depends_on(
            nodes,
            #[trigger] p[i] as int,
            #[trigger] p[j] as int,
        )
}

/// Whether the package at `a` needs the one at `b`, directly or through
/// other packages, or is it.
pub open spec fn reaches(nodes: Seq<PackageNode>, a: int, b: int) -> bool {
    exists|p: Seq<usize>| #[trigger] is_path(nodes, p) && p[0] == a && p.last() == b
}

/// Where a package called `name` stands among `nodes`, if one does.
pub open spec fn find_name(nodes: Seq<PackageNode>, name: Seq<char>) -> Option<int> {
    if exists|i: int| 0 <= i < nodes.len() && nodes[i].name@ == name {
        Some(choose|i: int| 0 <= i < nodes.len() && nodes[i].name@ == name)
    } else {
        None
    }
}

/// `nodes` with `package` in place of the package of its name, or added
/// last when none has its name.
pub open spec fn insert_node(nodes: Seq<PackageNode>, package: PackageNode) -> Seq<PackageNode> {
    match find_name(nodes, package.name@) {
        Some(i) => nodes.update(i, package),
        None => nodes.push(package),
    }
}

/// Whether no two packages share a name.
pub open spec fn distinct_names(nodes: Seq<PackageNode>) -> bool {
    forall|i: int, j: int|
        0 <= i < nodes.len() && 0 <= j < nodes.len() && i != j ==> #[trigger] nodes[i].name@
            != #[trigger] nodes[j].name@
}

/// Whether `order` names each package exactly once and puts the packages
/// that one needs before it, except where that one is needed back by them:
/// along a cycle of dependencies some package must come first.
pub open spec fn is_install_order(nodes: Seq<PackageNode>, order: Seq<usize>) -> bool {
    &&& order.len() == nodes.len()
    &&& forall|k: int| 0 <= k < order.len() ==> #[trigger] order[k] < nodes.len()
    &&& forall|k1: int, k2: int|
        0 <= k1 < order.len() && 0 <= k2 < order.len() && k1 != k2 ==> #[trigger] order[k1]
            != #[trigger] order[k2]
    &&& forall|p: int, q: int|
        0 <= p < q < order.len() && depends_on(nodes, #[trigger] order[p] as int, #[trigger] order[q] as int)
            ==> reaches(nodes, order[q] as int, order[p] as int)
}

/// Whether no package needs, directly or through others, a package that
/// needs it.
pub open spec fn no_cycles(nodes: Seq<PackageNode>) -> bool {
    forall|u: int, v: int| #[trigger] depends_on(nodes, u, v) ==> !reaches(nodes, v, u)
}

/// Without cycles of dependencies, an install order puts every package
/// after each package it needs.
pub proof fn dependencies_first_without_cycles(nodes: Seq<PackageNode>, order: Seq<usize>)
    requires
        is_install_order(nodes, order),
        no_cycles(nodes),
    ensures
        forall|p: int, q: int|
            0 <= p < q < order.len() ==> !depends_on(nodes, #[trigger] order[p] as int, #[trigger] order[q] as int),
{
}

/// The number of packages not yet visited.
pub open spec fn unvisited(v: Seq<bool>) -> nat
    decreases v.len(),
{
    if v.len() == 0 {
        0
    } else {
        unvisited(v.drop_last()) + if v.last() {
            0nat
        } else {
            1nat
        }
    }
}

/// Whether every package visited in `a` is visited in `b`.
pub open spec fn grows(a: Seq<bool>, b: Seq<bool>) -> bool {
    a.len() == b.len() && forall|x: int| 0 <= x < a.len() && #[trigger] a[x] ==> b[x]
}

/// Whether `b` starts with `a`.
pub open spec fn extends(a: Seq<usize>, b: Seq<usize>) -> bool {
    a.len() <= b.len() && forall|i: int| 0 <= i < a.len() ==> #[trigger] b[i] == a[i]
}

/// What holds during the depth-first walk: the visited packages are those
/// placed in `order` and those on the `stack` of packages being visited, the
/// stack is a path, and each placed package either comes after each package
/// it needs or is needed back by it.
pub open spec fn walk_invariant(
    nodes: Seq<PackageNode>,
    visited: Seq<bool>,
    order: Seq<usize>,
    stack: Seq<usize>,
) -> bool {
    &&& visited.len() == nodes.len()
    &&& forall|k: int| 0 <= k < order.len() ==> #[trigger] order[k] < nodes.len()
    &&& forall|k: int| 0 <= k < stack.len() ==> #[trigger] stack[k] < nodes.len()
    &&& forall|k1: int, k2: int|
        0 <= k1 < order.len() && 0 <= k2 < order.len() && k1 != k2 ==> #[trigger] order[k1]
            != #[trigger] order[k2]
    &&& forall|x: int|
        0 <= x < nodes.len() ==> (#[trigger] visited[x] <==> (order.contains(x as usize)
            || stack.contains(x as usize)))
    &&& forall|k1: int, k2: int|
        0 <= k1 < order.len() && 0 <= k2 < stack.len() ==> #[trigger] order[k1]
            != #[trigger] stack[k2]
    &&& forall|i: int, j: int|
        0 <= i && j == i + 1 && j < stack.len() ==> depends_on(
            nodes,
            #[trigger] stack[i] as int,
            #[trigger] stack[j] as int,
        )
    &&& forall|p: int, v: int|
        0 <= p < order.len() && #[trigger] depends_on(nodes, order[p] as int, v) ==> (exists|q: int|
            0 <= q < p && #[trigger] order[q] == v) || reaches(nodes, v, order[p] as int)
}

proof fn lemma_unvisited_grows(a: Seq<bool>, b: Seq<bool>)
    requires
        grows(a, b),
    ensures
        unvisited(b) <= unvisited(a),
    decreases a.len(),
{
    if a.len() > 0 {
        assert(grows(a.drop_last(), b.drop_last())) by {
            assert forall|x: int| 0 <= x < a.drop_last().len() && #[trigger] a.drop_last()[x]
                implies b.drop_last()[x] by {
                assert(a[x]);
            }
        }
        lemma_unvisited_grows(a.drop_last(), b.drop_last());
        if a.last() {
            assert(a[a.len() - 1]);
        }
    }
}

proof fn lemma_unvisited_mark(a: Seq<bool>, u: int)
    requires
        0 <= u < a.len(),
        !a[u],
    ensures
        unvisited(a.update(u, true)) < unvisited(a),
    decreases a.len(),
{
    let b = a.update(u, true);
    if u == a.len() - 1 {
        assert(b.drop_last() =~= a.drop_last());
    } else {
        assert(b.drop_last() =~= a.drop_last().update(u, true));
        lemma_unvisited_mark(a.drop_last(), u);
    }
}

/// A path along the stack, from its `k`-th package to its top.
proof fn lemma_stack_reaches(nodes: Seq<PackageNode>, stack: Seq<usize>, k: int)
    requires
        0 <= k < stack.len(),
        forall|i: int, j: int|
            0 <= i && j == i + 1 && j < stack.len() ==> depends_on(
                nodes,
                #[trigger] stack[i] as int,
                #[trigger] stack[j] as int,
            ),
    ensures
        reaches(nodes, stack[k] as int, stack.last() as int),
{
    let p = stack.subrange(k, stack.len() as int);
    assert forall|i: int, j: int| 0 <= i && j == i + 1 && j < p.len() implies depends_on(
        nodes,
        #[trigger] p[i] as int,
        #[trigger] p[j] as int,
    ) by {
        assert(p[i] == stack[k + i]);
        assert(p[j] == stack[k + j]);
    }
    assert(is_path(nodes, p));
    assert(p[0] == stack[k]);
    assert(p.last() == stack.last());
}

/// Whether some package of `nodes` is called `name`.
pub open spec fn has_name(nodes: Seq<PackageNode>, name: Seq<char>) -> bool {
    exists|i: int| 0 <= i < nodes.len() && #[trigger] nodes[i].name@ == name
}

/// Whether every name of `a` is the name of a package of `b`.
pub open spec fn keeps_names(a: Seq<PackageNode>, b: Seq<PackageNode>) -> bool {
    forall|i: int| 0 <= i < a.len() ==> has_name(b, #[trigger] a[i].name@)
}

/// Keeping names carries over: what `b` keeps of `a`, `c` keeps of `b`.
pub proof fn keeps_names_trans(a: Seq<PackageNode>, b: Seq<PackageNode>, c: Seq<PackageNode>)
    requires
        keeps_names(a, b),
        keeps_names(b, c),
    ensures
        keeps_names(a, c),
{
    assert forall|i: int| 0 <= i < a.len() implies has_name(c, #[trigger] a[i].name@) by {
        let j = choose|j: int| 0 <= j < b.len() && #[trigger] b[j].name@ == a[i].name@;
        assert(has_name(c, b[j].name@));
    }
}

/// Inserting a package into a graph keeps every name the graph had and no
/// two packages sharing a name; afterwards the graph holds the package,
/// and it is the only one of its name; the graph grows by one package
/// exactly when none had its name.
pub proof fn insert_law(nodes: Seq<PackageNode>, package: PackageNode)
    requires
        distinct_names(nodes),
    ensures
        distinct_names(insert_node(nodes, package)),
        keeps_names(nodes, insert_node(nodes, package)),
        has_name(insert_node(nodes, package), package.name@),
        forall|j: int|
            0 <= j < insert_node(nodes, package).len() && (#[trigger] insert_node(nodes, package)[j]).name@
                == package.name@ ==> insert_node(nodes, package)[j] == package,
        insert_node(nodes, package).len() == nodes.len() + (if has_name(nodes, package.name@) {
            0int
        } else {
            1int
        }),
{
    let after = insert_node(nodes, package);
    match find_name(nodes, package.name@) {
        Some(i) => {
            assert(0 <= i < nodes.len() && nodes[i].name@ == package.name@);
            assert forall|a: int, b: int|
                0 <= a < after.len() && 0 <= b < after.len() && a != b implies #[trigger] after[a].name@
                != #[trigger] after[b].name@ by {
                if a != i && b != i {
                    assert(nodes[a].name@ != nodes[b].name@);
                } else if a == i {
                    assert(nodes[i].name@ != nodes[b].name@);
                } else {
                    assert(nodes[a].name@ != nodes[i].name@);
                }
            }
            assert forall|j: int| 0 <= j < nodes.len() implies has_name(after, #[trigger] nodes[j].name@) by {
                if j == i {
                    assert(after[i].name@ == nodes[j].name@);
                } else {
                    assert(after[j] == nodes[j]);
                }
            }
            assert(after[i] == package);
            assert forall|j: int|
                0 <= j < after.len() && (#[trigger] after[j]).name@ == package.name@ implies after[j]
                == package by {
                if j != i {
                    assert(nodes[j].name@ != nodes[i].name@);
                }
            }
            assert(has_name(nodes, package.name@)) by {
                assert(nodes[i].name@ == package.name@);
            }
        },
        None => {
            assert forall|a: int, b: int|
                0 <= a < after.len() && 0 <= b < after.len() && a != b implies #[trigger] after[a].name@
                != #[trigger] after[b].name@ by {
                if a < nodes.len() && b < nodes.len() {
                    assert(nodes[a].name@ != nodes[b].name@);
                } else if a < nodes.len() {
                    assert(after[a] == nodes[a]);
                } else {
                    assert(after[b] == nodes[b]);
                }
            }
            assert forall|j: int| 0 <= j < nodes.len() implies has_name(after, #[trigger] nodes[j].name@) by {
                assert(after[j] == nodes[j]);
            }
            assert(after[nodes.len() as int] == package);
            assert forall|j: int|
                0 <= j < after.len() && (#[trigger] after[j]).name@ == package.name@ implies after[j]
                == package by {
                if j < nodes.len() {
                    assert(after[j] == nodes[j]);
                }
            }
            assert(!has_name(nodes, package.name@));
        },
    }
}

/// Inserting the same package a second time changes nothing.
pub proof fn insert_idempotent(nodes: Seq<PackageNode>, package: PackageNode)
    requires
        distinct_names(nodes),
    ensures
        insert_node(insert_node(nodes, package), package) == insert_node(nodes, package),
{
    let once = insert_node(nodes, package);
    insert_law(nodes, package);
    let i = choose|i: int| 0 <= i < once.len() && #[trigger] once[i].name@ == package.name@;
    let k = choose|k: int| 0 <= k < once.len() && once[k].name@ == package.name@;
    assert(once[k] == package);
    assert(once.update(k, package) =~= once);
}

/// The packages of an installation, keyed by name: no two share a name.
#[derive(Debug)]
pub struct DependencyGraph {
    packages: Vec<PackageNode>,
}

impl DependencyGraph {
    #[verifier::type_invariant]
    spec fn well_formed(self) -> bool {
        distinct_names(self.packages@)
    }

    /// The packages, in the order in which they were first inserted.
    pub closed spec fn nodes(&self) -> Seq<PackageNode> {
        self.packages@
    }

    /// An empty graph.
    pub fn new() -> (g: Self)
        ensures
            g.nodes() == Seq::<PackageNode>::empty(),
    {
        DependencyGraph { packages: Vec::new() }
    }

    /// The packages, in the order in which they were first inserted.
    pub fn packages(&self) -> (p: &Vec<PackageNode>)
        ensures
            p@ == self.nodes(),
            distinct_names(p@),
    {
        proof {
            use_type_invariant(self);
        }
        &self.packages
    }

    /// Where the package called `name` stands, if it is in the graph.
    pub fn position(&self, name: &str) -> (r: Option<usize>)
        ensures
            match r {
                Some(i) => i < self.nodes().len() && self.nodes()[i as int].name@ == name@,
                None => forall|i: int|
                    0 <= i < self.nodes().len() ==> #[trigger] self.nodes()[i].name@ != name@,
            },
    {
        let mut i: usize = 0;
        while i < self.packages.len()
            invariant
                i <= self.packages@.len(),
                forall|j: int| 0 <= j < i ==> #[trigger] self.packages@[j].name@ != name@,
            decreases self.packages@.len() - i,
        {
            if str_eq(self.packages[i].name.as_str(), name) {
                return Some(i);
            }
            i = i + 1;
        }
        None
    }

    /// Adds `package`, in place of the package of the same name if the
    /// graph holds one.
    pub fn insert(&mut self, package: PackageNode)
        ensures
            distinct_names(old(self).nodes()),
            final(self).nodes() == insert_node(old(self).nodes(), package),
    {
        proof {
            use_type_invariant(&*self);
        }
        match self.position(package.name.as_str()) {
            Some(i) => {
                let ghost before = self.packages@;
                proof {
                    let j = choose|j: int| 0 <= j < before.len() && before[j].name@ == package.name@;
                    if j != i {
                        assert(before[j].name@ != before[i as int].name@);
                    }
                }
                let mut packages: Vec<PackageNode> = Vec::new();
                std::mem::swap(&mut packages, &mut self.packages);
                packages.set(i, package);
                proof {
                    assert forall|a: int, b: int|
                        0 <= a < packages@.len() && 0 <= b < packages@.len() && a != b implies #[trigger] packages@[a].name@
                        != #[trigger] packages@[b].name@ by {
                        if a != i && b != i {
                            assert(before[a].name@ != before[b].name@);
                        } else if a == i {
                            assert(before[i as int].name@ != before[b].name@);
                        } else {
                            assert(before[a].name@ != before[i as int].name@);
                        }
                    }
                }
                self.packages = packages;
            },
            None => {
                let ghost before = self.packages@;
                let mut packages: Vec<PackageNode> = Vec::new();
                std::mem::swap(&mut packages, &mut self.packages);
                packages.push(package);
                proof {
                    assert forall|a: int, b: int|
                        0 <= a < packages@.len() && 0 <= b < packages@.len() && a != b implies #[trigger] packages@[a].name@
                        != #[trigger] packages@[b].name@ by {
                        if a < before.len() && b < before.len() {
                            assert(before[a].name@ != before[b].name@);
                        }
                    }
                }
                self.packages = packages;
            },
        }
    }

    /// Visits the package at `u` and, first, every package it needs that is
    /// not visited yet, then places it in `order`.
    fn visit(
        &self,
        u: usize,
        visited: &mut Vec<bool>,
        order: &mut Vec<usize>,
        Ghost(stack): Ghost<Seq<usize>>,
    )
        requires
            distinct_names(self.nodes()),
            self.nodes().len() <= usize::MAX,
            u < self.nodes().len(),
            walk_invariant(self.nodes(), old(visited)@, old(order)@, stack),
            !old(visited)@[u as int],
            stack.len() > 0 ==> depends_on(self.nodes(), stack.last() as int, u as int),
        ensures
            walk_invariant(self.nodes(), final(visited)@, final(order)@, stack),
            final(visited)@[u as int],
            grows(old(visited)@, final(visited)@),
            extends(old(order)@, final(order)@),
        decreases unvisited(old(visited)@),
    {
        let ghost nodes = self.nodes();
        let ghost start_visited = visited@;
        let ghost start_order = order@;
        proof {
            assert(!stack.contains(u)) by {
                if stack.contains(u) {
                    assert(visited@[u as int]);
                }
            }
            assert(!order@.contains(u)) by {
                if order@.contains(u) {
                    assert(visited@[u as int]);
                }
            }
        }
        visited.set(u, true);
        let ghost marked = visited@;
        let ghost inner = stack.push(u);
        proof {
            lemma_unvisited_mark(start_visited, u as int);
            assert forall|x: int| 0 <= x < nodes.len() implies (#[trigger] visited@[x] <==> (
            order@.contains(x as usize) || inner.contains(x as usize))) by {
                if x == u {
                    assert(inner[inner.len() - 1] == u);
                } else {
                    assert(visited@[x] == start_visited[x]);
                    assert(start_visited[x] == (order@.contains(x as usize) || stack.contains(
                        x as usize,
                    )));
                    if stack.contains(x as usize) {
                        let k = choose|k: int| 0 <= k < stack.len() && stack[k] == x as usize;
                        assert(inner[k] == x as usize);
                    }
                    if inner.contains(x as usize) {
                        let k = choose|k: int| 0 <= k < inner.len() && inner[k] == x as usize;
                        if k < stack.len() {
                            assert(stack[k] == x as usize);
                        } else {
                            assert(inner[k] == u);
                        }
                    }
                }
            }
            assert forall|i: int, j: int|
                0 <= i && j == i + 1 && j < inner.len() implies depends_on(
                nodes,
                #[trigger] inner[i] as int,
                #[trigger] inner[j] as int,
            ) by {
                if j < stack.len() {
                    assert(inner[i] == stack[i] && inner[j] == stack[j]);
                } else {
                    assert(inner[i] == stack.last());
                }
            }
            assert forall|k1: int, k2: int|
                0 <= k1 < order@.len() && 0 <= k2 < inner.len() implies #[trigger] order@[k1]
                != #[trigger] inner[k2] by {
                if k2 < stack.len() {
                    assert(inner[k2] == stack[k2]);
                } else {
                    assert(order@.contains(order@[k1]));
                }
            }
            assert(walk_invariant(nodes, visited@, order@, inner));
        }
        let deps = &self.packages[u].dependencies;
        let mut k: usize = 0;
        while k < deps.len()
            invariant
                distinct_names(nodes),
                nodes == self.nodes(),
                nodes.len() <= usize::MAX,
                u < nodes.len(),
                *deps == nodes[u as int].dependencies,
                k <= deps@.len(),
                inner == stack.push(u),
                walk_invariant(nodes, visited@, order@, inner),
                grows(marked, visited@),
                marked == start_visited.update(u as int, true),
                start_visited == old(visited)@,
                unvisited(marked) < unvisited(start_visited),
                extends(start_order, order@),
                stack.len() > 0 ==> depends_on(nodes, stack.last() as int, u as int),
                forall|k2: int, j: int|
                    0 <= k2 < k && 0 <= j < nodes.len() && #[trigger] requires_package(
                        deps@[k2],
                        nodes[j],
                    ) ==> visited@[j],
            decreases deps@.len() - k,
        {
            let dep = &deps[k];
            let ghost before_visited = visited@;
            let ghost before_order = order@;
            if dep.kind.is_resolvable() {
                if let Some(j) = self.position(dep.name.as_str()) {
                    if !visited[j] {
                        proof {
                            assert(requires_package(deps@[k as int], nodes[j as int]));
                            assert(depends_on(nodes, inner.last() as int, j as int));
                            lemma_unvisited_grows(marked, visited@);
                            assert(unvisited(visited@) < unvisited(start_visited));
                        }
                        self.visit(j, visited, order, Ghost(inner));
                    }
                    proof {
                        assert forall|j2: int|
                            0 <= j2 < nodes.len() && #[trigger] requires_package(
                                deps@[k as int],
                                nodes[j2],
                            ) implies visited@[j2] by {
                            if j2 != j {
                                assert(nodes[j2].name@ != nodes[j as int].name@);
                            }
                        }
                    }
                }
            }
            proof {
                assert forall|k2: int, j2: int|
                    0 <= k2 < k + 1 && 0 <= j2 < nodes.len() && #[trigger] requires_package(
                        deps@[k2],
                        nodes[j2],
                    ) implies visited@[j2] by {
                    if k2 < k {
                        assert(before_visited[j2]);
                    }
                }
                assert forall|x: int| 0 <= x < marked.len() && #[trigger] marked[x] implies visited@[x] by {
                    assert(before_visited[x]);
                }
                assert forall|i: int| 0 <= i < start_order.len() implies #[trigger] order@[i] == start_order[i] by {
                    assert(before_order[i] == start_order[i]);
                }
            }
            k = k + 1;
        }
        let ghost finished = order@;
        let p = order.len();
        order.push(u);
        proof {
            assert(!finished.contains(u)) by {
                if finished.contains(u) {
                    let q = choose|q: int| 0 <= q < finished.len() && finished[q] == u;
                    assert(finished[q] != inner[inner.len() - 1]);
                }
            }
            assert forall|x: int| 0 <= x < nodes.len() implies (#[trigger] visited@[x] <==> (
            order@.contains(x as usize) || stack.contains(x as usize))) by {
                if finished.contains(x as usize) {
                    let q = choose|q: int| 0 <= q < finished.len() && finished[q] == x as usize;
                    assert(order@[q] == x as usize);
                }
                if inner.contains(x as usize) {
                    let q = choose|q: int| 0 <= q < inner.len() && inner[q] == x as usize;
                    if q < stack.len() {
                        assert(stack[q] == x as usize);
                    } else {
                        assert(order@[p as int] == x as usize);
                    }
                }
                if stack.contains(x as usize) {
                    let q = choose|q: int| 0 <= q < stack.len() && stack[q] == x as usize;
                    assert(inner[q] == x as usize);
                }
                if order@.contains(x as usize) {
                    let q = choose|q: int| 0 <= q < order@.len() && order@[q] == x as usize;
                    if q < p {
                        assert(finished[q] == x as usize);
                    } else {
                        assert(inner[inner.len() - 1] == x as usize);
                    }
                }
            }
            assert forall|k1: int, k2: int|
                0 <= k1 < order@.len() && 0 <= k2 < order@.len() && k1 != k2 implies #[trigger] order@[k1]
                != #[trigger] order@[k2] by {
                if k1 == p {
                    assert(finished.contains(finished[k2]));
                } else if k2 == p {
                    assert(finished.contains(finished[k1]));
                } else {
                    assert(finished[k1] != finished[k2]);
                }
            }
            assert forall|k1: int, k2: int|
                0 <= k1 < order@.len() && 0 <= k2 < stack.len() implies #[trigger] order@[k1]
                != #[trigger] stack[k2] by {
                assert(inner[k2] == stack[k2]);
                if k1 < p {
                    assert(finished[k1] != inner[k2]);
                } else {
                    assert(stack.contains(stack[k2]));
                }
            }
            assert forall|p2: int, v: int|
                0 <= p2 < order@.len() && #[trigger] depends_on(nodes, order@[p2] as int, v) implies (exists|q: int|
                0 <= q < p2 && #[trigger] order@[q] == v) || reaches(nodes, v, order@[p2] as int) by {
                if p2 < p {
                    assert(finished[p2] == order@[p2]);
                    if exists|q: int| 0 <= q < p2 && #[trigger] finished[q] == v {
                        let q = choose|q: int| 0 <= q < p2 && #[trigger] finished[q] == v;
                        assert(order@[q] == v);
                    }
                } else {
                    let kk = choose|kk: int|
                        0 <= kk < nodes[u as int].dependencies@.len() && #[trigger] requires_package(
                            nodes[u as int].dependencies@[kk],
                            nodes[v],
                        );
                    assert(visited@[v]);
                    assert(0 <= v < nodes.len());
                    assert((v as usize) as int == v);
                    if finished.contains(v as usize) {
                        let q = choose|q: int| 0 <= q < finished.len() && finished[q] == v as usize;
                        assert(order@[q] == finished[q]);
                        assert(order@[q] == v);
                    } else {
                        let q = choose|q: int| 0 <= q < inner.len() && inner[q] == v as usize;
                        lemma_stack_reaches(nodes, inner, q);
                    }
                }
            }
            assert forall|i: int| 0 <= i < start_order.len() implies #[trigger] order@[i] == start_order[i] by {
                assert(finished[i] == start_order[i]);
            }
            assert forall|x: int| 0 <= x < start_visited.len() && #[trigger] start_visited[x] implies visited@[x] by {
                assert(marked[x]);
            }
            assert(marked[u as int]);
        }
    }

    /// The indices of the packages, in an order in which they can be
    /// installed: each package after those it needs, but where packages need
    /// each other.
    pub fn install_order_indices(&self) -> (order: Vec<usize>)
        ensures
            is_install_order(self.nodes(), order@),
    {
        proof {
            use_type_invariant(self);
        }
        let n = self.packages.len();
        let mut visited: Vec<bool> = Vec::new();
        let mut i: usize = 0;
        while i < n
            invariant
                i <= n,
                n == self.nodes().len(),
                visited@.len() == i,
                forall|x: int| 0 <= x < i ==> !visited@[x],
            decreases n - i,
        {
            visited.push(false);
            i = i + 1;
        }
        let mut order: Vec<usize> = Vec::new();
        proof {
            assert(walk_invariant(self.nodes(), visited@, order@, Seq::empty()));
        }
        let mut i: usize = 0;
        while i < n
            invariant
                i <= n,
                n == self.nodes().len(),
                distinct_names(self.nodes()),
                walk_invariant(self.nodes(), visited@, order@, Seq::empty()),
                forall|x: int| 0 <= x < i ==> visited@[x],
            decreases n - i,
        {
            if !visited[i] {
                let ghost before = visited@;
                self.visit(i, &mut visited, &mut order, Ghost(Seq::empty()));
                proof {
                    assert forall|x: int| 0 <= x < i implies visited@[x] by {
                        assert(before[x]);
                    }
                }
            }
            i = i + 1;
        }
        proof {
            let nodes = self.nodes();
            let as_ints = order@.map_values(|x: usize| x as int);
            assert forall|a: int, b: int|
                0 <= a < as_ints.len() && 0 <= b < as_ints.len() && a != b implies as_ints[a]
                != as_ints[b] by {
                assert(order@[a] != order@[b]);
            }
            assert(as_ints.no_duplicates());
            as_ints.unique_seq_to_set();
            assert(as_ints.to_set() =~= vstd::set_lib::set_int_range(0, n as int)) by {
                assert forall|x: int| as_ints.to_set().contains(x) <==> 0 <= x < n by {
                    if 0 <= x < n {
                        assert(visited@[x]);
                        assert(order@.contains(x as usize) || Seq::<usize>::empty().contains(
                            x as usize,
                        ));
                        let q = choose|q: int| 0 <= q < order@.len() && order@[q] == x as usize;
                        assert(as_ints[q] == x);
                    }
                    if as_ints.to_set().contains(x) {
                        let q = choose|q: int| 0 <= q < as_ints.len() && as_ints[q] == x;
                        assert(order@[q] < n);
                    }
                }
            }
            vstd::set_lib::lemma_int_range(0, n as int);
            assert forall|p: int, q: int|
                0 <= p < q < order@.len() && depends_on(nodes, #[trigger] order@[p] as int, #[trigger] order@[q] as int)
                implies reaches(nodes, order@[q] as int, order@[p] as int) by {
                if exists|q2: int| 0 <= q2 < p && #[trigger] order@[q2] == order@[q] as int {
                    let q2 = choose|q2: int| 0 <= q2 < p && #[trigger] order@[q2] == order@[q] as int;
                    assert(order@[q2] != order@[q]);
                }
            }
        }
        order
    }

    /// The packages, in an order in which they can be installed: each
    /// package after those it needs, but where packages need each other.
    pub fn install_order(&self) -> (order: Vec<PackageNode>)
        ensures
            exists|idx: Seq<usize>|
                is_install_order(self.nodes(), idx) && idx.len() == order@.len() && forall|k: int|
                    0 <= k < idx.len() ==> same_node(#[trigger] order@[k], self.nodes()[idx[k] as int]),
    {
        let idx = self.install_order_indices();
        let mut order: Vec<PackageNode> = Vec::new();
        let mut k: usize = 0;
        while k < idx.len()
            invariant
                k <= idx@.len(),
                is_install_order(self.nodes(), idx@),
                order@.len() == k,
                forall|k2: int| 0 <= k2 < k ==> same_node(#[trigger] order@[k2], self.nodes()[idx@[k2] as int]),
            decreases idx@.len() - k,
        {
            let i = idx[k];
            assert(idx@[k as int] < self.nodes().len());
            order.push(self.packages[i].clone());
            k = k + 1;
        }
        order
    }
}

} // verus!
