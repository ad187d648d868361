//! What the AUR's RPC interface reports of a package.
use vstd::prelude::*;

use crate::config::AUR_URL;
use crate::dependency::{Dependency, DependencyKind, normalized_name};

verus! {

/// The address of the AUR's info request for `package`.
pub open spec fn info_url_of(package: Seq<char>) -> Seq<char> {
    AUR_URL@ + "/rpc/v5/info/"@ + package
}

/// The address of the AUR's info request for `package`.
pub fn info_url(package: &str) -> (u: String)
    ensures
        u@ == info_url_of(package@),
{
    let mut url = AUR_URL.to_owned();
    url.append("/rpc/v5/info/");
    url.append(package);
    url
}

/// The answer of the AUR to an info request.
#[derive(Debug)]
pub struct RpcResponse {
    pub results: Vec<RpcPackage>,
}

impl RpcResponse {
    /// The package the request asked for: the first result, if any.
    pub fn into_first(self) -> (p: Option<RpcPackage>)
        ensures
            self.results@.len() == 0 ==> p is None,
            self.results@.len() > 0 ==> p == Some(self.results@[0]),
    {
        let mut results = self.results;
        if results.len() == 0 {
            None
        } else {
            Some(results.swap_remove(0))
        }
    }
}

/// A package as the AUR describes it.
#[derive(Debug)]
pub struct RpcPackage {
    pub name: String,
    pub version: String,
    pub maintainer: Option<String>,
    pub package_base: String,
    pub description: Option<String>,
    pub url: Option<String>,
    pub submitter: Option<String>,
    pub votes: u32,
    /// The popularity score, as the bits of its IEEE 754 double.
    pub popularity_bits: u64,
    pub out_of_date: Option<i64>,
    pub last_modified: i64,
    pub depends: Vec<String>,
    pub make_depends: Vec<String>,
    pub check_depends: Vec<String>,
    pub opt_depends: Vec<String>,
    pub provides: Vec<String>,
    pub conflicts: Vec<String>,
}

/// The name and the kind of each dependency of a list.
pub open spec fn dependency_views(deps: Seq<Dependency>) -> Seq<(Seq<char>, DependencyKind)> {
    deps.map_values(|d: Dependency| (d.name@, d.kind))
}

/// The dependencies of one kind that a list of dependency strings names.
pub open spec fn named_dependencies(raw: Seq<String>, kind: DependencyKind) -> Seq<
    (Seq<char>, DependencyKind),
> {
    raw.map_values(|r: String| (normalized_name(r@), kind))
}

impl RpcPackage {
    /// Whether the package has no maintainer.
    pub open spec fn is_orphan(&self) -> bool {
        self.maintainer is None
    }

    /// Every relation the package declares: its runtime, build, check and
    /// optional dependencies, what it provides and what it conflicts with,
    /// in that order.
    pub open spec fn dependency_list(&self) -> Seq<(Seq<char>, DependencyKind)> {
        named_dependencies(self.depends@, DependencyKind::Runtime) + named_dependencies(
            self.make_depends@,
            DependencyKind::Build,
        ) + named_dependencies(self.check_depends@, DependencyKind::Check) + named_dependencies(
            self.opt_depends@,
            DependencyKind::Optional,
        ) + named_dependencies(self.provides@, DependencyKind::Provides) + named_dependencies(
            self.conflicts@,
            DependencyKind::Conflicts,
        )
    }

    /// Whether the package has no maintainer.
    pub fn orphan(&self) -> (b: bool)
        ensures
            b == self.is_orphan(),
    {
        self.maintainer.is_none()
    }

    /// Every relation the package declares, by bare package name.
    pub fn dependencies(&self) -> (d: Vec<Dependency>)
        ensures
            dependency_views(d@) == self.dependency_list(),
    {
        let mut d: Vec<Dependency> = Vec::new();
        push_dependencies(&mut d, &self.depends, DependencyKind::Runtime);
        push_dependencies(&mut d, &self.make_depends, DependencyKind::Build);
        push_dependencies(&mut d, &self.check_depends, DependencyKind::Check);
        push_dependencies(&mut d, &self.opt_depends, DependencyKind::Optional);
        push_dependencies(&mut d, &self.provides, DependencyKind::Provides);
        push_dependencies(&mut d, &self.conflicts, DependencyKind::Conflicts);
        d
    }
}

/// Each list of the AUR's description gives relations of its own kind, in
/// order, by bare package name: runtime dependencies first, then build,
/// check and optional dependencies, what the package provides and what it
/// conflicts with.
pub proof fn relation_kinds_law(info: RpcPackage)
    ensures
        info.dependency_list().len() == info.depends@.len() + info.make_depends@.len()
            + info.check_depends@.len() + info.opt_depends@.len() + info.provides@.len()
            + info.conflicts@.len(),
        forall|i: int|
            0 <= i < info.depends@.len() ==> info.dependency_list()[i] == (
                normalized_name(#[trigger] info.depends@[i]@),
                DependencyKind::Runtime,
            ),
        forall|i: int|
            0 <= i < info.make_depends@.len() ==> info.dependency_list()[info.depends@.len() + i] == (
                normalized_name(#[trigger] info.make_depends@[i]@),
                DependencyKind::Build,
            ),
        forall|i: int|
            0 <= i < info.check_depends@.len() ==> info.dependency_list()[info.depends@.len()
                + info.make_depends@.len() + i] == (
                normalized_name(#[trigger] info.check_depends@[i]@),
                DependencyKind::Check,
            ),
        forall|i: int|
            0 <= i < info.opt_depends@.len() ==> info.dependency_list()[info.depends@.len()
                + info.make_depends@.len() + info.check_depends@.len() + i] == (
                normalized_name(#[trigger] info.opt_depends@[i]@),
                DependencyKind::Optional,
            ),
        forall|i: int|
            0 <= i < info.provides@.len() ==> info.dependency_list()[info.depends@.len()
                + info.make_depends@.len() + info.check_depends@.len() + info.opt_depends@.len() + i] == (
                normalized_name(#[trigger] info.provides@[i]@),
                DependencyKind::Provides,
            ),
        forall|i: int|
            0 <= i < info.conflicts@.len() ==> info.dependency_list()[info.depends@.len()
                + info.make_depends@.len() + info.check_depends@.len() + info.opt_depends@.len()
                + info.provides@.len() + i] == (
                normalized_name(#[trigger] info.conflicts@[i]@),
                DependencyKind::Conflicts,
            ),
{
    let a = named_dependencies(info.depends@, DependencyKind::Runtime);
    let b = named_dependencies(info.make_depends@, DependencyKind::Build);
    let c = named_dependencies(info.check_depends@, DependencyKind::Check);
    let d = named_dependencies(info.opt_depends@, DependencyKind::Optional);
    let e = named_dependencies(info.provides@, DependencyKind::Provides);
    let g = named_dependencies(info.conflicts@, DependencyKind::Conflicts);
    let list = info.dependency_list();
    assert(list == a + b + c + d + e + g);
    assert forall|i: int| 0 <= i < info.depends@.len() implies list[i] == (
        normalized_name(#[trigger] info.depends@[i]@),
        DependencyKind::Runtime,
    ) by {
        assert(list[i] == a[i]);
    }
    assert forall|i: int| 0 <= i < info.make_depends@.len() implies list[info.depends@.len() + i] == (
        normalized_name(#[trigger] info.make_depends@[i]@),
        DependencyKind::Build,
    ) by {
        assert(list[a.len() + i] == b[i]);
    }
    assert forall|i: int| 0 <= i < info.check_depends@.len() implies list[info.depends@.len()
        + info.make_depends@.len() + i] == (
        normalized_name(#[trigger] info.check_depends@[i]@),
        DependencyKind::Check,
    ) by {
        assert(list[a.len() + b.len() + i] == c[i]);
    }
    assert forall|i: int| 0 <= i < info.opt_depends@.len() implies list[info.depends@.len()
        + info.make_depends@.len() + info.check_depends@.len() + i] == (
        normalized_name(#[trigger] info.opt_depends@[i]@),
        DependencyKind::Optional,
    ) by {
        assert(list[a.len() + b.len() + c.len() + i] == d[i]);
    }
    assert forall|i: int| 0 <= i < info.provides@.len() implies list[info.depends@.len()
        + info.make_depends@.len() + info.check_depends@.len() + info.opt_depends@.len() + i] == (
        normalized_name(#[trigger] info.provides@[i]@),
        DependencyKind::Provides,
    ) by {
        assert(list[a.len() + b.len() + c.len() + d.len() + i] == e[i]);
    }
    assert forall|i: int| 0 <= i < info.conflicts@.len() implies list[info.depends@.len()
        + info.make_depends@.len() + info.check_depends@.len() + info.opt_depends@.len()
        + info.provides@.len() + i] == (
        normalized_name(#[trigger] info.conflicts@[i]@),
        DependencyKind::Conflicts,
    ) by {
        assert(list[a.len() + b.len() + c.len() + d.len() + e.len() + i] == g[i]);
    }
}

/// Appends the dependencies of one kind that `raw` names.
fn push_dependencies(out: &mut Vec<Dependency>, raw: &Vec<String>, kind: DependencyKind)
    ensures
        dependency_views(final(out)@) == dependency_views(old(out)@) + named_dependencies(
            raw@,
            kind,
        ),
{
    let ghost start = dependency_views(out@);
    let mut i: usize = 0;
    while i < raw.len()
        invariant
            i <= raw.len(),
            dependency_views(out@) == start + named_dependencies(raw@.subrange(0, i as int), kind),
        decreases raw.len() - i,
    {
        let ghost before = out@;
        out.push(Dependency::new(raw[i].as_str(), kind));
        assert(dependency_views(out@) =~= dependency_views(before).push(
            (normalized_name(raw@[i as int]@), kind),
        ));
        assert(named_dependencies(raw@.subrange(0, i + 1), kind) =~= named_dependencies(
            raw@.subrange(0, i as int),
            kind,
        ).push((normalized_name(raw@[i as int]@), kind)));
        i = i + 1;
    }
    assert(raw@.subrange(0, raw.len() as int) =~= raw@);
}

} // verus!
