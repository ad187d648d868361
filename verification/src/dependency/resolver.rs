//! Finding every package that an installation needs.
//!
//! A package is looked for, in turn, among the providers already found,
//! in the official repositories, among the packages that provide its name,
//! and in the AUR, whose packages bring their own dependencies to resolve.
//! The resolver is a state machine: it says what it needs to know next, and
//! is told the answer.
use vstd::prelude::*;

use crate::aur::rpc::{RpcPackage, dependency_views};
use crate::dependency::graph::{
    DependencyGraph, distinct_names, find_name, has_name, insert_law, insert_node, keeps_names,
    keeps_names_trans,
};
use crate::dependency::package::{PackageNode, PackageSource, PacmanError, aur_meta_of, rpc_node};
use crate::dependency::{Dependency, DependencyKind, normalize_name, normalized_name};
use crate::text::{lines, lines_of, str_eq, trim, trim_chars};
use crate::ui::{age_text, elapsed, now_seconds, relative_time_from};

verus! {

/// Why the AUR could not be asked; its message.
#[derive(Debug)]
pub struct RpcError(pub String);

/// Why a package could not be resolved.
#[derive(Debug)]
pub enum ResolveError {
    Rpc(RpcError),
    Pacman(PacmanError),
    NotFound(String),
}

/// What the resolver needs to know.
#[derive(Debug)]
pub enum Query {
    /// The official repositories' package of this name.
    Repo(String),
    /// A package that provides this name.
    Provider(String),
    /// The AUR's package of this name.
    Aur(String),
}

/// What the resolver was told.
#[derive(Debug)]
pub enum Answer {
    /// The official repositories' package, if they have it.
    Repo(Option<PackageNode>),
    /// A package that provides the name, if one does.
    Provider(Option<String>),
    /// The AUR's package, or why it could not be had.
    Aur(Result<RpcPackage, ResolveError>),
}

/// What the resolver does next.
#[derive(Debug)]
pub enum Step {
    /// It needs to know this.
    Ask(Query),
    /// It finished: every package resolved, or the first failure.
    Done(Result<(), ResolveError>),
}

/// A package being resolved.
pub enum Frame {
    /// Waiting for the official repositories' package `name`.
    Repo { name: String },
    /// Waiting for a package that provides `name`.
    Provider { name: String },
    /// Waiting for the provider of `name` to be resolved.
    /// `provider` is the provider's name, as the resolution looks it up.
    ViaProvider { name: String, provider: Ghost<Seq<char>> },
    /// Waiting for the AUR's package `name`.
    Aur { name: String },
    /// Resolving the dependencies of the AUR package `node`, found for the
    /// name `name` and standing for the name `result`: waiting for the
    /// dependency at `dep`. `listed` holds the names of its relations as
    /// the AUR listed them, before any was replaced by its provider.
    Dependencies {
        node: PackageNode,
        dep: usize,
        result: String,
        name: String,
        listed: Ghost<Seq<Seq<char>>>,
    },
}

/// What is to be done next within a step: resolve a package named by a
/// dependency string, or hand a finished resolution to the frame that
/// waits for it.
enum Pending {
    Start(String),
    Finish(Result<String, ResolveError>),
}

/// What is worth a warning about a package of the AUR, at the time `now`:
/// that nobody maintains it, and since when it is flagged out of date.
pub open spec fn warnings_of(info: RpcPackage, now: i64) -> Seq<Seq<char>> {
    (if info.is_orphan() {
        seq![info.name@ + " has no maintainer"@]
    } else {
        Seq::empty()
    }) + match info.out_of_date {
        Some(flagged) => seq![
            info.name@ + " was flagged out of date "@ + age_text(elapsed(now, flagged) as int),
        ],
        None => Seq::empty(),
    }
}

/// The warnings about a package of the AUR, at the time `now`.
pub fn aur_warnings_at(info: &RpcPackage, now: i64) -> (w: Vec<String>)
    ensures
        w@.map_values(|s: String| s@) == warnings_of(*info, now),
{
    let mut w: Vec<String> = Vec::new();
    if info.orphan() {
        let mut m = info.name.clone();
        m.append(" has no maintainer");
        w.push(m);
    }
    let ghost first = w@.map_values(|s: String| s@);
    if let Some(flagged) = info.out_of_date {
        let mut m = info.name.clone();
        m.append(" was flagged out of date ");
        let age = relative_time_from(now, flagged);
        m.append(age.as_str());
        w.push(m);
        assert(w@.map_values(|s: String| s@) =~= first + seq![m@]);
    } else {
        assert(w@.map_values(|s: String| s@) =~= first + Seq::<Seq<char>>::empty());
    }
    assert(first =~= (if info.is_orphan() {
        seq![info.name@ + " has no maintainer"@]
    } else {
        Seq::empty()
    }));
    w
}

/// The warnings about a package of the AUR, now.
pub fn aur_warnings(info: &RpcPackage) -> (w: Vec<String>)
    ensures
        exists|now: i64| w@.map_values(|s: String| s@) == warnings_of(*info, now),
{
    aur_warnings_at(info, now_seconds())
}

/// The first of `lines`, trimmed, that is neither empty nor `name`.
pub open spec fn first_provider(lines: Seq<Seq<char>>, name: Seq<char>) -> Option<Seq<char>>
    decreases lines.len(),
{
    if lines.len() == 0 {
        None
    } else if trim_chars(lines[0]).len() > 0 && trim_chars(lines[0]) != name {
        Some(trim_chars(lines[0]))
    } else {
        first_provider(lines.drop_first(), name)
    }
}

/// Whether a frame waits for another package's resolution rather than for
/// an answer.
pub open spec fn is_waiting(f: Frame) -> bool {
    f is ViaProvider || f is Dependencies
}

/// Whether a frame waits for an answer.
pub open spec fn is_asking(f: Frame) -> bool {
    f is Repo || f is Provider || f is Aur
}

/// The provider last remembered for `name`, if any.
pub open spec fn lookup(providers: Seq<(String, String)>, name: Seq<char>) -> Option<Seq<char>>
    decreases providers.len(),
{
    if providers.len() == 0 {
        None
    } else if providers.last().0@ == name {
        Some(providers.last().1@)
    } else {
        lookup(providers.drop_last(), name)
    }
}

/// Dependencies still to resolve in a frame.
pub open spec fn frame_work(f: Frame) -> nat {
    match f {
        Frame::Dependencies { node, dep, result, name, .. } => if dep <= node.dependencies@.len() {
            (node.dependencies@.len() - dep) as nat
        } else {
            0
        },
        _ => 0,
    }
}

/// Work left on a stack of frames: each frame and its dependencies.
pub open spec fn stack_work(frames: Seq<Frame>) -> nat
    decreases frames.len(),
{
    if frames.len() == 0 {
        0
    } else {
        stack_work(frames.drop_last()) + 1 + frame_work(frames.last())
    }
}

/// The name a query asks about.
pub open spec fn query_name(q: Query) -> Seq<char> {
    match q {
        Query::Repo(n) => n@,
        Query::Provider(n) => n@,
        Query::Aur(n) => n@,
    }
}

/// The name a frame resolves.
pub open spec fn frame_name(f: Frame) -> Seq<char> {
    match f {
        Frame::Repo { name } => name@,
        Frame::Provider { name } => name@,
        Frame::ViaProvider { name, .. } => name@,
        Frame::Aur { name } => name@,
        Frame::Dependencies { node, dep, result, name, .. } => name@,
    }
}

/// Whether a query asks what the frame waits for.
pub open spec fn asked_by(q: Query, f: Frame) -> bool {
    match q {
        Query::Repo(n) => f matches Frame::Repo { name } && name@ == n@,
        Query::Provider(n) => f matches Frame::Provider { name } && name@ == n@,
        Query::Aur(n) => f matches Frame::Aur { name } && name@ == n@,
    }
}

/// Whether an answer answers what the frame waits for.
pub open spec fn answers(a: Answer, f: Frame) -> bool {
    match a {
        Answer::Repo(_) => f is Repo,
        Answer::Provider(_) => f is Provider,
        Answer::Aur(_) => f is Aur,
    }
}

/// Where the first relation that must be installed first stands in a list
/// of relations, if one does.
pub open spec fn first_resolvable(list: Seq<(Seq<char>, DependencyKind)>) -> Option<int>
    decreases list.len(),
{
    if list.len() == 0 {
        None
    } else if list[0].1.resolvable() {
        Some(0)
    } else {
        match first_resolvable(list.drop_first()) {
            Some(k) => Some(k + 1),
            None => None,
        }
    }
}

/// The name looked up first among the dependencies of an AUR package: that
/// of its first relation that must be installed first, if it has one.
pub open spec fn first_dependency(info: RpcPackage) -> Option<Seq<char>> {
    match first_resolvable(info.dependency_list()) {
        Some(k) => Some(normalized_name(info.dependency_list()[k].0)),
        None => None,
    }
}

proof fn lemma_first_resolvable(list: Seq<(Seq<char>, DependencyKind)>, k: int)
    requires
        0 <= k <= list.len(),
        forall|j: int| 0 <= j < k ==> !(#[trigger] list[j]).1.resolvable(),
        k < list.len() ==> list[k].1.resolvable(),
    ensures
        first_resolvable(list) == (if k < list.len() {
            Some(k)
        } else {
            None::<int>
        }),
    decreases k,
{
    if k > 0 {
        assert(!list[0].1.resolvable());
        let rest = list.drop_first();
        assert forall|j: int| 0 <= j < k - 1 implies !(#[trigger] rest[j]).1.resolvable() by {
            assert(rest[j] == list[j + 1]);
        }
        if k < list.len() {
            assert(rest[k - 1] == list[k]);
        }
        lemma_first_resolvable(rest, k - 1);
    }
}

/// Whether an answer keeps the resolver faithful: a package of the
/// official repositories must be of the name asked for and need nothing
/// installed first (pacman resolves its dependencies); an error of the AUR
/// must end the run or fall back from a provider to the AUR, rather than
/// fail the dependency of an AUR package already remembered as a provider.
pub open spec fn clean_answer(a: Answer, pending: Seq<Frame>) -> bool {
    match a {
        Answer::Repo(Some(node)) => node.name@ == frame_name(pending.last()) && forall|k: int|
            0 <= k < node.dependencies@.len() ==> !(#[trigger] node.dependencies@[k]).kind.resolvable(),
        Answer::Aur(Err(_)) => pending.len() == 1 || (pending.len() >= 2 && pending[pending.len()
            - 2] is ViaProvider),
        _ => true,
    }
}

/// Whether, at the top level, every package asked for from the one being
/// resolved on (after it, once it finished) has a remembered provider.
spec fn rest_cached(
    providers: Seq<(String, String)>,
    requests: Seq<String>,
    next: usize,
    work: Pending,
) -> bool {
    &&& !(work matches Pending::Finish(Err(_)))
    &&& forall|i: int|
        next <= i < requests.len() && (work is Finish ==> i > next) ==> lookup(
            providers,
            normalized_name(#[trigger] requests[i]@),
        ) is Some
}

/// Whether work handed to a frame of dependencies is about what it waits
/// for: the dependency to start on, or the name whose resolution finished.
spec fn work_awaited(frames: Seq<Frame>, work: Pending, completed: Seq<char>) -> bool {
    &&& frames.len() > 0 && frames.last() is Dependencies ==> match work {
        Pending::Start(raw) => raw@ == awaited(frames.last()),
        Pending::Finish(_) => completed == normalized_name(awaited(frames.last())),
    }
    &&& frames.len() > 0 && frames.last() is ViaProvider ==> match work {
        Pending::Start(raw) => normalized_name(raw@) == provider_awaited(frames.last()),
        Pending::Finish(_) => completed == provider_awaited(frames.last()),
    }
}

/// Whether work handed on keeps the resolver faithful: a package that
/// finished is backed, and a failure only ends the run or falls back from a
/// provider to the AUR.
spec fn work_backed(nodes: Seq<PackageNode>, frames: Seq<Frame>, work: Pending) -> bool {
    match work {
        Pending::Finish(Ok(v)) => backed(nodes, frames, v@),
        Pending::Finish(Err(_)) => frames.len() == 0 || frames.last() is ViaProvider,
        Pending::Start(_) => true,
    }
}

/// Whether each of the first `upto` relations of `node` that must be
/// installed first is named by the provider remembered for the name that
/// `listed` gives it.
pub open spec fn renamed_upto(
    providers: Seq<(String, String)>,
    node: PackageNode,
    listed: Seq<Seq<char>>,
    upto: int,
) -> bool {
    forall|k: int|
        0 <= k < upto && k < node.dependencies@.len() && (#[trigger] node.dependencies@[k]).kind.resolvable()
            ==> k < listed.len() && lookup(providers, normalized_name(listed[k])) == Some(
            node.dependencies@[k].name@,
        )
}

/// Whether a package of the graph has each relation to install first named
/// by the provider remembered for the name the AUR listed for it.
pub open spec fn node_renamed(
    providers: Seq<(String, String)>,
    origins: Map<Seq<char>, Seq<Seq<char>>>,
    node: PackageNode,
) -> bool {
    &&& (exists|k: int|
        0 <= k < node.dependencies@.len() && (#[trigger] node.dependencies@[k]).kind.resolvable())
        ==> origins.dom().contains(node.name@)
    &&& renamed_upto(providers, node, origins[node.name@], node.dependencies@.len() as int)
}

/// Whether a frame of dependencies has the relations it resolved so far
/// renamed to their providers, the others as the AUR listed them, and its
/// name still remembered as provided by its package.
pub open spec fn frame_renamed(providers: Seq<(String, String)>, f: Frame) -> bool {
    match f {
        Frame::Dependencies { node, dep, result, name, listed } => {
            &&& listed@.len() == node.dependencies@.len()
            &&& renamed_upto(providers, node, listed@, dep as int)
            &&& forall|j: int|
                dep <= j < node.dependencies@.len() ==> (#[trigger] node.dependencies@[j]).name@
                    == listed@[j]
            &&& lookup(providers, name@) == Some(result@)
        },
        _ => true,
    }
}

/// Whether the graph's packages and the pending frames have their
/// relations renamed to the providers remembered for them.
pub open spec fn all_renamed(
    nodes: Seq<PackageNode>,
    frames: Seq<Frame>,
    providers: Seq<(String, String)>,
    origins: Map<Seq<char>, Seq<Seq<char>>>,
) -> bool {
    &&& forall|g: int| 0 <= g < nodes.len() ==> node_renamed(providers, origins, #[trigger] nodes[g])
    &&& forall|i: int| 0 <= i < frames.len() ==> frame_renamed(providers, #[trigger] frames[i])
}

/// Whether a finished resolution handed on is the provider remembered for
/// the name it finished.
spec fn work_renamed(providers: Seq<(String, String)>, work: Pending, completed: Seq<char>) -> bool {
    match work {
        Pending::Finish(Ok(v)) => lookup(providers, completed) == Some(v@),
        _ => true,
    }
}

/// Whether each name settled through a provider is remembered as provided
/// by what is remembered for the provider's name.
pub open spec fn via_right(providers: Seq<(String, String)>, via: Map<Seq<char>, Seq<char>>) -> bool {
    forall|n: Seq<char>| #[trigger]
        via.dom().contains(n) ==> lookup(providers, n) is Some && lookup(providers, n) == lookup(
            providers,
            via[n],
        )
}

proof fn lemma_via_kept(
    p1: Seq<(String, String)>,
    p2: Seq<(String, String)>,
    via: Map<Seq<char>, Seq<char>>,
)
    requires
        via_right(p1, via),
        forall|k: Seq<char>| #[trigger] lookup(p1, k) is Some ==> lookup(p2, k) == lookup(p1, k),
    ensures
        via_right(p2, via),
{
    assert forall|n: Seq<char>| #[trigger] via.dom().contains(n) implies lookup(p2, n) is Some && lookup(
        p2,
        n,
    ) == lookup(p2, via[n]) by {
        assert(lookup(p1, n) is Some);
        assert(lookup(p1, via[n]) is Some);
    }
}

/// Renaming stays right when no remembered provider changes.
proof fn lemma_renamed_kept(
    nodes: Seq<PackageNode>,
    frames: Seq<Frame>,
    p1: Seq<(String, String)>,
    p2: Seq<(String, String)>,
    origins: Map<Seq<char>, Seq<Seq<char>>>,
)
    requires
        all_renamed(nodes, frames, p1, origins),
        forall|k: Seq<char>| #[trigger] lookup(p1, k) is Some ==> lookup(p2, k) == lookup(p1, k),
    ensures
        all_renamed(nodes, frames, p2, origins),
{
    assert forall|g: int| 0 <= g < nodes.len() implies node_renamed(p2, origins, #[trigger] nodes[g]) by {
        let n = nodes[g];
        assert(node_renamed(p1, origins, n));
        assert forall|k: int|
            0 <= k < n.dependencies@.len() && (#[trigger] n.dependencies@[k]).kind.resolvable() implies k
            < origins[n.name@].len() && lookup(p2, normalized_name(origins[n.name@][k])) == Some(
            n.dependencies@[k].name@,
        ) by {
            assert(lookup(p1, normalized_name(origins[n.name@][k])) is Some);
        }
    }
    assert forall|i: int| 0 <= i < frames.len() implies frame_renamed(p2, #[trigger] frames[i]) by {
        assert(frame_renamed(p1, frames[i]));
        match frames[i] {
            Frame::Dependencies { node, dep, result, name, listed } => {
                assert(lookup(p1, name@) is Some);
                assert forall|k: int|
                    0 <= k < dep && k < node.dependencies@.len() && (#[trigger] node.dependencies@[k]).kind.resolvable()
                    implies k < listed@.len() && lookup(p2, normalized_name(listed@[k])) == Some(
                    node.dependencies@[k].name@,
                ) by {
                    assert(lookup(p1, normalized_name(listed@[k])) is Some);
                }
            },
            _ => {},
        }
    }
}

proof fn lemma_renamed_push(
    nodes: Seq<PackageNode>,
    frames: Seq<Frame>,
    p: Seq<(String, String)>,
    o: Map<Seq<char>, Seq<Seq<char>>>,
    f: Frame,
)
    requires
        all_renamed(nodes, frames, p, o),
        frame_renamed(p, f),
    ensures
        all_renamed(nodes, frames.push(f), p, o),
{
    assert forall|i: int| 0 <= i < frames.push(f).len() implies frame_renamed(p, #[trigger] frames.push(f)[i]) by {
        if i < frames.len() {
            assert(frames.push(f)[i] == frames[i]);
        }
    }
}

proof fn lemma_renamed_pop(
    nodes: Seq<PackageNode>,
    frames: Seq<Frame>,
    p: Seq<(String, String)>,
    o: Map<Seq<char>, Seq<Seq<char>>>,
)
    requires
        all_renamed(nodes, frames, p, o),
        frames.len() > 0,
    ensures
        all_renamed(nodes, frames.drop_last(), p, o),
        frame_renamed(p, frames.last()),
{
    assert forall|i: int| 0 <= i < frames.drop_last().len() implies frame_renamed(
        p,
        #[trigger] frames.drop_last()[i],
    ) by {
        assert(frames.drop_last()[i] == frames[i]);
    }
    assert(frame_renamed(p, frames[frames.len() - 1]));
}

/// Renaming the awaited relation of a frame of dependencies to the provider
/// remembered for it keeps the frame's renaming right up to the next
/// relation to install first.
proof fn lemma_renamed_step(
    p: Seq<(String, String)>,
    orig: PackageNode,
    node: PackageNode,
    listed: Seq<Seq<char>>,
    dep: int,
    k: int,
    provided: Seq<char>,
)
    requires
        listed.len() == orig.dependencies@.len(),
        renamed_upto(p, orig, listed, dep),
        forall|j: int| dep <= j < orig.dependencies@.len() ==> (#[trigger] orig.dependencies@[j]).name@ == listed[j],
        0 <= dep < k <= orig.dependencies@.len(),
        node.dependencies@.len() == orig.dependencies@.len(),
        forall|j: int| 0 <= j < node.dependencies@.len() && j != dep ==> #[trigger] node.dependencies@[j]
            == orig.dependencies@[j],
        node.dependencies@[dep].name@ == provided,
        lookup(p, normalized_name(orig.dependencies@[dep].name@)) == Some(provided),
        forall|j: int| dep < j < k ==> !(#[trigger] node.dependencies@[j]).kind.resolvable(),
    ensures
        renamed_upto(p, node, listed, k),
        forall|j: int| k <= j < node.dependencies@.len() ==> (#[trigger] node.dependencies@[j]).name@ == listed[j],
{
    assert forall|j: int|
        0 <= j < k && j < node.dependencies@.len() && (#[trigger] node.dependencies@[j]).kind.resolvable()
        implies j < listed.len() && lookup(p, normalized_name(listed[j])) == Some(node.dependencies@[j].name@) by {
        if j < dep {
            assert(node.dependencies@[j] == orig.dependencies@[j]);
            assert(orig.dependencies@[j].kind.resolvable());
        } else {
            assert(j == dep);
            assert(orig.dependencies@[dep].name@ == listed[dep]);
        }
    }
    assert forall|j: int| k <= j < node.dependencies@.len() implies (#[trigger] node.dependencies@[j]).name@
        == listed[j] by {
        assert(node.dependencies@[j] == orig.dependencies@[j]);
    }
}

/// Inserting a package whose relations to install first are renamed after
/// the names `listed` gives them, and recording those names, keeps the
/// renaming right.
proof fn lemma_renamed_insert(
    nodes: Seq<PackageNode>,
    frames: Seq<Frame>,
    p: Seq<(String, String)>,
    o: Map<Seq<char>, Seq<Seq<char>>>,
    node: PackageNode,
    listed: Seq<Seq<char>>,
)
    requires
        distinct_names(nodes),
        all_renamed(nodes, frames, p, o),
        renamed_upto(p, node, listed, node.dependencies@.len() as int),
    ensures
        all_renamed(insert_node(nodes, node), frames, p, o.insert(node.name@, listed)),
{
    let after = insert_node(nodes, node);
    let o2 = o.insert(node.name@, listed);
    insert_law(nodes, node);
    assert forall|g: int| 0 <= g < after.len() implies node_renamed(p, o2, #[trigger] after[g]) by {
        if after[g].name@ == node.name@ {
            assert(after[g] == node);
        } else {
            match find_name(nodes, node.name@) {
                Some(i) => {
                    assert(g != i);
                    assert(after[g] == nodes[g]);
                },
                None => {
                    assert(after[g] == nodes[g]);
                },
            }
            assert(node_renamed(p, o, nodes[g]));
            assert(o2[nodes[g].name@] == o[nodes[g].name@]);
        }
    }
}

/// Inserting a package that needs nothing installed first keeps the
/// renaming right.
proof fn lemma_renamed_insert_plain(
    nodes: Seq<PackageNode>,
    frames: Seq<Frame>,
    p: Seq<(String, String)>,
    o: Map<Seq<char>, Seq<Seq<char>>>,
    node: PackageNode,
)
    requires
        distinct_names(nodes),
        all_renamed(nodes, frames, p, o),
        forall|k: int| 0 <= k < node.dependencies@.len() ==> !(#[trigger] node.dependencies@[k]).kind.resolvable(),
    ensures
        all_renamed(insert_node(nodes, node), frames, p, o),
{
    let after = insert_node(nodes, node);
    insert_law(nodes, node);
    assert forall|g: int| 0 <= g < after.len() implies node_renamed(p, o, #[trigger] after[g]) by {
        if after[g].name@ != node.name@ {
            match find_name(nodes, node.name@) {
                Some(i) => {
                    assert(g != i);
                    assert(after[g] == nodes[g]);
                },
                None => {
                    assert(after[g] == nodes[g]);
                },
            }
        } else {
            assert(after[g] == node);
        }
    }
}

/// Where the frame nearest the top that waits for a provider stands, if
/// one does: a failure falls back to the AUR there.
pub open spec fn nearest_via(frames: Seq<Frame>) -> Option<int>
    decreases frames.len(),
{
    if frames.len() == 0 {
        None
    } else if frames.last() is ViaProvider {
        Some(frames.len() - 1)
    } else {
        nearest_via(frames.drop_last())
    }
}

/// A failure passes over frames of dependencies: the frame it falls back
/// to is the same below them.
proof fn lemma_nearest_via_prefix(frames: Seq<Frame>, m: int)
    requires
        0 <= m <= frames.len(),
        forall|j: int| m <= j < frames.len() ==> (#[trigger] frames[j]) is Dependencies,
    ensures
        nearest_via(frames) == nearest_via(frames.subrange(0, m)),
        nearest_via(frames) matches Some(k) ==> 0 <= k < m && frames[k] is ViaProvider,
    decreases frames.len(),
{
    if frames.len() > m {
        assert(frames[frames.len() - 1] is Dependencies);
        let below = frames.drop_last();
        assert forall|j: int| m <= j < below.len() implies (#[trigger] below[j]) is Dependencies by {
            assert(below[j] == frames[j]);
        }
        lemma_nearest_via_prefix(below, m);
        assert(below.subrange(0, m) =~= frames.subrange(0, m));
        if let Some(k) = nearest_via(below) {
            assert(below[k] == frames[k]);
        }
    } else {
        assert(frames.subrange(0, m) =~= frames);
        lemma_nearest_via_bound(frames);
    }
}

proof fn lemma_nearest_via_bound(frames: Seq<Frame>)
    ensures
        nearest_via(frames) matches Some(k) ==> 0 <= k < frames.len() && frames[k] is ViaProvider,
    decreases frames.len(),
{
    if frames.len() > 0 && !(frames.last() is ViaProvider) {
        lemma_nearest_via_bound(frames.drop_last());
        if let Some(k) = nearest_via(frames.drop_last()) {
            assert(frames.drop_last()[k] == frames[k]);
        }
    }
}

/// Whether `n` is the package that the AUR described as `info`, with at
/// most the names of its relations to install first replaced: its name,
/// version, provides and AUR details as described, the AUR as its source,
/// no sizes or packager, and its relations of the kinds described, in
/// order, those not installed first under the names described.
pub open spec fn aur_built(n: PackageNode, info: RpcPackage) -> bool {
    &&& n.name == info.name
    &&& n.version == Some(info.version)
    &&& n.source == PackageSource::Aur
    &&& n.size is None
    &&& n.download_size is None
    &&& n.packager is None
    &&& n.provides@ == info.provides@
    &&& n.aur == Some(aur_meta_of(info))
    &&& n.dependencies@.len() == info.dependency_list().len()
    &&& forall|k: int|
        0 <= k < n.dependencies@.len() ==> (#[trigger] n.dependencies@[k]).kind
            == info.dependency_list()[k].1 && (!n.dependencies@[k].kind.resolvable()
            ==> n.dependencies@[k].name@ == info.dependency_list()[k].0)
}

/// Whether `n` is a package the official repositories answered, as
/// answered, or one the AUR answered, built from its description.
pub open spec fn from_answers(n: PackageNode, repo: Seq<PackageNode>, aur: Seq<RpcPackage>) -> bool {
    ||| exists|i: int| 0 <= i < repo.len() && #[trigger] repo[i] == n
    ||| exists|i: int| 0 <= i < aur.len() && aur_built(n, #[trigger] aur[i])
}

/// Whether a frame of dependencies resolves a package the AUR answered,
/// and waits for a relation to install first.
pub open spec fn frame_sourced(f: Frame, aur: Seq<RpcPackage>) -> bool {
    match f {
        Frame::Dependencies { node, dep, .. } => {
            &&& dep < node.dependencies@.len() ==> node.dependencies@[dep as int].kind.resolvable()
            &&& exists|i: int| 0 <= i < aur.len() && aur_built(node, #[trigger] aur[i])
        },
        _ => true,
    }
}

/// Whether every package of the graph and of the pending frames comes from
/// the answers given.
pub open spec fn sources_ok(
    nodes: Seq<PackageNode>,
    frames: Seq<Frame>,
    repo: Seq<PackageNode>,
    aur: Seq<RpcPackage>,
) -> bool {
    &&& forall|g: int| 0 <= g < nodes.len() ==> from_answers(#[trigger] nodes[g], repo, aur)
    &&& forall|i: int| 0 <= i < frames.len() ==> frame_sourced(#[trigger] frames[i], aur)
}

proof fn lemma_sources_grow(
    nodes: Seq<PackageNode>,
    frames: Seq<Frame>,
    r1: Seq<PackageNode>,
    a1: Seq<RpcPackage>,
    r2: Seq<PackageNode>,
    a2: Seq<RpcPackage>,
)
    requires
        sources_ok(nodes, frames, r1, a1),
        r1.len() <= r2.len(),
        a1.len() <= a2.len(),
        forall|i: int| 0 <= i < r1.len() ==> #[trigger] r2[i] == r1[i],
        forall|i: int| 0 <= i < a1.len() ==> #[trigger] a2[i] == a1[i],
    ensures
        sources_ok(nodes, frames, r2, a2),
{
    assert forall|g: int| 0 <= g < nodes.len() implies from_answers(#[trigger] nodes[g], r2, a2) by {
        if exists|i: int| 0 <= i < r1.len() && #[trigger] r1[i] == nodes[g] {
            let i = choose|i: int| 0 <= i < r1.len() && #[trigger] r1[i] == nodes[g];
            assert(r2[i] == nodes[g]);
        } else {
            let i = choose|i: int| 0 <= i < a1.len() && aur_built(nodes[g], #[trigger] a1[i]);
            assert(aur_built(nodes[g], a2[i]));
        }
    }
    assert forall|j: int| 0 <= j < frames.len() implies frame_sourced(#[trigger] frames[j], a2) by {
        match frames[j] {
            Frame::Dependencies { node, .. } => {
                let i = choose|i: int| 0 <= i < a1.len() && aur_built(node, #[trigger] a1[i]);
                assert(aur_built(node, a2[i]));
            },
            _ => {},
        }
    }
}

proof fn lemma_sources_push(
    nodes: Seq<PackageNode>,
    frames: Seq<Frame>,
    r: Seq<PackageNode>,
    a: Seq<RpcPackage>,
    f: Frame,
)
    requires
        sources_ok(nodes, frames, r, a),
        frame_sourced(f, a),
    ensures
        sources_ok(nodes, frames.push(f), r, a),
{
    assert forall|j: int| 0 <= j < frames.push(f).len() implies frame_sourced(#[trigger] frames.push(f)[j], a) by {
        if j < frames.len() {
            assert(frames.push(f)[j] == frames[j]);
        }
    }
}

proof fn lemma_sources_pop(nodes: Seq<PackageNode>, frames: Seq<Frame>, r: Seq<PackageNode>, a: Seq<RpcPackage>)
    requires
        sources_ok(nodes, frames, r, a),
        frames.len() > 0,
    ensures
        sources_ok(nodes, frames.drop_last(), r, a),
        frame_sourced(frames.last(), a),
{
    assert forall|j: int| 0 <= j < frames.drop_last().len() implies frame_sourced(
        #[trigger] frames.drop_last()[j],
        a,
    ) by {
        assert(frames.drop_last()[j] == frames[j]);
    }
    assert(frame_sourced(frames[frames.len() - 1], a));
}

proof fn lemma_sources_insert(
    nodes: Seq<PackageNode>,
    frames: Seq<Frame>,
    r: Seq<PackageNode>,
    a: Seq<RpcPackage>,
    node: PackageNode,
)
    requires
        sources_ok(nodes, frames, r, a),
        from_answers(node, r, a),
    ensures
        sources_ok(insert_node(nodes, node), frames, r, a),
{
    let after = insert_node(nodes, node);
    assert forall|g: int| 0 <= g < after.len() implies from_answers(#[trigger] after[g], r, a) by {
        match find_name(nodes, node.name@) {
            Some(i) => {
                if g != i {
                    assert(after[g] == nodes[g]);
                }
            },
            None => {
                if g < nodes.len() {
                    assert(after[g] == nodes[g]);
                }
            },
        }
    }
}

proof fn lemma_rpc_built(n: PackageNode, info: RpcPackage)
    requires
        rpc_node(n, info),
    ensures
        aur_built(n, info),
{
    let list = info.dependency_list();
    assert forall|k: int| 0 <= k < n.dependencies@.len() implies (#[trigger] n.dependencies@[k]).kind
        == list[k].1 && (!n.dependencies@[k].kind.resolvable() ==> n.dependencies@[k].name@
        == list[k].0) by {
        assert(dependency_views(n.dependencies@)[k] == (n.dependencies@[k].name@, n.dependencies@[k].kind));
    }
}

/// A package built from the AUR's description stays so when one of its
/// relations to install first is renamed.
proof fn lemma_built_renamed(orig: PackageNode, node: PackageNode, info: RpcPackage, dep: int)
    requires
        aur_built(orig, info),
        0 <= dep < orig.dependencies@.len(),
        orig.dependencies@[dep].kind.resolvable(),
        node.dependencies@.len() == orig.dependencies@.len(),
        node.dependencies@[dep].kind == orig.dependencies@[dep].kind,
        forall|k: int|
            0 <= k < orig.dependencies@.len() && k != dep ==> #[trigger] node.dependencies@[k]
                == orig.dependencies@[k],
        node.name == orig.name,
        node.version == orig.version,
        node.source == orig.source,
        node.size == orig.size,
        node.download_size == orig.download_size,
        node.packager == orig.packager,
        node.provides == orig.provides,
        node.aur == orig.aur,
    ensures
        aur_built(node, info),
{
    let list = info.dependency_list();
    assert forall|k: int| 0 <= k < node.dependencies@.len() implies (#[trigger] node.dependencies@[k]).kind
        == list[k].1 && (!node.dependencies@[k].kind.resolvable() ==> node.dependencies@[k].name@
        == list[k].0) by {
        if k != dep {
            assert(node.dependencies@[k] == orig.dependencies@[k]);
        }
    }
}

/// Whether an answer is of the kind a query asks for.
pub open spec fn answer_fits(q: Query, a: Answer) -> bool {
    ||| q is Repo && a is Repo
    ||| q is Provider && a is Provider
    ||| q is Aur && a is Aur
}

/// The package a frame of dependencies will stand for once they are
/// resolved; none for the other frames.
pub open spec fn frame_result(f: Frame) -> Option<Seq<char>> {
    match f {
        Frame::Dependencies { node, dep, result, name, .. } => Some(result@),
        _ => None,
    }
}

/// Whether a frame of `frames` resolves the dependencies of the package `v`.
pub open spec fn pending_result(frames: Seq<Frame>, v: Seq<char>) -> bool {
    exists|i: int| 0 <= i < frames.len() && #[trigger] frame_result(frames[i]) == Some(v)
}

/// Whether `v` names a package of the graph, or one whose dependencies are
/// still being resolved and that enters the graph once they are.
pub open spec fn backed(nodes: Seq<PackageNode>, frames: Seq<Frame>, v: Seq<char>) -> bool {
    has_name(nodes, v) || pending_result(frames, v)
}

/// Whether the first `upto` dependencies that must be installed first are
/// backed.
pub open spec fn deps_backed(
    nodes: Seq<PackageNode>,
    frames: Seq<Frame>,
    deps: Seq<Dependency>,
    upto: int,
) -> bool {
    forall|k: int|
        0 <= k < upto && k < deps.len() && (#[trigger] deps[k]).kind.resolvable() ==> backed(
            nodes,
            frames,
            deps[k].name@,
        )
}

/// Whether a frame of dependencies stands for its own package and has its
/// dependencies so far backed.
pub open spec fn frame_backed(nodes: Seq<PackageNode>, frames: Seq<Frame>, f: Frame) -> bool {
    match f {
        Frame::Dependencies { node, dep, result, name, .. } => node.name@ == result@ && deps_backed(
            nodes,
            frames,
            node.dependencies@,
            dep as int,
        ),
        _ => true,
    }
}

/// Whether every remembered provider, every dependency of the graph's
/// packages that must be installed first, and every dependency resolved so
/// far by a pending frame names a package that is in the graph or about to
/// enter it.
pub open spec fn all_backed(
    nodes: Seq<PackageNode>,
    frames: Seq<Frame>,
    providers: Seq<(String, String)>,
) -> bool {
    &&& forall|j: int| 0 <= j < providers.len() ==> backed(nodes, frames, #[trigger] providers[j].1@)
    &&& forall|g: int|
        0 <= g < nodes.len() ==> deps_backed(
            nodes,
            frames,
            #[trigger] nodes[g].dependencies@,
            nodes[g].dependencies@.len() as int,
        )
    &&& forall|i: int| 0 <= i < frames.len() ==> frame_backed(nodes, frames, #[trigger] frames[i])
}

/// Whether whatever is backed in the first state is backed in the second.
pub open spec fn covers(
    n1: Seq<PackageNode>,
    f1: Seq<Frame>,
    n2: Seq<PackageNode>,
    f2: Seq<Frame>,
) -> bool {
    forall|v: Seq<char>| #[trigger] backed(n1, f1, v) ==> backed(n2, f2, v)
}

proof fn lemma_deps_covered(
    n1: Seq<PackageNode>,
    f1: Seq<Frame>,
    n2: Seq<PackageNode>,
    f2: Seq<Frame>,
    deps: Seq<Dependency>,
    upto: int,
)
    requires
        covers(n1, f1, n2, f2),
        deps_backed(n1, f1, deps, upto),
    ensures
        deps_backed(n2, f2, deps, upto),
{
    assert forall|k: int|
        0 <= k < upto && k < deps.len() && (#[trigger] deps[k]).kind.resolvable() implies backed(
        n2,
        f2,
        deps[k].name@,
    ) by {
        assert(backed(n1, f1, deps[k].name@));
    }
}

proof fn lemma_frame_covered(
    n1: Seq<PackageNode>,
    f1: Seq<Frame>,
    n2: Seq<PackageNode>,
    f2: Seq<Frame>,
    f: Frame,
)
    requires
        covers(n1, f1, n2, f2),
        frame_backed(n1, f1, f),
    ensures
        frame_backed(n2, f2, f),
{
    match f {
        Frame::Dependencies { node, dep, result, name, .. } => {
            lemma_deps_covered(n1, f1, n2, f2, node.dependencies@, dep as int);
        },
        _ => {},
    }
}

/// What stays backed when the state changes: the remembered providers are
/// those of before, with perhaps one more that is backed; the frames start
/// with the first `kept` frames of before, and the ones after are backed;
/// the graph's packages are backed.
proof fn lemma_all_backed_after(
    n1: Seq<PackageNode>,
    f1: Seq<Frame>,
    p1: Seq<(String, String)>,
    n2: Seq<PackageNode>,
    f2: Seq<Frame>,
    p2: Seq<(String, String)>,
    kept: int,
)
    requires
        all_backed(n1, f1, p1),
        covers(n1, f1, n2, f2),
        p2 == p1 || (p2.len() == p1.len() + 1 && p2.drop_last() == p1 && backed(n2, f2, p2.last().1@)),
        0 <= kept <= f1.len(),
        kept <= f2.len(),
        forall|i: int| 0 <= i < kept ==> #[trigger] f2[i] == f1[i],
        forall|i: int| kept <= i < f2.len() ==> frame_backed(n2, f2, #[trigger] f2[i]),
        forall|g: int|
            0 <= g < n2.len() ==> deps_backed(
                n2,
                f2,
                #[trigger] n2[g].dependencies@,
                n2[g].dependencies@.len() as int,
            ),
    ensures
        all_backed(n2, f2, p2),
{
    assert forall|j: int| 0 <= j < p2.len() implies backed(n2, f2, #[trigger] p2[j].1@) by {
        if j < p1.len() {
            assert(p2[j] == p1[j]);
            assert(backed(n1, f1, p1[j].1@));
        }
    }
    assert forall|i: int| 0 <= i < f2.len() implies frame_backed(n2, f2, #[trigger] f2[i]) by {
        if i < kept {
            assert(f2[i] == f1[i]);
            assert(frame_backed(n1, f1, f1[i]));
            lemma_frame_covered(n1, f1, n2, f2, f1[i]);
        }
    }
}

/// The graph's packages stay backed when what is backed stays backed.
proof fn lemma_graph_covered(
    nodes: Seq<PackageNode>,
    f1: Seq<Frame>,
    f2: Seq<Frame>,
    p: Seq<(String, String)>,
)
    requires
        all_backed(nodes, f1, p),
        covers(nodes, f1, nodes, f2),
    ensures
        forall|g: int|
            0 <= g < nodes.len() ==> deps_backed(
                nodes,
                f2,
                #[trigger] nodes[g].dependencies@,
                nodes[g].dependencies@.len() as int,
            ),
{
    assert forall|g: int| 0 <= g < nodes.len() implies deps_backed(
        nodes,
        f2,
        #[trigger] nodes[g].dependencies@,
        nodes[g].dependencies@.len() as int,
    ) by {
        lemma_deps_covered(nodes, f1, nodes, f2, nodes[g].dependencies@, nodes[g].dependencies@.len() as int);
    }
}

/// The graph's packages stay backed when a package whose dependencies are
/// backed is inserted.
proof fn lemma_graph_insert(
    nodes: Seq<PackageNode>,
    f1: Seq<Frame>,
    f2: Seq<Frame>,
    p: Seq<(String, String)>,
    node: PackageNode,
)
    requires
        distinct_names(nodes),
        all_backed(nodes, f1, p),
        covers(nodes, f1, insert_node(nodes, node), f2),
        deps_backed(insert_node(nodes, node), f2, node.dependencies@, node.dependencies@.len() as int),
    ensures
        forall|g: int|
            0 <= g < insert_node(nodes, node).len() ==> deps_backed(
                insert_node(nodes, node),
                f2,
                #[trigger] insert_node(nodes, node)[g].dependencies@,
                insert_node(nodes, node)[g].dependencies@.len() as int,
            ),
{
    let after = insert_node(nodes, node);
    assert forall|g: int| 0 <= g < after.len() implies deps_backed(
        after,
        f2,
        #[trigger] after[g].dependencies@,
        after[g].dependencies@.len() as int,
    ) by {
        if after[g] != node {
            match find_name(nodes, node.name@) {
                Some(i) => {
                    assert(g != i);
                    assert(after[g] == nodes[g]);
                },
                None => {
                    assert(g < nodes.len());
                    assert(after[g] == nodes[g]);
                },
            }
            lemma_deps_covered(nodes, f1, after, f2, nodes[g].dependencies@, nodes[g].dependencies@.len() as int);
        }
    }
}

proof fn lemma_covers_trans(
    n1: Seq<PackageNode>,
    f1: Seq<Frame>,
    n2: Seq<PackageNode>,
    f2: Seq<Frame>,
    n3: Seq<PackageNode>,
    f3: Seq<Frame>,
)
    requires
        covers(n1, f1, n2, f2),
        covers(n2, f2, n3, f3),
    ensures
        covers(n1, f1, n3, f3),
{
    assert forall|v: Seq<char>| #[trigger] backed(n1, f1, v) implies backed(n3, f3, v) by {
        assert(backed(n2, f2, v));
    }
}

/// Pushing a frame keeps what is backed.
proof fn lemma_covers_push(nodes: Seq<PackageNode>, frames: Seq<Frame>, f: Frame)
    ensures
        covers(nodes, frames, nodes, frames.push(f)),
{
    assert forall|v: Seq<char>| #[trigger] backed(nodes, frames, v) implies backed(
        nodes,
        frames.push(f),
        v,
    ) by {
        if pending_result(frames, v) {
            let i = choose|i: int| 0 <= i < frames.len() && #[trigger] frame_result(frames[i]) == Some(v);
            assert(frame_result(frames.push(f)[i]) == Some(v));
        }
    }
}

/// Popping a frame that resolves no dependencies keeps what is backed.
proof fn lemma_covers_pop(nodes: Seq<PackageNode>, frames: Seq<Frame>)
    requires
        frames.len() > 0,
        frame_result(frames.last()) is None,
    ensures
        covers(nodes, frames, nodes, frames.drop_last()),
{
    assert forall|v: Seq<char>| #[trigger] backed(nodes, frames, v) implies backed(
        nodes,
        frames.drop_last(),
        v,
    ) by {
        if pending_result(frames, v) {
            let i = choose|i: int| 0 <= i < frames.len() && #[trigger] frame_result(frames[i]) == Some(v);
            assert(i != frames.len() - 1);
            assert(frame_result(frames.drop_last()[i]) == Some(v));
        }
    }
}

/// Frames that stand for the same packages back the same names.
proof fn lemma_covers_same_results(nodes: Seq<PackageNode>, f1: Seq<Frame>, f2: Seq<Frame>)
    requires
        f1.len() == f2.len(),
        forall|i: int| 0 <= i < f1.len() ==> frame_result(#[trigger] f1[i]) == frame_result(f2[i]),
    ensures
        covers(nodes, f1, nodes, f2),
{
    assert forall|v: Seq<char>| #[trigger] backed(nodes, f1, v) implies backed(nodes, f2, v) by {
        if pending_result(f1, v) {
            let i = choose|i: int| 0 <= i < f1.len() && #[trigger] frame_result(f1[i]) == Some(v);
            assert(frame_result(f2[i]) == Some(v));
        }
    }
}

/// Inserting a package keeps what is backed, and backs its name.
proof fn lemma_covers_insert(nodes: Seq<PackageNode>, frames: Seq<Frame>, node: PackageNode)
    requires
        distinct_names(nodes),
    ensures
        covers(nodes, frames, insert_node(nodes, node), frames),
        has_name(insert_node(nodes, node), node.name@),
{
    insert_law(nodes, node);
    assert forall|v: Seq<char>| #[trigger] backed(nodes, frames, v) implies backed(
        insert_node(nodes, node),
        frames,
        v,
    ) by {
        if has_name(nodes, v) {
            let i = choose|i: int| 0 <= i < nodes.len() && #[trigger] nodes[i].name@ == v;
            assert(has_name(insert_node(nodes, node), nodes[i].name@));
        }
    }
}

/// A frame of dependencies that finishes and whose package enters the
/// graph keeps what was backed.
proof fn lemma_covers_finish(nodes: Seq<PackageNode>, frames: Seq<Frame>, node: PackageNode)
    requires
        distinct_names(nodes),
        frames.len() > 0,
        frame_result(frames.last()) == Some(node.name@),
    ensures
        covers(nodes, frames, insert_node(nodes, node), frames.drop_last()),
{
    lemma_covers_insert(nodes, frames, node);
    let after = insert_node(nodes, node);
    assert forall|v: Seq<char>| #[trigger] backed(nodes, frames, v) implies backed(
        after,
        frames.drop_last(),
        v,
    ) by {
        assert(backed(after, frames, v));
        if !has_name(after, v) {
            let i = choose|i: int| 0 <= i < frames.len() && #[trigger] frame_result(frames[i]) == Some(v);
            if i == frames.len() - 1 {
                assert(v == node.name@);
            } else {
                assert(frame_result(frames.drop_last()[i]) == Some(v));
            }
        }
    }
}

/// A remembered provider is the provider of some entry.
proof fn lemma_lookup_entry(providers: Seq<(String, String)>, name: Seq<char>)
    requires
        lookup(providers, name) is Some,
    ensures
        exists|j: int|
            0 <= j < providers.len() && #[trigger] providers[j].1@ == lookup(providers, name)->0,
    decreases providers.len(),
{
    if providers.last().0@ == name {
        assert(providers[providers.len() - 1].1@ == lookup(providers, name)->0);
    } else {
        lemma_lookup_entry(providers.drop_last(), name);
        let j = choose|j: int|
            0 <= j < providers.drop_last().len() && #[trigger] providers.drop_last()[j].1@ == lookup(
                providers.drop_last(),
                name,
            )->0;
        assert(providers[j].1@ == lookup(providers, name)->0);
    }
}

/// The names of an AUR package's relations as the AUR listed them.
pub open spec fn relation_names(info: RpcPackage) -> Seq<Seq<char>> {
    info.dependency_list().map_values(|r: (Seq<char>, DependencyKind)| r.0)
}

/// The name of the dependency that a frame of dependencies waits for.
pub open spec fn awaited(f: Frame) -> Seq<char> {
    match f {
        Frame::Dependencies { node, dep, .. } => node.dependencies@[dep as int].name@,
        _ => Seq::empty(),
    }
}

/// The name of the provider that a frame waiting for a provider resolves.
pub open spec fn provider_awaited(f: Frame) -> Seq<char> {
    match f {
        Frame::ViaProvider { provider, .. } => provider@,
        _ => Seq::empty(),
    }
}

/// Whether the frame `f`, standing right above `below`, resolves what
/// `below` waits for, when `below` waits for a dependency or a provider.
pub open spec fn resolves_awaited(below: Frame, f: Frame) -> bool {
    &&& below is Dependencies ==> frame_name(f) == normalized_name(awaited(below))
    &&& below is ViaProvider ==> frame_name(f) == provider_awaited(below)
}

/// The resolver of an installation's packages.
pub struct Resolver {
    graph: DependencyGraph,
    installed: Vec<(String, String)>,
    providers: Vec<(String, String)>,
    requests: Vec<String>,
    next_request: usize,
    frames: Vec<Frame>,
    drifted: Ghost<bool>,
    origins: Ghost<Map<Seq<char>, Seq<Seq<char>>>>,
    via: Ghost<Map<Seq<char>, Seq<char>>>,
    repo_answers: Ghost<Seq<PackageNode>>,
    aur_answers: Ghost<Seq<RpcPackage>>,
}

impl Resolver {
    /// Whether the resolver's state is consistent: the frames below the
    /// innermost one wait for others, each frame of dependencies waits for
    /// one of them, and every package of the graph and of the pending
    /// frames comes from the answers taken in.
    pub closed spec fn wf(&self) -> bool {
        &&& self.next_request <= self.requests@.len()
        &&& self.requests_known()
        &&& self.frames@.len() > 0 ==> self.next_request < self.requests@.len() && frame_name(
            self.frames@[0],
        ) == normalized_name(self.requests@[self.next_request as int]@)
        &&& forall|i: int|
            0 <= i < self.frames@.len() && (#[trigger] self.frames@[i]) is Dependencies ==> lookup(
                self.providers@,
                frame_name(self.frames@[i]),
            ) is Some
        &&& forall|i: int| 0 <= i < self.frames@.len() - 1 ==> is_waiting(#[trigger] self.frames@[i])
        &&& forall|i: int|
            0 <= i < self.frames@.len() ==> match #[trigger] self.frames@[i] {
                Frame::Dependencies { node, dep, result, name, .. } => dep < node.dependencies@.len(),
                _ => true,
            }
        &&& forall|i: int, j: int|
            0 <= i && j == i + 1 && j < self.frames@.len() ==> resolves_awaited(
                #[trigger] self.frames@[i],
                #[trigger] self.frames@[j],
            )
        &&& sources_ok(self.graph.nodes(), self.frames@, self.repo_answers@, self.aur_answers@)
    }

    /// The packages the official repositories answered, in the order the
    /// answers were taken in.
    pub closed spec fn repo_answers(&self) -> Seq<PackageNode> {
        self.repo_answers@
    }

    /// The packages the AUR described, in the order the answers were taken
    /// in.
    pub closed spec fn aur_answers(&self) -> Seq<RpcPackage> {
        self.aur_answers@
    }

    /// Every package of the graph is one the official repositories
    /// answered, exactly as answered, or one the AUR described, built from
    /// that description: the AUR as its source, its name, version, provides
    /// and AUR details as described, and its relations of the kinds
    /// described, in order, of which only those to install first may have
    /// been renamed. This holds whether or not the package had dependencies
    /// to resolve, at any depth.
    pub proof fn graph_sources_law(&self)
        requires
            self.wf(),
        ensures
            forall|g: int|
                0 <= g < self.graph_nodes().len() ==> from_answers(
                    #[trigger] self.graph_nodes()[g],
                    self.repo_answers(),
                    self.aur_answers(),
                ),
    {
    }

    /// The packages found so far.
    pub closed spec fn graph_nodes(&self) -> Seq<PackageNode> {
        self.graph.nodes()
    }

    /// The packages installed on the system, by name and version.
    pub closed spec fn installed_packages(&self) -> Seq<(String, String)> {
        self.installed@
    }

    /// The provider remembered for each name found so far.
    pub closed spec fn remembered(&self) -> Seq<(String, String)> {
        self.providers@
    }

    /// The packages asked for, as given.
    pub closed spec fn requested(&self) -> Seq<String> {
        self.requests@
    }

    /// How many of the packages asked for are resolved.
    pub closed spec fn resolved_requests(&self) -> nat {
        self.next_request as nat
    }

    /// The packages being resolved, innermost last.
    pub closed spec fn pending(&self) -> Seq<Frame> {
        self.frames@
    }

    /// Whether the answer answers the question asked last.
    pub open spec fn expects(&self, a: Answer) -> bool {
        self.pending().len() > 0 && answers(a, self.pending().last())
    }

    /// What holds after each step: a question asked is the innermost
    /// frame's, comes while a package asked for is unresolved, and is never
    /// about the official repositories' package of a name whose provider is
    /// known; once finished, nothing is pending, and after a success every
    /// package asked for has a known provider.
    pub open spec fn after_step(&self, step: Step) -> bool {
        match step {
            Step::Ask(q) => {
                &&& self.pending().len() > 0
                &&& self.resolved_requests() < self.requested().len()
                &&& asked_by(q, self.pending().last())
                &&& (q is Repo ==> lookup(self.remembered(), query_name(q)) is None)
            },
            Step::Done(r) => {
                &&& self.pending().len() == 0
                &&& (r is Ok ==> self.resolved_requests() == self.requested().len())
                &&& (r is Ok ==> forall|i: int|
                    0 <= i < self.requested().len() ==> lookup(
                        self.remembered(),
                        normalized_name(#[trigger] self.requested()[i]@),
                    ) is Some)
                &&& (r is Ok && self.faithful() ==> self.resolution_holds())
            },
        }
    }

    /// Whether every remembered provider, every dependency that a package of
    /// the graph needs installed first, and every dependency that a pending
    /// frame resolved so far names a package of the graph or one about to
    /// enter it. It holds of a new resolver and is kept by every answer
    /// that reports no failure (see `clean_answer`).
    pub closed spec fn faithful(&self) -> bool {
        &&& all_backed(self.graph.nodes(), self.frames@, self.providers@)
        &&& !self.drifted@ ==> all_renamed(self.graph.nodes(), self.frames@, self.providers@, self.origins@)
        &&& !self.drifted@ ==> via_right(self.providers@, self.via@)
    }

    /// For each name settled through a provider, the provider's name as the
    /// resolution looked it up.
    pub closed spec fn via(&self) -> Map<Seq<char>, Seq<char>> {
        self.via@
    }

    /// In a faithful resolver to which no name changed provider, each name
    /// settled through a provider is remembered as provided by the package
    /// remembered for that provider.
    pub proof fn provider_law(&self)
        requires
            self.faithful(),
            !self.drifted(),
        ensures
            forall|n: Seq<char>| #[trigger]
                self.via().dom().contains(n) ==> lookup(self.remembered(), n) is Some && lookup(
                    self.remembered(),
                    n,
                ) == lookup(self.remembered(), self.via()[n]),
    {
    }

    /// Whether, unless some name changed provider, the resolver's renaming
    /// is right and `work`, when a finished resolution of `completed`, hands
    /// on the provider remembered for it.
    spec fn renamed_with(&self, work: Pending, completed: Seq<char>) -> bool {
        !self.drifted@ ==> (all_renamed(self.graph.nodes(), self.frames@, self.providers@, self.origins@)
            && via_right(self.providers@, self.via@) && work_renamed(self.providers@, work, completed))
    }

    /// Whether some name was remembered with a second provider, other than
    /// the one remembered for it before. That happens where a name waits for
    /// its provider while the same name, reached again through the
    /// dependencies of an AUR package, is resolved otherwise first.
    pub closed spec fn drifted(&self) -> bool {
        self.drifted@
    }

    /// For each package of the AUR that entered the graph, the names of its
    /// relations as the AUR listed them.
    pub closed spec fn origins(&self) -> Map<Seq<char>, Seq<Seq<char>>> {
        self.origins@
    }

    /// Whether each relation that a package of the graph needs installed
    /// first is named by the provider remembered for the name the AUR
    /// listed for it.
    pub open spec fn renaming_holds(&self) -> bool {
        forall|g: int, k: int|
            0 <= g < self.graph_nodes().len() && 0 <= k < self.graph_nodes()[g].dependencies@.len()
                && (#[trigger] self.graph_nodes()[g].dependencies@[k]).kind.resolvable() ==> {
                &&& self.origins().dom().contains(self.graph_nodes()[g].name@)
                &&& k < self.origins()[self.graph_nodes()[g].name@].len()
                &&& lookup(
                    self.remembered(),
                    normalized_name(self.origins()[self.graph_nodes()[g].name@][k]),
                ) == Some(self.graph_nodes()[g].dependencies@[k].name@)
            }
    }

    /// In a faithful resolver to which no name changed provider, each
    /// relation to install first of each package in the graph is named by
    /// the provider remembered for the name the AUR listed for it.
    pub proof fn renaming_law(&self)
        requires
            self.faithful(),
            !self.drifted(),
        ensures
            self.renaming_holds(),
    {
        let nodes = self.graph.nodes();
        assert forall|g: int, k: int|
            0 <= g < self.graph_nodes().len() && 0 <= k < self.graph_nodes()[g].dependencies@.len()
                && (#[trigger] self.graph_nodes()[g].dependencies@[k]).kind.resolvable() implies {
            &&& self.origins().dom().contains(self.graph_nodes()[g].name@)
            &&& k < self.origins()[self.graph_nodes()[g].name@].len()
            &&& lookup(self.remembered(), normalized_name(self.origins()[self.graph_nodes()[g].name@][k]))
                == Some(self.graph_nodes()[g].dependencies@[k].name@)
        } by {
            assert(node_renamed(self.providers@, self.origins@, nodes[g]));
        }
    }

    /// What a finished resolution gives: the provider remembered for each
    /// package asked for is a package of the graph, and so is every
    /// dependency that a package of the graph needs installed first.
    pub open spec fn resolution_holds(&self) -> bool {
        &&& forall|i: int|
            0 <= i < self.requested().len() ==> (lookup(
                self.remembered(),
                normalized_name(#[trigger] self.requested()[i]@),
            ) matches Some(p) && has_name(self.graph_nodes(), p))
        &&& forall|g: int, k: int|
            0 <= g < self.graph_nodes().len() && 0 <= k < self.graph_nodes()[g].dependencies@.len()
                && (#[trigger] self.graph_nodes()[g].dependencies@[k]).kind.resolvable() ==> has_name(
                self.graph_nodes(),
                self.graph_nodes()[g].dependencies@[k].name@,
            )
    }

    /// With nothing pending and every request resolved, a faithful
    /// resolver's graph holds what the resolution promises.
    proof fn lemma_resolution(&self)
        requires
            self.wf(),
            self.frames@.len() == 0,
            self.next_request == self.requests@.len(),
            self.faithful(),
        ensures
            self.resolution_holds(),
    {
        let nodes = self.graph.nodes();
        assert forall|i: int| 0 <= i < self.requested().len() implies (lookup(
            self.remembered(),
            normalized_name(#[trigger] self.requested()[i]@),
        ) matches Some(p) && has_name(self.graph_nodes(), p)) by {
            let key = normalized_name(self.requests@[i]@);
            assert(lookup(self.providers@, key) is Some);
            lemma_lookup_entry(self.providers@, key);
            let j = choose|j: int|
                0 <= j < self.providers@.len() && #[trigger] self.providers@[j].1@ == lookup(
                    self.providers@,
                    key,
                )->0;
            assert(backed(nodes, self.frames@, self.providers@[j].1@));
        }
        assert forall|g: int, k: int|
            0 <= g < self.graph_nodes().len() && 0 <= k < self.graph_nodes()[g].dependencies@.len()
                && (#[trigger] self.graph_nodes()[g].dependencies@[k]).kind.resolvable() implies has_name(
            self.graph_nodes(),
            self.graph_nodes()[g].dependencies@[k].name@,
        ) by {
            let deps = nodes[g].dependencies@;
            assert(deps_backed(nodes, self.frames@, deps, deps.len() as int));
            assert(backed(nodes, self.frames@, deps[k].name@));
        }
    }

    /// Whether every resolved request has a known provider.
    pub open spec fn requests_known(&self) -> bool {
        forall|i: int|
            0 <= i < self.resolved_requests() ==> lookup(
                self.remembered(),
                normalized_name(#[trigger] self.requested()[i]@),
            ) is Some
    }

    /// A resolver that has found nothing yet, for a system on which the
    /// given packages are installed, by name and version.
    pub fn new(installed: Vec<(String, String)>) -> (r: Self)
        ensures
            r.wf(),
            r.graph_nodes().len() == 0,
            r.remembered().len() == 0,
            r.pending().len() == 0,
            r.requested().len() == 0,
            r.installed_packages() == installed@,
            r.faithful(),
            r.repo_answers().len() == 0,
            r.aur_answers().len() == 0,
    {
        Resolver {
            graph: DependencyGraph::new(),
            installed,
            providers: Vec::new(),
            requests: Vec::new(),
            next_request: 0,
            frames: Vec::new(),
            drifted: Ghost(false),
            origins: Ghost(Map::empty()),
            via: Ghost(Map::empty()),
            repo_answers: Ghost(Seq::empty()),
            aur_answers: Ghost(Seq::empty()),
        }
    }

    /// The package that provides `name`, as pacman names it in the output
    /// of a successful `pacman -Sp --print-format=%n name`: the first line
    /// that, trimmed, is neither empty nor `name` itself.
    pub fn provider_from_output(name: &str, output: &str) -> (r: Result<String, PacmanError>)
        ensures
            match r {
                Ok(p) => first_provider(lines_of(output@), name@) == Some(p@),
                Err(e) => {
                    &&& first_provider(lines_of(output@), name@) is None
                    &&& e matches PacmanError::ProviderNotFound(n) && n@ == name@
                },
            },
    {
        let all = lines(output);
        let ghost views = all@.map_values(|l: &str| l@);
        let mut i: usize = 0;
        assert(views.subrange(0, views.len() as int) =~= views);
        while i < all.len()
            invariant
                i <= all@.len(),
                views == all@.map_values(|l: &str| l@),
                views == lines_of(output@),
                first_provider(views, name@) == first_provider(views.subrange(i as int, views.len() as int), name@),
            decreases all@.len() - i,
        {
            let line = trim(all[i]);
            let ghost rest = views.subrange(i as int, views.len() as int);
            assert(rest[0] == all@[i as int]@);
            assert(rest.drop_first() =~= views.subrange(i + 1, views.len() as int));
            if line.unicode_len() > 0 && !str_eq(line, name) {
                return Ok(line.to_owned());
            }
            i = i + 1;
        }
        Err(PacmanError::ProviderNotFound(name.to_owned()))
    }

    /// Whatever the resolver asks, an answer of the kind asked for is one
    /// it takes next: the question is always the innermost frame's.
    pub proof fn asked_is_answerable(&self, q: Query, a: Answer)
        requires
            self.after_step(Step::Ask(q)),
            answer_fits(q, a),
        ensures
            self.expects(a),
    {
    }

    /// The installed packages, by name and version.
    pub fn installed(&self) -> (r: &Vec<(String, String)>)
        ensures
            r@ == self.installed_packages(),
    {
        &self.installed
    }

    /// The provider last remembered for `name`.
    fn cached_provider(&self, name: &str) -> (r: Option<String>)
        ensures
            match r {
                Some(p) => lookup(self.remembered(), name@) == Some(p@),
                None => lookup(self.remembered(), name@) is None,
            },
    {
        let mut i = self.providers.len();
        assert(self.providers@.subrange(0, i as int) =~= self.providers@);
        while i > 0
            invariant
                i <= self.providers@.len(),
                lookup(self.providers@, name@) == lookup(self.providers@.subrange(0, i as int), name@),
            decreases i,
        {
            let ghost prefix = self.providers@.subrange(0, i as int);
            assert(prefix.drop_last() =~= self.providers@.subrange(0, i - 1));
            if str_eq(self.providers[i - 1].0.as_str(), name) {
                return Some(self.providers[i - 1].1.clone());
            }
            i = i - 1;
        }
        None
    }

    /// Remembers that `requested` is provided by `provider`.
    fn remember_provider(&mut self, requested: &str, provider: &str)
        ensures
            final(self).providers@.len() == old(self).providers@.len() + 1,
            forall|i: int|
                0 <= i < old(self).providers@.len() ==> #[trigger] final(self).providers@[i]
                    == old(self).providers@[i],
            final(self).providers@.last().0@ == requested@,
            final(self).providers@.last().1@ == provider@,
            final(self).graph == old(self).graph,
            final(self).frames == old(self).frames,
            final(self).requests == old(self).requests,
            final(self).next_request == old(self).next_request,
            forall|k: Seq<char>| #[trigger]
                lookup(old(self).providers@, k) is Some ==> lookup(final(self).providers@, k) is Some,
            lookup(final(self).providers@, requested@) == Some(provider@),
            final(self).origins == old(self).origins,
            final(self).via == old(self).via,
            final(self).repo_answers == old(self).repo_answers,
            final(self).aur_answers == old(self).aur_answers,
            final(self).drifted@ == (old(self).drifted@ || (lookup(old(self).providers@, requested@) is Some
                && lookup(old(self).providers@, requested@) != Some(provider@))),
            !final(self).drifted@ ==> forall|k: Seq<char>| #[trigger]
                lookup(old(self).providers@, k) is Some ==> lookup(final(self).providers@, k)
                    == lookup(old(self).providers@, k),
    {
        let ghost before = self.providers@;
        proof {
            self.drifted = Ghost(
                self.drifted@ || (lookup(before, requested@) is Some && lookup(before, requested@) != Some(
                    provider@,
                )),
            );
        }
        self.providers.push((requested.to_owned(), provider.to_owned()));
        assert(self.providers@.drop_last() =~= before);
    }

    /// Puts `f` on top of the frames.
    fn push_frame(&mut self, f: Frame)
        requires
            old(self).wf(),
            forall|i: int| 0 <= i < old(self).frames@.len() ==> is_waiting(#[trigger] old(self).frames@[i]),
            old(self).frames@.len() == 0 ==> (old(self).next_request < old(self).requests@.len()
                && frame_name(f) == normalized_name(old(self).requests@[old(self).next_request as int]@)),
            f is Dependencies ==> lookup(old(self).providers@, frame_name(f)) is Some,
            old(self).frames@.len() > 0 ==> resolves_awaited(old(self).frames@.last(), f),
            match f {
                Frame::Dependencies { node, dep, result, name, .. } => dep < node.dependencies@.len(),
                _ => true,
            },
            frame_sourced(f, old(self).aur_answers@),
        ensures
            final(self).wf(),
            final(self).frames@ == old(self).frames@.push(f),
            final(self).repo_answers == old(self).repo_answers,
            final(self).aur_answers == old(self).aur_answers,
            final(self).graph == old(self).graph,
            final(self).drifted == old(self).drifted,
            final(self).origins == old(self).origins,
            final(self).via == old(self).via,
            final(self).providers == old(self).providers,
            final(self).requests == old(self).requests,
            final(self).next_request == old(self).next_request,
    {
        let ghost below = self.frames@;
        self.frames.push(f);
        proof {
            assert(self.frames@.drop_last() =~= below);
            lemma_sources_push(self.graph.nodes(), below, self.repo_answers@, self.aur_answers@, f);
            assert(self.frames@ =~= below.push(f));
            assert forall|i: int| 0 <= i < self.frames@.len() - 1 implies is_waiting(
                #[trigger] self.frames@[i],
            ) by {
                assert(self.frames@[i] == below[i]);
            }
            if below.len() > 0 {
                assert(self.frames@[0] == below[0]);
            }
            assert forall|i: int|
                0 <= i < self.frames@.len() && (#[trigger] self.frames@[i]) is Dependencies implies lookup(
                self.providers@,
                frame_name(self.frames@[i]),
            ) is Some by {
                if i < below.len() {
                    assert(self.frames@[i] == below[i]);
                }
            }
            assert forall|i: int| 0 <= i < self.frames@.len() implies match #[trigger] self.frames@[i] {
                Frame::Dependencies { node, dep, result, name, .. } => dep < node.dependencies@.len(),
                _ => true,
            } by {
                if i < below.len() {
                    assert(self.frames@[i] == below[i]);
                }
            }
        }
    }

    /// Starts resolving `packages`, in order: the first step.
    pub fn resolve(&mut self, packages: Vec<String>) -> (step: Step)
        requires
            old(self).wf(),
            old(self).pending().len() == 0,
        ensures
            final(self).wf(),
            final(self).after_step(step),
            final(self).requested() == packages@,
            forall|k: Seq<char>| #[trigger]
                lookup(old(self).remembered(), k) is Some ==> lookup(final(self).remembered(), k) is Some,
            packages@.len() == 0 ==> step matches Step::Done(Ok(_)),
            old(self).faithful() ==> final(self).faithful(),
            final(self).repo_answers() == old(self).repo_answers(),
            final(self).aur_answers() == old(self).aur_answers(),
            (forall|i: int|
                0 <= i < packages@.len() ==> lookup(
                    old(self).remembered(),
                    normalized_name(#[trigger] packages@[i]@),
                ) is Some) ==> (step matches Step::Done(Ok(_)) && final(self).graph_nodes()
                == old(self).graph_nodes() && final(self).remembered() == old(self).remembered()),
            packages@.len() > 0 ==> (lookup(old(self).remembered(), normalized_name(packages@[0]@)) is None
                ==> (step matches Step::Ask(Query::Repo(n)) && n@ == normalized_name(packages@[0]@)
                && final(self).pending().len() == 1)),
    {
        self.requests = packages;
        self.next_request = 0;
        if self.requests.len() == 0 {
            return Step::Done(Ok(()));
        }
        let first = self.requests[0].clone();
        self.settle(Pending::Start(first), Ghost(Seq::empty()))
    }

    /// Takes in the answer to the question asked last, and goes on. A name
    /// that the official repositories lack is asked among the providers,
    /// and one that no package provides in the AUR. A package found in the
    /// repositories is remembered as the provider of its name and enters the
    /// graph; one found in the AUR is remembered as the provider of the name
    /// asked, its dependencies to install first are resolved in order, each
    /// replaced by the package that provides it, and it enters the graph
    /// once they are. An answer that keeps the resolver faithful (see
    /// `clean_answer`) leaves a finished resolution holding what it
    /// promises; and while no name changes provider, each dependency is
    /// renamed to the provider remembered for its listed name (see
    /// `renaming_law`), and each name settled through a provider is
    /// remembered as what its provider resolved to (see `provider_law`).
    pub fn answer(&mut self, a: Answer) -> (step: Step)
        requires
            old(self).wf(),
            old(self).expects(a),
        ensures
            final(self).wf(),
            final(self).after_step(step),
            final(self).requested() == old(self).requested(),
            forall|k: Seq<char>| #[trigger]
                lookup(old(self).remembered(), k) is Some ==> lookup(final(self).remembered(), k) is Some,
            keeps_names(old(self).graph_nodes(), final(self).graph_nodes()),
            a matches Answer::Repo(None) ==> (step matches Step::Ask(Query::Provider(n)) && n@
                == frame_name(old(self).pending().last()) && final(self).graph_nodes()
                == old(self).graph_nodes() && final(self).remembered() == old(self).remembered()
                && final(self).pending().len() == old(self).pending().len()),
            a matches Answer::Provider(None) ==> (step matches Step::Ask(Query::Aur(n)) && n@
                == frame_name(old(self).pending().last()) && final(self).graph_nodes()
                == old(self).graph_nodes() && final(self).remembered() == old(self).remembered()
                && final(self).pending().len() == old(self).pending().len()),
            a matches Answer::Aur(Err(_)) ==> (old(self).pending().len() >= 2 && old(self).pending()[old(
                self,
            ).pending().len() - 2] is ViaProvider ==> (step matches Step::Ask(Query::Aur(n)) && n@
                == frame_name(old(self).pending()[old(self).pending().len() - 2])
                && final(self).pending().len() == old(self).pending().len() - 1)),
            a matches Answer::Repo(Some(node)) ==> (lookup(
                final(self).remembered(),
                frame_name(old(self).pending().last()),
            ) is Some && has_name(final(self).graph_nodes(), node.name@)),
            a matches Answer::Provider(Some(p)) ==> (lookup(old(self).remembered(), normalized_name(p@))
                is None ==> (step matches Step::Ask(Query::Repo(n)) && n@ == normalized_name(p@)
                && final(self).pending().len() == old(self).pending().len() + 1)),
            a matches Answer::Aur(Ok(info)) ==> lookup(
                final(self).remembered(),
                frame_name(old(self).pending().last()),
            ) is Some,
            a matches Answer::Aur(Err(e)) ==> (old(self).pending().len() == 1 ==> step
                == Step::Done(Err(e))),
            a matches Answer::Aur(Err(e)) ==> ((match nearest_via(old(self).pending().drop_last()) {
                None => step == Step::Done(Err(e)),
                Some(k) => step matches Step::Ask(Query::Aur(n)) && n@ == frame_name(old(self).pending()[k])
                    && final(self).pending().len() == k + 1,
            }) && final(self).graph_nodes() == old(self).graph_nodes() && final(self).remembered()
                == old(self).remembered()),
            a matches Answer::Repo(Some(node)) ==> (!final(self).drifted() ==> lookup(
                final(self).remembered(),
                frame_name(old(self).pending().last()),
            ) == Some(frame_name(old(self).pending().last()))),
            a matches Answer::Aur(Ok(info)) ==> (!final(self).drifted() ==> lookup(
                final(self).remembered(),
                frame_name(old(self).pending().last()),
            ) == Some(info.name@)),
            old(self).faithful() && clean_answer(a, old(self).pending()) ==> final(self).faithful(),
            final(self).repo_answers() == (match a {
                Answer::Repo(Some(node)) => old(self).repo_answers().push(node),
                _ => old(self).repo_answers(),
            }),
            final(self).aur_answers() == (match a {
                Answer::Aur(Ok(info)) => old(self).aur_answers().push(info),
                _ => old(self).aur_answers(),
            }),
            a matches Answer::Repo(Some(node)) ==> (old(self).pending().len() == 1 ==> (final(self).graph_nodes()
                == insert_node(old(self).graph_nodes(), node) && final(self).remembered().len()
                == old(self).remembered().len() + 1 && final(self).remembered().drop_last()
                == old(self).remembered() && lookup(
                final(self).remembered(),
                frame_name(old(self).pending().last()),
            ) == Some(frame_name(old(self).pending().last())))),
            a matches Answer::Aur(Ok(info)) ==> (first_dependency(info) matches Some(d) ==> (d
                != frame_name(old(self).pending().last()) && lookup(old(self).remembered(), d) is None
                ==> (step matches Step::Ask(Query::Repo(n)) && n@ == d && final(self).pending().len()
                == old(self).pending().len() + 1 && final(self).graph_nodes() == old(self).graph_nodes() && final(self).remembered().len()
                == old(self).remembered().len() + 1 && final(self).remembered().drop_last()
                == old(self).remembered() && lookup(
                final(self).remembered(),
                frame_name(old(self).pending().last()),
            ) == Some(info.name@)))),
            a matches Answer::Aur(Ok(info)) ==> (first_resolvable(info.dependency_list()) is None
                && old(self).pending().len() == 1 ==> ((exists|n: PackageNode|
                rpc_node(n, info) && #[trigger] insert_node(old(self).graph_nodes(), n)
                    == final(self).graph_nodes()) && final(self).origins() == old(self).origins().insert(
                info.name@,
                relation_names(info),
            ) && final(self).remembered().len()
                == old(self).remembered().len() + 1 && final(self).remembered().drop_last()
                == old(self).remembered() && lookup(
                final(self).remembered(),
                frame_name(old(self).pending().last()),
            ) == Some(info.name@))),
    {
        let ghost before = self.frames@;
        let ghost clean = self.faithful() && clean_answer(a, before);
        let top = self.frames.pop();
        let frame = match top {
            Some(f) => f,
            None => {
                proof {
                    assert(false);
                }
                return Step::Done(Ok(()));
            },
        };
        proof {
            assert(self.frames@ =~= before.drop_last());
            assert(frame == before.last());
            if self.frames@.len() > 0 {
                assert(self.frames@[0] == before[0]);
            }
            assert forall|i: int|
                0 <= i < self.frames@.len() && (#[trigger] self.frames@[i]) is Dependencies
                implies lookup(self.providers@, frame_name(self.frames@[i])) is Some by {
                assert(self.frames@[i] == before[i]);
            }
            assert forall|i: int| 0 <= i < self.frames@.len() implies is_waiting(
                #[trigger] self.frames@[i],
            ) by {
                assert(self.frames@[i] == before[i]);
            }
            assert forall|i: int| 0 <= i < self.frames@.len() implies match #[trigger] self.frames@[i] {
                Frame::Dependencies { node, dep, result, name, .. } => dep < node.dependencies@.len(),
                _ => true,
            } by {
                assert(self.frames@[i] == before[i]);
            }
            assert(self.wf());
        }
        let ghost n0 = self.graph.nodes();
        let ghost p0 = self.providers@;
        let ghost f0 = self.frames@;
        proof {
            if clean {
                lemma_covers_pop(n0, before);
                lemma_graph_covered(n0, before, f0, p0);
                lemma_all_backed_after(n0, before, p0, n0, f0, p0, f0.len() as int);
                if !self.drifted@ {
                    lemma_renamed_pop(n0, before, p0, self.origins@);
                    assert(before.drop_last() =~= f0);
                }
            }
        }
        match (frame, a) {
            (Frame::Repo { name }, Answer::Repo(Some(node))) => {
                let ghost nodes_before = self.graph.nodes();
                let ghost inserted = node;
                let ghost r0 = self.repo_answers@;
                proof {
                    self.repo_answers = Ghost(r0.push(inserted));
                    lemma_sources_grow(nodes_before, f0, r0, self.aur_answers@, self.repo_answers@, self.aur_answers@);
                    assert(self.repo_answers@[r0.len() as int] == inserted);
                    assert(from_answers(inserted, self.repo_answers@, self.aur_answers@));
                }
                self.graph.insert(node);
                proof {
                    insert_law(nodes_before, inserted);
                    lemma_sources_insert(nodes_before, f0, self.repo_answers@, self.aur_answers@, inserted);
                }
                self.remember_provider(name.as_str(), name.as_str());
                let ghost middle = self.graph.nodes();
                proof {
                    if clean {
                        lemma_covers_insert(n0, f0, inserted);
                        lemma_graph_insert(n0, f0, f0, p0, inserted);
                        assert(self.providers@.drop_last() =~= p0);
                        assert(backed(middle, f0, name@));
                        lemma_all_backed_after(n0, f0, p0, middle, f0, self.providers@, f0.len() as int);
                        if !self.drifted@ {
                            lemma_renamed_insert_plain(n0, f0, p0, self.origins@, inserted);
                            lemma_renamed_kept(middle, f0, p0, self.providers@, self.origins@);
                            lemma_via_kept(p0, self.providers@, self.via@);
                        }
                    }
                }
                let ghost p_mid = self.providers@;
                proof {
                    assert(p_mid.drop_last() =~= p0);
                }
                let step = self.settle(Pending::Finish(Ok(name)), Ghost(name@));
                proof {
                    keeps_names_trans(nodes_before, middle, self.graph.nodes());
                    let j = choose|j: int| 0 <= j < middle.len() && #[trigger] middle[j].name@ == inserted.name@;
                    assert(has_name(self.graph.nodes(), middle[j].name@));
                }
                step
            },
            (Frame::Repo { name }, Answer::Repo(None)) => {
                let asked = name.clone();
                self.push_frame(Frame::Provider { name });
                proof {
                    if clean {
                        assert(self.frames@ =~= f0.push(self.frames@.last()));
                        lemma_covers_push(n0, f0, self.frames@.last());
                        lemma_graph_covered(n0, f0, self.frames@, p0);
                        lemma_all_backed_after(n0, f0, p0, n0, self.frames@, p0, f0.len() as int);
                        if !self.drifted@ {
                            lemma_renamed_push(n0, f0, p0, self.origins@, self.frames@.last());
                        }
                    }
                }
                Step::Ask(Query::Provider(asked))
            },
            (Frame::Provider { name }, Answer::Provider(Some(provider))) => {
                self.push_frame(
                    Frame::ViaProvider { name, provider: Ghost(normalized_name(provider@)) },
                );
                proof {
                    if clean {
                        assert(self.frames@ =~= f0.push(self.frames@.last()));
                        lemma_covers_push(n0, f0, self.frames@.last());
                        lemma_graph_covered(n0, f0, self.frames@, p0);
                        lemma_all_backed_after(n0, f0, p0, n0, self.frames@, p0, f0.len() as int);
                        if !self.drifted@ {
                            lemma_renamed_push(n0, f0, p0, self.origins@, self.frames@.last());
                        }
                    }
                }
                self.settle(Pending::Start(provider), Ghost(Seq::empty()))
            },
            (Frame::Provider { name }, Answer::Provider(None)) => {
                let asked = name.clone();
                self.push_frame(Frame::Aur { name });
                proof {
                    if clean {
                        assert(self.frames@ =~= f0.push(self.frames@.last()));
                        lemma_covers_push(n0, f0, self.frames@.last());
                        lemma_graph_covered(n0, f0, self.frames@, p0);
                        lemma_all_backed_after(n0, f0, p0, n0, self.frames@, p0, f0.len() as int);
                        if !self.drifted@ {
                            lemma_renamed_push(n0, f0, p0, self.origins@, self.frames@.last());
                        }
                    }
                }
                Step::Ask(Query::Aur(asked))
            },
            (Frame::Aur { name }, Answer::Aur(Ok(info))) => {
                let ghost a0 = self.aur_answers@;
                proof {
                    self.aur_answers = Ghost(a0.push(info));
                    lemma_sources_grow(n0, f0, self.repo_answers@, a0, self.repo_answers@, self.aur_answers@);
                }
                self.remember_provider(name.as_str(), info.name.as_str());
                let node = PackageNode::from_rpc(&info);
                let ghost described = info;
                proof {
                    lemma_rpc_built(node, described);
                    assert(self.aur_answers@[a0.len() as int] == described);
                    assert(aur_built(node, self.aur_answers@[a0.len() as int]));
                }
                let ghost p1 = self.providers@;
                let mut k: usize = 0;
                while k < node.dependencies.len()
                    invariant
                        k <= node.dependencies@.len(),
                        forall|j: int| 0 <= j < k ==> !(#[trigger] node.dependencies@[j]).kind.resolvable(),
                    ensures
                        k <= node.dependencies@.len(),
                        forall|j: int| 0 <= j < k ==> !(#[trigger] node.dependencies@[j]).kind.resolvable(),
                        k < node.dependencies@.len() ==> node.dependencies@[k as int].kind.resolvable(),
                    decreases node.dependencies@.len() - k,
                {
                    if node.dependencies[k].kind.is_resolvable() {
                        break;
                    }
                    k = k + 1;
                }
                proof {
                    let list = info.dependency_list();
                    assert(dependency_views(node.dependencies@) == list);
                    assert forall|j: int| 0 <= j < k implies !(#[trigger] list[j]).1.resolvable() by {
                        assert(list[j] == (node.dependencies@[j].name@, node.dependencies@[j].kind));
                    }
                    if k < node.dependencies@.len() {
                        assert(list[k as int] == (node.dependencies@[k as int].name@, node.dependencies@[k as int].kind));
                    }
                    lemma_first_resolvable(list, k as int);
                    assert(p1.drop_last() =~= p0);
                }
                let ghost node_deps = node.dependencies@;
                if k < node.dependencies.len() {
                    let next_name = node.dependencies[k].name.clone();
                    self.push_frame(
                        Frame::Dependencies {
                            node,
                            dep: k,
                            result: info.name,
                            name,
                            listed: Ghost(relation_names(described)),
                        },
                    );
                    proof {
                        if clean {
                            let now = self.frames@;
                            assert(now =~= f0.push(now.last()));
                            lemma_covers_push(n0, f0, now.last());
                            assert(frame_result(now[now.len() - 1]) == Some(info.name@));
                            assert(backed(n0, now, info.name@));
                            assert(p1.drop_last() =~= p0);
                            assert(frame_backed(n0, now, now.last()));
                            lemma_graph_covered(n0, f0, now, p0);
                            lemma_all_backed_after(n0, f0, p0, n0, now, p1, f0.len() as int);
                            if !self.drifted@ {
                                lemma_renamed_kept(n0, f0, p0, p1, self.origins@);
                                lemma_via_kept(p0, p1, self.via@);
                                let top = now.last();
                                let listed = relation_names(described);
                                assert forall|j: int| 0 <= j < node_deps.len() implies (#[trigger] node_deps[j]).name@
                                    == listed[j] by {
                                    assert(described.dependency_list()[j] == (node_deps[j].name@, node_deps[j].kind));
                                }
                                assert(frame_renamed(p1, top));
                                lemma_renamed_push(n0, f0, p1, self.origins@, top);
                            }
                        }
                    }
                    self.settle(Pending::Start(next_name), Ghost(Seq::empty()))
                } else {
                    let ghost nodes_before = self.graph.nodes();
                    let ghost inserted = node;
                    let ghost origins_before = self.origins@;
                    proof {
                        self.origins = Ghost(self.origins@.insert(described.name@, relation_names(described)));
                    }
                    self.graph.insert(node);
                    proof {
                        insert_law(nodes_before, inserted);
                        assert(from_answers(inserted, self.repo_answers@, self.aur_answers@));
                        lemma_sources_insert(nodes_before, f0, self.repo_answers@, self.aur_answers@, inserted);
                    }
                    let ghost middle = self.graph.nodes();
                    proof {
                        if clean && !self.drifted@ {
                            lemma_renamed_kept(n0, f0, p0, p1, origins_before);
                            lemma_via_kept(p0, p1, self.via@);
                            lemma_renamed_insert(n0, f0, p1, origins_before, inserted, relation_names(described));
                        }
                        if clean {
                            lemma_covers_insert(n0, f0, inserted);
                            lemma_graph_insert(n0, f0, f0, p0, inserted);
                            assert(p1.drop_last() =~= p0);
                            assert(backed(middle, f0, info.name@));
                            lemma_all_backed_after(n0, f0, p0, middle, f0, p1, f0.len() as int);
                        }
                    }
                    let step = self.settle(Pending::Finish(Ok(info.name)), Ghost(name@));
                    proof {
                        keeps_names_trans(nodes_before, middle, self.graph.nodes());
                        if f0.len() == 0 {
                            assert(rpc_node(inserted, described));
                            assert(insert_node(n0, inserted) == self.graph.nodes());
                            assert(lookup(p1, name@) == Some(described.name@));
                            assert(old(self).graph_nodes() == n0);
                            assert(insert_node(old(self).graph_nodes(), inserted) == self.graph_nodes());
                        }
                    }
                    step
                }
            },
            (Frame::Aur { name }, Answer::Aur(Err(e))) => {
                let step = self.settle(Pending::Finish(Err(e)), Ghost(name@));
                proof {
                    assert(before.drop_last() =~= f0);
                    lemma_nearest_via_bound(f0);
                    if let Some(k) = nearest_via(f0) {
                        assert(f0[k] == before[k]);
                    }
                }
                step
            },
            _ => {
                proof {
                    assert(false);
                }
                Step::Done(Ok(()))
            },
        }
    }

    /// The packages found.
    pub fn into_graph(self) -> (g: DependencyGraph)
        ensures
            g.nodes() == self.graph_nodes(),
    {
        self.graph
    }

    /// Works on `pending` until a question must be asked or the resolution
    /// is finished. `completed` is the name whose resolution finishes when
    /// `pending` hands one on.
    #[verifier::rlimit(60)]
    fn settle(&mut self, work: Pending, Ghost(completed): Ghost<Seq<char>>) -> (step: Step)
        requires
            old(self).wf(),
            forall|i: int| 0 <= i < old(self).frames@.len() ==> is_waiting(#[trigger] old(self).frames@[i]),
            work matches Pending::Start(raw) ==> (old(self).frames@.len() == 0 ==> (
            old(self).next_request < old(self).requests@.len() && raw@
                == old(self).requests@[old(self).next_request as int]@)),
            work matches Pending::Finish(Ok(_)) ==> lookup(old(self).providers@, completed) is Some,
            work is Finish ==> (old(self).frames@.len() == 0 ==> (old(self).next_request
                < old(self).requests@.len() && completed == normalized_name(
                old(self).requests@[old(self).next_request as int]@,
            ))),
            work_awaited(old(self).frames@, work, completed),
        ensures
            final(self).wf(),
            final(self).after_step(step),
            final(self).requests == old(self).requests,
            final(self).repo_answers == old(self).repo_answers,
            final(self).aur_answers == old(self).aur_answers,
            forall|k: Seq<char>| #[trigger]
                lookup(old(self).providers@, k) is Some ==> lookup(final(self).providers@, k) is Some,
            keeps_names(old(self).graph.nodes(), final(self).graph.nodes()),
            work matches Pending::Start(raw) ==> (lookup(old(self).providers@, normalized_name(raw@))
                is None ==> (step matches Step::Ask(Query::Repo(n)) && n@ == normalized_name(raw@)
                && final(self).graph == old(self).graph && final(self).providers == old(self).providers
                && final(self).frames@.len() == old(self).frames@.len() + 1)),
            work matches Pending::Finish(Err(_)) ==> (old(self).frames@.len() > 0 && old(self).frames@.last() is ViaProvider
                ==> (step matches Step::Ask(Query::Aur(n)) && n@ == frame_name(old(self).frames@.last())
                && final(self).frames@.len() == old(self).frames@.len())),
            old(self).frames@.len() == 0 ==> (final(self).graph == old(self).graph && final(self).providers
                == old(self).providers && final(self).origins == old(self).origins),
            old(self).frames@.len() == 0 && rest_cached(
                old(self).providers@,
                old(self).requests@,
                old(self).next_request,
                work,
            ) ==> step matches Step::Done(Ok(_)),
            work matches Pending::Finish(Err(e)) ==> (old(self).frames@.len() == 0 ==> step
                == Step::Done(Err(e))),
            work matches Pending::Finish(Err(e)) ==> ((match nearest_via(old(self).frames@) {
                None => step == Step::Done(Err(e)),
                Some(k) => step matches Step::Ask(Query::Aur(n)) && n@ == frame_name(old(self).frames@[k])
                    && final(self).frames@.len() == k + 1,
            }) && final(self).graph == old(self).graph && final(self).providers == old(self).providers),
            !final(self).drifted@ ==> !old(self).drifted@,
            !final(self).drifted@ ==> forall|k: Seq<char>| #[trigger]
                lookup(old(self).providers@, k) is Some ==> lookup(final(self).providers@, k) == lookup(
                    old(self).providers@,
                    k,
                ),
            all_backed(old(self).graph.nodes(), old(self).frames@, old(self).providers@)
                && work_backed(old(self).graph.nodes(), old(self).frames@, work) && old(self).renamed_with(
                work,
                completed,
            ) ==> final(self).faithful(),
    {
        let ghost clean = all_backed(old(self).graph.nodes(), old(self).frames@, old(self).providers@)
            && work_backed(old(self).graph.nodes(), old(self).frames@, work) && old(self).renamed_with(
            work,
            completed,
        );
        let ghost start_nodes = self.graph.nodes();
        let ghost first_pending = work;
        let mut pending = work;
        let ghost mut finished = completed;
        loop
            invariant
                self.wf(),
                self.requests == old(self).requests,
                self.repo_answers == old(self).repo_answers,
                self.aur_answers == old(self).aur_answers,
                forall|i: int| 0 <= i < self.frames@.len() ==> is_waiting(#[trigger] self.frames@[i]),
                pending matches Pending::Start(raw) ==> (self.frames@.len() == 0 ==> (
                self.next_request < self.requests@.len() && raw@
                    == self.requests@[self.next_request as int]@)),
                pending matches Pending::Finish(Ok(_)) ==> lookup(self.providers@, finished) is Some,
                pending is Finish ==> (self.frames@.len() == 0 ==> (self.next_request
                    < self.requests@.len() && finished == normalized_name(
                    self.requests@[self.next_request as int]@,
                ))),
                work_awaited(self.frames@, pending, finished),
                forall|k: Seq<char>| #[trigger]
                    lookup(old(self).providers@, k) is Some ==> lookup(self.providers@, k) is Some,
                keeps_names(start_nodes, self.graph.nodes()),
                start_nodes == old(self).graph.nodes(),
                first_pending == work,
                first_pending matches Pending::Start(raw) ==> (lookup(old(self).providers@, normalized_name(raw@))
                    is None ==> (pending == first_pending && self.providers == old(self).providers
                    && self.graph == old(self).graph && self.frames == old(self).frames)),
                first_pending matches Pending::Finish(Err(_)) ==> (old(self).frames@.len() > 0
                    && old(self).frames@.last() is ViaProvider ==> (pending == first_pending && self.frames
                    == old(self).frames)),
                old(self).frames@.len() == 0 ==> (self.frames@.len() == 0 && self.graph == old(self).graph
                    && self.providers == old(self).providers && self.origins == old(self).origins),
                old(self).frames@.len() == 0 && rest_cached(
                    old(self).providers@,
                    old(self).requests@,
                    old(self).next_request,
                    work,
                ) ==> rest_cached(self.providers@, self.requests@, self.next_request, pending),
                first_pending matches Pending::Finish(Err(_)) ==> (old(self).frames@.len() == 0 ==> (
                pending == first_pending && self.frames@.len() == 0)),
                first_pending matches Pending::Finish(Err(_)) ==> {
                    &&& pending == first_pending
                    &&& self.frames@.len() <= old(self).frames@.len()
                    &&& self.frames@ == old(self).frames@.subrange(0, self.frames@.len() as int)
                    &&& forall|j: int|
                        self.frames@.len() <= j < old(self).frames@.len() ==> (#[trigger] old(
                            self,
                        ).frames@[j]) is Dependencies
                    &&& self.graph == old(self).graph
                    &&& self.providers == old(self).providers
                },
                !self.drifted@ ==> !old(self).drifted@,
                !self.drifted@ ==> forall|k: Seq<char>| #[trigger]
                    lookup(old(self).providers@, k) is Some ==> lookup(self.providers@, k) == lookup(
                        old(self).providers@,
                        k,
                    ),
                clean == (all_backed(old(self).graph.nodes(), old(self).frames@, old(self).providers@)
                    && work_backed(old(self).graph.nodes(), old(self).frames@, work) && old(self).renamed_with(
                    work,
                    completed,
                )),
                clean ==> all_backed(self.graph.nodes(), self.frames@, self.providers@),
                clean ==> work_backed(self.graph.nodes(), self.frames@, pending),
                clean ==> self.renamed_with(pending, finished),
            decreases 2 * ((self.requests@.len() - self.next_request) + stack_work(self.frames@)) + (
            if pending is Start {
                1int
            } else {
                0int
            }),
        {
            let ghost current = pending;
            match pending {
                Pending::Start(raw) => {
                    assert(current == Pending::Start(raw));
                    let name = normalize_name(raw.as_str());
                    match self.cached_provider(name) {
                        Some(provider) => {
                            proof {
                                finished = name@;
                                if clean {
                                    lemma_lookup_entry(self.providers@, name@);
                                    let j = choose|j: int|
                                        0 <= j < self.providers@.len() && #[trigger] self.providers@[j].1@
                                            == lookup(self.providers@, name@)->0;
                                    assert(backed(self.graph.nodes(), self.frames@, self.providers@[j].1@));
                                }
                            }
                            pending = Pending::Finish(Ok(provider));
                        },
                        None => {
                            let ghost before = self.frames@;
                            self.frames.push(Frame::Repo { name: name.to_owned() });
                            proof {
                                assert(self.frames@.drop_last() =~= before);
                                lemma_sources_push(
                                    self.graph.nodes(),
                                    before,
                                    self.repo_answers@,
                                    self.aur_answers@,
                                    self.frames@.last(),
                                );
                                assert(self.frames@ =~= before.push(self.frames@.last()));
                                assert forall|i: int| 0 <= i < self.frames@.len() - 1 implies is_waiting(
                                    #[trigger] self.frames@[i],
                                ) by {
                                    assert(self.frames@[i] == before[i]);
                                }
                                if before.len() > 0 {
                                    assert(self.frames@[0] == before[0]);
                                }
                                assert forall|i: int|
                                    0 <= i < self.frames@.len() && (#[trigger] self.frames@[i]) is Dependencies
                                    implies lookup(self.providers@, frame_name(self.frames@[i])) is Some by {
                                    assert(self.frames@[i] == before[i]);
                                }
                                if clean {
                                    let n = self.graph.nodes();
                                    assert(self.frames@ =~= before.push(self.frames@.last()));
                                    lemma_covers_push(n, before, self.frames@.last());
                                    lemma_graph_covered(n, before, self.frames@, self.providers@);
                                    lemma_all_backed_after(
                                        n,
                                        before,
                                        self.providers@,
                                        n,
                                        self.frames@,
                                        self.providers@,
                                        before.len() as int,
                                    );
                                    if !self.drifted@ {
                                        lemma_renamed_push(n, before, self.providers@, self.origins@, self.frames@.last());
                                    }
                                }
                            }
                            return Step::Ask(Query::Repo(name.to_owned()));
                        },
                    }
                },
                Pending::Finish(result) => {
                    assert(current == Pending::Finish(result));
                    let ghost before = self.frames@;
                    proof {
                        if before.len() > 0 {
                            let top = before[before.len() - 1];
                            assert(match top {
                                Frame::Dependencies { node, dep, result, name, .. } => dep < node.dependencies@.len(),
                                _ => true,
                            });
                        }
                    }
                    match self.frames.pop() {
                        None => {
                            assert(before.len() == 0);
                            assert(self.next_request < self.requests@.len());
                            match result {
                                Ok(_) => {
                                    let total = self.requests.len();
                                    assert(self.next_request < total);
                                    self.next_request = self.next_request + 1;
                                    if self.next_request < self.requests.len() {
                                        pending = Pending::Start(self.requests[self.next_request].clone());
                                    } else {
                                        proof {
                                            assert(self.wf());
                                            if clean {
                                                assert(all_backed(self.graph.nodes(), self.frames@, self.providers@));
                                                assert(!self.drifted@ ==> all_renamed(self.graph.nodes(), self.frames@, self.providers@, self.origins@));
                                                assert(self.faithful());
                                            }
                                            if self.faithful() {
                                                self.lemma_resolution();
                                            }
                                        }
                                        return Step::Done(Ok(()));
                                    }
                                },
                                Err(e) => {
                                    proof {
                                        if first_pending matches Pending::Finish(Err(_)) {
                                            lemma_nearest_via_prefix(old(self).frames@, 0);
                                            assert(old(self).frames@.subrange(0, 0) =~= Seq::<Frame>::empty());
                                        }
                                    }
                                    return Step::Done(Err(e));
                                },
                            }
                        },
                        Some(frame) => {
                            proof {
                                assert(self.frames@ =~= before.drop_last());
                                assert(frame == before.last());
                                lemma_sources_pop(self.graph.nodes(), before, self.repo_answers@, self.aur_answers@);
                                assert(is_waiting(before[before.len() - 1]));
                                assert(stack_work(before) == stack_work(self.frames@) + 1 + frame_work(frame));
                                if self.frames@.len() > 0 {
                                    assert(self.frames@[0] == before[0]);
                                }
                                assert forall|i: int|
                                    0 <= i < self.frames@.len() && (#[trigger] self.frames@[i]) is Dependencies
                                    implies lookup(self.providers@, frame_name(self.frames@[i])) is Some by {
                                    assert(self.frames@[i] == before[i]);
                                }
                                assert forall|i: int| 0 <= i < self.frames@.len() implies is_waiting(
                                    #[trigger] self.frames@[i],
                                ) by {
                                    assert(self.frames@[i] == before[i]);
                                }
                            }
                            match frame {
                                Frame::ViaProvider { name, provider: looked_up } => {
                                    match result {
                                        Ok(provider) => {
                                            let ghost p_old = self.providers@;
                                            let ghost n = self.graph.nodes();
                                            proof {
                                                if clean {
                                                    lemma_covers_pop(n, before);
                                                    assert(backed(n, before, provider@));
                                                    assert(backed(n, self.frames@, provider@));
                                                    if !self.drifted@ {
                                                        lemma_renamed_pop(n, before, p_old, self.origins@);
                                                    }
                                                }
                                            }
                                            let ghost old_via = self.via@;
                                            let ghost fin = finished;
                                            self.remember_provider(name.as_str(), provider.as_str());
                                            proof {
                                                self.via = Ghost(self.via@.insert(name@, looked_up@));
                                                finished = name@;
                                                if clean {
                                                    assert(self.providers@.drop_last() =~= p_old);
                                                    lemma_graph_covered(n, before, self.frames@, p_old);
                                                    lemma_all_backed_after(
                                                        n,
                                                        before,
                                                        p_old,
                                                        n,
                                                        self.frames@,
                                                        self.providers@,
                                                        self.frames@.len() as int,
                                                    );
                                                    if !self.drifted@ {
                                                        lemma_renamed_kept(n, self.frames@, p_old, self.providers@, self.origins@);
                                                        lemma_via_kept(p_old, self.providers@, old_via);
                                                        assert(fin == looked_up@);
                                                        assert(lookup(p_old, looked_up@) == Some(provider@));
                                                        assert(lookup(self.providers@, looked_up@) == Some(provider@));
                                                        assert(lookup(self.providers@, name@) == Some(provider@));
                                                        assert forall|m: Seq<char>| #[trigger] self.via@.dom().contains(m)
                                                            implies lookup(self.providers@, m) is Some && lookup(self.providers@, m)
                                                            == lookup(self.providers@, self.via@[m]) by {
                                                            if m != name@ {
                                                                assert(old_via.dom().contains(m));
                                                            }
                                                        }
                                                    }
                                                }
                                            }
                                            pending = Pending::Finish(Ok(provider));
                                        },
                                        Err(_) => {
                                            let ghost below = self.frames@;
                                            self.frames.push(Frame::Aur { name: name.clone() });
                                            proof {
                                                assert(self.frames@.drop_last() =~= below);
                                                lemma_sources_push(
                                                    self.graph.nodes(),
                                                    below,
                                                    self.repo_answers@,
                                                    self.aur_answers@,
                                                    self.frames@.last(),
                                                );
                                                assert(self.frames@ =~= below.push(self.frames@.last()));
                                                assert forall|i: int| 0 <= i < self.frames@.len() - 1 implies is_waiting(
                                                    #[trigger] self.frames@[i],
                                                ) by {
                                                    assert(self.frames@[i] == below[i]);
                                                }
                                                if below.len() > 0 {
                                                    assert(self.frames@[0] == below[0]);
                                                }
                                                assert forall|i: int|
                                                    0 <= i < self.frames@.len() && (#[trigger] self.frames@[i]) is Dependencies
                                                    implies lookup(self.providers@, frame_name(self.frames@[i])) is Some by {
                                                    assert(self.frames@[i] == below[i]);
                                                }
                                                if clean {
                                                    let n = self.graph.nodes();
                                                    let p = self.providers@;
                                                    lemma_covers_pop(n, before);
                                                    lemma_covers_push(n, below, self.frames@.last());
                                                    assert(self.frames@ =~= below.push(self.frames@.last()));
                                                    lemma_covers_trans(n, before, n, below, n, self.frames@);
                                                    lemma_graph_covered(n, before, self.frames@, p);
                                                    lemma_all_backed_after(n, before, p, n, self.frames@, p, below.len() as int);
                                                    if !self.drifted@ {
                                                        lemma_renamed_pop(n, before, p, self.origins@);
                                                        lemma_renamed_push(n, below, p, self.origins@, self.frames@.last());
                                                    }
                                                }
                                                if first_pending matches Pending::Finish(Err(_)) {
                                                    lemma_nearest_via_prefix(old(self).frames@, before.len() as int);
                                                    assert(old(self).frames@.subrange(0, before.len() as int) == before);
                                                    assert(before.last() is ViaProvider);
                                                    assert(nearest_via(before) == Some(before.len() - 1));
                                                    assert(old(self).frames@[before.len() - 1] == before[before.len() - 1]);
                                                }
                                            }
                                            return Step::Ask(Query::Aur(name));
                                        },
                                    }
                                },
                                Frame::Dependencies { node, dep, result: stands_for, name, listed } => {
                                    match result {
                                        Ok(provider) => {
                                            let mut node = node;
                                            let count = node.dependencies.len();
                                            assert(dep < count);
                                            let kind = node.dependencies[dep].kind;
                                            let ghost orig = node;
                                            let ghost provided = provider;
                                            let ghost n = self.graph.nodes();
                                            let ghost p = self.providers@;
                                            proof {
                                                if clean {
                                                    assert(backed(n, before, provided@));
                                                    assert(frame_backed(n, before, before[before.len() - 1]));
                                                }
                                            }
                                            node.dependencies.set(dep, crate::dependency::Dependency { name: provider, kind });
                                            let mut k = dep + 1;
                                            while k < node.dependencies.len()
                                                invariant
                                                    dep < k <= node.dependencies@.len(),
                                                    forall|j: int|
                                                        dep < j < k ==> !(#[trigger] node.dependencies@[j]).kind.resolvable(),
                                                ensures
                                                    dep < k <= node.dependencies@.len(),
                                                    forall|j: int|
                                                        dep < j < k ==> !(#[trigger] node.dependencies@[j]).kind.resolvable(),
                                                    k < node.dependencies@.len() ==> node.dependencies@[k as int].kind.resolvable(),
                                                decreases node.dependencies@.len() - k,
                                            {
                                                if node.dependencies[k].kind.is_resolvable() {
                                                    break;
                                                }
                                                k = k + 1;
                                            }
                                            let ghost renamed = node;
                                            let ghost aur_a = self.aur_answers@;
                                            proof {
                                                let w = choose|w: int| 0 <= w < aur_a.len() && aur_built(orig, #[trigger] aur_a[w]);
                                                lemma_built_renamed(orig, renamed, aur_a[w], dep as int);
                                                assert(aur_built(renamed, aur_a[w]));
                                            }
                                            if k < node.dependencies.len() {
                                                let next_name = node.dependencies[k].name.clone();
                                                let ghost below = self.frames@;
                                                self.frames.push(Frame::Dependencies { node, dep: k, result: stands_for, name, listed });
                                                proof {
                                                    assert(self.frames@.drop_last() =~= below);
                                                    assert(frame_sourced(self.frames@.last(), aur_a));
                                                    lemma_sources_push(
                                                        self.graph.nodes(),
                                                        below,
                                                        self.repo_answers@,
                                                        aur_a,
                                                        self.frames@.last(),
                                                    );
                                                    assert(self.frames@ =~= below.push(self.frames@.last()));
                                                    assert(stack_work(self.frames@) == stack_work(below) + 1 + frame_work(self.frames@.last()));
                                                    assert forall|i: int| 0 <= i < self.frames@.len() implies is_waiting(
                                                        #[trigger] self.frames@[i],
                                                    ) by {
                                                        if i < below.len() {
                                                            assert(self.frames@[i] == below[i]);
                                                        }
                                                    }
                                                    if below.len() > 0 {
                                                        assert(self.frames@[0] == below[0]);
                                                    }
                                                    assert forall|i: int|
                                                        0 <= i < self.frames@.len() && (#[trigger] self.frames@[i]) is Dependencies
                                                        implies lookup(self.providers@, frame_name(self.frames@[i])) is Some by {
                                                        if i < below.len() {
                                                            assert(self.frames@[i] == below[i]);
                                                        } else {
                                                            assert(frame_name(self.frames@[i]) == frame_name(before.last()));
                                                            assert(lookup(self.providers@, frame_name(before[before.len() - 1])) is Some);
                                                        }
                                                    }
                                                    if clean {
                                                        let now = self.frames@;
                                                        assert forall|i: int| 0 <= i < before.len() implies frame_result(
                                                            #[trigger] before[i],
                                                        ) == frame_result(now[i]) by {
                                                            if i < below.len() {
                                                                assert(now[i] == below[i]);
                                                            }
                                                        }
                                                        lemma_covers_same_results(n, before, now);
                                                        let top = now.last();
                                                        let deps = top->node.dependencies@;
                                                        assert forall|j: int|
                                                            0 <= j < top->dep && j < deps.len() && (#[trigger] deps[j]).kind.resolvable()
                                                            implies backed(n, now, deps[j].name@) by {
                                                            if j < dep {
                                                                assert(deps[j] == orig.dependencies@[j]);
                                                                assert(backed(n, before, orig.dependencies@[j].name@));
                                                            } else if j == dep {
                                                                assert(deps[j].name@ == provided@);
                                                            }
                                                        }
                                                        assert(frame_backed(n, now, top));
                                                        lemma_graph_covered(n, before, now, p);
                                                        lemma_all_backed_after(n, before, p, n, now, p, below.len() as int);
                                                        if !self.drifted@ {
                                                            lemma_renamed_pop(n, before, p, self.origins@);
                                                            lemma_renamed_step(
                                                                p,
                                                                orig,
                                                                top->node,
                                                                listed@,
                                                                dep as int,
                                                                k as int,
                                                                provided@,
                                                            );
                                                            assert(frame_renamed(p, top));
                                                            lemma_renamed_push(n, below, p, self.origins@, top);
                                                        }
                                                    }
                                                }
                                                pending = Pending::Start(next_name);
                                            } else {
                                                proof {
                                                    assert(lookup(self.providers@, frame_name(before[before.len() - 1])) is Some);
                                                    finished = name@;
                                                }
                                                let ghost nodes_before = self.graph.nodes();
                                                let ghost inserted = node;
                                                let ghost origins_before = self.origins@;
                                                proof {
                                                    self.origins = Ghost(self.origins@.insert(stands_for@, listed@));
                                                }
                                                self.graph.insert(node);
                                                proof {
                                                    insert_law(nodes_before, inserted);
                                                    assert(from_answers(inserted, self.repo_answers@, aur_a));
                                                    lemma_sources_insert(nodes_before, self.frames@, self.repo_answers@, aur_a, inserted);
                                                    keeps_names_trans(start_nodes, nodes_before, self.graph.nodes());
                                                    if clean && !self.drifted@ {
                                                        lemma_renamed_pop(n, before, p, origins_before);
                                                        lemma_renamed_step(
                                                            p,
                                                            orig,
                                                            inserted,
                                                            listed@,
                                                            dep as int,
                                                            inserted.dependencies@.len() as int,
                                                            provided@,
                                                        );
                                                        lemma_renamed_insert(n, self.frames@, p, origins_before, inserted, listed@);
                                                    }
                                                    if clean {
                                                        let now = self.frames@;
                                                        let after = self.graph.nodes();
                                                        assert(frame_result(before.last()) == Some(inserted.name@));
                                                        lemma_covers_finish(n, before, inserted);
                                                        let deps = inserted.dependencies@;
                                                        assert forall|j: int|
                                                            0 <= j < deps.len() && j < deps.len() && (#[trigger] deps[j]).kind.resolvable()
                                                            implies backed(after, now, deps[j].name@) by {
                                                            if j < dep {
                                                                assert(deps[j] == orig.dependencies@[j]);
                                                                assert(backed(n, before, orig.dependencies@[j].name@));
                                                            } else if j == dep {
                                                                assert(deps[j].name@ == provided@);
                                                            }
                                                        }
                                                        lemma_graph_insert(n, before, now, p, inserted);
                                                        lemma_all_backed_after(n, before, p, after, now, p, now.len() as int);
                                                        assert(pending_result(before, stands_for@)) by {
                                                            assert(frame_result(before[before.len() - 1]) == Some(stands_for@));
                                                        }
                                                        assert(backed(n, before, stands_for@));
                                                    }
                                                }
                                                pending = Pending::Finish(Ok(stands_for));
                                            }
                                        },
                                        Err(e) => {
                                            proof {
                                                finished = name@;
                                            }
                                            pending = Pending::Finish(Err(e));
                                        },
                                    }
                                },
                                _ => {
                                    proof {
                                        assert(false);
                                    }
                                    return Step::Done(Ok(()));
                                },
                            }
                        },
                    }
                },
            }
        }
    }
}

} // verus!
