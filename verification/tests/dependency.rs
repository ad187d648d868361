use aur_pkg_manager::aur::rpc::{RpcPackage, RpcResponse};
use aur_pkg_manager::dependency::graph::DependencyGraph;
use aur_pkg_manager::dependency::package::{
    pacman_fields, parse_installed, AurMeta, PackageNode, PackageSource, PacmanError,
};
use aur_pkg_manager::dependency::plan::InstallPlan;
use aur_pkg_manager::dependency::resolver::{
    aur_warnings_at, Answer, Query, ResolveError, Resolver, RpcError, Step,
};
use aur_pkg_manager::dependency::{normalize_name, size_parts, Dependency, DependencyKind};

fn node(name: &str, deps: &[(&str, DependencyKind)]) -> PackageNode {
    PackageNode {
        name: name.to_owned(),
        version: Some("1.0".to_owned()),
        source: PackageSource::Repo,
        dependencies: deps.iter().map(|(d, k)| Dependency::new(d, *k)).collect(),
        size: None,
        download_size: None,
        provides: Vec::new(),
        packager: None,
        aur: None,
    }
}

fn rpc(name: &str, depends: &[&str], make_depends: &[&str]) -> RpcPackage {
    RpcPackage {
        name: name.to_owned(),
        version: "2.0-1".to_owned(),
        maintainer: Some("alice".to_owned()),
        package_base: format!("{name}-base"),
        description: None,
        url: None,
        submitter: None,
        votes: 3,
        popularity_bits: 0.5f64.to_bits(),
        out_of_date: None,
        last_modified: 0,
        depends: depends.iter().map(|s| s.to_string()).collect(),
        make_depends: make_depends.iter().map(|s| s.to_string()).collect(),
        check_depends: Vec::new(),
        opt_depends: vec!["python: for scripts".to_owned()],
        provides: Vec::new(),
        conflicts: Vec::new(),
    }
}

#[test]
fn dependency_names_drop_versions_and_descriptions() {
    assert_eq!(normalize_name("glibc>=2.38"), "glibc");
    assert_eq!(normalize_name("python: for scripts"), "python");
    assert_eq!(normalize_name("  zlib  "), "zlib");
    assert_eq!(normalize_name("sh<5=4"), "sh");
    assert_eq!(normalize_name(">=1"), "");
    let d = Dependency::new("openssl>3", DependencyKind::Build);
    assert_eq!(d.name, "openssl");
    assert_eq!(d.kind, DependencyKind::Build);
}

#[test]
fn only_install_dependencies_are_resolvable() {
    assert!(DependencyKind::Runtime.is_resolvable());
    assert!(DependencyKind::Build.is_resolvable());
    assert!(DependencyKind::Check.is_resolvable());
    assert!(!DependencyKind::Optional.is_resolvable());
    assert!(!DependencyKind::Provides.is_resolvable());
    assert!(!DependencyKind::Conflicts.is_resolvable());
}

#[test]
fn sizes_split_into_number_and_unit() {
    assert_eq!(size_parts("12.5 MiB"), Some(("12.5", 1048576)));
    assert_eq!(size_parts("  3 KiB  "), Some(("3", 1024)));
    assert_eq!(size_parts("1.00 GiB"), Some(("1.00", 1073741824)));
    assert_eq!(size_parts("512 B"), None);
    assert_eq!(size_parts("512"), None);
    assert_eq!(size_parts(""), None);
}

#[test]
fn install_order_puts_dependencies_first() {
    let mut graph = DependencyGraph::new();
    graph.insert(node("app", &[("lib>=1", DependencyKind::Runtime), ("tool", DependencyKind::Build)]));
    graph.insert(node("lib", &[("base", DependencyKind::Runtime)]));
    graph.insert(node("tool", &[("lib", DependencyKind::Runtime), ("doc", DependencyKind::Optional)]));
    graph.insert(node("base", &[]));
    graph.insert(node("doc", &[("app", DependencyKind::Runtime)]));
    let order: Vec<String> = graph.install_order().into_iter().map(|n| n.name).collect();
    assert_eq!(order.len(), 5);
    let pos = |n: &str| order.iter().position(|o| o == n).unwrap();
    assert!(pos("base") < pos("lib"));
    assert!(pos("lib") < pos("app"));
    assert!(pos("lib") < pos("tool"));
    assert!(pos("tool") < pos("app"));
    assert!(pos("app") < pos("doc"));
    assert_eq!(graph.install_order_indices(), vec![3, 1, 2, 0, 4]);
}

#[test]
fn install_order_survives_cycles() {
    let mut graph = DependencyGraph::new();
    graph.insert(node("a", &[("b", DependencyKind::Runtime)]));
    graph.insert(node("b", &[("a", DependencyKind::Runtime)]));
    let order: Vec<String> = InstallPlan::from_graph(&graph).packages.into_iter().map(|n| n.name).collect();
    assert_eq!(order, vec!["b", "a"]);
}

#[test]
fn inserting_a_name_twice_replaces_the_package() {
    let mut graph = DependencyGraph::new();
    graph.insert(node("a", &[]));
    let mut newer = node("a", &[]);
    newer.version = Some("2.0".to_owned());
    graph.insert(newer);
    assert_eq!(graph.packages().len(), 1);
    assert_eq!(graph.packages()[0].version.as_deref(), Some("2.0"));
    assert_eq!(graph.position("a"), Some(0));
    assert_eq!(graph.position("b"), None);
}

#[test]
fn reads_pacman_fields() {
    let text = "Name            : bash\nVersion         : 5.2.026-2\nProvides        : sh  bash-completion\nDownload Size   : 1.80 MiB\nInstalled Size  : 9.18 MiB\nPackager        : Someone <a@b.c>\nVersion: 6\nnot a field\r\n";
    let f = pacman_fields(text);
    assert_eq!(f.version.as_deref(), Some("6"));
    assert_eq!(f.installed_size.as_deref(), Some("9.18 MiB"));
    assert_eq!(f.download_size.as_deref(), Some("1.80 MiB"));
    assert_eq!(f.provides, vec!["sh", "bash-completion"]);
    assert_eq!(f.packager.as_deref(), Some("Someone <a@b.c>"));
    let node = PackageNode::from_pacman_fields("bash", f, PackageSource::Repo, Some(1), None);
    assert_eq!(node.name, "bash");
    assert_eq!(node.size, Some(1));
    assert!(node.dependencies.is_empty());
    let empty = pacman_fields("");
    assert!(empty.version.is_none() && empty.provides.is_empty());
}

#[test]
fn reads_installed_packages() {
    let list = parse_installed("bash 5.2.026-2\nzlib 1:1.3.1-1  \nbroken\n");
    assert_eq!(
        list,
        vec![
            ("bash".to_owned(), "5.2.026-2".to_owned()),
            ("zlib".to_owned(), "1:1.3.1-1".to_owned())
        ]
    );
}

#[test]
fn aur_packages_bring_their_dependencies() {
    let info = rpc("yay", &["pacman>6.1", "git"], &["go"]);
    let node = PackageNode::from_rpc(&info);
    assert_eq!(node.name, "yay");
    assert_eq!(node.version.as_deref(), Some("2.0-1"));
    assert_eq!(node.source, PackageSource::Aur);
    let deps: Vec<(String, DependencyKind)> =
        node.dependencies.iter().map(|d| (d.name.clone(), d.kind)).collect();
    assert_eq!(
        deps,
        vec![
            ("pacman".to_owned(), DependencyKind::Runtime),
            ("git".to_owned(), DependencyKind::Runtime),
            ("go".to_owned(), DependencyKind::Build),
            ("python".to_owned(), DependencyKind::Optional),
        ]
    );
    let meta: &AurMeta = node.aur.as_ref().unwrap();
    assert_eq!(meta.base, "yay-base");
    assert_eq!(f64::from_bits(meta.popularity_bits), 0.5);
    assert!(!info.orphan());
    let response = RpcResponse { results: vec![info] };
    assert_eq!(response.into_first().map(|p| p.name), Some("yay".to_owned()));
    assert!(RpcResponse { results: Vec::new() }.into_first().is_none());
}

#[test]
fn warns_about_orphans_and_flagged_packages() {
    let mut info = rpc("old", &[], &[]);
    info.maintainer = None;
    info.out_of_date = Some(1000);
    assert_eq!(
        aur_warnings_at(&info, 1000 + 3 * 86400),
        vec!["old has no maintainer", "old was flagged out of date 3 days ago"]
    );
    let fine = rpc("new", &[], &[]);
    assert!(aur_warnings_at(&fine, 0).is_empty());
}

#[test]
fn spawn_failures_name_missing_pacman() {
    let missing = PacmanError::spawn(std::io::Error::new(std::io::ErrorKind::NotFound, "x"));
    assert!(matches!(missing, PacmanError::Missing));
    let other = PacmanError::spawn(std::io::Error::new(std::io::ErrorKind::PermissionDenied, "x"));
    assert!(matches!(other, PacmanError::Pacman(_)));
    assert!(matches!(
        PacmanError::version_compare(std::io::Error::new(std::io::ErrorKind::Other, "x")),
        PacmanError::VersionCompare(_)
    ));
}

fn ask(step: &Step) -> (&'static str, String) {
    match step {
        Step::Ask(Query::Repo(n)) => ("repo", n.clone()),
        Step::Ask(Query::Provider(n)) => ("provider", n.clone()),
        Step::Ask(Query::Aur(n)) => ("aur", n.clone()),
        Step::Done(Ok(())) => ("done", String::new()),
        Step::Done(Err(_)) => ("failed", String::new()),
    }
}

#[test]
fn resolver_looks_in_repositories_then_providers_then_the_aur() {
    let mut r = Resolver::new(Vec::new());
    let step = r.resolve(vec!["yay>=12".to_owned(), "sh".to_owned()]);
    assert_eq!(ask(&step), ("repo", "yay".to_owned()));
    let step = r.answer(Answer::Repo(None));
    assert_eq!(ask(&step), ("provider", "yay".to_owned()));
    let step = r.answer(Answer::Provider(None));
    assert_eq!(ask(&step), ("aur", "yay".to_owned()));
    let step = r.answer(Answer::Aur(Ok(rpc("yay", &["git"], &["go"]))));
    assert_eq!(ask(&step), ("repo", "git".to_owned()));
    let step = r.answer(Answer::Repo(Some(node("git", &[]))));
    assert_eq!(ask(&step), ("repo", "go".to_owned()));
    let step = r.answer(Answer::Repo(None));
    assert_eq!(ask(&step), ("provider", "go".to_owned()));
    let step = r.answer(Answer::Provider(Some("go-bin".to_owned())));
    assert_eq!(ask(&step), ("repo", "go-bin".to_owned()));
    let step = r.answer(Answer::Repo(Some(node("go-bin", &[]))));
    assert_eq!(ask(&step), ("repo", "sh".to_owned()));
    let step = r.answer(Answer::Repo(Some(node("sh", &[]))));
    assert_eq!(ask(&step), ("done", String::new()));
    let graph = r.into_graph();
    let names: Vec<&str> = graph.packages().iter().map(|n| n.name.as_str()).collect();
    assert_eq!(names, vec!["git", "go-bin", "yay", "sh"]);
    let yay = &graph.packages()[2];
    assert_eq!(yay.dependencies[1].name, "go-bin");
}

#[test]
fn resolver_answers_known_names_from_its_cache() {
    let mut r = Resolver::new(Vec::new());
    let step = r.resolve(vec!["git".to_owned(), "git>=2".to_owned()]);
    assert_eq!(ask(&step), ("repo", "git".to_owned()));
    let step = r.answer(Answer::Repo(Some(node("git", &[]))));
    assert_eq!(ask(&step), ("done", String::new()));
}

#[test]
fn resolver_stops_at_the_first_failure() {
    let mut r = Resolver::new(Vec::new());
    let step = r.resolve(vec!["nothing".to_owned(), "git".to_owned()]);
    assert_eq!(ask(&step), ("repo", "nothing".to_owned()));
    r.answer(Answer::Repo(None));
    r.answer(Answer::Provider(None));
    let step = r.answer(Answer::Aur(Err(ResolveError::Rpc(RpcError("not found".to_owned())))));
    assert!(matches!(step, Step::Done(Err(ResolveError::Rpc(RpcError(ref m)))) if m == "not found"));
}

#[test]
fn aur_dependency_cycles_end() {
    let mut r = Resolver::new(Vec::new());
    let step = r.resolve(vec!["a".to_owned()]);
    assert_eq!(ask(&step), ("repo", "a".to_owned()));
    r.answer(Answer::Repo(None));
    r.answer(Answer::Provider(None));
    let step = r.answer(Answer::Aur(Ok(rpc("a", &["b"], &[]))));
    assert_eq!(ask(&step), ("repo", "b".to_owned()));
    r.answer(Answer::Repo(None));
    r.answer(Answer::Provider(None));
    let step = r.answer(Answer::Aur(Ok(rpc("b", &["a"], &[]))));
    assert_eq!(ask(&step), ("done", String::new()));
    let graph = r.into_graph();
    let names: Vec<&str> = graph.packages().iter().map(|n| n.name.as_str()).collect();
    assert_eq!(names, vec!["b", "a"]);
}

#[test]
fn normalizing_a_bare_name_changes_nothing() {
    for raw in ["glibc>=2.38", "python: for scripts", "  zlib  ", "sh<5=4", ">=1", " a b =1"] {
        let once = normalize_name(raw);
        assert_eq!(normalize_name(once), once);
    }
    assert_eq!(normalize_name(" a b =1"), "a b");
}

#[test]
fn provider_is_the_first_other_line_of_pacman_output() {
    assert_eq!(Resolver::provider_from_output("sh", "sh\n  bash  \nzsh\n").unwrap(), "bash");
    assert_eq!(Resolver::provider_from_output("go", "\n\r\ngo-bin\r\n").unwrap(), "go-bin");
    let e = Resolver::provider_from_output("sh", "sh\n   \n").unwrap_err();
    assert!(matches!(e, PacmanError::ProviderNotFound(ref n) if n == "sh"));
    assert!(matches!(
        Resolver::provider_from_output("x", ""),
        Err(PacmanError::ProviderNotFound(_))
    ));
}

#[test]
fn resolver_keeps_the_installed_list() {
    let installed = vec![("git".to_owned(), "2.44-1".to_owned())];
    let r = Resolver::new(installed.clone());
    assert_eq!(r.installed(), &installed);
}

#[test]
fn a_provider_that_fails_falls_back_to_the_aur() {
    let mut r = Resolver::new(Vec::new());
    let step = r.resolve(vec!["editor".to_owned()]);
    assert_eq!(ask(&step), ("repo", "editor".to_owned()));
    r.answer(Answer::Repo(None));
    let step = r.answer(Answer::Provider(Some("vim".to_owned())));
    assert_eq!(ask(&step), ("repo", "vim".to_owned()));
    r.answer(Answer::Repo(None));
    r.answer(Answer::Provider(None));
    let step = r.answer(Answer::Aur(Err(ResolveError::NotFound("vim".to_owned()))));
    assert_eq!(ask(&step), ("aur", "editor".to_owned()));
    let step = r.answer(Answer::Aur(Ok(rpc("editor", &[], &[]))));
    assert_eq!(ask(&step), ("done", String::new()));
    let graph = r.into_graph();
    let names: Vec<&str> = graph.packages().iter().map(|n| n.name.as_str()).collect();
    assert_eq!(names, vec!["editor"]);
}

#[test]
fn inserting_the_same_package_again_changes_nothing() {
    let mut graph = DependencyGraph::new();
    graph.insert(node("a", &[("b", DependencyKind::Runtime)]));
    graph.insert(node("b", &[]));
    graph.insert(node("a", &[("b", DependencyKind::Runtime)]));
    let names: Vec<&str> = graph.packages().iter().map(|n| n.name.as_str()).collect();
    assert_eq!(names, vec!["a", "b"]);
    assert_eq!(graph.packages()[0].dependencies.len(), 1);
}

#[test]
fn only_aur_packages_are_fetched() {
    let mut from_aur = node("yay", &[]);
    from_aur.source = PackageSource::Aur;
    let mut other = node("paru", &[]);
    other.source = PackageSource::Aur;
    let plan = InstallPlan { packages: vec![node("git", &[]), from_aur, node("go", &[]), other] };
    assert_eq!(plan.aur_positions(), vec![1, 3]);
    assert!(InstallPlan { packages: Vec::new() }.aur_positions().is_empty());
}

#[test]
fn unicode_whitespace_is_trimmed_from_names() {
    assert_eq!(normalize_name("  qux  "), "qux");
    assert_eq!(normalize_name("\u{3000}qux\u{a0}>=1"), "qux");
    assert_eq!(normalize_name("\u{200b}qux"), "\u{200b}qux");
}

#[test]
fn installed_names_are_listed_once_with_their_last_version() {
    let list = parse_installed("bash 5.2.026-2\nglibc 2.39-1\nbash 5.2.037-1\n");
    assert_eq!(
        list,
        vec![
            ("bash".to_owned(), "5.2.037-1".to_owned()),
            ("glibc".to_owned(), "2.39-1".to_owned())
        ]
    );
}

#[test]
fn a_finished_resolution_holds_every_provider_and_dependency() {
    let mut r = Resolver::new(Vec::new());
    r.resolve(vec!["yay>=12".to_owned()]);
    r.answer(Answer::Repo(None));
    r.answer(Answer::Provider(None));
    r.answer(Answer::Aur(Ok(rpc("yay", &["git"], &["go"]))));
    r.answer(Answer::Repo(Some(node("git", &[]))));
    r.answer(Answer::Repo(None));
    r.answer(Answer::Provider(Some("go-bin".to_owned())));
    let step = r.answer(Answer::Repo(Some(node("go-bin", &[]))));
    assert_eq!(ask(&step), ("done", String::new()));
    let graph = r.into_graph();
    let names: Vec<&str> = graph.packages().iter().map(|n| n.name.as_str()).collect();
    for package in graph.packages() {
        for d in package.dependencies.iter().filter(|d| d.kind.is_resolvable()) {
            assert!(names.contains(&d.name.as_str()), "{} missing", d.name);
        }
    }
    assert!(names.contains(&"yay"));
}

#[test]
fn a_remembered_name_is_not_looked_up_again() {
    let mut r = Resolver::new(Vec::new());
    r.resolve(vec!["git".to_owned()]);
    r.answer(Answer::Repo(Some(node("git", &[]))));
    let step = r.resolve(vec!["git>=2".to_owned(), "git".to_owned()]);
    assert_eq!(ask(&step), ("done", String::new()));
}

#[test]
fn trimming_agrees_with_std_whitespace() {
    for code in 0u32..=0x3100 {
        if let Some(c) = char::from_u32(code) {
            let text = format!("{c}x{c}");
            let trimmed = aur_pkg_manager::text::trim(&text);
            if c.is_whitespace() {
                assert_eq!(trimmed, "x", "U+{code:04X}");
            } else {
                assert_eq!(trimmed, text, "U+{code:04X}");
            }
        }
    }
}
