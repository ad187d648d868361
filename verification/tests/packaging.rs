use aur_pkg_manager::aur::{CloneError, Package};
use aur_pkg_manager::build::bridge::{
    is_package_file_entry, package_file_list, Artifact, Database, PackageDescription, PackageFields,
};
use aur_pkg_manager::build::{
    sandbox_command, sandbox_path_in, sandbox_setup, SandboxError, SandboxFiles, SetupFile,
};
use aur_pkg_manager::bwrap::Builder;
use aur_pkg_manager::cli::{confirm, repository_of};
use aur_pkg_manager::dependency::package::{AurMeta, PackageNode, PackageSource};
use aur_pkg_manager::path::join_path;
use aur_pkg_manager::ui::{
    maintainer_cell, relative_time, relative_time_from, size_unit, source_label, MaintainerCell,
    SizeUnit,
};

#[test]
fn package_names_with_slashes_are_refused() {
    let p = Package::new("yay", "yay-base", "/tmp/b/yay".to_owned()).unwrap();
    assert_eq!(p.name(), "yay");
    assert_eq!(p.base(), "yay-base");
    assert_eq!(p.directory(), "/tmp/b/yay");
    assert_eq!(p.repository_url(), "https://aur.archlinux.org/yay-base.git");
    let e = Package::new("../etc", "x", String::new()).unwrap_err();
    assert_eq!(e.0, "../etc");
}

#[test]
fn clone_spawn_failures_name_missing_git() {
    let e = CloneError::spawn(std::io::Error::new(std::io::ErrorKind::NotFound, "x"));
    assert!(matches!(e, CloneError::Missing));
    let e = CloneError::spawn(std::io::Error::new(std::io::ErrorKind::Other, "x"));
    assert!(matches!(e, CloneError::Git(_)));
}

#[test]
fn archive_dot_files_are_not_installed_files() {
    assert!(is_package_file_entry("usr/bin/yay"));
    assert!(is_package_file_entry("./usr/bin/yay"));
    assert!(!is_package_file_entry("usr/bin/"));
    assert!(!is_package_file_entry(".PKGINFO"));
    assert!(!is_package_file_entry(".MTREE"));
    assert!(!is_package_file_entry(".hidden"));
    let names: Vec<String> =
        ["usr/", "./usr/bin/yay", ".BUILDINFO", "././etc/yay.conf"].iter().map(|s| s.to_string()).collect();
    assert_eq!(package_file_list(&names), "%FILES%\nusr/bin/yay\netc/yay.conf\n\n");
    assert_eq!(package_file_list(&Vec::new()), "%FILES%\n\n");
}

#[test]
fn descriptions_list_fields_in_pacman_order() {
    let d = PackageDescription::new().write_field("NAME", &vec!["yay".to_owned()]);
    assert_eq!(d.content(), "%NAME%\nyay\n\n");
    let fields = PackageFields {
        name: "yay".to_owned(),
        version: "12.0-1".to_owned(),
        base: None,
        desc: Some("helper".to_owned()),
        url: None,
        arch: Some("x86_64".to_owned()),
        build_date: 1700000000,
        packager: None,
        size: -5,
        licenses: vec!["GPL3".to_owned()],
        depends: vec!["pacman>6".to_owned(), "git".to_owned()],
        optdepends: Vec::new(),
        provides: Vec::new(),
    };
    let expected = "%NAME%\nyay\n\n%VERSION%\n12.0-1\n\n%BASE%\nyay\n\n%DESC%\nhelper\n\n%URL%\n\n\n%ARCH%\nx86_64\n\n%BUILDDATE%\n1700000000\n\n%INSTALLDATE%\n1700000000\n\n%PACKAGER%\n\n\n%SIZE%\n-5\n\n%REASON%\n0\n\n%LICENSE%\nGPL3\n\n%VALIDATION%\nnone\n\n%DEPENDS%\npacman>6\ngit\n\n%OPTDEPENDS%\n\n%PROVIDES%\n\n";
    assert_eq!(PackageDescription::from_fields(&fields).content(), expected);
}

#[test]
fn database_entries_are_named_after_package_and_version() {
    let db = Database::new("/var/lib/aur");
    assert_eq!(db.path(), "/var/lib/aur");
    assert_eq!(db.package_directory("yay", "12.0-1"), "/var/lib/aur/local/yay-12.0-1");
    assert_eq!(Database::new("/db/").package_directory("a", "1"), "/db/local/a-1");
    assert_eq!(Artifact::new("/p/yay.pkg.tar.zst").path(), "/p/yay.pkg.tar.zst");
}

#[test]
fn paths_join_as_on_unix() {
    assert_eq!(join_path("/a", "b"), "/a/b");
    assert_eq!(join_path("/a/", "b"), "/a/b");
    assert_eq!(join_path("", "b"), "b");
    assert_eq!(join_path("/a", "/b"), "/b");
}

#[test]
fn sandbox_lives_in_the_data_directory() {
    assert_eq!(
        sandbox_path_in(Some("/home/u/.local/share".to_owned())).unwrap(),
        "/home/u/.local/share/aur-pkg-manager"
    );
    assert!(matches!(sandbox_path_in(None), Err(SandboxError::MissingDataDir)));
    let files = SandboxFiles::at("/s".to_owned());
    assert_eq!(files.file("passwd"), "/s/passwd");
    assert_eq!(files.path(), "/s");
}

#[test]
fn sandbox_command_isolates_makepkg() {
    let args = sandbox_command(&SandboxFiles::at("/s".to_owned())).into_args();
    assert_eq!(args.len(), 57);
    assert_eq!(&args[..3], &["--unshare-all", "--die-with-parent", "--proc"]);
    assert!(args.windows(3).any(|w| w == ["--ro-bind", "/s/pacman.conf", "/etc/pacman.conf"]));
    assert!(args.windows(3).any(|w| w == ["--bind", "/tmp/aur-pkg-manager", "/build/pkg"]));
    assert_eq!(&args[args.len() - 3..], &["--chdir", "/build/pkg", "makepkg"]);
    let mut b = Builder::new();
    b.share_net();
    b.unshare_net();
    b.dir("/x");
    b.hostname("box");
    assert_eq!(b.into_args(), vec!["--share-net", "--unshare-net", "--dir", "/x", "--hostname", "box"]);
}

#[test]
fn answers_yes_in_any_case() {
    assert!(confirm("y"));
    assert!(confirm(" YES \n"));
    assert!(confirm("Yes"));
    assert!(!confirm("no"));
    assert!(!confirm(""));
    assert!(!confirm("yes please"));
}

#[test]
fn repositories_are_cloned_by_base_into_the_build_directory() {
    let mut node = PackageNode {
        name: "yay".to_owned(),
        version: None,
        source: PackageSource::Aur,
        dependencies: Vec::new(),
        size: None,
        download_size: None,
        provides: Vec::new(),
        packager: None,
        aur: None,
    };
    let p = repository_of(&node).unwrap();
    assert_eq!(p.base(), "yay");
    assert_eq!(p.directory(), "/tmp/aur-pkg-manager/yay");
    node.aur = Some(AurMeta {
        base: "yay-git".to_owned(),
        maintainer: None,
        submitter: None,
        description: None,
        url: None,
        votes: 0,
        popularity_bits: 0,
        out_of_date: None,
        last_modified: 0,
    });
    assert_eq!(repository_of(&node).unwrap().base(), "yay-git");
    assert!(matches!(maintainer_cell(node.aur.as_ref()), MaintainerCell::Orphan));
    assert!(matches!(maintainer_cell(None), MaintainerCell::NotAur));
    node.name = "a/b".to_owned();
    assert!(repository_of(&node).is_err());
}

#[test]
fn ages_read_in_the_largest_whole_unit() {
    assert_eq!(relative_time_from(100, 200), "just now");
    assert_eq!(relative_time_from(100, 41), "just now");
    assert_eq!(relative_time_from(160, 100), "1 minute ago");
    assert_eq!(relative_time_from(3 * 60, 0), "3 minutes ago");
    assert_eq!(relative_time_from(7200, 0), "2 hours ago");
    assert_eq!(relative_time_from(86400, 0), "1 day ago");
    assert_eq!(relative_time_from(40 * 86400, 0), "1 month ago");
    assert_eq!(relative_time_from(800 * 86400, 0), "2 years ago");
    assert_eq!(relative_time(i64::MAX - 10), "just now");
}

#[test]
fn sizes_show_in_the_largest_whole_unit() {
    assert_eq!(size_unit(1023), SizeUnit::Bytes);
    assert_eq!(size_unit(1024), SizeUnit::KiB);
    assert_eq!(size_unit(1048576), SizeUnit::MiB);
    assert_eq!(size_unit(1073741824), SizeUnit::GiB);
    assert_eq!(source_label(PackageSource::Repo), "repo");
    assert_eq!(source_label(PackageSource::Aur), "aur");
    assert_eq!(source_label(PackageSource::Installed), "installed");
}

#[test]
fn sandbox_setup_copies_configs_then_writes_the_account() {
    let files = sandbox_setup();
    assert_eq!(files.len(), 5);
    assert!(matches!(files[0], SetupFile::Copy { from: "/etc/pacman.conf", name: "pacman.conf" }));
    assert!(matches!(files[1], SetupFile::Copy { from: "/etc/pacman.d/mirrorlist", name: "mirrorlist" }));
    assert!(matches!(files[2], SetupFile::Copy { from: "/etc/makepkg.conf", name: "makepkg.conf" }));
    assert!(matches!(
        files[3],
        SetupFile::Write { name: "passwd", content: "builder:x:1000:1000:builder:/build:/bin/bash\n" }
    ));
    assert!(matches!(files[4], SetupFile::Write { name: "group", content: "builder:x:1000:\n" }));
}

#[test]
fn aur_addresses() {
    assert_eq!(
        aur_pkg_manager::aur::repository_url_for("yay-bin"),
        "https://aur.archlinux.org/yay-bin.git"
    );
    assert_eq!(
        aur_pkg_manager::aur::rpc::info_url("yay"),
        "https://aur.archlinux.org/rpc/v5/info/yay"
    );
}
