use aur_pkg_manager::dependency::package::{AurMeta, PackageNode, PackageSource};
use aur_pkg_manager::ui::{aur_detail_rows, plan_row, MaintainerCell};

fn meta(maintainer: Option<&str>) -> AurMeta {
    AurMeta {
        base: "yay".to_owned(),
        maintainer: maintainer.map(str::to_owned),
        submitter: None,
        description: Some("AUR helper".to_owned()),
        url: None,
        votes: 2500,
        popularity_bits: 12.5f64.to_bits(),
        out_of_date: None,
        last_modified: 1_000,
    }
}

fn package(version: Option<&str>, source: PackageSource, aur: Option<AurMeta>) -> PackageNode {
    PackageNode {
        name: "yay".to_owned(),
        version: version.map(str::to_owned),
        source,
        dependencies: Vec::new(),
        size: Some(2048),
        download_size: None,
        provides: Vec::new(),
        packager: None,
        aur,
    }
}

#[test]
fn plan_rows_fill_unknown_columns() {
    let row = plan_row(&package(None, PackageSource::Repo, None));
    assert_eq!(row.name, "yay");
    assert_eq!(row.version, "?");
    assert_eq!(row.source, "repo");
    assert!(matches!(row.maintainer, MaintainerCell::NotAur));
    assert_eq!(row.votes, "-");

    let row = plan_row(&package(Some("12.3-1"), PackageSource::Aur, Some(meta(Some("jguer")))));
    assert_eq!(row.version, "12.3-1");
    assert_eq!(row.source, "aur");
    assert!(matches!(row.maintainer, MaintainerCell::Maintainer(ref m) if m == "jguer"));
    assert_eq!(row.votes, "2500");

    let row = plan_row(&package(Some("1"), PackageSource::Installed, Some(meta(None))));
    assert_eq!(row.source, "installed");
    assert!(matches!(row.maintainer, MaintainerCell::Orphan));
}

#[test]
fn aur_details_list_known_fields_in_order() {
    let rows = aur_detail_rows(&meta(Some("jguer")), "12.50", 1_000 + 2 * 86400);
    assert_eq!(
        rows,
        vec![
            ("base", "yay".to_owned()),
            ("maintainer", "jguer".to_owned()),
            ("votes", "2500 (popularity 12.50)".to_owned()),
            ("updated", "2 days ago".to_owned()),
        ]
    );

    let mut full = meta(None);
    full.submitter = Some("bob".to_owned());
    full.out_of_date = Some(1_000 + 86400 - 3600);
    full.url = Some("https://example.org".to_owned());
    let rows = aur_detail_rows(&full, "0.00", 1_000 + 86400);
    assert_eq!(
        rows,
        vec![
            ("base", "yay".to_owned()),
            ("maintainer", "orphan".to_owned()),
            ("submitter", "bob".to_owned()),
            ("votes", "2500 (popularity 0.00)".to_owned()),
            ("updated", "1 day ago".to_owned()),
            ("flagged", "out of date 1 hour ago".to_owned()),
            ("url", "https://example.org".to_owned()),
        ]
    );
}

#[test]
fn clock_readings_become_seconds() {
    assert_eq!(aur_pkg_manager::ui::seconds_from_clock(Some(1_700_000_000)), 1_700_000_000);
    assert_eq!(aur_pkg_manager::ui::seconds_from_clock(None), 0);
    assert_eq!(aur_pkg_manager::ui::seconds_from_clock(Some(u64::MAX)), -1);
}
