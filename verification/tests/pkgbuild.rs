use aur_pkg_manager::pkgbuild::{parse_srcinfo, SrcinfoError};

#[test]
fn srcinfo_texts_are_checked_by_the_parser() {
    let good = "pkgbase = example\n\tpkgver = 1.5.0\n\tpkgrel = 5\n\npkgname = example\n";
    assert!(parse_srcinfo(good).is_ok());
    assert!(matches!(parse_srcinfo(" = foo\n"), Err(SrcinfoError::Parse(_))));
    assert!(matches!(parse_srcinfo("pkgbase = a\npkgbase = b\n"), Err(SrcinfoError::Parse(_))));
}
