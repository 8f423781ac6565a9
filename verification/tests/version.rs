//! Version parsing and resolution tests.

use wanted::version::pick_latest;
use wanted::Version;

fn versions(list: &[&str]) -> Vec<String> {
    list.iter().map(|s| s.to_string()).collect()
}

#[test]
fn pick_latest_selects_max_semver() {
    let picked = pick_latest(&versions(&["1.2.0", "1.10.0", "1.3.1"])).unwrap();
    assert_eq!(picked, Version::parse("1.10.0").unwrap());
}

#[test]
fn pick_latest_single_entry() {
    assert_eq!(
        pick_latest(&versions(&["0.1.0"])).unwrap(),
        Version::parse("0.1.0").unwrap()
    );
}

#[test]
fn pick_latest_errors_on_empty_list() {
    assert!(pick_latest(&[]).is_err());
}

#[test]
fn pick_latest_errors_on_non_semver_entry() {
    let err = pick_latest(&versions(&["1.2.0", "go1.3.0"])).unwrap_err();
    assert!(err.message().contains("go1.3.0"));
}

#[test]
fn latest_text_and_build_date() {
    assert_eq!(Version::parse("latest").unwrap(), Version::Latest);
    assert_eq!(Version::Latest.text(), "latest");
    let v = Version::parse("3.13.0+20260825").unwrap();
    assert_eq!(v.text(), "3.13.0+20260825");
    assert_eq!(v.build_date(), "20260825");
    assert_eq!(Version::parse("1.2.3-rc.1").unwrap().text(), "1.2.3-rc.1");
    assert!(Version::parse("banana").is_err());
}

#[test]
fn prerelease_precedes_release() {
    let picked = pick_latest(&versions(&["1.0.0-rc.1", "1.0.0"])).unwrap();
    assert_eq!(picked.text(), "1.0.0");
}

#[test]
fn pick_latest_names_the_first_unparsable_entry() {
    let err = pick_latest(&versions(&["1.2.0", "go1.3.0", "x"])).unwrap_err();
    assert!(err
        .message()
        .starts_with("cannot resolve latest: source version \"go1.3.0\" is not a comparable SemVer ("));
    assert!(err.message().ends_with(')'));
    let empty = pick_latest(&[]).unwrap_err();
    assert_eq!(empty.message(), "source declares no versions to resolve latest");
}
