use texforge::version::SemVer;
use texforge::version_checker::{
    check_for_updates, get_local_version, get_os, get_release_download_url, latest_stable_release,
    GitHubRelease,
};

fn release(tag: &str, prerelease: bool, draft: bool) -> GitHubRelease {
    GitHubRelease { tag_name: tag.to_string(), prerelease, draft }
}

#[test]
fn test_get_local_version() {
    let version = get_local_version().unwrap();
    assert!(version.major >= 0);
}

#[test]
fn local_version_is_package_version() {
    let v = get_local_version().unwrap();
    assert_eq!(v.to_text(), "0.1.0");
}

#[test]
fn parse_versions() {
    let v = SemVer::parse("v1.2.3-alpha").unwrap();
    assert_eq!((v.major, v.minor, v.patch), (1, 2, 3));
    assert_eq!(v.pre, Some("alpha".to_string()));
    assert!(!v.is_stable());
    assert!(SemVer::parse("1.2").is_none());
    assert!(SemVer::parse("1.2.x").is_none());
    assert!(SemVer::parse("1.2.3-").is_none());
    assert!(SemVer::parse("1.2.18446744073709551616").is_none());
    assert_eq!(SemVer::parse("10.0.7").unwrap().to_text(), "10.0.7");
}

#[test]
fn version_order() {
    let a = SemVer::parse("1.2.3").unwrap();
    let b = SemVer::parse("1.2.3-rc1").unwrap();
    let c = SemVer::parse("1.10.0").unwrap();
    assert!(a.is_newer_than(&b));
    assert!(!b.is_newer_than(&a));
    assert!(c.is_newer_than(&a));
    assert!(!a.is_newer_than(&a));
    let d = SemVer::parse("1.2.3-rc2").unwrap();
    assert!(d.is_newer_than(&b));
}

#[test]
fn latest_stable_skips_drafts_and_prereleases() {
    let rels = vec![
        release("v9.0.0", false, true),
        release("v8.0.0", true, false),
        release("nonsense", false, false),
        release("vv7.1.2", false, false),
        release("v6.0.0", false, false),
    ];
    let v = latest_stable_release(&rels).unwrap();
    assert_eq!(v.to_text(), "7.1.2");
    assert!(latest_stable_release(&[]).is_none());
}

#[test]
fn update_available_when_newer() {
    let r = check_for_updates(&[release("v99.0.0", false, false)]).unwrap();
    assert!(r.update_available);
    let r = check_for_updates(&[release("v0.0.1", false, false)]).unwrap();
    assert!(!r.update_available);
    let r = check_for_updates(&[]).unwrap();
    assert!(!r.update_available && r.latest_stable.is_none());
}

#[test]
fn download_url() {
    let v = SemVer::parse("1.4.0").unwrap();
    assert_eq!(
        get_release_download_url("UniverLab", "texforge", &v, "linux", "x86_64"),
        "https://github.com/UniverLab/texforge/releases/download/v1.4.0/texforge-1.4.0-linux-x86_64"
    );
    assert_eq!(get_os("macos"), "macos");
    assert_eq!(get_os("windows"), "windows");
    assert_eq!(get_os("linux"), "linux");
    assert_eq!(get_os("freebsd"), "unknown");
}

#[test]
fn text_of_a_version_parses_back() {
    for s in ["0.1.0", "1.2.3-beta.1", "10.20.30-rc-1"] {
        let v = SemVer::parse(s).unwrap();
        let back = SemVer::parse(&v.to_text()).unwrap();
        assert_eq!(back.to_text(), s);
        assert_eq!((back.major, back.minor, back.patch), (v.major, v.minor, v.patch));
        assert_eq!(back.pre, v.pre);
    }
}

#[test]
fn newer_is_a_strict_order() {
    let a = SemVer::parse("2.0.0").unwrap();
    let b = SemVer::parse("2.0.0-rc.2").unwrap();
    let c = SemVer::parse("2.0.0-rc.10").unwrap();
    assert!(a.is_newer_than(&b) && b.is_newer_than(&c) && a.is_newer_than(&c));
    assert!(!b.is_newer_than(&a) && !c.is_newer_than(&b));
    assert!(!b.is_newer_than(&b));
}
