//! Update detection: the newest stable release against the local version.
use vstd::prelude::*;
use crate::text::{append_chars, chars_of, concat_str, slice_of, str_eq, string_of};
use crate::version::{newer, parse_semver, semver_text, SemVer, SemVerView};

verus! {

/// The version this build carries.
pub open spec fn local_version_text() -> Seq<char> {
    "0.1.0"@
}

/// A release as the releases listing reports it.
#[derive(Clone, Debug)]
pub struct GitHubRelease {
    pub tag_name: String,
    pub prerelease: bool,
    pub draft: bool,
}

/// Why the version check failed.
#[derive(Clone, Debug)]
pub enum VersionError {
    /// The local version string does not parse; holds it.
    LocalVersionUnparsable(String),
}

/// The outcome of a version check.
#[derive(Clone, Debug)]
pub struct VersionCheckResult {
    pub local_version: SemVer,
    pub latest_stable: Option<SemVer>,
    pub update_available: bool,
}

/// An optional version, by what it holds.
pub open spec fn opt_semver(o: Option<SemVer>) -> Option<SemVerView> {
    match o {
        Some(v) => Some(v@),
        None => None,
    }
}

/// `s` without any leading `v` characters.
pub open spec fn strip_all_v(s: Seq<char>) -> Seq<char>
    decreases s.len(),
{
    if s.len() > 0 && s[0] == 'v' {
        strip_all_v(s.drop_first())
    } else {
        s
    }
}

/// The version of a release that counts as stable: not a draft, not a
/// pre-release, and with a tag that parses once leading `v`s are removed.
pub open spec fn stable_version(r: GitHubRelease) -> Option<SemVerView> {
    if !r.draft && !r.prerelease {
        parse_semver(strip_all_v(r.tag_name@))
    } else {
        None
    }
}

/// The version of the first stable release in `rs` from position `i` on.
pub open spec fn first_stable(rs: Seq<GitHubRelease>, i: int) -> Option<SemVerView>
    decreases rs.len() - i,
{
    if i < 0 || i >= rs.len() {
        None
    } else if stable_version(rs[i]) is Some {
        stable_version(rs[i])
    } else {
        first_stable(rs, i + 1)
    }
}

fn strip_leading_v(s: &str) -> (r: Vec<char>)
    ensures
        r@ == strip_all_v(s@),
{
    let c = chars_of(s);
    let mut i: usize = 0;
    assert(c@.skip(0) =~= c@);
    while i < c.len() && c[i] == 'v'
        invariant
            i <= c@.len(),
            strip_all_v(c@) == strip_all_v(c@.skip(i as int)),
        decreases c@.len() - i,
    {
        assert(c@.skip(i as int).drop_first() =~= c@.skip(i + 1));
        i = i + 1;
    }
    let r = slice_of(&c, i, c.len());
    assert(r@ =~= c@.skip(i as int));
    r
}

/// The newest stable release, taking releases in the order listed (newest
/// first): drafts, pre-releases and unparsable tags are skipped.
pub fn latest_stable_release(releases: &[GitHubRelease]) -> (r: Option<SemVer>)
    ensures
        opt_semver(r) == first_stable(releases@, 0),
{
    let mut i: usize = 0;
    while i < releases.len()
        invariant
            i <= releases@.len(),
            first_stable(releases@, 0) == first_stable(releases@, i as int),
        decreases releases@.len() - i,
    {
        let rel = &releases[i];
        if !rel.draft && !rel.prerelease {
            let tag = strip_leading_v(rel.tag_name.as_str());
            let t = string_of(tag.as_slice());
            if let Some(v) = SemVer::parse(t.as_str()) {
                return Some(v);
            }
        }
        i = i + 1;
    }
    None
}

/// Get the current version of this build: the version under `[package]` in
/// the crate's `Cargo.toml`, written here as text.
pub fn get_local_version() -> (r: Result<SemVer, VersionError>)
    ensures
        match parse_semver(local_version_text()) {
            Some(v) => r matches Ok(x) && x@ == v,
            None => r matches Err(VersionError::LocalVersionUnparsable(s)) && s@
                == local_version_text(),
        },
{
    let text = "0.1.0";
    match SemVer::parse(text) {
        Some(v) => Ok(v),
        None => Err(VersionError::LocalVersionUnparsable(string_of(chars_of(text).as_slice()))),
    }
}

/// Compare the local version with the newest stable release in `releases`.
pub fn check_for_updates(releases: &[GitHubRelease]) -> (r: Result<VersionCheckResult, VersionError>)
    ensures
        match parse_semver(local_version_text()) {
            Some(local) => r matches Ok(res) && res.local_version@ == local && opt_semver(
                res.latest_stable,
            ) == first_stable(releases@, 0) && res.update_available == (match first_stable(
                releases@,
                0,
            ) {
                Some(remote) => newer(remote, local),
                None => false,
            }),
            None => r is Err,
        },
{
    let local = get_local_version()?;
    let latest_stable = latest_stable_release(releases);
    let update_available = match &latest_stable {
        Some(remote) => remote.is_newer_than(&local),
        None => false,
    };
    Ok(VersionCheckResult { local_version: local, latest_stable, update_available })
}

/// The name a platform's builds carry for the operating system `target_os`
/// (as `std::env::consts::OS` gives it): `linux`, `macos` and `windows` keep
/// their names, any other system is `unknown`.
pub open spec fn os_label(target_os: Seq<char>) -> Seq<char> {
    if target_os == "linux"@ || target_os == "macos"@ || target_os == "windows"@ {
        target_os
    } else {
        "unknown"@
    }
}

/// The name a platform's builds carry for the operating system `target_os`.
pub fn get_os(target_os: &str) -> (r: String)
    ensures
        r@ == os_label(target_os@),
{
    proof {
        reveal_strlit("");
        assert(target_os@ + ""@ =~= target_os@);
        assert("unknown"@ + ""@ =~= "unknown"@);
    }
    if str_eq(target_os, "linux") || str_eq(target_os, "macos") || str_eq(target_os, "windows") {
        concat_str(target_os, "")
    } else {
        concat_str("unknown", "")
    }
}

/// The download address of a release build for an operating system and an
/// architecture:
/// `https://github.com/{owner}/{repo}/releases/download/v{version}/{repo}-{version}-{os}-{arch}`.
pub fn get_release_download_url(
    owner: &str,
    repo: &str,
    version: &SemVer,
    os: &str,
    arch: &str,
) -> (r: String)
    ensures
        r@ == "https://github.com/"@ + owner@ + "/"@ + repo@ + "/releases/download/v"@
            + semver_text(version@) + "/"@ + repo@ + "-"@ + semver_text(version@) + "-"@ + os@
            + "-"@ + arch@,
{
    let v = version.to_text();
    let a = concat_str("https://github.com/", owner);
    let b = concat_str(a.as_str(), "/");
    let c = concat_str(b.as_str(), repo);
    let d = concat_str(c.as_str(), "/releases/download/v");
    let e = concat_str(d.as_str(), v.as_str());
    let f = concat_str(e.as_str(), "/");
    let g = concat_str(f.as_str(), repo);
    let h = concat_str(g.as_str(), "-");
    let i = concat_str(h.as_str(), v.as_str());
    let j = concat_str(i.as_str(), "-");
    let k = concat_str(j.as_str(), os);
    let l = concat_str(k.as_str(), "-");
    concat_str(l.as_str(), arch)
}

proof fn lemma_first_stable_from(rs: Seq<GitHubRelease>, i: int)
    requires
        0 <= i,
    ensures
        first_stable(rs, i) is None <==> forall|k: int| i <= k < rs.len() ==> stable_version(
            #[trigger] rs[k],
        ) is None,
        first_stable(rs, i) is Some ==> exists|k: int|
            i <= k < rs.len() && stable_version(rs[k]) == first_stable(rs, i) && forall|j: int|
                i <= j < k ==> stable_version(#[trigger] rs[j]) is None,
    decreases rs.len() - i,
{
    if i < rs.len() {
        lemma_first_stable_from(rs, i + 1);
        if stable_version(rs[i]) is None {
            if first_stable(rs, i + 1) is Some {
                let k = choose|k: int|
                    i + 1 <= k < rs.len() && stable_version(rs[k]) == first_stable(rs, i + 1) && forall|j: int|
                        i + 1 <= j < k ==> stable_version(#[trigger] rs[j]) is None;
                assert(forall|j: int| i <= j < k ==> stable_version(#[trigger] rs[j]) is None);
            }
        } else {
            assert(forall|j: int| i <= j < i ==> stable_version(#[trigger] rs[j]) is None);
        }
    }
}

/// The newest stable release is the version of the first release listed that
/// is neither a draft nor a pre-release and whose tag parses; there is none
/// exactly when no release is such.
pub proof fn lemma_latest_stable(rs: Seq<GitHubRelease>)
    ensures
        first_stable(rs, 0) is None <==> forall|k: int| 0 <= k < rs.len() ==> (#[trigger] rs[k]).draft
            || rs[k].prerelease || parse_semver(strip_all_v(rs[k].tag_name@)) is None,
        first_stable(rs, 0) is Some ==> exists|k: int|
            0 <= k < rs.len() && !rs[k].draft && !rs[k].prerelease && Some(
                parse_semver(strip_all_v(rs[k].tag_name@))->Some_0,
            ) == first_stable(rs, 0) && parse_semver(strip_all_v(rs[k].tag_name@)) is Some
                && forall|j: int|
                0 <= j < k ==> (#[trigger] rs[j]).draft || rs[j].prerelease || parse_semver(
                    strip_all_v(rs[j].tag_name@),
                ) is None,
{
    lemma_first_stable_from(rs, 0);
}

} // verus!
