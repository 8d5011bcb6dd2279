//! What the latest GitHub release means for the update prompt.
use vstd::prelude::*;
use crate::text::{
    ascii_lower_seq, chars_of, concat_str, contains_chars, ends_with_chars, has_infix, has_suffix,
    lower_ascii,
};
use crate::version::{normalize_version_tag, spec_is_release_newer, spec_version_tag, is_release_newer};

verus! {

/// A file attached to a release.
pub struct GithubReleaseAsset {
    pub name: String,
    pub browser_download_url: String,
}

/// The fields of GitHub's latest-release answer that the update check reads.
pub struct GithubRelease {
    pub tag_name: String,
    pub name: Option<String>,
    pub body: Option<String>,
    pub html_url: String,
    pub published_at: Option<String>,
    pub draft: bool,
    pub prerelease: bool,
    pub assets: Vec<GithubReleaseAsset>,
}

/// What the update prompt shows.
pub struct UpdateInfo {
    pub version: String,
    pub name: String,
    pub body: String,
    pub html_url: String,
    pub published_at: String,
    pub can_install_now: bool,
}

/// A Windows installer: the lower-cased name ends in `.exe` and holds
/// `setup` or `x64`.
pub open spec fn is_installer_name(name: Seq<char>) -> bool {
    let l = ascii_lower_seq(name);
    has_suffix(l, ".exe"@) && (has_infix(l, "setup"@) || has_infix(l, "x64"@))
}

/// The index of the first installer among the assets, or their count.
pub open spec fn first_installer(assets: Seq<GithubReleaseAsset>) -> int
    decreases assets.len(),
{
    if assets.len() == 0 {
        0
    } else if is_installer_name(assets[0].name@) {
        0
    } else {
        1 + first_installer(assets.drop_first())
    }
}

proof fn lemma_first_installer(assets: Seq<GithubReleaseAsset>, i: int)
    requires
        0 <= i <= assets.len(),
        forall|k: int| 0 <= k < i ==> !is_installer_name((#[trigger] assets[k]).name@),
        i == assets.len() || is_installer_name(assets[i].name@),
    ensures
        first_installer(assets) == i,
    decreases assets.len(),
{
    if i > 0 {
        assert forall|k: int| 0 <= k < i - 1 implies !is_installer_name((#[trigger] assets.drop_first()[k]).name@) by {
            assert(assets.drop_first()[k] == assets[k + 1]);
        }
        lemma_first_installer(assets.drop_first(), i - 1);
    }
}

fn is_installer(name: &str) -> (r: bool)
    ensures
        r == is_installer_name(name@),
{
    let lower = lower_ascii(chars_of(name).as_slice());
    let exe = chars_of(".exe");
    let setup = chars_of("setup");
    let x64 = chars_of("x64");
    ends_with_chars(lower.as_slice(), exe.as_slice()) && (contains_chars(lower.as_slice(), setup.as_slice())
        || contains_chars(lower.as_slice(), x64.as_slice()))
}

/// The first asset that looks like a Windows installer.
pub fn find_windows_installer_asset(release: &GithubRelease) -> (r: Option<&GithubReleaseAsset>)
    ensures
        ({
            let i = first_installer(release.assets@);
            match r {
                Some(a) => 0 <= i < release.assets@.len() && *a == release.assets@[i],
                None => i == release.assets@.len(),
            }
        }),
{
    let mut i: usize = 0;
    while i < release.assets.len() && !is_installer(release.assets[i].name.as_str())
        invariant
            i <= release.assets.len(),
            forall|k: int| 0 <= k < i ==> !is_installer_name((#[trigger] release.assets@[k]).name@),
        decreases release.assets.len() - i,
    {
        i = i + 1;
    }
    proof {
        lemma_first_installer(release.assets@, i as int);
    }
    if i < release.assets.len() {
        Some(&release.assets[i])
    } else {
        None
    }
}

/// The prompt for a release: none for a draft, a prerelease, a version not
/// newer than this program's or the version the user dismissed; else the
/// release's normalised version, its name (or `Osu! Beatmap Seekman v` and
/// the version), body, page, date, and whether it can be installed at once
/// (on Windows, with an installer asset).
pub open spec fn spec_update_info(
    release: GithubRelease,
    dismissed: Seq<char>,
    on_windows: bool,
) -> Option<(Seq<char>, Seq<char>, Seq<char>, Seq<char>, Seq<char>, bool)> {
    let version = spec_version_tag(release.tag_name@);
    if release.draft || release.prerelease || !spec_is_release_newer(release.tag_name@) {
        None
    } else if spec_version_tag(dismissed) == version {
        None
    } else {
        Some((
            version,
            match release.name {
                Some(n) => n@,
                None => "Osu! Beatmap Seekman v"@ + version,
            },
            match release.body {
                Some(b) => b@,
                None => Seq::empty(),
            },
            release.html_url@,
            match release.published_at {
                Some(p) => p@,
                None => Seq::empty(),
            },
            on_windows && first_installer(release.assets@) < release.assets@.len(),
        ))
    }
}

pub open spec fn update_info_view(u: UpdateInfo) -> (Seq<char>, Seq<char>, Seq<char>, Seq<char>, Seq<char>, bool) {
    (u.version@, u.name@, u.body@, u.html_url@, u.published_at@, u.can_install_now)
}

fn text_or_empty(value: &Option<String>) -> (r: String)
    ensures
        r@ == match value {
            Some(v) => v@,
            None => Seq::empty(),
        },
{
    match value {
        Some(v) => v.clone(),
        None => String::new(),
    }
}

/// What to show for the latest release; `on_windows` tells whether this
/// build can run an installer.
pub fn release_to_update_info(
    release: &GithubRelease,
    dismissed_version: &str,
    on_windows: bool,
) -> (res: Result<Option<UpdateInfo>, String>)
    ensures
        match res {
            Ok(Some(u)) => spec_update_info(*release, dismissed_version@, on_windows) == Some(update_info_view(u)),
            Ok(None) => spec_update_info(*release, dismissed_version@, on_windows) is None,
            Err(_) => false,
        },
{
    if release.draft || release.prerelease || !is_release_newer(release.tag_name.as_str()) {
        return Ok(None);
    }
    let version = normalize_version_tag(release.tag_name.as_str());
    let dismissed = normalize_version_tag(dismissed_version);
    if dismissed == version {
        return Ok(None);
    }
    let name = match &release.name {
        Some(n) => n.clone(),
        None => concat_str("Osu! Beatmap Seekman v", version.as_str()),
    };
    let installer = find_windows_installer_asset(release);
    Ok(Some(UpdateInfo {
        version,
        name,
        body: text_or_empty(&release.body),
        html_url: release.html_url.clone(),
        published_at: text_or_empty(&release.published_at),
        can_install_now: on_windows && installer.is_some(),
    }))
}

}
