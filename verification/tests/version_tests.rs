use std::cmp::Ordering;

use seekman::update::{
    find_windows_installer_asset, release_to_update_info, GithubRelease, GithubReleaseAsset,
};
use seekman::version::{
    compare_versions, is_release_newer, normalize_version_tag, numbers_in_chars, version_parts,
};

#[test]
fn normalize_version_tag_strips_prefix() {
    assert_eq!(normalize_version_tag("  v2.3.4 "), "2.3.4");
    assert_eq!(normalize_version_tag("V1.0"), "1.0");
    assert_eq!(normalize_version_tag("vV1.0"), "1.0");
    assert_eq!(normalize_version_tag("vvv3"), "3");
    assert_eq!(normalize_version_tag("release-1"), "release-1");
}

#[test]
fn version_parts_takes_digit_runs() {
    assert_eq!(version_parts("2.10.3-beta4"), vec![2, 10, 3, 4]);
    assert_eq!(version_parts("..."), Vec::<u64>::new());
    assert_eq!(version_parts("1.99999999999999999999999.2"), vec![1, 2]);
}

#[test]
fn numbers_in_chars_respects_max() {
    let chars: Vec<char> = "a12b300c7".chars().collect();
    assert_eq!(numbers_in_chars(&chars, 255), vec![12, 7]);
    assert_eq!(numbers_in_chars(&chars, 1000), vec![12, 300, 7]);
}

#[test]
fn compare_versions_pads_with_zeros() {
    assert_eq!(compare_versions("1.2", "1.2.0"), Ordering::Equal);
    assert_eq!(compare_versions("1.10", "1.9"), Ordering::Greater);
    assert_eq!(compare_versions("0.9.9", "1"), Ordering::Less);
    assert_eq!(compare_versions("", "0.0"), Ordering::Equal);
}

#[test]
fn compare_versions_is_antisymmetric() {
    let samples = ["1", "1.0.1", "2.1.0", "2.1", "10", "0.0.0.1"];
    for a in samples {
        for b in samples {
            assert_eq!(compare_versions(a, b), compare_versions(b, a).reverse());
        }
    }
}

#[test]
fn release_newer_than_this_version() {
    assert!(is_release_newer("v2.1.1"));
    assert!(is_release_newer("3"));
    assert!(!is_release_newer("v2.1.0"));
    assert!(!is_release_newer("2.0.9"));
}

fn release(tag: &str) -> GithubRelease {
    GithubRelease {
        tag_name: tag.to_string(),
        name: None,
        body: Some("notes".to_string()),
        html_url: "https://example.com/r".to_string(),
        published_at: None,
        draft: false,
        prerelease: false,
        assets: vec![
            GithubReleaseAsset { name: "seekman.zip".to_string(), browser_download_url: "u1".to_string() },
            GithubReleaseAsset { name: "Seekman_X64.EXE".to_string(), browser_download_url: "u2".to_string() },
            GithubReleaseAsset { name: "seekman-setup.exe".to_string(), browser_download_url: "u3".to_string() },
        ],
    }
}

#[test]
fn installer_asset_is_first_match() {
    let r = release("v9");
    let a = find_windows_installer_asset(&r).unwrap();
    assert_eq!(a.browser_download_url, "u2");
    let mut r = release("v9");
    r.assets.remove(1);
    r.assets.remove(1);
    assert!(find_windows_installer_asset(&r).is_none());
}

#[test]
fn update_info_for_newer_release() {
    let r = release("v9.0.0");
    let info = release_to_update_info(&r, "", true).unwrap().unwrap();
    assert_eq!(info.version, "9.0.0");
    assert_eq!(info.name, "Osu! Beatmap Seekman v9.0.0");
    assert_eq!(info.body, "notes");
    assert_eq!(info.published_at, "");
    assert_eq!(info.html_url, "https://example.com/r");
    assert!(info.can_install_now);
    let info = release_to_update_info(&r, "", false).unwrap().unwrap();
    assert!(!info.can_install_now);
}

#[test]
fn no_update_info_when_dismissed_old_or_draft() {
    let r = release("v9.0.0");
    assert!(release_to_update_info(&r, " V9.0.0", true).unwrap().is_none());
    let r = release("v2.0.0");
    assert!(release_to_update_info(&r, "", true).unwrap().is_none());
    let mut r = release("v9.0.0");
    r.prerelease = true;
    assert!(release_to_update_info(&r, "", true).unwrap().is_none());
    let mut r = release("v9.0.0");
    r.draft = true;
    assert!(release_to_update_info(&r, "", true).unwrap().is_none());
}
