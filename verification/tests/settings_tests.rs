use seekman::mirrors::{
    mirror_candidates, mirror_candidates_for_settings, mirror_label, mirror_url, normalize_mirror_key,
};
use seekman::settings::{
    default_download_mode, default_mirror_priority, default_true, merge_settings, non_empty_or_default,
    normalize_download_mode, normalize_local_source, normalize_theme, Settings, SettingsPatch,
};

fn empty_patch() -> SettingsPatch {
    SettingsPatch {
        songs_dir: None,
        lazer_dir: None,
        stable_osu_dir: None,
        collection_auto_add: None,
        collection_name: None,
        local_source: None,
        osu_client_id: None,
        osu_client_secret: None,
        bearer_token: None,
        concurrent_downloads: None,
        include_video: None,
        download_mode: None,
        hide_existing: None,
        mixed_mode: None,
        theme: None,
        dismissed_update_version: None,
        mirror_priority: None,
    }
}

fn strings(items: &[&str]) -> Vec<String> {
    items.iter().map(|s| s.to_string()).collect()
}

#[test]
fn default_settings_values() {
    let s = Settings::default();
    assert_eq!(s.collection_name, "Seekman Downloads");
    assert_eq!(s.local_source, "stable");
    assert_eq!(s.concurrent_downloads, 8);
    assert!(s.include_video);
    assert_eq!(s.download_mode, "video");
    assert_eq!(s.theme, "cyan");
    assert_eq!(s.mirror_priority, strings(&["hinamizawa", "catboy", "nerinyan", "sayobot"]));
    assert!(!s.collection_auto_add && !s.hide_existing && !s.mixed_mode);
    assert_eq!(s.songs_dir, "");
}

#[test]
fn small_defaults() {
    assert_eq!(default_mirror_priority(), strings(&["hinamizawa", "catboy", "nerinyan", "sayobot"]));
    assert_eq!(default_download_mode(), "video");
    assert!(default_true());
}

#[test]
fn non_empty_or_default_trims() {
    assert_eq!(non_empty_or_default("  My List ", "Seekman Downloads"), "My List");
    assert_eq!(non_empty_or_default(" \t ", "Seekman Downloads"), "Seekman Downloads");
}

#[test]
fn normalizers() {
    assert_eq!(normalize_local_source("lazer"), "lazer");
    assert_eq!(normalize_local_source("Lazer"), "stable");
    assert_eq!(normalize_download_mode("osu", false), "osu");
    assert_eq!(normalize_download_mode("no_video", true), "noVideo");
    assert_eq!(normalize_download_mode("novideo", true), "noVideo");
    assert_eq!(normalize_download_mode("video", false), "video");
    assert_eq!(normalize_download_mode("other", true), "video");
    assert_eq!(normalize_download_mode("other", false), "noVideo");
    assert_eq!(normalize_theme(" lime "), "lime");
    assert_eq!(normalize_theme("89C2FF+E6E7FF"), "sky");
    assert_eq!(normalize_theme("2C2C34+00D4FF"), "cyan");
    assert_eq!(normalize_theme("purple"), "cyan");
}

#[test]
fn merge_empty_patch_changes_nothing() {
    let mut s = Settings::default();
    s.songs_dir = "/songs".to_string();
    merge_settings(&mut s, &empty_patch());
    assert_eq!(s.songs_dir, "/songs");
    assert_eq!(s.concurrent_downloads, 8);
    assert_eq!(s.download_mode, "video");
}

#[test]
fn merge_clamps_concurrency() {
    let mut s = Settings::default();
    let mut p = empty_patch();
    p.concurrent_downloads = Some(1000);
    merge_settings(&mut s, &p);
    assert_eq!(s.concurrent_downloads, 64);
    p.concurrent_downloads = Some(0);
    merge_settings(&mut s, &p);
    assert_eq!(s.concurrent_downloads, 1);
    p.concurrent_downloads = Some(12);
    merge_settings(&mut s, &p);
    assert_eq!(s.concurrent_downloads, 12);
}

#[test]
fn merge_text_fields() {
    let mut s = Settings::default();
    let mut p = empty_patch();
    p.songs_dir = Some("D:/Songs".to_string());
    p.collection_name = Some("   ".to_string());
    p.local_source = Some("lazer".to_string());
    p.theme = Some("sky".to_string());
    p.dismissed_update_version = Some(" v2.5.0".to_string());
    p.bearer_token = Some("tok".to_string());
    p.collection_auto_add = Some(true);
    merge_settings(&mut s, &p);
    assert_eq!(s.songs_dir, "D:/Songs");
    assert_eq!(s.collection_name, "Seekman Downloads");
    assert_eq!(s.local_source, "lazer");
    assert_eq!(s.theme, "sky");
    assert_eq!(s.dismissed_update_version, "2.5.0");
    assert_eq!(s.bearer_token, "tok");
    assert!(s.collection_auto_add);
}

#[test]
fn merge_video_and_mode() {
    let mut s = Settings::default();
    let mut p = empty_patch();
    p.include_video = Some(false);
    merge_settings(&mut s, &p);
    assert!(!s.include_video);
    assert_eq!(s.download_mode, "noVideo");

    let mut p = empty_patch();
    p.download_mode = Some("osu".to_string());
    merge_settings(&mut s, &p);
    assert_eq!(s.download_mode, "osu");
    assert!(!s.include_video);

    let mut p = empty_patch();
    p.include_video = Some(true);
    merge_settings(&mut s, &p);
    assert!(s.include_video);
    assert_eq!(s.download_mode, "osu");

    let mut p = empty_patch();
    p.include_video = Some(false);
    p.download_mode = Some("video".to_string());
    merge_settings(&mut s, &p);
    assert_eq!(s.download_mode, "video");
    assert!(s.include_video);
}

#[test]
fn merge_mirror_priority() {
    let mut s = Settings::default();
    let mut p = empty_patch();
    p.mirror_priority = Some(vec![
        Some(" Sayo ".to_string()),
        None,
        Some("unknown".to_string()),
        Some("sayobot".to_string()),
        Some("CATBOY.BEST".to_string()),
    ]);
    merge_settings(&mut s, &p);
    assert_eq!(s.mirror_priority, strings(&["sayobot", "catboy"]));

    let mut p = empty_patch();
    p.mirror_priority = Some(vec![Some("nothing".to_string())]);
    merge_settings(&mut s, &p);
    assert_eq!(s.mirror_priority, strings(&["sayobot", "catboy"]));
}

#[test]
fn mirror_keys_and_labels() {
    assert_eq!(normalize_mirror_key(" HinAI "), Some("hinamizawa"));
    assert_eq!(normalize_mirror_key("nerinyan.moe"), Some("nerinyan"));
    assert_eq!(normalize_mirror_key("catboy"), Some("catboy"));
    assert_eq!(normalize_mirror_key("osu"), None);
    assert_eq!(mirror_label("sayobot"), "Sayobot");
    assert_eq!(mirror_label("hinamizawa"), "Hinamizawa");
    assert_eq!(mirror_label("x"), "Mirror");
}

#[test]
fn mirror_urls() {
    assert_eq!(mirror_url("hinamizawa", 42, true), "https://mirror.hinamizawa.ai/api/v1/hinai/d/42");
    assert_eq!(mirror_url("hinamizawa", 42, false), "https://mirror.hinamizawa.ai/api/v1/hinai/d/42?noVideo=1");
    assert_eq!(mirror_url("catboy", 7, true), "https://catboy.best/d/7");
    assert_eq!(mirror_url("catboy", 7, false), "https://catboy.best/d/7n");
    assert_eq!(mirror_url("nerinyan", 7, false), "https://api.nerinyan.moe/d/7?noVideo=1");
    assert_eq!(mirror_url("sayobot", 7, true), "https://txy1.sayobot.cn/beatmaps/download/full/7");
    assert_eq!(mirror_url("sayobot", 7, false), "https://txy1.sayobot.cn/beatmaps/download/novideo/7");
    assert_eq!(mirror_url("zzz", 7, false), "https://mirror.hinamizawa.ai/api/v1/hinai/d/7");
}

#[test]
fn mirror_candidates_order() {
    let priority = strings(&["sayo", "bogus", "sayobot", "nerinyan"]);
    let c = mirror_candidates(5, true, &priority);
    let labels: Vec<&str> = c.iter().map(|m| m.label).collect();
    assert_eq!(labels, vec!["Sayobot", "Nerinyan", "Hinamizawa", "Catboy"]);
    assert_eq!(c[0].url, "https://txy1.sayobot.cn/beatmaps/download/full/5");
    let c = mirror_candidates(5, false, &[]);
    let labels: Vec<&str> = c.iter().map(|m| m.label).collect();
    assert_eq!(labels, vec!["Hinamizawa", "Catboy", "Nerinyan", "Sayobot"]);
}

#[test]
fn mirror_candidates_mixed_mode_rotates() {
    let mut s = Settings::default();
    s.mirror_priority = strings(&["sayobot"]);
    let c = mirror_candidates_for_settings(6, true, &s);
    assert_eq!(c[0].label, "Sayobot");
    s.mixed_mode = true;
    let c = mirror_candidates_for_settings(6, true, &s);
    let labels: Vec<&str> = c.iter().map(|m| m.label).collect();
    assert_eq!(labels, vec!["Nerinyan", "Sayobot", "Hinamizawa", "Catboy"]);
    let c = mirror_candidates_for_settings(5, true, &s);
    assert_eq!(c[0].label, "Catboy");
}
