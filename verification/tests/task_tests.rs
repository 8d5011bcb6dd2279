use seekman::settings::Settings;
use seekman::tasks::{
    download_candidates_for_task, first_download_url, fresh_task_id, fresh_temp_path, is_finished_status,
    normalized_group_id, recreate_retry_task, runtime_temp_path, should_stage_playlist_group,
    staged_download_path, task_dedupe_key, temp_file_name, DownloadTask,
};

fn task(mode: &str) -> DownloadTask {
    DownloadTask {
        id: "t1".to_string(),
        group_id: "g1".to_string(),
        group_name: "Group".to_string(),
        group_source: "搜索结果".to_string(),
        group_destination: "songs".to_string(),
        beatmapset_id: 123,
        title: "Title".to_string(),
        artist: "Artist".to_string(),
        include_video: true,
        download_mode: mode.to_string(),
        beatmap_id: Some(456),
        url: "u".to_string(),
        target_path: "/songs/123 Artist - Title.osz".to_string(),
        temp_path: "/cache/123-abcdefgh.osz.part".to_string(),
        total_bytes: Some(10),
        downloaded_bytes: 5,
        retry_generation: 2,
        collection_beatmap_ids: vec![456],
        status: "failed".to_string(),
        error: "boom".to_string(),
        created_at: "2024-01-01T00:00:00Z".to_string(),
        updated_at: "2024-01-01T00:00:00Z".to_string(),
    }
}

#[test]
fn dedupe_key_by_mode() {
    assert_eq!(task_dedupe_key(&task("video")), "osz:123");
    assert_eq!(task_dedupe_key(&task("osu")), "osu:456");
    let mut t = task("osu");
    t.beatmap_id = None;
    assert_eq!(task_dedupe_key(&t), "osu:0");
}

#[test]
fn group_id_falls_back_to_created_at() {
    assert_eq!(normalized_group_id(&task("video")), "g1");
    let mut t = task("video");
    t.group_id = "  ".to_string();
    assert_eq!(normalized_group_id(&t), "legacy-2024-01-01T00:00:00Z");
}

#[test]
fn staging_only_for_playlists() {
    let mut t = task("video");
    assert!(!should_stage_playlist_group(&t));
    t.group_source = "歌单：Favourites".to_string();
    assert!(!should_stage_playlist_group(&t));
    t.group_destination = "写入收藏夹：Favourites".to_string();
    assert!(should_stage_playlist_group(&t));
    t.download_mode = "osu".to_string();
    assert!(!should_stage_playlist_group(&t));
    t.download_mode = "video".to_string();
    t.group_source = "多个歌单导入".to_string();
    assert!(!should_stage_playlist_group(&t));
}

#[test]
fn finished_statuses() {
    assert!(is_finished_status("completed"));
    assert!(is_finished_status("staged"));
    assert!(!is_finished_status("failed"));
    assert!(!is_finished_status("queued"));
    assert!(!is_finished_status("downloading"));
    assert!(!is_finished_status("paused"));
}

#[test]
fn download_candidates() {
    let s = Settings::default();
    let c = download_candidates_for_task(&task("osu"), &s);
    assert_eq!(c.len(), 1);
    assert_eq!(c[0].label, "osu! official");
    assert_eq!(c[0].url, "https://osu.ppy.sh/osu/456");
    let mut t = task("osu");
    t.beatmap_id = None;
    assert!(download_candidates_for_task(&t, &s).is_empty());
    assert_eq!(first_download_url(&t, &s), "");
    let c = download_candidates_for_task(&task("video"), &s);
    assert_eq!(c.len(), 4);
    assert_eq!(first_download_url(&task("video"), &s), "https://mirror.hinamizawa.ai/api/v1/hinai/d/123");
    let mut t = task("noVideo");
    t.include_video = false;
    assert_eq!(first_download_url(&t, &s), "https://mirror.hinamizawa.ai/api/v1/hinai/d/123?noVideo=1");
}

fn is_suffix(s: &str) -> bool {
    s.len() == 8 && s.chars().all(|c| c.is_ascii_alphanumeric())
}

#[test]
fn fresh_task_ids_have_shape() {
    let id = fresh_task_id(&task("video"));
    let parts: Vec<&str> = id.split('-').collect();
    assert_eq!(parts.len(), 3);
    assert_eq!(parts[0], "123");
    assert!(parts[1].parse::<i64>().unwrap() > 0);
    assert!(is_suffix(parts[2]));
    let id = fresh_task_id(&task("osu"));
    assert!(id.starts_with("osu-456-"));
    let other = fresh_task_id(&task("osu"));
    assert_ne!(id, other);
}

#[test]
fn fresh_temp_paths_have_shape() {
    let p = fresh_temp_path(&task("video"), "/cache");
    assert!(p.starts_with("/cache/123-"));
    assert!(p.ends_with(".osz.part"));
    assert!(is_suffix(&p["/cache/123-".len()..p.len() - ".osz.part".len()]));
    let p = fresh_temp_path(&task("osu"), "/cache");
    assert!(p.starts_with("/cache/456-"));
    assert!(p.ends_with(".osu.part"));
}

#[test]
fn temp_file_name_uses_existing_path() {
    assert_eq!(temp_file_name(&task("video")), "123-abcdefgh.osz.part");
    let mut t = task("video");
    t.temp_path = String::new();
    let name = temp_file_name(&t);
    assert!(name.starts_with("123-") && name.ends_with(".osz.part"));
}

#[test]
fn runtime_and_staged_paths() {
    let t = task("video");
    assert_eq!(runtime_temp_path("/data/download-cache", &t), "/data/download-cache/123-abcdefgh.osz.part");
    assert_eq!(
        staged_download_path("/data/download-cache", &t),
        "/data/download-cache/staged/g1/123 Artist - Title.osz"
    );
    let mut t = task("video");
    t.group_id = "a/b".to_string();
    t.target_path = String::new();
    assert_eq!(
        staged_download_path("/c", &t),
        "/c/staged/a_b/seekman-download.osz"
    );
}

#[test]
fn retry_task_is_reset() {
    let mut t = task("video");
    let s = Settings::default();
    recreate_retry_task(&mut t, &s, "/cache");
    assert_eq!(t.status, "queued");
    assert_eq!(t.error, "");
    assert_eq!(t.total_bytes, None);
    assert_eq!(t.downloaded_bytes, 0);
    assert_eq!(t.retry_generation, 0);
    assert_eq!(t.url, "https://mirror.hinamizawa.ai/api/v1/hinai/d/123");
    assert!(t.id.starts_with("123-"));
    assert!(t.temp_path.starts_with("/cache/123-") && t.temp_path.ends_with(".osz.part"));
    assert_eq!(t.beatmapset_id, 123);
    assert_eq!(t.group_id, "g1");
    assert_eq!(t.created_at, "2024-01-01T00:00:00Z");
    assert_ne!(t.updated_at, "2024-01-01T00:00:00Z");
}
