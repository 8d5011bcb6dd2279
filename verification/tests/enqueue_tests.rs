use seekman::enqueue::{enqueue_downloads, MAX_QUEUE_TASKS};
use seekman::items::BeatmapsetItem;
use seekman::settings::Settings;
use seekman::store::AppStore;
use seekman::tasks::{should_stage_playlist_group, DownloadTask};

fn item(id: u64, beatmaps: Vec<u64>, source: &str) -> BeatmapsetItem {
    BeatmapsetItem {
        id,
        title: "Title".to_string(),
        artist: "Art/ist".to_string(),
        creator: "mapper".to_string(),
        ranked_date: String::new(),
        status: "ranked".to_string(),
        modes: Vec::new(),
        min_length: None,
        max_length: None,
        key_counts: Vec::new(),
        beatmap_ids: beatmaps,
        collection_beatmap_ids: vec![id * 10],
        source_collection: source.to_string(),
        playcount: 0,
        favourite_count: 0,
        exists_local: None,
    }
}

fn existing(set_id: u64, mode: &str, beatmap_id: Option<u64>, status: &str) -> DownloadTask {
    DownloadTask {
        id: format!("old-{set_id}"),
        group_id: "old".to_string(),
        group_name: "old".to_string(),
        group_source: String::new(),
        group_destination: String::new(),
        beatmapset_id: set_id,
        title: String::new(),
        artist: String::new(),
        include_video: true,
        download_mode: mode.to_string(),
        beatmap_id,
        url: String::new(),
        target_path: String::new(),
        temp_path: String::new(),
        total_bytes: None,
        downloaded_bytes: 0,
        retry_generation: 0,
        collection_beatmap_ids: Vec::new(),
        status: status.to_string(),
        error: String::new(),
        created_at: String::new(),
        updated_at: String::new(),
    }
}

fn store() -> AppStore {
    let mut settings = Settings::default();
    settings.songs_dir = "/songs".to_string();
    AppStore { settings, local_beatmapsets: Vec::new(), tasks: Vec::new(), task_groups: Vec::new() }
}

#[test]
fn enqueue_needs_songs_folder() {
    let mut s = store();
    s.settings.songs_dir = String::new();
    let r = enqueue_downloads(&mut s, &vec![item(1, vec![], "")], "/osu", "/cache");
    assert_eq!(r, Err("Please select the Songs folder first.".to_string()));
    assert!(s.tasks.is_empty() && s.task_groups.is_empty());
}

#[test]
fn enqueue_adds_one_group() {
    let mut s = store();
    s.tasks.push(existing(1, "video", None, "queued"));
    s.tasks.push(existing(3, "video", None, "cancelled"));
    let items = vec![item(1, vec![], ""), item(2, vec![], ""), item(3, vec![], ""), item(2, vec![], "")];
    assert_eq!(enqueue_downloads(&mut s, &items, "/osu", "/cache"), Ok(()));
    assert_eq!(s.tasks.len(), 5);
    let added = &s.tasks[2..];
    let ids: Vec<u64> = added.iter().map(|t| t.beatmapset_id).collect();
    assert_eq!(ids, vec![2, 3, 2]);
    let t = &added[0];
    assert_eq!(t.status, "pending");
    assert_eq!(t.download_mode, "video");
    assert!(t.include_video);
    assert_eq!(t.group_name, "搜索结果 · 4 首");
    assert_eq!(t.group_source, "搜索结果");
    assert_eq!(t.group_destination, "通常下载");
    assert!(t.group_id.starts_with("group-"));
    assert_eq!(t.target_path, "/songs/2 Art_ist - Title.osz");
    assert_eq!(t.url, "https://mirror.hinamizawa.ai/api/v1/hinai/d/2");
    assert!(t.temp_path.starts_with("/cache/2-") && t.temp_path.ends_with(".osz.part"));
    assert!(t.id.starts_with("2-"));
    assert_eq!(t.collection_beatmap_ids, vec![20]);
    assert_eq!(t.beatmap_id, None);
    assert_eq!(t.created_at, t.updated_at);
    assert!(added.iter().all(|a| a.group_id == t.group_id));
    assert_eq!(s.task_groups.len(), 1);
    let g = &s.task_groups[0];
    assert_eq!(g.id, t.group_id);
    assert_eq!(g.total_tasks, 3);
    assert_eq!(g.completed_tasks, 0);
    assert_eq!(g.destination, "通常下载");
}

#[test]
fn enqueue_nothing_new_adds_no_group() {
    let mut s = store();
    s.tasks.push(existing(1, "video", None, "failed"));
    assert_eq!(enqueue_downloads(&mut s, &vec![item(1, vec![], "")], "/osu", "/cache"), Ok(()));
    assert_eq!(s.tasks.len(), 1);
    assert!(s.task_groups.is_empty());
}

#[test]
fn enqueue_playlist_into_collection() {
    let mut s = store();
    s.settings.collection_auto_add = true;
    s.settings.collection_name = "  ".to_string();
    s.settings.include_video = false;
    s.settings.download_mode = "noVideo".to_string();
    let items = vec![item(8, vec![], "Fav"), item(9, vec![], "Fav")];
    assert_eq!(enqueue_downloads(&mut s, &items, "/osu", "/cache"), Ok(()));
    let t = &s.tasks[0];
    assert_eq!(t.group_source, "歌单：Fav");
    assert_eq!(t.group_destination, "写入收藏夹：Seekman Downloads");
    assert_eq!(t.group_name, "歌单：Fav · 2 首");
    assert!(!t.include_video);
    assert_eq!(t.download_mode, "noVideo");
    assert_eq!(t.url, "https://mirror.hinamizawa.ai/api/v1/hinai/d/8?noVideo=1");
}

#[test]
fn enqueue_single_beatmap_files() {
    let mut s = store();
    s.settings.download_mode = "osu".to_string();
    s.settings.collection_auto_add = true;
    s.tasks.push(existing(5, "osu", Some(51), "queued"));
    let items = vec![item(5, vec![50, 51, 52], "")];
    assert_eq!(enqueue_downloads(&mut s, &items, "/osu", "/cache"), Ok(()));
    assert_eq!(s.tasks.len(), 3);
    let added = &s.tasks[1..];
    let ids: Vec<Option<u64>> = added.iter().map(|t| t.beatmap_id).collect();
    assert_eq!(ids, vec![Some(50), Some(52)]);
    let t = &added[0];
    assert_eq!(t.download_mode, "osu");
    assert_eq!(t.group_destination, "仅 .osu 文件");
    assert_eq!(t.url, "https://osu.ppy.sh/osu/50");
    assert_eq!(t.target_path, "/osu/50 Art_ist - Title.osu");
    assert!(t.temp_path.starts_with("/cache/50-") && t.temp_path.ends_with(".osu.part"));
    assert!(t.id.starts_with("osu-50-"));
    assert!(!t.include_video);
    assert!(t.collection_beatmap_ids.is_empty());
    assert_eq!(s.task_groups[0].destination, "仅 .osu 文件");
    assert_eq!(s.task_groups[0].total_tasks, 2);
}

#[test]
fn queue_limit_constant() {
    assert_eq!(MAX_QUEUE_TASKS, 1_000_000);
}

#[test]
fn added_tasks_stage_only_for_one_playlist_into_a_collection() {
    let mut s = store();
    s.settings.collection_auto_add = true;
    s.settings.download_mode = "full".to_string();
    enqueue_downloads(&mut s, &vec![item(1, vec![11], " Fav "), item(2, vec![21], "Fav")], "/osu", "/cache").unwrap();
    assert!(s.tasks.iter().all(|t| should_stage_playlist_group(t)));

    let mut s = store();
    s.settings.collection_auto_add = true;
    s.settings.download_mode = "full".to_string();
    enqueue_downloads(&mut s, &vec![item(1, vec![11], "Fav"), item(2, vec![21], "Other")], "/osu", "/cache").unwrap();
    assert_eq!(s.tasks.len(), 2);
    assert!(s.tasks.iter().all(|t| !should_stage_playlist_group(t)));

    let mut s = store();
    s.settings.collection_auto_add = false;
    enqueue_downloads(&mut s, &vec![item(1, vec![11], "Fav")], "/osu", "/cache").unwrap();
    assert!(!should_stage_playlist_group(&s.tasks[0]));

    let mut s = store();
    s.settings.collection_auto_add = true;
    s.settings.download_mode = "osu".to_string();
    enqueue_downloads(&mut s, &vec![item(1, vec![11], "Fav")], "/osu", "/cache").unwrap();
    assert!(!should_stage_playlist_group(&s.tasks[0]));
}

#[test]
fn enqueue_without_songs_folder_says_so() {
    let mut s = store();
    s.settings.songs_dir = String::new();
    assert_eq!(
        enqueue_downloads(&mut s, &vec![item(1, vec![11], "")], "/osu", "/cache"),
        Err("Please select the Songs folder first.".to_string())
    );
    assert!(s.tasks.is_empty());
}
