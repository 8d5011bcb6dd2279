use seekman::settings::Settings;
use seekman::store::{
    begin_download, clear_all_downloads, clear_completed, copy_task, delete_download_group,
    ensure_task_group_progress, find_group, find_task, is_attempt_current, is_local, local_entry,
    local_source_matches, mark_failed_latest, mark_group_task_completed, next_queue_batch,
    parse_task_total_from_group_name, pause_downloads, prune_empty_task_groups, record_temp_path,
    replace_local_source, reset_stalled_attempt, retry_failed_downloads, set_status,
    record_scan, scan_dir_choice, stage_completed_download, start_downloads, update_progress,
    update_task_attempt, upsert_local, AppStore, DownloadGroupProgress, LocalBeatmapset,
};
use seekman::tasks::DownloadTask;

fn task(id: &str, group: &str, set_id: u64, status: &str) -> DownloadTask {
    DownloadTask {
        id: id.to_string(),
        group_id: group.to_string(),
        group_name: format!("{group} · 3 首"),
        group_source: "搜索结果".to_string(),
        group_destination: "songs".to_string(),
        beatmapset_id: set_id,
        title: "T".to_string(),
        artist: "A".to_string(),
        include_video: true,
        download_mode: "video".to_string(),
        beatmap_id: None,
        url: String::new(),
        target_path: format!("/songs/{set_id}.osz"),
        temp_path: format!("/cache/{id}.part"),
        total_bytes: None,
        downloaded_bytes: 10,
        retry_generation: 0,
        collection_beatmap_ids: Vec::new(),
        status: status.to_string(),
        error: String::new(),
        created_at: "c".to_string(),
        updated_at: "u".to_string(),
    }
}

fn group(id: &str, total: usize, completed: usize) -> DownloadGroupProgress {
    DownloadGroupProgress {
        id: id.to_string(),
        name: id.to_string(),
        source: String::new(),
        destination: String::new(),
        total_tasks: total,
        completed_tasks: completed,
        completed_bytes: 0,
        created_at: "c".to_string(),
        updated_at: "u".to_string(),
    }
}

fn local(id: u64, from: &str) -> LocalBeatmapset {
    LocalBeatmapset {
        beatmapset_id: id,
        folder_path: format!("/songs/{id}"),
        detected_from: from.to_string(),
        scanned_at: "s".to_string(),
    }
}

fn store(tasks: Vec<DownloadTask>, groups: Vec<DownloadGroupProgress>) -> AppStore {
    AppStore { settings: Settings::default(), local_beatmapsets: Vec::new(), tasks, task_groups: groups }
}

fn statuses(s: &AppStore) -> Vec<String> {
    s.tasks.iter().map(|t| t.status.clone()).collect()
}

#[test]
fn find_positions() {
    let s = store(vec![task("a", "g", 1, "queued"), task("b", "g", 2, "queued")], vec![group("g", 2, 0)]);
    assert_eq!(find_task(&s.tasks, "b"), 1);
    assert_eq!(find_task(&s.tasks, "zz"), 2);
    assert_eq!(find_group(&s.task_groups, "g"), 0);
    assert_eq!(find_group(&s.task_groups, "h"), 1);
}

#[test]
fn group_total_from_name() {
    assert_eq!(parse_task_total_from_group_name("歌单 2024 · 12 首"), Some(12));
    assert_eq!(parse_task_total_from_group_name("no numbers"), None);
    assert_eq!(parse_task_total_from_group_name("list 0"), None);
    assert_eq!(parse_task_total_from_group_name("7 then 99999999999999999999999"), Some(7));
}

#[test]
fn prune_keeps_active_or_unfinished_groups() {
    let mut s = store(
        vec![task("a", "g1", 1, "queued")],
        vec![group("g1", 1, 1), group("g2", 2, 2), group("g3", 3, 1)],
    );
    prune_empty_task_groups(&mut s);
    let ids: Vec<&str> = s.task_groups.iter().map(|g| g.id.as_str()).collect();
    assert_eq!(ids, vec!["g1", "g3"]);
}

#[test]
fn attempt_currency() {
    let mut t = task("a", "g", 1, "downloading");
    t.retry_generation = 3;
    let mut s = store(vec![t], Vec::new());
    assert!(is_attempt_current(&s, "a", 3));
    assert!(!is_attempt_current(&s, "a", 2));
    assert!(!is_attempt_current(&s, "b", 3));
    s.tasks[0].status = "cancelled".to_string();
    assert!(!is_attempt_current(&s, "a", 3));
}

#[test]
fn progress_updates_only_current_generation() {
    let mut s = store(vec![task("a", "g", 1, "downloading")], Vec::new());
    assert!(update_progress(&mut s, "a", 0, 500, Some(1000)));
    assert_eq!(s.tasks[0].downloaded_bytes, 500);
    assert_eq!(s.tasks[0].total_bytes, Some(1000));
    assert_ne!(s.tasks[0].updated_at, "u");
    assert!(!update_progress(&mut s, "a", 1, 900, None));
    assert_eq!(s.tasks[0].downloaded_bytes, 500);
    assert!(!update_progress(&mut s, "x", 0, 900, None));
}

#[test]
fn attempt_and_stall_updates() {
    let mut s = store(vec![task("a", "g", 1, "queued")], Vec::new());
    assert!(update_task_attempt(&mut s, "a", 0, "https://m/1", "trying"));
    assert_eq!(s.tasks[0].url, "https://m/1");
    assert_eq!(s.tasks[0].error, "trying");
    assert_eq!(s.tasks[0].status, "downloading");
    assert!(!update_task_attempt(&mut s, "a", 5, "https://m/2", ""));
    assert_eq!(s.tasks[0].url, "https://m/1");
    s.tasks[0].total_bytes = Some(100);
    assert!(reset_stalled_attempt(&mut s, "a", 0, "stalled"));
    assert_eq!(s.tasks[0].downloaded_bytes, 0);
    assert_eq!(s.tasks[0].total_bytes, None);
    assert_eq!(s.tasks[0].error, "stalled");
    assert_eq!(s.tasks[0].status, "downloading");
}

#[test]
fn mark_failed_only_when_downloading() {
    let mut s = store(vec![task("a", "g", 1, "downloading"), task("b", "g", 2, "paused")], Vec::new());
    assert!(mark_failed_latest(&mut s, "a", "network"));
    assert_eq!(s.tasks[0].status, "failed");
    assert_eq!(s.tasks[0].error, "network");
    assert!(!mark_failed_latest(&mut s, "b", "network"));
    assert_eq!(s.tasks[1].status, "paused");
    assert!(!mark_failed_latest(&mut s, "zz", "network"));
}

#[test]
fn begin_download_marks_downloading() {
    let mut t = task("a", "g", 1, "queued");
    t.error = "old".to_string();
    let mut s = store(vec![t], Vec::new());
    let copy = begin_download(&mut s, "a").unwrap();
    assert_eq!(copy.status, "downloading");
    assert_eq!(copy.error, "");
    assert_eq!(s.tasks[0].status, "downloading");
    assert!(begin_download(&mut s, "b").is_none());
    let c = copy_task(&s.tasks[0]);
    assert_eq!(c.id, "a");
    assert_eq!(c.temp_path, s.tasks[0].temp_path);
}

#[test]
fn staging_and_temp_paths() {
    let mut s = store(vec![task("a", "g", 1, "downloading")], Vec::new());
    assert!(record_temp_path(&mut s, "a", 0, "/cache/new.part"));
    assert_eq!(s.tasks[0].temp_path, "/cache/new.part");
    assert!(!record_temp_path(&mut s, "a", 9, "/cache/other.part"));
    assert!(stage_completed_download(&mut s, "a", 0, "/cache/staged/g/1.osz"));
    assert_eq!(s.tasks[0].status, "staged");
    assert_eq!(s.tasks[0].temp_path, "/cache/staged/g/1.osz");
    assert_eq!(s.tasks[0].error, "已缓存，等待同任务全部下载完成");
}

#[test]
fn completing_a_task_counts_it_and_records_local() {
    let mut s = store(vec![task("a", "g", 11, "downloading"), task("b", "g", 12, "queued")], vec![group("g", 2, 0)]);
    assert!(set_status(&mut s, "a", 0, "completed", ""));
    assert_eq!(s.tasks.len(), 1);
    assert_eq!(s.tasks[0].id, "b");
    assert_eq!(s.task_groups[0].completed_tasks, 1);
    assert_eq!(s.task_groups[0].completed_bytes, 10);
    assert_eq!(s.local_beatmapsets.len(), 1);
    assert_eq!(s.local_beatmapsets[0].beatmapset_id, 11);
    assert_eq!(s.local_beatmapsets[0].folder_path, "/songs/11.osz");
    assert_eq!(s.local_beatmapsets[0].detected_from, "download");
    assert!(is_local(&s, 11));
    assert!(!is_local(&s, 12));
}

#[test]
fn other_statuses_update_in_place() {
    let mut s = store(vec![task("a", "g", 11, "downloading")], Vec::new());
    assert!(set_status(&mut s, "a", 0, "failed", "bad"));
    assert_eq!(s.tasks[0].status, "failed");
    assert_eq!(s.tasks[0].error, "bad");
    assert!(!set_status(&mut s, "a", 4, "paused", ""));
    assert_eq!(s.tasks[0].status, "failed");
}

#[test]
fn group_completion_saturates() {
    let mut s = store(Vec::new(), vec![group("g", 1, 1)]);
    let t = task("a", "g", 1, "completed");
    mark_group_task_completed(&mut s, &t);
    assert_eq!(s.task_groups[0].completed_tasks, 1);
    assert_eq!(s.task_groups[0].completed_bytes, 10);
    let t = task("b", "new", 2, "completed");
    mark_group_task_completed(&mut s, &t);
    assert_eq!(s.task_groups.len(), 2);
    assert_eq!(s.task_groups[1].id, "new");
    assert_eq!(s.task_groups[1].total_tasks, 1);
    assert_eq!(s.task_groups[1].completed_tasks, 1);
    let mut s = store(Vec::new(), vec![group("z", 0, 0)]);
    mark_group_task_completed(&mut s, &task("c", "z", 3, "completed"));
    assert_eq!(s.task_groups[0].total_tasks, 1);
    assert_eq!(s.task_groups[0].completed_tasks, 1);
}

#[test]
fn start_and_pause() {
    let mut s = store(
        vec![task("a", "g", 1, "pending"), task("b", "g", 2, "downloading"), task("c", "g", 3, "failed")],
        Vec::new(),
    );
    start_downloads(&mut s);
    assert_eq!(statuses(&s), vec!["queued", "downloading", "failed"]);
    pause_downloads(&mut s);
    assert_eq!(statuses(&s), vec!["queued", "paused", "failed"]);
}

#[test]
fn delete_group_returns_temp_paths() {
    let mut s = store(
        vec![task("a", "g1", 1, "queued"), task("b", "g2", 2, "queued"), task("c", "g1", 3, "failed")],
        vec![group("g1", 2, 0), group("g2", 1, 0)],
    );
    let removed = delete_download_group(&mut s, "g1");
    assert_eq!(removed, vec!["/cache/a.part".to_string(), "/cache/c.part".to_string()]);
    assert_eq!(s.tasks.len(), 1);
    assert_eq!(s.tasks[0].id, "b");
    assert_eq!(s.task_groups.len(), 1);
    assert_eq!(s.task_groups[0].id, "g2");
}

#[test]
fn clear_all_and_completed() {
    let mut s = store(
        vec![task("a", "g1", 1, "completed"), task("b", "g2", 2, "queued")],
        vec![group("g1", 1, 1), group("g2", 1, 0)],
    );
    clear_completed(&mut s);
    assert_eq!(s.tasks.len(), 1);
    assert_eq!(s.tasks[0].id, "b");
    let ids: Vec<&str> = s.task_groups.iter().map(|g| g.id.as_str()).collect();
    assert_eq!(ids, vec!["g2"]);
    clear_all_downloads(&mut s);
    assert!(s.tasks.is_empty() && s.task_groups.is_empty());
}

#[test]
fn next_batch_takes_first_runnable_group() {
    let s = store(
        vec![
            task("a", "g1", 1, "completed"),
            task("b", "g2", 2, "paused"),
            task("c", "g1", 3, "queued"),
            task("d", "g2", 4, "failed"),
            task("e", "g2", 5, "downloading"),
        ],
        Vec::new(),
    );
    assert_eq!(next_queue_batch(&s), vec!["b".to_string(), "d".to_string()]);
    let s = store(vec![task("a", "g1", 1, "completed")], Vec::new());
    assert!(next_queue_batch(&s).is_empty());
}

#[test]
fn ensure_progress_for_legacy_tasks() {
    let mut a = task("a", "g", 1, "completed");
    a.downloaded_bytes = 100;
    let mut b = task("b", "g", 2, "staged");
    b.downloaded_bytes = 50;
    let c = task("c", "g", 3, "queued");
    let d = task("d", "h", 4, "queued");
    let mut s = store(vec![a, b, c, d], vec![group("h", 1, 0)]);
    ensure_task_group_progress(&mut s);
    assert_eq!(s.task_groups.len(), 2);
    let g = &s.task_groups[1];
    assert_eq!(g.id, "g");
    assert_eq!(g.name, "g · 3 首");
    assert_eq!(g.total_tasks, 3);
    assert_eq!(g.completed_tasks, 2);
    assert_eq!(g.completed_bytes, 150);
    assert_eq!(g.created_at, "c");
    assert_eq!(s.task_groups[0].total_tasks, 1);
}

#[test]
fn ensure_progress_counts_tasks_already_gone() {
    let mut t = task("a", "g", 1, "queued");
    t.group_name = "歌单 · 10 首".to_string();
    let mut s = store(vec![t], Vec::new());
    ensure_task_group_progress(&mut s);
    assert_eq!(s.task_groups[0].total_tasks, 10);
    assert_eq!(s.task_groups[0].completed_tasks, 9);
}

#[test]
fn retry_restarts_unfinished_tasks() {
    let mut s = store(
        vec![task("a", "g", 1, "completed"), task("b", "g", 2, "failed"), task("c", "g", 3, "cancelled")],
        Vec::new(),
    );
    s.tasks[1].retry_generation = 4;
    let removed = retry_failed_downloads(&mut s, "/cache2");
    assert_eq!(removed, vec!["/cache/b.part".to_string()]);
    assert_eq!(s.tasks[0].status, "completed");
    assert_eq!(s.tasks[2].status, "cancelled");
    assert_eq!(s.tasks[1].status, "queued");
    assert_eq!(s.tasks[1].retry_generation, 0);
    assert!(s.tasks[1].id.starts_with("2-"));
    assert!(s.tasks[1].temp_path.starts_with("/cache2/2-"));
    assert_eq!(s.tasks[1].url, "https://mirror.hinamizawa.ai/api/v1/hinai/d/2");
}

#[test]
fn local_sources() {
    assert!(local_source_matches("lazer", "lazer-file"));
    assert!(!local_source_matches("lazer", "folder"));
    assert!(local_source_matches("stable", "folder"));
    assert!(local_source_matches("other", "download"));
    assert!(!local_source_matches("stable", "lazer"));
}

#[test]
fn upsert_and_replace_locals() {
    let mut locals = vec![local(1, "folder"), local(2, "lazer"), local(3, "download")];
    upsert_local(&mut locals, local(2, "osz-file"));
    assert_eq!(locals.len(), 3);
    assert_eq!(locals[1].detected_from, "osz-file");
    upsert_local(&mut locals, local(4, "folder"));
    assert_eq!(locals.len(), 4);

    let mut current = vec![local(1, "folder"), local(2, "lazer"), local(3, "download"), local(5, "osu-file")];
    replace_local_source(&mut current, vec![local(3, "folder"), local(6, "osz-file")], false);
    let pairs: Vec<(u64, &str)> = current.iter().map(|l| (l.beatmapset_id, l.detected_from.as_str())).collect();
    assert_eq!(pairs, vec![(2, "lazer"), (3, "folder"), (6, "osz-file")]);

    let mut current = vec![local(1, "folder"), local(2, "lazer"), local(7, "lazer-file")];
    replace_local_source(&mut current, vec![local(8, "lazer")], true);
    let pairs: Vec<(u64, &str)> = current.iter().map(|l| (l.beatmapset_id, l.detected_from.as_str())).collect();
    assert_eq!(pairs, vec![(1, "folder"), (8, "lazer")]);
}

#[test]
fn local_entries_and_lookup() {
    let e = local_entry(9, "/songs/9 A - B", "folder");
    assert_eq!(e.beatmapset_id, 9);
    assert_eq!(e.folder_path, "/songs/9 A - B");
    assert_eq!(e.detected_from, "folder");
    assert!(!e.scanned_at.is_empty());
    let mut s = store(Vec::new(), Vec::new());
    s.local_beatmapsets = vec![local(9, "lazer")];
    assert!(!is_local(&s, 9));
    s.settings.local_source = "lazer".to_string();
    assert!(is_local(&s, 9));
}

#[test]
fn scan_folders_and_results() {
    let mut s = store(Vec::new(), Vec::new());
    assert_eq!(scan_dir_choice(None, &s.settings, false), Err("Please select the Songs folder first.".to_string()));
    assert_eq!(scan_dir_choice(Some(String::new()), &s.settings, true), Err("Please select the osu! lazer folder first.".to_string()));
    s.settings.songs_dir = "/songs".to_string();
    assert_eq!(scan_dir_choice(None, &s.settings, false), Ok("/songs".to_string()));
    assert_eq!(scan_dir_choice(Some("/other".to_string()), &s.settings, false), Ok("/other".to_string()));
    s.local_beatmapsets = vec![local(1, "folder"), local(2, "lazer-file")];
    record_scan(&mut s, "/lazer".to_string(), vec![local(3, "lazer-file")], true);
    assert_eq!(s.settings.lazer_dir, "/lazer");
    assert_eq!(s.settings.local_source, "lazer");
    assert_eq!(s.settings.songs_dir, "/songs");
    let ids: Vec<u64> = s.local_beatmapsets.iter().map(|l| l.beatmapset_id).collect();
    assert_eq!(ids, vec![1, 3]);
    record_scan(&mut s, "/songs2".to_string(), vec![local(4, "osz-file")], false);
    assert_eq!(s.settings.songs_dir, "/songs2");
    assert_eq!(s.settings.local_source, "stable");
    let ids: Vec<u64> = s.local_beatmapsets.iter().map(|l| l.beatmapset_id).collect();
    assert_eq!(ids, vec![3, 4]);
}
