use std::io::{Cursor, Write};

use md5::{Digest, Md5};
use seekman::osz::{beatmap_md5s_from_osz, hashes_of_entries, OszEntry};
use seekman::staging::{collection_filter, collection_target, commit_finalized_group, group_hashes, plan_finalize, require_hashes};
use seekman::settings::Settings;
use seekman::store::{AppStore, DownloadGroupProgress};
use seekman::tasks::DownloadTask;
use zip::write::SimpleFileOptions;

fn osz(entries: &[(&str, &[u8])]) -> Vec<u8> {
    let mut writer = zip::ZipWriter::new(Cursor::new(Vec::new()));
    for (name, bytes) in entries {
        writer.start_file(*name, SimpleFileOptions::default()).unwrap();
        writer.write_all(bytes).unwrap();
    }
    writer.finish().unwrap().into_inner()
}

fn md5_hex(bytes: &[u8]) -> String {
    format!("{:x}", Md5::digest(bytes))
}

const MAP_A: &[u8] = b"osu file format v14\n[Metadata]\nBeatmapID:101\nBeatmapSetID:10\n";
const MAP_B: &[u8] = b"osu file format v14\n[Metadata]\nBeatmapID:102\nBeatmapSetID:10\n";
const MAP_C: &[u8] = b"osu file format v14\n[Metadata]\nTitle:no id\n";

#[test]
fn md5s_of_beatmap_files() {
    let bytes = osz(&[("song.mp3", b"audio"), ("a.osu", MAP_A), ("sub/B.OSU", MAP_B), ("c.osu", MAP_C), ("dup.osu", MAP_A)]);
    let mut expected = vec![md5_hex(MAP_A), md5_hex(MAP_B), md5_hex(MAP_C)];
    expected.sort();
    assert_eq!(beatmap_md5s_from_osz(bytes.clone(), None), Ok(expected));
    assert_eq!(md5_hex(MAP_A).len(), 32);
}

#[test]
fn md5s_only_for_allowed_beatmaps() {
    let bytes = osz(&[("a.osu", MAP_A), ("b.osu", MAP_B), ("c.osu", MAP_C)]);
    assert_eq!(beatmap_md5s_from_osz(bytes.clone(), Some(vec![102])), Ok(vec![md5_hex(MAP_B)]));
    assert_eq!(beatmap_md5s_from_osz(bytes, Some(vec![999])), Ok(Vec::new()));
}

#[test]
fn broken_archive_is_an_error() {
    let r = beatmap_md5s_from_osz(b"not a zip".to_vec(), None);
    assert!(r.err().unwrap().starts_with("读取 osz 失败："));
    let empty = osz(&[]);
    assert_eq!(beatmap_md5s_from_osz(empty, None), Ok(Vec::new()));
}

fn file(name: &str, content: Result<&[u8], &str>) -> OszEntry {
    OszEntry::File { name: name.to_string(), content: content.map(|c| c.to_vec()).map_err(|e| e.to_string()) }
}

#[test]
fn hashes_of_read_entries() {
    let entries = vec![
        file("cover.jpg", Err("unread")),
        file("x/A.Osu", Ok(MAP_A)),
        file("b.osu", Ok(MAP_B)),
        file("again.osu", Ok(MAP_B)),
    ];
    let mut expected = vec![md5_hex(MAP_A), md5_hex(MAP_B)];
    expected.sort();
    assert_eq!(hashes_of_entries(&entries, &None), Ok(expected));
    assert_eq!(hashes_of_entries(&entries, &Some(vec![101])), Ok(vec![md5_hex(MAP_A)]));
    assert_eq!(hashes_of_entries(&Vec::new(), &None), Ok(Vec::new()));
}

#[test]
fn first_failing_entry_gives_the_message() {
    let entries = vec![
        file("a.osu", Ok(MAP_A)),
        file("broken.osu", Err("invalid checksum")),
        OszEntry::Unopened("bad header".to_string()),
    ];
    assert_eq!(hashes_of_entries(&entries, &None), Err("读取 .osu 谱面失败：invalid checksum".to_string()));
    let entries = vec![OszEntry::Unopened("bad header".to_string()), file("broken.osu", Err("x"))];
    assert_eq!(hashes_of_entries(&entries, &None), Err("读取 osz 条目失败：bad header".to_string()));
}

fn task(id: &str, group: &str, status: &str, ids: Vec<u64>) -> DownloadTask {
    DownloadTask {
        id: id.to_string(),
        group_id: group.to_string(),
        group_name: "歌单：Fav · 2 首".to_string(),
        group_source: "歌单：Fav".to_string(),
        group_destination: "写入收藏夹：Fav".to_string(),
        beatmapset_id: 10,
        title: String::new(),
        artist: String::new(),
        include_video: true,
        download_mode: "video".to_string(),
        beatmap_id: None,
        url: String::new(),
        target_path: format!("/songs/{id}.osz"),
        temp_path: format!("/cache/{id}.part"),
        total_bytes: None,
        downloaded_bytes: 0,
        retry_generation: 0,
        collection_beatmap_ids: ids,
        status: status.to_string(),
        error: String::new(),
        created_at: String::new(),
        updated_at: String::new(),
    }
}

fn store(tasks: Vec<DownloadTask>) -> AppStore {
    let mut settings = Settings::default();
    settings.stable_osu_dir = "/osu".to_string();
    settings.collection_name = " ".to_string();
    AppStore {
        settings,
        local_beatmapsets: Vec::new(),
        tasks,
        task_groups: vec![DownloadGroupProgress {
            id: "g".to_string(),
            name: String::new(),
            source: String::new(),
            destination: String::new(),
            total_tasks: 2,
            completed_tasks: 0,
            completed_bytes: 0,
            created_at: String::new(),
            updated_at: String::new(),
        }],
    }
}

#[test]
fn finalize_waits_for_whole_group() {
    let s = store(vec![task("a", "g", "staged", vec![]), task("b", "g", "downloading", vec![]), task("c", "h", "queued", vec![])]);
    assert!(plan_finalize(&s, "g", false).unwrap().is_none());
    assert!(plan_finalize(&s, "missing", true).unwrap().is_none());
    let plan = plan_finalize(&s, "g", true).unwrap().unwrap();
    assert_eq!(plan.staged.len(), 1);
    assert_eq!(plan.staged[0].id, "a");
    assert_eq!(plan.leftover_temp_paths, vec!["/cache/b.part".to_string()]);
    assert_eq!(plan.collection_name, "Seekman Downloads");
    assert_eq!(plan.stable_osu_dir, "/osu");
}

#[test]
fn finalize_complete_group() {
    let s = store(vec![task("a", "g", "staged", vec![]), task("b", "g", "staged", vec![])]);
    let plan = plan_finalize(&s, "g", false).unwrap().unwrap();
    assert_eq!(plan.staged.len(), 2);
    assert!(plan.leftover_temp_paths.is_empty());
}

#[test]
fn finalize_errors() {
    let s = store(vec![task("a", "g", "queued", vec![])]);
    assert_eq!(plan_finalize(&s, "g", true).err().unwrap(), "这个任务还没有已缓存完成的歌曲，无法强制结束。");
    let mut s = store(vec![task("a", "g", "staged", vec![])]);
    s.settings.stable_osu_dir = "  ".to_string();
    assert_eq!(plan_finalize(&s, "g", false).err().unwrap(), "请先选择 osu!stable 根目录。");
}

#[test]
fn commit_removes_group_and_records_locals() {
    let mut s = store(vec![task("a", "g", "staged", vec![]), task("c", "h", "queued", vec![]), task("b", "g", "failed", vec![])]);
    let staged = vec![task("a", "g", "staged", vec![])];
    commit_finalized_group(&mut s, "g", &staged);
    assert_eq!(s.tasks.len(), 1);
    assert_eq!(s.tasks[0].id, "c");
    assert!(s.task_groups.is_empty());
    assert_eq!(s.local_beatmapsets.len(), 1);
    assert_eq!(s.local_beatmapsets[0].folder_path, "/songs/a.osz");
    assert_eq!(s.local_beatmapsets[0].detected_from, "download");
}

#[test]
fn group_hashes_sorted_once() {
    let per_task = vec![vec!["b".to_string(), "a".to_string()], vec![], vec!["a".to_string(), "c".to_string()]];
    assert_eq!(group_hashes(&per_task), Ok(vec!["a".to_string(), "b".to_string(), "c".to_string()]));
    assert_eq!(group_hashes(&vec![vec![]]), Err("歌单任务没有可写入收藏夹的子难度。".to_string()));
}

#[test]
fn collection_filters_and_targets() {
    assert_eq!(collection_filter(&task("a", "g", "staged", vec![])), None);
    assert_eq!(collection_filter(&task("a", "g", "staged", vec![3, 1])), Some(vec![3, 1]));
    let mut settings = Settings::default();
    let t = task("a", "g", "staged", vec![]);
    assert_eq!(collection_target(&settings, &t), Ok(None));
    settings.collection_auto_add = true;
    assert_eq!(collection_target(&settings, &t), Err("请先在实验性功能中选择 osu!stable 根目录。".to_string()));
    settings.stable_osu_dir = "/osu".to_string();
    assert_eq!(collection_target(&settings, &t), Ok(Some("Seekman Downloads".to_string())));
    let mut osu = task("a", "g", "staged", vec![]);
    osu.download_mode = "osu".to_string();
    assert_eq!(collection_target(&settings, &osu), Ok(None));
    assert_eq!(require_hashes(vec!["x".to_string()]), Ok(vec!["x".to_string()]));
    assert_eq!(require_hashes(Vec::new()), Err("下载文件中没有找到可写入收藏夹的 .osu 谱面文件。".to_string()));
}
