use seekman::items::{dedupe_by_id, group_source_from_items, mark_existing_items, BeatmapsetItem};
use seekman::settings::Settings;
use seekman::store::{AppStore, LocalBeatmapset};

fn item(id: u64, source: &str) -> BeatmapsetItem {
    BeatmapsetItem {
        id,
        title: format!("title {id}"),
        artist: "artist".to_string(),
        creator: "mapper".to_string(),
        ranked_date: String::new(),
        status: "ranked".to_string(),
        modes: vec!["osu".to_string()],
        min_length: None,
        max_length: None,
        key_counts: Vec::new(),
        beatmap_ids: Vec::new(),
        collection_beatmap_ids: Vec::new(),
        source_collection: source.to_string(),
        playcount: 0,
        favourite_count: 0,
        exists_local: None,
    }
}

#[test]
fn group_source_names() {
    assert_eq!(group_source_from_items(&vec![item(1, ""), item(2, "  ")]), "搜索结果");
    assert_eq!(group_source_from_items(&vec![item(1, " Fav "), item(2, "Fav"), item(3, "")]), "歌单：Fav");
    assert_eq!(group_source_from_items(&vec![item(1, "A"), item(2, "B")]), "多个歌单导入");
    assert_eq!(group_source_from_items(&Vec::new()), "搜索结果");
}

#[test]
fn existing_items_follow_local_source() {
    let mut store = AppStore {
        settings: Settings::default(),
        local_beatmapsets: vec![
            LocalBeatmapset { beatmapset_id: 1, folder_path: String::new(), detected_from: "folder".to_string(), scanned_at: String::new() },
            LocalBeatmapset { beatmapset_id: 2, folder_path: String::new(), detected_from: "lazer".to_string(), scanned_at: String::new() },
        ],
        tasks: Vec::new(),
        task_groups: Vec::new(),
    };
    let mut items = vec![item(1, ""), item(2, ""), item(3, "")];
    mark_existing_items(&mut items, &store);
    let flags: Vec<Option<bool>> = items.iter().map(|i| i.exists_local).collect();
    assert_eq!(flags, vec![Some(true), Some(false), Some(false)]);
    store.settings.local_source = "lazer".to_string();
    mark_existing_items(&mut items, &store);
    let flags: Vec<Option<bool>> = items.iter().map(|i| i.exists_local).collect();
    assert_eq!(flags, vec![Some(false), Some(true), Some(false)]);
}

#[test]
fn dedupe_keeps_first_of_each_id() {
    let items = vec![item(5, "a"), item(3, "b"), item(5, "c"), item(3, "d"), item(9, "e")];
    let out = dedupe_by_id(items);
    let pairs: Vec<(u64, &str)> = out.iter().map(|i| (i.id, i.source_collection.as_str())).collect();
    assert_eq!(pairs, vec![(5, "a"), (3, "b"), (9, "e")]);
}
