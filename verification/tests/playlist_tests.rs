use seekman::collection::{StableCollection, StableCollectionList};
use seekman::export::{collection_summaries, copy_beatmap, export_csv_line, export_file_name, export_header, export_rows, ExportNumbers};
use seekman::items::BeatmapsetItem;
use seekman::osu_db::{DifficultyStat, StableBeatmapInfo};
use seekman::playlist::{
    apply_local_playlist_items, group_playlist_rows, import_seekman_playlist, lines_of, merge_max_u64, merge_min_u64,
    playlist_columns, playlist_row, positive_i32_to_u64, sort_grouped, stable_beatmaps_to_items, PlaylistRow,
};
use seekman::csv::parse_csv_line;
use seekman::settings::Settings;
use seekman::store::{AppStore, LocalBeatmapset};

fn beatmap(set: u64, id: u64, artist: &str, title: &str, md5: &str, mode: &str, drain: i32, total: i32) -> StableBeatmapInfo {
    StableBeatmapInfo {
        beatmapset_id: set,
        beatmap_id: id,
        artist: artist.to_string(),
        title: title.to_string(),
        creator: "mapper".to_string(),
        version: "Hard".to_string(),
        mode: mode.to_string(),
        md5: md5.to_string(),
        artist_unicode: String::new(),
        title_unicode: String::new(),
        audio_file_name: "audio.mp3".to_string(),
        osu_file_name: "x.osu".to_string(),
        ranked_status: 4,
        hitcircles: 10,
        sliders: -1,
        spinners: 0,
        last_modification_time: 99,
        ar: DifficultyStat::Whole(9),
        cs: DifficultyStat::Whole(4),
        hp: DifficultyStat::Whole(5),
        od: DifficultyStat::Whole(8),
        slider_velocity: 0,
        drain_time: drain,
        total_time: total,
        preview_time: -1,
        bpm: None,
        source: "src, with comma".to_string(),
        tags: "t".to_string(),
        folder_name: "folder".to_string(),
    }
}

fn row(set: u64, id: u64, artist: &str, title: &str, mode: &str, min: Option<u64>, max: Option<u64>) -> PlaylistRow {
    PlaylistRow {
        beatmapset_id: set,
        beatmap_id: id,
        title: title.to_string(),
        artist: artist.to_string(),
        creator: "c".to_string(),
        mode: mode.to_string(),
        source_collection: "Fav".to_string(),
        exists_local: false,
        min_length: min,
        max_length: max,
    }
}

fn empty_store() -> AppStore {
    AppStore { settings: Settings::default(), local_beatmapsets: Vec::new(), tasks: Vec::new(), task_groups: Vec::new() }
}

#[test]
fn positive_times_and_merges() {
    assert_eq!(positive_i32_to_u64(5), Some(5));
    assert_eq!(positive_i32_to_u64(0), None);
    assert_eq!(positive_i32_to_u64(-3), None);
    let mut lo = None;
    merge_min_u64(&mut lo, Some(9));
    merge_min_u64(&mut lo, None);
    merge_min_u64(&mut lo, Some(4));
    merge_min_u64(&mut lo, Some(6));
    assert_eq!(lo, Some(4));
    let mut hi = None;
    merge_max_u64(&mut hi, None);
    assert_eq!(hi, None);
    merge_max_u64(&mut hi, Some(4));
    merge_max_u64(&mut hi, Some(9));
    merge_max_u64(&mut hi, Some(6));
    assert_eq!(hi, Some(9));
}

#[test]
fn grouping_rows_by_beatmapset() {
    let rows = vec![
        row(1, 12, "A", "One", "osu", Some(30), Some(40)),
        row(2, 20, "B", "Two", "taiko", None, None),
        row(1, 11, "A2", "One2", "mania", Some(10), Some(90)),
        row(1, 12, "A", "One", "osu", None, None),
    ];
    let g = group_playlist_rows(&rows, true);
    assert_eq!(g.len(), 2);
    assert_eq!(g[0].item.id, 1);
    assert_eq!(g[0].item.artist, "A");
    assert_eq!(g[0].item.status, "playlist");
    assert_eq!(g[0].item.modes, vec!["osu".to_string(), "mania".to_string()]);
    assert_eq!(g[0].item.beatmap_ids, vec![11, 12]);
    assert_eq!(g[0].item.collection_beatmap_ids, vec![11, 12]);
    assert_eq!(g[0].item.min_length, Some(10));
    assert_eq!(g[0].item.max_length, Some(90));
    assert_eq!(g[0].item.exists_local, Some(false));
    assert_eq!(g[0].rows, vec![0, 2, 3]);
    assert_eq!(g[1].rows, vec![1]);
    let unsorted = group_playlist_rows(&rows, false);
    assert_eq!(unsorted[0].item.beatmap_ids, vec![12, 11]);
}

#[test]
fn sorting_grouped_items() {
    let rows = vec![
        row(1, 1, "B", "x", "osu", None, None),
        row(2, 2, "A", "z", "osu", None, None),
        row(3, 3, "A", "y", "osu", None, None),
    ];
    let sorted = sort_grouped(group_playlist_rows(&rows, true));
    let ids: Vec<u64> = sorted.iter().map(|g| g.item.id).collect();
    assert_eq!(ids, vec![3, 2, 1]);
}

#[test]
fn stable_beatmaps_grouping() {
    let beatmaps = vec![
        beatmap(7, 71, "Zed", "Song", "h1", "", 0, 120),
        beatmap(0, 5, "Skip", "Me", "h2", "osu", 1, 1),
        beatmap(3, 31, "Amy", "Tune", "h3", "mania", 60, 70),
        beatmap(7, 70, "Zed", "Song", "h4", "taiko", 50, 0),
    ];
    let s = stable_beatmaps_to_items(&beatmaps, true, "Fav");
    assert_eq!(s.sources, vec![0, 2, 3]);
    assert_eq!(s.items.len(), 2);
    let a = &s.items[0].item;
    assert_eq!(a.id, 3);
    assert_eq!(a.modes, vec!["mania".to_string()]);
    assert_eq!(a.source_collection, "Fav");
    assert_eq!(a.exists_local, Some(true));
    let z = &s.items[1].item;
    assert_eq!(z.id, 7);
    assert_eq!(z.modes, vec!["osu".to_string(), "taiko".to_string()]);
    assert_eq!(z.beatmap_ids, vec![70, 71]);
    assert_eq!(z.min_length, Some(50));
    assert_eq!(z.max_length, Some(120));
    let rows_to_beatmaps: Vec<usize> = s.items[1].rows.iter().map(|r| s.sources[*r]).collect();
    assert_eq!(rows_to_beatmaps, vec![0, 3]);
}

fn header() -> Vec<String> {
    parse_csv_line(&export_header())
}

#[test]
fn playlist_columns_found_or_named() {
    let cols = playlist_columns(&header()).unwrap();
    assert_eq!(cols, vec![0, 3, 4, 5, 7, 9, 11, 2, 20, 21, 22, 23, 28, 25, 26]);
    let mut h = header();
    h.retain(|c| c != "seekman_export_version");
    assert_eq!(playlist_columns(&h).err().unwrap(), "歌单格式过旧：请导入新版 Seekman 导出的 CSV。");
    let mut h = header();
    h.retain(|c| c != "mode");
    assert_eq!(playlist_columns(&h).err().unwrap(), "歌单缺少 mode 列。");
}

#[test]
fn playlist_rows_with_defaults() {
    let cols = playlist_columns(&header()).unwrap();
    let mut cells = vec![String::new(); 32];
    cells[0] = "2".to_string();
    cells[3] = "55".to_string();
    cells[4] = "551".to_string();
    cells[25] = "-4".to_string();
    cells[26] = "200".to_string();
    let mut store = empty_store();
    store.local_beatmapsets.push(LocalBeatmapset {
        beatmapset_id: 55,
        folder_path: String::new(),
        detected_from: "lazer".to_string(),
        scanned_at: String::new(),
    });
    let r = playlist_row(&cells, &cols, &store).unwrap();
    assert_eq!(r.artist, "Imported");
    assert_eq!(r.title, "Beatmapset #55");
    assert_eq!(r.creator, "歌单导入");
    assert_eq!(r.mode, "osu");
    assert_eq!(r.source_collection, "导入歌单");
    assert!(r.exists_local);
    assert_eq!(r.min_length, Some(200));
    assert_eq!(r.max_length, Some(200));
    cells[2] = "Fav".to_string();
    let r = playlist_row(&cells, &cols, &empty_store()).unwrap();
    assert_eq!(r.creator, "歌单：Fav");
    assert!(!r.exists_local);
    cells[4] = "0".to_string();
    assert!(playlist_row(&cells, &cols, &store).is_none());
    cells[4] = "551".to_string();
    cells[0] = " ".to_string();
    assert!(playlist_row(&cells, &cols, &store).is_none());
    let short = vec!["2".to_string()];
    assert!(playlist_row(&short, &cols, &store).is_none());
}

#[test]
fn text_lines() {
    let lines = lines_of("a\r\nb\n\nc");
    let lines: Vec<String> = lines.iter().map(|l| l.iter().collect()).collect();
    assert_eq!(lines, vec!["a", "b", "", "c"]);
    assert!(lines_of("").is_empty());
    assert_eq!(lines_of("x\n").len(), 1);
}

fn numbers() -> ExportNumbers {
    ExportNumbers {
        ar: "9.00".to_string(),
        cs: "4.00".to_string(),
        hp: "5.00".to_string(),
        od: "8.00".to_string(),
        slider_velocity: "1.4000".to_string(),
        bpm: String::new(),
    }
}

#[test]
fn export_then_import_roundtrip() {
    let beatmaps = vec![
        beatmap(9, 91, "Beta", "Song, Two", "aa", "osu", 80, 100),
        beatmap(8, 81, "Alpha", "First", "bb", "mania", 0, 60),
        beatmap(9, 92, "Beta", "Song, Two", "cc", "taiko", 70, 90),
    ];
    let mut text = export_header().to_string();
    text.push('\n');
    for b in &beatmaps {
        text.push_str(&export_csv_line(b, "2024-01-01T00:00:00Z", "My \"Fav\"", &numbers()));
        text.push('\n');
    }
    text.push_str("   \n");
    let imported = import_seekman_playlist(&text, &empty_store()).ok().unwrap();
    assert_eq!(imported.columns.len(), 15);
    assert_eq!(imported.items.len(), 2);
    let a = &imported.items[0].item;
    assert_eq!(a.id, 8);
    assert_eq!(a.artist, "Alpha");
    assert_eq!(a.source_collection, "My \"Fav\"");
    assert_eq!(a.modes, vec!["mania".to_string()]);
    assert_eq!(a.min_length, Some(60));
    let b = &imported.items[1].item;
    assert_eq!(b.id, 9);
    assert_eq!(b.title, "Song, Two");
    assert_eq!(b.beatmap_ids, vec![91, 92]);
    assert_eq!(b.min_length, Some(70));
    assert_eq!(b.max_length, Some(100));
    assert_eq!(imported.items[1].rows.len(), 2);
    let cells = &imported.cells[imported.items[1].rows[0]];
    assert_eq!(cells[20], "9.00");
}

#[test]
fn import_edge_cases() {
    let r = import_seekman_playlist("", &empty_store()).ok().unwrap();
    assert!(r.items.is_empty());
    let r = import_seekman_playlist("beatmapset_id,beatmap_id\n1,2\n", &empty_store());
    assert_eq!(r.err().unwrap(), "歌单格式过旧：请导入新版 Seekman 导出的 CSV。");
}

#[test]
fn export_line_layout() {
    let b = beatmap(9, 91, "Beta", "Song, Two", "aa", "osu", 80, 100);
    let line = export_csv_line(&b, "now", "Fav", &numbers());
    assert_eq!(
        line,
        "2,now,Fav,9,91,Beta,,\"Song, Two\",,mapper,Hard,osu,aa,folder,x.osu,audio.mp3,4,10,-1,0,9.00,4.00,5.00,8.00,1.4000,80,100,-1,,\"src, with comma\",t,99"
    );
    assert_eq!(parse_csv_line(&line).len(), header().len());
    assert_eq!(header().len(), 32);
    assert!(export_header().starts_with("seekman_export_version,exported_at,source_collection,"));
}

#[test]
fn export_rows_follow_collection_order() {
    let beatmaps = vec![
        beatmap(1, 11, "A", "a", "AA", "osu", 1, 1),
        beatmap(2, 21, "B", "b", "bb", "osu", 1, 1),
        beatmap(0, 31, "C", "c", "cc", "osu", 1, 1),
        beatmap(4, 41, "D", "d", "aa", "osu", 1, 1),
    ];
    let collection = StableCollection {
        version: 1,
        lists: vec![StableCollectionList {
            name: "Fav".to_string(),
            hashes: vec!["bb".to_string(), "aa".to_string(), "cc".to_string(), "zz".to_string()],
        }],
    };
    assert_eq!(export_rows(&collection, "Fav", &beatmaps, None).unwrap(), vec![1, 3]);
    assert_eq!(export_rows(&collection, "Fav", &beatmaps, Some(vec![0, 41])).unwrap(), vec![3]);
    assert_eq!(export_rows(&collection, "Fav", &beatmaps, Some(vec![0])).unwrap(), vec![1, 3]);
    assert_eq!(export_rows(&collection, "Nope", &beatmaps, None).err().unwrap(), "没有找到收藏夹：Nope");
}

#[test]
fn export_file_names() {
    let name = export_file_name("a/b");
    assert!(name.starts_with("a_b-") && name.ends_with(".csv"));
    assert_eq!(name.len(), "a_b-".len() + 14 + 4);
    let name = export_file_name("   ");
    assert!(name.starts_with("playlist-"));
}

#[test]
fn collection_summary_lists() {
    let beatmaps = vec![beatmap(1, 11, "A", "a", "aa", "osu", 1, 1), beatmap(2, 21, "B", "b", "bb", "osu", 1, 1)];
    let collection = StableCollection {
        version: 1,
        lists: vec![
            StableCollectionList { name: "One".to_string(), hashes: vec!["bb".to_string(), "zz".to_string()] },
            StableCollectionList { name: "Two".to_string(), hashes: Vec::new() },
        ],
    };
    let s = collection_summaries(&collection, &beatmaps);
    assert_eq!(s.len(), 2);
    assert_eq!(s[0].name, "One");
    assert_eq!(s[0].beatmap_count, 2);
    assert_eq!(s[0].beatmaps.len(), 1);
    assert_eq!(s[0].beatmaps[0].beatmap_id, 21);
    assert_eq!(s[0].items.items.len(), 1);
    assert_eq!(s[0].items.items[0].item.source_collection, "One");
    assert_eq!(s[0].items.items[0].item.exists_local, Some(true));
    assert_eq!(s[1].beatmap_count, 0);
    assert!(s[1].beatmaps.is_empty());
    let c = copy_beatmap(&beatmaps[0]);
    assert_eq!(c.md5, "aa");
}

fn wanted(id: u64, beatmaps: Vec<u64>, collection: Vec<u64>) -> BeatmapsetItem {
    BeatmapsetItem {
        id,
        title: String::new(),
        artist: String::new(),
        creator: String::new(),
        ranked_date: String::new(),
        status: "playlist".to_string(),
        modes: Vec::new(),
        min_length: None,
        max_length: None,
        key_counts: Vec::new(),
        beatmap_ids: beatmaps,
        collection_beatmap_ids: collection,
        source_collection: String::new(),
        playcount: 0,
        favourite_count: 0,
        exists_local: None,
    }
}

#[test]
fn applying_local_playlist_items() {
    let beatmaps = vec![
        beatmap(1, 11, "A", "a", "h11", "osu", 1, 1),
        beatmap(1, 12, "A", "a", "h12", "osu", 1, 1),
        beatmap(2, 21, "B", "b", " ", "osu", 1, 1),
        beatmap(3, 31, "C", "c", "h11", "osu", 1, 1),
    ];
    let items = vec![
        wanted(1, vec![11, 12, 13], vec![]),
        wanted(2, vec![21], vec![]),
        wanted(3, vec![99], vec![31, 0]),
        wanted(4, vec![], vec![0]),
    ];
    let plan = apply_local_playlist_items(&beatmaps, &items);
    assert_eq!(plan.hashes, vec!["h11".to_string(), "h12".to_string()]);
    assert_eq!(plan.applied_count, 3);
    assert_eq!(plan.applied_beatmapset_count, 2);
    assert_eq!(plan.missing.len(), 3);
    assert_eq!(plan.missing[0].index, 0);
    assert_eq!(plan.missing[0].beatmap_ids, Some(vec![13]));
    assert_eq!(plan.missing[1].index, 1);
    assert_eq!(plan.missing[1].beatmap_ids, Some(vec![21]));
    assert_eq!(plan.missing[2].index, 3);
    assert_eq!(plan.missing[2].beatmap_ids, None);
}

#[test]
fn export_header_text() {
    assert_eq!(
        export_header(),
        "seekman_export_version,exported_at,source_collection,beatmapset_id,beatmap_id,artist,artist_unicode,title,title_unicode,creator,version,mode,md5,folder_name,osu_file_name,audio_file_name,ranked_status,hitcircles,sliders,spinners,ar,cs,hp,od,slider_velocity,drain_time,total_time,preview_time,bpm,source,tags,last_modification_time\n"
    );
}

#[test]
fn exported_row_reads_back_as_listed_row() {
    let b = beatmap(12, 120, "Artist", "Title, with comma", "hash", "mania", -5, 250);
    let mut text = export_header();
    text.push_str(&export_csv_line(&b, "t", "List", &numbers()));
    let imported = import_seekman_playlist(&text, &empty_store()).ok().unwrap();
    let listed = stable_beatmaps_to_items(&vec![b], false, "List");
    assert_eq!(imported.items.len(), 1);
    let (a, l) = (&imported.items[0].item, &listed.items[0].item);
    assert_eq!((a.id, &a.title, &a.artist, &a.creator), (l.id, &l.title, &l.artist, &l.creator));
    assert_eq!((&a.modes, a.min_length, a.max_length), (&l.modes, l.min_length, l.max_length));
    assert_eq!((&a.source_collection, a.exists_local), (&l.source_collection, l.exists_local));
    assert_eq!(a.beatmap_ids, l.beatmap_ids);
}
