use seekman::alpha::{
    alpha_beatmap_id, alpha_beatmapset_id, alpha_data_check, alpha_map_item, alpha_mode_value, alpha_query,
    alpha_take_page, last_number_in_url, split_alpha_map_name, AlphaMap,
};
use seekman::items::BeatmapsetItem;
use seekman::sorting::{order_by_number, order_by_text};
use seekman::search::{
    api_sort, build_search_query, map_beatmapset, matches_plain_filters, max_pages, mode_query_value,
    normalize_search_status, parse_u64, parse_u8, result_order, sorted_strings, ApiBeatmap, ApiBeatmapset,
    Filters, ResultOrder,
};

fn filters() -> Filters {
    Filters {
        query: None,
        status: None,
        date_from: None,
        date_to: None,
        min_stars: None,
        max_stars: None,
        min_od: None,
        max_od: None,
        min_hp: None,
        max_hp: None,
        min_cs: None,
        max_cs: None,
        min_ar: None,
        max_ar: None,
        min_bpm: None,
        max_bpm: None,
        min_length: None,
        max_length: None,
        mode: None,
        key_count: None,
        max_pages: None,
        sort_by: None,
        sort_dir: None,
    }
}

fn some(s: &str) -> Option<String> {
    Some(s.to_string())
}

#[test]
fn statuses_and_modes() {
    assert_eq!(normalize_search_status(Some("loved")), "loved");
    assert_eq!(normalize_search_status(Some("grave")), "graveyard");
    assert_eq!(normalize_search_status(Some("graveyard")), "graveyard");
    assert_eq!(normalize_search_status(Some("qualified")), "ranked");
    assert_eq!(normalize_search_status(None), "ranked");
    assert_eq!(mode_query_value("osu"), Some("0"));
    assert_eq!(mode_query_value("taiko"), Some("1"));
    assert_eq!(mode_query_value("fruits"), Some("2"));
    assert_eq!(mode_query_value("mania"), Some("3"));
    assert_eq!(mode_query_value("any"), None);
}

#[test]
fn sort_orders() {
    let mut f = filters();
    assert_eq!(api_sort(&f), "ranked_desc");
    f.sort_dir = some("asc");
    assert_eq!(api_sort(&f), "ranked_asc");
    f.sort_by = some("stars");
    assert_eq!(api_sort(&f), "difficulty_asc");
    f.sort_by = some("difficulty");
    f.sort_dir = some("desc");
    assert_eq!(api_sort(&f), "difficulty_desc");
    f.sort_by = some("relevance");
    assert_eq!(api_sort(&f), "relevance_desc");
    f.sort_by = some("time");
    assert_eq!(api_sort(&f), "ranked_desc");
    f.sort_by = some("length");
    f.sort_dir = some("asc");
    assert_eq!(api_sort(&f), "ranked_desc");
}

#[test]
fn number_parsing() {
    assert_eq!(parse_u64(Some(" 42 ")), Some(42));
    assert_eq!(parse_u64(Some("  ")), None);
    assert_eq!(parse_u64(Some("4x")), None);
    assert_eq!(parse_u64(None), None);
    assert_eq!(parse_u8(Some("7")), Some(7));
    assert_eq!(parse_u8(Some("any")), None);
    assert_eq!(parse_u8(Some("300")), None);
    assert_eq!(parse_u8(Some(" 4 ")), Some(4));
}

#[test]
fn page_counts() {
    let mut f = filters();
    assert_eq!(max_pages(&f), 10);
    f.max_pages = some("0");
    assert_eq!(max_pages(&f), 1);
    f.max_pages = some("99");
    assert_eq!(max_pages(&f), 50);
    f.max_pages = some("x");
    assert_eq!(max_pages(&f), 10);
    f.max_pages = some("25");
    assert_eq!(max_pages(&f), 25);
}

#[test]
fn sorted_unique_strings() {
    let v = vec!["mania".to_string(), "osu".to_string(), "mania".to_string(), "fruits".to_string()];
    assert_eq!(sorted_strings(v), vec!["fruits".to_string(), "mania".to_string(), "osu".to_string()]);
}

#[test]
fn search_query_terms() {
    let mut f = filters();
    assert_eq!(build_search_query(&f, &Vec::new()), "");
    f.query = some("  camellia ");
    f.date_from = some(" 2020-01-01 ");
    f.date_to = some("");
    f.mode = some("mania");
    f.key_count = some("7");
    let ranges = vec!["stars>=5.0".to_string(), "bpm<=200".to_string()];
    assert_eq!(build_search_query(&f, &ranges), "camellia ranked>=2020-01-01 stars>=5.0 bpm<=200 key=7");
    f.mode = some("osu");
    assert_eq!(build_search_query(&f, &Vec::new()), "camellia ranked>=2020-01-01");
}

fn item(modes: &[&str], date: &str, min: Option<u64>, max: Option<u64>, keys: Vec<u8>) -> BeatmapsetItem {
    BeatmapsetItem {
        id: 1,
        title: String::new(),
        artist: String::new(),
        creator: String::new(),
        ranked_date: date.to_string(),
        status: String::new(),
        modes: modes.iter().map(|m| m.to_string()).collect(),
        min_length: min,
        max_length: max,
        key_counts: keys,
        beatmap_ids: Vec::new(),
        collection_beatmap_ids: Vec::new(),
        source_collection: String::new(),
        playcount: 0,
        favourite_count: 0,
        exists_local: None,
    }
}

#[test]
fn plain_filters() {
    let mut f = filters();
    assert!(!matches_plain_filters(&item(&[], "", None, None, vec![]), &f));
    assert!(matches_plain_filters(&item(&["osu"], "", None, None, vec![]), &f));
    f.mode = some("taiko");
    assert!(!matches_plain_filters(&item(&["osu"], "", None, None, vec![]), &f));
    f.mode = some("any");
    assert!(matches_plain_filters(&item(&["osu"], "", None, None, vec![]), &f));
    f.date_from = some("2021-01-01");
    assert!(!matches_plain_filters(&item(&["osu"], "2020-05-05T00:00:00Z", None, None, vec![]), &f));
    assert!(matches_plain_filters(&item(&["osu"], "2021-01-01T00:00:00Z", None, None, vec![]), &f));
    assert!(matches_plain_filters(&item(&["osu"], "", None, None, vec![]), &f));
    f.date_to = some("2021-06-30");
    assert!(!matches_plain_filters(&item(&["osu"], "2022-01-01T00:00:00Z", None, None, vec![]), &f));
    let mut f = filters();
    f.min_length = some("100");
    f.max_length = some("200");
    assert!(!matches_plain_filters(&item(&["osu"], "", Some(50), Some(90), vec![]), &f));
    assert!(!matches_plain_filters(&item(&["osu"], "", Some(250), Some(300), vec![]), &f));
    assert!(matches_plain_filters(&item(&["osu"], "", Some(150), Some(300), vec![]), &f));
    assert!(matches_plain_filters(&item(&["osu"], "", None, None, vec![]), &f));
    let mut f = filters();
    f.mode = some("mania");
    f.key_count = some("4");
    assert!(matches_plain_filters(&item(&["mania"], "", None, None, vec![4, 7]), &f));
    assert!(!matches_plain_filters(&item(&["mania"], "", None, None, vec![7]), &f));
}

fn api_map(id: Option<u64>, mode: Option<&str>, keys: Option<u8>, length: Option<u64>) -> ApiBeatmap {
    ApiBeatmap { id, mode: mode.map(|m| m.to_string()), keys, length }
}

#[test]
fn mapping_search_results() {
    let set = ApiBeatmapset {
        id: Some(77),
        title: "T".to_string(),
        artist: "A".to_string(),
        creator: "C".to_string(),
        ranked_date: String::new(),
        approved_date: "2019-01-01".to_string(),
        status: "loved".to_string(),
        play_count: Some(10),
        favourite_count: None,
        beatmaps: vec![
            api_map(Some(1), Some("mania"), Some(4), Some(120)),
            api_map(Some(2), Some("osu"), None, Some(90)),
            api_map(None, Some("mania"), Some(7), Some(200)),
            api_map(Some(4), Some("mania"), Some(0), None),
        ],
    };
    let m = map_beatmapset(&set, &filters());
    assert_eq!(m.item.id, 77);
    assert_eq!(m.item.ranked_date, "2019-01-01");
    assert_eq!(m.item.status, "loved");
    assert_eq!(m.item.modes, vec!["mania".to_string(), "osu".to_string()]);
    assert_eq!(m.item.beatmap_ids, vec![1, 2, 4]);
    assert_eq!(m.item.min_length, Some(90));
    assert_eq!(m.item.max_length, Some(200));
    assert_eq!(m.item.key_counts, vec![4, 7]);
    assert_eq!(m.item.playcount, 10);
    assert_eq!(m.item.favourite_count, 0);
    assert_eq!(m.item.exists_local, Some(false));
    assert_eq!(m.matching, vec![0, 1, 2, 3]);

    let mut f = filters();
    f.mode = some("mania");
    f.key_count = some("7");
    let m = map_beatmapset(&set, &f);
    assert_eq!(m.matching, vec![2]);
    assert!(m.item.beatmap_ids.is_empty());
    assert_eq!(m.item.key_counts, vec![7]);
    assert_eq!(m.item.min_length, Some(200));
}

#[test]
fn alpha_helpers() {
    assert_eq!(split_alpha_map_name(" Artist  - Title - Remix "), ("Artist".to_string(), "Title - Remix".to_string()));
    assert_eq!(split_alpha_map_name(" Only title "), ("AlphaOsu!".to_string(), "Only title".to_string()));
    assert_eq!(alpha_mode_value(Some("std")), Some(0));
    assert_eq!(alpha_mode_value(Some("taiko")), Some(1));
    assert_eq!(alpha_mode_value(Some("ctb")), Some(2));
    assert_eq!(alpha_mode_value(Some("mania")), Some(3));
    assert_eq!(alpha_mode_value(Some("x")), None);
    assert_eq!(alpha_mode_value(None), None);
    assert_eq!(last_number_in_url("https://osu.ppy.sh/b/123//"), Some(123));
    assert_eq!(last_number_in_url("https://osu.ppy.sh/b/abc"), None);
    assert_eq!(alpha_beatmap_id(Some("456/extra"), Some("https://x/b/1")), Some(456));
    assert_eq!(alpha_beatmap_id(Some("x"), Some("https://x/b/9/")), Some(9));
    assert_eq!(alpha_beatmap_id(None, None), None);
    assert_eq!(alpha_beatmapset_id(Some("https://assets.ppy.sh/beatmaps/1234/covers/cover.jpg")), Some(1234));
    assert_eq!(alpha_beatmapset_id(Some("https://assets.ppy.sh/covers/1234.jpg")), None);
    assert_eq!(alpha_beatmapset_id(None), None);
}

#[test]
fn alpha_query_defaults() {
    let q = alpha_query(None, None, None, None, None);
    assert_eq!((q.mode, q.key_count, q.limit, q.page_size), (3, 4, 100, 100));
    let q = alpha_query(Some("osu"), Some("7"), Some("40"), Some(2), Some(6));
    assert_eq!((q.mode, q.key_count, q.limit, q.page_size), (0, 7, 40, 40));
    let q = alpha_query(None, Some("any"), Some("9999"), Some(1), Some(6));
    assert_eq!((q.mode, q.key_count, q.limit, q.page_size), (1, 6, 500, 100));
    let q = alpha_query(None, None, Some("0"), None, None);
    assert_eq!(q.limit, 1);
}

#[test]
fn alpha_answers() {
    assert_eq!(alpha_data_check(Some(false), Some("bad user".to_string()), true), Err("bad user".to_string()));
    assert_eq!(alpha_data_check(Some(false), None, true), Err("AlphaOsu request failed.".to_string()));
    assert_eq!(alpha_data_check(Some(true), None, false), Err("AlphaOsu response did not contain data.".to_string()));
    assert_eq!(alpha_data_check(None, None, true), Ok(()));
}

#[test]
fn alpha_items() {
    let m = AlphaMap {
        id: Some("321".to_string()),
        map_link: None,
        map_cover_url: Some("https://assets.ppy.sh/beatmaps/99/covers/list.jpg".to_string()),
        map_name: Some("Art - Song".to_string()),
        key_count: Some(7),
        length: Some(150),
        creator: "AlphaOsu! · 预测PP 1.0 · PP潜力 ? · 通过率 ?".to_string(),
    };
    let item = alpha_map_item(&m).unwrap();
    assert_eq!(item.id, 99);
    assert_eq!(item.artist, "Art");
    assert_eq!(item.title, "Song");
    assert_eq!(item.status, "alphaosu");
    assert_eq!(item.modes, vec!["mania".to_string()]);
    assert_eq!(item.key_counts, vec![7]);
    assert_eq!(item.beatmap_ids, vec![321]);
    assert_eq!(item.min_length, Some(150));
    assert_eq!(item.max_length, Some(150));
    assert_eq!(item.creator, m.creator);
    assert_eq!(item.exists_local, Some(false));

    let m2 = AlphaMap { map_cover_url: None, key_count: Some(0), map_name: None, ..m };
    let item = alpha_map_item(&m2).unwrap();
    assert_eq!(item.id, 321);
    assert_eq!(item.modes, vec!["osu".to_string()]);
    assert!(item.key_counts.is_empty());
    assert_eq!(item.artist, "AlphaOsu!");
    assert_eq!(item.title, "");

    let m3 = AlphaMap { id: None, map_link: None, ..m2 };
    assert!(alpha_map_item(&m3).is_none());
}

fn recommended(id: u64) -> Option<BeatmapsetItem> {
    alpha_map_item(&AlphaMap {
        id: Some(id.to_string()),
        map_link: None,
        map_cover_url: None,
        map_name: None,
        key_count: None,
        length: None,
        creator: String::new(),
    })
}

fn ids_of(items: &[BeatmapsetItem]) -> Vec<u64> {
    items.iter().map(|i| i.id).collect()
}

#[test]
fn alpha_pages_gather_until_limit() {
    let mut results = Vec::new();
    let page = vec![recommended(1), None, recommended(2), recommended(1), recommended(3), recommended(4)];
    assert_eq!(alpha_take_page(&mut results, page, 3, Some(2)), None);
    assert_eq!(ids_of(&results), vec![1, 2, 3]);

    let mut results = Vec::new();
    assert_eq!(alpha_take_page(&mut results, vec![recommended(1), recommended(1)], 5, Some(4)), Some(4));
    assert_eq!(ids_of(&results), vec![1]);
    assert_eq!(alpha_take_page(&mut results, vec![recommended(2)], 5, None), None);
    assert_eq!(alpha_take_page(&mut results, Vec::new(), 5, Some(9)), None);
    assert_eq!(ids_of(&results), vec![1, 2]);
    assert_eq!(alpha_take_page(&mut results, vec![recommended(3)], 5, Some(0)), None);
    assert_eq!(ids_of(&results), vec![1, 2, 3]);
}

#[test]
fn result_orders() {
    let mut f = filters();
    assert_eq!(result_order(&f), (ResultOrder::Time, false));
    f.sort_by = some("difficulty");
    f.sort_dir = some("asc");
    assert_eq!(result_order(&f), (ResultOrder::Stars, true));
    f.sort_by = some("length");
    assert_eq!(result_order(&f), (ResultOrder::Length, true));
    f.sort_by = some("bpm");
    f.sort_dir = some("desc");
    assert_eq!(result_order(&f), (ResultOrder::Bpm, false));
    f.sort_by = some("relevance");
    assert_eq!(result_order(&f), (ResultOrder::Relevance, false));
    f.sort_by = some("popularity");
    assert_eq!(result_order(&f), (ResultOrder::Time, false));
}

#[test]
fn number_order_is_stable_and_reverses_when_descending() {
    let keys: Vec<u64> = vec![300, 120, 300, 0, 120];
    assert_eq!(order_by_number(&keys, true), vec![3, 1, 4, 0, 2]);
    assert_eq!(order_by_number(&keys, false), vec![2, 0, 4, 1, 3]);
    assert_eq!(order_by_number(&Vec::new(), false), Vec::<usize>::new());
}

#[test]
fn text_order_follows_string_order() {
    let keys: Vec<String> = vec![
        "2021-05-01T00:00:00Z".to_string(),
        "".to_string(),
        "2019-12-31T23:59:59Z".to_string(),
        "2021-05-01T00:00:00Z".to_string(),
        "2021-05-01".to_string(),
    ];
    assert_eq!(order_by_text(&keys, true), vec![1, 2, 4, 0, 3]);
    assert_eq!(order_by_text(&keys, false), vec![3, 0, 4, 2, 1]);
    let mut sorted = keys.clone();
    sorted.sort();
    let arranged: Vec<String> = order_by_text(&keys, true).into_iter().map(|i| keys[i].clone()).collect();
    assert_eq!(arranged, sorted);
}
