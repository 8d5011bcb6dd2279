use seekman::links::checked_external_url;
use seekman::csv::{csv_cell, parse_csv_line};
use seekman::osu_file::{
    beatmap_id_from_osu_bytes, beatmapset_id_from_osu_bytes, lazer_file_beatmapset_id, leading_number,
    positive_id_in_lines, sanitize_file_name, LAZER_MAX_BEATMAP_BYTES,
};
use seekman::paths::{classify_songs_entry, has_osz_extension, should_migrate_android_songs_dir, SongsEntry};

#[test]
fn csv_cells_are_quoted_when_needed() {
    assert_eq!(csv_cell("plain"), "plain");
    assert_eq!(csv_cell("a,b"), "\"a,b\"");
    assert_eq!(csv_cell("say \"hi\""), "\"say \"\"hi\"\"\"");
    assert_eq!(csv_cell("line\nbreak"), "\"line\nbreak\"");
    assert_eq!(csv_cell(""), "");
}

#[test]
fn csv_line_parsing() {
    assert_eq!(parse_csv_line("a,b,,c"), vec!["a", "b", "", "c"]);
    assert_eq!(parse_csv_line("\"a,b\",\"x\"\"y\""), vec!["a,b", "x\"y"]);
    assert_eq!(parse_csv_line(""), vec![""]);
    assert_eq!(parse_csv_line("ab\"c"), vec!["abc"]);
}

#[test]
fn csv_roundtrip() {
    let cells = ["", "a", "a,b", "q\"uote", "x\"\",\"y", "multi\nline", "中文,歌单"];
    let line: Vec<String> = cells.iter().map(|c| csv_cell(c)).collect();
    let parsed = parse_csv_line(&line.join(","));
    assert_eq!(parsed, cells.iter().map(|c| c.to_string()).collect::<Vec<_>>());
}

#[test]
fn beatmapset_id_from_bytes() {
    let text = b"osu file format v14\r\n[Metadata]\r\nBeatmapSetID:  1234 \r\n";
    assert_eq!(beatmapset_id_from_osu_bytes(text), Some(1234));
    assert_eq!(beatmapset_id_from_osu_bytes(b"BeatmapSetID:0\n"), None);
    assert_eq!(beatmapset_id_from_osu_bytes(b"BeatmapSetID:-1\nBeatmapSetID:5\n"), None);
    assert_eq!(beatmapset_id_from_osu_bytes(b"Title:x\n"), None);
    assert_eq!(beatmapset_id_from_osu_bytes(b" BeatmapSetID:5\n"), None);
    assert_eq!(beatmapset_id_from_osu_bytes(b"BeatmapSetID:77abc"), Some(77));
}

#[test]
fn beatmap_id_from_bytes() {
    let text = b"osu file format v14\n\nBeatmapID:0\nBeatmapID: 4321 \nBeatmapID:99\n";
    assert_eq!(beatmap_id_from_osu_bytes(text), Some(4321));
    assert_eq!(beatmap_id_from_osu_bytes(b"BeatmapID:12x\nBeatmapID:8\r\n"), Some(8));
    assert_eq!(beatmap_id_from_osu_bytes(b"Title:\xff\xfe\nBeatmapID:31\n"), Some(31));
    assert_eq!(beatmap_id_from_osu_bytes(b""), None);
}

#[test]
fn positive_ids_in_text_lines() {
    assert_eq!(positive_id_in_lines("a\nBeatmapSetID: 15\n", "BeatmapSetID:"), Some(15));
    assert_eq!(positive_id_in_lines("BeatmapSetID:0\nBeatmapSetID:3", "BeatmapSetID:"), Some(3));
    assert_eq!(positive_id_in_lines("BeatmapSetID:-", "BeatmapSetID:"), None);
}

#[test]
fn lazer_files() {
    let head = b"osu file format v14\nBeatmapSetID:42\n";
    assert_eq!(lazer_file_beatmapset_id(100, head), Some(42));
    assert_eq!(lazer_file_beatmapset_id(0, head), None);
    assert_eq!(lazer_file_beatmapset_id(LAZER_MAX_BEATMAP_BYTES, head), Some(42));
    assert_eq!(lazer_file_beatmapset_id(LAZER_MAX_BEATMAP_BYTES + 1, head), None);
    assert_eq!(lazer_file_beatmapset_id(100, b"PNG\nBeatmapSetID:42\n"), None);
    assert_eq!(lazer_file_beatmapset_id(100, b"osu file format v14\nTitle:x\n"), None);
    assert_eq!(LAZER_MAX_BEATMAP_BYTES, 768 * 1024);
}

#[test]
fn leading_numbers() {
    assert_eq!(leading_number("123 Artist - Title"), Some(123));
    assert_eq!(leading_number("0 nothing"), None);
    assert_eq!(leading_number("Artist 123"), None);
    assert_eq!(leading_number("99999999999999999999999 big"), None);
    assert_eq!(leading_number("7"), Some(7));
}

#[test]
fn sanitize_names() {
    assert_eq!(sanitize_file_name("a<b>c:d\"e/f\\g|h?i*j"), "a_b_c_d_e_f_g_h_i_j");
    assert_eq!(sanitize_file_name("tab\there"), "tab_here");
    let long: String = "x".repeat(200);
    assert_eq!(sanitize_file_name(&long).chars().count(), 180);
    assert_eq!(sanitize_file_name("歌曲 ok"), "歌曲 ok");
}

#[test]
fn sanitized_names_are_safe() {
    for name in ["a/b", "??", "\u{7}bell", "normal name", "c:\\x"] {
        let s = sanitize_file_name(name);
        assert!(!s.chars().any(|c| "<>:\"/\\|?*".contains(c) || c.is_control()));
        assert_eq!(s.chars().count(), name.chars().count().min(180));
    }
}

#[test]
fn osz_extension() {
    assert!(has_osz_extension("1 a.osz"));
    assert!(has_osz_extension("1 a.OSZ"));
    assert!(!has_osz_extension("1 a.osz.part"));
    assert!(!has_osz_extension("osz"));
}

#[test]
fn songs_entries() {
    assert!(matches!(classify_songs_entry("123 A - B.osz", true, false), SongsEntry::Found(123, "osz-file")));
    assert!(matches!(classify_songs_entry("A - B.osz", true, false), SongsEntry::Skip));
    assert!(matches!(classify_songs_entry("123 notes.txt", true, false), SongsEntry::Skip));
    assert!(matches!(classify_songs_entry("456 A - B", false, true), SongsEntry::Found(456, "folder")));
    assert!(matches!(classify_songs_entry("A - B", false, true), SongsEntry::ScanFolder));
    assert!(matches!(classify_songs_entry("789", false, false), SongsEntry::Skip));
}

#[test]
fn android_songs_dir_migration() {
    assert!(should_migrate_android_songs_dir(""));
    assert!(should_migrate_android_songs_dir("/data/user/0/x/files/Songs"));
    assert!(!should_migrate_android_songs_dir(
        "/storage/emulated/0/Android/data/com.linnzero00.osubeatmapseekman/files/Songs"
    ));
    assert!(!should_migrate_android_songs_dir(
        "\\storage\\emulated\\0\\Android\\data\\com.linnzero00.osubeatmapseekman\\files\\Songs"
    ));
    assert!(should_migrate_android_songs_dir("/sdcard/osu/Songs"));
}

#[test]
fn external_links() {
    assert_eq!(checked_external_url("  https://osu.ppy.sh/b/1 "), Ok("https://osu.ppy.sh/b/1".to_string()));
    assert_eq!(checked_external_url("http://example.com"), Ok("http://example.com".to_string()));
    assert_eq!(checked_external_url("file:///etc/passwd"), Err("只允许打开 http/https 链接。".to_string()));
    assert_eq!(checked_external_url("HTTPS://x"), Err("只允许打开 http/https 链接。".to_string()));
}
