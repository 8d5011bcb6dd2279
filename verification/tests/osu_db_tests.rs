use seekman::binary::{write_i32, write_osu_string, DbError, ReadPart};
use seekman::osu_db::{read_stable_osu_db, skip_star_rating_pairs, stable_mode_name, DifficultyStat, FLOAT_DIFFICULTY_VERSION};

fn s(out: &mut Vec<u8>, text: &str) {
    write_osu_string(out, text);
}

fn beatmap(out: &mut Vec<u8>, version: i32, set_id: i32, beatmap_id: i32, mode: u8, points: &[(f64, bool)]) {
    for text in ["Artist", "アーティスト", "Title", "タイトル", "Mapper", "Insane", "audio.mp3", "0123456789abcdef0123456789abcdef", "map.osu"] {
        s(out, text);
    }
    out.push(4);
    out.extend_from_slice(&100i16.to_le_bytes());
    out.extend_from_slice(&20i16.to_le_bytes());
    out.extend_from_slice(&1i16.to_le_bytes());
    out.extend_from_slice(&1234567i64.to_le_bytes());
    if version < FLOAT_DIFFICULTY_VERSION {
        out.extend_from_slice(&[9, 4, 6, 8]);
    } else {
        for v in [9.5f32, 4.0, 6.0, 8.0] {
            out.extend_from_slice(&v.to_le_bytes());
        }
    }
    out.extend_from_slice(&1.4f64.to_le_bytes());
    if version >= FLOAT_DIFFICULTY_VERSION {
        write_i32(out, 1);
        out.push(8);
        write_i32(out, 0);
        out.push(13);
        out.extend_from_slice(&5.25f64.to_le_bytes());
        for _ in 0..3 {
            write_i32(out, 0);
        }
    }
    write_i32(out, 90);
    write_i32(out, 95000);
    write_i32(out, 30000);
    write_i32(out, points.len() as i32);
    for (value, inherited) in points {
        out.extend_from_slice(&value.to_le_bytes());
        out.extend_from_slice(&0f64.to_le_bytes());
        out.push(if *inherited { 1 } else { 0 });
    }
    write_i32(out, beatmap_id);
    write_i32(out, set_id);
    write_i32(out, 0);
    out.extend_from_slice(&[0, 0, 0, 0]);
    out.extend_from_slice(&0i16.to_le_bytes());
    out.extend_from_slice(&0.7f32.to_le_bytes());
    out.push(mode);
    s(out, "source");
    s(out, "tag1 tag2");
    out.extend_from_slice(&0i16.to_le_bytes());
    s(out, "");
    out.push(1);
    out.extend_from_slice(&0i64.to_le_bytes());
    out.push(0);
    s(out, "123 Artist - Title");
    out.extend_from_slice(&0i64.to_le_bytes());
    out.extend_from_slice(&[0, 0, 0, 0, 0]);
    write_i32(out, 0);
    out.push(0);
}

fn database(version: i32, maps: &[(i32, i32, u8, Vec<(f64, bool)>)]) -> Vec<u8> {
    let mut out = Vec::new();
    write_i32(&mut out, version);
    write_i32(&mut out, 3);
    out.push(1);
    out.extend_from_slice(&0i64.to_le_bytes());
    s(&mut out, "player");
    write_i32(&mut out, maps.len() as i32);
    for (set_id, beatmap_id, mode, points) in maps {
        beatmap(&mut out, version, *set_id, *beatmap_id, *mode, points);
    }
    out
}

#[test]
fn mode_names() {
    assert_eq!(stable_mode_name(0), "osu");
    assert_eq!(stable_mode_name(1), "taiko");
    assert_eq!(stable_mode_name(2), "fruits");
    assert_eq!(stable_mode_name(3), "mania");
    assert_eq!(stable_mode_name(9), "osu");
}

#[test]
fn reads_modern_database() {
    let bytes = database(20240101, &[
        (123, 456, 3, vec![(-50.0, true), (300.0, false), (400.0, false)]),
        (-5, 7, 1, vec![]),
    ]);
    let maps = read_stable_osu_db(&bytes).ok().unwrap();
    assert_eq!(maps.len(), 2);
    let m = &maps[0];
    assert_eq!(m.beatmapset_id, 123);
    assert_eq!(m.beatmap_id, 456);
    assert_eq!(m.artist, "Artist");
    assert_eq!(m.artist_unicode, "アーティスト");
    assert_eq!(m.title, "Title");
    assert_eq!(m.creator, "Mapper");
    assert_eq!(m.version, "Insane");
    assert_eq!(m.md5, "0123456789abcdef0123456789abcdef");
    assert_eq!(m.mode, "mania");
    assert_eq!(m.ranked_status, 4);
    assert_eq!((m.hitcircles, m.sliders, m.spinners), (100, 20, 1));
    assert_eq!(m.last_modification_time, 1234567);
    assert!(matches!(m.ar, DifficultyStat::Bits(b) if f32::from_bits(b) == 9.5));
    assert!(matches!(m.od, DifficultyStat::Bits(b) if f32::from_bits(b) == 8.0));
    assert_eq!(f64::from_bits(m.slider_velocity), 1.4);
    assert_eq!((m.drain_time, m.total_time, m.preview_time), (90, 95000, 30000));
    assert_eq!(m.bpm.map(f64::from_bits), Some(300.0));
    assert_eq!(m.source, "source");
    assert_eq!(m.tags, "tag1 tag2");
    assert_eq!(m.folder_name, "123 Artist - Title");
    assert_eq!(maps[1].beatmapset_id, 0);
    assert_eq!(maps[1].mode, "taiko");
    assert_eq!(maps[1].bpm, None);
}

#[test]
fn reads_old_database_with_byte_stats() {
    let bytes = database(20130101, &[(5, 6, 0, vec![(0.0, false), (120.0, false)])]);
    let maps = read_stable_osu_db(&bytes).ok().unwrap();
    assert_eq!(maps.len(), 1);
    assert!(matches!(maps[0].ar, DifficultyStat::Whole(9)));
    assert!(matches!(maps[0].cs, DifficultyStat::Whole(4)));
    assert_eq!(maps[0].bpm.map(f64::from_bits), Some(120.0));
    assert_eq!(maps[0].mode, "osu");
}

#[test]
fn truncated_database_is_an_error() {
    let bytes = database(20240101, &[(1, 2, 0, vec![])]);
    let cut = &bytes[..bytes.len() - 1];
    assert!(matches!(read_stable_osu_db(cut), Err(DbError::UnexpectedEnd(ReadPart::OsuDb))));
    assert!(matches!(read_stable_osu_db(&[1, 2]), Err(DbError::UnexpectedEnd(ReadPart::CollectionDb))));
}

#[test]
fn star_rating_pairs() {
    let mut bytes = Vec::new();
    write_i32(&mut bytes, 2);
    bytes.push(8);
    write_i32(&mut bytes, 64);
    bytes.push(12);
    bytes.extend_from_slice(&1.5f32.to_le_bytes());
    bytes.push(8);
    write_i32(&mut bytes, 0);
    bytes.push(13);
    bytes.extend_from_slice(&2.5f64.to_le_bytes());
    let mut pos: usize = 0;
    assert_eq!(skip_star_rating_pairs(&bytes, &mut pos), Ok(()));
    assert_eq!(pos, bytes.len());

    let mut bad = Vec::new();
    write_i32(&mut bad, 1);
    bad.push(9);
    let mut pos: usize = 0;
    assert_eq!(skip_star_rating_pairs(&bad, &mut pos), Err(DbError::UnknownStarRatingMarker));

    let mut bad = Vec::new();
    write_i32(&mut bad, 1);
    bad.push(8);
    write_i32(&mut bad, 0);
    bad.push(14);
    let mut pos: usize = 0;
    assert_eq!(skip_star_rating_pairs(&bad, &mut pos), Err(DbError::UnknownStarRatingValue));

    let mut none = Vec::new();
    write_i32(&mut none, -3);
    let mut pos: usize = 0;
    assert_eq!(skip_star_rating_pairs(&none, &mut pos), Ok(()));
    assert_eq!(pos, 4);
}
