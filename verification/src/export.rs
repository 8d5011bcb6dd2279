//! Exporting a collection of osu!stable as a playlist file.
use vstd::prelude::*;
use crate::clock::now_compact_time;
use crate::collection::{list_position, list_views, ListModel, StableCollection};
use crate::csv::{csv_cell, csv_row, law_csv_roundtrip, needs_quotes, spec_csv_cell, spec_parse_csv_line};
use crate::osu_db::{beatmap_views, BeatmapModel, StableBeatmapInfo};
use crate::osu_file::{sanitize_file_name, spec_sanitize_file_name};
use crate::playlist::{
    cell_at, column_positions, has_ids, missing_column, required_columns, spec_playlist_row, stable_beatmaps_to_items,
    stable_row, StableItems,
};
use crate::store::{index_of, lemma_index_of_public, local_ids, LocalModel};
use crate::settings::{non_empty_or_default, spec_non_empty_or_default};
use crate::text::{
    ascii_lower_seq, chars_eq, chars_of, concat_str, decimal, i64_to_string, lower_ascii,
    is_ascii_digit, lemma_decimal_digits, lemma_parse_signed_decimal, law_parse_decimal, signed_decimal, str_eq,
    trim_ws, u64_to_string, views,
};

verus! {

/// The index of the last beatmap whose hash is `h` (ignoring ASCII case),
/// or -1: a later beatmap with the same hash replaces an earlier one.
pub open spec fn last_with_md5(bs: Seq<BeatmapModel>, h: Seq<char>) -> int
    decreases bs.len(),
{
    if bs.len() == 0 {
        -1
    } else if ascii_lower_seq(bs.last().md5) == ascii_lower_seq(h) {
        bs.len() - 1
    } else {
        last_with_md5(bs.drop_last(), h)
    }
}

/// The beatmaps a collection's hashes export, in the list's order: those
/// found, with both ids, and among the selected ones when some are
/// selected.
pub open spec fn export_indices(hashes: Seq<Seq<char>>, bs: Seq<BeatmapModel>, selected: Seq<u64>) -> Seq<int>
    decreases hashes.len(),
{
    if hashes.len() == 0 {
        Seq::empty()
    } else {
        let prev = export_indices(hashes.drop_last(), bs, selected);
        let k = last_with_md5(bs, hashes.last());
        if k >= 0 && has_ids(bs[k]) && (selected.len() == 0 || selected.contains(bs[k].beatmap_id)) {
            prev.push(k)
        } else {
            prev
        }
    }
}

fn find_md5(beatmaps: &Vec<StableBeatmapInfo>, h: &String) -> (r: Option<usize>)
    ensures
        match r {
            Some(k) => k as int == last_with_md5(beatmap_views(beatmaps@), h@) && k < beatmaps.len(),
            None => last_with_md5(beatmap_views(beatmaps@), h@) == -1,
        },
{
    let ghost bs = beatmap_views(beatmaps@);
    let hc = chars_of(h.as_str());
    let want = lower_ascii(hc.as_slice());
    let mut k = beatmaps.len();
    assert(bs.take(k as int) =~= bs);
    while k > 0
        invariant
            k <= beatmaps.len(),
            bs == beatmap_views(beatmaps@),
            want@ == ascii_lower_seq(h@),
            last_with_md5(bs, h@) == last_with_md5(bs.take(k as int), h@),
        decreases k,
    {
        let c = chars_of(beatmaps[k - 1].md5.as_str());
        let low = lower_ascii(c.as_slice());
        proof {
            assert(bs.take(k as int).last() == bs[k - 1]);
            assert(bs[k - 1] == beatmaps@[k - 1]@);
            assert(bs.take(k as int).drop_last() =~= bs.take(k - 1));
        }
        if chars_eq(low.as_slice(), want.as_slice()) {
            return Some(k - 1);
        }
        k = k - 1;
    }
    None
}

/// The selected beatmap ids that count: those above zero.
pub open spec fn selected_ids(selected: Option<Seq<u64>>) -> Seq<u64> {
    match selected {
        Some(s) => s.filter(|id: u64| id > 0),
        None => Seq::empty(),
    }
}

pub open spec fn opt_ids(v: Option<Vec<u64>>) -> Option<Seq<u64>> {
    match v {
        Some(s) => Some(s@),
        None => None,
    }
}

/// The list of a collection named `name`, if there is one.
pub open spec fn list_named(lists: Seq<ListModel>, name: Seq<char>) -> Option<ListModel> {
    let i = list_position(lists, name);
    if 0 <= i < lists.len() { Some(lists[i]) } else { None }
}

fn selected_filter(selected: Option<Vec<u64>>) -> (r: Vec<u64>)
    ensures
        r@ == selected_ids(opt_ids(selected)),
{
    match selected {
        None => Vec::new(),
        Some(s) => {
            let ghost p = |id: u64| id > 0;
            let mut out: Vec<u64> = Vec::new();
            let mut i: usize = 0;
            assert(s@.take(0).filter(p) =~= Seq::<u64>::empty());
            while i < s.len()
                invariant
                    i <= s.len(),
                    p == (|id: u64| id > 0),
                    out@ == s@.take(i as int).filter(p),
                decreases s.len() - i,
            {
                proof {
                    assert(s@.take(i + 1) =~= s@.take(i as int).push(s@[i as int]));
                    s@.take(i as int).lemma_filter_push(s@[i as int], p);
                }
                if s[i] > 0 {
                    out.push(s[i]);
                }
                i = i + 1;
            }
            assert(s@.take(s.len() as int) =~= s@);
            out
        },
    }
}

fn contains_id(v: &Vec<u64>, x: u64) -> (r: bool)
    ensures
        r == v@.contains(x),
{
    let mut i: usize = 0;
    while i < v.len()
        invariant
            i <= v.len(),
            forall|j: int| 0 <= j < i ==> v@[j] != x,
        decreases v.len() - i,
    {
        if v[i] == x {
            assert(v@[i as int] == x);
            return true;
        }
        i = i + 1;
    }
    false
}

/// The beatmaps (indices into `beatmaps`) that exporting the collection
/// list `collection_name` writes, in order (see `export_indices`); fails
/// when the collection has no such list.
pub fn export_rows(collection: &StableCollection, collection_name: &str, beatmaps: &Vec<StableBeatmapInfo>, selected: Option<Vec<u64>>) -> (r: Result<Vec<usize>, String>)
    ensures
        match list_named(collection@.lists, collection_name@) {
            None => (r matches Err(m) && m@ == "没有找到收藏夹："@ + collection_name@),
            Some(l) => (r matches Ok(v) && v@.map_values(|k: usize| k as int)
                == export_indices(l.hashes, beatmap_views(beatmaps@), selected_ids(opt_ids(selected)))),
        },
{
    let ghost lists = list_views(collection.lists@);
    let ghost sel_spec = selected_ids(opt_ids(selected));
    let sel = selected_filter(selected);
    let mut index: usize = 0;
    while index < collection.lists.len() && !str_eq(collection.lists[index].name.as_str(), collection_name)
        invariant
            index <= collection.lists.len(),
            lists == list_views(collection.lists@),
            forall|k: int| 0 <= k < index ==> (#[trigger] lists[k]).name != collection_name@,
        decreases collection.lists.len() - index,
    {
        assert(lists[index as int] == collection.lists@[index as int]@);
        index = index + 1;
    }
    proof {
        if index < collection.lists.len() {
            assert(lists[index as int] == collection.lists@[index as int]@);
        }
        crate::collection::lemma_list_position_public(lists, collection_name@, index as int);
    }
    if index == collection.lists.len() {
        return Err(concat_str("没有找到收藏夹：", collection_name));
    }
    let list = &collection.lists[index];
    assert(lists[index as int] == list@);
    let ghost hs = views(list.hashes@);
    let ghost bs = beatmap_views(beatmaps@);
    let mut out: Vec<usize> = Vec::new();
    let mut i: usize = 0;
    assert(hs.take(0) =~= Seq::<Seq<char>>::empty());
    while i < list.hashes.len()
        invariant
            i <= list.hashes.len(),
            hs == views(list.hashes@),
            bs == beatmap_views(beatmaps@),
            sel@ == sel_spec,
            out@.map_values(|k: usize| k as int) == export_indices(hs.take(i as int), bs, sel_spec),
        decreases list.hashes.len() - i,
    {
        proof {
            assert(hs.take(i + 1).drop_last() =~= hs.take(i as int));
            assert(hs.take(i + 1).last() == list.hashes@[i as int]@);
        }
        match find_md5(beatmaps, &list.hashes[i]) {
            Some(k) => {
                let b = &beatmaps[k];
                assert(bs[k as int] == b@);
                if b.beatmapset_id != 0 && b.beatmap_id != 0 && (sel.len() == 0 || contains_id(&sel, b.beatmap_id)) {
                    let ghost before = out@;
                    out.push(k);
                    assert(out@.map_values(|k: usize| k as int) =~= before.map_values(|k: usize| k as int).push(k as int));
                }
            },
            None => {},
        }
        i = i + 1;
    }
    assert(hs.take(list.hashes.len() as int) =~= hs);
    Ok(out)
}

/// The name of column `j` of an exported playlist file.
pub open spec fn export_column(j: int) -> Seq<char> {
    if j == 0 {
        "seekman_export_version"@
    } else if j == 1 {
        "exported_at"@
    } else if j == 2 {
        "source_collection"@
    } else if j == 3 {
        "beatmapset_id"@
    } else if j == 4 {
        "beatmap_id"@
    } else if j == 5 {
        "artist"@
    } else if j == 6 {
        "artist_unicode"@
    } else if j == 7 {
        "title"@
    } else if j == 8 {
        "title_unicode"@
    } else if j == 9 {
        "creator"@
    } else if j == 10 {
        "version"@
    } else if j == 11 {
        "mode"@
    } else if j == 12 {
        "md5"@
    } else if j == 13 {
        "folder_name"@
    } else if j == 14 {
        "osu_file_name"@
    } else if j == 15 {
        "audio_file_name"@
    } else if j == 16 {
        "ranked_status"@
    } else if j == 17 {
        "hitcircles"@
    } else if j == 18 {
        "sliders"@
    } else if j == 19 {
        "spinners"@
    } else if j == 20 {
        "ar"@
    } else if j == 21 {
        "cs"@
    } else if j == 22 {
        "hp"@
    } else if j == 23 {
        "od"@
    } else if j == 24 {
        "slider_velocity"@
    } else if j == 25 {
        "drain_time"@
    } else if j == 26 {
        "total_time"@
    } else if j == 27 {
        "preview_time"@
    } else if j == 28 {
        "bpm"@
    } else if j == 29 {
        "source"@
    } else if j == 30 {
        "tags"@
    } else if j == 31 {
        "last_modification_time"@
    } else {
        Seq::empty()
    }
}

/// The columns of an exported playlist file, in order.
pub open spec fn export_columns() -> Seq<Seq<char>> {
    Seq::new(32, |j: int| export_column(j))
}

/// The header line of an exported playlist file: the column names joined
/// by commas, and a line break.
pub fn export_header() -> (r: String)
    ensures
        r@ == join_cells(export_columns()) + "\n"@,
{
    let names: Vec<String> = vec![
        "seekman_export_version".to_string(),
        "exported_at".to_string(),
        "source_collection".to_string(),
        "beatmapset_id".to_string(),
        "beatmap_id".to_string(),
        "artist".to_string(),
        "artist_unicode".to_string(),
        "title".to_string(),
        "title_unicode".to_string(),
        "creator".to_string(),
        "version".to_string(),
        "mode".to_string(),
        "md5".to_string(),
        "folder_name".to_string(),
        "osu_file_name".to_string(),
        "audio_file_name".to_string(),
        "ranked_status".to_string(),
        "hitcircles".to_string(),
        "sliders".to_string(),
        "spinners".to_string(),
        "ar".to_string(),
        "cs".to_string(),
        "hp".to_string(),
        "od".to_string(),
        "slider_velocity".to_string(),
        "drain_time".to_string(),
        "total_time".to_string(),
        "preview_time".to_string(),
        "bpm".to_string(),
        "source".to_string(),
        "tags".to_string(),
        "last_modification_time".to_string(),
    ];
    let ghost target = export_columns();
    assert(views(names@) =~= target);
    let ghost mut cells: Seq<Seq<char>> = Seq::empty();
    let mut line = String::new();
    let mut i: usize = 0;
    while i < names.len()
        invariant
            i <= names.len(),
            views(names@) == target,
            cells == target.take(i as int),
            i == 0 ==> line@.len() == 0,
            i > 0 ==> line@ == join_cells(cells),
        decreases names.len() - i,
    {
        proof {
            assert(target.take(i + 1) =~= cells.push(names@[i as int]@));
        }
        push_cell(&mut line, names[i].as_str(), i == 0, Ghost(cells));
        proof { cells = cells.push(names@[i as int]@); }
        i = i + 1;
    }
    assert(target.take(names.len() as int) =~= target);
    concat_str(line.as_str(), "\n")
}

/// The fractional numbers of an exported row, as the app formats them
/// (AR, CS, HP and OD with two decimals, slider velocity with four, BPM
/// with three or empty).
pub struct ExportNumbers {
    pub ar: String,
    pub cs: String,
    pub hp: String,
    pub od: String,
    pub slider_velocity: String,
    pub bpm: String,
}

/// Cells joined by commas.
pub open spec fn join_cells(cells: Seq<Seq<char>>) -> Seq<char>
    decreases cells.len(),
{
    if cells.len() == 0 {
        Seq::empty()
    } else if cells.len() == 1 {
        cells[0]
    } else {
        join_cells(cells.drop_last()) + ","@ + cells.last()
    }
}

/// The cells of an exported row: version `2`, the export time, the
/// collection, then the beatmap's fields; text cells quoted as needed.
pub open spec fn export_cells(b: BeatmapModel, exported_at: Seq<char>, collection: Seq<char>, n: (Seq<char>, Seq<char>, Seq<char>, Seq<char>, Seq<char>, Seq<char>)) -> Seq<Seq<char>> {
    seq![
        "2"@, spec_csv_cell(exported_at), spec_csv_cell(collection),
        decimal(b.beatmapset_id as nat), decimal(b.beatmap_id as nat),
        spec_csv_cell(b.artist), spec_csv_cell(b.artist_unicode), spec_csv_cell(b.title), spec_csv_cell(b.title_unicode),
        spec_csv_cell(b.creator), spec_csv_cell(b.version), spec_csv_cell(b.mode), spec_csv_cell(b.md5),
        spec_csv_cell(b.folder_name), spec_csv_cell(b.osu_file_name), spec_csv_cell(b.audio_file_name),
        decimal(b.ranked_status as nat), signed_decimal(b.hitcircles as int), signed_decimal(b.sliders as int), signed_decimal(b.spinners as int),
        n.0, n.1, n.2, n.3, n.4,
        signed_decimal(b.drain_time as int), signed_decimal(b.total_time as int), signed_decimal(b.preview_time as int),
        n.5, spec_csv_cell(b.source), spec_csv_cell(b.tags), signed_decimal(b.last_modification_time as int)
    ]
}

fn push_cell(line: &mut String, cell: &str, first: bool, Ghost(cells): Ghost<Seq<Seq<char>>>)
    requires
        first ==> cells.len() == 0 && old(line)@.len() == 0,
        !first ==> cells.len() > 0 && old(line)@ == join_cells(cells),
    ensures
        final(line)@ == join_cells(cells.push(cell@)),
{
    let ghost c1 = cells.push(cell@);
    assert(c1.drop_last() =~= cells);
    if first {
        assert(c1 =~= seq![cell@]);
        *line = cell.to_string();
    } else {
        let joined = concat_str(concat_str(line.as_str(), ",").as_str(), cell);
        *line = joined;
    }
}

/// One row of an exported playlist (see `export_cells`), joined by commas.
pub fn export_csv_line(b: &StableBeatmapInfo, exported_at: &str, collection_name: &str, n: &ExportNumbers) -> (r: String)
    ensures
        r@ == join_cells(export_cells(b@, exported_at@, collection_name@, (n.ar@, n.cs@, n.hp@, n.od@, n.slider_velocity@, n.bpm@))),
{
    let ghost mut cells: Seq<Seq<char>> = Seq::empty();
    let mut line = String::new();
    let parts: Vec<String> = vec![
        "2".to_string(), csv_cell(exported_at), csv_cell(collection_name),
        u64_to_string(b.beatmapset_id), u64_to_string(b.beatmap_id),
        csv_cell(b.artist.as_str()), csv_cell(b.artist_unicode.as_str()), csv_cell(b.title.as_str()), csv_cell(b.title_unicode.as_str()),
        csv_cell(b.creator.as_str()), csv_cell(b.version.as_str()), csv_cell(b.mode.as_str()), csv_cell(b.md5.as_str()),
        csv_cell(b.folder_name.as_str()), csv_cell(b.osu_file_name.as_str()), csv_cell(b.audio_file_name.as_str()),
        u64_to_string(b.ranked_status as u64), i64_to_string(b.hitcircles as i64), i64_to_string(b.sliders as i64), i64_to_string(b.spinners as i64),
        n.ar.clone(), n.cs.clone(), n.hp.clone(), n.od.clone(), n.slider_velocity.clone(),
        i64_to_string(b.drain_time as i64), i64_to_string(b.total_time as i64), i64_to_string(b.preview_time as i64),
        n.bpm.clone(), csv_cell(b.source.as_str()), csv_cell(b.tags.as_str()), i64_to_string(b.last_modification_time),
    ];
    let ghost target = export_cells(b@, exported_at@, collection_name@, (n.ar@, n.cs@, n.hp@, n.od@, n.slider_velocity@, n.bpm@));
    assert(views(parts@) =~= target);
    let mut i: usize = 0;
    while i < parts.len()
        invariant
            i <= parts.len(),
            views(parts@) == target,
            cells == target.take(i as int),
            i == 0 ==> line@.len() == 0,
            i > 0 ==> line@ == join_cells(cells),
        decreases parts.len() - i,
    {
        proof {
            assert(target.take(i + 1) =~= cells.push(parts@[i as int]@));
        }
        push_cell(&mut line, parts[i].as_str(), i == 0, Ghost(cells));
        proof { cells = cells.push(parts@[i as int]@); }
        i = i + 1;
    }
    assert(target.take(parts.len() as int) =~= target);
    line
}

/// The values of an exported row before quoting: what reading the row
/// back gives, cell by cell.
pub open spec fn export_values(b: BeatmapModel, exported_at: Seq<char>, collection: Seq<char>, n: (Seq<char>, Seq<char>, Seq<char>, Seq<char>, Seq<char>, Seq<char>)) -> Seq<Seq<char>> {
    seq![
        "2"@, exported_at, collection,
        decimal(b.beatmapset_id as nat), decimal(b.beatmap_id as nat),
        b.artist, b.artist_unicode, b.title, b.title_unicode,
        b.creator, b.version, b.mode, b.md5,
        b.folder_name, b.osu_file_name, b.audio_file_name,
        decimal(b.ranked_status as nat), signed_decimal(b.hitcircles as int), signed_decimal(b.sliders as int), signed_decimal(b.spinners as int),
        n.0, n.1, n.2, n.3, n.4,
        signed_decimal(b.drain_time as int), signed_decimal(b.total_time as int), signed_decimal(b.preview_time as int),
        n.5, b.source, b.tags, signed_decimal(b.last_modification_time as int)
    ]
}

/// The positions of the required columns in an exported header.
pub open spec fn export_positions() -> Seq<int> {
    seq![0int, 3, 4, 5, 7, 9, 11, 2, 20, 21, 22, 23, 28, 25, 26]
}

/// A cell of digits and minus signs is written as it is.
proof fn lemma_plain_number(s: Seq<char>)
    requires
        forall|i: int| 0 <= i < s.len() ==> is_ascii_digit(#[trigger] s[i]) || s[i] == '-',
    ensures
        spec_csv_cell(s) == s,
{
    assert forall|c: char| c == ',' || c == '"' || c == '\n' || c == '\r' implies !s.contains(c) by {
        if s.contains(c) {
            let i = choose|i: int| 0 <= i < s.len() && s[i] == c;
            assert(is_ascii_digit(s[i]) || s[i] == '-');
        }
    }
}

proof fn lemma_csv_row_last(cells: Seq<Seq<char>>)
    requires
        cells.len() >= 2,
    ensures
        csv_row(cells) == csv_row(cells.drop_last()) + seq![','] + spec_csv_cell(cells.last()),
    decreases cells.len(),
{
    let rest = cells.drop_first();
    if cells.len() == 2 {
        assert(rest =~= seq![cells[1]]);
        assert(cells.drop_last() =~= seq![cells[0]]);
        assert(csv_row(rest) == spec_csv_cell(cells[1]));
        assert(csv_row(cells.drop_last()) == spec_csv_cell(cells[0]));
        assert(cells.last() == cells[1]);
    } else {
        lemma_csv_row_last(rest);
        assert(cells.drop_last().drop_first() =~= rest.drop_last());
        assert(rest.last() == cells.last());
        assert(csv_row(cells) =~= csv_row(cells.drop_last()) + seq![','] + spec_csv_cell(cells.last()));
    }
}

/// Joining the quoted cells by commas writes the CSV row of the cells.
proof fn lemma_row_joined(cells: Seq<Seq<char>>)
    requires
        cells.len() >= 1,
    ensures
        join_cells(cells.map_values(|c: Seq<char>| spec_csv_cell(c))) == csv_row(cells),
    decreases cells.len(),
{
    reveal_strlit(",");
    let m = cells.map_values(|c: Seq<char>| spec_csv_cell(c));
    if cells.len() > 1 {
        assert(m.drop_last() =~= cells.drop_last().map_values(|c: Seq<char>| spec_csv_cell(c)));
        lemma_row_joined(cells.drop_last());
        lemma_csv_row_last(cells);
        assert(","@ =~= seq![',']);
    }
}

/// An exported line splits back into the row's values when its fractional
/// numbers need no quotes.
proof fn lemma_export_line_cells(b: BeatmapModel, exported_at: Seq<char>, collection: Seq<char>, n: (Seq<char>, Seq<char>, Seq<char>, Seq<char>, Seq<char>, Seq<char>))
    requires
        !needs_quotes(n.0),
        !needs_quotes(n.1),
        !needs_quotes(n.2),
        !needs_quotes(n.3),
        !needs_quotes(n.4),
        !needs_quotes(n.5),
    ensures
        spec_parse_csv_line(join_cells(export_cells(b, exported_at, collection, n))) == export_values(b, exported_at, collection, n),
{
    let v = export_values(b, exported_at, collection, n);
    reveal_strlit("2");
    lemma_plain_number("2"@);
    lemma_decimal_digits(b.beatmapset_id as nat);
    lemma_plain_number(decimal(b.beatmapset_id as nat));
    lemma_decimal_digits(b.beatmap_id as nat);
    lemma_plain_number(decimal(b.beatmap_id as nat));
    lemma_decimal_digits(b.ranked_status as nat);
    lemma_plain_number(decimal(b.ranked_status as nat));
    lemma_parse_signed_decimal(b.hitcircles as int);
    lemma_plain_number(signed_decimal(b.hitcircles as int));
    lemma_parse_signed_decimal(b.sliders as int);
    lemma_plain_number(signed_decimal(b.sliders as int));
    lemma_parse_signed_decimal(b.spinners as int);
    lemma_plain_number(signed_decimal(b.spinners as int));
    lemma_parse_signed_decimal(b.drain_time as int);
    lemma_plain_number(signed_decimal(b.drain_time as int));
    lemma_parse_signed_decimal(b.total_time as int);
    lemma_plain_number(signed_decimal(b.total_time as int));
    lemma_parse_signed_decimal(b.preview_time as int);
    lemma_plain_number(signed_decimal(b.preview_time as int));
    lemma_parse_signed_decimal(b.last_modification_time as int);
    lemma_plain_number(signed_decimal(b.last_modification_time as int));
    assert(export_cells(b, exported_at, collection, n) =~= v.map_values(|c: Seq<char>| spec_csv_cell(c)));
    lemma_row_joined(v);
    law_csv_roundtrip(v);
}

/// No required column is missing from headers that contain each of them.
proof fn lemma_no_missing_column(headers: Seq<Seq<char>>, req: Seq<(Seq<char>, Seq<char>)>)
    requires
        forall|k: int| 0 <= k < req.len() ==> headers.contains(#[trigger] req[k].0),
    ensures
        missing_column(headers, req) is None,
    decreases req.len(),
{
    if req.len() > 0 {
        assert(headers.contains(req[0].0));
        assert forall|k: int| 0 <= k < req.drop_first().len() implies headers.contains(#[trigger] req.drop_first()[k].0) by {
            assert(req.drop_first()[k] == req[k + 1]);
        }
        lemma_no_missing_column(headers, req.drop_first());
    }
}

/// The exported header splits back into its column names, names every
/// required column, and finds them at `export_positions`.
proof fn lemma_export_header_cells()
    ensures
        spec_parse_csv_line(join_cells(export_columns())) == export_columns(),
        missing_column(export_columns(), required_columns()) is None,
        column_positions(export_columns()) == export_positions(),
{
    reveal_strlit("seekman_export_version");
    reveal_strlit("exported_at");
    reveal_strlit("source_collection");
    reveal_strlit("beatmapset_id");
    reveal_strlit("beatmap_id");
    reveal_strlit("artist");
    reveal_strlit("artist_unicode");
    reveal_strlit("title");
    reveal_strlit("title_unicode");
    reveal_strlit("creator");
    reveal_strlit("version");
    reveal_strlit("mode");
    reveal_strlit("md5");
    reveal_strlit("folder_name");
    reveal_strlit("osu_file_name");
    reveal_strlit("audio_file_name");
    reveal_strlit("ranked_status");
    reveal_strlit("hitcircles");
    reveal_strlit("sliders");
    reveal_strlit("spinners");
    reveal_strlit("ar");
    reveal_strlit("cs");
    reveal_strlit("hp");
    reveal_strlit("od");
    reveal_strlit("slider_velocity");
    reveal_strlit("drain_time");
    reveal_strlit("total_time");
    reveal_strlit("preview_time");
    reveal_strlit("bpm");
    reveal_strlit("source");
    reveal_strlit("tags");
    reveal_strlit("last_modification_time");
    assert("seekman_export_version"@.len() == 22 && "seekman_export_version"@[0] == 's' && !needs_quotes("seekman_export_version"@));
    assert("exported_at"@.len() == 11 && "exported_at"@[0] == 'e' && !needs_quotes("exported_at"@));
    assert("source_collection"@.len() == 17 && "source_collection"@[0] == 's' && !needs_quotes("source_collection"@));
    assert("beatmapset_id"@.len() == 13 && "beatmapset_id"@[0] == 'b' && !needs_quotes("beatmapset_id"@));
    assert("beatmap_id"@.len() == 10 && "beatmap_id"@[0] == 'b' && !needs_quotes("beatmap_id"@));
    assert("artist"@.len() == 6 && "artist"@[0] == 'a' && !needs_quotes("artist"@));
    assert("artist_unicode"@.len() == 14 && "artist_unicode"@[0] == 'a' && !needs_quotes("artist_unicode"@));
    assert("title"@.len() == 5 && "title"@[0] == 't' && !needs_quotes("title"@));
    assert("title_unicode"@.len() == 13 && "title_unicode"@[0] == 't' && !needs_quotes("title_unicode"@));
    assert("creator"@.len() == 7 && "creator"@[0] == 'c' && !needs_quotes("creator"@));
    assert("version"@.len() == 7 && "version"@[0] == 'v' && !needs_quotes("version"@));
    assert("mode"@.len() == 4 && "mode"@[0] == 'm' && !needs_quotes("mode"@));
    assert("md5"@.len() == 3 && "md5"@[0] == 'm' && !needs_quotes("md5"@));
    assert("folder_name"@.len() == 11 && "folder_name"@[0] == 'f' && !needs_quotes("folder_name"@));
    assert("osu_file_name"@.len() == 13 && "osu_file_name"@[0] == 'o' && !needs_quotes("osu_file_name"@));
    assert("audio_file_name"@.len() == 15 && "audio_file_name"@[0] == 'a' && !needs_quotes("audio_file_name"@));
    assert("ranked_status"@.len() == 13 && "ranked_status"@[0] == 'r' && !needs_quotes("ranked_status"@));
    assert("hitcircles"@.len() == 10 && "hitcircles"@[0] == 'h' && !needs_quotes("hitcircles"@));
    assert("sliders"@.len() == 7 && "sliders"@[0] == 's' && !needs_quotes("sliders"@));
    assert("spinners"@.len() == 8 && "spinners"@[0] == 's' && !needs_quotes("spinners"@));
    assert("ar"@.len() == 2 && "ar"@[0] == 'a' && !needs_quotes("ar"@));
    assert("cs"@.len() == 2 && "cs"@[0] == 'c' && !needs_quotes("cs"@));
    assert("hp"@.len() == 2 && "hp"@[0] == 'h' && !needs_quotes("hp"@));
    assert("od"@.len() == 2 && "od"@[0] == 'o' && !needs_quotes("od"@));
    assert("slider_velocity"@.len() == 15 && "slider_velocity"@[0] == 's' && !needs_quotes("slider_velocity"@));
    assert("drain_time"@.len() == 10 && "drain_time"@[0] == 'd' && !needs_quotes("drain_time"@));
    assert("total_time"@.len() == 10 && "total_time"@[0] == 't' && !needs_quotes("total_time"@));
    assert("preview_time"@.len() == 12 && "preview_time"@[0] == 'p' && !needs_quotes("preview_time"@));
    assert("bpm"@.len() == 3 && "bpm"@[0] == 'b' && !needs_quotes("bpm"@));
    assert("source"@.len() == 6 && "source"@[0] == 's' && !needs_quotes("source"@));
    assert("tags"@.len() == 4 && "tags"@[0] == 't' && !needs_quotes("tags"@));
    assert("last_modification_time"@.len() == 22 && "last_modification_time"@[0] == 'l' && !needs_quotes("last_modification_time"@));
    assert(export_columns().map_values(|c: Seq<char>| spec_csv_cell(c)) =~= export_columns()) by {
        assert forall|j: int| 0 <= j < 32 implies #[trigger] spec_csv_cell(export_columns()[j]) == export_columns()[j] by {
            assert(export_columns()[j] == export_column(j));
        }
    }
    lemma_row_joined(export_columns());
    law_csv_roundtrip(export_columns());
    assert forall|j: int| 0 <= j < 0 implies #[trigger] export_columns()[j] != "seekman_export_version"@ by {
        assert(export_columns()[j] == export_column(j));
    }
    assert(export_columns()[0] == "seekman_export_version"@);
    lemma_index_of_public(export_columns(), "seekman_export_version"@, 0);
    assert forall|j: int| 0 <= j < 3 implies #[trigger] export_columns()[j] != "beatmapset_id"@ by {
        assert(export_columns()[j] == export_column(j));
    }
    assert(export_columns()[3] == "beatmapset_id"@);
    lemma_index_of_public(export_columns(), "beatmapset_id"@, 3);
    assert forall|j: int| 0 <= j < 4 implies #[trigger] export_columns()[j] != "beatmap_id"@ by {
        assert(export_columns()[j] == export_column(j));
    }
    assert(export_columns()[4] == "beatmap_id"@);
    lemma_index_of_public(export_columns(), "beatmap_id"@, 4);
    assert forall|j: int| 0 <= j < 5 implies #[trigger] export_columns()[j] != "artist"@ by {
        assert(export_columns()[j] == export_column(j));
    }
    assert(export_columns()[5] == "artist"@);
    lemma_index_of_public(export_columns(), "artist"@, 5);
    assert forall|j: int| 0 <= j < 7 implies #[trigger] export_columns()[j] != "title"@ by {
        assert(export_columns()[j] == export_column(j));
    }
    assert(export_columns()[7] == "title"@);
    lemma_index_of_public(export_columns(), "title"@, 7);
    assert forall|j: int| 0 <= j < 9 implies #[trigger] export_columns()[j] != "creator"@ by {
        assert(export_columns()[j] == export_column(j));
    }
    assert(export_columns()[9] == "creator"@);
    lemma_index_of_public(export_columns(), "creator"@, 9);
    assert forall|j: int| 0 <= j < 11 implies #[trigger] export_columns()[j] != "mode"@ by {
        assert(export_columns()[j] == export_column(j));
    }
    assert(export_columns()[11] == "mode"@);
    lemma_index_of_public(export_columns(), "mode"@, 11);
    assert forall|j: int| 0 <= j < 2 implies #[trigger] export_columns()[j] != "source_collection"@ by {
        assert(export_columns()[j] == export_column(j));
    }
    assert(export_columns()[2] == "source_collection"@);
    lemma_index_of_public(export_columns(), "source_collection"@, 2);
    assert forall|j: int| 0 <= j < 20 implies #[trigger] export_columns()[j] != "ar"@ by {
        assert(export_columns()[j] == export_column(j));
    }
    assert(export_columns()[20] == "ar"@);
    lemma_index_of_public(export_columns(), "ar"@, 20);
    assert forall|j: int| 0 <= j < 21 implies #[trigger] export_columns()[j] != "cs"@ by {
        assert(export_columns()[j] == export_column(j));
    }
    assert(export_columns()[21] == "cs"@);
    lemma_index_of_public(export_columns(), "cs"@, 21);
    assert forall|j: int| 0 <= j < 22 implies #[trigger] export_columns()[j] != "hp"@ by {
        assert(export_columns()[j] == export_column(j));
    }
    assert(export_columns()[22] == "hp"@);
    lemma_index_of_public(export_columns(), "hp"@, 22);
    assert forall|j: int| 0 <= j < 23 implies #[trigger] export_columns()[j] != "od"@ by {
        assert(export_columns()[j] == export_column(j));
    }
    assert(export_columns()[23] == "od"@);
    lemma_index_of_public(export_columns(), "od"@, 23);
    assert forall|j: int| 0 <= j < 28 implies #[trigger] export_columns()[j] != "bpm"@ by {
        assert(export_columns()[j] == export_column(j));
    }
    assert(export_columns()[28] == "bpm"@);
    lemma_index_of_public(export_columns(), "bpm"@, 28);
    assert forall|j: int| 0 <= j < 25 implies #[trigger] export_columns()[j] != "drain_time"@ by {
        assert(export_columns()[j] == export_column(j));
    }
    assert(export_columns()[25] == "drain_time"@);
    lemma_index_of_public(export_columns(), "drain_time"@, 25);
    assert forall|j: int| 0 <= j < 26 implies #[trigger] export_columns()[j] != "total_time"@ by {
        assert(export_columns()[j] == export_column(j));
    }
    assert(export_columns()[26] == "total_time"@);
    lemma_index_of_public(export_columns(), "total_time"@, 26);
    let req = required_columns();
    assert forall|k: int| 0 <= k < req.len() implies export_columns().contains(#[trigger] req[k].0) by {
        assert(export_columns()[export_positions()[k]] == req[k].0);
    }
    lemma_no_missing_column(export_columns(), req);
    assert(column_positions(export_columns()) =~= export_positions());
}

/// Law: a beatmap written to a playlist file reads back as the playlist row
/// that listing it from osu!stable gives. The exported header names every
/// column that reading needs, and the exported line, split into its cells,
/// gives back the beatmap's ids, names, mode and lengths; this holds when
/// the beatmap has both ids, its names and the collection's are not blank,
/// and its fractional numbers hold no comma, quote or line break.
pub proof fn law_export_import_row(b: BeatmapModel, exported_at: Seq<char>, collection: Seq<char>, n: (Seq<char>, Seq<char>, Seq<char>, Seq<char>, Seq<char>, Seq<char>), locals: Seq<LocalModel>)
    requires
        has_ids(b),
        trim_ws(b.artist).len() > 0,
        trim_ws(b.title).len() > 0,
        trim_ws(b.creator).len() > 0,
        trim_ws(collection).len() > 0,
        !needs_quotes(n.0),
        !needs_quotes(n.1),
        !needs_quotes(n.2),
        !needs_quotes(n.3),
        !needs_quotes(n.4),
        !needs_quotes(n.5),
    ensures
        ({
            let headers = spec_parse_csv_line(join_cells(export_columns()));
            let cells = spec_parse_csv_line(join_cells(export_cells(b, exported_at, collection, n)));
            &&& missing_column(headers, required_columns()) is None
            &&& spec_playlist_row(cells, column_positions(headers), locals)
                == Some(stable_row(b, local_ids(locals).contains(b.beatmapset_id), collection))
        }),
{
    lemma_export_header_cells();
    lemma_export_line_cells(b, exported_at, collection, n);
    let v = export_values(b, exported_at, collection, n);
    let cols = export_positions();
    reveal_strlit("2");
    assert(trim_ws("2"@) =~= "2"@);
    law_parse_decimal(b.beatmapset_id);
    law_parse_decimal(b.beatmap_id);
    lemma_parse_signed_decimal(b.drain_time as int);
    lemma_parse_signed_decimal(b.total_time as int);
    assert(cell_at(v, cols[0]) == Some("2"@));
    assert(cell_at(v, cols[1]) == Some(decimal(b.beatmapset_id as nat)));
    assert(cell_at(v, cols[2]) == Some(decimal(b.beatmap_id as nat)));
    assert(cell_at(v, cols[3]) == Some(b.artist));
    assert(cell_at(v, cols[4]) == Some(b.title));
    assert(cell_at(v, cols[5]) == Some(b.creator));
    assert(cell_at(v, cols[6]) == Some(b.mode));
    assert(cell_at(v, cols[7]) == Some(collection));
    assert(cell_at(v, cols[13]) == Some(signed_decimal(b.drain_time as int)));
    assert(cell_at(v, cols[14]) == Some(signed_decimal(b.total_time as int)));
}

/// The file name an export is saved under: the collection's name made safe
/// (`playlist` when that is blank), the export time as
/// `YYYYmmddHHMMSS`, and `.csv`.
pub fn export_file_name(collection_name: &str) -> (r: String)
    ensures
        exists|stamp: Seq<char>| r@ == spec_non_empty_or_default(spec_sanitize_file_name(collection_name@), "playlist"@) + "-"@ + stamp + ".csv"@,
{
    let safe = non_empty_or_default(sanitize_file_name(collection_name).as_str(), "playlist");
    let stamp = now_compact_time();
    let r = concat_str(concat_str(concat_str(safe.as_str(), "-").as_str(), stamp.as_str()).as_str(), ".csv");
    assert(r@ == safe@ + "-"@ + stamp@ + ".csv"@);
    r
}


/// The beatmaps of a list that `osu!.db` knows, in the list's order (the
/// last beatmap with a hash stands for it).
pub open spec fn known_beatmaps(hashes: Seq<Seq<char>>, bs: Seq<BeatmapModel>) -> Seq<int>
    decreases hashes.len(),
{
    if hashes.len() == 0 {
        Seq::empty()
    } else {
        let prev = known_beatmaps(hashes.drop_last(), bs);
        let k = last_with_md5(bs, hashes.last());
        if k >= 0 { prev.push(k) } else { prev }
    }
}

fn known_indices(hashes: &Vec<String>, beatmaps: &Vec<StableBeatmapInfo>) -> (r: Vec<usize>)
    ensures
        r@.map_values(|k: usize| k as int) == known_beatmaps(views(hashes@), beatmap_views(beatmaps@)),
        forall|j: int| 0 <= j < r@.len() ==> r@[j] < beatmaps.len(),
{
    let ghost hs = views(hashes@);
    let ghost bs = beatmap_views(beatmaps@);
    let mut out: Vec<usize> = Vec::new();
    let mut i: usize = 0;
    assert(hs.take(0) =~= Seq::<Seq<char>>::empty());
    while i < hashes.len()
        invariant
            i <= hashes.len(),
            hs == views(hashes@),
            bs == beatmap_views(beatmaps@),
            out@.map_values(|k: usize| k as int) == known_beatmaps(hs.take(i as int), bs),
            forall|j: int| 0 <= j < out@.len() ==> out@[j] < beatmaps.len(),
        decreases hashes.len() - i,
    {
        proof {
            assert(hs.take(i + 1).drop_last() =~= hs.take(i as int));
            assert(hs.take(i + 1).last() == hashes@[i as int]@);
        }
        if let Some(k) = find_md5(beatmaps, &hashes[i]) {
            let ghost before = out@;
            out.push(k);
            assert(out@.map_values(|k: usize| k as int) =~= before.map_values(|k: usize| k as int).push(k as int));
        }
        i = i + 1;
    }
    assert(hs.take(hashes.len() as int) =~= hs);
    out
}

/// A copy of a beatmap of `osu!.db`.
pub fn copy_beatmap(b: &StableBeatmapInfo) -> (r: StableBeatmapInfo)
    ensures
        r@ == b@,
{
    StableBeatmapInfo {
        beatmapset_id: b.beatmapset_id,
        beatmap_id: b.beatmap_id,
        artist: b.artist.clone(),
        title: b.title.clone(),
        creator: b.creator.clone(),
        version: b.version.clone(),
        mode: b.mode.clone(),
        md5: b.md5.clone(),
        artist_unicode: b.artist_unicode.clone(),
        title_unicode: b.title_unicode.clone(),
        audio_file_name: b.audio_file_name.clone(),
        osu_file_name: b.osu_file_name.clone(),
        ranked_status: b.ranked_status,
        hitcircles: b.hitcircles,
        sliders: b.sliders,
        spinners: b.spinners,
        last_modification_time: b.last_modification_time,
        ar: b.ar,
        cs: b.cs,
        hp: b.hp,
        od: b.od,
        slider_velocity: b.slider_velocity,
        drain_time: b.drain_time,
        total_time: b.total_time,
        preview_time: b.preview_time,
        bpm: b.bpm,
        source: b.source.clone(),
        tags: b.tags.clone(),
        folder_name: b.folder_name.clone(),
    }
}

/// A list of a collection as the app shows it: its name, how many hashes it
/// has, its known beatmaps (copied out of `osu!.db`), and those grouped
/// into beatmapsets that are on disk, named after the list.
pub struct CollectionSummary {
    pub name: String,
    pub beatmap_count: usize,
    pub beatmaps: Vec<StableBeatmapInfo>,
    pub items: StableItems,
}

/// The lists of a collection as the app shows them (see
/// `CollectionSummary`).
pub fn collection_summaries(collection: &StableCollection, beatmaps: &Vec<StableBeatmapInfo>) -> (r: Vec<CollectionSummary>)
    ensures
        r@.len() == collection@.lists.len(),
        forall|i: int| 0 <= i < r@.len() ==> {
            let l = collection@.lists[i];
            let picked = known_beatmaps(l.hashes, beatmap_views(beatmaps@)).map_values(|k: int| beatmap_views(beatmaps@)[k]);
            &&& (#[trigger] r@[i]).name@ == l.name
            &&& r@[i].beatmap_count == l.hashes.len()
            &&& beatmap_views(r@[i].beatmaps@) == picked
            &&& r@[i].items.sources@.map_values(|k: usize| k as int) == crate::playlist::stable_sources(picked)
            &&& crate::playlist::sorted_by_name(crate::playlist::grouped_views(r@[i].items.items@))
            &&& crate::playlist::grouped_views(r@[i].items.items@).to_multiset()
                == crate::playlist::spec_group_rows(crate::playlist::stable_rows(picked, true, l.name), true).to_multiset()
        },
{
    let ghost bs = beatmap_views(beatmaps@);
    let mut out: Vec<CollectionSummary> = Vec::new();
    let mut i: usize = 0;
    while i < collection.lists.len()
        invariant
            i <= collection.lists.len(),
            bs == beatmap_views(beatmaps@),
            out@.len() == i,
            forall|j: int| 0 <= j < i ==> {
                let l = collection@.lists[j];
                let picked = known_beatmaps(l.hashes, bs).map_values(|k: int| bs[k]);
                &&& (#[trigger] out@[j]).name@ == l.name
                &&& out@[j].beatmap_count == l.hashes.len()
                &&& beatmap_views(out@[j].beatmaps@) == picked
                &&& out@[j].items.sources@.map_values(|k: usize| k as int) == crate::playlist::stable_sources(picked)
                &&& crate::playlist::sorted_by_name(crate::playlist::grouped_views(out@[j].items.items@))
                &&& crate::playlist::grouped_views(out@[j].items.items@).to_multiset()
                    == crate::playlist::spec_group_rows(crate::playlist::stable_rows(picked, true, l.name), true).to_multiset()
            },
        decreases collection.lists.len() - i,
    {
        let list = &collection.lists[i];
        assert(collection@.lists[i as int] == list@);
        let picks = known_indices(&list.hashes, beatmaps);
        let ghost picked = known_beatmaps(list@.hashes, bs).map_values(|k: int| bs[k]);
        let mut chosen: Vec<StableBeatmapInfo> = Vec::new();
        let mut k: usize = 0;
        while k < picks.len()
            invariant
                k <= picks.len(),
                bs == beatmap_views(beatmaps@),
                picks@.map_values(|x: usize| x as int) == known_beatmaps(list@.hashes, bs),
                forall|j: int| 0 <= j < picks@.len() ==> picks@[j] < beatmaps.len(),
                picked == known_beatmaps(list@.hashes, bs).map_values(|k: int| bs[k]),
                beatmap_views(chosen@) == picked.take(k as int),
            decreases picks.len() - k,
        {
            let ghost before = chosen@;
            let c = copy_beatmap(&beatmaps[picks[k]]);
            let ghost cv = c@;
            chosen.push(c);
            assert(beatmap_views(chosen@) =~= beatmap_views(before).push(cv));
            assert(picked.take(k + 1) =~= picked.take(k as int).push(picked[k as int]));
            assert(picks@.map_values(|x: usize| x as int)[k as int] == picks@[k as int] as int);
            assert(picked[k as int] == bs[picks@[k as int] as int]);
            assert(bs[picks@[k as int] as int] == beatmaps@[picks@[k as int] as int]@);
            assert(beatmap_views(chosen@) =~= picked.take(k + 1));
            k = k + 1;
        }
        assert(picked.take(picks.len() as int) =~= picked);
        let items = stable_beatmaps_to_items(&chosen, true, list.name.as_str());
        let ghost before = out@;
        out.push(CollectionSummary { name: list.name.clone(), beatmap_count: list.hashes.len(), beatmaps: chosen, items });
        proof {
            assert forall|j: int| 0 <= j < i + 1 implies {
                let l = collection@.lists[j];
                let picked = known_beatmaps(l.hashes, bs).map_values(|k: int| bs[k]);
                &&& (#[trigger] out@[j]).name@ == l.name
                &&& out@[j].beatmap_count == l.hashes.len()
                &&& beatmap_views(out@[j].beatmaps@) == picked
                &&& out@[j].items.sources@.map_values(|k: usize| k as int) == crate::playlist::stable_sources(picked)
                &&& crate::playlist::sorted_by_name(crate::playlist::grouped_views(out@[j].items.items@))
                &&& crate::playlist::grouped_views(out@[j].items.items@).to_multiset()
                    == crate::playlist::spec_group_rows(crate::playlist::stable_rows(picked, true, l.name), true).to_multiset()
            } by {
                if j < i {
                    assert(out@[j] == before[j]);
                }
            }
        }
        i = i + 1;
    }
    out
}

}
