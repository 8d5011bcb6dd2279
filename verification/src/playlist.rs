//! Playlists: beatmaps grouped into the beatmapsets they belong to.
use vstd::prelude::*;
use vstd::multiset::Multiset;
use crate::items::{distinct, item_views, BeatmapsetItem, ItemModel};
use crate::osu_db::{beatmap_views, BeatmapModel, StableBeatmapInfo};
use crate::collection::{merged_hashes, sorted_unique_strings};
use crate::csv::{parse_csv_line, spec_parse_csv_line};
use crate::osu_file::split_on;
use crate::store::{index_of, local_ids, AppStore, LocalModel};
use crate::text::{
    chars_le, chars_le_exec, chars_of, concat_str, decimal, parse_i64_chars, parse_u64_chars,
    spec_parse_i64, spec_parse_u64, str_eq, string_from_chars, trim_str, trim_ws, u64_to_string,
    views,
};

verus! {

/// A time in seconds when it is above zero.
pub open spec fn spec_positive(value: i32) -> Option<u64> {
    if value > 0 { Some(value as u64) } else { None }
}

/// A time from `osu!.db` when it is above zero.
pub fn positive_i32_to_u64(value: i32) -> (r: Option<u64>)
    ensures
        r == spec_positive(value),
{
    if value > 0 { Some(value as u64) } else { None }
}

/// The smaller of a running minimum and a new value, when there is one.
pub open spec fn merged_min(target: Option<u64>, value: Option<u64>) -> Option<u64> {
    match value {
        None => target,
        Some(v) => match target {
            None => Some(v),
            Some(c) => Some(if c <= v { c } else { v }),
        },
    }
}

/// The larger of a running maximum and a new value, when there is one.
pub open spec fn merged_max(target: Option<u64>, value: Option<u64>) -> Option<u64> {
    match value {
        None => target,
        Some(v) => match target {
            None => Some(v),
            Some(c) => Some(if c >= v { c } else { v }),
        },
    }
}

/// Folds a value into a running minimum.
pub fn merge_min_u64(target: &mut Option<u64>, value: Option<u64>)
    ensures
        *final(target) == merged_min(*old(target), value),
{
    if let Some(v) = value {
        *target = match *target {
            None => Some(v),
            Some(c) => Some(if c <= v { c } else { v }),
        };
    }
}

/// Folds a value into a running maximum.
pub fn merge_max_u64(target: &mut Option<u64>, value: Option<u64>)
    ensures
        *final(target) == merged_max(*old(target), value),
{
    if let Some(v) = value {
        *target = match *target {
            None => Some(v),
            Some(c) => Some(if c >= v { c } else { v }),
        };
    }
}

/// One beatmap of a playlist, as values.
pub struct RowModel {
    pub beatmapset_id: u64,
    pub beatmap_id: u64,
    pub title: Seq<char>,
    pub artist: Seq<char>,
    pub creator: Seq<char>,
    pub mode: Seq<char>,
    pub source_collection: Seq<char>,
    pub exists_local: bool,
    pub min_length: Option<u64>,
    pub max_length: Option<u64>,
}

/// One beatmap of a playlist: its ids, names, mode, the playlist it comes
/// from, whether its beatmapset is on disk, and the lengths it offers for
/// the shortest and longest of its beatmapset.
pub struct PlaylistRow {
    pub beatmapset_id: u64,
    pub beatmap_id: u64,
    pub title: String,
    pub artist: String,
    pub creator: String,
    pub mode: String,
    pub source_collection: String,
    pub exists_local: bool,
    pub min_length: Option<u64>,
    pub max_length: Option<u64>,
}

impl View for PlaylistRow {
    type V = RowModel;

    open spec fn view(&self) -> RowModel {
        RowModel {
            beatmapset_id: self.beatmapset_id,
            beatmap_id: self.beatmap_id,
            title: self.title@,
            artist: self.artist@,
            creator: self.creator@,
            mode: self.mode@,
            source_collection: self.source_collection@,
            exists_local: self.exists_local,
            min_length: self.min_length,
            max_length: self.max_length,
        }
    }
}

pub open spec fn row_views(v: Seq<PlaylistRow>) -> Seq<RowModel> {
    v.map_values(|r: PlaylistRow| r@)
}

/// A beatmapset made from playlist rows, with the indices of those rows.
pub struct GroupedItem {
    pub item: BeatmapsetItem,
    pub rows: Vec<usize>,
}

pub open spec fn grouped_view(g: GroupedItem) -> (ItemModel, Seq<int>) {
    (g.item@, g.rows@.map_values(|i: usize| i as int))
}

pub open spec fn grouped_views(v: Seq<GroupedItem>) -> Seq<(ItemModel, Seq<int>)> {
    v.map_values(|g: GroupedItem| grouped_view(g))
}

/// The beatmapsets of the rows, in the order they first come.
pub open spec fn set_order(rows: Seq<RowModel>) -> Seq<u64> {
    distinct(rows.map_values(|r: RowModel| r.beatmapset_id))
}

pub open spec fn in_set(set: u64) -> spec_fn(RowModel) -> bool {
    |r: RowModel| r.beatmapset_id == set
}

/// The indices of the rows of beatmapset `set`.
pub open spec fn members(rows: Seq<RowModel>, set: u64) -> Seq<int>
    decreases rows.len(),
{
    if rows.len() == 0 {
        Seq::empty()
    } else {
        let prev = members(rows.drop_last(), set);
        if rows.last().beatmapset_id == set { prev.push(rows.len() - 1) } else { prev }
    }
}

pub open spec fn fold_min(rs: Seq<RowModel>) -> Option<u64>
    decreases rs.len(),
{
    if rs.len() == 0 { None } else { merged_min(fold_min(rs.drop_last()), rs.last().min_length) }
}

pub open spec fn fold_max(rs: Seq<RowModel>) -> Option<u64>
    decreases rs.len(),
{
    if rs.len() == 0 { None } else { merged_max(fold_max(rs.drop_last()), rs.last().max_length) }
}

/// `s`, sorted, with `x` put in its place unless it is there.
pub open spec fn sorted_insert(s: Seq<u64>, x: u64) -> Seq<u64>
    decreases s.len(),
{
    if s.len() == 0 {
        seq![x]
    } else if s[0] == x {
        s
    } else if x < s[0] {
        seq![x] + s
    } else {
        seq![s[0]] + sorted_insert(s.drop_first(), x)
    }
}

/// The beatmap ids of rows, once each: sorted, or in the order they come.
pub open spec fn ids_fold(rs: Seq<RowModel>, sorted: bool) -> Seq<u64>
    decreases rs.len(),
{
    if rs.len() == 0 {
        Seq::empty()
    } else {
        let prev = ids_fold(rs.drop_last(), sorted);
        let b = rs.last().beatmap_id;
        if sorted { sorted_insert(prev, b) } else if prev.contains(b) { prev } else { prev.push(b) }
    }
}

/// The beatmapset made from its rows: names, source and whether it is on
/// disk from its first row; its modes once each; the shortest and longest
/// lengths; its beatmap ids (also the ones its collection gets).
pub open spec fn item_for(rows: Seq<RowModel>, set: u64, sorted: bool) -> ItemModel {
    item_of(set, rows.filter(in_set(set)), sorted)
}

/// The beatmapset `set` made from its rows `ms`.
pub open spec fn item_of(set: u64, ms: Seq<RowModel>, sorted: bool) -> ItemModel {
    let first = ms[0];
    ItemModel {
        id: set,
        title: first.title,
        artist: first.artist,
        creator: first.creator,
        ranked_date: Seq::empty(),
        status: "playlist"@,
        modes: distinct(ms.map_values(|r: RowModel| r.mode)),
        min_length: fold_min(ms),
        max_length: fold_max(ms),
        key_counts: Seq::empty(),
        beatmap_ids: ids_fold(ms, sorted),
        collection_beatmap_ids: ids_fold(ms, sorted),
        source_collection: first.source_collection,
        playcount: 0,
        favourite_count: 0,
        exists_local: Some(first.exists_local),
    }
}

/// The rows grouped by beatmapset, in the order the beatmapsets first come.
pub open spec fn spec_group_rows(rows: Seq<RowModel>, sorted: bool) -> Seq<(ItemModel, Seq<int>)> {
    set_order(rows).map_values(|s: u64| (item_for(rows, s, sorted), members(rows, s)))
}


pub proof fn lemma_distinct_contains<T>(xs: Seq<T>, x: T)
    ensures
        distinct(xs).contains(x) <==> xs.contains(x),
        distinct(xs).no_duplicates(),
    decreases xs.len(),
{
    if xs.len() > 0 {
        lemma_distinct_contains(xs.drop_last(), x);
        lemma_distinct_contains(xs.drop_last(), xs.last());
        let prev = distinct(xs.drop_last());
        if prev.contains(xs.last()) {
            if xs.contains(x) {
                let k = choose|k: int| 0 <= k < xs.len() && xs[k] == x;
                if k < xs.len() - 1 {
                    assert(xs.drop_last()[k] == x);
                }
            }
            if xs.drop_last().contains(x) {
                let k = choose|k: int| 0 <= k < xs.drop_last().len() && xs.drop_last()[k] == x;
                assert(xs[k] == x);
            }
        } else {
            let d = prev.push(xs.last());
            if xs.contains(x) {
                let k = choose|k: int| 0 <= k < xs.len() && xs[k] == x;
                if k < xs.len() - 1 {
                    assert(xs.drop_last()[k] == x);
                    let m = choose|m: int| 0 <= m < prev.len() && prev[m] == x;
                    assert(d[m] == x);
                } else {
                    assert(d[prev.len() as int] == x);
                }
            }
            if d.contains(x) {
                let m = choose|m: int| 0 <= m < d.len() && d[m] == x;
                if m < prev.len() {
                    assert(prev[m] == x);
                    let k = choose|k: int| 0 <= k < xs.drop_last().len() && xs.drop_last()[k] == x;
                    assert(xs[k] == x);
                } else {
                    assert(xs[xs.len() - 1] == x);
                }
            }
            assert forall|a: int, b: int| 0 <= a < b < d.len() implies d[a] != d[b] by {
                if b == prev.len() {
                    assert(prev.contains(d[a]));
                }
            }
        }
    }
}

proof fn lemma_no_rows_of(rs: Seq<RowModel>, set: u64)
    requires
        !set_order(rs).contains(set),
    ensures
        rs.filter(in_set(set)) == Seq::<RowModel>::empty(),
        members(rs, set) == Seq::<int>::empty(),
    decreases rs.len(),
{
    lemma_distinct_contains(rs.map_values(|r: RowModel| r.beatmapset_id), set);
    reveal(Seq::filter);
    if rs.len() > 0 {
        let ids = rs.map_values(|r: RowModel| r.beatmapset_id);
        assert(rs.drop_last().map_values(|r: RowModel| r.beatmapset_id) =~= ids.drop_last());
        assert(!ids.drop_last().contains(set)) by {
            if ids.drop_last().contains(set) {
                let k = choose|k: int| 0 <= k < ids.drop_last().len() && ids.drop_last()[k] == set;
                assert(ids[k] == set);
            }
        }
        lemma_distinct_contains(ids.drop_last(), set);
        assert(ids[rs.len() - 1] == rs.last().beatmapset_id);
        lemma_no_rows_of(rs.drop_last(), set);
    }
}

proof fn lemma_step_filter(rs: Seq<RowModel>, i: int, set: u64)
    requires
        0 <= i < rs.len(),
    ensures
        rs.take(i + 1).filter(in_set(set)) == if rs[i].beatmapset_id == set {
            rs.take(i).filter(in_set(set)).push(rs[i])
        } else {
            rs.take(i).filter(in_set(set))
        },
        members(rs.take(i + 1), set) == if rs[i].beatmapset_id == set {
            members(rs.take(i), set).push(i)
        } else {
            members(rs.take(i), set)
        },
        set_order(rs.take(i + 1)) == if set_order(rs.take(i)).contains(rs[i].beatmapset_id) {
            set_order(rs.take(i))
        } else {
            set_order(rs.take(i)).push(rs[i].beatmapset_id)
        },
{
    assert(rs.take(i + 1) =~= rs.take(i).push(rs[i]));
    rs.take(i).lemma_filter_push(rs[i], in_set(set));
    assert(rs.take(i + 1).drop_last() =~= rs.take(i));
    let ids1 = rs.take(i + 1).map_values(|r: RowModel| r.beatmapset_id);
    assert(ids1.drop_last() =~= rs.take(i).map_values(|r: RowModel| r.beatmapset_id));
    assert(ids1.last() == rs[i].beatmapset_id);
}

fn insert_sorted_id(ids: &mut Vec<u64>, x: u64)
    ensures
        final(ids)@ == sorted_insert(old(ids)@, x),
{
    let mut pos: usize = 0;
    assert(ids@.skip(0) =~= ids@);
    while pos < ids.len() && ids[pos] < x
        invariant
            pos <= ids.len(),
            sorted_insert(ids@, x) == ids@.take(pos as int) + sorted_insert(ids@.skip(pos as int), x),
        decreases ids.len() - pos,
    {
        let ghost rest = ids@.skip(pos as int);
        assert(rest[0] == ids@[pos as int]);
        assert(rest.drop_first() =~= ids@.skip(pos + 1));
        assert(ids@.take(pos + 1) =~= ids@.take(pos as int).push(ids@[pos as int]));
        assert(ids@.take(pos as int) + (seq![rest[0]] + sorted_insert(rest.drop_first(), x))
            =~= ids@.take(pos + 1) + sorted_insert(ids@.skip(pos + 1), x));
        pos = pos + 1;
    }
    let ghost before = ids@;
    if pos < ids.len() && ids[pos] == x {
        assert(before.take(pos as int) + before.skip(pos as int) =~= before);
        return;
    }
    ids.insert(pos, x);
    proof {
        if pos < before.len() {
            assert(sorted_insert(before.skip(pos as int), x) == seq![x] + before.skip(pos as int));
        } else {
            assert(before.skip(pos as int) =~= Seq::<u64>::empty());
        }
        assert(ids@ =~= before.take(pos as int) + (seq![x] + before.skip(pos as int)));
    }
}

fn add_distinct_id(ids: &mut Vec<u64>, x: u64)
    ensures
        final(ids)@ == if old(ids)@.contains(x) { old(ids)@ } else { old(ids)@.push(x) },
{
    let mut i: usize = 0;
    while i < ids.len()
        invariant
            i <= ids.len(),
            forall|k: int| 0 <= k < i ==> ids@[k] != x,
        decreases ids.len() - i,
    {
        if ids[i] == x {
            assert(ids@.contains(x));
            return;
        }
        i = i + 1;
    }
    ids.push(x);
}

fn add_mode(modes: &mut Vec<String>, m: &String)
    ensures
        views(final(modes)@) == if views(old(modes)@).contains(m@) { views(old(modes)@) } else { views(old(modes)@).push(m@) },
{
    let mut i: usize = 0;
    while i < modes.len()
        invariant
            i <= modes.len(),
            forall|k: int| 0 <= k < i ==> modes@[k]@ != m@,
        decreases modes.len() - i,
    {
        if str_eq(modes[i].as_str(), m.as_str()) {
            assert(views(modes@)[i as int] == m@);
            return;
        }
        i = i + 1;
    }
    proof {
        if views(modes@).contains(m@) {
            let k = choose|k: int| 0 <= k < views(modes@).len() && views(modes@)[k] == m@;
            assert(modes@[k]@ == m@);
        }
    }
    let ghost before = modes@;
    modes.push(m.clone());
    assert(views(modes@) =~= views(before).push(m@));
}

fn new_grouped(row: &PlaylistRow, i: usize, sorted: bool) -> (r: GroupedItem)
    ensures
        grouped_view(r) == (item_of(row.beatmapset_id, seq![row@], sorted), seq![i as int]),
{
    let mut modes: Vec<String> = Vec::new();
    modes.push(row.mode.clone());
    let mut ids: Vec<u64> = Vec::new();
    ids.push(row.beatmap_id);
    let mut ids2: Vec<u64> = Vec::new();
    ids2.push(row.beatmap_id);
    let mut rows: Vec<usize> = Vec::new();
    rows.push(i);
    let ghost ms = seq![row@];
    proof {
        assert(ms.drop_last() =~= Seq::<RowModel>::empty());
        assert(ms.map_values(|r: RowModel| r.mode).drop_last() =~= Seq::<Seq<char>>::empty());
        let mm = ms.map_values(|r: RowModel| r.mode);
        assert(mm =~= seq![row.mode@]);
        assert(mm.drop_last() =~= Seq::<Seq<char>>::empty());
        assert(distinct(Seq::<Seq<char>>::empty()) =~= Seq::<Seq<char>>::empty());
        assert(distinct(mm) =~= seq![row.mode@]);
        assert(ids_fold(Seq::<RowModel>::empty(), sorted) =~= Seq::<u64>::empty());
        assert(sorted_insert(Seq::<u64>::empty(), row.beatmap_id) =~= seq![row.beatmap_id]);
        assert(ids_fold(ms, sorted) =~= seq![row.beatmap_id]);
        assert(fold_min(ms.drop_last()) == None::<u64>);
        assert(fold_max(ms.drop_last()) == None::<u64>);
        assert(fold_min(ms) == row.min_length);
        assert(fold_max(ms) == row.max_length);
        assert(ms[0] == row@);
        assert(views(modes@) =~= seq![row.mode@]);
        assert(rows@.map_values(|k: usize| k as int) =~= seq![i as int]);
    }
    GroupedItem {
        item: BeatmapsetItem {
            id: row.beatmapset_id,
            title: row.title.clone(),
            artist: row.artist.clone(),
            creator: row.creator.clone(),
            ranked_date: String::new(),
            status: "playlist".to_string(),
            modes,
            min_length: row.min_length,
            max_length: row.max_length,
            key_counts: Vec::new(),
            beatmap_ids: ids,
            collection_beatmap_ids: ids2,
            source_collection: row.source_collection.clone(),
            playcount: 0,
            favourite_count: 0,
            exists_local: Some(row.exists_local),
        },
        rows,
    }
}

fn extend_grouped(g: &mut GroupedItem, row: &PlaylistRow, i: usize, sorted: bool, Ghost(ms): Ghost<Seq<RowModel>>, Ghost(idx): Ghost<Seq<int>>)
    requires
        ms.len() > 0,
        grouped_view(*old(g)) == (item_of(row.beatmapset_id, ms, sorted), idx),
    ensures
        grouped_view(*final(g)) == (item_of(row.beatmapset_id, ms.push(row@), sorted), idx.push(i as int)),
{
    let ghost ms1 = ms.push(row@);
    proof {
        assert(ms1.drop_last() =~= ms);
        assert(ms1[0] == ms[0]);
        assert(ms1.map_values(|r: RowModel| r.mode).drop_last() =~= ms.map_values(|r: RowModel| r.mode));
    }
    add_mode(&mut g.item.modes, &row.mode);
    merge_min_u64(&mut g.item.min_length, row.min_length);
    merge_max_u64(&mut g.item.max_length, row.max_length);
    if sorted {
        insert_sorted_id(&mut g.item.beatmap_ids, row.beatmap_id);
        insert_sorted_id(&mut g.item.collection_beatmap_ids, row.beatmap_id);
    } else {
        add_distinct_id(&mut g.item.beatmap_ids, row.beatmap_id);
        add_distinct_id(&mut g.item.collection_beatmap_ids, row.beatmap_id);
    }
    let ghost before = g.rows@;
    g.rows.push(i);
    assert(g.rows@.map_values(|k: usize| k as int) =~= before.map_values(|k: usize| k as int).push(i as int));
}

/// Groups playlist rows by beatmapset (see `spec_group_rows`); with
/// `sorted`, each beatmapset's beatmap ids are sorted.
pub fn group_playlist_rows(rows: &Vec<PlaylistRow>, sorted: bool) -> (r: Vec<GroupedItem>)
    ensures
        grouped_views(r@) == spec_group_rows(row_views(rows@), sorted),
{
    let ghost rs = row_views(rows@);
    let mut out: Vec<GroupedItem> = Vec::new();
    let mut i: usize = 0;
    proof {
        assert(rs.take(0) =~= Seq::<RowModel>::empty());
        assert(rs.take(0).map_values(|r: RowModel| r.beatmapset_id) =~= Seq::<u64>::empty());
        assert(grouped_views(out@) =~= spec_group_rows(rs.take(0), sorted));
    }
    while i < rows.len()
        invariant
            i <= rows.len(),
            rs == row_views(rows@),
            grouped_views(out@) == spec_group_rows(rs.take(i as int), sorted),
        decreases rows.len() - i,
    {
        let row = &rows[i];
        let set = row.beatmapset_id;
        let ghost so = set_order(rs.take(i as int));
        assert(rs[i as int] == row@);
        let mut j: usize = 0;
        while j < out.len() && out[j].item.id != set
            invariant
                j <= out.len(),
                grouped_views(out@) == spec_group_rows(rs.take(i as int), sorted),
                so == set_order(rs.take(i as int)),
                forall|k: int| 0 <= k < j ==> so[k] != set,
            decreases out.len() - j,
        {
            proof { lemma_entry_id(out@, rs.take(i as int), sorted, j as int); }
            j = j + 1;
        }
        proof {
            lemma_step_filter(rs, i as int, set);
            lemma_distinct_contains(rs.take(i as int).map_values(|r: RowModel| r.beatmapset_id), set);
        }
        let ghost old_out = grouped_views(out@);
        if j < out.len() {
            proof { lemma_entry_id(out@, rs.take(i as int), sorted, j as int); }
            assert(so[j as int] == set);
            assert(so.contains(set));
            let ghost ms = rs.take(i as int).filter(in_set(set));
            let ghost idx = members(rs.take(i as int), set);
            proof {
                if ms.len() == 0 {
                    assert(old_out[j as int].0 == item_for(rs.take(i as int), set, sorted));
                }
                lemma_set_has_rows(rs.take(i as int), set);
            }
            let ghost before_vec = out@;
            let mut g = out.remove(j);
            extend_grouped(&mut g, row, i, sorted, Ghost(ms), Ghost(idx));
            out.insert(j, g);
            proof {
                let next = spec_group_rows(rs.take(i + 1), sorted);
                assert(set_order(rs.take(i + 1)) == so);
                lemma_distinct_contains(rs.take(i as int).map_values(|r: RowModel| r.beatmapset_id), set);
                assert(so.no_duplicates());
                assert(old_out.len() == so.len());
                assert forall|k: int| 0 <= k < out.len() implies grouped_views(out@)[k] == next[k] by {
                    assert(grouped_views(out@)[k] == grouped_view(out@[k]));
                    assert(next[k] == (item_for(rs.take(i + 1), so[k], sorted), members(rs.take(i + 1), so[k])));
                    assert(old_out[k] == (item_for(rs.take(i as int), so[k], sorted), members(rs.take(i as int), so[k])));
                    if k != j {
                        assert(out@[k] == before_vec[k]);
                        assert(old_out[k] == grouped_view(before_vec[k]));
                        assert(so[k] != so[j as int]);
                        lemma_step_filter(rs, i as int, so[k]);
                    } else {
                        lemma_step_filter(rs, i as int, set);
                    }
                }
                assert(grouped_views(out@) =~= next);
            }
        } else {
            proof {
                assert(grouped_views(out@).len() == out.len());
                assert(spec_group_rows(rs.take(i as int), sorted).len() == so.len());
                assert forall|k: int| 0 <= k < so.len() implies so[k] != set by {
                    lemma_entry_id(out@, rs.take(i as int), sorted, k);
                }
                assert(!so.contains(set));
                lemma_no_rows_of(rs.take(i as int), set);
            }
            let g = new_grouped(row, i, sorted);
            let ghost before_vec = out@;
            out.push(g);
            proof {
                let next = spec_group_rows(rs.take(i + 1), sorted);
                assert(set_order(rs.take(i + 1)) == so.push(set));
                assert(rs.take(i + 1).filter(in_set(set)) =~= seq![row@]);
                assert(members(rs.take(i + 1), set) =~= seq![i as int]);
                assert(old_out.len() == so.len());
                assert forall|k: int| 0 <= k < out.len() implies grouped_views(out@)[k] == next[k] by {
                    assert(grouped_views(out@)[k] == grouped_view(out@[k]));
                    assert(next[k] == (item_for(rs.take(i + 1), set_order(rs.take(i + 1))[k], sorted), members(rs.take(i + 1), set_order(rs.take(i + 1))[k])));
                    if k < before_vec.len() {
                        assert(out@[k] == before_vec[k]);
                        assert(old_out[k] == grouped_view(before_vec[k]));
                        assert(old_out[k] == (item_for(rs.take(i as int), so[k], sorted), members(rs.take(i as int), so[k])));
                        assert(set_order(rs.take(i + 1))[k] == so[k]);
                        lemma_step_filter(rs, i as int, so[k]);
                    } else {
                        assert(set_order(rs.take(i + 1))[k] == set);
                    }
                }
                assert(grouped_views(out@) =~= next);
            }
        }
        i = i + 1;
    }
    assert(rs.take(rows.len() as int) =~= rs);
    out
}

proof fn lemma_set_has_rows(rs: Seq<RowModel>, set: u64)
    requires
        set_order(rs).contains(set),
    ensures
        rs.filter(in_set(set)).len() > 0,
{
    let ids = rs.map_values(|r: RowModel| r.beatmapset_id);
    lemma_distinct_contains(ids, set);
    let k = choose|k: int| 0 <= k < ids.len() && ids[k] == set;
    rs.lemma_filter_contains(in_set(set), k);
}


proof fn lemma_entry_id(out: Seq<GroupedItem>, rs: Seq<RowModel>, sorted: bool, j: int)
    requires
        grouped_views(out) == spec_group_rows(rs, sorted),
        0 <= j < out.len(),
    ensures
        j < set_order(rs).len(),
        out[j].item.id == set_order(rs)[j],
{
    assert(grouped_views(out).len() == out.len());
    assert(spec_group_rows(rs, sorted).len() == set_order(rs).len());
    assert(grouped_views(out)[j] == grouped_view(out[j]));
    assert(spec_group_rows(rs, sorted)[j] == (item_for(rs, set_order(rs)[j], sorted), members(rs, set_order(rs)[j])));
}


/// The order of listed beatmapsets: by artist, then by title.
pub open spec fn name_le(a: ItemModel, b: ItemModel) -> bool {
    (chars_le(a.artist, b.artist) && a.artist != b.artist) || (a.artist == b.artist && chars_le(a.title, b.title))
}

/// Sorted by artist, then title.
pub open spec fn sorted_by_name(v: Seq<(ItemModel, Seq<int>)>) -> bool {
    forall|a: int, b: int| 0 <= a < b < v.len() ==> name_le(#[trigger] v[a].0, #[trigger] v[b].0)
}

proof fn lemma_name_le_total(a: ItemModel, b: ItemModel)
    ensures
        name_le(a, b) || name_le(b, a),
{
    crate::text::lemma_chars_le_total(a.artist, b.artist);
    crate::text::lemma_chars_le_total(a.title, b.title);
}

proof fn lemma_name_le_transitive(a: ItemModel, b: ItemModel, c: ItemModel)
    requires
        name_le(a, b),
        name_le(b, c),
    ensures
        name_le(a, c),
{
    if a.artist == b.artist && b.artist == c.artist {
        crate::text::lemma_chars_le_transitive(a.title, b.title, c.title);
    } else {
        crate::text::lemma_chars_le_reflexive(a.artist);
        crate::text::lemma_chars_le_reflexive(b.artist);
        crate::text::lemma_chars_le_transitive(a.artist, b.artist, c.artist);
        if a.artist == c.artist {
            crate::text::lemma_chars_le_antisymmetric(a.artist, b.artist);
        }
    }
}

fn name_le_exec(a: &BeatmapsetItem, b: &BeatmapsetItem) -> (r: bool)
    ensures
        r == name_le(a@, b@),
{
    let aa = chars_of(a.artist.as_str());
    let ba = chars_of(b.artist.as_str());
    if crate::text::chars_eq(aa.as_slice(), ba.as_slice()) {
        let at = chars_of(a.title.as_str());
        let bt = chars_of(b.title.as_str());
        chars_le_exec(at.as_slice(), bt.as_slice())
    } else {
        chars_le_exec(aa.as_slice(), ba.as_slice())
    }
}

/// Sorts beatmapsets by artist, then title; those that tie keep no
/// particular order.
pub fn sort_grouped(items: Vec<GroupedItem>) -> (r: Vec<GroupedItem>)
    ensures
        sorted_by_name(grouped_views(r@)),
        grouped_views(r@).to_multiset() == grouped_views(items@).to_multiset(),
{
    broadcast use vstd::multiset::group_multiset_axioms;
    let ghost all = grouped_views(items@);
    let mut rest = items;
    let mut out: Vec<GroupedItem> = Vec::new();
    proof {
        assert(grouped_views(out@) =~= Seq::<(ItemModel, Seq<int>)>::empty());
        vstd::seq_lib::to_multiset_len(grouped_views(out@));
        vstd::multiset::lemma_multiset_empty_len(grouped_views(out@).to_multiset());
    }
    assert(grouped_views(rest@) =~= all);
    while rest.len() > 0
        invariant
            sorted_by_name(grouped_views(out@)),
            grouped_views(out@).to_multiset().add(grouped_views(rest@).to_multiset()) == all.to_multiset(),
        decreases rest.len(),
    {
        let ghost rest_before = grouped_views(rest@);
        let x = rest.pop().unwrap();
        proof {
            assert(rest_before =~= grouped_views(rest@).push(grouped_view(x)));
            vstd::seq_lib::to_multiset_build(grouped_views(rest@), grouped_view(x));
        }
        let mut pos: usize = 0;
        while pos < out.len() && name_le_exec(&out[pos].item, &x.item)
            invariant
                pos <= out.len(),
                forall|k: int| 0 <= k < pos ==> name_le(#[trigger] grouped_views(out@)[k].0, x.item@),
            decreases out.len() - pos,
        {
            assert(grouped_views(out@)[pos as int].0 == out@[pos as int].item@);
            pos = pos + 1;
        }
        let ghost ov = grouped_views(out@);
        proof {
            assert forall|k: int| pos <= k < ov.len() implies name_le(x.item@, #[trigger] ov[k].0) by {
                assert(ov[pos as int].0 == out@[pos as int].item@);
                assert(!name_le(ov[pos as int].0, x.item@));
                lemma_name_le_total(ov[pos as int].0, x.item@);
                if k > pos {
                    assert(name_le(ov[pos as int].0, ov[k].0));
                    lemma_name_le_transitive(x.item@, ov[pos as int].0, ov[k].0);
                }
            }
        }
        let ghost xv = grouped_view(x);
        out.insert(pos, x);
        proof {
            assert(grouped_views(out@) =~= ov.insert(pos as int, xv));
            vstd::seq_lib::to_multiset_insert(ov, pos as int, xv);
            let nv = grouped_views(out@);
            assert forall|a: int, b: int| 0 <= a < b < nv.len() implies name_le(#[trigger] nv[a].0, #[trigger] nv[b].0) by {
                if b < pos {
                    assert(nv[a] == ov[a] && nv[b] == ov[b]);
                } else if b == pos {
                    assert(nv[a] == ov[a]);
                } else if a < pos {
                    assert(nv[a] == ov[a] && nv[b] == ov[b - 1]);
                    lemma_name_le_transitive(ov[a].0, xv.0, ov[b - 1].0);
                } else if a == pos {
                    assert(nv[b] == ov[b - 1]);
                } else {
                    assert(nv[a] == ov[a - 1] && nv[b] == ov[b - 1]);
                }
            }
        }
    }
    proof {
        vstd::seq_lib::to_multiset_len(grouped_views(rest@));
        vstd::multiset::lemma_multiset_empty_len(grouped_views(rest@).to_multiset());
    }
    out
}


/// A row's first choice, or its second when the first is missing.
pub open spec fn or_else(a: Option<u64>, b: Option<u64>) -> Option<u64> {
    if a is Some { a } else { b }
}

/// Whether `osu!.db` names both ids of a beatmap.
pub open spec fn has_ids(b: BeatmapModel) -> bool {
    b.beatmapset_id != 0 && b.beatmap_id != 0
}

/// The playlist row of a beatmap from `osu!.db`: its mode (`osu` when
/// blank), and as lengths the drain time or else the total time (shortest)
/// and the total time or else the drain time (longest).
pub open spec fn stable_row(b: BeatmapModel, exists_local: bool, source: Seq<char>) -> RowModel {
    RowModel {
        beatmapset_id: b.beatmapset_id,
        beatmap_id: b.beatmap_id,
        title: b.title,
        artist: b.artist,
        creator: b.creator,
        mode: if trim_ws(b.mode).len() == 0 { "osu"@ } else { b.mode },
        source_collection: source,
        exists_local,
        min_length: or_else(spec_positive(b.drain_time), spec_positive(b.total_time)),
        max_length: or_else(spec_positive(b.total_time), spec_positive(b.drain_time)),
    }
}

/// The indices of the beatmaps that have both ids.
pub open spec fn stable_sources(bs: Seq<BeatmapModel>) -> Seq<int>
    decreases bs.len(),
{
    if bs.len() == 0 {
        Seq::empty()
    } else {
        let prev = stable_sources(bs.drop_last());
        if has_ids(bs.last()) { prev.push(bs.len() - 1) } else { prev }
    }
}

/// The rows of the beatmaps that have both ids.
pub open spec fn stable_rows(bs: Seq<BeatmapModel>, exists_local: bool, source: Seq<char>) -> Seq<RowModel> {
    stable_sources(bs).map_values(|i: int| stable_row(bs[i], exists_local, source))
}

/// Beatmapsets made from beatmaps of `osu!.db`, sorted by artist and title,
/// and for each row index (as `GroupedItem::rows` holds them) the index of
/// its beatmap.
pub struct StableItems {
    pub items: Vec<GroupedItem>,
    pub sources: Vec<usize>,
}

/// Groups beatmaps of `osu!.db` into listed beatmapsets (all with the same
/// playlist name and the same on-disk flag): those without both ids are
/// left out; beatmap ids are sorted.
pub fn stable_beatmaps_to_items(beatmaps: &Vec<StableBeatmapInfo>, exists_local: bool, source_collection: &str) -> (r: StableItems)
    ensures
        r.sources@.map_values(|i: usize| i as int) == stable_sources(beatmap_views(beatmaps@)),
        sorted_by_name(grouped_views(r.items@)),
        grouped_views(r.items@).to_multiset()
            == spec_group_rows(stable_rows(beatmap_views(beatmaps@), exists_local, source_collection@), true).to_multiset(),
{
    let ghost bs = beatmap_views(beatmaps@);
    let mut rows: Vec<PlaylistRow> = Vec::new();
    let mut sources: Vec<usize> = Vec::new();
    let mut i: usize = 0;
    assert(bs.take(0) =~= Seq::<BeatmapModel>::empty());
    while i < beatmaps.len()
        invariant
            i <= beatmaps.len(),
            bs == beatmap_views(beatmaps@),
            sources@.map_values(|k: usize| k as int) == stable_sources(bs.take(i as int)),
            row_views(rows@) == stable_rows(bs.take(i as int), exists_local, source_collection@),
            forall|k: int| 0 <= k < stable_sources(bs.take(i as int)).len() ==> 0 <= #[trigger] stable_sources(bs.take(i as int))[k] < i,
        decreases beatmaps.len() - i,
    {
        let b = &beatmaps[i];
        proof {
            assert(bs[i as int] == b@);
            assert(bs.take(i + 1).drop_last() =~= bs.take(i as int));
            assert(bs.take(i + 1).last() == b@);
        }
        let ghost prev = stable_sources(bs.take(i as int));
        if b.beatmapset_id != 0 && b.beatmap_id != 0 {
            let mode_trim = trim_str(b.mode.as_str());
            let mode = if mode_trim.len() == 0 { "osu".to_string() } else { b.mode.clone() };
            let drain = positive_i32_to_u64(b.drain_time);
            let total = positive_i32_to_u64(b.total_time);
            let row = PlaylistRow {
                beatmapset_id: b.beatmapset_id,
                beatmap_id: b.beatmap_id,
                title: b.title.clone(),
                artist: b.artist.clone(),
                creator: b.creator.clone(),
                mode,
                source_collection: source_collection.to_string(),
                exists_local,
                min_length: if drain.is_some() { drain } else { total },
                max_length: if total.is_some() { total } else { drain },
            };
            let ghost rows_before = rows@;
            let ghost src_before = sources@;
            rows.push(row);
            sources.push(i);
            proof {
                let next = stable_sources(bs.take(i + 1));
                assert(next == prev.push(i as int));
                assert(sources@.map_values(|k: usize| k as int) =~= src_before.map_values(|k: usize| k as int).push(i as int));
                assert forall|k: int| 0 <= k < next.len() implies 0 <= #[trigger] next[k] < i + 1 by {
                    if k < prev.len() { assert(next[k] == prev[k]); }
                }
                assert forall|k: int| 0 <= k < prev.len() implies bs.take(i + 1)[#[trigger] prev[k]] == bs.take(i as int)[prev[k]] by {}
                let target = stable_rows(bs.take(i + 1), exists_local, source_collection@);
                assert(row_views(rows_before) == stable_rows(bs.take(i as int), exists_local, source_collection@));
                assert(row_views(rows_before).len() == prev.len());
                assert(rows@ == rows_before.push(rows@[rows@.len() - 1]));
                assert(row_views(rows@).len() == target.len());
                assert(row_views(rows@)[prev.len() as int] == stable_row(b@, exists_local, source_collection@));
                assert(target[prev.len() as int] == stable_row(bs.take(i + 1)[i as int], exists_local, source_collection@));
                assert forall|k: int| 0 <= k < target.len() implies row_views(rows@)[k] == target[k] by {
                    if k < prev.len() {
                        assert(row_views(rows@)[k] == row_views(rows_before)[k]);
                        assert(row_views(rows_before)[k] == stable_rows(bs.take(i as int), exists_local, source_collection@)[k]);
                        assert(target[k] == stable_row(bs.take(i + 1)[next[k]], exists_local, source_collection@));
                        assert(next[k] == prev[k]);
                    }
                }
                assert(row_views(rows@) =~= target);
            }
        } else {
            proof {
                assert(stable_sources(bs.take(i + 1)) == prev);
                assert forall|k: int| 0 <= k < prev.len() implies bs.take(i + 1)[#[trigger] prev[k]] == bs.take(i as int)[prev[k]] by {}
                assert(stable_rows(bs.take(i + 1), exists_local, source_collection@) =~= stable_rows(bs.take(i as int), exists_local, source_collection@));
            }
        }
        i = i + 1;
    }
    assert(bs.take(beatmaps.len() as int) =~= bs);
    let grouped = group_playlist_rows(&rows, true);
    let items = sort_grouped(grouped);
    StableItems { items, sources }
}


/// `str::lines`: pieces between line feeds, without a carriage return that
/// comes right before a line feed, and without an empty piece at the end.
pub open spec fn std_lines(text: Seq<char>) -> Seq<Seq<char>> {
    let parts = split_on(text, '\n');
    let n = parts.len();
    let body = if n > 0 && parts[n - 1].len() == 0 { parts.drop_last() } else { parts };
    body.map(|i: int, p: Seq<char>| if i < n - 1 && p.len() > 0 && p.last() == '\r' { p.drop_last() } else { p })
}

/// The columns a playlist file is read by, with the message for each that
/// is missing.
pub open spec fn required_columns() -> Seq<(Seq<char>, Seq<char>)> {
    seq![
        ("seekman_export_version"@, "歌单格式过旧：请导入新版 Seekman 导出的 CSV。"@),
        ("beatmapset_id"@, "歌单缺少 beatmapset_id 列。"@),
        ("beatmap_id"@, "歌单缺少 beatmap_id 列。"@),
        ("artist"@, "歌单缺少 artist 列。"@),
        ("title"@, "歌单缺少 title 列。"@),
        ("creator"@, "歌单缺少 creator 列。"@),
        ("mode"@, "歌单缺少 mode 列。"@),
        ("source_collection"@, "歌单缺少 source_collection 列。"@),
        ("ar"@, "歌单缺少 ar 列。"@),
        ("cs"@, "歌单缺少 cs 列。"@),
        ("hp"@, "歌单缺少 hp 列。"@),
        ("od"@, "歌单缺少 od 列。"@),
        ("bpm"@, "歌单缺少 bpm 列。"@),
        ("drain_time"@, "歌单缺少 drain_time 列。"@),
        ("total_time"@, "歌单缺少 total_time 列。"@)
    ]
}

/// The message of the first required column that the header lacks.
pub open spec fn missing_column(headers: Seq<Seq<char>>, req: Seq<(Seq<char>, Seq<char>)>) -> Option<Seq<char>>
    decreases req.len(),
{
    if req.len() == 0 {
        None
    } else if !headers.contains(req[0].0) {
        Some(req[0].1)
    } else {
        missing_column(headers, req.drop_first())
    }
}

/// The positions of the required columns, in the order of
/// `required_columns` (the first header of each name).
pub open spec fn column_positions(headers: Seq<Seq<char>>) -> Seq<int> {
    required_columns().map_values(|c: (Seq<char>, Seq<char>)| index_of(headers, c.0))
}

fn column_table() -> (r: Vec<(&'static str, &'static str)>)
    ensures
        r@.map_values(|c: (&'static str, &'static str)| (c.0@, c.1@)) == required_columns(),
{
    let r = vec![
        ("seekman_export_version", "歌单格式过旧：请导入新版 Seekman 导出的 CSV。"),
        ("beatmapset_id", "歌单缺少 beatmapset_id 列。"),
        ("beatmap_id", "歌单缺少 beatmap_id 列。"),
        ("artist", "歌单缺少 artist 列。"),
        ("title", "歌单缺少 title 列。"),
        ("creator", "歌单缺少 creator 列。"),
        ("mode", "歌单缺少 mode 列。"),
        ("source_collection", "歌单缺少 source_collection 列。"),
        ("ar", "歌单缺少 ar 列。"),
        ("cs", "歌单缺少 cs 列。"),
        ("hp", "歌单缺少 hp 列。"),
        ("od", "歌单缺少 od 列。"),
        ("bpm", "歌单缺少 bpm 列。"),
        ("drain_time", "歌单缺少 drain_time 列。"),
        ("total_time", "歌单缺少 total_time 列。"),
    ];
    assert(r@.map_values(|c: (&'static str, &'static str)| (c.0@, c.1@)) =~= required_columns());
    r
}

fn position_of(headers: &Vec<String>, name: &str) -> (r: usize)
    ensures
        r as int == index_of(views(headers@), name@),
{
    let ghost hs = views(headers@);
    let mut i: usize = 0;
    while i < headers.len() && !str_eq(headers[i].as_str(), name)
        invariant
            i <= headers.len(),
            hs == views(headers@),
            forall|j: int| 0 <= j < i ==> hs[j] != name@,
        decreases headers.len() - i,
    {
        i = i + 1;
    }
    proof {
        crate::store::lemma_index_of_public(hs, name@, i as int);
    }
    i
}

/// Finds the required columns of a playlist header: their positions in
/// the order of `required_columns`, or the message for the first missing.
pub fn playlist_columns(headers: &Vec<String>) -> (r: Result<Vec<usize>, String>)
    ensures
        match r {
            Ok(p) => missing_column(views(headers@), required_columns()) is None
                && p@.map_values(|i: usize| i as int) == column_positions(views(headers@)),
            Err(m) => missing_column(views(headers@), required_columns()) == Some(m@),
        },
{
    let table = column_table();
    let ghost req = required_columns();
    let ghost hs = views(headers@);
    let mut out: Vec<usize> = Vec::new();
    let mut k: usize = 0;
    assert(req.skip(0) =~= req);
    assert(out@.map_values(|i: usize| i as int) =~= req.take(0).map_values(|c: (Seq<char>, Seq<char>)| index_of(hs, c.0)));
    while k < table.len()
        invariant
            k <= table.len(),
            table@.map_values(|c: (&'static str, &'static str)| (c.0@, c.1@)) == req,
            req == required_columns(),
            hs == views(headers@),
            missing_column(hs, req) == missing_column(hs, req.skip(k as int)),
            out@.map_values(|i: usize| i as int) == req.take(k as int).map_values(|c: (Seq<char>, Seq<char>)| index_of(hs, c.0)),
        decreases table.len() - k,
    {
        let (name, message) = table[k];
        assert(req[k as int] == (name@, message@));
        let p = position_of(headers, name);
        proof {
            crate::store::lemma_index_of_bounds_public(hs, name@);
            assert(req.skip(k as int)[0] == req[k as int]);
            assert(req.skip(k as int).drop_first() =~= req.skip(k + 1));
        }
        if p >= headers.len() {
            return Err(message.to_string());
        }
        let ghost before = out@;
        out.push(p);
        assert(req.take(k + 1) =~= req.take(k as int).push(req[k as int]));
        assert(out@.map_values(|i: usize| i as int) =~= before.map_values(|i: usize| i as int).push(p as int));
        assert(req.take(k as int).push(req[k as int]).map_values(|c: (Seq<char>, Seq<char>)| index_of(hs, c.0))
            =~= req.take(k as int).map_values(|c: (Seq<char>, Seq<char>)| index_of(hs, c.0)).push(index_of(hs, name@)));
        assert(out@.map_values(|i: usize| i as int) =~= req.take(k + 1).map_values(|c: (Seq<char>, Seq<char>)| index_of(hs, c.0)));
        k = k + 1;
    }
    assert(req.skip(table.len() as int) =~= Seq::<(Seq<char>, Seq<char>)>::empty());
    assert(req.take(table.len() as int) =~= req);
    Ok(out)
}


/// The cell at `i`, if the row has one.
pub open spec fn cell_at(cells: Seq<Seq<char>>, i: int) -> Option<Seq<char>> {
    if 0 <= i < cells.len() { Some(cells[i]) } else { None }
}

/// A cell that holds more than white space.
pub open spec fn filled(c: Option<Seq<char>>) -> Option<Seq<char>> {
    match c {
        Some(v) => if trim_ws(v).len() > 0 { Some(v) } else { None },
        None => None,
    }
}

pub open spec fn filled_or(c: Option<Seq<char>>, default: Seq<char>) -> Seq<char> {
    match filled(c) {
        Some(v) => v,
        None => default,
    }
}

pub open spec fn parsed_u64(c: Option<Seq<char>>) -> Option<u64> {
    match c {
        Some(v) => spec_parse_u64(v),
        None => None,
    }
}

/// A time cell as a length: a whole number above zero.
pub open spec fn positive_i64(c: Option<Seq<char>>) -> Option<u64> {
    match c {
        Some(v) => match spec_parse_i64(v) {
            Some(n) => if n > 0 { Some(n as u64) } else { None },
            None => None,
        },
        None => None,
    }
}

/// The playlist row that a line's cells give, with the column positions of
/// `column_positions`: none when the version cell is blank or missing or
/// either id is not a number above zero; blank names fall back to
/// `Imported`, `Beatmapset #<id>`, the playlist's name or `歌单导入`, and
/// `osu`; a blank playlist name to `导入歌单`; lengths as for `osu!.db`.
pub open spec fn spec_playlist_row(cells: Seq<Seq<char>>, cols: Seq<int>, locals: Seq<LocalModel>) -> Option<RowModel> {
    let set = parsed_u64(cell_at(cells, cols[1]));
    let map = parsed_u64(cell_at(cells, cols[2]));
    if filled(cell_at(cells, cols[0])) is None || set is None || set->0 == 0 || map is None || map->0 == 0 {
        None
    } else {
        let s = set->0;
        let source = cell_at(cells, cols[7]);
        let drain = positive_i64(cell_at(cells, cols[13]));
        let total = positive_i64(cell_at(cells, cols[14]));
        Some(RowModel {
            beatmapset_id: s,
            beatmap_id: map->0,
            artist: filled_or(cell_at(cells, cols[3]), "Imported"@),
            title: filled_or(cell_at(cells, cols[4]), "Beatmapset #"@ + decimal(s as nat)),
            creator: match filled(cell_at(cells, cols[5])) {
                Some(v) => v,
                None => match filled(source) {
                    Some(v) => "歌单："@ + v,
                    None => "歌单导入"@,
                },
            },
            mode: filled_or(cell_at(cells, cols[6]), "osu"@),
            source_collection: filled_or(source, "导入歌单"@),
            exists_local: local_ids(locals).contains(s),
            min_length: or_else(drain, total),
            max_length: or_else(total, drain),
        })
    }
}

fn get_cell(cells: &Vec<String>, i: usize) -> (r: Option<Vec<char>>)
    ensures
        match r {
            Some(v) => cell_at(views(cells@), i as int) == Some(v@),
            None => cell_at(views(cells@), i as int) is None,
        },
{
    if i < cells.len() {
        Some(chars_of(cells[i].as_str()))
    } else {
        None
    }
}

fn filled_cell(c: &Option<Vec<char>>) -> (r: bool)
    ensures
        r == (filled(match c { Some(v) => Some(v@), None => None }) is Some),
{
    match c {
        Some(v) => trim_str(string_from_chars(v.as_slice()).as_str()).len() > 0,
        None => false,
    }
}

fn cell_u64(c: &Option<Vec<char>>) -> (r: Option<u64>)
    ensures
        r == parsed_u64(match c { Some(v) => Some(v@), None => None }),
{
    match c {
        Some(v) => parse_u64_chars(v.as_slice()),
        None => None,
    }
}

fn cell_length(c: &Option<Vec<char>>) -> (r: Option<u64>)
    ensures
        r == positive_i64(match c { Some(v) => Some(v@), None => None }),
{
    match c {
        Some(v) => match parse_i64_chars(v.as_slice()) {
            Some(n) => if n > 0 { Some(n as u64) } else { None },
            None => None,
        },
        None => None,
    }
}

fn filled_or_exec(c: &Option<Vec<char>>, default: String) -> (r: String)
    ensures
        r@ == filled_or(match c { Some(v) => Some(v@), None => None }, default@),
{
    if filled_cell(c) {
        match c {
            Some(v) => string_from_chars(v.as_slice()),
            None => default,
        }
    } else {
        default
    }
}

fn has_local_id(store: &AppStore, id: u64) -> (r: bool)
    ensures
        r == local_ids(store@.local_beatmapsets).contains(id),
{
    let ghost ids = local_ids(store@.local_beatmapsets);
    let mut i: usize = 0;
    while i < store.local_beatmapsets.len()
        invariant
            i <= store.local_beatmapsets.len(),
            ids == local_ids(store@.local_beatmapsets),
            forall|j: int| 0 <= j < i ==> ids[j] != id,
        decreases store.local_beatmapsets.len() - i,
    {
        assert(ids[i as int] == store.local_beatmapsets@[i as int].beatmapset_id);
        if store.local_beatmapsets[i].beatmapset_id == id {
            assert(ids.contains(id));
            return true;
        }
        i = i + 1;
    }
    false
}

pub open spec fn opt_view(c: Option<Vec<char>>) -> Option<Seq<char>> {
    match c {
        Some(v) => Some(v@),
        None => None,
    }
}

/// The playlist row of a line's cells (see `spec_playlist_row`); `cols`
/// are the positions that `playlist_columns` found.
pub fn playlist_row(cells: &Vec<String>, cols: &Vec<usize>, store: &AppStore) -> (r: Option<PlaylistRow>)
    requires
        cols.len() == 15,
    ensures
        match r {
            Some(row) => spec_playlist_row(views(cells@), cols@.map_values(|i: usize| i as int), store@.local_beatmapsets) == Some(row@),
            None => spec_playlist_row(views(cells@), cols@.map_values(|i: usize| i as int), store@.local_beatmapsets) is None,
        },
{
    let ghost cv = cols@.map_values(|i: usize| i as int);
    assert(forall|k: int| 0 <= k < 15 ==> #[trigger] cv[k] == cols@[k] as int);
    let version = get_cell(cells, cols[0]);
    let set_cell = get_cell(cells, cols[1]);
    let map_cell = get_cell(cells, cols[2]);
    assert(opt_view(version) == cell_at(views(cells@), cv[0]));
    assert(opt_view(set_cell) == cell_at(views(cells@), cv[1]));
    assert(opt_view(map_cell) == cell_at(views(cells@), cv[2]));
    if !filled_cell(&version) {
        return None;
    }
    let set = match cell_u64(&set_cell) {
        Some(v) => v,
        None => return None,
    };
    if set == 0 {
        return None;
    }
    let map = match cell_u64(&map_cell) {
        Some(v) => v,
        None => return None,
    };
    if map == 0 {
        return None;
    }
    let artist_cell = get_cell(cells, cols[3]);
    let title_cell = get_cell(cells, cols[4]);
    let creator_cell = get_cell(cells, cols[5]);
    let mode_cell = get_cell(cells, cols[6]);
    let source_cell = get_cell(cells, cols[7]);
    let drain_cell = get_cell(cells, cols[13]);
    let total_cell = get_cell(cells, cols[14]);
    let artist = filled_or_exec(&artist_cell, "Imported".to_string());
    let title = filled_or_exec(&title_cell, concat_str("Beatmapset #", u64_to_string(set).as_str()));
    let creator = if filled_cell(&creator_cell) {
        filled_or_exec(&creator_cell, String::new())
    } else if filled_cell(&source_cell) {
        let v = filled_or_exec(&source_cell, String::new());
        concat_str("歌单：", v.as_str())
    } else {
        "歌单导入".to_string()
    };
    let mode = filled_or_exec(&mode_cell, "osu".to_string());
    let source = filled_or_exec(&source_cell, "导入歌单".to_string());
    let drain = cell_length(&drain_cell);
    let total = cell_length(&total_cell);
    let exists_local = has_local_id(store, set);
    Some(PlaylistRow {
        beatmapset_id: set,
        beatmap_id: map,
        title,
        artist,
        creator,
        mode,
        source_collection: source,
        exists_local,
        min_length: if drain.is_some() { drain } else { total },
        max_length: if total.is_some() { total } else { drain },
    })
}


pub open spec fn line_views(v: Seq<Vec<char>>) -> Seq<Seq<char>> {
    v.map_values(|l: Vec<char>| l@)
}

pub open spec fn strip_cr_line(p: Seq<char>) -> Seq<char> {
    if p.len() > 0 && p.last() == '\r' { p.drop_last() } else { p }
}

/// The lines of a text (`str::lines`).
pub fn lines_of(text: &str) -> (r: Vec<Vec<char>>)
    ensures
        line_views(r@) == std_lines(text@),
{
    let chars = chars_of(text);
    let ghost s = chars@;
    let ghost mut done: Seq<Seq<char>> = Seq::empty();
    let mut out: Vec<Vec<char>> = Vec::new();
    let mut i: usize = 0;
    assert(s.skip(0) =~= s);
    loop
        invariant
            i <= chars.len(),
            s == chars@,
            s == text@,
            split_on(s, '\n') == done + split_on(s.skip(i as int), '\n'),
            line_views(out@) == done.map_values(|p: Seq<char>| strip_cr_line(p)),
        decreases chars.len() - i,
    {
        let mut j = i;
        while j < chars.len() && chars[j] != '\n'
            invariant
                i <= j <= chars.len(),
                s == chars@,
                forall|k: int| i <= k < j ==> s[k] != '\n',
            decreases chars.len() - j,
        {
            j = j + 1;
        }
        proof { crate::osu_file::lemma_split_step(s, '\n', i as int, j as int); }
        let ghost piece = s.subrange(i as int, j as int);
        if j == chars.len() {
            proof {
                let parts = split_on(s, '\n');
                assert(parts =~= done.push(piece));
                let n = parts.len();
                assert(parts[n - 1] == piece);
            }
            if j > i {
                let line = crate::text::slice_to_vec_range(chars.as_slice(), i, j);
                let ghost before = out@;
                out.push(line);
                proof {
                    let parts = split_on(s, '\n');
                    let n = parts.len();
                    assert(line_views(out@) =~= line_views(before).push(piece));
                    assert(std_lines(text@) =~= parts.map(|k: int, p: Seq<char>| if k < n - 1 && p.len() > 0 && p.last() == '\r' { p.drop_last() } else { p }));
                    assert forall|k: int| 0 <= k < n implies line_views(out@)[k] == std_lines(text@)[k] by {
                        if k < n - 1 {
                            assert(parts[k] == done[k]);
                        }
                    }
                    assert(line_views(out@) =~= std_lines(text@));
                }
            } else {
                proof {
                    let parts = split_on(s, '\n');
                    let n = parts.len();
                    assert(piece.len() == 0);
                    assert(parts.drop_last() =~= done);
                    assert forall|k: int| 0 <= k < done.len() implies line_views(out@)[k] == std_lines(text@)[k] by {
                        assert(parts[k] == done[k]);
                    }
                    assert(line_views(out@) =~= std_lines(text@));
                }
            }
            return out;
        }
        let mut end = j;
        if end > i && chars[end - 1] == '\r' {
            end = end - 1;
        }
        let line = crate::text::slice_to_vec_range(chars.as_slice(), i, end);
        assert(line@ =~= strip_cr_line(piece));
        let ghost before = out@;
        out.push(line);
        proof {
            assert(split_on(s.skip(i as int), '\n') == seq![piece] + split_on(s.skip(j + 1), '\n'));
            assert(done + split_on(s.skip(i as int), '\n') =~= done.push(piece) + split_on(s.skip(j + 1), '\n'));
            assert(line_views(out@) =~= line_views(before).push(strip_cr_line(piece)));
            assert(done.push(piece).map_values(|p: Seq<char>| strip_cr_line(p)) =~= done.map_values(|p: Seq<char>| strip_cr_line(p)).push(strip_cr_line(piece)));
            done = done.push(piece);
        }
        i = j + 1;
    }
}

/// What an imported playlist file gives: the beatmapsets (sorted by artist
/// and title), the cells of the rows they were made from (which
/// `GroupedItem::rows` index), and the column positions.
pub struct ImportedPlaylist {
    pub items: Vec<GroupedItem>,
    pub cells: Vec<Vec<String>>,
    pub columns: Vec<usize>,
}

pub open spec fn cells_views(v: Seq<Vec<String>>) -> Seq<Seq<Seq<char>>> {
    v.map_values(|c: Vec<String>| views(c@))
}

pub open spec fn nonblank_line() -> spec_fn(Seq<char>) -> bool {
    |l: Seq<char>| trim_ws(l).len() > 0
}

/// The cells of the data lines that are not blank.
pub open spec fn data_cells(lines: Seq<Seq<char>>) -> Seq<Seq<Seq<char>>> {
    lines.skip(1).filter(nonblank_line()).map_values(|l: Seq<char>| spec_parse_csv_line(l))
}

pub open spec fn makes_row(cols: Seq<int>, locals: Seq<LocalModel>) -> spec_fn(Seq<Seq<char>>) -> bool {
    |c: Seq<Seq<char>>| spec_playlist_row(c, cols, locals) is Some
}

/// The cells of the lines that make rows.
pub open spec fn kept_cells(lines: Seq<Seq<char>>, cols: Seq<int>, locals: Seq<LocalModel>) -> Seq<Seq<Seq<char>>> {
    data_cells(lines).filter(makes_row(cols, locals))
}

/// The rows those lines make.
pub open spec fn kept_rows(lines: Seq<Seq<char>>, cols: Seq<int>, locals: Seq<LocalModel>) -> Seq<RowModel> {
    kept_cells(lines, cols, locals).map_values(|c: Seq<Seq<char>>| spec_playlist_row(c, cols, locals)->0)
}

/// Reads a playlist file exported by the app: its header must name the
/// required columns (else the message for the first missing); each other
/// line that is not blank and gives a row (see `spec_playlist_row`) is
/// kept; rows are grouped by beatmapset (beatmap ids in the file's order)
/// and sorted by artist and title. An empty file gives nothing.
pub fn import_seekman_playlist(text: &str, store: &AppStore) -> (r: Result<ImportedPlaylist, String>)
    ensures
        std_lines(text@).len() == 0 ==> (r matches Ok(p) && p.items@.len() == 0 && p.cells@.len() == 0),
        std_lines(text@).len() > 0 ==> match r {
            Err(m) => missing_column(spec_parse_csv_line(std_lines(text@)[0]), required_columns()) == Some(m@),
            Ok(p) => {
                let headers = spec_parse_csv_line(std_lines(text@)[0]);
                let cols = column_positions(headers);
                &&& missing_column(headers, required_columns()) is None
                &&& p.columns@.map_values(|i: usize| i as int) == cols
                &&& cells_views(p.cells@) == kept_cells(std_lines(text@), cols, store@.local_beatmapsets)
                &&& sorted_by_name(grouped_views(p.items@))
                &&& grouped_views(p.items@).to_multiset()
                    == spec_group_rows(kept_rows(std_lines(text@), cols, store@.local_beatmapsets), false).to_multiset()
            },
        },
{
    let lines = lines_of(text);
    let ghost ls = std_lines(text@);
    if lines.len() == 0 {
        return Ok(ImportedPlaylist { items: Vec::new(), cells: Vec::new(), columns: Vec::new() });
    }
    assert(line_views(lines@)[0] == lines@[0]@);
    let header = parse_csv_line(string_from_chars(lines[0].as_slice()).as_str());
    let cols = match playlist_columns(&header) {
        Ok(c) => c,
        Err(m) => return Err(m),
    };
    let ghost cv = cols@.map_values(|i: usize| i as int);
    let ghost locals = store@.local_beatmapsets;
    proof {
        assert(cv.len() == 15);
    }
    let mut rows: Vec<PlaylistRow> = Vec::new();
    let mut kept: Vec<Vec<String>> = Vec::new();
    let mut k: usize = 1;
    let ghost data = ls.skip(1);
    assert(data.take(0) =~= Seq::<Seq<char>>::empty());
    assert(cells_views(kept@) =~= Seq::<Seq<Seq<char>>>::empty());
    assert(row_views(rows@) =~= Seq::<RowModel>::empty());
    while k < lines.len()
        invariant
            1 <= k <= lines.len(),
            ls == std_lines(text@),
            line_views(lines@) == ls,
            data == ls.skip(1),
            cols.len() == 15,
            cv == cols@.map_values(|i: usize| i as int),
            locals == store@.local_beatmapsets,
            cells_views(kept@) == data.take(k - 1).filter(nonblank_line()).map_values(|l: Seq<char>| spec_parse_csv_line(l)).filter(makes_row(cv, locals)),
            row_views(rows@) == cells_views(kept@).map_values(|c: Seq<Seq<char>>| spec_playlist_row(c, cv, locals)->0),
        decreases lines.len() - k,
    {
        let ghost line = data[k - 1];
        assert(line == lines@[k as int]@);
        let ghost pre = data.take(k - 1);
        let ghost f0 = pre.filter(nonblank_line());
        proof {
            assert(data.take(k as int) =~= pre.push(line));
            pre.lemma_filter_push(line, nonblank_line());
        }
        let trimmed = trim_str(string_from_chars(lines[k].as_slice()).as_str());
        if trimmed.len() > 0 {
            let cells = parse_csv_line(string_from_chars(lines[k].as_slice()).as_str());
            let ghost m0 = f0.map_values(|l: Seq<char>| spec_parse_csv_line(l));
            proof {
                assert(f0.push(line).map_values(|l: Seq<char>| spec_parse_csv_line(l)) =~= m0.push(views(cells@)));
                m0.lemma_filter_push(views(cells@), makes_row(cv, locals));
            }
            match playlist_row(&cells, &cols, store) {
                Some(row) => {
                    let ghost kb = kept@;
                    let ghost rb = rows@;
                    let ghost rv = row@;
                    rows.push(row);
                    kept.push(cells);
                    proof {
                        assert(cells_views(kept@) =~= cells_views(kb).push(views(cells@)));
                        assert(row_views(rows@) =~= row_views(rb).push(rv));
                        assert(cells_views(kb).push(views(cells@)).map_values(|c: Seq<Seq<char>>| spec_playlist_row(c, cv, locals)->0)
                            =~= cells_views(kb).map_values(|c: Seq<Seq<char>>| spec_playlist_row(c, cv, locals)->0).push(rv));
                    }
                },
                None => {},
            }
        }
        k = k + 1;
    }
    proof {
        assert(data.take(lines.len() - 1) =~= data);
    }
    let grouped = group_playlist_rows(&rows, false);
    let items = sort_grouped(grouped);
    Ok(ImportedPlaylist { items, cells: kept, columns: cols })
}


/// A beatmap of `osu!.db` that a playlist can use: both ids and a hash.
pub open spec fn usable(b: BeatmapModel) -> bool {
    b.beatmapset_id > 0 && b.beatmap_id > 0 && trim_ws(b.md5).len() > 0
}

/// The beatmaps an item asks for: its collection's beatmaps, or all its
/// beatmaps when it names none; ids above zero, once each.
pub open spec fn wanted_ids(item: ItemModel) -> Seq<u64> {
    let ids = if item.collection_beatmap_ids.len() == 0 { item.beatmap_ids } else { item.collection_beatmap_ids };
    distinct(ids.filter(|id: u64| id > 0))
}

/// The beatmaps of `osu!.db` that an item finds: usable, of its
/// beatmapset, and asked for; in the database's order.
pub open spec fn matched(bs: Seq<BeatmapModel>, item: ItemModel) -> Seq<BeatmapModel> {
    bs.filter(|b: BeatmapModel| usable(b) && b.beatmapset_id == item.id && wanted_ids(item).contains(b.beatmap_id))
}

/// The beatmaps an item asks for that were not found, in its order.
pub open spec fn missing_ids(bs: Seq<BeatmapModel>, item: ItemModel) -> Seq<u64> {
    wanted_ids(item).filter(|id: u64| !matched(bs, item).map_values(|b: BeatmapModel| b.beatmap_id).contains(id))
}

/// The hashes that the items find, item by item.
pub open spec fn found_hashes(bs: Seq<BeatmapModel>, items: Seq<ItemModel>) -> Seq<Seq<char>>
    decreases items.len(),
{
    if items.len() == 0 {
        Seq::empty()
    } else {
        found_hashes(bs, items.drop_last()) + matched(bs, items.last()).map_values(|b: BeatmapModel| b.md5)
    }
}

/// The beatmapset ids of the items that found something, once each.
pub open spec fn applied_sets(bs: Seq<BeatmapModel>, items: Seq<ItemModel>) -> Seq<u64>
    decreases items.len(),
{
    if items.len() == 0 {
        Seq::empty()
    } else {
        let prev = applied_sets(bs, items.drop_last());
        let it = items.last();
        if matched(bs, it).len() > 0 && !prev.contains(it.id) { prev.push(it.id) } else { prev }
    }
}

/// The items that stay missing: those that ask for nothing (as they are),
/// and those with beatmaps not found (with only those beatmaps).
pub open spec fn missing_entries(bs: Seq<BeatmapModel>, items: Seq<ItemModel>) -> Seq<(int, Option<Seq<u64>>)>
    decreases items.len(),
{
    if items.len() == 0 {
        Seq::empty()
    } else {
        let prev = missing_entries(bs, items.drop_last());
        let k = items.len() - 1;
        let it = items.last();
        if wanted_ids(it).len() == 0 {
            prev.push((k, None))
        } else if missing_ids(bs, it).len() > 0 {
            prev.push((k, Some(missing_ids(bs, it))))
        } else {
            prev
        }
    }
}

/// An item that stays missing: its index, and the beatmaps still to get
/// (`None`: the item is missing as it is).
pub struct MissingItem {
    pub index: usize,
    pub beatmap_ids: Option<Vec<u64>>,
}

pub open spec fn missing_view(m: MissingItem) -> (int, Option<Seq<u64>>) {
    (m.index as int, match m.beatmap_ids { Some(v) => Some(v@), None => None })
}

/// What putting a playlist's local beatmaps into a collection does: the
/// hashes to add (sorted, once each), how many beatmaps were found, in how
/// many beatmapsets, and the items that stay missing.
pub struct LocalApplyPlan {
    pub hashes: Vec<String>,
    pub applied_count: usize,
    pub applied_beatmapset_count: usize,
    pub missing: Vec<MissingItem>,
}

fn wanted_of(item: &BeatmapsetItem) -> (r: Vec<u64>)
    ensures
        r@ == wanted_ids(item@),
{
    let source = if item.collection_beatmap_ids.len() == 0 { &item.beatmap_ids } else { &item.collection_beatmap_ids };
    let ghost src = source@;
    let ghost p = |id: u64| id > 0;
    let mut out: Vec<u64> = Vec::new();
    let mut i: usize = 0;
    assert(src.take(0).filter(p) =~= Seq::<u64>::empty());
    while i < source.len()
        invariant
            i <= source.len(),
            src == source@,
            p == (|id: u64| id > 0),
            out@ == distinct(src.take(i as int).filter(p)),
        decreases source.len() - i,
    {
        let id = source[i];
        proof {
            assert(src.take(i + 1) =~= src.take(i as int).push(id));
            src.take(i as int).lemma_filter_push(id, p);
        }
        if id > 0 {
            let ghost f = src.take(i as int).filter(p);
            assert(f.push(id).drop_last() =~= f);
            let mut seen = false;
            let mut k: usize = 0;
            while k < out.len()
                invariant
                    k <= out.len(),
                    seen <==> exists|j: int| 0 <= j < k && out@[j] == id,
                decreases out.len() - k,
            {
                if out[k] == id {
                    seen = true;
                }
                k = k + 1;
            }
            proof {
                if out@.contains(id) {
                    let j = choose|j: int| 0 <= j < out@.len() && out@[j] == id;
                    assert(seen);
                }
            }
            if !seen {
                out.push(id);
            }
        }
        i = i + 1;
    }
    assert(src.take(source.len() as int) =~= src);
    out
}

fn contains_u64(v: &Vec<u64>, x: u64) -> (r: bool)
    ensures
        r == v@.contains(x),
{
    let mut i: usize = 0;
    while i < v.len()
        invariant
            i <= v.len(),
            forall|j: int| 0 <= j < i ==> v@[j] != x,
        decreases v.len() - i,
    {
        if v[i] == x {
            assert(v@[i as int] == x);
            return true;
        }
        i = i + 1;
    }
    false
}

/// Plans putting a playlist's beatmaps that are on disk into a collection
/// (see `found_hashes`, `applied_sets` and `missing_entries`).
pub fn apply_local_playlist_items(beatmaps: &Vec<StableBeatmapInfo>, items: &Vec<BeatmapsetItem>) -> (r: LocalApplyPlan)
    ensures
        views(r.hashes@) == merged_hashes(Seq::empty(), found_hashes(beatmap_views(beatmaps@), item_views(items@))),
        r.applied_count == found_hashes(beatmap_views(beatmaps@), item_views(items@)).len(),
        r.applied_beatmapset_count == applied_sets(beatmap_views(beatmaps@), item_views(items@)).len(),
        r.missing@.map_values(|m: MissingItem| missing_view(m)) == missing_entries(beatmap_views(beatmaps@), item_views(items@)),
{
    let ghost bs = beatmap_views(beatmaps@);
    let ghost its = item_views(items@);
    let mut raw: Vec<String> = Vec::new();
    let mut sets: Vec<u64> = Vec::new();
    let mut missing: Vec<MissingItem> = Vec::new();
    let mut i: usize = 0;
    assert(its.take(0) =~= Seq::<ItemModel>::empty());
    assert(views(raw@) =~= Seq::<Seq<char>>::empty());
    assert(missing@.map_values(|m: MissingItem| missing_view(m)) =~= Seq::<(int, Option<Seq<u64>>)>::empty());
    while i < items.len()
        invariant
            i <= items.len(),
            bs == beatmap_views(beatmaps@),
            its == item_views(items@),
            views(raw@) == found_hashes(bs, its.take(i as int)),
            sets@ == applied_sets(bs, its.take(i as int)),
            missing@.map_values(|m: MissingItem| missing_view(m)) == missing_entries(bs, its.take(i as int)),
        decreases items.len() - i,
    {
        let item = &items[i];
        proof {
            assert(its[i as int] == item@);
            assert(its.take(i + 1).drop_last() =~= its.take(i as int));
            assert(its.take(i + 1).last() == item@);
        }
        let wanted = wanted_of(item);
        let ghost mp = |b: BeatmapModel| usable(b) && b.beatmapset_id == item@.id && wanted_ids(item@).contains(b.beatmap_id);
        let mut found: Vec<u64> = Vec::new();
        let ghost raw0 = views(raw@);
        let mut j: usize = 0;
        assert(bs.take(0).filter(mp) =~= Seq::<BeatmapModel>::empty());
        while j < beatmaps.len()
            invariant
                j <= beatmaps.len(),
                bs == beatmap_views(beatmaps@),
                wanted@ == wanted_ids(item@),
                mp == (|b: BeatmapModel| usable(b) && b.beatmapset_id == item@.id && wanted_ids(item@).contains(b.beatmap_id)),
                views(raw@) == raw0 + bs.take(j as int).filter(mp).map_values(|b: BeatmapModel| b.md5),
                found@ == bs.take(j as int).filter(mp).map_values(|b: BeatmapModel| b.beatmap_id),
            decreases beatmaps.len() - j,
        {
            let b = &beatmaps[j];
            proof {
                assert(bs[j as int] == b@);
                assert(bs.take(j + 1) =~= bs.take(j as int).push(b@));
                bs.take(j as int).lemma_filter_push(b@, mp);
            }
            let md5_trim = trim_str(b.md5.as_str());
            if b.beatmapset_id > 0 && b.beatmap_id > 0 && md5_trim.len() > 0 && b.beatmapset_id == item.id && contains_u64(&wanted, b.beatmap_id) {
                let ghost f = bs.take(j as int).filter(mp);
                let ghost rb = raw@;
                raw.push(b.md5.clone());
                found.push(b.beatmap_id);
                assert(views(raw@) =~= views(rb).push(b@.md5));
                assert(f.push(b@).map_values(|x: BeatmapModel| x.md5) =~= f.map_values(|x: BeatmapModel| x.md5).push(b@.md5));
                assert(f.push(b@).map_values(|x: BeatmapModel| x.beatmap_id) =~= f.map_values(|x: BeatmapModel| x.beatmap_id).push(b@.beatmap_id));
            }
            j = j + 1;
        }
        proof {
            assert(bs.take(beatmaps.len() as int) =~= bs);
            assert(bs.filter(mp) == matched(bs, item@));
        }
        let had = found.len() > 0;
        if had && !contains_u64(&sets, item.id) {
            sets.push(item.id);
        }
        let ghost fm = |id: u64| !matched(bs, item@).map_values(|b: BeatmapModel| b.beatmap_id).contains(id);
        let mut left: Vec<u64> = Vec::new();
        let mut k: usize = 0;
        assert(wanted@.take(0).filter(fm) =~= Seq::<u64>::empty());
        while k < wanted.len()
            invariant
                k <= wanted.len(),
                found@ == matched(bs, item@).map_values(|b: BeatmapModel| b.beatmap_id),
                fm == (|id: u64| !matched(bs, item@).map_values(|b: BeatmapModel| b.beatmap_id).contains(id)),
                left@ == wanted@.take(k as int).filter(fm),
            decreases wanted.len() - k,
        {
            let id = wanted[k];
            proof {
                assert(wanted@.take(k + 1) =~= wanted@.take(k as int).push(id));
                wanted@.take(k as int).lemma_filter_push(id, fm);
            }
            if !contains_u64(&found, id) {
                left.push(id);
            }
            k = k + 1;
        }
        assert(wanted@.take(wanted.len() as int) =~= wanted@);
        let ghost mb = missing@;
        if wanted.len() == 0 {
            missing.push(MissingItem { index: i, beatmap_ids: None });
            assert(missing@.map_values(|m: MissingItem| missing_view(m)) =~= mb.map_values(|m: MissingItem| missing_view(m)).push((i as int, None)));
        } else if left.len() > 0 {
            let ghost lv = left@;
            missing.push(MissingItem { index: i, beatmap_ids: Some(left) });
            assert(missing@.map_values(|m: MissingItem| missing_view(m)) =~= mb.map_values(|m: MissingItem| missing_view(m)).push((i as int, Some(lv))));
        }
        i = i + 1;
    }
    assert(its.take(items.len() as int) =~= its);
    let hashes = sorted_unique_strings(&raw);
    LocalApplyPlan {
        hashes,
        applied_count: raw.len(),
        applied_beatmapset_count: sets.len(),
        missing,
    }
}

}
