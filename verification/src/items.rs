//! Beatmapsets as the app lists them (search results, playlist rows), with
//! what is known of them besides difficulty numbers.
use vstd::prelude::*;
use crate::store::{has_local, is_local, AppStore};
use crate::text::{chars_of, concat_str, str_eq, string_from_chars, trim_str, trim_ws, views};

verus! {

/// A listed beatmapset as values.
pub struct ItemModel {
    pub id: u64,
    pub title: Seq<char>,
    pub artist: Seq<char>,
    pub creator: Seq<char>,
    pub ranked_date: Seq<char>,
    pub status: Seq<char>,
    pub modes: Seq<Seq<char>>,
    pub min_length: Option<u64>,
    pub max_length: Option<u64>,
    pub key_counts: Seq<u8>,
    pub beatmap_ids: Seq<u64>,
    pub collection_beatmap_ids: Seq<u64>,
    pub source_collection: Seq<char>,
    pub playcount: u64,
    pub favourite_count: u64,
    pub exists_local: Option<bool>,
}

/// A listed beatmapset: its names, status, modes, lengths in seconds, key
/// counts (mania), beatmap ids, the beatmaps a playlist puts in a
/// collection, and whether it is on disk. (Star ratings and the other
/// difficulty numbers are fractional and are kept beside it by the app.)
pub struct BeatmapsetItem {
    pub id: u64,
    pub title: String,
    pub artist: String,
    pub creator: String,
    pub ranked_date: String,
    pub status: String,
    pub modes: Vec<String>,
    pub min_length: Option<u64>,
    pub max_length: Option<u64>,
    pub key_counts: Vec<u8>,
    pub beatmap_ids: Vec<u64>,
    pub collection_beatmap_ids: Vec<u64>,
    pub source_collection: String,
    pub playcount: u64,
    pub favourite_count: u64,
    pub exists_local: Option<bool>,
}

impl View for BeatmapsetItem {
    type V = ItemModel;

    open spec fn view(&self) -> ItemModel {
        ItemModel {
            id: self.id,
            title: self.title@,
            artist: self.artist@,
            creator: self.creator@,
            ranked_date: self.ranked_date@,
            status: self.status@,
            modes: views(self.modes@),
            min_length: self.min_length,
            max_length: self.max_length,
            key_counts: self.key_counts@,
            beatmap_ids: self.beatmap_ids@,
            collection_beatmap_ids: self.collection_beatmap_ids@,
            source_collection: self.source_collection@,
            playcount: self.playcount,
            favourite_count: self.favourite_count,
            exists_local: self.exists_local,
        }
    }
}

pub open spec fn item_views(v: Seq<BeatmapsetItem>) -> Seq<ItemModel> {
    v.map_values(|i: BeatmapsetItem| i@)
}

/// The distinct values of `s` in the order they first come.
pub open spec fn distinct<T>(s: Seq<T>) -> Seq<T>
    decreases s.len(),
{
    if s.len() == 0 {
        Seq::empty()
    } else {
        let prev = distinct(s.drop_last());
        if prev.contains(s.last()) { prev } else { prev.push(s.last()) }
    }
}

/// The playlist names of items, trimmed, where they have one.
pub open spec fn playlist_sources(items: Seq<ItemModel>) -> Seq<Seq<char>>
    decreases items.len(),
{
    if items.len() == 0 {
        Seq::empty()
    } else {
        let prev = playlist_sources(items.drop_last());
        let v = trim_ws(items.last().source_collection);
        if v.len() == 0 { prev } else { prev.push(v) }
    }
}

/// Where a group of downloads comes from: the playlist when all items name
/// the same one, `多个歌单导入` when they name several, else `搜索结果`.
pub open spec fn spec_group_source(items: Seq<ItemModel>) -> Seq<char> {
    let d = distinct(playlist_sources(items));
    if d.len() == 1 {
        "歌单："@ + d[0]
    } else if d.len() > 1 {
        "多个歌单导入"@
    } else {
        "搜索结果"@
    }
}

fn contains_text(v: &Vec<String>, x: &Vec<char>) -> (r: bool)
    ensures
        r == views(v@).contains(x@),
{
    let mut i: usize = 0;
    while i < v.len()
        invariant
            i <= v.len(),
            forall|k: int| 0 <= k < i ==> v@[k]@ != x@,
        decreases v.len() - i,
    {
        let c = chars_of(v[i].as_str());
        if crate::text::chars_eq(c.as_slice(), x.as_slice()) {
            assert(views(v@)[i as int] == x@);
            return true;
        }
        i = i + 1;
    }
    proof {
        if views(v@).contains(x@) {
            let k = choose|k: int| 0 <= k < views(v@).len() && views(v@)[k] == x@;
            assert(v@[k]@ == x@);
        }
    }
    false
}

/// Names where a group of downloads comes from (see `spec_group_source`).
pub fn group_source_from_items(items: &Vec<BeatmapsetItem>) -> (r: String)
    ensures
        r@ == spec_group_source(item_views(items@)),
{
    let ghost its = item_views(items@);
    let mut seen: Vec<String> = Vec::new();
    let mut i: usize = 0;
    assert(its.take(0) =~= Seq::<ItemModel>::empty());
    assert(views(seen@) =~= Seq::<Seq<char>>::empty());
    while i < items.len()
        invariant
            i <= items.len(),
            its == item_views(items@),
            views(seen@) == distinct(playlist_sources(its.take(i as int))),
        decreases items.len() - i,
    {
        let v = trim_str(items[i].source_collection.as_str());
        proof {
            assert(its[i as int] == items@[i as int]@);
            assert(its.take(i + 1).drop_last() =~= its.take(i as int));
            assert(its.take(i + 1).last() == its[i as int]);
        }
        let ghost ps0 = playlist_sources(its.take(i as int));
        if v.len() > 0 {
            assert(playlist_sources(its.take(i + 1)) == ps0.push(v@));
            assert(ps0.push(v@).drop_last() =~= ps0);
            if !contains_text(&seen, &v) {
                let ghost before = seen@;
                seen.push(string_from_chars(v.as_slice()));
                assert(views(seen@) =~= views(before).push(v@));
            }
        } else {
            assert(playlist_sources(its.take(i + 1)) == ps0);
        }
        i = i + 1;
    }
    assert(its.take(items.len() as int) =~= its);
    if seen.len() == 1 {
        concat_str("歌单：", seen[0].as_str())
    } else if seen.len() > 1 {
        "多个歌单导入".to_string()
    } else {
        "搜索结果".to_string()
    }
}

/// The item marked with whether it is on disk.
pub open spec fn with_exists(item: ItemModel, exists: bool) -> ItemModel {
    ItemModel { exists_local: Some(exists), ..item }
}

/// Marks each item with whether its beatmapset is on disk for the chosen
/// local source.
pub fn mark_existing_items(items: &mut Vec<BeatmapsetItem>, store: &AppStore)
    ensures
        final(items)@.len() == old(items)@.len(),
        forall|i: int| 0 <= i < old(items)@.len() ==> (#[trigger] final(items)@[i])@ == with_exists(old(items)@[i]@, has_local(store@, old(items)@[i].id)),
{
    let mut i: usize = 0;
    while i < items.len()
        invariant
            i <= items.len(),
            items@.len() == old(items)@.len(),
            forall|j: int| 0 <= j < i ==> (#[trigger] items@[j])@ == with_exists(old(items)@[j]@, has_local(store@, old(items)@[j].id)),
            forall|j: int| i <= j < items@.len() ==> #[trigger] items@[j] == old(items)@[j],
        decreases items.len() - i,
    {
        let found = is_local(store, items[i].id);
        items[i].exists_local = Some(found);
        i = i + 1;
    }
}

/// The items with a beatmapset id seen before left out (the first stays).
pub open spec fn dedupe_items(items: Seq<ItemModel>) -> Seq<ItemModel>
    decreases items.len(),
{
    if items.len() == 0 {
        Seq::empty()
    } else {
        let prev = dedupe_items(items.drop_last());
        if prev.map_values(|i: ItemModel| i.id).contains(items.last().id) { prev } else { prev.push(items.last()) }
    }
}

/// Keeps the first item of each beatmapset id, in order.
pub fn dedupe_by_id(items: Vec<BeatmapsetItem>) -> (r: Vec<BeatmapsetItem>)
    ensures
        item_views(r@) == dedupe_items(item_views(items@)),
{
    let ghost its = item_views(items@);
    let mut out: Vec<BeatmapsetItem> = Vec::new();
    let mut ids: Vec<u64> = Vec::new();
    let mut rest = items;
    let mut taken: Vec<BeatmapsetItem> = Vec::new();
    let ghost n = its.len();
    while rest.len() > 0
        invariant
            n == its.len(),
            rest.len() + taken.len() == n,
            forall|k: int| 0 <= k < rest.len() ==> (#[trigger] rest@[k])@ == its[k],
            forall|k: int| 0 <= k < taken.len() ==> (#[trigger] taken@[k])@ == its[n - 1 - k],
        decreases rest.len(),
    {
        let x = rest.pop().unwrap();
        taken.push(x);
    }
    assert(item_views(out@) =~= dedupe_items(its.take(0)));
    while taken.len() > 0
        invariant
            n == its.len(),
            taken.len() <= n,
            forall|k: int| 0 <= k < taken.len() ==> (#[trigger] taken@[k])@ == its[n - 1 - k],
            item_views(out@) == dedupe_items(its.take(n - taken.len())),
            ids@ == item_views(out@).map_values(|i: ItemModel| i.id),
        decreases taken.len(),
    {
        let ghost i = n - taken.len();
        let item = taken.pop().unwrap();
        assert(item@ == its[i]);
        proof {
            assert(its.take(i + 1).drop_last() =~= its.take(i));
            assert(its.take(i + 1).last() == its[i]);
        }
        let mut seen = false;
        let mut k: usize = 0;
        while k < ids.len()
            invariant
                k <= ids.len(),
                seen <==> exists|j: int| 0 <= j < k && ids@[j] == item.id,
            decreases ids.len() - k,
        {
            if ids[k] == item.id {
                seen = true;
            }
            k = k + 1;
        }
        proof {
            if seen {
                let j = choose|j: int| 0 <= j < ids@.len() && ids@[j] == item.id;
                assert(item_views(out@).map_values(|i: ItemModel| i.id)[j] == item.id);
            }
            if item_views(out@).map_values(|i: ItemModel| i.id).contains(item.id) {
                let j = choose|j: int| 0 <= j < ids@.len() && ids@[j] == item.id;
                assert(ids@[j] == item.id);
            }
        }
        if !seen {
            let ghost before = out@;
            let id = item.id;
            out.push(item);
            ids.push(id);
            assert(item_views(out@) =~= item_views(before).push(its[i]));
            assert(ids@ =~= item_views(out@).map_values(|i: ItemModel| i.id));
        }
    }
    assert(its.take(n as int) =~= its);
    out
}

}
