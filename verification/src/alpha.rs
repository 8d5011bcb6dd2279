//! Recommendations from AlphaOsu!: reading its answers into listed
//! beatmapsets.
use vstd::prelude::*;
use crate::items::{item_views, BeatmapsetItem, ItemModel};
use crate::search::{spec_mode_query, spec_parse_u64_filter, spec_parse_u8_filter, str_of};
use crate::text::{
    chars_of, concat_str, decimal, find_chars, occurs_at, parse_u64_chars, spec_parse_u64, str_eq,
    string_from_chars, trim_chars, trim_ws, views,
};

verus! {

/// The artist and title of an AlphaOsu! map name `<artist> - <title>`
/// (split at the first ` - `, each trimmed); without one, the artist is
/// `AlphaOsu!` and the title the whole name, trimmed.
pub open spec fn spec_split_map_name(value: Seq<char>) -> (Seq<char>, Seq<char>) {
    if exists|i: int| occurs_at(value, " - "@, i) {
        let i = choose|i: int| occurs_at(value, " - "@, i) && forall|j: int| 0 <= j < i ==> !occurs_at(value, " - "@, j);
        (trim_ws(value.take(i)), trim_ws(value.skip(i + 3)))
    } else {
        ("AlphaOsu!"@, trim_ws(value))
    }
}

pub fn split_alpha_map_name(value: &str) -> (r: (String, String))
    ensures
        (r.0@, r.1@) == spec_split_map_name(value@),
{
    let chars = chars_of(value);
    let sep = chars_of(" - ");
    proof { reveal_strlit(" - "); }
    assert(sep@.len() == 3);
    match find_chars(chars.as_slice(), sep.as_slice(), 0) {
        Some(i) => {
            assert(occurs_at(chars@, sep@, i as int));
            assert(i + 3 <= chars.len());
            let artist = crate::text::slice_to_vec_range(chars.as_slice(), 0, i);
            let title = crate::text::slice_to_vec_range(chars.as_slice(), i + 3, chars.len());
            proof {
                assert(exists|k: int| occurs_at(value@, " - "@, k));
                let k = choose|k: int| occurs_at(value@, " - "@, k) && forall|j: int| 0 <= j < k ==> !occurs_at(value@, " - "@, j);
                if k < i {
                } else if k > i {
                    assert(!occurs_at(value@, " - "@, i as int));
                }
                assert(k == i);
                assert(artist@ =~= value@.take(i as int));
                assert(title@ =~= value@.skip(i + 3));
            }
            let a = trim_chars(artist.as_slice());
            let t = trim_chars(title.as_slice());
            (string_from_chars(a.as_slice()), string_from_chars(t.as_slice()))
        },
        None => {
            let t = trim_chars(chars.as_slice());
            ("AlphaOsu!".to_string(), string_from_chars(t.as_slice()))
        },
    }
}

/// The number AlphaOsu! uses for a mode (`std` and `ctb` are also
/// accepted).
pub open spec fn spec_alpha_mode(v: Option<Seq<char>>) -> Option<u64> {
    if v == Some("osu"@) || v == Some("std"@) {
        Some(0)
    } else if v == Some("taiko"@) {
        Some(1)
    } else if v == Some("fruits"@) || v == Some("ctb"@) {
        Some(2)
    } else if v == Some("mania"@) {
        Some(3)
    } else {
        None
    }
}

/// Law: the mode numbers sent to AlphaOsu! are osu!'s own. For each of
/// osu!'s mode names (`osu`, `taiko`, `fruits`, `mania`) the number is the
/// one an osu! search sends for that name, and the names a search does not
/// know give no number but for the aliases `std` and `ctb`.
pub proof fn law_alpha_mode_matches_osu(mode: Seq<char>)
    ensures
        spec_mode_query(mode) matches Some(q) ==> spec_alpha_mode(Some(mode)) matches Some(n) && decimal(n as nat) == q,
        spec_mode_query(mode) is None && mode != "std"@ && mode != "ctb"@ ==> spec_alpha_mode(Some(mode)) is None,
        spec_alpha_mode(Some("std"@)) == spec_alpha_mode(Some("osu"@)),
        spec_alpha_mode(Some("ctb"@)) == spec_alpha_mode(Some("fruits"@)),
{
    reveal_strlit("osu");
    reveal_strlit("std");
    reveal_strlit("taiko");
    reveal_strlit("fruits");
    reveal_strlit("ctb");
    reveal_strlit("mania");
    reveal_strlit("0");
    reveal_strlit("1");
    reveal_strlit("2");
    reveal_strlit("3");
    assert(decimal(0) =~= "0"@);
    assert(decimal(1) =~= "1"@);
    assert(decimal(2) =~= "2"@);
    assert(decimal(3) =~= "3"@);
    assert("osu"@.len() == 3 && "std"@.len() == 3 && "taiko"@.len() == 5 && "fruits"@.len() == 6);
    assert("ctb"@.len() == 3 && "mania"@.len() == 5);
    assert("osu"@[0] != "std"@[0] && "osu"@[0] != "ctb"@[0] && "std"@[0] != "ctb"@[0] && "taiko"@[0] != "mania"@[0]);
}

pub fn alpha_mode_value(value: Option<&str>) -> (r: Option<u64>)
    ensures
        r == spec_alpha_mode(str_of(value)),
{
    match value {
        Some(v) => {
            if str_eq(v, "osu") || str_eq(v, "std") {
                Some(0)
            } else if str_eq(v, "taiko") {
                Some(1)
            } else if str_eq(v, "fruits") || str_eq(v, "ctb") {
                Some(2)
            } else if str_eq(v, "mania") {
                Some(3)
            } else {
                None
            }
        },
        None => None,
    }
}

/// `s` without the `c`s at its end.
pub open spec fn trim_end_char(s: Seq<char>, c: char) -> Seq<char>
    decreases s.len(),
{
    if s.len() > 0 && s.last() == c { trim_end_char(s.drop_last(), c) } else { s }
}

/// What follows the last `c` in `s` (all of `s` when there is none).
pub open spec fn after_last(s: Seq<char>, c: char) -> Seq<char>
    decreases s.len(),
{
    if s.len() == 0 {
        s
    } else if s.last() == c {
        Seq::empty()
    } else {
        after_last(s.drop_last(), c).push(s.last())
    }
}

/// The number at the end of a URL: its last path segment (trailing slashes
/// left out), when that is a `u64`.
pub open spec fn spec_last_number(value: Seq<char>) -> Option<u64> {
    spec_parse_u64(after_last(trim_end_char(value, '/'), '/'))
}

fn trimmed_end(chars: &Vec<char>) -> (end: usize)
    ensures
        end <= chars.len(),
        chars@.take(end as int) == trim_end_char(chars@, '/'),
{
    let mut end = chars.len();
    assert(chars@.take(end as int) =~= chars@);
    while end > 0 && chars[end - 1] == '/'
        invariant
            end <= chars.len(),
            trim_end_char(chars@, '/') == trim_end_char(chars@.take(end as int), '/'),
        decreases end,
    {
        assert(chars@.take(end as int).drop_last() =~= chars@.take(end - 1));
        end = end - 1;
    }
    end
}

fn segment_start(chars: &Vec<char>, end: usize) -> (start: usize)
    requires
        end <= chars.len(),
    ensures
        start <= end,
        chars@.subrange(start as int, end as int) == after_last(chars@.take(end as int), '/'),
{
    let ghost t = chars@.take(end as int);
    let mut start = end;
    assert(t.take(start as int) =~= t);
    assert(t.skip(start as int) =~= Seq::<char>::empty());
    assert(after_last(t, '/') =~= after_last(t.take(start as int), '/') + t.skip(start as int));
    while start > 0 && chars[start - 1] != '/'
        invariant
            start <= end <= chars.len(),
            t == chars@.take(end as int),
            after_last(t, '/') == after_last(t.take(start as int), '/') + t.skip(start as int),
        decreases start,
    {
        proof {
            let u = t.take(start as int);
            assert(u.drop_last() =~= t.take(start - 1));
            assert(u.last() == chars@[start - 1]);
            assert(after_last(t.take(start - 1), '/').push(chars@[start - 1]) + t.skip(start as int)
                =~= after_last(t.take(start - 1), '/') + t.skip(start - 1));
        }
        start = start - 1;
    }
    proof {
        if start > 0 {
            assert(t.take(start as int).last() == '/');
        }
        assert(after_last(t.take(start as int), '/') =~= Seq::<char>::empty());
        assert(chars@.subrange(start as int, end as int) =~= t.skip(start as int));
    }
    start
}

pub fn last_number_in_url(value: &str) -> (r: Option<u64>)
    ensures
        r == spec_last_number(value@),
{
    let chars = chars_of(value);
    let end = trimmed_end(&chars);
    let start = segment_start(&chars, end);
    let seg = crate::text::slice_to_vec_range(chars.as_slice(), start, end);
    parse_u64_chars(seg.as_slice())
}

/// What comes before the first `c` in `s` (all of `s` when there is none).
pub open spec fn before_first(s: Seq<char>, c: char) -> Seq<char>
    decreases s.len(),
{
    if s.len() == 0 || s[0] == c { Seq::empty() } else { seq![s[0]] + before_first(s.drop_first(), c) }
}

fn before_first_exec(s: &[char], c: char) -> (r: Vec<char>)
    ensures
        r@ == before_first(s@, c),
{
    let mut i: usize = 0;
    assert(s@.skip(0) =~= s@);
    assert(s@.take(0) =~= Seq::<char>::empty());
    while i < s.len() && s[i] != c
        invariant
            i <= s.len(),
            before_first(s@, c) == s@.take(i as int) + before_first(s@.skip(i as int), c),
        decreases s.len() - i,
    {
        let ghost rest = s@.skip(i as int);
        assert(rest[0] == s@[i as int]);
        assert(rest.drop_first() =~= s@.skip(i + 1));
        assert(s@.take(i as int) + (seq![s@[i as int]] + before_first(s@.skip(i + 1), c)) =~= s@.take(i + 1) + before_first(s@.skip(i + 1), c));
        i = i + 1;
    }
    proof {
        if i < s.len() {
            assert(s@.skip(i as int)[0] == c);
        }
        assert(before_first(s@.skip(i as int), c) =~= Seq::<char>::empty());
        assert(s@.take(i as int) + Seq::<char>::empty() =~= s@.take(i as int));
    }
    crate::text::slice_to_vec_range(s, 0, i)
}

/// The beatmap id of an AlphaOsu! map: the number before the first `/` of
/// its id, else the number at the end of its link.
pub open spec fn spec_alpha_beatmap_id(id: Option<Seq<char>>, link: Option<Seq<char>>) -> Option<u64> {
    let from_id = match id {
        Some(v) => spec_parse_u64(before_first(v, '/')),
        None => None,
    };
    if from_id is Some {
        from_id
    } else {
        match link {
            Some(l) => spec_last_number(l),
            None => None,
        }
    }
}

pub fn alpha_beatmap_id(id: Option<&str>, map_link: Option<&str>) -> (r: Option<u64>)
    ensures
        r == spec_alpha_beatmap_id(str_of(id), str_of(map_link)),
{
    let from_id = match id {
        Some(v) => {
            let c = chars_of(v);
            let head = before_first_exec(c.as_slice(), '/');
            parse_u64_chars(head.as_slice())
        },
        None => None,
    };
    if from_id.is_some() {
        return from_id;
    }
    match map_link {
        Some(l) => last_number_in_url(l),
        None => None,
    }
}

/// The beatmapset id in an AlphaOsu! cover URL: the number between the
/// first `/beatmaps/` and the `/` after it.
pub open spec fn spec_alpha_beatmapset_id(cover: Option<Seq<char>>) -> Option<u64> {
    match cover {
        Some(c) => if exists|i: int| occurs_at(c, "/beatmaps/"@, i) {
            let i = choose|i: int| occurs_at(c, "/beatmaps/"@, i) && forall|j: int| 0 <= j < i ==> !occurs_at(c, "/beatmaps/"@, j);
            let rest = c.skip(i + 10);
            let seg = if exists|k: int| occurs_at(rest, "/beatmaps/"@, k) {
                rest.take(choose|k: int| occurs_at(rest, "/beatmaps/"@, k) && forall|j: int| 0 <= j < k ==> !occurs_at(rest, "/beatmaps/"@, j))
            } else {
                rest
            };
            spec_parse_u64(before_first(seg, '/'))
        } else {
            None
        },
        None => None,
    }
}

/// The AlphaOsu! request settings: the mode asked for (else the account's,
/// else mania), the key count asked for (else the account's, else four),
/// how many maps (the limit asked for, else a hundred, kept within one to
/// five hundred), and the page size (at most a hundred).
pub struct AlphaQuery {
    pub mode: u64,
    pub key_count: u64,
    pub limit: usize,
    pub page_size: usize,
}

pub open spec fn spec_alpha_limit(limit: Option<Seq<char>>) -> u64 {
    let n: u64 = match spec_parse_u64_filter(limit) { Some(v) => v, None => 100 };
    if n < 1 { 1 } else if n > 500 { 500 } else { n }
}

pub fn alpha_query(mode: Option<&str>, key_count: Option<&str>, limit: Option<&str>, account_mode: Option<u64>, account_keys: Option<u64>) -> (r: AlphaQuery)
    ensures
        r.mode == match spec_alpha_mode(str_of(mode)) { Some(m) => m, None => match account_mode { Some(m) => m, None => 3 } },
        r.key_count == match spec_parse_u8_filter(str_of(key_count)) { Some(k) => k as u64, None => match account_keys { Some(k) => k, None => 4 } },
        r.limit == spec_alpha_limit(str_of(limit)),
        r.page_size == if r.limit < 100 { r.limit } else { 100 },
{
    let m = match alpha_mode_value(mode) {
        Some(m) => m,
        None => match account_mode { Some(m) => m, None => 3 },
    };
    let k = match crate::search::parse_u8(key_count) {
        Some(k) => k as u64,
        None => match account_keys { Some(k) => k, None => 4 },
    };
    let n = match crate::search::parse_u64(limit) { Some(v) => v, None => 100 };
    let clamped: u64 = if n < 1 { 1 } else if n > 500 { 500 } else { n };
    let limit_value = clamped as usize;
    AlphaQuery {
        mode: m,
        key_count: k,
        limit: limit_value,
        page_size: if limit_value < 100 { limit_value } else { 100 },
    }
}

/// Checks an AlphaOsu! answer: an answer whose `success` is false fails
/// with its message (`AlphaOsu request failed.` without one); an answer
/// without data fails.
pub fn alpha_data_check(success: Option<bool>, message: Option<String>, has_data: bool) -> (r: Result<(), String>)
    ensures
        success == Some(false) ==> (r matches Err(m) && m@ == match message { Some(t) => t@, None => "AlphaOsu request failed."@ }),
        success != Some(false) && !has_data ==> (r matches Err(m) && m@ == "AlphaOsu response did not contain data."@),
        success != Some(false) && has_data ==> r is Ok,
{
    if success == Some(false) {
        return Err(match message {
            Some(t) => t,
            None => "AlphaOsu request failed.".to_string(),
        });
    }
    if !has_data {
        return Err("AlphaOsu response did not contain data.".to_string());
    }
    Ok(())
}

/// A map that AlphaOsu! recommends, as the app reads it (its length is
/// rounded by the app, and the creator line, made of fractional numbers,
/// is written by the app).
pub struct AlphaMap {
    pub id: Option<String>,
    pub map_link: Option<String>,
    pub map_cover_url: Option<String>,
    pub map_name: Option<String>,
    pub key_count: Option<u64>,
    pub length: Option<u64>,
    pub creator: String,
}

pub open spec fn opt_text(v: Option<String>) -> Option<Seq<char>> {
    match v {
        Some(s) => Some(s@),
        None => None,
    }
}

/// The listed beatmapset of a recommended map: none without a beatmap id;
/// its beatmapset from the cover URL (else the beatmap id); artist and
/// title from its name; a mania map when it has a key count (the low byte
/// of the number, when not zero).
pub open spec fn spec_alpha_item(m: AlphaMap) -> Option<ItemModel> {
    match spec_alpha_beatmap_id(opt_text(m.id), opt_text(m.map_link)) {
        None => None,
        Some(b) => {
            let set = match spec_alpha_beatmapset_id(opt_text(m.map_cover_url)) { Some(s) => s, None => b };
            let names = spec_split_map_name(match opt_text(m.map_name) { Some(n) => n, None => Seq::empty() });
            let keys: Option<u8> = match m.key_count {
                Some(k) => if (k % 256) > 0 { Some((k % 256) as u8) } else { None },
                None => None,
            };
            Some(ItemModel {
                id: set,
                title: names.1,
                artist: names.0,
                creator: m.creator@,
                ranked_date: Seq::empty(),
                status: "alphaosu"@,
                modes: seq![if keys is Some { "mania"@ } else { "osu"@ }],
                min_length: m.length,
                max_length: m.length,
                key_counts: match keys { Some(k) => seq![k], None => Seq::empty() },
                beatmap_ids: seq![b],
                collection_beatmap_ids: Seq::empty(),
                source_collection: Seq::empty(),
                playcount: 0,
                favourite_count: 0,
                exists_local: Some(false),
            })
        },
    }
}


fn first_occurrence(a: &Vec<char>, p: &Vec<char>) -> (r: Option<usize>)
    ensures
        match r {
            Some(i) => occurs_at(a@, p@, i as int) && (forall|j: int| 0 <= j < i ==> !occurs_at(a@, p@, j))
                && (exists|k: int| occurs_at(a@, p@, k))
                && i as int == (choose|k: int| occurs_at(a@, p@, k) && forall|j: int| 0 <= j < k ==> !occurs_at(a@, p@, j)),
            None => !(exists|k: int| occurs_at(a@, p@, k)),
        },
{
    match find_chars(a.as_slice(), p.as_slice(), 0) {
        Some(i) => {
            proof {
                assert(occurs_at(a@, p@, i as int));
                let k = choose|k: int| occurs_at(a@, p@, k) && forall|j: int| 0 <= j < k ==> !occurs_at(a@, p@, j);
                assert(occurs_at(a@, p@, k) && forall|j: int| 0 <= j < k ==> !occurs_at(a@, p@, j));
                if k < i {
                    assert(!occurs_at(a@, p@, k));
                } else if k > i {
                    assert(!occurs_at(a@, p@, i as int));
                }
            }
            Some(i)
        },
        None => {
            proof {
                if exists|k: int| occurs_at(a@, p@, k) {
                    let k = choose|k: int| occurs_at(a@, p@, k);
                    assert(0 <= k);
                }
            }
            None
        },
    }
}

pub fn alpha_beatmapset_id(cover: Option<&str>) -> (r: Option<u64>)
    ensures
        r == spec_alpha_beatmapset_id(str_of(cover)),
{
    match cover {
        None => None,
        Some(c) => {
            let chars = chars_of(c);
            let key = chars_of("/beatmaps/");
            proof { reveal_strlit("/beatmaps/"); }
            assert(key@.len() == 10);
            match first_occurrence(&chars, &key) {
                None => None,
                Some(i) => {
                    assert(i + 10 <= chars.len());
                    let rest = crate::text::slice_to_vec_range(chars.as_slice(), i + 10, chars.len());
                    assert(rest@ =~= c@.skip(i + 10));
                    let seg = match first_occurrence(&rest, &key) {
                        Some(k) => crate::text::slice_to_vec_range(rest.as_slice(), 0, k),
                        None => rest,
                    };
                    let head = before_first_exec(seg.as_slice(), '/');
                    parse_u64_chars(head.as_slice())
                },
            }
        },
    }
}


/// Reads a recommended map into a listed beatmapset (see
/// `spec_alpha_item`).
pub fn alpha_map_item(m: &AlphaMap) -> (r: Option<BeatmapsetItem>)
    ensures
        match r {
            Some(item) => spec_alpha_item(*m) == Some(item@),
            None => spec_alpha_item(*m) is None,
        },
{
    let id = match &m.id { Some(s) => Some(s.as_str()), None => None };
    let link = match &m.map_link { Some(s) => Some(s.as_str()), None => None };
    let cover = match &m.map_cover_url { Some(s) => Some(s.as_str()), None => None };
    assert(str_of(id) == opt_text(m.id));
    assert(str_of(link) == opt_text(m.map_link));
    assert(str_of(cover) == opt_text(m.map_cover_url));
    let b = match alpha_beatmap_id(id, link) {
        Some(b) => b,
        None => return None,
    };
    let set = match alpha_beatmapset_id(cover) {
        Some(s) => s,
        None => b,
    };
    let name = match &m.map_name { Some(n) => n.as_str(), None => "" };
    proof {
        if m.map_name is None {
            reveal_strlit("");
            assert(""@ =~= Seq::<char>::empty());
        }
    }
    let (artist, title) = split_alpha_map_name(name);
    let keys: Option<u8> = match m.key_count {
        Some(k) => {
            let low = (k % 256) as u8;
            if low > 0 { Some(low) } else { None }
        },
        None => None,
    };
    let mut modes: Vec<String> = Vec::new();
    modes.push(if keys.is_some() { "mania".to_string() } else { "osu".to_string() });
    let mut key_counts: Vec<u8> = Vec::new();
    if let Some(k) = keys {
        key_counts.push(k);
    }
    let mut ids: Vec<u64> = Vec::new();
    ids.push(b);
    let item = BeatmapsetItem {
        id: set,
        title,
        artist,
        creator: m.creator.clone(),
        ranked_date: String::new(),
        status: "alphaosu".to_string(),
        modes,
        min_length: m.length,
        max_length: m.length,
        key_counts,
        beatmap_ids: ids,
        collection_beatmap_ids: Vec::new(),
        source_collection: String::new(),
        playcount: 0,
        favourite_count: 0,
        exists_local: Some(false),
    };
    proof {
        assert(views(item.modes@) =~= seq![if keys is Some { "mania"@ } else { "osu"@ }]);
        assert(item.key_counts@ =~= match keys { Some(k) => seq![k], None => Seq::<u8>::empty() });
        assert(item.beatmap_ids@ =~= seq![b]);
    }
    Some(item)
}

/// The list after one page of recommendations: each map read into a
/// beatmapset joins it in turn, unless its beatmapset is there already,
/// until the list holds `limit`.
pub open spec fn gathered(results: Seq<ItemModel>, page: Seq<Option<ItemModel>>, limit: nat) -> Seq<ItemModel>
    decreases page.len(),
{
    if page.len() == 0 {
        results
    } else {
        let prev = gathered(results, page.drop_last(), limit);
        match page.last() {
            Some(it) => if prev.len() < limit && !prev.map_values(|i: ItemModel| i.id).contains(it.id) {
                prev.push(it)
            } else {
                prev
            },
            None => prev,
        }
    }
}

pub open spec fn page_views(page: Seq<Option<BeatmapsetItem>>) -> Seq<Option<ItemModel>> {
    page.map_values(|o: Option<BeatmapsetItem>| match o { Some(i) => Some(i@), None => None })
}

/// The page an answer points to next (`-1` when it names none).
pub open spec fn next_page(next: Option<i64>) -> i64 {
    match next { Some(v) => v, None => -1i64 }
}

fn has_item_id(items: &Vec<BeatmapsetItem>, id: u64) -> (r: bool)
    ensures
        r == item_views(items@).map_values(|i: ItemModel| i.id).contains(id),
{
    let ghost ids = item_views(items@).map_values(|i: ItemModel| i.id);
    let mut k: usize = 0;
    while k < items.len()
        invariant
            k <= items.len(),
            ids == item_views(items@).map_values(|i: ItemModel| i.id),
            forall|j: int| 0 <= j < k ==> ids[j] != id,
        decreases items.len() - k,
    {
        assert(ids[k as int] == items@[k as int].id);
        if items[k].id == id {
            return true;
        }
        k = k + 1;
    }
    proof {
        if ids.contains(id) {
            let j = choose|j: int| 0 <= j < ids.len() && ids[j] == id;
            assert(ids[j] != id);
        }
    }
    false
}

/// Takes one page of AlphaOsu! recommendations, each map already read (see
/// `alpha_map_item`), into the list being gathered (see `gathered`), and
/// says which page to ask for next: `None` to stop, when the page is empty,
/// the list is full or the answer names no later page.
pub fn alpha_take_page(results: &mut Vec<BeatmapsetItem>, page: Vec<Option<BeatmapsetItem>>, limit: usize, next: Option<i64>) -> (r: Option<usize>)
    ensures
        page@.len() == 0 ==> item_views(final(results)@) == item_views(old(results)@),
        page@.len() > 0 ==> item_views(final(results)@) == gathered(item_views(old(results)@), page_views(page@), limit as nat),
        r == if page@.len() > 0 && next_page(next) > 0 && final(results)@.len() < limit {
            Some(next_page(next) as usize)
        } else {
            None::<usize>
        },
{
    if page.len() == 0 {
        return None;
    }
    let ghost start = item_views(results@);
    let ghost pv = page_views(page@);
    let ghost n = pv.len();
    let mut rest = page;
    let mut taken: Vec<Option<BeatmapsetItem>> = Vec::new();
    while rest.len() > 0
        invariant
            n == pv.len(),
            rest.len() + taken.len() == n,
            forall|k: int| 0 <= k < rest.len() ==> #[trigger] page_views(rest@)[k] == pv[k],
            forall|k: int| 0 <= k < taken.len() ==> #[trigger] page_views(taken@)[k] == pv[n - 1 - k],
        decreases rest.len(),
    {
        let ghost before = rest@;
        let ghost tb = taken@;
        let x = rest.pop().unwrap();
        taken.push(x);
        assert forall|k: int| 0 <= k < taken.len() implies #[trigger] page_views(taken@)[k] == pv[n - 1 - k] by {
            if k < tb.len() {
                assert(taken@[k] == tb[k]);
                assert(page_views(tb)[k] == pv[n - 1 - k]);
            } else {
                assert(taken@[k] == before[before.len() - 1]);
                assert(page_views(before)[before.len() - 1] == pv[before.len() - 1]);
            }
        }
        assert forall|k: int| 0 <= k < rest.len() implies #[trigger] page_views(rest@)[k] == pv[k] by {
            assert(rest@[k] == before[k]);
            assert(page_views(before)[k] == pv[k]);
        }
    }
    assert(pv.take(0) =~= Seq::<Option<ItemModel>>::empty());
    while taken.len() > 0
        invariant
            n == pv.len(),
            taken.len() <= n,
            forall|k: int| 0 <= k < taken.len() ==> #[trigger] page_views(taken@)[k] == pv[n - 1 - k],
            item_views(results@) == gathered(start, pv.take(n - taken.len()), limit as nat),
        decreases taken.len(),
    {
        let ghost i = n - taken.len();
        let ghost before = taken@;
        let entry = taken.pop().unwrap();
        assert(page_views(before)[before.len() - 1] == pv[i]);
        proof {
            assert(pv.take(i + 1).drop_last() =~= pv.take(i));
            assert(pv.take(i + 1).last() == pv[i]);
        }
        assert forall|k: int| 0 <= k < taken.len() implies #[trigger] page_views(taken@)[k] == pv[n - 1 - k] by {
            assert(taken@[k] == before[k]);
            assert(page_views(before)[k] == pv[n - 1 - k]);
        }
        if let Some(item) = entry {
            if results.len() < limit && !has_item_id(results, item.id) {
                let ghost prev = results@;
                results.push(item);
                assert(item_views(results@) =~= item_views(prev).push(pv[i]->0));
            }
        }
    }
    assert(pv.take(n as int) =~= pv);
    let step: i64 = match next { Some(v) => v, None => -1 };
    if step > 0 && results.len() < limit {
        Some(step as usize)
    } else {
        None
    }
}

}
