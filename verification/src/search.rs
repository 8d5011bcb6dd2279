//! Searching beatmapsets: the filters, the query sent to osu!, and what is
//! kept of each result.
use vstd::prelude::*;
use crate::collection::{merged_hashes, sorted_unique_strings};
use crate::items::{distinct, BeatmapsetItem, ItemModel};
use crate::text::{
    chars_eq, chars_le, has_prefix, has_suffix, chars_le_exec, chars_of, concat_str, find_chars, occurs_at, parse_u64_chars, parse_u8_chars,
    parse_usize_chars, spec_parse_u64, spec_parse_u8, spec_parse_usize, str_eq, string_from_chars,
    trim_str, trim_ws, views,
};

verus! {

/// The search filters as the front end sends them (all text, all
/// optional).
pub struct Filters {
    pub query: Option<String>,
    pub status: Option<String>,
    pub date_from: Option<String>,
    pub date_to: Option<String>,
    pub min_stars: Option<String>,
    pub max_stars: Option<String>,
    pub min_od: Option<String>,
    pub max_od: Option<String>,
    pub min_hp: Option<String>,
    pub max_hp: Option<String>,
    pub min_cs: Option<String>,
    pub max_cs: Option<String>,
    pub min_ar: Option<String>,
    pub max_ar: Option<String>,
    pub min_bpm: Option<String>,
    pub max_bpm: Option<String>,
    pub min_length: Option<String>,
    pub max_length: Option<String>,
    pub mode: Option<String>,
    pub key_count: Option<String>,
    pub max_pages: Option<String>,
    pub sort_by: Option<String>,
    pub sort_dir: Option<String>,
}

pub open spec fn text_of(v: Option<String>) -> Option<Seq<char>> {
    match v {
        Some(s) => Some(s@),
        None => None,
    }
}

pub open spec fn str_of(v: Option<&str>) -> Option<Seq<char>> {
    match v {
        Some(s) => Some(s@),
        None => None,
    }
}

fn as_str_opt(v: &Option<String>) -> (r: Option<&str>)
    ensures
        str_of(r) == text_of(*v),
{
    match v {
        Some(s) => Some(s.as_str()),
        None => None,
    }
}

/// The beatmapset status searched for: `loved`, `graveyard` (or `grave`),
/// else `ranked`.
pub open spec fn spec_search_status(v: Option<Seq<char>>) -> Seq<char> {
    if v == Some("loved"@) {
        "loved"@
    } else if v == Some("graveyard"@) || v == Some("grave"@) {
        "graveyard"@
    } else {
        "ranked"@
    }
}

pub fn normalize_search_status(value: Option<&str>) -> (r: &'static str)
    ensures
        r@ == spec_search_status(str_of(value)),
{
    match value {
        Some(v) => {
            if str_eq(v, "loved") {
                "loved"
            } else if str_eq(v, "graveyard") || str_eq(v, "grave") {
                "graveyard"
            } else {
                "ranked"
            }
        },
        None => "ranked",
    }
}

/// The order osu! sorts results in: by difficulty (`stars` or
/// `difficulty`), by relevance, or by ranked time (the default); ascending
/// when the direction is `asc`.
pub open spec fn spec_api_sort(by: Option<Seq<char>>, dir: Option<Seq<char>>) -> Seq<char> {
    let asc = dir == Some("asc"@);
    if by == Some("stars"@) || by == Some("difficulty"@) {
        if asc { "difficulty_asc"@ } else { "difficulty_desc"@ }
    } else if by == Some("relevance"@) {
        "relevance_desc"@
    } else if by == Some("time"@) || by is None {
        if asc { "ranked_asc"@ } else { "ranked_desc"@ }
    } else {
        "ranked_desc"@
    }
}

/// Law: the order osu! is asked for follows the chosen direction. It is
/// ascending only when the direction is `asc`; by time, stars or difficulty
/// it is ascending whenever the direction is `asc`; and ordering by time is
/// the same whether `time` is named or left out.
pub proof fn law_api_sort_direction(by: Option<Seq<char>>, dir: Option<Seq<char>>)
    ensures
        has_suffix(spec_api_sort(by, dir), "_asc"@) ==> dir == Some("asc"@),
        (by == Some("time"@) || by is None || by == Some("stars"@) || by == Some("difficulty"@)) && dir == Some("asc"@)
            ==> has_suffix(spec_api_sort(by, dir), "_asc"@),
        spec_api_sort(Some("time"@), dir) == spec_api_sort(None, dir),
        has_prefix(spec_api_sort(None, dir), "ranked_"@),
{
    reveal_strlit("_asc");
    reveal_strlit("ranked_");
    reveal_strlit("ranked_asc");
    reveal_strlit("ranked_desc");
    reveal_strlit("difficulty_asc");
    reveal_strlit("difficulty_desc");
    reveal_strlit("relevance_desc");
    reveal_strlit("time");
    reveal_strlit("stars");
    reveal_strlit("difficulty");
    reveal_strlit("relevance");
    assert("time"@.len() == 4 && "stars"@.len() == 5 && "difficulty"@.len() == 10 && "relevance"@.len() == 9);
    let r = spec_api_sort(by, dir);
    if has_suffix(r, "_asc"@) {
        if r == "ranked_desc"@ || r == "difficulty_desc"@ || r == "relevance_desc"@ {
            assert(r.subrange(r.len() - 4, r.len() as int)[1] == 'd');
        }
    }
    assert("ranked_asc"@.subrange(6, 10) =~= "_asc"@);
    assert("difficulty_asc"@.subrange(10, 14) =~= "_asc"@);
    assert("ranked_asc"@.subrange(0, 7) =~= "ranked_"@);
    assert("ranked_desc"@.subrange(0, 7) =~= "ranked_"@);
}

pub fn api_sort(filters: &Filters) -> (r: &'static str)
    ensures
        r@ == spec_api_sort(text_of(filters.sort_by), text_of(filters.sort_dir)),
{
    let asc = match &filters.sort_dir {
        Some(d) => str_eq(d.as_str(), "asc"),
        None => false,
    };
    match &filters.sort_by {
        Some(b) => {
            if str_eq(b.as_str(), "stars") || str_eq(b.as_str(), "difficulty") {
                if asc { "difficulty_asc" } else { "difficulty_desc" }
            } else if str_eq(b.as_str(), "relevance") {
                "relevance_desc"
            } else if str_eq(b.as_str(), "time") {
                if asc { "ranked_asc" } else { "ranked_desc" }
            } else {
                "ranked_desc"
            }
        },
        None => if asc { "ranked_asc" } else { "ranked_desc" },
    }
}

/// What search results are ordered by.
#[derive(Clone, Copy, Debug, PartialEq, Eq, Structural)]
pub enum ResultOrder {
    /// The highest star rating of each result.
    Stars,
    /// The longest length of each result.
    Length,
    /// The highest BPM of each result.
    Bpm,
    /// The order osu! gave.
    Relevance,
    /// The ranked date.
    Time,
}

/// The ordering of results for a sort name (`time` when none is given, and
/// for names it does not know), and whether it is ascending.
pub open spec fn spec_result_order(by: Option<Seq<char>>, dir: Option<Seq<char>>) -> (ResultOrder, bool) {
    let name = match by { Some(b) => b, None => "time"@ };
    let order = if name == "stars"@ || name == "difficulty"@ {
        ResultOrder::Stars
    } else if name == "length"@ {
        ResultOrder::Length
    } else if name == "bpm"@ {
        ResultOrder::Bpm
    } else if name == "relevance"@ {
        ResultOrder::Relevance
    } else {
        ResultOrder::Time
    };
    (order, dir == Some("asc"@))
}

/// How the results of a search are ordered (see `spec_result_order`).
pub fn result_order(filters: &Filters) -> (r: (ResultOrder, bool))
    ensures
        r == spec_result_order(text_of(filters.sort_by), text_of(filters.sort_dir)),
{
    let asc = match &filters.sort_dir {
        Some(d) => str_eq(d.as_str(), "asc"),
        None => false,
    };
    let order = match &filters.sort_by {
        Some(b) => {
            let name = b.as_str();
            if str_eq(name, "stars") || str_eq(name, "difficulty") {
                ResultOrder::Stars
            } else if str_eq(name, "length") {
                ResultOrder::Length
            } else if str_eq(name, "bpm") {
                ResultOrder::Bpm
            } else if str_eq(name, "relevance") {
                ResultOrder::Relevance
            } else {
                ResultOrder::Time
            }
        },
        None => {
            proof {
                reveal_strlit("time");
                reveal_strlit("stars");
                reveal_strlit("difficulty");
                reveal_strlit("length");
                reveal_strlit("bpm");
                reveal_strlit("relevance");
                assert("time"@.len() == 4 && "stars"@.len() == 5 && "difficulty"@.len() == 10);
                assert("length"@.len() == 6 && "bpm"@.len() == 3 && "relevance"@.len() == 9);
            }
            ResultOrder::Time
        },
    };
    (order, asc)
}

/// The number osu! uses for a mode.
pub open spec fn spec_mode_query(mode: Seq<char>) -> Option<Seq<char>> {
    if mode == "osu"@ {
        Some("0"@)
    } else if mode == "taiko"@ {
        Some("1"@)
    } else if mode == "fruits"@ {
        Some("2"@)
    } else if mode == "mania"@ {
        Some("3"@)
    } else {
        None
    }
}

pub fn mode_query_value(mode: &str) -> (r: Option<&'static str>)
    ensures
        str_of(r) == spec_mode_query(mode@),
{
    if str_eq(mode, "osu") {
        Some("0")
    } else if str_eq(mode, "taiko") {
        Some("1")
    } else if str_eq(mode, "fruits") {
        Some("2")
    } else if str_eq(mode, "mania") {
        Some("3")
    } else {
        None
    }
}

/// A filter number: none when blank, else the trimmed text as a `u64`.
pub open spec fn spec_parse_u64_filter(v: Option<Seq<char>>) -> Option<u64> {
    match v {
        Some(s) => if trim_ws(s).len() == 0 { None } else { spec_parse_u64(trim_ws(s)) },
        None => None,
    }
}

pub fn parse_u64(value: Option<&str>) -> (r: Option<u64>)
    ensures
        r == spec_parse_u64_filter(str_of(value)),
{
    match value {
        Some(v) => {
            let t = trim_str(v);
            if t.len() == 0 { None } else { parse_u64_chars(t.as_slice()) }
        },
        None => None,
    }
}

/// A key count filter: none when blank or `any`, else the trimmed text as
/// a `u8`.
pub open spec fn spec_parse_u8_filter(v: Option<Seq<char>>) -> Option<u8> {
    match v {
        Some(s) => if trim_ws(s).len() == 0 || trim_ws(s) == "any"@ { None } else { spec_parse_u8(trim_ws(s)) },
        None => None,
    }
}

pub fn parse_u8(value: Option<&str>) -> (r: Option<u8>)
    ensures
        r == spec_parse_u8_filter(str_of(value)),
{
    match value {
        Some(v) => {
            let t = trim_str(v);
            let s = string_from_chars(t.as_slice());
            if t.len() == 0 || str_eq(s.as_str(), "any") { None } else { parse_u8_chars(t.as_slice()) }
        },
        None => None,
    }
}

/// Strings sorted, once each.
pub fn sorted_strings(values: Vec<String>) -> (r: Vec<String>)
    ensures
        views(r@) == merged_hashes(Seq::empty(), views(values@)),
{
    sorted_unique_strings(&values)
}

/// How many result pages a search reads: the number asked for (ten when
/// none or not a number), at least one and at most fifty.
pub open spec fn spec_max_pages(v: Option<Seq<char>>) -> usize {
    let n: usize = match v {
        Some(s) => match spec_parse_usize(s) { Some(n) => n, None => 10 },
        None => 10,
    };
    if n < 1 { 1 } else if n > 50 { 50 } else { n }
}

pub fn max_pages(filters: &Filters) -> (r: usize)
    ensures
        r == spec_max_pages(text_of(filters.max_pages)),
{
    let n: usize = match &filters.max_pages {
        Some(s) => {
            let c = chars_of(s.as_str());
            match parse_usize_chars(c.as_slice()) {
                Some(n) => n,
                None => 10,
            }
        },
        None => 10,
    };
    if n < 1 { 1 } else if n > 50 { 50 } else { n }
}

/// A filter text, trimmed, when it is not blank.
pub open spec fn trimmed_filled(v: Option<Seq<char>>) -> Option<Seq<char>> {
    match v {
        Some(s) => if trim_ws(s).len() > 0 { Some(trim_ws(s)) } else { None },
        None => None,
    }
}

/// Terms joined by single spaces.
pub open spec fn join_terms(terms: Seq<Seq<char>>) -> Seq<char>
    decreases terms.len(),
{
    if terms.len() == 0 {
        Seq::empty()
    } else if terms.len() == 1 {
        terms[0]
    } else {
        join_terms(terms.drop_last()) + " "@ + terms.last()
    }
}

pub open spec fn opt_term(v: Option<Seq<char>>) -> Seq<Seq<char>> {
    match v {
        Some(t) => seq![t],
        None => Seq::empty(),
    }
}

/// The terms of the search query: the text, the ranked dates, the ranges
/// (`range_terms`, which the app writes from the number filters), and the
/// key count in mania.
pub open spec fn query_terms(f: Filters, range_terms: Seq<Seq<char>>) -> Seq<Seq<char>> {
    let q = trimmed_filled(text_of(f.query));
    let from = trimmed_filled(text_of(f.date_from));
    let to = trimmed_filled(text_of(f.date_to));
    let keys = if text_of(f.mode) == Some("mania"@) { spec_parse_u8_filter(text_of(f.key_count)) } else { None };
    opt_term(q)
        + opt_term(match from { Some(d) => Some("ranked>="@ + d), None => None })
        + opt_term(match to { Some(d) => Some("ranked<="@ + d), None => None })
        + range_terms
        + opt_term(match keys { Some(k) => Some("key="@ + crate::text::decimal(k as nat)), None => None })
}

fn trimmed_filled_exec(v: &Option<String>) -> (r: Option<String>)
    ensures
        text_of(r) == trimmed_filled(text_of(*v)),
{
    match v {
        Some(s) => {
            let t = trim_str(s.as_str());
            if t.len() > 0 { Some(string_from_chars(t.as_slice())) } else { None }
        },
        None => None,
    }
}

fn push_term(terms: &mut Vec<String>, t: String)
    ensures
        views(final(terms)@) == views(old(terms)@).push(t@),
{
    let ghost before = terms@;
    terms.push(t);
    assert(views(terms@) =~= views(before).push(t@));
}

fn join_with_spaces(terms: &Vec<String>) -> (r: String)
    ensures
        r@ == join_terms(views(terms@)),
{
    let ghost ts = views(terms@);
    let mut out = String::new();
    let mut i: usize = 0;
    assert(ts.take(0) =~= Seq::<Seq<char>>::empty());
    while i < terms.len()
        invariant
            i <= terms.len(),
            ts == views(terms@),
            out@ == join_terms(ts.take(i as int)),
        decreases terms.len() - i,
    {
        proof {
            assert(ts.take(i + 1).drop_last() =~= ts.take(i as int));
            assert(ts.take(i + 1).last() == terms@[i as int]@);
        }
        if i == 0 {
            out = terms[0].clone();
            assert(ts.take(1) =~= seq![terms@[0]@]);
        } else {
            out = concat_str(concat_str(out.as_str(), " ").as_str(), terms[i].as_str());
        }
        i = i + 1;
    }
    assert(ts.take(terms.len() as int) =~= ts);
    out
}

/// The search query sent to osu! (see `query_terms`).
pub fn build_search_query(filters: &Filters, range_terms: &Vec<String>) -> (r: String)
    ensures
        r@ == join_terms(query_terms(*filters, views(range_terms@))),
{
    let mut terms: Vec<String> = Vec::new();
    let ghost mut expect: Seq<Seq<char>> = Seq::empty();
    assert(views(terms@) =~= expect);
    let q = trimmed_filled_exec(&filters.query);
    if let Some(t) = q {
        push_term(&mut terms, t);
    }
    let from = trimmed_filled_exec(&filters.date_from);
    if let Some(d) = from {
        push_term(&mut terms, concat_str("ranked>=", d.as_str()));
    }
    let to = trimmed_filled_exec(&filters.date_to);
    if let Some(d) = to {
        push_term(&mut terms, concat_str("ranked<=", d.as_str()));
    }
    let mut k: usize = 0;
    while k < range_terms.len()
        invariant
            k <= range_terms.len(),
            views(terms@) == opt_term(trimmed_filled(text_of(filters.query)))
                + opt_term(match trimmed_filled(text_of(filters.date_from)) { Some(d) => Some("ranked>="@ + d), None => None })
                + opt_term(match trimmed_filled(text_of(filters.date_to)) { Some(d) => Some("ranked<="@ + d), None => None })
                + views(range_terms@).take(k as int),
        decreases range_terms.len() - k,
    {
        let ghost before = views(terms@);
        push_term(&mut terms, range_terms[k].clone());
        assert(views(range_terms@).take(k + 1) =~= views(range_terms@).take(k as int).push(range_terms@[k as int]@));
        assert(views(terms@) =~= opt_term(trimmed_filled(text_of(filters.query)))
                + opt_term(match trimmed_filled(text_of(filters.date_from)) { Some(d) => Some("ranked>="@ + d), None => None })
                + opt_term(match trimmed_filled(text_of(filters.date_to)) { Some(d) => Some("ranked<="@ + d), None => None })
                + views(range_terms@).take(k + 1));
        k = k + 1;
    }
    assert(views(range_terms@).take(range_terms.len() as int) =~= views(range_terms@));
    let mania = match &filters.mode {
        Some(m) => str_eq(m.as_str(), "mania"),
        None => false,
    };
    if mania {
        if let Some(keys) = parse_u8(as_str_opt(&filters.key_count)) {
            push_term(&mut terms, concat_str("key=", crate::text::u64_to_string(keys as u64).as_str()));
        }
    }
    assert(views(terms@) =~= query_terms(*filters, views(range_terms@)));
    join_with_spaces(&terms)
}


/// The bytes that a character takes in UTF-8.
pub open spec fn char_width(c: char) -> nat {
    if (c as u32) < 0x80 { 1 } else if (c as u32) < 0x800 { 2 } else if (c as u32) < 0x10000 { 3 } else { 4 }
}

/// The characters in the first `n` bytes of a text (all of it when it is
/// shorter); `None` when byte `n` falls inside a character.
pub open spec fn byte_cut(s: Seq<char>, n: nat) -> Option<Seq<char>>
    decreases s.len(),
{
    if n == 0 || s.len() == 0 {
        Some(Seq::empty())
    } else if char_width(s[0]) > n {
        None
    } else {
        match byte_cut(s.drop_first(), (n - char_width(s[0])) as nat) {
            Some(r) => Some(seq![s[0]] + r),
            None => None,
        }
    }
}

/// `a < b` for text: before it in the order of `String`'s `Ord`.
pub open spec fn text_lt(a: Seq<char>, b: Seq<char>) -> bool {
    chars_le(a, b) && a != b
}

/// A filter text that is given and not empty.
pub open spec fn nonempty(v: Option<Seq<char>>) -> Option<Seq<char>> {
    match v {
        Some(s) => if s.len() > 0 { Some(s) } else { None },
        None => None,
    }
}

/// Whether a result passes the filters that are not fractional numbers:
/// it has a mode, and the mode asked for (unless `any`); its ranked date's
/// first ten bytes are within the dates asked for; its lengths overlap the
/// length range; in mania, it has the key count asked for.
pub open spec fn spec_matches_plain(item: ItemModel, f: Filters) -> bool {
    let mode = text_of(f.mode);
    let date = byte_cut(item.ranked_date, 10)->0;
    let min_len = spec_parse_u64_filter(text_of(f.min_length));
    let max_len = spec_parse_u64_filter(text_of(f.max_length));
    let keys = spec_parse_u8_filter(text_of(f.key_count));
    &&& item.modes.len() > 0
    &&& match mode {
        Some(m) => m != "any"@ ==> item.modes.contains(m),
        None => true,
    }
    &&& match nonempty(text_of(f.date_from)) {
        Some(from) => item.ranked_date.len() > 0 ==> !text_lt(date, from),
        None => true,
    }
    &&& match nonempty(text_of(f.date_to)) {
        Some(to) => item.ranked_date.len() > 0 ==> !text_lt(to, date),
        None => true,
    }
    &&& match (min_len, item.max_length) {
        (Some(lo), Some(v)) => v >= lo,
        _ => true,
    }
    &&& match (max_len, item.min_length) {
        (Some(hi), Some(v)) => v <= hi,
        _ => true,
    }
    &&& (mode == Some("mania"@) && keys is Some ==> item.key_counts.contains(keys->0))
}

fn width_of(c: char) -> (r: usize)
    ensures
        r == char_width(c),
{
    if (c as u32) < 0x80 { 1 } else if (c as u32) < 0x800 { 2 } else if (c as u32) < 0x10000 { 3 } else { 4 }
}

fn date_prefix(date: &str) -> (r: Option<Vec<char>>)
    ensures
        match r {
            Some(v) => byte_cut(date@, 10) == Some(v@),
            None => byte_cut(date@, 10) is None,
        },
{
    let chars = chars_of(date);
    let mut used: usize = 0;
    let mut i: usize = 0;
    assert(chars@.skip(0) =~= chars@);
    assert(chars@.take(0) =~= Seq::<char>::empty());
    while i < chars.len() && used < 10
        invariant
            i <= chars.len(),
            used <= 10,
            chars@ == date@,
            byte_cut(date@, 10) == match byte_cut(chars@.skip(i as int), (10 - used) as nat) {
                Some(r) => Some(chars@.take(i as int) + r),
                None => None,
            },
        decreases chars.len() - i,
    {
        let w = width_of(chars[i]);
        let ghost rest = chars@.skip(i as int);
        assert(rest[0] == chars@[i as int]);
        assert(rest.drop_first() =~= chars@.skip(i + 1));
        if w > 10 - used {
            return None;
        }
        proof {
            assert(chars@.take(i + 1) =~= chars@.take(i as int) + seq![chars@[i as int]]);
            match byte_cut(chars@.skip(i + 1), (10 - used - w) as nat) {
                Some(r) => {
                    assert(chars@.take(i as int) + (seq![chars@[i as int]] + r) =~= chars@.take(i + 1) + r);
                },
                None => {},
            }
        }
        used = used + w;
        i = i + 1;
    }
    proof {
        assert(byte_cut(chars@.skip(i as int), (10 - used) as nat) == Some(Seq::<char>::empty()));
        assert(chars@.take(i as int) + Seq::<char>::empty() =~= chars@.take(i as int));
    }
    Some(crate::text::slice_to_vec_range(chars.as_slice(), 0, i))
}

fn text_lt_exec(a: &[char], b: &[char]) -> (r: bool)
    ensures
        r == text_lt(a@, b@),
{
    chars_le_exec(a, b) && !chars_eq(a, b)
}

fn contains_mode(modes: &Vec<String>, m: &str) -> (r: bool)
    ensures
        r == views(modes@).contains(m@),
{
    let mut i: usize = 0;
    while i < modes.len()
        invariant
            i <= modes.len(),
            forall|j: int| 0 <= j < i ==> modes@[j]@ != m@,
        decreases modes.len() - i,
    {
        if str_eq(modes[i].as_str(), m) {
            assert(views(modes@)[i as int] == m@);
            return true;
        }
        i = i + 1;
    }
    proof {
        if views(modes@).contains(m@) {
            let k = choose|k: int| 0 <= k < views(modes@).len() && views(modes@)[k] == m@;
            assert(modes@[k]@ == m@);
        }
    }
    false
}

fn contains_u8(v: &Vec<u8>, x: u8) -> (r: bool)
    ensures
        r == v@.contains(x),
{
    let mut i: usize = 0;
    while i < v.len()
        invariant
            i <= v.len(),
            forall|j: int| 0 <= j < i ==> v@[j] != x,
        decreases v.len() - i,
    {
        if v[i] == x {
            assert(v@[i as int] == x);
            return true;
        }
        i = i + 1;
    }
    false
}

/// Whether a result passes the filters that are not fractional numbers (see
/// `spec_matches_plain`); the app checks the others. The date filters need
/// the ranked date's tenth byte to end a character.
pub fn matches_plain_filters(item: &BeatmapsetItem, filters: &Filters) -> (r: bool)
    requires
        (nonempty(text_of(filters.date_from)) is Some || nonempty(text_of(filters.date_to)) is Some)
            && item@.ranked_date.len() > 0 ==> byte_cut(item@.ranked_date, 10) is Some,
    ensures
        r == spec_matches_plain(item@, *filters),
{
    if item.modes.len() == 0 {
        return false;
    }
    if let Some(m) = &filters.mode {
        if !str_eq(m.as_str(), "any") && !contains_mode(&item.modes, m.as_str()) {
            return false;
        }
    }
    let has_date = chars_of(item.ranked_date.as_str()).len() > 0;
    if let Some(from) = &filters.date_from {
        let fc = chars_of(from.as_str());
        if fc.len() > 0 && has_date {
            if let Some(d) = date_prefix(item.ranked_date.as_str()) {
                if text_lt_exec(d.as_slice(), fc.as_slice()) {
                    return false;
                }
            }
        }
    }
    if let Some(to) = &filters.date_to {
        let tc = chars_of(to.as_str());
        if tc.len() > 0 && has_date {
            if let Some(d) = date_prefix(item.ranked_date.as_str()) {
                if text_lt_exec(tc.as_slice(), d.as_slice()) {
                    return false;
                }
            }
        }
    }
    if let Some(lo) = parse_u64(as_str_opt(&filters.min_length)) {
        if let Some(v) = item.max_length {
            if v < lo {
                return false;
            }
        }
    }
    if let Some(hi) = parse_u64(as_str_opt(&filters.max_length)) {
        if let Some(v) = item.min_length {
            if v > hi {
                return false;
            }
        }
    }
    let mania = match &filters.mode {
        Some(m) => str_eq(m.as_str(), "mania"),
        None => false,
    };
    if mania {
        if let Some(k) = parse_u8(as_str_opt(&filters.key_count)) {
            if !contains_u8(&item.key_counts, k) {
                return false;
            }
        }
    }
    true
}


/// A beatmap of an osu! search result, as the app reads it: its id, mode,
/// key count (its CS rounded, which the app computes) and length in
/// seconds (`total_length`, else `hit_length`).
pub struct ApiBeatmap {
    pub id: Option<u64>,
    pub mode: Option<String>,
    pub keys: Option<u8>,
    pub length: Option<u64>,
}

/// A beatmapset of an osu! search result (missing text fields are empty).
pub struct ApiBeatmapset {
    pub id: Option<u64>,
    pub title: String,
    pub artist: String,
    pub creator: String,
    pub ranked_date: String,
    pub approved_date: String,
    pub status: String,
    pub play_count: Option<u64>,
    pub favourite_count: Option<u64>,
    pub beatmaps: Vec<ApiBeatmap>,
}

pub struct ApiBeatmapModel {
    pub id: Option<u64>,
    pub mode: Option<Seq<char>>,
    pub keys: Option<u8>,
    pub length: Option<u64>,
}

pub open spec fn api_views(v: Seq<ApiBeatmap>) -> Seq<ApiBeatmapModel> {
    v.map_values(|b: ApiBeatmap| ApiBeatmapModel { id: b.id, mode: text_of(b.mode), keys: b.keys, length: b.length })
}

/// Whether a beatmap counts for the filters: its mode is the one asked for
/// (unless `any`); in mania with a key count asked for, it has that count.
pub open spec fn beatmap_matches(b: ApiBeatmapModel, f: Filters) -> bool {
    let mode = text_of(f.mode);
    let keys = spec_parse_u8_filter(text_of(f.key_count));
    &&& match mode {
        Some(m) => m != "any"@ ==> b.mode == Some(m),
        None => true,
    }
    &&& (mode == Some("mania"@) && keys is Some ==> b.keys == keys)
}

/// The indices of the beatmaps that count for the filters.
pub open spec fn matching(bs: Seq<ApiBeatmapModel>, f: Filters) -> Seq<int>
    decreases bs.len(),
{
    if bs.len() == 0 {
        Seq::empty()
    } else {
        let prev = matching(bs.drop_last(), f);
        if beatmap_matches(bs.last(), f) { prev.push(bs.len() - 1) } else { prev }
    }
}

/// The `Some` values, in order.
pub open spec fn somes<T>(v: Seq<Option<T>>) -> Seq<T>
    decreases v.len(),
{
    if v.len() == 0 {
        Seq::empty()
    } else {
        let prev = somes(v.drop_last());
        match v.last() {
            Some(x) => prev.push(x),
            None => prev,
        }
    }
}

pub open spec fn fold_min_u64(v: Seq<u64>) -> Option<u64>
    decreases v.len(),
{
    if v.len() == 0 { None } else { crate::playlist::merged_min(fold_min_u64(v.drop_last()), Some(v.last())) }
}

pub open spec fn fold_max_u64(v: Seq<u64>) -> Option<u64>
    decreases v.len(),
{
    if v.len() == 0 { None } else { crate::playlist::merged_max(fold_max_u64(v.drop_last()), Some(v.last())) }
}

/// `s`, sorted, with `x` put in its place unless it is there.
pub open spec fn sorted_insert_u8(s: Seq<u8>, x: u8) -> Seq<u8>
    decreases s.len(),
{
    if s.len() == 0 {
        seq![x]
    } else if s[0] == x {
        s
    } else if x < s[0] {
        seq![x] + s
    } else {
        seq![s[0]] + sorted_insert_u8(s.drop_first(), x)
    }
}

pub open spec fn sorted_u8(v: Seq<u8>) -> Seq<u8>
    decreases v.len(),
{
    if v.len() == 0 { Seq::empty() } else { sorted_insert_u8(sorted_u8(v.drop_last()), v.last()) }
}

/// The key counts of the mania beatmaps among `ms` (above zero).
pub open spec fn mania_keys(ms: Seq<ApiBeatmapModel>) -> Seq<u8>
    decreases ms.len(),
{
    if ms.len() == 0 {
        Seq::empty()
    } else {
        let prev = mania_keys(ms.drop_last());
        let b = ms.last();
        if b.mode == Some("mania"@) && b.keys is Some && b.keys->0 > 0 { prev.push(b.keys->0) } else { prev }
    }
}

/// The listed beatmapset of a search result: from the beatmaps that count
/// for the filters, their ids, lengths (shortest and longest), modes
/// (sorted, once each) and mania key counts (sorted, once each); the date
/// is the ranked date, or the approved date when that is empty.
pub open spec fn spec_map_beatmapset(set: ApiBeatmapset, f: Filters) -> ItemModel {
    let bs = api_views(set.beatmaps@);
    let ms = matching(bs, f).map_values(|i: int| bs[i]);
    ItemModel {
        id: match set.id { Some(v) => v, None => 0 },
        title: set.title@,
        artist: set.artist@,
        creator: set.creator@,
        ranked_date: if set.ranked_date@.len() == 0 { set.approved_date@ } else { set.ranked_date@ },
        status: set.status@,
        modes: merged_hashes(Seq::empty(), somes(ms.map_values(|b: ApiBeatmapModel| b.mode))),
        min_length: fold_min_u64(somes(ms.map_values(|b: ApiBeatmapModel| b.length))),
        max_length: fold_max_u64(somes(ms.map_values(|b: ApiBeatmapModel| b.length))),
        key_counts: sorted_u8(mania_keys(ms)),
        beatmap_ids: somes(ms.map_values(|b: ApiBeatmapModel| b.id)),
        collection_beatmap_ids: Seq::empty(),
        source_collection: Seq::empty(),
        playcount: match set.play_count { Some(v) => v, None => 0 },
        favourite_count: match set.favourite_count { Some(v) => v, None => 0 },
        exists_local: Some(false),
    }
}

/// A search result as listed, with the indices of its beatmaps that count
/// for the filters (the app takes the star ratings and other fractional
/// numbers from those).
pub struct MappedBeatmapset {
    pub item: BeatmapsetItem,
    pub matching: Vec<usize>,
}

fn insert_sorted_u8(v: &mut Vec<u8>, x: u8)
    ensures
        final(v)@ == sorted_insert_u8(old(v)@, x),
{
    let mut pos: usize = 0;
    assert(v@.skip(0) =~= v@);
    while pos < v.len() && v[pos] < x
        invariant
            pos <= v.len(),
            sorted_insert_u8(v@, x) == v@.take(pos as int) + sorted_insert_u8(v@.skip(pos as int), x),
        decreases v.len() - pos,
    {
        let ghost rest = v@.skip(pos as int);
        assert(rest[0] == v@[pos as int]);
        assert(rest.drop_first() =~= v@.skip(pos + 1));
        assert(v@.take(pos as int) + (seq![rest[0]] + sorted_insert_u8(rest.drop_first(), x))
            =~= v@.take(pos + 1) + sorted_insert_u8(v@.skip(pos + 1), x));
        pos = pos + 1;
    }
    let ghost before = v@;
    if pos < v.len() && v[pos] == x {
        assert(before.take(pos as int) + before.skip(pos as int) =~= before);
        return;
    }
    v.insert(pos, x);
    proof {
        if pos < before.len() {
            assert(sorted_insert_u8(before.skip(pos as int), x) == seq![x] + before.skip(pos as int));
        } else {
            assert(before.skip(pos as int) =~= Seq::<u8>::empty());
        }
        assert(v@ =~= before.take(pos as int) + (seq![x] + before.skip(pos as int)));
    }
}

fn beatmap_matches_exec(b: &ApiBeatmap, filters: &Filters) -> (r: bool)
    ensures
        r == beatmap_matches(ApiBeatmapModel { id: b.id, mode: text_of(b.mode), keys: b.keys, length: b.length }, *filters),
{
    if let Some(m) = &filters.mode {
        if !str_eq(m.as_str(), "any") {
            match &b.mode {
                Some(bm) => {
                    if !str_eq(bm.as_str(), m.as_str()) {
                        return false;
                    }
                },
                None => return false,
            }
        }
        if str_eq(m.as_str(), "mania") {
            if let Some(k) = parse_u8(as_str_opt(&filters.key_count)) {
                match b.keys {
                    Some(bk) => {
                        if bk != k {
                            return false;
                        }
                    },
                    None => return false,
                }
            }
        }
    }
    true
}

pub open spec fn chosen(bs: Seq<ApiBeatmapModel>, f: Filters, i: int) -> Seq<ApiBeatmapModel> {
    matching(bs.take(i), f).map_values(|k: int| bs[k])
}

/// Lists a search result (see `spec_map_beatmapset`).
pub fn map_beatmapset(set: &ApiBeatmapset, filters: &Filters) -> (r: MappedBeatmapset)
    ensures
        r.item@ == spec_map_beatmapset(*set, *filters),
        r.matching@.map_values(|i: usize| i as int) == matching(api_views(set.beatmaps@), *filters),
{
    let ghost bs = api_views(set.beatmaps@);
    let mut idx: Vec<usize> = Vec::new();
    let mut modes: Vec<String> = Vec::new();
    let mut lengths: Vec<u64> = Vec::new();
    let mut min_length: Option<u64> = None;
    let mut max_length: Option<u64> = None;
    let mut keys: Vec<u8> = Vec::new();
    let mut ids: Vec<u64> = Vec::new();
    let mut i: usize = 0;
    assert(bs.take(0) =~= Seq::<ApiBeatmapModel>::empty());
    while i < set.beatmaps.len()
        invariant
            i <= set.beatmaps.len(),
            bs == api_views(set.beatmaps@),
            idx@.map_values(|k: usize| k as int) == matching(bs.take(i as int), *filters),
            views(modes@) == somes(chosen(bs, *filters, i as int).map_values(|b: ApiBeatmapModel| b.mode)),
            lengths@ == somes(chosen(bs, *filters, i as int).map_values(|b: ApiBeatmapModel| b.length)),
            min_length == fold_min_u64(lengths@),
            max_length == fold_max_u64(lengths@),
            keys@ == sorted_u8(mania_keys(chosen(bs, *filters, i as int))),
            ids@ == somes(chosen(bs, *filters, i as int).map_values(|b: ApiBeatmapModel| b.id)),
            forall|k: int| 0 <= k < matching(bs.take(i as int), *filters).len() ==> 0 <= #[trigger] matching(bs.take(i as int), *filters)[k] < i,
        decreases set.beatmaps.len() - i,
    {
        let b = &set.beatmaps[i];
        let ghost bv = ApiBeatmapModel { id: b.id, mode: text_of(b.mode), keys: b.keys, length: b.length };
        let ghost m0 = matching(bs.take(i as int), *filters);
        let ghost ms0 = m0.map_values(|k: int| bs[k]);
        assert(ms0 == chosen(bs, *filters, i as int));
        proof {
            assert(bs[i as int] == bv);
            assert(bs.take(i + 1).drop_last() =~= bs.take(i as int));
            assert(bs.take(i + 1).last() == bv);
        }
        if beatmap_matches_exec(b, filters) {
            let ghost m1 = m0.push(i as int);
            let ghost ms1 = m1.map_values(|k: int| bs[k]);
            assert(ms1 =~= ms0.push(bv));
            assert(ms1.drop_last() =~= ms0);
            assert(ms1.map_values(|b: ApiBeatmapModel| b.mode).drop_last() =~= ms0.map_values(|b: ApiBeatmapModel| b.mode));
            assert(ms1.map_values(|b: ApiBeatmapModel| b.length).drop_last() =~= ms0.map_values(|b: ApiBeatmapModel| b.length));
            assert(ms1.map_values(|b: ApiBeatmapModel| b.id).drop_last() =~= ms0.map_values(|b: ApiBeatmapModel| b.id));
            assert(ms1.map_values(|b: ApiBeatmapModel| b.id).last() == b.id);
            assert(ms1.map_values(|b: ApiBeatmapModel| b.mode).last() == text_of(b.mode));
            assert(ms1.map_values(|b: ApiBeatmapModel| b.length).last() == b.length);
            assert(ms1.last() == bv);
            let ghost lb = lengths@;
            let ghost kb = keys@;
            let ghost ib = idx@;
            idx.push(i);
            assert(idx@.map_values(|k: usize| k as int) =~= ib.map_values(|k: usize| k as int).push(i as int));
            if let Some(id) = b.id {
                ids.push(id);
            }
            if let Some(m) = &b.mode {
                let ghost mb = modes@;
                modes.push(m.clone());
                assert(views(modes@) =~= views(mb).push(m@));
            }
            if let Some(len) = b.length {
                lengths.push(len);
                assert(lengths@.drop_last() =~= lb);
                assert(lengths@.last() == len);
                crate::playlist::merge_min_u64(&mut min_length, Some(len));
                crate::playlist::merge_max_u64(&mut max_length, Some(len));
            }
            let is_mania = match &b.mode {
                Some(m) => str_eq(m.as_str(), "mania"),
                None => false,
            };
            if is_mania {
                if let Some(k) = b.keys {
                    if k > 0 {
                        insert_sorted_u8(&mut keys, k);
                    }
                }
            }
            proof {
                assert forall|k: int| 0 <= k < m1.len() implies 0 <= #[trigger] m1[k] < i + 1 by {
                    if k < m0.len() { assert(m1[k] == m0[k]); }
                }
                assert(m1 == matching(bs.take(i + 1), *filters));
                assert(chosen(bs, *filters, i + 1) == ms1);
                if bv.mode == Some("mania"@) && bv.keys is Some && bv.keys->0 > 0 {
                    let mk = mania_keys(ms0).push(bv.keys->0);
                    assert(mania_keys(ms1) == mk);
                    assert(mk.drop_last() =~= mania_keys(ms0));
                    assert(sorted_u8(mk) == sorted_insert_u8(sorted_u8(mania_keys(ms0)), bv.keys->0));
                } else {
                    assert(mania_keys(ms1) == mania_keys(ms0));
                }
            }
        } else {
            assert(matching(bs.take(i + 1), *filters) == m0);
        }
        i = i + 1;
    }
    assert(bs.take(set.beatmaps.len() as int) =~= bs);
    let mode_list = sorted_unique_strings(&modes);
    let date = if chars_of(set.ranked_date.as_str()).len() == 0 { set.approved_date.clone() } else { set.ranked_date.clone() };
    MappedBeatmapset {
        item: BeatmapsetItem {
            id: match set.id { Some(v) => v, None => 0 },
            title: set.title.clone(),
            artist: set.artist.clone(),
            creator: set.creator.clone(),
            ranked_date: date,
            status: set.status.clone(),
            modes: mode_list,
            min_length,
            max_length,
            key_counts: keys,
            beatmap_ids: ids,
            collection_beatmap_ids: Vec::new(),
            source_collection: String::new(),
            playcount: match set.play_count { Some(v) => v, None => 0 },
            favourite_count: match set.favourite_count { Some(v) => v, None => 0 },
            exists_local: Some(false),
        },
        matching: idx,
    }
}

}
