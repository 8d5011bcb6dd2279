//! Adding beatmapsets to the download queue as one group of tasks.
use vstd::prelude::*;
use crate::clock::{now_millis, now_rfc3339, random_alphanumeric};
use crate::items::{distinct, group_source_from_items, item_views, playlist_sources, spec_group_source, BeatmapsetItem, ItemModel};
use crate::mirrors::{candidate_views, mirror_candidates_for_settings, spec_candidates, spec_mirror_order, spec_priority_for};
use crate::osu_file::{safe_char, sanitize_file_name, spec_sanitize_file_name};
use crate::paths::{join_path, plain_name};
use crate::settings::{non_empty_or_default, normalize_download_mode, spec_download_mode, spec_non_empty_or_default, SettingsModel};
use crate::store::{find_group, group_ids, group_views, index_of, AppStore, DownloadGroupProgress, GroupModel, StoreModel};
use crate::tasks::{is_suffix_text, spec_dedupe_key, spec_stages, task_dedupe_key, task_views, DownloadTask, TaskModel};
use crate::text::{concat_str, decimal, has_prefix, has_suffix, i64_to_string, signed_decimal, str_eq, u64_to_string, views};

verus! {

/// The most tasks the queue holds.
pub const MAX_QUEUE_TASKS: usize = 1000000;

/// What one request to add downloads shares among its tasks.
pub struct EnqueueContext {
    pub group_id: Seq<char>,
    pub group_name: Seq<char>,
    pub group_source: Seq<char>,
    pub group_destination: Seq<char>,
    pub now: Seq<char>,
    pub mode: Seq<char>,
    pub settings: SettingsModel,
    pub osu_dir: Seq<char>,
    pub cache_dir: Seq<char>,
}

/// The keys of the queued tasks that are not cancelled.
pub open spec fn existing_keys(tasks: Seq<TaskModel>) -> Seq<Seq<char>> {
    tasks.filter(|t: TaskModel| t.status != "cancelled"@).map_values(|t: TaskModel| spec_dedupe_key(t))
}

/// The downloads an item asks for in `osu` mode: one per beatmap id whose
/// key is not queued, in the item's order.
pub open spec fn wanted_beatmaps(k: int, ids: Seq<u64>, existing: Seq<Seq<char>>) -> Seq<(int, Option<u64>)>
    decreases ids.len(),
{
    if ids.len() == 0 {
        Seq::empty()
    } else {
        let prev = wanted_beatmaps(k, ids.drop_last(), existing);
        if existing.contains("osu:"@ + decimal(ids.last() as nat)) { prev } else { prev.push((k, Some(ids.last()))) }
    }
}

/// The downloads that the items ask for: pairs of an item's index and, in
/// `osu` mode, a beatmap id; in order, leaving out what is queued already.
pub open spec fn wanted(items: Seq<ItemModel>, existing: Seq<Seq<char>>, osu: bool) -> Seq<(int, Option<u64>)>
    decreases items.len(),
{
    if items.len() == 0 {
        Seq::empty()
    } else {
        let k = items.len() - 1;
        let prev = wanted(items.drop_last(), existing, osu);
        if osu {
            prev + wanted_beatmaps(k, items.last().beatmap_ids, existing)
        } else if existing.contains("osz:"@ + decimal(items.last().id as nat)) {
            prev
        } else {
            prev.push((k, None))
        }
    }
}

/// The downloads that are added: those asked for, as many as the queue has
/// room for.
pub open spec fn planned(s: StoreModel, items: Seq<ItemModel>) -> Seq<(int, Option<u64>)> {
    let w = wanted(items, existing_keys(s.tasks), spec_download_mode(s.settings.download_mode, s.settings.include_video) == "osu"@);
    let room: int = if s.tasks.len() >= MAX_QUEUE_TASKS { 0 } else { MAX_QUEUE_TASKS - s.tasks.len() };
    w.take(if w.len() <= room { w.len() as int } else { room })
}

/// `path` is `name` in folder `dir`.
pub open spec fn in_folder(path: Seq<char>, dir: Seq<char>, name: Seq<char>) -> bool {
    has_prefix(path, dir) && has_suffix(path, name)
}

/// The task added for beatmap `b` of `item` in `osu` mode: the `.osu` file
/// from the official site, named after the beatmap, into the `.osu` folder.
pub open spec fn osu_task_ok(t: TaskModel, item: ItemModel, b: u64, c: EnqueueContext) -> bool {
    exists|millis: i64, suffix: Seq<char>| {
        &&& is_suffix_text(suffix, 8)
        &&& t == TaskModel {
            id: "osu-"@ + decimal(b as nat) + "-"@ + signed_decimal(millis as int) + "-"@ + suffix,
            group_id: c.group_id,
            group_name: c.group_name,
            group_source: c.group_source,
            group_destination: "仅 .osu 文件"@,
            beatmapset_id: item.id,
            title: item.title,
            artist: item.artist,
            include_video: false,
            download_mode: "osu"@,
            beatmap_id: Some(b),
            url: "https://osu.ppy.sh/osu/"@ + decimal(b as nat),
            target_path: t.target_path,
            temp_path: t.temp_path,
            total_bytes: None,
            downloaded_bytes: 0,
            retry_generation: 0,
            collection_beatmap_ids: Seq::empty(),
            status: "pending"@,
            error: Seq::empty(),
            created_at: c.now,
            updated_at: c.now,
        }
        &&& in_folder(t.target_path, c.osu_dir, spec_sanitize_file_name(decimal(b as nat) + " "@ + item.artist + " - "@ + item.title + ".osu"@))
        &&& in_folder(t.temp_path, c.cache_dir, decimal(b as nat) + "-"@ + suffix + ".osu.part"@)
    }
}

/// The first mirror URL for a beatmapset.
pub open spec fn first_mirror_url(id: u64, include_video: bool, settings: SettingsModel) -> Seq<char> {
    let cands = spec_candidates(spec_mirror_order(spec_priority_for(id, settings)), id, include_video);
    if cands.len() > 0 { cands[0].1 } else { Seq::empty() }
}

/// The task added for `item` outside `osu` mode: the beatmapset from its
/// first mirror, into the Songs folder.
pub open spec fn osz_task_ok(t: TaskModel, item: ItemModel, c: EnqueueContext) -> bool {
    exists|millis: i64, suffix: Seq<char>| {
        &&& is_suffix_text(suffix, 8)
        &&& t == TaskModel {
            id: decimal(item.id as nat) + "-"@ + signed_decimal(millis as int) + "-"@ + suffix,
            group_id: c.group_id,
            group_name: c.group_name,
            group_source: c.group_source,
            group_destination: c.group_destination,
            beatmapset_id: item.id,
            title: item.title,
            artist: item.artist,
            include_video: c.mode == "video"@,
            download_mode: c.mode,
            beatmap_id: None,
            url: first_mirror_url(item.id, c.mode == "video"@, c.settings),
            target_path: t.target_path,
            temp_path: t.temp_path,
            total_bytes: None,
            downloaded_bytes: 0,
            retry_generation: 0,
            collection_beatmap_ids: item.collection_beatmap_ids,
            status: "pending"@,
            error: Seq::empty(),
            created_at: c.now,
            updated_at: c.now,
        }
        &&& in_folder(t.target_path, c.settings.songs_dir, spec_sanitize_file_name(decimal(item.id as nat) + " "@ + item.artist + " - "@ + item.title + ".osz"@))
        &&& in_folder(t.temp_path, c.cache_dir, decimal(item.id as nat) + "-"@ + suffix + ".osz.part"@)
    }
}

/// The context of a request: the group's source from the items, its name
/// (`<source> · <n> 首`), its destination (the collection when downloads
/// are added to one, else `通常下载`), and a group id `group-<ms>-<six
/// random letters and digits>`.
pub open spec fn context_ok(c: EnqueueContext, s: StoreModel, items: Seq<ItemModel>, osu_dir: Seq<char>, cache_dir: Seq<char>) -> bool {
    &&& c.settings == s.settings
    &&& c.osu_dir == osu_dir
    &&& c.cache_dir == cache_dir
    &&& c.mode == spec_download_mode(s.settings.download_mode, s.settings.include_video)
    &&& c.group_source == spec_group_source(items)
    &&& c.group_name == c.group_source + " · "@ + decimal(items.len()) + " 首"@
    &&& c.group_destination == if s.settings.collection_auto_add && c.mode != "osu"@ {
        "写入收藏夹："@ + spec_non_empty_or_default(s.settings.collection_name, "Seekman Downloads"@)
    } else {
        "通常下载"@
    }
    &&& exists|millis: i64, suffix: Seq<char>| is_suffix_text(suffix, 6) && c.group_id == "group-"@ + signed_decimal(millis as int) + "-"@ + suffix
}

/// Each added task is the one its planned download asks for.
pub open spec fn tasks_added(s: StoreModel, items: Seq<ItemModel>, c: EnqueueContext, after: Seq<TaskModel>) -> bool {
    let p = planned(s, items);
    &&& after.len() == s.tasks.len() + p.len()
    &&& after.take(s.tasks.len() as int) == s.tasks
    &&& forall|j: int| 0 <= j < p.len() ==> match #[trigger] p[j].1 {
        Some(b) => osu_task_ok(after[s.tasks.len() + j], items[p[j].0], b, c),
        None => osz_task_ok(after[s.tasks.len() + j], items[p[j].0], c),
    }
}

/// The progress of the new group: all its tasks to do.
pub open spec fn new_group(c: EnqueueContext, n: nat) -> GroupModel {
    GroupModel {
        id: c.group_id,
        name: c.group_name,
        source: c.group_source,
        destination: if c.mode == "osu"@ { "仅 .osu 文件"@ } else { c.group_destination },
        total_tasks: n as usize,
        completed_tasks: 0,
        completed_bytes: 0,
        created_at: c.now,
        updated_at: c.now,
    }
}

proof fn lemma_sanitized_plain(name: Seq<char>)
    requires
        name.len() > 0,
        crate::text::is_ascii_digit(name[0]),
    ensures
        plain_name(spec_sanitize_file_name(name)),
{
    let r = spec_sanitize_file_name(name);
    assert(r.len() > 0);
    assert(r[0] == safe_char(name[0]));
    assert(r != seq!['.'] && r != seq!['.', '.']) by {
        if r == seq!['.'] { assert(r[0] == '.'); }
        if r == seq!['.', '.'] { assert(r[0] == '.'); }
    }
    assert forall|i: int| 0 <= i < r.len() implies r[i] != '/' && r[i] != '\\' && r[i] != ':' by {
        assert(r[i] == safe_char(name[i]));
    }
}

proof fn lemma_part_plain(d: Seq<char>, suffix: Seq<char>, ext: Seq<char>)
    requires
        crate::text::all_digits(d),
        d.len() > 0,
        is_suffix_text(suffix, 8),
        forall|i: int| 0 <= i < ext.len() ==> ext[i] == '.' || ('a' <= ext[i] <= 'z'),
    ensures
        plain_name(d + "-"@ + suffix + ext),
{
    reveal_strlit("-");
    let n = d + "-"@ + suffix + ext;
    assert(n[0] == d[0] && crate::text::is_ascii_digit(d[0]));
    assert(n != seq!['.'] && n != seq!['.', '.']) by {
        if n == seq!['.'] || n == seq!['.', '.'] { assert(n[0] == '.'); }
    }
    assert forall|i: int| 0 <= i < n.len() implies n[i] != '/' && n[i] != '\\' && n[i] != ':' by {
        if i < d.len() {
            assert(n[i] == d[i]);
            assert(crate::text::is_ascii_digit(d[i]));
        } else if i == d.len() {
            assert(n[i] == '-');
        } else if i < d.len() + 9 {
            assert(n[i] == suffix[i - d.len() - 1]);
            assert(crate::clock::is_ascii_alphanumeric(suffix[i - d.len() - 1]));
        } else {
            assert(n[i] == ext[i - d.len() - 9]);
        }
    }
}

fn osu_task(item: &BeatmapsetItem, b: u64, group_id: &String, group_name: &String, group_source: &String, now: &String, osu_dir: &str, cache_dir: &str) -> (r: DownloadTask)
    ensures
        forall|c: EnqueueContext| c.group_id == group_id@ && c.group_name == group_name@ && c.group_source == group_source@
            && c.now == now@ && c.osu_dir == osu_dir@ && c.cache_dir == cache_dir@ ==> osu_task_ok(#[trigger] r@, item@, b, c),
{
    let id_text = u64_to_string(b);
    let raw_name = concat_str(concat_str(concat_str(concat_str(concat_str(id_text.as_str(), " ").as_str(), item.artist.as_str()).as_str(), " - ").as_str(), item.title.as_str()).as_str(), ".osu");
    let name = sanitize_file_name(raw_name.as_str());
    proof {
        crate::text::lemma_decimal_digits(b as nat);
        assert(raw_name@ =~= decimal(b as nat) + " "@ + item@.artist + " - "@ + item@.title + ".osu"@);
        assert(raw_name@[0] == decimal(b as nat)[0]);
        lemma_sanitized_plain(raw_name@);
    }
    let target = join_path(osu_dir, name.as_str());
    let suffix = random_alphanumeric(8);
    let file = concat_str(concat_str(concat_str(id_text.as_str(), "-").as_str(), suffix.as_str()).as_str(), ".osu.part");
    proof {
        reveal_strlit(".osu.part");
        lemma_part_plain(decimal(b as nat), suffix@, ".osu.part"@);
    }
    let temp = join_path(cache_dir, file.as_str());
    let millis = now_millis();
    let id = concat_str(concat_str(concat_str(concat_str(concat_str("osu-", id_text.as_str()).as_str(), "-").as_str(), i64_to_string(millis).as_str()).as_str(), "-").as_str(), suffix.as_str());
    let r = DownloadTask {
        id,
        group_id: group_id.clone(),
        group_name: group_name.clone(),
        group_source: group_source.clone(),
        group_destination: "仅 .osu 文件".to_string(),
        beatmapset_id: item.id,
        title: item.title.clone(),
        artist: item.artist.clone(),
        include_video: false,
        download_mode: "osu".to_string(),
        beatmap_id: Some(b),
        url: concat_str("https://osu.ppy.sh/osu/", id_text.as_str()),
        target_path: target,
        temp_path: temp,
        total_bytes: None,
        downloaded_bytes: 0,
        retry_generation: 0,
        collection_beatmap_ids: Vec::new(),
        status: "pending".to_string(),
        error: String::new(),
        created_at: now.clone(),
        updated_at: now.clone(),
    };
    proof {
        assert(is_suffix_text(suffix@, 8));
        assert(r@.collection_beatmap_ids =~= Seq::<u64>::empty());
        assert(r@.id =~= "osu-"@ + decimal(b as nat) + "-"@ + signed_decimal(millis as int) + "-"@ + suffix@);
        assert(file@ =~= decimal(b as nat) + "-"@ + suffix@ + ".osu.part"@);
        assert(raw_name@ =~= decimal(b as nat) + " "@ + item@.artist + " - "@ + item@.title + ".osu"@);
    }
    r
}

fn osz_task(item: &BeatmapsetItem, group_id: &String, group_name: &String, group_source: &String, group_destination: &String, now: &String, mode: &String, store: &AppStore, cache_dir: &str) -> (r: DownloadTask)
    ensures
        forall|c: EnqueueContext| c.group_id == group_id@ && c.group_name == group_name@ && c.group_source == group_source@
            && c.group_destination == group_destination@ && c.now == now@ && c.mode == mode@ && c.settings == store@.settings
            && c.cache_dir == cache_dir@ ==> osz_task_ok(#[trigger] r@, item@, c),
{
    let id_text = u64_to_string(item.id);
    let include_video = str_eq(mode.as_str(), "video");
    let raw_name = concat_str(concat_str(concat_str(concat_str(concat_str(id_text.as_str(), " ").as_str(), item.artist.as_str()).as_str(), " - ").as_str(), item.title.as_str()).as_str(), ".osz");
    let name = sanitize_file_name(raw_name.as_str());
    proof {
        crate::text::lemma_decimal_digits(item.id as nat);
        assert(raw_name@ =~= decimal(item.id as nat) + " "@ + item@.artist + " - "@ + item@.title + ".osz"@);
        assert(raw_name@[0] == decimal(item.id as nat)[0]);
        lemma_sanitized_plain(raw_name@);
    }
    let target = join_path(store.settings.songs_dir.as_str(), name.as_str());
    let suffix = random_alphanumeric(8);
    let file = concat_str(concat_str(concat_str(id_text.as_str(), "-").as_str(), suffix.as_str()).as_str(), ".osz.part");
    proof {
        reveal_strlit(".osz.part");
        lemma_part_plain(decimal(item.id as nat), suffix@, ".osz.part"@);
    }
    let temp = join_path(cache_dir, file.as_str());
    let millis = now_millis();
    let id = concat_str(concat_str(concat_str(concat_str(id_text.as_str(), "-").as_str(), i64_to_string(millis).as_str()).as_str(), "-").as_str(), suffix.as_str());
    let cands = mirror_candidates_for_settings(item.id, include_video, &store.settings);
    let url = if cands.len() > 0 {
        assert(candidate_views(cands@)[0] == cands@[0]@);
        cands[0].url.clone()
    } else {
        String::new()
    };
    let ids = item.collection_beatmap_ids.clone();
    assert(ids@ =~= item.collection_beatmap_ids@);
    let r = DownloadTask {
        id,
        group_id: group_id.clone(),
        group_name: group_name.clone(),
        group_source: group_source.clone(),
        group_destination: group_destination.clone(),
        beatmapset_id: item.id,
        title: item.title.clone(),
        artist: item.artist.clone(),
        include_video,
        download_mode: mode.clone(),
        beatmap_id: None,
        url,
        target_path: target,
        temp_path: temp,
        total_bytes: None,
        downloaded_bytes: 0,
        retry_generation: 0,
        collection_beatmap_ids: ids,
        status: "pending".to_string(),
        error: String::new(),
        created_at: now.clone(),
        updated_at: now.clone(),
    };
    proof {
        assert(is_suffix_text(suffix@, 8));
        assert(r@.id =~= decimal(item.id as nat) + "-"@ + signed_decimal(millis as int) + "-"@ + suffix@);
        assert(file@ =~= decimal(item.id as nat) + "-"@ + suffix@ + ".osz.part"@);
        assert(raw_name@ =~= decimal(item.id as nat) + " "@ + item@.artist + " - "@ + item@.title + ".osz"@);
    }
    r
}


fn contains_key(v: &Vec<String>, x: &String) -> (r: bool)
    ensures
        r == views(v@).contains(x@),
{
    let mut i: usize = 0;
    while i < v.len()
        invariant
            i <= v.len(),
            forall|k: int| 0 <= k < i ==> v@[k]@ != x@,
        decreases v.len() - i,
    {
        if str_eq(v[i].as_str(), x.as_str()) {
            assert(views(v@)[i as int] == x@);
            return true;
        }
        i = i + 1;
    }
    proof {
        if views(v@).contains(x@) {
            let k = choose|k: int| 0 <= k < views(v@).len() && views(v@)[k] == x@;
            assert(v@[k]@ == x@);
        }
    }
    false
}

pub open spec fn not_cancelled_fn() -> spec_fn(TaskModel) -> bool {
    |t: TaskModel| t.status != "cancelled"@
}

fn existing_task_keys(tasks: &Vec<DownloadTask>) -> (r: Vec<String>)
    ensures
        views(r@) == existing_keys(task_views(tasks@)),
{
    let ghost ts = task_views(tasks@);
    let mut out: Vec<String> = Vec::new();
    let mut i: usize = 0;
    while i < tasks.len()
        invariant
            i <= tasks.len(),
            ts == task_views(tasks@),
            views(out@) == ts.take(i as int).filter(not_cancelled_fn()).map_values(|t: TaskModel| spec_dedupe_key(t)),
        decreases tasks.len() - i,
    {
        proof {
            assert(ts[i as int] == tasks@[i as int]@);
            assert(ts.take(i + 1) =~= ts.take(i as int).push(ts[i as int]));
            ts.take(i as int).lemma_filter_push(ts[i as int], not_cancelled_fn());
        }
        if !str_eq(tasks[i].status.as_str(), "cancelled") {
            let key = task_dedupe_key(&tasks[i]);
            let ghost before = out@;
            let ghost f = ts.take(i as int).filter(not_cancelled_fn());
            out.push(key);
            assert(views(out@) =~= views(before).push(spec_dedupe_key(ts[i as int])));
            assert(f.push(ts[i as int]).map_values(|t: TaskModel| spec_dedupe_key(t)) =~= f.map_values(|t: TaskModel| spec_dedupe_key(t)).push(spec_dedupe_key(ts[i as int])));
        }
        i = i + 1;
    }
    assert(ts.take(tasks.len() as int) =~= ts);
    assert(ts.filter(not_cancelled_fn()) == ts.filter(|t: TaskModel| t.status != "cancelled"@));
    out
}

/// The groups after recording `g`: it replaces the group of its id, or
/// comes last.
pub open spec fn spec_upsert_group(gs: Seq<GroupModel>, g: GroupModel) -> Seq<GroupModel> {
    let i = index_of(group_ids(gs), g.id);
    if i < gs.len() { gs.update(i, g) } else { gs.push(g) }
}

proof fn lemma_wanted_prefix(items: Seq<ItemModel>, ex: Seq<Seq<char>>, osu: bool, k: int)
    requires
        0 <= k <= items.len(),
    ensures
        wanted(items, ex, osu).take(wanted(items.take(k), ex, osu).len() as int) == wanted(items.take(k), ex, osu),
        wanted(items.take(k), ex, osu).len() <= wanted(items, ex, osu).len(),
    decreases items.len() - k,
{
    if k < items.len() {
        lemma_wanted_prefix(items, ex, osu, k + 1);
        let a = wanted(items.take(k), ex, osu);
        let b = wanted(items.take(k + 1), ex, osu);
        assert(items.take(k + 1).drop_last() =~= items.take(k));
        assert(b.take(a.len() as int) =~= a);
        assert(wanted(items, ex, osu).take(a.len() as int) =~= b.take(a.len() as int));
    } else {
        assert(items.take(k) =~= items);
    }
}

proof fn lemma_wanted_beatmaps_items(k: int, ids: Seq<u64>, ex: Seq<Seq<char>>)
    ensures
        forall|j: int| 0 <= j < wanted_beatmaps(k, ids, ex).len() ==> (#[trigger] wanted_beatmaps(k, ids, ex)[j]).0 == k
            && wanted_beatmaps(k, ids, ex)[j].1 is Some,
    decreases ids.len(),
{
    if ids.len() > 0 {
        lemma_wanted_beatmaps_items(k, ids.drop_last(), ex);
    }
}

/// Adds beatmapsets to the queue as one new group (see `planned`,
/// `tasks_added` and `new_group`). `osu_dir` is where single beatmap files
/// go and `cache_dir` where downloads are written while they run. Fails,
/// changing nothing, when no Songs folder is set.
pub fn enqueue_downloads(store: &mut AppStore, items: &Vec<BeatmapsetItem>, osu_dir: &str, cache_dir: &str) -> (r: Result<(), String>)
    ensures
        r is Err <==> old(store)@.settings.songs_dir.len() == 0,
        r is Err ==> final(store)@ == old(store)@ && r->Err_0@ == "Please select the Songs folder first."@,
        r is Ok ==> exists|c: EnqueueContext| {
            &&& context_ok(c, old(store)@, item_views(items@), osu_dir@, cache_dir@)
            &&& tasks_added(old(store)@, item_views(items@), c, final(store)@.tasks)
            &&& final(store)@.task_groups == if planned(old(store)@, item_views(items@)).len() > 0 {
                spec_upsert_group(old(store)@.task_groups, new_group(c, planned(old(store)@, item_views(items@)).len()))
            } else {
                old(store)@.task_groups
            }
        },
        final(store)@.settings == old(store)@.settings,
        final(store)@.local_beatmapsets == old(store)@.local_beatmapsets,
{
    if crate::text::chars_of(store.settings.songs_dir.as_str()).len() == 0 {
        return Err("Please select the Songs folder first.".to_string());
    }
    let ghost s0 = store@;
    let ghost its = item_views(items@);
    let existing = existing_task_keys(&store.tasks);
    let now = now_rfc3339();
    let mode = normalize_download_mode(store.settings.download_mode.as_str(), store.settings.include_video);
    let osu = str_eq(mode.as_str(), "osu");
    let group_suffix = random_alphanumeric(6);
    let group_millis = now_millis();
    let group_id = concat_str(concat_str(concat_str("group-", i64_to_string(group_millis).as_str()).as_str(), "-").as_str(), group_suffix.as_str());
    let group_source = group_source_from_items(items);
    let group_destination = if store.settings.collection_auto_add && !osu {
        let name = non_empty_or_default(store.settings.collection_name.as_str(), "Seekman Downloads");
        concat_str("写入收藏夹：", name.as_str())
    } else {
        "通常下载".to_string()
    };
    let group_name = concat_str(concat_str(concat_str(group_source.as_str(), " · ").as_str(), u64_to_string(items.len() as u64).as_str()).as_str(), " 首");
    let ghost c = EnqueueContext {
        group_id: group_id@,
        group_name: group_name@,
        group_source: group_source@,
        group_destination: group_destination@,
        now: now@,
        mode: mode@,
        settings: s0.settings,
        osu_dir: osu_dir@,
        cache_dir: cache_dir@,
    };
    proof {
        assert(is_suffix_text(group_suffix@, 6));
        assert(group_id@ =~= "group-"@ + signed_decimal(group_millis as int) + "-"@ + group_suffix@);
        assert(group_name@ =~= group_source@ + " · "@ + decimal(items.len() as nat) + " 首"@);
        assert(context_ok(c, s0, its, osu_dir@, cache_dir@));
    }
    let ghost ex = existing_keys(s0.tasks);
    let ghost room: int = if s0.tasks.len() >= MAX_QUEUE_TASKS { 0 } else { MAX_QUEUE_TASKS - s0.tasks.len() };
    let initial = store.tasks.len();
    let mut k: usize = 0;
    assert(its.take(0) =~= Seq::<ItemModel>::empty());
    while k < items.len()
        invariant
            k <= items.len(),
            its == item_views(items@),
            initial == s0.tasks.len(),
            views(existing@) == ex,
            ex == existing_keys(s0.tasks),
            osu == (mode@ == "osu"@),
            c.mode == mode@,
            context_ok(c, s0, its, osu_dir@, cache_dir@),
            c.group_id == group_id@ && c.group_name == group_name@ && c.group_source == group_source@
                && c.group_destination == group_destination@ && c.now == now@ && c.osu_dir == osu_dir@ && c.cache_dir == cache_dir@,
            room == (if s0.tasks.len() >= MAX_QUEUE_TASKS { 0 } else { MAX_QUEUE_TASKS - s0.tasks.len() }),
            store@.settings == s0.settings,
            store@.local_beatmapsets == s0.local_beatmapsets,
            store@.task_groups == s0.task_groups,
            store@.tasks.take(initial as int) == s0.tasks,
            store@.tasks.len() == initial + (if wanted(its.take(k as int), ex, osu).len() <= room { wanted(its.take(k as int), ex, osu).len() as int } else { room }),
            forall|j: int| 0 <= j < store@.tasks.len() - initial ==> match #[trigger] wanted(its.take(k as int), ex, osu)[j].1 {
                Some(b) => osu_task_ok(store@.tasks[initial + j], its[wanted(its.take(k as int), ex, osu)[j].0], b, c),
                None => osz_task_ok(store@.tasks[initial + j], its[wanted(its.take(k as int), ex, osu)[j].0], c),
            },
            forall|j: int| 0 <= j < wanted(its.take(k as int), ex, osu).len() ==> 0 <= (#[trigger] wanted(its.take(k as int), ex, osu)[j]).0 < k,
        decreases items.len() - k,
    {
        let ghost before_w = wanted(its.take(k as int), ex, osu);
        let ghost next_w = wanted(its.take(k + 1), ex, osu);
        proof {
            assert(its.take(k + 1).drop_last() =~= its.take(k as int));
            assert(its.take(k + 1).last() == its[k as int]);
            assert(its[k as int] == items@[k as int]@);
        }
        let item = &items[k];
        if osu {
            let mut m: usize = 0;
            assert(item.beatmap_ids@.take(0) =~= Seq::<u64>::empty());
            while m < item.beatmap_ids.len()
                invariant
                    m <= item.beatmap_ids.len(),
                    item@ == its[k as int],
                    k < items.len(),
                    its == item_views(items@),
                    initial == s0.tasks.len(),
                    views(existing@) == ex,
                    osu,
                    c.group_id == group_id@ && c.group_name == group_name@ && c.group_source == group_source@
                        && c.now == now@ && c.osu_dir == osu_dir@ && c.cache_dir == cache_dir@,
                    room == (if s0.tasks.len() >= MAX_QUEUE_TASKS { 0 } else { MAX_QUEUE_TASKS - s0.tasks.len() }),
                    store@.settings == s0.settings,
                    store@.local_beatmapsets == s0.local_beatmapsets,
                    store@.task_groups == s0.task_groups,
                    store@.tasks.take(initial as int) == s0.tasks,
                    store@.tasks.len() == initial + (if (before_w + wanted_beatmaps(k as int, item.beatmap_ids@.take(m as int), ex)).len() <= room {
                        (before_w + wanted_beatmaps(k as int, item.beatmap_ids@.take(m as int), ex)).len() as int
                    } else {
                        room
                    }),
                    forall|j: int| 0 <= j < store@.tasks.len() - initial ==> match #[trigger] (before_w + wanted_beatmaps(k as int, item.beatmap_ids@.take(m as int), ex))[j].1 {
                        Some(b) => osu_task_ok(store@.tasks[initial + j], its[(before_w + wanted_beatmaps(k as int, item.beatmap_ids@.take(m as int), ex))[j].0], b, c),
                        None => osz_task_ok(store@.tasks[initial + j], its[(before_w + wanted_beatmaps(k as int, item.beatmap_ids@.take(m as int), ex))[j].0], c),
                    },
                    forall|j: int| 0 <= j < before_w.len() ==> 0 <= (#[trigger] before_w[j]).0 < k,
                decreases item.beatmap_ids.len() - m,
            {
                let b = item.beatmap_ids[m];
                let ghost w0 = before_w + wanted_beatmaps(k as int, item.beatmap_ids@.take(m as int), ex);
                let ghost ids1 = item.beatmap_ids@.take(m + 1);
                proof {
                    assert(ids1.drop_last() =~= item.beatmap_ids@.take(m as int));
                    assert(ids1.last() == b);
                }
                let key = concat_str("osu:", u64_to_string(b).as_str());
                if store.tasks.len() < MAX_QUEUE_TASKS && !contains_key(&existing, &key) {
                    let t = osu_task(item, b, &group_id, &group_name, &group_source, &now, osu_dir, cache_dir);
                    let ghost before = store@.tasks;
                    store.tasks.push(t);
                    proof {
                        let w1 = before_w + wanted_beatmaps(k as int, ids1, ex);
                        assert(wanted_beatmaps(k as int, ids1, ex) == wanted_beatmaps(k as int, item.beatmap_ids@.take(m as int), ex).push((k as int, Some(b))));
                        assert(w1 =~= w0.push((k as int, Some(b))));
                        assert(store@.tasks =~= before.push(t@));
                        assert(osu_task_ok(t@, item@, b, c));
                        assert forall|j: int| 0 <= j < store@.tasks.len() - initial implies match #[trigger] w1[j].1 {
                            Some(bb) => osu_task_ok(store@.tasks[initial + j], its[w1[j].0], bb, c),
                            None => osz_task_ok(store@.tasks[initial + j], its[w1[j].0], c),
                        } by {
                            if j < before.len() - initial {
                                assert(w1[j] == w0[j]);
                                assert(store@.tasks[initial + j] == before[initial + j]);
                            } else {
                                assert(w1[j] == (k as int, Some(b)));
                            }
                        }
                        assert(store@.tasks.take(initial as int) =~= before.take(initial as int));
                    }
                } else {
                    proof {
                        let w1 = before_w + wanted_beatmaps(k as int, ids1, ex);
                        if !views(existing@).contains(key@) {
                            assert(wanted_beatmaps(k as int, ids1, ex) == wanted_beatmaps(k as int, item.beatmap_ids@.take(m as int), ex).push((k as int, Some(b))));
                            assert(w1 =~= w0.push((k as int, Some(b))));
                            assert forall|j: int| 0 <= j < store@.tasks.len() - initial implies match #[trigger] w1[j].1 {
                                Some(bb) => osu_task_ok(store@.tasks[initial + j], its[w1[j].0], bb, c),
                                None => osz_task_ok(store@.tasks[initial + j], its[w1[j].0], c),
                            } by {
                                assert(w1[j] == w0[j]);
                            }
                        } else {
                            assert(w1 =~= w0);
                        }
                    }
                }
                m = m + 1;
            }
            proof {
                assert(item.beatmap_ids@.take(item.beatmap_ids.len() as int) =~= item.beatmap_ids@);
                assert(next_w == before_w + wanted_beatmaps(k as int, its[k as int].beatmap_ids, ex));
                lemma_wanted_beatmaps_items(k as int, its[k as int].beatmap_ids, ex);
                assert forall|j: int| 0 <= j < next_w.len() implies 0 <= (#[trigger] next_w[j]).0 < k + 1 by {
                    if j >= before_w.len() {
                        assert(next_w[j] == wanted_beatmaps(k as int, its[k as int].beatmap_ids, ex)[j - before_w.len()]);
                    } else {
                        assert(next_w[j] == before_w[j]);
                    }
                }
            }
        } else {
            let key = concat_str("osz:", u64_to_string(item.id).as_str());
            if !contains_key(&existing, &key) && store.tasks.len() < MAX_QUEUE_TASKS {
                let t = osz_task(item, &group_id, &group_name, &group_source, &group_destination, &now, &mode, store, cache_dir);
                let ghost before = store@.tasks;
                store.tasks.push(t);
                proof {
                    assert(next_w =~= before_w.push((k as int, None)));
                    assert(store@.tasks =~= before.push(t@));
                    assert(osz_task_ok(t@, item@, c));
                    assert forall|j: int| 0 <= j < store@.tasks.len() - initial implies match #[trigger] next_w[j].1 {
                        Some(bb) => osu_task_ok(store@.tasks[initial + j], its[next_w[j].0], bb, c),
                        None => osz_task_ok(store@.tasks[initial + j], its[next_w[j].0], c),
                    } by {
                        if j < before.len() - initial {
                            assert(next_w[j] == before_w[j]);
                            assert(store@.tasks[initial + j] == before[initial + j]);
                        }
                    }
                    assert(store@.tasks.take(initial as int) =~= before.take(initial as int));
                    assert forall|j: int| 0 <= j < next_w.len() implies 0 <= (#[trigger] next_w[j]).0 < k + 1 by {
                        if j < before_w.len() { assert(next_w[j] == before_w[j]); }
                    }
                }
            } else {
                proof {
                    if !views(existing@).contains(key@) {
                        assert(next_w =~= before_w.push((k as int, None)));
                        assert forall|j: int| 0 <= j < store@.tasks.len() - initial implies match #[trigger] next_w[j].1 {
                            Some(bb) => osu_task_ok(store@.tasks[initial + j], its[next_w[j].0], bb, c),
                            None => osz_task_ok(store@.tasks[initial + j], its[next_w[j].0], c),
                        } by {
                            assert(next_w[j] == before_w[j]);
                        }
                        assert forall|j: int| 0 <= j < next_w.len() implies 0 <= (#[trigger] next_w[j]).0 < k + 1 by {
                            if j < before_w.len() { assert(next_w[j] == before_w[j]); }
                        }
                    } else {
                        assert(next_w == before_w);
                    }
                }
            }
        }
        k = k + 1;
    }
    proof {
        assert(its.take(items.len() as int) =~= its);
    }
    let added = store.tasks.len() - initial;
    if added > 0 {
        let g = DownloadGroupProgress {
            id: group_id.clone(),
            name: group_name.clone(),
            source: group_source.clone(),
            destination: if osu { "仅 .osu 文件".to_string() } else { group_destination.clone() },
            total_tasks: added,
            completed_tasks: 0,
            completed_bytes: 0,
            created_at: now.clone(),
            updated_at: now.clone(),
        };
        let i = find_group(&store.task_groups, group_id.as_str());
        let ghost gs = store@.task_groups;
        if i < store.task_groups.len() {
            store.task_groups[i] = g;
            assert(store@.task_groups =~= gs.update(i as int, g@));
        } else {
            store.task_groups.push(g);
            assert(store@.task_groups =~= gs.push(g@));
        }
    }
    proof {
        let p = planned(s0, its);
        let w = wanted(its, ex, osu);
        assert(p =~= w.take(store@.tasks.len() - initial));
        assert forall|j: int| 0 <= j < p.len() implies match #[trigger] p[j].1 {
            Some(b) => osu_task_ok(store@.tasks[s0.tasks.len() + j], its[p[j].0], b, c),
            None => osz_task_ok(store@.tasks[s0.tasks.len() + j], its[p[j].0], c),
        } by {
            assert(p[j] == w[j]);
        }
        assert(tasks_added(s0, its, c, store@.tasks));
    }
    Ok(())
}


proof fn lemma_wanted_beatmaps_fresh(k: int, ids: Seq<u64>, ex: Seq<Seq<char>>)
    ensures
        forall|j: int| 0 <= j < wanted_beatmaps(k, ids, ex).len() ==>
            (#[trigger] wanted_beatmaps(k, ids, ex)[j]).1 is Some
            && !ex.contains("osu:"@ + decimal(wanted_beatmaps(k, ids, ex)[j].1->0 as nat)),
    decreases ids.len(),
{
    if ids.len() > 0 {
        lemma_wanted_beatmaps_fresh(k, ids.drop_last(), ex);
    }
}

proof fn lemma_wanted_fresh(items: Seq<ItemModel>, ex: Seq<Seq<char>>, osu: bool)
    ensures
        forall|j: int| 0 <= j < wanted(items, ex, osu).len() ==> {
            let w = #[trigger] wanted(items, ex, osu)[j];
            &&& 0 <= w.0 < items.len()
            &&& match w.1 {
                Some(b) => osu && !ex.contains("osu:"@ + decimal(b as nat)),
                None => !osu && !ex.contains("osz:"@ + decimal(items[w.0].id as nat)),
            }
        },
    decreases items.len(),
{
    if items.len() > 0 {
        let prev_items = items.drop_last();
        lemma_wanted_fresh(prev_items, ex, osu);
        let prev = wanted(prev_items, ex, osu);
        let k = items.len() - 1;
        assert forall|j: int| 0 <= j < prev.len() implies #[trigger] items[prev[j].0] == prev_items[prev[j].0] by {}
        if osu {
            lemma_wanted_beatmaps_fresh(k, items.last().beatmap_ids, ex);
            lemma_wanted_beatmaps_items(k, items.last().beatmap_ids, ex);
            let w = wanted(items, ex, osu);
            assert forall|j: int| 0 <= j < w.len() implies {
                let x = #[trigger] w[j];
                &&& 0 <= x.0 < items.len()
                &&& match x.1 {
                    Some(b) => osu && !ex.contains("osu:"@ + decimal(b as nat)),
                    None => !osu && !ex.contains("osz:"@ + decimal(items[x.0].id as nat)),
                }
            } by {
                if j < prev.len() {
                    assert(w[j] == prev[j]);
                } else {
                    assert(w[j] == wanted_beatmaps(k, items.last().beatmap_ids, ex)[j - prev.len()]);
                }
            }
        } else {
            let w = wanted(items, ex, osu);
            assert forall|j: int| 0 <= j < w.len() implies {
                let x = #[trigger] w[j];
                &&& 0 <= x.0 < items.len()
                &&& match x.1 {
                    Some(b) => osu && !ex.contains("osu:"@ + decimal(b as nat)),
                    None => !osu && !ex.contains("osz:"@ + decimal(items[x.0].id as nat)),
                }
            } by {
                if j < prev.len() {
                    assert(w[j] == prev[j]);
                }
            }
        }
    }
}

/// Adding downloads never takes the queue past a million tasks (a queue
/// already that long gets nothing more).
pub proof fn law_enqueue_room(s: StoreModel, items: Seq<ItemModel>)
    ensures
        planned(s, items).len() + s.tasks.len() <= if s.tasks.len() >= MAX_QUEUE_TASKS { s.tasks.len() as int } else { MAX_QUEUE_TASKS as int },
{
}

/// Every task that one request adds belongs to the request's one group and
/// waits as `pending`; and none repeats the key of a task already queued
/// (and not cancelled).
pub proof fn law_enqueue_one_group_no_duplicates(s: StoreModel, items: Seq<ItemModel>, c: EnqueueContext, after: Seq<TaskModel>)
    requires
        context_ok(c, s, items, c.osu_dir, c.cache_dir),
        tasks_added(s, items, c, after),
    ensures
        forall|j: int| s.tasks.len() <= j < after.len() ==> {
            &&& (#[trigger] after[j]).group_id == c.group_id
            &&& after[j].status == "pending"@
            &&& !existing_keys(s.tasks).contains(spec_dedupe_key(after[j]))
        },
{
    let p = planned(s, items);
    let ex = existing_keys(s.tasks);
    let osu = spec_download_mode(s.settings.download_mode, s.settings.include_video) == "osu"@;
    lemma_wanted_fresh(items, ex, osu);
    let w = wanted(items, ex, osu);
    assert forall|j: int| s.tasks.len() <= j < after.len() implies {
        &&& (#[trigger] after[j]).group_id == c.group_id
        &&& after[j].status == "pending"@
        &&& !existing_keys(s.tasks).contains(spec_dedupe_key(after[j]))
    } by {
        let k = j - s.tasks.len();
        assert(p[k] == w[k]);
        match p[k].1 {
            Some(b) => {
                assert(osu_task_ok(after[j], items[p[k].0], b, c));
            },
            None => {
                assert(osz_task_ok(after[j], items[p[k].0], c));
                assert(c.mode != "osu"@);
            },
        }
    }
}

/// One request keeps the queue as it was and adds its tasks after it, and
/// the group it makes counts exactly the tasks it added, none of them done.
pub proof fn law_enqueue_group_counts(s: StoreModel, items: Seq<ItemModel>, c: EnqueueContext, after: Seq<TaskModel>)
    requires
        context_ok(c, s, items, c.osu_dir, c.cache_dir),
        tasks_added(s, items, c, after),
    ensures
        after.take(s.tasks.len() as int) == s.tasks,
        after.len() >= s.tasks.len(),
        new_group(c, planned(s, items).len()).id == c.group_id,
        new_group(c, planned(s, items).len()).total_tasks == after.len() - s.tasks.len(),
        new_group(c, planned(s, items).len()).completed_tasks == 0,
{
    law_enqueue_room(s, items);
}

proof fn lemma_wanted_not_osu(items: Seq<ItemModel>, existing: Seq<Seq<char>>)
    ensures
        forall|j: int| 0 <= j < wanted(items, existing, false).len() ==> (#[trigger] wanted(items, existing, false)[j]).1 is None,
    decreases items.len(),
{
    if items.len() > 0 {
        lemma_wanted_not_osu(items.drop_last(), existing);
    }
}

/// A task that one request adds waits in the cache for the rest of its
/// group (`should_stage_playlist_group`) exactly when downloads are put into
/// a collection, the download mode is not `osu`, and the items name exactly
/// one playlist.
pub proof fn law_enqueue_stages(s: StoreModel, items: Seq<ItemModel>, c: EnqueueContext, after: Seq<TaskModel>, j: int)
    requires
        context_ok(c, s, items, c.osu_dir, c.cache_dir),
        tasks_added(s, items, c, after),
        0 <= j < planned(s, items).len(),
    ensures
        spec_stages(after[s.tasks.len() + j]) == (s.settings.collection_auto_add
            && spec_download_mode(s.settings.download_mode, s.settings.include_video) != "osu"@
            && distinct(playlist_sources(items)).len() == 1),
{
    let p = planned(s, items);
    let t = after[s.tasks.len() + j];
    let mode = spec_download_mode(s.settings.download_mode, s.settings.include_video);
    let d = distinct(playlist_sources(items));
    reveal_strlit("歌单：");
    reveal_strlit("多个歌单导入");
    reveal_strlit("搜索结果");
    reveal_strlit("写入收藏夹：");
    reveal_strlit("通常下载");
    reveal_strlit("osu");
    match p[j].1 {
        Some(b) => {
            assert(osu_task_ok(t, items[p[j].0], b, c));
            assert(t.download_mode == "osu"@);
            if mode != "osu"@ {
                let w = wanted(items, existing_keys(s.tasks), false);
                lemma_wanted_not_osu(items, existing_keys(s.tasks));
                assert(p[j] == w[j]);
            }
        },
        None => {
            assert(osz_task_ok(t, items[p[j].0], c));
            assert(t.group_source == spec_group_source(items));
            assert(t.group_destination == c.group_destination);
            assert(t.download_mode == mode);
            if d.len() != 1 {
                assert(!has_prefix(t.group_source, "歌单："@)) by {
                    assert(t.group_source[0] != "歌单："@[0]);
                }
            } else {
                assert(has_prefix(t.group_source, "歌单："@)) by {
                    assert(t.group_source.subrange(0, 3) =~= "歌单："@);
                }
            }
            if s.settings.collection_auto_add && mode != "osu"@ {
                assert(has_prefix(t.group_destination, "写入收藏夹："@)) by {
                    assert(t.group_destination.subrange(0, 6) =~= "写入收藏夹："@);
                }
            } else {
                assert(!has_prefix(t.group_destination, "写入收藏夹："@)) by {
                    assert(t.group_destination[0] != "写入收藏夹："@[0]);
                }
            }
        },
    }
}

}
