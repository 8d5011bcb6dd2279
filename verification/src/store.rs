//! The persisted state: settings, the beatmapsets found on disk, the download
//! queue and the progress of each group of downloads, with the operations
//! that change them.
use vstd::prelude::*;
use crate::settings::{Settings, SettingsModel};
use crate::tasks::{
    is_retry_of, normalized_group_id, recreate_retry_task, retryable, spec_group_of, task_views,
    DownloadTask, TaskModel,
};
use crate::clock::now_rfc3339;
use crate::text::{chars_of, str_eq};
use crate::version::{numbers_in, numbers_in_chars};

verus! {

/// The progress of a group of downloads as values.
pub struct GroupModel {
    pub id: Seq<char>,
    pub name: Seq<char>,
    pub source: Seq<char>,
    pub destination: Seq<char>,
    pub total_tasks: usize,
    pub completed_tasks: usize,
    pub completed_bytes: u64,
    pub created_at: Seq<char>,
    pub updated_at: Seq<char>,
}

/// The progress of a group of downloads added together.
pub struct DownloadGroupProgress {
    pub id: String,
    pub name: String,
    pub source: String,
    pub destination: String,
    pub total_tasks: usize,
    pub completed_tasks: usize,
    pub completed_bytes: u64,
    pub created_at: String,
    pub updated_at: String,
}

impl View for DownloadGroupProgress {
    type V = GroupModel;

    open spec fn view(&self) -> GroupModel {
        GroupModel {
            id: self.id@,
            name: self.name@,
            source: self.source@,
            destination: self.destination@,
            total_tasks: self.total_tasks,
            completed_tasks: self.completed_tasks,
            completed_bytes: self.completed_bytes,
            created_at: self.created_at@,
            updated_at: self.updated_at@,
        }
    }
}

/// A beatmapset found on disk, as values.
pub struct LocalModel {
    pub beatmapset_id: u64,
    pub folder_path: Seq<char>,
    pub detected_from: Seq<char>,
    pub scanned_at: Seq<char>,
}

/// A beatmapset found on disk, and where it was found.
pub struct LocalBeatmapset {
    pub beatmapset_id: u64,
    pub folder_path: String,
    pub detected_from: String,
    pub scanned_at: String,
}

impl View for LocalBeatmapset {
    type V = LocalModel;

    open spec fn view(&self) -> LocalModel {
        LocalModel {
            beatmapset_id: self.beatmapset_id,
            folder_path: self.folder_path@,
            detected_from: self.detected_from@,
            scanned_at: self.scanned_at@,
        }
    }
}

/// The whole persisted state as values.
pub struct StoreModel {
    pub settings: SettingsModel,
    pub local_beatmapsets: Seq<LocalModel>,
    pub tasks: Seq<TaskModel>,
    pub task_groups: Seq<GroupModel>,
}

/// The persisted state. The groups are a map from group id to progress and
/// the local beatmapsets a map from beatmapset id to entry: each key occurs
/// once (see `store_wf`).
pub struct AppStore {
    pub settings: Settings,
    pub local_beatmapsets: Vec<LocalBeatmapset>,
    pub tasks: Vec<DownloadTask>,
    pub task_groups: Vec<DownloadGroupProgress>,
}

pub open spec fn group_views(v: Seq<DownloadGroupProgress>) -> Seq<GroupModel> {
    v.map_values(|g: DownloadGroupProgress| g@)
}

pub open spec fn local_views(v: Seq<LocalBeatmapset>) -> Seq<LocalModel> {
    v.map_values(|l: LocalBeatmapset| l@)
}

impl View for AppStore {
    type V = StoreModel;

    open spec fn view(&self) -> StoreModel {
        StoreModel {
            settings: self.settings@,
            local_beatmapsets: local_views(self.local_beatmapsets@),
            tasks: task_views(self.tasks@),
            task_groups: group_views(self.task_groups@),
        }
    }
}

pub open spec fn group_ids(groups: Seq<GroupModel>) -> Seq<Seq<char>> {
    groups.map_values(|g: GroupModel| g.id)
}

pub open spec fn task_ids(tasks: Seq<TaskModel>) -> Seq<Seq<char>> {
    tasks.map_values(|t: TaskModel| t.id)
}

pub open spec fn local_ids(locals: Seq<LocalModel>) -> Seq<u64> {
    locals.map_values(|l: LocalModel| l.beatmapset_id)
}

/// Each group id and each local beatmapset id occurs once.
pub open spec fn store_wf(s: StoreModel) -> bool {
    &&& group_ids(s.task_groups).no_duplicates()
    &&& local_ids(s.local_beatmapsets).no_duplicates()
}

/// The index of the first occurrence of `k` in `keys`, or the length of
/// `keys` when it does not occur.
pub open spec fn index_of<K>(keys: Seq<K>, k: K) -> int
    decreases keys.len(),
{
    if keys.len() == 0 {
        0
    } else if keys[0] == k {
        0
    } else {
        1 + index_of(keys.drop_first(), k)
    }
}

proof fn lemma_index_of<K>(keys: Seq<K>, k: K, i: int)
    requires
        0 <= i <= keys.len(),
        forall|j: int| 0 <= j < i ==> keys[j] != k,
        i == keys.len() || keys[i] == k,
    ensures
        index_of(keys, k) == i,
    decreases keys.len(),
{
    if keys.len() > 0 && i > 0 {
        assert forall|j: int| 0 <= j < i - 1 implies keys.drop_first()[j] != k by {
            assert(keys.drop_first()[j] == keys[j + 1]);
        }
        lemma_index_of(keys.drop_first(), k, i - 1);
    }
}

/// `index_of` is `i` when `k` first occurs at `i` (or does not occur, with
/// `i` the length).
pub proof fn lemma_index_of_public<K>(keys: Seq<K>, k: K, i: int)
    requires
        0 <= i <= keys.len(),
        forall|j: int| 0 <= j < i ==> keys[j] != k,
        i == keys.len() || keys[i] == k,
    ensures
        index_of(keys, k) == i,
{
    lemma_index_of(keys, k, i);
}

/// `index_of` is within bounds, and below the length exactly when `k`
/// occurs.
pub proof fn lemma_index_of_bounds_public<K>(keys: Seq<K>, k: K)
    ensures
        0 <= index_of(keys, k) <= keys.len(),
        index_of(keys, k) < keys.len() <==> keys.contains(k),
        index_of(keys, k) < keys.len() ==> keys[index_of(keys, k)] == k,
{
    lemma_index_of_bounds(keys, k);
}

proof fn lemma_index_of_bounds<K>(keys: Seq<K>, k: K)
    ensures
        0 <= index_of(keys, k) <= keys.len(),
        index_of(keys, k) < keys.len() <==> keys.contains(k),
        index_of(keys, k) < keys.len() ==> keys[index_of(keys, k)] == k,
    decreases keys.len(),
{
    if keys.len() > 0 {
        lemma_index_of_bounds(keys.drop_first(), k);
        if keys[0] != k {
            if keys.drop_first().contains(k) {
                let j = choose|j: int| 0 <= j < keys.drop_first().len() && keys.drop_first()[j] == k;
                assert(keys[j + 1] == k);
            }
            if keys.contains(k) {
                let j = choose|j: int| 0 <= j < keys.len() && keys[j] == k;
                assert(j > 0);
                assert(keys.drop_first()[j - 1] == k);
            }
        } else {
            assert(keys.contains(k));
        }
    }
}

/// The position of the first task with id `id`, or the count of tasks.
pub fn find_task(tasks: &Vec<DownloadTask>, id: &str) -> (r: usize)
    ensures
        r == index_of(task_ids(task_views(tasks@)), id@),
        r <= tasks.len(),
{
    let ghost ids = task_ids(task_views(tasks@));
    let mut i: usize = 0;
    while i < tasks.len() && !str_eq(tasks[i].id.as_str(), id)
        invariant
            i <= tasks.len(),
            ids.len() == tasks.len(),
            forall|j: int| 0 <= j < i ==> ids[j] != id@,
            forall|j: int| 0 <= j < tasks.len() ==> ids[j] == (#[trigger] tasks@[j]).id@,
        decreases tasks.len() - i,
    {
        i = i + 1;
    }
    proof {
        lemma_index_of(ids, id@, i as int);
    }
    i
}

/// The position of the group with id `id`, or the count of groups.
pub fn find_group(groups: &Vec<DownloadGroupProgress>, id: &str) -> (r: usize)
    ensures
        r == index_of(group_ids(group_views(groups@)), id@),
        r <= groups.len(),
{
    let ghost ids = group_ids(group_views(groups@));
    let mut i: usize = 0;
    while i < groups.len() && !str_eq(groups[i].id.as_str(), id)
        invariant
            i <= groups.len(),
            ids.len() == groups.len(),
            forall|j: int| 0 <= j < i ==> ids[j] != id@,
            forall|j: int| 0 <= j < groups.len() ==> ids[j] == (#[trigger] groups@[j]).id@,
        decreases groups.len() - i,
    {
        i = i + 1;
    }
    proof {
        lemma_index_of(ids, id@, i as int);
    }
    i
}

/// The number of tasks a group holds, read from its name: the last run of
/// digits in the name that is a number a `usize` holds, when it is above
/// zero.
pub open spec fn spec_total_from_name(name: Seq<char>) -> Option<usize> {
    let ns = numbers_in(name, usize::MAX as nat);
    if ns.len() > 0 && ns.last() > 0 {
        Some(ns.last() as usize)
    } else {
        None
    }
}

/// The number of tasks named in a group's name (`… · 12 首`).
pub fn parse_task_total_from_group_name(value: &str) -> (r: Option<usize>)
    ensures
        r == spec_total_from_name(value@),
{
    let chars = chars_of(value);
    let ns = numbers_in_chars(chars.as_slice(), usize::MAX as u64);
    let ghost nat_ns = ns@.map_values(|v: u64| v as nat);
    if ns.len() > 0 {
        let last = ns[ns.len() - 1];
        assert(nat_ns.last() == last as nat);
        if last > 0 {
            proof {
                assert(nat_ns.last() <= usize::MAX) by {
                    lemma_numbers_bounded(chars@, usize::MAX as nat, nat_ns.len() - 1);
                }
            }
            return Some(last as usize);
        }
    }
    None
}

proof fn lemma_numbers_bounded(s: Seq<char>, max: nat, i: int)
    requires
        0 <= i < numbers_in(s, max).len(),
    ensures
        numbers_in(s, max)[i] <= max,
    decreases s.len(),
{
    if s.len() > 0 {
        if !crate::text::is_ascii_digit(s[0]) {
            lemma_numbers_bounded(s.drop_first(), max, i);
        } else {
            let k = crate::version::digit_prefix_len(s);
            let rest = if 0 < k <= s.len() { numbers_in(s.skip(k as int), max) } else { Seq::empty() };
            match crate::text::spec_parse_unsigned(s.take(k as int), max) {
                Some(v) => {
                    if i > 0 {
                        assert(numbers_in(s, max)[i] == rest[i - 1]);
                        if 0 < k <= s.len() {
                            lemma_numbers_bounded(s.skip(k as int), max, i - 1);
                        }
                    }
                },
                None => {
                    if 0 < k <= s.len() {
                        lemma_numbers_bounded(s.skip(k as int), max, i);
                    }
                },
            }
        }
    }
}


fn contains_text(v: &Vec<String>, x: &str) -> (r: bool)
    ensures
        r == crate::text::views(v@).contains(x@),
{
    let mut i: usize = 0;
    while i < v.len()
        invariant
            i <= v.len(),
            forall|k: int| 0 <= k < i ==> v@[k]@ != x@,
        decreases v.len() - i,
    {
        if str_eq(v[i].as_str(), x) {
            assert(crate::text::views(v@)[i as int] == x@);
            return true;
        }
        i = i + 1;
    }
    proof {
        if crate::text::views(v@).contains(x@) {
            let k = choose|k: int| 0 <= k < crate::text::views(v@).len() && crate::text::views(v@)[k] == x@;
            assert(v@[k]@ == x@);
        }
    }
    false
}

/// Whether some task belongs to group `id`.
pub open spec fn group_active(tasks: Seq<TaskModel>, id: Seq<char>) -> bool {
    exists|i: int| 0 <= i < tasks.len() && spec_group_of(#[trigger] tasks[i]) == id
}

/// A group stays while some task belongs to it or while it is unfinished.
pub open spec fn keeps_group(tasks: Seq<TaskModel>) -> spec_fn(GroupModel) -> bool {
    |g: GroupModel| group_active(tasks, g.id) || g.completed_tasks < g.total_tasks
}

proof fn lemma_filter_keys_unique(gs: Seq<GroupModel>, p: spec_fn(GroupModel) -> bool)
    requires
        group_ids(gs).no_duplicates(),
    ensures
        group_ids(gs.filter(p)).no_duplicates(),
        forall|k: int| 0 <= k < gs.filter(p).len() ==> group_ids(gs).contains(#[trigger] gs.filter(p)[k].id),
    decreases gs.len(),
{
    reveal(Seq::filter);
    if gs.len() > 0 {
        let prev = gs.drop_last();
        assert(group_ids(prev) =~= group_ids(gs).drop_last());
        assert forall|a: int, b: int| 0 <= a < b < group_ids(prev).len() implies group_ids(prev)[a] != group_ids(prev)[b] by {
            assert(group_ids(prev)[a] == group_ids(gs)[a]);
            assert(group_ids(prev)[b] == group_ids(gs)[b]);
        }
        lemma_filter_keys_unique(prev, p);
        let f = prev.filter(p);
        assert forall|k: int| 0 <= k < f.len() implies group_ids(gs).contains(#[trigger] f[k].id) by {
            let j = choose|j: int| 0 <= j < group_ids(prev).len() && group_ids(prev)[j] == f[k].id;
            assert(group_ids(gs)[j] == f[k].id);
        }
        if p(gs.last()) {
            let g = gs.filter(p);
            assert(g == f.push(gs.last()));
            assert forall|k: int| 0 <= k < f.len() implies f[k].id != gs.last().id by {
                let j = choose|j: int| 0 <= j < group_ids(prev).len() && group_ids(prev)[j] == f[k].id;
                assert(group_ids(gs)[j] == f[k].id);
                assert(group_ids(gs)[gs.len() - 1] == gs.last().id);
            }
            assert forall|a: int, b: int| 0 <= a < b < group_ids(g).len() implies group_ids(g)[a] != group_ids(g)[b] by {
                if b == g.len() - 1 {
                    assert(group_ids(g)[a] == f[a].id);
                } else {
                    assert(group_ids(g)[a] == group_ids(f)[a]);
                    assert(group_ids(g)[b] == group_ids(f)[b]);
                }
            }
            assert forall|k: int| 0 <= k < g.len() implies group_ids(gs).contains(#[trigger] g[k].id) by {
                if k == g.len() - 1 {
                    assert(group_ids(gs)[gs.len() - 1] == g[k].id);
                } else {
                    assert(g[k] == f[k]);
                }
            }
        }
    }
}

fn active_group_ids(tasks: &Vec<DownloadTask>) -> (r: Vec<String>)
    ensures
        forall|id: Seq<char>| crate::text::views(r@).contains(id) <==> group_active(task_views(tasks@), id),
{
    let ghost ts = task_views(tasks@);
    let mut out: Vec<String> = Vec::new();
    let mut i: usize = 0;
    while i < tasks.len()
        invariant
            i <= tasks.len(),
            ts == task_views(tasks@),
            crate::text::views(out@) == ts.take(i as int).map_values(|t: TaskModel| spec_group_of(t)),
        decreases tasks.len() - i,
    {
        let g = normalized_group_id(&tasks[i]);
        let ghost before = out@;
        out.push(g);
        assert(ts[i as int] == tasks@[i as int]@);
        assert(crate::text::views(out@) =~= crate::text::views(before).push(spec_group_of(ts[i as int])));
        assert(crate::text::views(out@) =~= ts.take(i + 1).map_values(|t: TaskModel| spec_group_of(t)));
        i = i + 1;
    }
    let ghost gv = crate::text::views(out@);
    assert(ts.take(tasks.len() as int) =~= ts);
    assert forall|id: Seq<char>| gv.contains(id) <==> group_active(ts, id) by {
        if gv.contains(id) {
            let k = choose|k: int| 0 <= k < gv.len() && gv[k] == id;
            assert(spec_group_of(ts[k]) == id);
        }
        if group_active(ts, id) {
            let j = choose|j: int| 0 <= j < ts.len() && spec_group_of(#[trigger] ts[j]) == id;
            assert(gv[j] == id);
        }
    }
    out
}

/// Drops the groups that no task belongs to any more and that are finished.
pub fn prune_empty_task_groups(store: &mut AppStore)
    ensures
        final(store)@.settings == old(store)@.settings,
        final(store)@.local_beatmapsets == old(store)@.local_beatmapsets,
        final(store)@.tasks == old(store)@.tasks,
        final(store)@.task_groups == old(store)@.task_groups.filter(keeps_group(old(store)@.tasks)),
        store_wf(old(store)@) ==> store_wf(final(store)@),
{
    let active = active_group_ids(&store.tasks);
    let ghost gs = group_views(store.task_groups@);
    let ghost p = keeps_group(task_views(store.tasks@));
    let mut kept: Vec<DownloadGroupProgress> = Vec::new();
    let mut old_groups: Vec<DownloadGroupProgress> = Vec::new();
    std::mem::swap(&mut old_groups, &mut store.task_groups);
    let mut i: usize = 0;
    while i < old_groups.len()
        invariant
            i <= old_groups.len(),
            gs == group_views(old_groups@),
            p == keeps_group(task_views(store.tasks@)),
            forall|id: Seq<char>| crate::text::views(active@).contains(id) <==> group_active(task_views(store.tasks@), id),
            group_views(kept@) == gs.take(i as int).filter(p),
        decreases old_groups.len() - i,
    {
        let keep = contains_text(&active, old_groups[i].id.as_str()) || old_groups[i].completed_tasks < old_groups[i].total_tasks;
        proof {
            assert(gs.take(i + 1) =~= gs.take(i as int).push(gs[i as int]));
            gs.take(i as int).lemma_filter_push(gs[i as int], p);
            assert(keep == p(gs[i as int]));
        }
        if keep {
            let g = DownloadGroupProgress {
                id: old_groups[i].id.clone(),
                name: old_groups[i].name.clone(),
                source: old_groups[i].source.clone(),
                destination: old_groups[i].destination.clone(),
                total_tasks: old_groups[i].total_tasks,
                completed_tasks: old_groups[i].completed_tasks,
                completed_bytes: old_groups[i].completed_bytes,
                created_at: old_groups[i].created_at.clone(),
                updated_at: old_groups[i].updated_at.clone(),
            };
            let ghost before = kept@;
            kept.push(g);
            assert(group_views(kept@) =~= group_views(before).push(gs[i as int]));
        }
        i = i + 1;
    }
    assert(gs.take(old_groups.len() as int) =~= gs);
    store.task_groups = kept;
    proof {
        if store_wf(old(store)@) {
            lemma_filter_keys_unique(gs, p);
        }
    }
}


/// Whether task `id` exists and is in retry generation `generation`.
pub open spec fn attempt_matches(tasks: Seq<TaskModel>, id: Seq<char>, generation: u64) -> bool {
    let i = index_of(task_ids(tasks), id);
    i < tasks.len() && tasks[i].retry_generation == generation
}

/// Whether a download attempt is still the one the queue holds: its task
/// is there, in the same retry generation, and not cancelled.
pub open spec fn spec_attempt_current(tasks: Seq<TaskModel>, id: Seq<char>, generation: u64) -> bool {
    attempt_matches(tasks, id, generation) && tasks[index_of(task_ids(tasks), id)].status != "cancelled"@
}

/// `tasks` with the first task of id `id` replaced by `f` of it; unchanged
/// when there is no such task.
pub open spec fn update_task(tasks: Seq<TaskModel>, id: Seq<char>, t: TaskModel) -> Seq<TaskModel> {
    let i = index_of(task_ids(tasks), id);
    if i < tasks.len() { tasks.update(i, t) } else { tasks }
}

/// The task of id `id` (the first one).
pub open spec fn task_of(tasks: Seq<TaskModel>, id: Seq<char>) -> TaskModel {
    tasks[index_of(task_ids(tasks), id)]
}

/// Whether a download attempt is still current.
pub fn is_attempt_current(store: &AppStore, id: &str, retry_generation: u64) -> (r: bool)
    ensures
        r == spec_attempt_current(store@.tasks, id@, retry_generation),
{
    let i = find_task(&store.tasks, id);
    if i < store.tasks.len() {
        assert(task_views(store.tasks@)[i as int] == store.tasks@[i as int]@);
        store.tasks[i].retry_generation == retry_generation && !str_eq(store.tasks[i].status.as_str(), "cancelled")
    } else {
        false
    }
}

/// The task after a progress report.
pub open spec fn with_progress(t: TaskModel, downloaded: u64, total: Option<u64>, now: Seq<char>) -> TaskModel {
    TaskModel { downloaded_bytes: downloaded, total_bytes: total, updated_at: now, ..t }
}

/// The time stamp that an operation wrote into the first task of id `id`.
pub open spec fn stamp_of(tasks: Seq<TaskModel>, id: Seq<char>) -> Seq<char> {
    task_of(tasks, id).updated_at
}

/// Records the bytes downloaded so far by an attempt that is still in its
/// retry generation, with the current time; says whether it did.
pub fn update_progress(store: &mut AppStore, id: &str, retry_generation: u64, downloaded: u64, total: Option<u64>) -> (r: bool)
    ensures
        r == attempt_matches(old(store)@.tasks, id@, retry_generation),
        final(store)@.tasks == if r {
            update_task(old(store)@.tasks, id@, with_progress(task_of(old(store)@.tasks, id@), downloaded, total, stamp_of(final(store)@.tasks, id@)))
        } else {
            old(store)@.tasks
        },
        final(store)@.settings == old(store)@.settings,
        final(store)@.local_beatmapsets == old(store)@.local_beatmapsets,
        final(store)@.task_groups == old(store)@.task_groups,
{
    let i = find_task(&store.tasks, id);
    proof {
        if i < store.tasks.len() {
            assert(task_views(store.tasks@)[i as int] == store.tasks@[i as int]@);
        }
    }
    if i < store.tasks.len() && store.tasks[i].retry_generation == retry_generation {
        let ghost before = task_views(store.tasks@);
        let now = now_rfc3339();
        store.tasks[i].downloaded_bytes = downloaded;
        store.tasks[i].total_bytes = total;
        store.tasks[i].updated_at = now;
        proof { lemma_update_at(before, task_views(store.tasks@), id@, i as int); }
        true
    } else {
        false
    }
}

proof fn lemma_update_at(before: Seq<TaskModel>, after: Seq<TaskModel>, id: Seq<char>, i: int)
    requires
        i == index_of(task_ids(before), id),
        0 <= i < before.len(),
        after.len() == before.len(),
        forall|j: int| 0 <= j < before.len() && j != i ==> after[j] == before[j],
        after[i].id == before[i].id,
    ensures
        index_of(task_ids(after), id) == i,
        after == before.update(i, after[i]),
{
    lemma_index_of_bounds(task_ids(before), id);
    assert forall|j: int| 0 <= j < i implies task_ids(after)[j] != id by {
        if task_ids(after)[j] == id {
            assert(task_ids(before)[j] == id);
            lemma_index_of_first(task_ids(before), id, j);
        }
    }
    assert(task_ids(after)[i] == id);
    lemma_index_of(task_ids(after), id, i);
    assert(after =~= before.update(i, after[i]));
}

proof fn lemma_index_of_first<K>(keys: Seq<K>, k: K, j: int)
    requires
        0 <= j < keys.len(),
        keys[j] == k,
    ensures
        index_of(keys, k) <= j,
    decreases keys.len(),
{
    if keys[0] != k {
        assert(keys.drop_first()[j - 1] == k);
        lemma_index_of_first(keys.drop_first(), k, j - 1);
    }
}

/// The task while one of its mirrors is being tried.
pub open spec fn with_attempt(t: TaskModel, url: Seq<char>, error: Seq<char>, now: Seq<char>) -> TaskModel {
    TaskModel { url, error, status: "downloading"@, updated_at: now, ..t }
}

/// Records which mirror an attempt is trying and what it is doing, when the
/// attempt is still in its retry generation; says whether it did.
pub fn update_task_attempt(store: &mut AppStore, id: &str, retry_generation: u64, url: &str, error: &str) -> (r: bool)
    ensures
        r == attempt_matches(old(store)@.tasks, id@, retry_generation),
        final(store)@.tasks == if r {
            update_task(old(store)@.tasks, id@, with_attempt(task_of(old(store)@.tasks, id@), url@, error@, stamp_of(final(store)@.tasks, id@)))
        } else {
            old(store)@.tasks
        },
        final(store)@.settings == old(store)@.settings,
        final(store)@.local_beatmapsets == old(store)@.local_beatmapsets,
        final(store)@.task_groups == old(store)@.task_groups,
{
    let i = find_task(&store.tasks, id);
    proof {
        if i < store.tasks.len() {
            assert(task_views(store.tasks@)[i as int] == store.tasks@[i as int]@);
        }
    }
    if i < store.tasks.len() && store.tasks[i].retry_generation == retry_generation {
        let ghost before = task_views(store.tasks@);
        let now = now_rfc3339();
        store.tasks[i].url = url.to_string();
        store.tasks[i].error = error.to_string();
        store.tasks[i].status = "downloading".to_string();
        store.tasks[i].updated_at = now;
        proof { lemma_update_at(before, task_views(store.tasks@), id@, i as int); }
        true
    } else {
        false
    }
}

/// The task after a stalled mirror: its bytes are forgotten.
pub open spec fn with_reset(t: TaskModel, error: Seq<char>, now: Seq<char>) -> TaskModel {
    TaskModel { downloaded_bytes: 0, total_bytes: None, error, updated_at: now, ..t }
}

/// Forgets what a stalled attempt downloaded, when it is still in its
/// retry generation; says whether it did. (Removing the partial file is the
/// caller's part.)
pub fn reset_stalled_attempt(store: &mut AppStore, id: &str, retry_generation: u64, error: &str) -> (r: bool)
    ensures
        r == attempt_matches(old(store)@.tasks, id@, retry_generation),
        final(store)@.tasks == if r {
            update_task(old(store)@.tasks, id@, with_reset(task_of(old(store)@.tasks, id@), error@, stamp_of(final(store)@.tasks, id@)))
        } else {
            old(store)@.tasks
        },
        final(store)@.settings == old(store)@.settings,
        final(store)@.local_beatmapsets == old(store)@.local_beatmapsets,
        final(store)@.task_groups == old(store)@.task_groups,
{
    let i = find_task(&store.tasks, id);
    proof {
        if i < store.tasks.len() {
            assert(task_views(store.tasks@)[i as int] == store.tasks@[i as int]@);
        }
    }
    if i < store.tasks.len() && store.tasks[i].retry_generation == retry_generation {
        let ghost before = task_views(store.tasks@);
        let now = now_rfc3339();
        store.tasks[i].downloaded_bytes = 0;
        store.tasks[i].total_bytes = None;
        store.tasks[i].error = error.to_string();
        store.tasks[i].updated_at = now;
        proof { lemma_update_at(before, task_views(store.tasks@), id@, i as int); }
        true
    } else {
        false
    }
}

/// The task with a new status and message.
pub open spec fn with_status(t: TaskModel, status: Seq<char>, error: Seq<char>, now: Seq<char>) -> TaskModel {
    TaskModel { status, error, updated_at: now, ..t }
}

/// Marks task `id` failed with `error` if it is downloading, whatever its
/// retry generation; says whether it did.
pub fn mark_failed_latest(store: &mut AppStore, id: &str, error: &str) -> (r: bool)
    ensures
        r == (index_of(task_ids(old(store)@.tasks), id@) < old(store)@.tasks.len()
            && task_of(old(store)@.tasks, id@).status == "downloading"@),
        final(store)@.tasks == if r {
            update_task(old(store)@.tasks, id@, with_status(task_of(old(store)@.tasks, id@), "failed"@, error@, stamp_of(final(store)@.tasks, id@)))
        } else {
            old(store)@.tasks
        },
        final(store)@.settings == old(store)@.settings,
        final(store)@.local_beatmapsets == old(store)@.local_beatmapsets,
        final(store)@.task_groups == old(store)@.task_groups,
{
    let i = find_task(&store.tasks, id);
    proof {
        if i < store.tasks.len() {
            assert(task_views(store.tasks@)[i as int] == store.tasks@[i as int]@);
        }
    }
    if i < store.tasks.len() && str_eq(store.tasks[i].status.as_str(), "downloading") {
        let ghost before = task_views(store.tasks@);
        let now = now_rfc3339();
        store.tasks[i].status = "failed".to_string();
        store.tasks[i].error = error.to_string();
        store.tasks[i].updated_at = now;
        proof { lemma_update_at(before, task_views(store.tasks@), id@, i as int); }
        true
    } else {
        false
    }
}

/// Starts a download of task `id`: it becomes `downloading` with no message.
/// Gives a copy of the task, or `None` when there is no such task.
pub fn begin_download(store: &mut AppStore, id: &str) -> (r: Option<DownloadTask>)
    ensures
        r is Some <==> index_of(task_ids(old(store)@.tasks), id@) < old(store)@.tasks.len(),
        final(store)@.tasks == if r is Some {
            update_task(old(store)@.tasks, id@, with_status(task_of(old(store)@.tasks, id@), "downloading"@, Seq::empty(), stamp_of(final(store)@.tasks, id@)))
        } else {
            old(store)@.tasks
        },
        r is Some ==> r->0@ == task_of(final(store)@.tasks, id@),
        final(store)@.settings == old(store)@.settings,
        final(store)@.local_beatmapsets == old(store)@.local_beatmapsets,
        final(store)@.task_groups == old(store)@.task_groups,
{
    let i = find_task(&store.tasks, id);
    if i < store.tasks.len() {
        let ghost before = task_views(store.tasks@);
        assert(before[i as int] == store.tasks@[i as int]@);
        let now = now_rfc3339();
        store.tasks[i].status = "downloading".to_string();
        store.tasks[i].error = String::new();
        store.tasks[i].updated_at = now;
        proof { lemma_update_at(before, task_views(store.tasks@), id@, i as int); }
        let copy = copy_task(&store.tasks[i]);
        assert(task_views(store.tasks@)[i as int] == store.tasks@[i as int]@);
        Some(copy)
    } else {
        None
    }
}

/// A copy of a task.
pub fn copy_task(t: &DownloadTask) -> (r: DownloadTask)
    ensures
        r@ == t@,
{
    let ids = t.collection_beatmap_ids.clone();
    assert(ids@ =~= t.collection_beatmap_ids@);
    DownloadTask {
        id: t.id.clone(),
        group_id: t.group_id.clone(),
        group_name: t.group_name.clone(),
        group_source: t.group_source.clone(),
        group_destination: t.group_destination.clone(),
        beatmapset_id: t.beatmapset_id,
        title: t.title.clone(),
        artist: t.artist.clone(),
        include_video: t.include_video,
        download_mode: t.download_mode.clone(),
        beatmap_id: t.beatmap_id,
        url: t.url.clone(),
        target_path: t.target_path.clone(),
        temp_path: t.temp_path.clone(),
        total_bytes: t.total_bytes,
        downloaded_bytes: t.downloaded_bytes,
        retry_generation: t.retry_generation,
        collection_beatmap_ids: ids,
        status: t.status.clone(),
        error: t.error.clone(),
        created_at: t.created_at.clone(),
        updated_at: t.updated_at.clone(),
    }
}

/// The task once its download waits in the cache for the rest of its group.
pub open spec fn with_staged(t: TaskModel, staged_path: Seq<char>, now: Seq<char>) -> TaskModel {
    TaskModel {
        temp_path: staged_path,
        status: "staged"@,
        error: "已缓存，等待同任务全部下载完成"@,
        updated_at: now,
        ..t
    }
}

/// Records that an attempt's file now waits at `staged_path` in the cache,
/// when the attempt is still in its retry generation; says whether it did.
pub fn stage_completed_download(store: &mut AppStore, id: &str, retry_generation: u64, staged_path: &str) -> (r: bool)
    ensures
        r == attempt_matches(old(store)@.tasks, id@, retry_generation),
        final(store)@.tasks == if r {
            update_task(old(store)@.tasks, id@, with_staged(task_of(old(store)@.tasks, id@), staged_path@, stamp_of(final(store)@.tasks, id@)))
        } else {
            old(store)@.tasks
        },
        final(store)@.settings == old(store)@.settings,
        final(store)@.local_beatmapsets == old(store)@.local_beatmapsets,
        final(store)@.task_groups == old(store)@.task_groups,
{
    let i = find_task(&store.tasks, id);
    proof {
        if i < store.tasks.len() {
            assert(task_views(store.tasks@)[i as int] == store.tasks@[i as int]@);
        }
    }
    if i < store.tasks.len() && store.tasks[i].retry_generation == retry_generation {
        let ghost before = task_views(store.tasks@);
        let now = now_rfc3339();
        store.tasks[i].temp_path = staged_path.to_string();
        store.tasks[i].status = "staged".to_string();
        store.tasks[i].error = "已缓存，等待同任务全部下载完成".to_string();
        store.tasks[i].updated_at = now;
        proof { lemma_update_at(before, task_views(store.tasks@), id@, i as int); }
        true
    } else {
        false
    }
}


/// Every group's completed count is at most its total.
pub open spec fn groups_bounded(gs: Seq<GroupModel>) -> bool {
    forall|i: int| 0 <= i < gs.len() ==> (#[trigger] gs[i]).completed_tasks <= gs[i].total_tasks
}

/// A group made for a task whose group has no progress yet: one task, none
/// finished.
pub open spec fn new_group_for(t: TaskModel) -> GroupModel {
    GroupModel {
        id: spec_group_of(t),
        name: t.group_name,
        source: t.group_source,
        destination: t.group_destination,
        total_tasks: 1,
        completed_tasks: 0,
        completed_bytes: 0,
        created_at: t.created_at,
        updated_at: t.updated_at,
    }
}

/// A group after one more of its tasks finished with `bytes` bytes: a total
/// of zero counts as one, the completed count grows by one but not past the
/// total, and the bytes add up (both saturating).
pub open spec fn completed_group(g: GroupModel, bytes: u64, now: Seq<char>) -> GroupModel {
    let total: usize = if g.total_tasks == 0 { 1 } else { g.total_tasks };
    let bumped: int = if g.completed_tasks < usize::MAX { g.completed_tasks + 1 } else { usize::MAX as int };
    let sum: int = g.completed_bytes + bytes;
    GroupModel {
        total_tasks: total,
        completed_tasks: (if bumped < total { bumped } else { total as int }) as usize,
        completed_bytes: (if sum <= u64::MAX { sum } else { u64::MAX as int }) as u64,
        updated_at: now,
        ..g
    }
}

/// The groups after task `t` finished: its group's progress, made when
/// missing, counts one more task.
pub open spec fn spec_mark_completed(gs: Seq<GroupModel>, t: TaskModel, now: Seq<char>) -> Seq<GroupModel> {
    let i = index_of(group_ids(gs), spec_group_of(t));
    if i < gs.len() {
        gs.update(i, completed_group(gs[i], t.downloaded_bytes, now))
    } else {
        gs.push(completed_group(new_group_for(t), t.downloaded_bytes, now))
    }
}

fn complete_in_group(groups: &mut Vec<DownloadGroupProgress>, task: &DownloadTask, now: &str)
    ensures
        group_views(final(groups)@) == spec_mark_completed(group_views(old(groups)@), task@, now@),
{
    let gid = normalized_group_id(task);
    let mut i = find_group(groups, gid.as_str());
    let ghost gs = group_views(groups@);
    if i == groups.len() {
        groups.push(DownloadGroupProgress {
            id: gid,
            name: task.group_name.clone(),
            source: task.group_source.clone(),
            destination: task.group_destination.clone(),
            total_tasks: 1,
            completed_tasks: 0,
            completed_bytes: 0,
            created_at: task.created_at.clone(),
            updated_at: task.updated_at.clone(),
        });
        assert(group_views(groups@) =~= gs.push(new_group_for(task@)));
    } else {
        assert(group_views(groups@)[i as int] == groups@[i as int]@);
    }
    let ghost mid = group_views(groups@);
    if groups[i].total_tasks == 0 {
        groups[i].total_tasks = 1;
    }
    let total = groups[i].total_tasks;
    let bumped = if groups[i].completed_tasks < usize::MAX { groups[i].completed_tasks + 1 } else { usize::MAX };
    groups[i].completed_tasks = if bumped < total { bumped } else { total };
    let bytes = groups[i].completed_bytes;
    groups[i].completed_bytes = if bytes <= u64::MAX - task.downloaded_bytes { bytes + task.downloaded_bytes } else { u64::MAX };
    groups[i].updated_at = now.to_string();
    assert(group_views(groups@) =~= mid.update(i as int, completed_group(mid[i as int], task.downloaded_bytes, now@)));
}

/// Counts task `task` as finished in its group's progress, making the
/// progress when the group has none.
pub fn mark_group_task_completed(store: &mut AppStore, task: &DownloadTask)
    ensures
        exists|now: Seq<char>| final(store)@.task_groups == spec_mark_completed(old(store)@.task_groups, task@, now),
        final(store)@.settings == old(store)@.settings,
        final(store)@.local_beatmapsets == old(store)@.local_beatmapsets,
        final(store)@.tasks == old(store)@.tasks,
{
    let now = now_rfc3339();
    let ghost before = store@;
    complete_in_group(&mut store.task_groups, task, now.as_str());
    assert(store@.task_groups == spec_mark_completed(before.task_groups, task@, now@));
}

/// Counting a finished task keeps every group's completed count within its
/// total and, when the counts were within their totals, lowers no group's
/// completed count (progress does not go back); each group id stays once.
pub proof fn law_mark_completed_bounded(gs: Seq<GroupModel>, t: TaskModel, now: Seq<char>)
    ensures
        groups_bounded(gs) ==> groups_bounded(spec_mark_completed(gs, t, now)),
        spec_mark_completed(gs, t, now).len() >= gs.len(),
        groups_bounded(gs) ==> forall|k: int| 0 <= k < gs.len()
            ==> #[trigger] spec_mark_completed(gs, t, now)[k].completed_tasks >= gs[k].completed_tasks,
        group_ids(gs).no_duplicates() ==> group_ids(spec_mark_completed(gs, t, now)).no_duplicates(),
{
    let r = spec_mark_completed(gs, t, now);
    let gid = spec_group_of(t);
    lemma_index_of_bounds(group_ids(gs), gid);
    let i = index_of(group_ids(gs), gid);
    if group_ids(gs).no_duplicates() {
        if i < gs.len() {
            assert(group_ids(r) =~= group_ids(gs));
        } else {
            assert(group_ids(r) =~= group_ids(gs).push(gid));
            assert forall|a: int, b: int| 0 <= a < b < group_ids(r).len() implies group_ids(r)[a] != group_ids(r)[b] by {
                if b == gs.len() {
                    assert(group_ids(gs)[a] == group_ids(r)[a]);
                } else {
                    assert(group_ids(gs)[a] == group_ids(r)[a]);
                    assert(group_ids(gs)[b] == group_ids(r)[b]);
                }
            }
        }
    }
}

/// The local beatmapsets after recording `l`: it replaces the entry with its
/// beatmapset id, or comes last when there is none.
pub open spec fn spec_upsert_local(locals: Seq<LocalModel>, l: LocalModel) -> Seq<LocalModel> {
    let i = index_of(local_ids(locals), l.beatmapset_id);
    if i < locals.len() {
        locals.update(i, l)
    } else {
        locals.push(l)
    }
}

/// Records a local beatmapset (see `spec_upsert_local`).
pub fn upsert_local(locals: &mut Vec<LocalBeatmapset>, l: LocalBeatmapset)
    ensures
        local_views(final(locals)@) == spec_upsert_local(local_views(old(locals)@), l@),
{
    let ghost ls = local_views(locals@);
    let ghost ids = local_ids(ls);
    let mut i: usize = 0;
    while i < locals.len() && locals[i].beatmapset_id != l.beatmapset_id
        invariant
            i <= locals.len(),
            ls == local_views(locals@),
            ids == local_ids(ls),
            forall|j: int| 0 <= j < i ==> ids[j] != l.beatmapset_id,
        decreases locals.len() - i,
    {
        assert(ids[i as int] == locals@[i as int].beatmapset_id);
        i = i + 1;
    }
    proof {
        if i < locals.len() {
            assert(ids[i as int] == locals@[i as int].beatmapset_id);
        }
        lemma_index_of(ids, l.beatmapset_id, i as int);
    }
    if i < locals.len() {
        locals[i] = l;
        assert(local_views(locals@) =~= ls.update(i as int, l@));
    } else {
        locals.push(l);
        assert(local_views(locals@) =~= ls.push(l@));
    }
}

/// The state after an attempt ends with `status`: a completed task leaves
/// the queue, counts in its group and is recorded as a local beatmapset at
/// its target path; any other status is written with its message. Nothing
/// changes unless the attempt is in its task's retry generation.
pub open spec fn spec_set_status(s: StoreModel, id: Seq<char>, generation: u64, status: Seq<char>, error: Seq<char>, now: Seq<char>) -> StoreModel {
    if !attempt_matches(s.tasks, id, generation) {
        s
    } else if status == "completed"@ {
        let i = index_of(task_ids(s.tasks), id);
        let t = s.tasks[i];
        StoreModel {
            tasks: s.tasks.remove(i),
            task_groups: spec_mark_completed(s.task_groups, t, now),
            local_beatmapsets: spec_upsert_local(s.local_beatmapsets, LocalModel {
                beatmapset_id: t.beatmapset_id,
                folder_path: t.target_path,
                detected_from: "download"@,
                scanned_at: now,
            }),
            settings: s.settings,
        }
    } else {
        StoreModel {
            tasks: update_task(s.tasks, id, with_status(task_of(s.tasks, id), status, error, now)),
            ..s
        }
    }
}

fn apply_status(store: &mut AppStore, id: &str, retry_generation: u64, status: &str, error: &str, now: &str) -> (r: bool)
    ensures
        r == attempt_matches(old(store)@.tasks, id@, retry_generation),
        final(store)@ == spec_set_status(old(store)@, id@, retry_generation, status@, error@, now@),
{
    let i = find_task(&store.tasks, id);
    proof {
        if i < store.tasks.len() {
            assert(task_views(store.tasks@)[i as int] == store.tasks@[i as int]@);
        }
    }
    if !(i < store.tasks.len() && store.tasks[i].retry_generation == retry_generation) {
        return false;
    }
    let ghost before = store@;
    if str_eq(status, "completed") {
        let task = store.tasks.remove(i);
        assert(task_views(store.tasks@) =~= before.tasks.remove(i as int));
        complete_in_group(&mut store.task_groups, &task, now);
        let entry = LocalBeatmapset {
            beatmapset_id: task.beatmapset_id,
            folder_path: task.target_path,
            detected_from: "download".to_string(),
            scanned_at: now.to_string(),
        };
        upsert_local(&mut store.local_beatmapsets, entry);
    } else {
        store.tasks[i].status = status.to_string();
        store.tasks[i].error = error.to_string();
        store.tasks[i].updated_at = now.to_string();
        proof { lemma_update_at(before.tasks, task_views(store.tasks@), id@, i as int); }
    }
    true
}

/// Ends an attempt with `status` and `error` (see `spec_set_status`), at the
/// current time; says whether the attempt was still in its retry
/// generation.
pub fn set_status(store: &mut AppStore, id: &str, retry_generation: u64, status: &str, error: &str) -> (r: bool)
    ensures
        r == attempt_matches(old(store)@.tasks, id@, retry_generation),
        exists|now: Seq<char>| final(store)@ == spec_set_status(old(store)@, id@, retry_generation, status@, error@, now),
{
    let now = now_rfc3339();
    let ghost before = store@;
    let r = apply_status(store, id, retry_generation, status, error, now.as_str());
    assert(store@ == spec_set_status(before, id@, retry_generation, status@, error@, now@));
    r
}


pub open spec fn inside_group(gid: Seq<char>) -> spec_fn(TaskModel) -> bool {
    |t: TaskModel| spec_group_of(t) == gid
}

pub open spec fn outside_group(gid: Seq<char>) -> spec_fn(TaskModel) -> bool {
    |t: TaskModel| spec_group_of(t) != gid
}

pub open spec fn other_group(gid: Seq<char>) -> spec_fn(GroupModel) -> bool {
    |g: GroupModel| g.id != gid
}

pub open spec fn not_completed_fn() -> spec_fn(TaskModel) -> bool {
    |t: TaskModel| not_completed(t)
}

pub open spec fn runnable_fn() -> spec_fn(TaskModel) -> bool {
    |t: TaskModel| runnable(t)
}

pub open spec fn runnable_in(gid: Seq<char>) -> spec_fn(TaskModel) -> bool {
    |t: TaskModel| runnable(t) && spec_group_of(t) == gid
}

/// A task moved from status `from` to `to` at `now`; others are unchanged.
pub open spec fn moved_status(t: TaskModel, from: Seq<char>, to: Seq<char>, now: Seq<char>) -> TaskModel {
    if t.status == from {
        TaskModel { status: to, updated_at: now, ..t }
    } else {
        t
    }
}

pub open spec fn spec_move_status(tasks: Seq<TaskModel>, from: Seq<char>, to: Seq<char>, now: Seq<char>) -> Seq<TaskModel> {
    tasks.map_values(|t: TaskModel| moved_status(t, from, to, now))
}

fn move_status(tasks: &mut Vec<DownloadTask>, from: &str, to: &str, now: &str)
    ensures
        task_views(final(tasks)@) == spec_move_status(task_views(old(tasks)@), from@, to@, now@),
{
    let ghost ts = task_views(tasks@);
    let mut i: usize = 0;
    while i < tasks.len()
        invariant
            i <= tasks.len(),
            ts.len() == tasks.len(),
            forall|j: int| 0 <= j < i ==> (#[trigger] tasks@[j])@ == moved_status(ts[j], from@, to@, now@),
            forall|j: int| i <= j < tasks.len() ==> (#[trigger] tasks@[j])@ == ts[j],
        decreases tasks.len() - i,
    {
        if str_eq(tasks[i].status.as_str(), from) {
            tasks[i].status = to.to_string();
            tasks[i].updated_at = now.to_string();
        }
        i = i + 1;
    }
    assert(task_views(tasks@) =~= spec_move_status(ts, from@, to@, now@));
}

/// Queues every pending task (the start of a download run).
pub fn start_downloads(store: &mut AppStore)
    ensures
        exists|now: Seq<char>| final(store)@.tasks == spec_move_status(old(store)@.tasks, "pending"@, "queued"@, now),
        final(store)@.settings == old(store)@.settings,
        final(store)@.local_beatmapsets == old(store)@.local_beatmapsets,
        final(store)@.task_groups == old(store)@.task_groups,
{
    let now = now_rfc3339();
    move_status(&mut store.tasks, "pending", "queued", now.as_str());
    assert(store@.tasks == spec_move_status(old(store)@.tasks, "pending"@, "queued"@, now@));
}

/// Pauses every task that is downloading.
pub fn pause_downloads(store: &mut AppStore)
    ensures
        exists|now: Seq<char>| final(store)@.tasks == spec_move_status(old(store)@.tasks, "downloading"@, "paused"@, now),
        final(store)@.settings == old(store)@.settings,
        final(store)@.local_beatmapsets == old(store)@.local_beatmapsets,
        final(store)@.task_groups == old(store)@.task_groups,
{
    let now = now_rfc3339();
    move_status(&mut store.tasks, "downloading", "paused", now.as_str());
    assert(store@.tasks == spec_move_status(old(store)@.tasks, "downloading"@, "paused"@, now@));
}

/// Law: after pausing no task is downloading, and after starting no task is
/// pending; the queue keeps its tasks in order, each with its id and group.
pub proof fn law_start_pause_statuses(tasks: Seq<TaskModel>, now: Seq<char>)
    ensures
        spec_move_status(tasks, "downloading"@, "paused"@, now).len() == tasks.len(),
        spec_move_status(tasks, "pending"@, "queued"@, now).len() == tasks.len(),
        forall|i: int| 0 <= i < tasks.len() ==> {
            let p = #[trigger] spec_move_status(tasks, "downloading"@, "paused"@, now)[i];
            &&& p.status != "downloading"@
            &&& p.id == tasks[i].id
            &&& p.group_id == tasks[i].group_id
        },
        forall|i: int| 0 <= i < tasks.len() ==> {
            let q = #[trigger] spec_move_status(tasks, "pending"@, "queued"@, now)[i];
            &&& q.status != "pending"@
            &&& q.id == tasks[i].id
            &&& q.group_id == tasks[i].group_id
        },
{
    reveal_strlit("downloading");
    reveal_strlit("paused");
    reveal_strlit("pending");
    reveal_strlit("queued");
    assert("paused"@ != "downloading"@) by {
        assert("paused"@.len() != "downloading"@.len());
    }
    assert("queued"@ != "pending"@) by {
        assert("queued"@[0] != "pending"@[0]);
    }
}

/// Keeps the tasks for which `keep` holds, and collects the temporary paths
/// of the others.
fn retain_tasks_by_group(tasks: &mut Vec<DownloadTask>, group_id: &str) -> (removed: Vec<String>)
    ensures
        task_views(final(tasks)@) == task_views(old(tasks)@).filter(outside_group(group_id@)),
        crate::text::views(removed@) == task_views(old(tasks)@).filter(inside_group(group_id@)).map_values(|t: TaskModel| t.temp_path),
{
    let ghost ts = task_views(tasks@);
    let mut old_tasks: Vec<DownloadTask> = Vec::new();
    std::mem::swap(&mut old_tasks, tasks);
    let mut removed: Vec<String> = Vec::new();
    let mut i: usize = 0;
    while i < old_tasks.len()
        invariant
            i <= old_tasks.len(),
            ts == task_views(old_tasks@),
            task_views(tasks@) == ts.take(i as int).filter(outside_group(group_id@)),
            crate::text::views(removed@) == ts.take(i as int).filter(inside_group(group_id@)).map_values(|t: TaskModel| t.temp_path),
        decreases old_tasks.len() - i,
    {
        let g = normalized_group_id(&old_tasks[i]);
        proof {
            assert(ts[i as int] == old_tasks@[i as int]@);
            assert(ts.take(i + 1) =~= ts.take(i as int).push(ts[i as int]));
            ts.take(i as int).lemma_filter_push(ts[i as int], outside_group(group_id@));
            ts.take(i as int).lemma_filter_push(ts[i as int], inside_group(group_id@));
        }
        if str_eq(g.as_str(), group_id) {
            let ghost before = removed@;
            removed.push(old_tasks[i].temp_path.clone());
            let ghost f = ts.take(i as int).filter(inside_group(group_id@));
            assert(crate::text::views(removed@) =~= crate::text::views(before).push(ts[i as int].temp_path));
            assert(f.push(ts[i as int]).map_values(|t: TaskModel| t.temp_path) =~= f.map_values(|t: TaskModel| t.temp_path).push(ts[i as int].temp_path));
        } else {
            let ghost before = tasks@;
            tasks.push(copy_task(&old_tasks[i]));
            assert(task_views(tasks@) =~= task_views(before).push(ts[i as int]));
        }
        i = i + 1;
    }
    assert(ts.take(old_tasks.len() as int) =~= ts);
    removed
}

fn retain_groups_without(groups: &mut Vec<DownloadGroupProgress>, group_id: &str)
    ensures
        group_views(final(groups)@) == group_views(old(groups)@).filter(other_group(group_id@)),
{
    let ghost gs = group_views(groups@);
    let mut old_groups: Vec<DownloadGroupProgress> = Vec::new();
    std::mem::swap(&mut old_groups, groups);
    let mut i: usize = 0;
    while i < old_groups.len()
        invariant
            i <= old_groups.len(),
            gs == group_views(old_groups@),
            group_views(groups@) == gs.take(i as int).filter(other_group(group_id@)),
        decreases old_groups.len() - i,
    {
        proof {
            assert(gs[i as int] == old_groups@[i as int]@);
            assert(gs.take(i + 1) =~= gs.take(i as int).push(gs[i as int]));
            gs.take(i as int).lemma_filter_push(gs[i as int], other_group(group_id@));
        }
        if !str_eq(old_groups[i].id.as_str(), group_id) {
            let g = DownloadGroupProgress {
                id: old_groups[i].id.clone(),
                name: old_groups[i].name.clone(),
                source: old_groups[i].source.clone(),
                destination: old_groups[i].destination.clone(),
                total_tasks: old_groups[i].total_tasks,
                completed_tasks: old_groups[i].completed_tasks,
                completed_bytes: old_groups[i].completed_bytes,
                created_at: old_groups[i].created_at.clone(),
                updated_at: old_groups[i].updated_at.clone(),
            };
            let ghost before = groups@;
            groups.push(g);
            assert(group_views(groups@) =~= group_views(before).push(gs[i as int]));
        }
        i = i + 1;
    }
    assert(gs.take(old_groups.len() as int) =~= gs);
}

/// Deletes a group of downloads: its tasks leave the queue and its progress
/// is dropped. Gives the temporary paths of the removed tasks, in queue
/// order, for the caller to delete.
pub fn delete_download_group(store: &mut AppStore, group_id: &str) -> (removed: Vec<String>)
    ensures
        final(store)@.tasks == old(store)@.tasks.filter(outside_group(group_id@)),
        final(store)@.task_groups == old(store)@.task_groups.filter(other_group(group_id@)),
        crate::text::views(removed@) == old(store)@.tasks.filter(inside_group(group_id@)).map_values(|t: TaskModel| t.temp_path),
        final(store)@.settings == old(store)@.settings,
        final(store)@.local_beatmapsets == old(store)@.local_beatmapsets,
        store_wf(old(store)@) ==> store_wf(final(store)@),
{
    let removed = retain_tasks_by_group(&mut store.tasks, group_id);
    retain_groups_without(&mut store.task_groups, group_id);
    proof {
        if store_wf(old(store)@) {
            lemma_filter_keys_unique(old(store)@.task_groups, other_group(group_id@));
        }
    }
    removed
}

/// Removes every task and every group's progress.
pub fn clear_all_downloads(store: &mut AppStore)
    ensures
        final(store)@.tasks.len() == 0,
        final(store)@.task_groups.len() == 0,
        final(store)@.settings == old(store)@.settings,
        final(store)@.local_beatmapsets == old(store)@.local_beatmapsets,
{
    store.tasks.clear();
    store.task_groups.clear();
}

/// A task that `clear_completed` keeps.
pub open spec fn not_completed(t: TaskModel) -> bool {
    t.status != "completed"@
}

/// Removes the completed tasks, then the groups that are left empty and
/// finished.
pub fn clear_completed(store: &mut AppStore)
    ensures
        final(store)@.tasks == old(store)@.tasks.filter(not_completed_fn()),
        final(store)@.task_groups == old(store)@.task_groups.filter(
            keeps_group(old(store)@.tasks.filter(not_completed_fn())),
        ),
        final(store)@.settings == old(store)@.settings,
        final(store)@.local_beatmapsets == old(store)@.local_beatmapsets,
        store_wf(old(store)@) ==> store_wf(final(store)@),
{
    let ghost ts = task_views(store.tasks@);
    let mut old_tasks: Vec<DownloadTask> = Vec::new();
    std::mem::swap(&mut old_tasks, &mut store.tasks);
    let mut i: usize = 0;
    while i < old_tasks.len()
        invariant
            i <= old_tasks.len(),
            ts == task_views(old_tasks@),
            task_views(store.tasks@) == ts.take(i as int).filter(not_completed_fn()),
            store.settings@ == old(store)@.settings,
            local_views(store.local_beatmapsets@) == old(store)@.local_beatmapsets,
            group_views(store.task_groups@) == old(store)@.task_groups,
        decreases old_tasks.len() - i,
    {
        proof {
            assert(ts[i as int] == old_tasks@[i as int]@);
            assert(ts.take(i + 1) =~= ts.take(i as int).push(ts[i as int]));
            ts.take(i as int).lemma_filter_push(ts[i as int], not_completed_fn());
        }
        if !str_eq(old_tasks[i].status.as_str(), "completed") {
            let ghost before = store.tasks@;
            store.tasks.push(copy_task(&old_tasks[i]));
            assert(task_views(store.tasks@) =~= task_views(before).push(ts[i as int]));
        }
        i = i + 1;
    }
    assert(ts.take(old_tasks.len() as int) =~= ts);
    prune_empty_task_groups(store);
}

/// A task the queue still has to run: queued, paused or failed.
pub open spec fn runnable(t: TaskModel) -> bool {
    t.status == "queued"@ || t.status == "paused"@ || t.status == "failed"@
}

/// The ids of the next batch a download run starts: the runnable tasks of
/// the group of the first runnable task, in queue order.
pub open spec fn spec_next_batch(tasks: Seq<TaskModel>) -> Seq<Seq<char>> {
    let r = tasks.filter(runnable_fn());
    if r.len() == 0 {
        Seq::empty()
    } else {
        r.filter(inside_group(spec_group_of(r[0]))).map_values(|t: TaskModel| t.id)
    }
}

fn is_runnable(t: &DownloadTask) -> (r: bool)
    ensures
        r == runnable(t@),
{
    str_eq(t.status.as_str(), "queued") || str_eq(t.status.as_str(), "paused") || str_eq(t.status.as_str(), "failed")
}

/// The ids of the tasks a download run starts next (one group at a time);
/// empty when nothing is left to run.
pub fn next_queue_batch(store: &AppStore) -> (r: Vec<String>)
    ensures
        crate::text::views(r@) == spec_next_batch(store@.tasks),
{
    let ghost ts = task_views(store.tasks@);
    let mut first: Option<String> = None;
    let mut i: usize = 0;
    while i < store.tasks.len() && first.is_none()
        invariant
            i <= store.tasks.len(),
            ts == task_views(store.tasks@),
            first is None ==> ts.take(i as int).filter(runnable_fn()).len() == 0,
            first is Some ==> ts.take(i as int).filter(runnable_fn()).len() > 0
                && first->0@ == spec_group_of(ts.take(i as int).filter(runnable_fn())[0]),
        decreases store.tasks.len() - i,
    {
        proof {
            assert(ts[i as int] == store.tasks@[i as int]@);
            assert(ts.take(i + 1) =~= ts.take(i as int).push(ts[i as int]));
            ts.take(i as int).lemma_filter_push(ts[i as int], runnable_fn());
        }
        if is_runnable(&store.tasks[i]) {
            first = Some(normalized_group_id(&store.tasks[i]));
        }
        i = i + 1;
    }
    let mut out: Vec<String> = Vec::new();
    match first {
        None => {
            proof {
                if i < store.tasks.len() {
                    assert(false);
                }
                assert(ts.take(i as int) =~= ts);
            }
            assert(crate::text::views(out@) =~= Seq::<Seq<char>>::empty());
            out
        },
        Some(g) => {
            proof {
                lemma_filter_prefix_first(ts, runnable_fn(), i as int);
            }
            let ghost gid = g@;
            let mut k: usize = 0;
            while k < store.tasks.len()
                invariant
                    k <= store.tasks.len(),
                    ts == task_views(store.tasks@),
                    gid == g@,
                    crate::text::views(out@) == ts.take(k as int).filter(runnable_in(gid)).map_values(|t: TaskModel| t.id),
                decreases store.tasks.len() - k,
            {
                proof {
                    assert(ts[k as int] == store.tasks@[k as int]@);
                    assert(ts.take(k + 1) =~= ts.take(k as int).push(ts[k as int]));
                    ts.take(k as int).lemma_filter_push(ts[k as int], runnable_in(gid));
                }
                if is_runnable(&store.tasks[k]) {
                    let h = normalized_group_id(&store.tasks[k]);
                    if str_eq(h.as_str(), g.as_str()) {
                        let ghost before = out@;
                        out.push(store.tasks[k].id.clone());
                        let ghost f = ts.take(k as int).filter(runnable_in(gid));
                        assert(crate::text::views(out@) =~= crate::text::views(before).push(ts[k as int].id));
                        assert(f.push(ts[k as int]).map_values(|t: TaskModel| t.id) =~= f.map_values(|t: TaskModel| t.id).push(ts[k as int].id));
                    }
                }
                k = k + 1;
            }
            proof {
                assert(ts.take(store.tasks.len() as int) =~= ts);
                lemma_filter_filter(ts, runnable_fn(), inside_group(gid), runnable_in(gid));
            }
            out
        },
    }
}

/// Law: a download run starts with the oldest runnable work. When task `i`
/// is the first task of the queue that is queued, paused or failed, the
/// next batch holds its id, and every id in the batch is that of a runnable
/// task of the same group.
pub proof fn law_next_batch_oldest_group(tasks: Seq<TaskModel>, i: int)
    requires
        0 <= i < tasks.len(),
        runnable(tasks[i]),
        forall|j: int| 0 <= j < i ==> !runnable(#[trigger] tasks[j]),
    ensures
        spec_next_batch(tasks).contains(tasks[i].id),
        forall|k: int| 0 <= k < spec_next_batch(tasks).len() ==> exists|j: int|
            0 <= j < tasks.len() && tasks[j].id == #[trigger] spec_next_batch(tasks)[k]
                && runnable(tasks[j]) && spec_group_of(tasks[j]) == spec_group_of(tasks[i]),
{
    broadcast use vstd::seq_lib::group_filter_ensures;
    let p = runnable_fn();
    let r = tasks.filter(p);
    let pre = tasks.take(i);
    assert(pre.filter(p).len() == 0) by {
        if pre.filter(p).len() > 0 {
            let x = pre.filter(p)[0];
            assert(p(x));
            pre.lemma_filter_contains_rev(p, x);
            let j = choose|j: int| 0 <= j < pre.len() && pre[j] == x;
            assert(tasks[j] == x);
        }
    }
    assert(tasks.take(i + 1) =~= pre.push(tasks[i]));
    pre.lemma_filter_push(tasks[i], p);
    assert(tasks.take(i + 1).filter(p) =~= seq![tasks[i]]);
    lemma_filter_prefix_first(tasks, p, i + 1);
    assert(r[0] == tasks[i]);
    let g = spec_group_of(tasks[i]);
    let r2 = r.filter(inside_group(g));
    let batch = spec_next_batch(tasks);
    assert(batch == r2.map_values(|t: TaskModel| t.id));
    r.lemma_filter_contains(inside_group(g), 0);
    let m = choose|m: int| 0 <= m < r2.len() && r2[m] == tasks[i];
    assert(batch[m] == tasks[i].id);
    assert forall|k: int| 0 <= k < batch.len() implies exists|j: int|
        0 <= j < tasks.len() && tasks[j].id == #[trigger] batch[k]
            && runnable(tasks[j]) && spec_group_of(tasks[j]) == g by {
        let t = r2[k];
        assert(inside_group(g)(t));
        r.lemma_filter_contains_rev(inside_group(g), t);
        let a = choose|a: int| 0 <= a < r.len() && r[a] == t;
        assert(p(r[a]));
        tasks.lemma_filter_contains_rev(p, t);
        let j = choose|j: int| 0 <= j < tasks.len() && tasks[j] == t;
        assert(batch[k] == t.id);
    }
}

/// Law: the next batch is empty exactly when no task of the queue is
/// queued, paused or failed.
pub proof fn law_next_batch_empty(tasks: Seq<TaskModel>)
    ensures
        spec_next_batch(tasks).len() == 0 <==> forall|j: int| 0 <= j < tasks.len() ==> !runnable(#[trigger] tasks[j]),
{
    broadcast use vstd::seq_lib::group_filter_ensures;
    if exists|j: int| 0 <= j < tasks.len() && runnable(#[trigger] tasks[j]) {
        let j0 = choose|j: int| 0 <= j < tasks.len() && runnable(#[trigger] tasks[j]);
        lemma_first_runnable(tasks, j0);
        let i = choose|i: int| 0 <= i <= j0 && runnable(tasks[i]) && forall|j: int| 0 <= j < i ==> !runnable(#[trigger] tasks[j]);
        law_next_batch_oldest_group(tasks, i);
    } else {
        let p = runnable_fn();
        if tasks.filter(p).len() > 0 {
            let x = tasks.filter(p)[0];
            assert(p(x));
            tasks.lemma_filter_contains_rev(p, x);
            let j = choose|j: int| 0 <= j < tasks.len() && tasks[j] == x;
            assert(runnable(tasks[j]));
        }
    }
}

proof fn lemma_first_runnable(tasks: Seq<TaskModel>, j0: int)
    requires
        0 <= j0 < tasks.len(),
        runnable(tasks[j0]),
    ensures
        exists|i: int| 0 <= i <= j0 && runnable(tasks[i]) && forall|j: int| 0 <= j < i ==> !runnable(#[trigger] tasks[j]),
    decreases j0,
{
    if exists|j: int| 0 <= j < j0 && runnable(#[trigger] tasks[j]) {
        let j1 = choose|j: int| 0 <= j < j0 && runnable(#[trigger] tasks[j]);
        lemma_first_runnable(tasks, j1);
    } else {
        assert(forall|j: int| 0 <= j < j0 ==> !runnable(#[trigger] tasks[j]));
    }
}

proof fn lemma_filter_prefix_first(ts: Seq<TaskModel>, p: spec_fn(TaskModel) -> bool, i: int)
    requires
        0 <= i <= ts.len(),
        ts.take(i).filter(p).len() > 0,
    ensures
        ts.filter(p).len() > 0,
        ts.filter(p)[0] == ts.take(i).filter(p)[0],
{
    assert(ts =~= ts.take(i) + ts.skip(i));
    Seq::filter_distributes_over_add(ts.take(i), ts.skip(i), p);
    assert(ts.filter(p)[0] == (ts.take(i).filter(p) + ts.skip(i).filter(p))[0]);
}

proof fn lemma_filter_filter(ts: Seq<TaskModel>, p: spec_fn(TaskModel) -> bool, q: spec_fn(TaskModel) -> bool, pq: spec_fn(TaskModel) -> bool)
    requires
        forall|t: TaskModel| #[trigger] pq(t) == (p(t) && q(t)),
    ensures
        ts.filter(p).filter(q) == ts.filter(pq),
    decreases ts.len(),
{
    reveal(Seq::filter);
    if ts.len() > 0 {
        lemma_filter_filter(ts.drop_last(), p, q, pq);
        let a = ts.drop_last().filter(p);
        if p(ts.last()) {
            a.lemma_filter_push(ts.last(), q);
        }
    }
}


/// The groups of `tasks` that are not among `known`, in the order of their
/// first tasks.
pub open spec fn missing_groups(tasks: Seq<TaskModel>, known: Seq<Seq<char>>) -> Seq<Seq<char>>
    decreases tasks.len(),
{
    if tasks.len() == 0 {
        Seq::empty()
    } else {
        let prev = missing_groups(tasks.drop_last(), known);
        let g = spec_group_of(tasks.last());
        if known.contains(g) || prev.contains(g) {
            prev
        } else {
            prev.push(g)
        }
    }
}

pub open spec fn finished_fn() -> spec_fn(TaskModel) -> bool {
    |t: TaskModel| crate::tasks::spec_finished(t.status)
}

/// The bytes of `tasks` added up.
pub open spec fn bytes_sum(tasks: Seq<TaskModel>) -> nat
    decreases tasks.len(),
{
    if tasks.len() == 0 {
        0
    } else {
        bytes_sum(tasks.drop_last()) + tasks.last().downloaded_bytes as nat
    }
}

/// The bytes of the finished tasks of group `gid`.
pub open spec fn finished_bytes(tasks: Seq<TaskModel>, gid: Seq<char>) -> nat {
    bytes_sum(tasks.filter(inside_group(gid)).filter(finished_fn()))
}

/// The progress made for group `gid` from its tasks: the name, source,
/// destination and creation time of its first task; as total the larger of
/// its task count and the number in its name; as completed the tasks no
/// longer queued (total minus count) and the finished ones; as bytes those
/// of the finished tasks.
pub open spec fn group_progress(tasks: Seq<TaskModel>, gid: Seq<char>, now: Seq<char>) -> GroupModel {
    let members = tasks.filter(inside_group(gid));
    let first = members[0];
    let n = members.len();
    let total: nat = match spec_total_from_name(first.group_name) {
        Some(v) => if v >= n { v as nat } else { n },
        None => n,
    };
    let finished = members.filter(finished_fn());
    GroupModel {
        id: gid,
        name: first.group_name,
        source: first.group_source,
        destination: first.group_destination,
        total_tasks: total as usize,
        completed_tasks: (total - n + finished.len()) as usize,
        completed_bytes: bytes_sum(finished) as u64,
        created_at: first.created_at,
        updated_at: now,
    }
}

/// The groups after giving progress to each group of the queue that has
/// none.
pub open spec fn spec_ensure_progress(s: StoreModel, now: Seq<char>) -> Seq<GroupModel> {
    s.task_groups + missing_groups(s.tasks, group_ids(s.task_groups)).map_values(
        |g: Seq<char>| group_progress(s.tasks, g, now),
    )
}

proof fn lemma_bytes_sum_add(a: Seq<TaskModel>, b: Seq<TaskModel>)
    ensures
        bytes_sum(a + b) == bytes_sum(a) + bytes_sum(b),
    decreases b.len(),
{
    if b.len() > 0 {
        assert((a + b).drop_last() =~= a + b.drop_last());
        lemma_bytes_sum_add(a, b.drop_last());
    } else {
        assert(a + b =~= a);
    }
}

proof fn lemma_prefix_sum_bounded(ts: Seq<TaskModel>, gid: Seq<char>, k: int)
    requires
        0 <= k <= ts.len(),
    ensures
        bytes_sum(ts.take(k).filter(inside_group(gid)).filter(finished_fn())) <= finished_bytes(ts, gid),
{
    assert(ts =~= ts.take(k) + ts.skip(k));
    Seq::filter_distributes_over_add(ts.take(k), ts.skip(k), inside_group(gid));
    Seq::filter_distributes_over_add(ts.take(k).filter(inside_group(gid)), ts.skip(k).filter(inside_group(gid)), finished_fn());
    lemma_bytes_sum_add(ts.take(k).filter(inside_group(gid)).filter(finished_fn()), ts.skip(k).filter(inside_group(gid)).filter(finished_fn()));
}

fn group_progress_of(tasks: &Vec<DownloadTask>, gid: &str, now: &str) -> (r: DownloadGroupProgress)
    requires
        group_active(task_views(tasks@), gid@),
        finished_bytes(task_views(tasks@), gid@) <= u64::MAX,
    ensures
        r@ == group_progress(task_views(tasks@), gid@, now@),
{
    let ghost ts = task_views(tasks@);
    let mut count: usize = 0;
    let mut finished: usize = 0;
    let mut bytes: u64 = 0;
    let mut first: usize = 0;
    let mut k: usize = 0;
    while k < tasks.len()
        invariant
            k <= tasks.len(),
            ts == task_views(tasks@),
            finished_bytes(ts, gid@) <= u64::MAX,
            count == ts.take(k as int).filter(inside_group(gid@)).len(),
            finished == ts.take(k as int).filter(inside_group(gid@)).filter(finished_fn()).len(),
            bytes == bytes_sum(ts.take(k as int).filter(inside_group(gid@)).filter(finished_fn())),
            count > 0 ==> first < k && ts.take(k as int).filter(inside_group(gid@))[0] == ts[first as int],
            finished <= count <= k,
        decreases tasks.len() - k,
    {
        let ghost m = ts.take(k as int).filter(inside_group(gid@));
        proof {
            assert(ts[k as int] == tasks@[k as int]@);
            assert(ts.take(k + 1) =~= ts.take(k as int).push(ts[k as int]));
            ts.take(k as int).lemma_filter_push(ts[k as int], inside_group(gid@));
            m.lemma_filter_push(ts[k as int], finished_fn());
            m.lemma_filter_len(finished_fn());
        }
        let g = normalized_group_id(&tasks[k]);
        if str_eq(g.as_str(), gid) {
            if count == 0 {
                first = k;
            }
            assert(m.push(ts[k as int])[0] == if count == 0 { ts[k as int] } else { m[0] });
            count = count + 1;
            if crate::tasks::is_finished_status(tasks[k].status.as_str()) {
                let ghost f = m.filter(finished_fn());
                assert(f.push(ts[k as int]).drop_last() =~= f);
                proof { lemma_prefix_sum_bounded(ts, gid@, k + 1); }
                finished = finished + 1;
                bytes = bytes + tasks[k].downloaded_bytes;
            }
        }
        k = k + 1;
    }
    assert(ts.take(tasks.len() as int) =~= ts);
    proof {
        let j = choose|j: int| 0 <= j < ts.len() && spec_group_of(#[trigger] ts[j]) == gid@;
        ts.lemma_filter_contains(inside_group(gid@), j);
    }
    let parsed = parse_task_total_from_group_name(tasks[first].group_name.as_str());
    let total: usize = match parsed {
        Some(v) => if v >= count { v } else { count },
        None => count,
    };
    assert(ts[first as int] == tasks@[first as int]@);
    DownloadGroupProgress {
        id: gid.to_string(),
        name: tasks[first].group_name.clone(),
        source: tasks[first].group_source.clone(),
        destination: tasks[first].group_destination.clone(),
        total_tasks: total,
        completed_tasks: total - count + finished,
        completed_bytes: bytes,
        created_at: tasks[first].created_at.clone(),
        updated_at: now.to_string(),
    }
}

proof fn lemma_missing_groups(ts: Seq<TaskModel>, known: Seq<Seq<char>>)
    ensures
        missing_groups(ts, known).no_duplicates(),
        forall|i: int| 0 <= i < missing_groups(ts, known).len() ==> !known.contains(#[trigger] missing_groups(ts, known)[i]),
        forall|i: int| 0 <= i < missing_groups(ts, known).len() ==> group_active(ts, #[trigger] missing_groups(ts, known)[i]),
        forall|i: int| 0 <= i < ts.len() ==> known.contains(spec_group_of(#[trigger] ts[i])) || missing_groups(ts, known).contains(spec_group_of(ts[i])),
    decreases ts.len(),
{
    if ts.len() > 0 {
        let prev_ts = ts.drop_last();
        lemma_missing_groups(prev_ts, known);
        let prev = missing_groups(prev_ts, known);
        let g = spec_group_of(ts.last());
        let m = missing_groups(ts, known);
        assert forall|i: int| 0 <= i < prev.len() implies group_active(ts, #[trigger] prev[i]) by {
            let j = choose|j: int| 0 <= j < prev_ts.len() && spec_group_of(#[trigger] prev_ts[j]) == prev[i];
            assert(ts[j] == prev_ts[j]);
        }
        assert(ts[ts.len() - 1] == ts.last());
        assert forall|i: int| 0 <= i < ts.len() implies known.contains(spec_group_of(#[trigger] ts[i])) || m.contains(spec_group_of(ts[i])) by {
            if i < ts.len() - 1 {
                assert(ts[i] == prev_ts[i]);
                if prev.contains(spec_group_of(ts[i])) && !(known.contains(g) || prev.contains(g)) {
                    let k = choose|k: int| 0 <= k < prev.len() && prev[k] == spec_group_of(ts[i]);
                    assert(m[k] == prev[k]);
                }
            } else {
                if !(known.contains(g) || prev.contains(g)) {
                    assert(m[prev.len() as int] == g);
                }
            }
        }
        if !(known.contains(g) || prev.contains(g)) {
            assert forall|a: int, b: int| 0 <= a < b < m.len() implies m[a] != m[b] by {
                if b == prev.len() {
                    assert(prev.contains(m[a]));
                }
            }
        }
    }
}

fn missing_group_ids(tasks: &Vec<DownloadTask>, groups: &Vec<DownloadGroupProgress>) -> (r: Vec<String>)
    ensures
        crate::text::views(r@) == missing_groups(task_views(tasks@), group_ids(group_views(groups@))),
{
    let ghost ts = task_views(tasks@);
    let ghost known = group_ids(group_views(groups@));
    let mut out: Vec<String> = Vec::new();
    let mut i: usize = 0;
    while i < tasks.len()
        invariant
            i <= tasks.len(),
            ts == task_views(tasks@),
            known == group_ids(group_views(groups@)),
            crate::text::views(out@) == missing_groups(ts.take(i as int), known),
        decreases tasks.len() - i,
    {
        let g = normalized_group_id(&tasks[i]);
        proof {
            assert(ts[i as int] == tasks@[i as int]@);
            assert(ts.take(i + 1).drop_last() =~= ts.take(i as int));
            assert(ts.take(i + 1).last() == ts[i as int]);
            lemma_index_of_bounds(known, g@);
        }
        let j = find_group(groups, g.as_str());
        if j == groups.len() && !contains_text(&out, g.as_str()) {
            let ghost before = out@;
            out.push(g);
            assert(crate::text::views(out@) =~= crate::text::views(before).push(spec_group_of(ts[i as int])));
        }
        i = i + 1;
    }
    assert(ts.take(tasks.len() as int) =~= ts);
    out
}

/// Gives progress to each group of the queue that has none (see
/// `spec_ensure_progress`), stamped `now`.
fn ensure_progress_at(store: &mut AppStore, now: &str)
    requires
        forall|g: Seq<char>| missing_groups(old(store)@.tasks, group_ids(old(store)@.task_groups)).contains(g)
            ==> finished_bytes(old(store)@.tasks, g) <= u64::MAX,
    ensures
        final(store)@.task_groups == spec_ensure_progress(old(store)@, now@),
        final(store)@.tasks == old(store)@.tasks,
        final(store)@.settings == old(store)@.settings,
        final(store)@.local_beatmapsets == old(store)@.local_beatmapsets,
{
    let ids = missing_group_ids(&store.tasks, &store.task_groups);
    let ghost s0 = store@;
    let ghost missing = crate::text::views(ids@);
    proof { lemma_missing_groups(s0.tasks, group_ids(s0.task_groups)); }
    let mut k: usize = 0;
    while k < ids.len()
        invariant
            k <= ids.len(),
            missing == crate::text::views(ids@),
            missing == missing_groups(s0.tasks, group_ids(s0.task_groups)),
            forall|i: int| 0 <= i < missing.len() ==> group_active(s0.tasks, #[trigger] missing[i]),
            forall|g: Seq<char>| missing.contains(g) ==> finished_bytes(s0.tasks, g) <= u64::MAX,
            store@.tasks == s0.tasks,
            store@.settings == s0.settings,
            store@.local_beatmapsets == s0.local_beatmapsets,
            store@.task_groups == s0.task_groups + missing.take(k as int).map_values(|g: Seq<char>| group_progress(s0.tasks, g, now@)),
        decreases ids.len() - k,
    {
        assert(missing[k as int] == ids@[k as int]@);
        assert(missing.contains(missing[k as int]));
        let g = group_progress_of(&store.tasks, ids[k].as_str(), now);
        let ghost before = store@.task_groups;
        store.task_groups.push(g);
        assert(store@.task_groups =~= before.push(group_progress(s0.tasks, missing[k as int], now@)));
        assert(missing.take(k + 1) =~= missing.take(k as int).push(missing[k as int]));
        assert(missing.take(k + 1).map_values(|g: Seq<char>| group_progress(s0.tasks, g, now@))
            =~= missing.take(k as int).map_values(|g: Seq<char>| group_progress(s0.tasks, g, now@)).push(group_progress(s0.tasks, missing[k as int], now@)));
        assert(store@.task_groups =~= s0.task_groups + missing.take(k + 1).map_values(|g: Seq<char>| group_progress(s0.tasks, g, now@)));
        k = k + 1;
    }
    assert(missing.take(ids.len() as int) =~= missing);
}

/// Gives progress, stamped with the current time, to each group of the
/// queue that has none: tasks kept from before groups had progress get it
/// on load.
pub fn ensure_task_group_progress(store: &mut AppStore)
    requires
        forall|g: Seq<char>| missing_groups(old(store)@.tasks, group_ids(old(store)@.task_groups)).contains(g)
            ==> finished_bytes(old(store)@.tasks, g) <= u64::MAX,
    ensures
        exists|now: Seq<char>| final(store)@.task_groups == spec_ensure_progress(old(store)@, now),
        final(store)@.tasks == old(store)@.tasks,
        final(store)@.settings == old(store)@.settings,
        final(store)@.local_beatmapsets == old(store)@.local_beatmapsets,
{
    let now = now_rfc3339();
    ensure_progress_at(store, now.as_str());
    assert(store@.task_groups == spec_ensure_progress(old(store)@, now@));
}

/// After progress is ensured, every task's group has progress; the groups
/// that had it keep it unchanged; each group id stays once; and a new
/// group's completed count is at most its total.
pub proof fn law_ensure_progress(s: StoreModel, now: Seq<char>)
    requires
        s.tasks.len() <= usize::MAX,
    ensures
        forall|i: int| 0 <= i < s.tasks.len() ==> group_ids(spec_ensure_progress(s, now)).contains(spec_group_of(#[trigger] s.tasks[i])),
        spec_ensure_progress(s, now).take(s.task_groups.len() as int) == s.task_groups,
        group_ids(s.task_groups).no_duplicates() ==> group_ids(spec_ensure_progress(s, now)).no_duplicates(),
        groups_bounded(s.task_groups) ==> groups_bounded(spec_ensure_progress(s, now)),
{
    let known = group_ids(s.task_groups);
    let missing = missing_groups(s.tasks, known);
    let added = missing.map_values(|g: Seq<char>| group_progress(s.tasks, g, now));
    let r = spec_ensure_progress(s, now);
    lemma_missing_groups(s.tasks, known);
    assert(r.take(s.task_groups.len() as int) =~= s.task_groups);
    assert(group_ids(r) =~= known + missing);
    assert forall|i: int| 0 <= i < s.tasks.len() implies group_ids(r).contains(spec_group_of(#[trigger] s.tasks[i])) by {
        let g = spec_group_of(s.tasks[i]);
        if known.contains(g) {
            let k = choose|k: int| 0 <= k < known.len() && known[k] == g;
            assert(group_ids(r)[k] == g);
        } else {
            let k = choose|k: int| 0 <= k < missing.len() && missing[k] == g;
            assert(group_ids(r)[known.len() + k] == g);
        }
    }
    if known.no_duplicates() {
        assert forall|a: int, b: int| 0 <= a < b < group_ids(r).len() implies group_ids(r)[a] != group_ids(r)[b] by {
            if b >= known.len() && a < known.len() {
                assert(missing[b - known.len()] == group_ids(r)[b]);
                assert(known.contains(group_ids(r)[a]));
            } else if a >= known.len() {
                assert(missing[a - known.len()] == group_ids(r)[a]);
                assert(missing[b - known.len()] == group_ids(r)[b]);
            }
        }
    }
    assert forall|k: int| 0 <= k < added.len() implies (#[trigger] added[k]).completed_tasks <= added[k].total_tasks by {
        let g = missing[k];
        let members = s.tasks.filter(inside_group(g));
        members.lemma_filter_len(finished_fn());
        s.tasks.lemma_filter_len(inside_group(g));
        let n = members.len();
        let f = members.filter(finished_fn()).len();
        let total: nat = match spec_total_from_name(members[0].group_name) {
            Some(v) => if v >= n { v as nat } else { n },
            None => n,
        };
        assert(n <= total <= usize::MAX);
        assert(f <= n);
        assert(added[k] == group_progress(s.tasks, g, now));
        assert(added[k].total_tasks == total);
        assert(added[k].completed_tasks == total - n + f);
    }
    if groups_bounded(s.task_groups) {
        assert forall|i: int| 0 <= i < r.len() implies (#[trigger] r[i]).completed_tasks <= r[i].total_tasks by {
            if i >= s.task_groups.len() {
                assert(r[i] == added[i - s.task_groups.len()]);
            } else {
                assert(r[i] == s.task_groups[i]);
            }
        }
    }
}


pub open spec fn retryable_fn() -> spec_fn(TaskModel) -> bool {
    |t: TaskModel| retryable(t)
}

/// Starts every unfinished task over (see `recreate_retry_task`), with cache
/// paths in `cache_dir`. Gives the old cache paths of those tasks, in queue
/// order, for the caller to delete.
pub fn retry_failed_downloads(store: &mut AppStore, cache_dir: &str) -> (removed: Vec<String>)
    ensures
        crate::text::views(removed@) == old(store)@.tasks.filter(retryable_fn()).map_values(|t: TaskModel| t.temp_path),
        final(store)@.tasks.len() == old(store)@.tasks.len(),
        forall|i: int| 0 <= i < old(store)@.tasks.len() ==> if retryable(old(store)@.tasks[i]) {
            is_retry_of(#[trigger] final(store)@.tasks[i], old(store)@.tasks[i], old(store)@.settings, cache_dir@)
        } else {
            final(store)@.tasks[i] == old(store)@.tasks[i]
        },
        final(store)@.settings == old(store)@.settings,
        final(store)@.local_beatmapsets == old(store)@.local_beatmapsets,
        final(store)@.task_groups == old(store)@.task_groups,
{
    let ghost ts = old(store)@.tasks;
    let mut removed: Vec<String> = Vec::new();
    let mut i: usize = 0;
    while i < store.tasks.len()
        invariant
            i <= store.tasks.len(),
            ts.len() == store.tasks.len(),
            store@.settings == old(store)@.settings,
            store@.local_beatmapsets == old(store)@.local_beatmapsets,
            store@.task_groups == old(store)@.task_groups,
            forall|j: int| 0 <= j < i ==> if retryable(ts[j]) {
                is_retry_of(#[trigger] store@.tasks[j], ts[j], old(store)@.settings, cache_dir@)
            } else {
                store@.tasks[j] == ts[j]
            },
            forall|j: int| i <= j < ts.len() ==> #[trigger] store@.tasks[j] == ts[j],
            crate::text::views(removed@) == ts.take(i as int).filter(retryable_fn()).map_values(|t: TaskModel| t.temp_path),
        decreases store.tasks.len() - i,
    {
        assert(store@.tasks[i as int] == store.tasks@[i as int]@);
        let ghost start = store@;
        proof {
            assert(ts.take(i + 1) =~= ts.take(i as int).push(ts[i as int]));
            ts.take(i as int).lemma_filter_push(ts[i as int], retryable_fn());
        }
        if !str_eq(store.tasks[i].status.as_str(), "completed") && !str_eq(store.tasks[i].status.as_str(), "cancelled") {
            let ghost before = removed@;
            removed.push(store.tasks[i].temp_path.clone());
            let ghost f = ts.take(i as int).filter(retryable_fn());
            assert(crate::text::views(removed@) =~= crate::text::views(before).push(ts[i as int].temp_path));
            assert(f.push(ts[i as int]).map_values(|t: TaskModel| t.temp_path) =~= f.map_values(|t: TaskModel| t.temp_path).push(ts[i as int].temp_path));
            let ghost tasks_before = store.tasks@;
            let mut t = copy_task(&store.tasks[i]);
            recreate_retry_task(&mut t, &store.settings, cache_dir);
            store.tasks[i] = t;
            proof {
                assert forall|j: int| 0 <= j < store.tasks.len() && j != i implies store.tasks@[j] == tasks_before[j] by {}
                assert forall|j: int| 0 <= j < store.tasks.len() implies #[trigger] store@.tasks[j] == store.tasks@[j]@ by {}
                assert forall|j: int| 0 <= j < store.tasks.len() implies #[trigger] task_views(tasks_before)[j] == tasks_before[j]@ by {}
                assert(is_retry_of(store@.tasks[i as int], ts[i as int], old(store)@.settings, cache_dir@));
                assert forall|j: int| 0 <= j < store.tasks.len() && j != i implies store@.tasks[j] == start.tasks[j] by {
                    assert(store@.tasks[j] == store.tasks@[j]@);
                    assert(start.tasks[j] == tasks_before[j]@);
                }
            }
        }
        proof {
            assert forall|j: int| 0 <= j < i + 1 implies (if retryable(ts[j]) {
                is_retry_of(#[trigger] store@.tasks[j], ts[j], old(store)@.settings, cache_dir@)
            } else {
                store@.tasks[j] == ts[j]
            }) by {
                if j < i {
                    assert(store@.tasks[j] == start.tasks[j]);
                }
            }
            assert forall|j: int| i + 1 <= j < ts.len() implies #[trigger] store@.tasks[j] == ts[j] by {
                assert(store@.tasks[j] == start.tasks[j]);
            }
        }
        i = i + 1;
    }
    assert(ts.take(store.tasks.len() as int) =~= ts);
    removed
}

/// Records the cache path an attempt writes to, when it is still in its
/// retry generation; says whether it did.
pub fn record_temp_path(store: &mut AppStore, id: &str, retry_generation: u64, path: &str) -> (r: bool)
    ensures
        r == attempt_matches(old(store)@.tasks, id@, retry_generation),
        final(store)@.tasks == if r {
            update_task(old(store)@.tasks, id@, TaskModel { temp_path: path@, ..task_of(old(store)@.tasks, id@) })
        } else {
            old(store)@.tasks
        },
        final(store)@.settings == old(store)@.settings,
        final(store)@.local_beatmapsets == old(store)@.local_beatmapsets,
        final(store)@.task_groups == old(store)@.task_groups,
{
    let i = find_task(&store.tasks, id);
    proof {
        if i < store.tasks.len() {
            assert(task_views(store.tasks@)[i as int] == store.tasks@[i as int]@);
        }
    }
    if i < store.tasks.len() && store.tasks[i].retry_generation == retry_generation {
        let ghost before = task_views(store.tasks@);
        store.tasks[i].temp_path = path.to_string();
        proof { lemma_update_at(before, task_views(store.tasks@), id@, i as int); }
        true
    } else {
        false
    }
}

/// Whether a local beatmapset found as `detected_from` counts for the
/// chosen local source: lazer finds for `lazer`, the others for `stable`.
pub open spec fn spec_local_source_matches(local_source: Seq<char>, detected_from: Seq<char>) -> bool {
    if crate::settings::spec_local_source(local_source) == "lazer"@ {
        crate::text::has_prefix(detected_from, "lazer"@)
    } else {
        !crate::text::has_prefix(detected_from, "lazer"@)
    }
}

/// Whether a local beatmapset counts for the chosen local source.
pub fn local_source_matches(local_source: &str, detected_from: &str) -> (r: bool)
    ensures
        r == spec_local_source_matches(local_source@, detected_from@),
{
    let source = crate::settings::normalize_local_source(local_source);
    let found = chars_of(detected_from);
    let lazer = chars_of("lazer");
    let from_lazer = crate::text::starts_with_chars(found.as_slice(), lazer.as_slice());
    if str_eq(source, "lazer") {
        from_lazer
    } else {
        !from_lazer
    }
}

/// Which finds a rescan replaces: lazer's (`lazer…`) for a lazer scan, else
/// the Songs folder's (`folder`, `osu-file`, `osz-file`).
pub open spec fn replaced_by(lazer: bool, detected_from: Seq<char>) -> bool {
    if lazer {
        crate::text::has_prefix(detected_from, "lazer"@)
    } else {
        detected_from == "folder"@ || detected_from == "osu-file"@ || detected_from == "osz-file"@
    }
}

pub open spec fn kept_local(lazer: bool) -> spec_fn(LocalModel) -> bool {
    |l: LocalModel| !replaced_by(lazer, l.detected_from)
}

/// `locals` after recording each of `added` in turn.
pub open spec fn upsert_all(locals: Seq<LocalModel>, added: Seq<LocalModel>) -> Seq<LocalModel>
    decreases added.len(),
{
    if added.len() == 0 {
        locals
    } else {
        spec_upsert_local(upsert_all(locals, added.drop_last()), added.last())
    }
}

fn is_replaced(lazer: bool, detected_from: &str) -> (r: bool)
    ensures
        r == replaced_by(lazer, detected_from@),
{
    if lazer {
        let found = chars_of(detected_from);
        let prefix = chars_of("lazer");
        crate::text::starts_with_chars(found.as_slice(), prefix.as_slice())
    } else {
        str_eq(detected_from, "folder") || str_eq(detected_from, "osu-file") || str_eq(detected_from, "osz-file")
    }
}

/// Replaces the finds of one kind of scan with a new scan's: the entries
/// that scan makes (see `replaced_by`) are dropped, then each scanned entry
/// is recorded, replacing any entry of the same beatmapset.
pub fn replace_local_source(current: &mut Vec<LocalBeatmapset>, scanned: Vec<LocalBeatmapset>, lazer: bool)
    ensures
        local_views(final(current)@) == upsert_all(local_views(old(current)@).filter(kept_local(lazer)), local_views(scanned@)),
{
    let ghost ls = local_views(current@);
    let mut old_locals: Vec<LocalBeatmapset> = Vec::new();
    std::mem::swap(&mut old_locals, current);
    let mut i: usize = 0;
    while i < old_locals.len()
        invariant
            i <= old_locals.len(),
            ls == local_views(old_locals@),
            local_views(current@) == ls.take(i as int).filter(kept_local(lazer)),
        decreases old_locals.len() - i,
    {
        proof {
            assert(ls[i as int] == old_locals@[i as int]@);
            assert(ls.take(i + 1) =~= ls.take(i as int).push(ls[i as int]));
            ls.take(i as int).lemma_filter_push(ls[i as int], kept_local(lazer));
        }
        if !is_replaced(lazer, old_locals[i].detected_from.as_str()) {
            let entry = LocalBeatmapset {
                beatmapset_id: old_locals[i].beatmapset_id,
                folder_path: old_locals[i].folder_path.clone(),
                detected_from: old_locals[i].detected_from.clone(),
                scanned_at: old_locals[i].scanned_at.clone(),
            };
            let ghost before = current@;
            current.push(entry);
            assert(local_views(current@) =~= local_views(before).push(ls[i as int]));
        }
        i = i + 1;
    }
    assert(ls.take(old_locals.len() as int) =~= ls);
    let ghost kept = local_views(current@);
    let ghost added = local_views(scanned@);
    let mut k: usize = 0;
    let mut scanned = scanned;
    let mut rest: Vec<LocalBeatmapset> = Vec::new();
    std::mem::swap(&mut rest, &mut scanned);
    while k < rest.len()
        invariant
            k <= rest.len(),
            added == local_views(rest@),
            local_views(current@) == upsert_all(kept, added.take(k as int)),
        decreases rest.len() - k,
    {
        let entry = LocalBeatmapset {
            beatmapset_id: rest[k].beatmapset_id,
            folder_path: rest[k].folder_path.clone(),
            detected_from: rest[k].detected_from.clone(),
            scanned_at: rest[k].scanned_at.clone(),
        };
        assert(added[k as int] == rest@[k as int]@);
        assert(added.take(k + 1).drop_last() =~= added.take(k as int));
        upsert_local(current, entry);
        k = k + 1;
    }
    assert(added.take(rest.len() as int) =~= added);
}

/// The folder a scan reads: the one given when it is not empty, else the
/// one in the settings (the lazer folder or the Songs folder); an error when
/// that is empty too.
pub open spec fn spec_scan_dir(input: Option<Seq<char>>, s: SettingsModel, lazer: bool) -> Result<Seq<char>, Seq<char>> {
    let current = if lazer { s.lazer_dir } else { s.songs_dir };
    let dir = match input {
        Some(v) => if v.len() > 0 { v } else { current },
        None => current,
    };
    if dir.len() > 0 {
        Ok(dir)
    } else if lazer {
        Err("Please select the osu! lazer folder first."@)
    } else {
        Err("Please select the Songs folder first."@)
    }
}

/// Chooses the folder a scan reads (see `spec_scan_dir`).
pub fn scan_dir_choice(input: Option<String>, settings: &Settings, lazer: bool) -> (r: Result<String, String>)
    ensures
        match spec_scan_dir(match input { Some(v) => Some(v@), None => None }, settings@, lazer) {
            Ok(d) => r matches Ok(s) && s@ == d,
            Err(m) => r matches Err(e) && e@ == m,
        },
{
    let current = if lazer { &settings.lazer_dir } else { &settings.songs_dir };
    let dir = match input {
        Some(v) => if chars_of(v.as_str()).len() > 0 { v } else { current.clone() },
        None => current.clone(),
    };
    if chars_of(dir.as_str()).len() > 0 {
        Ok(dir)
    } else if lazer {
        Err("Please select the osu! lazer folder first.".to_string())
    } else {
        Err("Please select the Songs folder first.".to_string())
    }
}

/// Records a finished scan of `dir`: it becomes the folder of its kind in
/// the settings and the chosen local source, and its finds replace those of
/// the previous scan of that kind (see `replace_local_source`).
pub fn record_scan(store: &mut AppStore, dir: String, scanned: Vec<LocalBeatmapset>, lazer: bool)
    ensures
        final(store)@.settings == if lazer {
            SettingsModel { lazer_dir: dir@, local_source: "lazer"@, ..old(store)@.settings }
        } else {
            SettingsModel { songs_dir: dir@, local_source: "stable"@, ..old(store)@.settings }
        },
        final(store)@.local_beatmapsets
            == upsert_all(old(store)@.local_beatmapsets.filter(kept_local(lazer)), local_views(scanned@)),
        final(store)@.tasks == old(store)@.tasks,
        final(store)@.task_groups == old(store)@.task_groups,
{
    if lazer {
        store.settings.lazer_dir = dir;
        store.settings.local_source = "lazer".to_string();
    } else {
        store.settings.songs_dir = dir;
        store.settings.local_source = "stable".to_string();
    }
    replace_local_source(&mut store.local_beatmapsets, scanned, lazer);
}

/// A local entry for beatmapset `id` found at `path` as `detected_from`,
/// stamped with the current time.
pub fn local_entry(id: u64, path: &str, detected_from: &str) -> (r: LocalBeatmapset)
    ensures
        r@.beatmapset_id == id,
        r@.folder_path == path@,
        r@.detected_from == detected_from@,
{
    LocalBeatmapset {
        beatmapset_id: id,
        folder_path: path.to_string(),
        detected_from: detected_from.to_string(),
        scanned_at: now_rfc3339(),
    }
}

/// The beatmapsets found for the chosen local source.
pub open spec fn has_local(s: StoreModel, id: u64) -> bool {
    exists|i: int| 0 <= i < s.local_beatmapsets.len()
        && (#[trigger] s.local_beatmapsets[i]).beatmapset_id == id
        && spec_local_source_matches(s.settings.local_source, s.local_beatmapsets[i].detected_from)
}

/// Whether beatmapset `id` is on disk for the chosen local source.
pub fn is_local(store: &AppStore, id: u64) -> (r: bool)
    ensures
        r == has_local(store@, id),
{
    let ghost s = store@;
    let mut i: usize = 0;
    while i < store.local_beatmapsets.len()
        invariant
            i <= store.local_beatmapsets.len(),
            s == store@,
            forall|j: int| 0 <= j < i ==> !((#[trigger] s.local_beatmapsets[j]).beatmapset_id == id
                && spec_local_source_matches(s.settings.local_source, s.local_beatmapsets[j].detected_from)),
        decreases store.local_beatmapsets.len() - i,
    {
        assert(s.local_beatmapsets[i as int] == store.local_beatmapsets@[i as int]@);
        if store.local_beatmapsets[i].beatmapset_id == id
            && local_source_matches(store.settings.local_source.as_str(), store.local_beatmapsets[i].detected_from.as_str()) {
            return true;
        }
        i = i + 1;
    }
    false
}


/// Each local beatmapset counts for exactly one of the two local sources:
/// lazer finds for `lazer`, every other find for `stable` (and any other
/// setting behaves as `stable`).
pub proof fn law_local_source_partition(detected_from: Seq<char>, other: Seq<char>)
    ensures
        spec_local_source_matches("lazer"@, detected_from) != spec_local_source_matches("stable"@, detected_from),
        other != "lazer"@ ==> spec_local_source_matches(other, detected_from) == spec_local_source_matches("stable"@, detected_from),
{
    reveal_strlit("lazer");
    reveal_strlit("stable");
    assert("stable"@ != "lazer"@) by {
        assert("stable"@.len() != "lazer"@.len());
    }
}

}
