//! Finishing a playlist group: its downloads wait in the cache until the
//! whole group is there, then go to the Songs folder together and into the
//! collection.
use vstd::prelude::*;
use crate::clock::now_rfc3339;
use crate::collection::{merged_hashes, sorted_unique_strings};
use crate::settings::{non_empty_or_default, spec_non_empty_or_default, Settings, SettingsModel};
use crate::store::{
    copy_task, group_views, local_views, other_group, outside_group, inside_group, spec_upsert_local,
    AppStore, GroupModel, LocalBeatmapset, LocalModel, StoreModel,
};
use crate::tasks::{normalized_group_id, spec_group_of, task_views, DownloadTask, TaskModel};
use crate::text::{str_eq, trim_str, trim_ws, views};

verus! {

pub open spec fn staged(t: TaskModel) -> bool {
    t.status == "staged"@
}

pub open spec fn staged_fn() -> spec_fn(TaskModel) -> bool {
    |t: TaskModel| staged(t)
}

pub open spec fn unstaged_fn() -> spec_fn(TaskModel) -> bool {
    |t: TaskModel| !staged(t)
}

/// A group ready to finish: its staged tasks, the cache files of its other
/// tasks (removed when a group is finished early), the collection to write
/// and the osu!stable folder.
pub struct FinalizePlan {
    pub staged: Vec<DownloadTask>,
    pub leftover_temp_paths: Vec<String>,
    pub collection_name: String,
    pub stable_osu_dir: String,
}

/// What finishing group `gid` does first: nothing (`Ok(None)`) when the
/// group has no tasks, or when it is not forced and some task is not
/// staged yet; an error when no task is staged, or when no osu!stable
/// folder is set; else the plan.
pub open spec fn spec_plan_result(s: StoreModel, gid: Seq<char>, allow_partial: bool) -> Option<Result<(), Seq<char>>> {
    let group = s.tasks.filter(inside_group(gid));
    let st = group.filter(staged_fn());
    if group.len() == 0 || (!allow_partial && st.len() < group.len()) {
        None
    } else if st.len() == 0 {
        Some(Err("这个任务还没有已缓存完成的歌曲，无法强制结束。"@))
    } else if trim_ws(s.settings.stable_osu_dir).len() == 0 {
        Some(Err("请先选择 osu!stable 根目录。"@))
    } else {
        Some(Ok(()))
    }
}

/// Plans finishing group `group_id` (see `spec_plan_result`); with
/// `allow_partial` the group is finished with what is staged.
pub fn plan_finalize(store: &AppStore, group_id: &str, allow_partial: bool) -> (r: Result<Option<FinalizePlan>, String>)
    ensures
        match spec_plan_result(store@, group_id@, allow_partial) {
            None => r matches Ok(p) && p is None,
            Some(Err(m)) => r matches Err(e) && e@ == m,
            Some(Ok(_)) => r matches Ok(Some(p)) && {
                let group = store@.tasks.filter(inside_group(group_id@));
                &&& task_views(p.staged@) == group.filter(staged_fn())
                &&& views(p.leftover_temp_paths@) == if allow_partial {
                    group.filter(unstaged_fn()).map_values(|t: TaskModel| t.temp_path)
                } else {
                    Seq::empty()
                }
                &&& p.collection_name@ == spec_non_empty_or_default(store@.settings.collection_name, "Seekman Downloads"@)
                &&& p.stable_osu_dir@ == store@.settings.stable_osu_dir
            },
        },
{
    let ghost ts = store@.tasks;
    let ghost g = inside_group(group_id@);
    let mut count: usize = 0;
    let mut staged_tasks: Vec<DownloadTask> = Vec::new();
    let mut others: Vec<String> = Vec::new();
    let mut i: usize = 0;
    assert(ts.take(0).filter(g) =~= Seq::<TaskModel>::empty());
    assert(task_views(staged_tasks@) =~= Seq::<TaskModel>::empty());
    assert(views(others@) =~= Seq::<Seq<char>>::empty());
    while i < store.tasks.len()
        invariant
            i <= store.tasks.len(),
            ts == store@.tasks,
            g == inside_group(group_id@),
            count == ts.take(i as int).filter(g).len(),
            task_views(staged_tasks@) == ts.take(i as int).filter(g).filter(staged_fn()),
            views(others@) == ts.take(i as int).filter(g).filter(unstaged_fn()).map_values(|t: TaskModel| t.temp_path),
        decreases store.tasks.len() - i,
    {
        let t = &store.tasks[i];
        let ghost f = ts.take(i as int).filter(g);
        proof {
            assert(ts[i as int] == t@);
            assert(ts.take(i + 1) =~= ts.take(i as int).push(t@));
            ts.take(i as int).lemma_filter_push(t@, g);
            f.lemma_filter_push(t@, staged_fn());
            f.lemma_filter_push(t@, unstaged_fn());
            ts.take(i as int).lemma_filter_len(g);
        }
        let gid = normalized_group_id(t);
        if str_eq(gid.as_str(), group_id) {
            count = count + 1;
            if str_eq(t.status.as_str(), "staged") {
                let ghost before = staged_tasks@;
                staged_tasks.push(copy_task(t));
                assert(task_views(staged_tasks@) =~= task_views(before).push(t@));
            } else {
                let ghost before = others@;
                let ghost fu = f.filter(unstaged_fn());
                others.push(t.temp_path.clone());
                assert(views(others@) =~= views(before).push(t@.temp_path));
                assert(fu.push(t@).map_values(|t: TaskModel| t.temp_path) =~= fu.map_values(|t: TaskModel| t.temp_path).push(t@.temp_path));
            }
        }
        i = i + 1;
    }
    assert(ts.take(store.tasks.len() as int) =~= ts);
    if count == 0 || (!allow_partial && staged_tasks.len() < count) {
        return Ok(None);
    }
    if staged_tasks.len() == 0 {
        return Err("这个任务还没有已缓存完成的歌曲，无法强制结束。".to_string());
    }
    if trim_str(store.settings.stable_osu_dir.as_str()).len() == 0 {
        return Err("请先选择 osu!stable 根目录。".to_string());
    }
    let collection_name = non_empty_or_default(store.settings.collection_name.as_str(), "Seekman Downloads");
    let leftover = if allow_partial { others } else {
        let empty: Vec<String> = Vec::new();
        assert(views(empty@) =~= Seq::<Seq<char>>::empty());
        empty
    };
    Ok(Some(FinalizePlan {
        staged: staged_tasks,
        leftover_temp_paths: leftover,
        collection_name,
        stable_osu_dir: store.settings.stable_osu_dir.clone(),
    }))
}

/// The beatmap ids a task asks the collection for: `None` (all its
/// beatmaps) when it names none.
pub fn collection_filter(task: &DownloadTask) -> (r: Option<Vec<u64>>)
    ensures
        match r {
            None => task@.collection_beatmap_ids.len() == 0,
            Some(v) => task@.collection_beatmap_ids.len() > 0 && v@ == task@.collection_beatmap_ids,
        },
{
    if task.collection_beatmap_ids.len() == 0 {
        None
    } else {
        let v = task.collection_beatmap_ids.clone();
        assert(v@ =~= task@.collection_beatmap_ids);
        Some(v)
    }
}

pub open spec fn flattened(parts: Seq<Seq<Seq<char>>>) -> Seq<Seq<char>>
    decreases parts.len(),
{
    if parts.len() == 0 { Seq::empty() } else { flattened(parts.drop_last()) + parts.last() }
}

/// The hashes of a whole group, from the hashes of each of its files:
/// sorted and once each; an error when there are none.
pub fn group_hashes(per_task: &Vec<Vec<String>>) -> (r: Result<Vec<String>, String>)
    ensures
        match r {
            Ok(h) => views(h@) == merged_hashes(Seq::empty(), flattened(per_task@.map_values(|v: Vec<String>| views(v@))))
                && h@.len() > 0,
            Err(m) => m@ == "歌单任务没有可写入收藏夹的子难度。"@
                && merged_hashes(Seq::empty(), flattened(per_task@.map_values(|v: Vec<String>| views(v@)))).len() == 0,
        },
{
    let ghost parts = per_task@.map_values(|v: Vec<String>| views(v@));
    let mut all: Vec<String> = Vec::new();
    let mut i: usize = 0;
    assert(parts.take(0) =~= Seq::<Seq<Seq<char>>>::empty());
    assert(views(all@) =~= Seq::<Seq<char>>::empty());
    while i < per_task.len()
        invariant
            i <= per_task.len(),
            parts == per_task@.map_values(|v: Vec<String>| views(v@)),
            views(all@) == flattened(parts.take(i as int)),
        decreases per_task.len() - i,
    {
        let part = &per_task[i];
        proof {
            assert(parts.take(i + 1).drop_last() =~= parts.take(i as int));
            assert(parts.take(i + 1).last() == views(part@));
        }
        let ghost base = views(all@);
        let mut k: usize = 0;
        while k < part.len()
            invariant
                k <= part.len(),
                views(all@) == base + views(part@).take(k as int),
            decreases part.len() - k,
        {
            let ghost before = all@;
            all.push(part[k].clone());
            assert(views(all@) =~= views(before).push(part@[k as int]@));
            assert(views(part@).take(k + 1) =~= views(part@).take(k as int).push(part@[k as int]@));
            assert(base + views(part@).take(k + 1) =~= (base + views(part@).take(k as int)).push(part@[k as int]@));
            k = k + 1;
        }
        assert(views(part@).take(part.len() as int) =~= views(part@));
        i = i + 1;
    }
    assert(parts.take(per_task.len() as int) =~= parts);
    let hashes = sorted_unique_strings(&all);
    if hashes.len() == 0 {
        return Err("歌单任务没有可写入收藏夹的子难度。".to_string());
    }
    Ok(hashes)
}

pub open spec fn recorded(locals: Seq<LocalModel>, staged: Seq<TaskModel>, now: Seq<char>) -> Seq<LocalModel>
    decreases staged.len(),
{
    if staged.len() == 0 {
        locals
    } else {
        spec_upsert_local(recorded(locals, staged.drop_last(), now), LocalModel {
            beatmapset_id: staged.last().beatmapset_id,
            folder_path: staged.last().target_path,
            detected_from: "download"@,
            scanned_at: now,
        })
    }
}

/// The state after group `gid` is finished: its staged beatmapsets are
/// recorded as local at their target paths, its tasks leave the queue, and
/// its progress is dropped.
pub open spec fn spec_commit(s: StoreModel, gid: Seq<char>, staged: Seq<TaskModel>, now: Seq<char>) -> StoreModel {
    StoreModel {
        settings: s.settings,
        local_beatmapsets: recorded(s.local_beatmapsets, staged, now),
        tasks: s.tasks.filter(outside_group(gid)),
        task_groups: s.task_groups.filter(other_group(gid)),
    }
}

/// Records a finished group (see `spec_commit`), at the current time.
pub fn commit_finalized_group(store: &mut AppStore, group_id: &str, staged: &Vec<DownloadTask>)
    ensures
        exists|now: Seq<char>| final(store)@ == spec_commit(old(store)@, group_id@, task_views(staged@), now),
{
    let now = now_rfc3339();
    let ghost s0 = store@;
    let ghost st = task_views(staged@);
    let mut i: usize = 0;
    assert(st.take(0) =~= Seq::<TaskModel>::empty());
    while i < staged.len()
        invariant
            i <= staged.len(),
            st == task_views(staged@),
            store@ == (StoreModel { local_beatmapsets: recorded(s0.local_beatmapsets, st.take(i as int), now@), ..s0 }),
        decreases staged.len() - i,
    {
        let t = &staged[i];
        proof {
            assert(st.take(i + 1).drop_last() =~= st.take(i as int));
            assert(st.take(i + 1).last() == t@);
        }
        let entry = LocalBeatmapset {
            beatmapset_id: t.beatmapset_id,
            folder_path: t.target_path.clone(),
            detected_from: "download".to_string(),
            scanned_at: now.clone(),
        };
        crate::store::upsert_local(&mut store.local_beatmapsets, entry);
        i = i + 1;
    }
    assert(st.take(staged.len() as int) =~= st);
    let _removed = crate::store::delete_download_group(store, group_id);
    assert(store@ == spec_commit(s0, group_id@, st, now@));
}

/// Where a finished download goes into a collection: nowhere in `osu`
/// mode or when downloads are not added to a collection; an error when no
/// osu!stable folder is set; else the collection's name.
pub open spec fn spec_collection_target(settings: SettingsModel, t: TaskModel) -> Result<Option<Seq<char>>, Seq<char>> {
    if t.download_mode == "osu"@ || !settings.collection_auto_add {
        Ok(None)
    } else if trim_ws(settings.stable_osu_dir).len() == 0 {
        Err("请先在实验性功能中选择 osu!stable 根目录。"@)
    } else {
        Ok(Some(spec_non_empty_or_default(settings.collection_name, "Seekman Downloads"@)))
    }
}

/// Which collection a finished download goes into (see
/// `spec_collection_target`).
pub fn collection_target(settings: &Settings, task: &DownloadTask) -> (r: Result<Option<String>, String>)
    ensures
        match spec_collection_target(settings@, task@) {
            Ok(None) => r matches Ok(None),
            Ok(Some(n)) => r matches Ok(Some(s)) && s@ == n,
            Err(m) => r matches Err(e) && e@ == m,
        },
{
    if str_eq(task.download_mode.as_str(), "osu") || !settings.collection_auto_add {
        return Ok(None);
    }
    if trim_str(settings.stable_osu_dir.as_str()).len() == 0 {
        return Err("请先在实验性功能中选择 osu!stable 根目录。".to_string());
    }
    Ok(Some(non_empty_or_default(settings.collection_name.as_str(), "Seekman Downloads")))
}

/// The hashes a finished download adds to a collection: an error when its
/// archive has no beatmap to add.
pub fn require_hashes(hashes: Vec<String>) -> (r: Result<Vec<String>, String>)
    ensures
        hashes@.len() > 0 ==> r == Ok::<Vec<String>, String>(hashes),
        hashes@.len() == 0 ==> (r matches Err(m) && m@ == "下载文件中没有找到可写入收藏夹的 .osu 谱面文件。"@),
{
    if hashes.len() == 0 {
        Err("下载文件中没有找到可写入收藏夹的 .osu 谱面文件。".to_string())
    } else {
        Ok(hashes)
    }
}

}
