//! Download tasks and the groups they are added in: keys, group ids, the
//! progress of a group, and how the queue's state changes.
use vstd::prelude::*;
use crate::mirrors::{
    candidate_views, mirror_candidates_for_settings, spec_candidates, spec_mirror_order,
    spec_priority_for, MirrorCandidate,
};
use crate::settings::{Settings, SettingsModel};
use crate::clock::{is_ascii_alphanumeric, now_millis, now_rfc3339, random_alphanumeric};
use crate::osu_file::{sanitize_file_name, spec_sanitize_file_name};
use crate::paths::{join_path, path_file_name, plain_name};
use crate::text::{
    chars_of, concat_str, decimal, has_infix, has_prefix, has_suffix, i64_to_string, owned,
    signed_decimal, starts_with_chars, str_eq, trim_str, trim_ws, u64_to_string,
};

verus! {

/// A download task as values.
pub struct TaskModel {
    pub id: Seq<char>,
    pub group_id: Seq<char>,
    pub group_name: Seq<char>,
    pub group_source: Seq<char>,
    pub group_destination: Seq<char>,
    pub beatmapset_id: u64,
    pub title: Seq<char>,
    pub artist: Seq<char>,
    pub include_video: bool,
    pub download_mode: Seq<char>,
    pub beatmap_id: Option<u64>,
    pub url: Seq<char>,
    pub target_path: Seq<char>,
    pub temp_path: Seq<char>,
    pub total_bytes: Option<u64>,
    pub downloaded_bytes: u64,
    pub retry_generation: u64,
    pub collection_beatmap_ids: Seq<u64>,
    pub status: Seq<char>,
    pub error: Seq<char>,
    pub created_at: Seq<char>,
    pub updated_at: Seq<char>,
}

/// One download: a beatmapset (`.osz`) or, in `osu` mode, one beatmap file.
pub struct DownloadTask {
    pub id: String,
    pub group_id: String,
    pub group_name: String,
    pub group_source: String,
    pub group_destination: String,
    pub beatmapset_id: u64,
    pub title: String,
    pub artist: String,
    pub include_video: bool,
    pub download_mode: String,
    pub beatmap_id: Option<u64>,
    pub url: String,
    pub target_path: String,
    pub temp_path: String,
    pub total_bytes: Option<u64>,
    pub downloaded_bytes: u64,
    pub retry_generation: u64,
    pub collection_beatmap_ids: Vec<u64>,
    pub status: String,
    pub error: String,
    pub created_at: String,
    pub updated_at: String,
}

impl View for DownloadTask {
    type V = TaskModel;

    open spec fn view(&self) -> TaskModel {
        TaskModel {
            id: self.id@,
            group_id: self.group_id@,
            group_name: self.group_name@,
            group_source: self.group_source@,
            group_destination: self.group_destination@,
            beatmapset_id: self.beatmapset_id,
            title: self.title@,
            artist: self.artist@,
            include_video: self.include_video,
            download_mode: self.download_mode@,
            beatmap_id: self.beatmap_id,
            url: self.url@,
            target_path: self.target_path@,
            temp_path: self.temp_path@,
            total_bytes: self.total_bytes,
            downloaded_bytes: self.downloaded_bytes,
            retry_generation: self.retry_generation,
            collection_beatmap_ids: self.collection_beatmap_ids@,
            status: self.status@,
            error: self.error@,
            created_at: self.created_at@,
            updated_at: self.updated_at@,
        }
    }
}

pub open spec fn task_views(v: Seq<DownloadTask>) -> Seq<TaskModel> {
    v.map_values(|t: DownloadTask| t@)
}

/// The key under which a task is not added twice: `osu:` and the beatmap id
/// (zero when missing) in `osu` mode, else `osz:` and the beatmapset id.
pub open spec fn spec_dedupe_key(t: TaskModel) -> Seq<char> {
    if t.download_mode == "osu"@ {
        "osu:"@ + decimal(
            match t.beatmap_id {
                Some(b) => b as nat,
                None => 0,
            },
        )
    } else {
        "osz:"@ + decimal(t.beatmapset_id as nat)
    }
}

/// The key under which a task is not added twice.
pub fn task_dedupe_key(task: &DownloadTask) -> (r: String)
    ensures
        r@ == spec_dedupe_key(task@),
{
    if str_eq(task.download_mode.as_str(), "osu") {
        let id = match task.beatmap_id {
            Some(b) => b,
            None => 0,
        };
        concat_str("osu:", u64_to_string(id).as_str())
    } else {
        concat_str("osz:", u64_to_string(task.beatmapset_id).as_str())
    }
}

/// The group of a task; a task stored without one belongs to the group
/// `legacy-` and its creation time.
pub open spec fn spec_group_of(t: TaskModel) -> Seq<char> {
    if trim_ws(t.group_id).len() == 0 {
        "legacy-"@ + t.created_at
    } else {
        t.group_id
    }
}

/// The group of a task.
pub fn normalized_group_id(task: &DownloadTask) -> (r: String)
    ensures
        r@ == spec_group_of(task@),
{
    if trim_str(task.group_id.as_str()).len() == 0 {
        concat_str("legacy-", task.created_at.as_str())
    } else {
        task.group_id.clone()
    }
}

/// A playlist task bound for a collection is kept in the cache until its
/// whole group has downloaded: its source starts with `歌单：`, its
/// destination with `写入收藏夹：`, and it downloads beatmapsets.
pub open spec fn spec_stages(t: TaskModel) -> bool {
    has_prefix(t.group_source, "歌单："@) && has_prefix(t.group_destination, "写入收藏夹："@)
        && t.download_mode != "osu"@
}

/// Whether a finished download waits in the cache for the rest of its group.
pub fn should_stage_playlist_group(task: &DownloadTask) -> (r: bool)
    ensures
        r == spec_stages(task@),
{
    let source = chars_of(task.group_source.as_str());
    let destination = chars_of(task.group_destination.as_str());
    let playlist = chars_of("歌单：");
    let collection = chars_of("写入收藏夹：");
    starts_with_chars(source.as_slice(), playlist.as_slice()) && starts_with_chars(
        destination.as_slice(),
        collection.as_slice(),
    ) && !str_eq(task.download_mode.as_str(), "osu")
}

/// A task whose download is done: `completed`, or `staged` in the cache.
pub open spec fn spec_finished(status: Seq<char>) -> bool {
    status == "completed"@ || status == "staged"@
}

/// Whether a status counts as done.
pub fn is_finished_status(status: &str) -> (r: bool)
    ensures
        r == spec_finished(status@),
{
    str_eq(status, "completed") || str_eq(status, "staged")
}

/// The mirrors to try for a task: the official beatmap file in `osu` mode
/// (none without a beatmap id), else the beatmapset's mirrors.
pub open spec fn spec_task_candidates(t: TaskModel, settings: SettingsModel) -> Seq<(Seq<char>, Seq<char>)> {
    if t.download_mode == "osu"@ {
        match t.beatmap_id {
            Some(b) => seq![("osu! official"@, "https://osu.ppy.sh/osu/"@ + decimal(b as nat))],
            None => Seq::empty(),
        }
    } else {
        spec_candidates(
            spec_mirror_order(spec_priority_for(t.beatmapset_id, settings)),
            t.beatmapset_id,
            t.include_video,
        )
    }
}

/// The mirrors to try for a task, in order.
pub fn download_candidates_for_task(task: &DownloadTask, settings: &Settings) -> (r: Vec<MirrorCandidate>)
    ensures
        candidate_views(r@) == spec_task_candidates(task@, settings@),
{
    if str_eq(task.download_mode.as_str(), "osu") {
        match task.beatmap_id {
            None => {
                let r: Vec<MirrorCandidate> = Vec::new();
                assert(candidate_views(r@) =~= Seq::<(Seq<char>, Seq<char>)>::empty());
                r
            },
            Some(b) => {
                let mut r: Vec<MirrorCandidate> = Vec::new();
                r.push(
                    MirrorCandidate {
                        label: "osu! official",
                        url: concat_str("https://osu.ppy.sh/osu/", u64_to_string(b).as_str()),
                    },
                );
                assert(candidate_views(r@) =~= seq![("osu! official"@, "https://osu.ppy.sh/osu/"@ + decimal(b as nat))]);
                r
            },
        }
    } else {
        mirror_candidates_for_settings(task.beatmapset_id, task.include_video, settings)
    }
}

/// The URL of the first mirror to try for a task, empty when there is none.
pub fn first_download_url(task: &DownloadTask, settings: &Settings) -> (r: String)
    ensures
        r@ == if spec_task_candidates(task@, settings@).len() > 0 {
            spec_task_candidates(task@, settings@)[0].1
        } else {
            Seq::empty()
        },
{
    let candidates = download_candidates_for_task(task, settings);
    if candidates.len() > 0 {
        assert(candidate_views(candidates@)[0] == candidates@[0]@);
        candidates[0].url.clone()
    } else {
        String::new()
    }
}


/// The first URL to try for a task, empty when there is none.
pub open spec fn spec_first_url(t: TaskModel, settings: SettingsModel) -> Seq<char> {
    if spec_task_candidates(t, settings).len() > 0 {
        spec_task_candidates(t, settings)[0].1
    } else {
        Seq::empty()
    }
}

/// The id a task's files are named by: the beatmap id in `osu` mode (the
/// beatmapset id when it has none), else the beatmapset id.
pub open spec fn file_id(t: TaskModel) -> u64 {
    if t.download_mode == "osu"@ {
        match t.beatmap_id {
            Some(b) => b,
            None => t.beatmapset_id,
        }
    } else {
        t.beatmapset_id
    }
}

/// A name of random letters and digits of the given length.
pub open spec fn is_suffix_text(s: Seq<char>, len: nat) -> bool {
    s.len() == len && forall|i: int| 0 <= i < len ==> is_ascii_alphanumeric(#[trigger] s[i])
}

/// The cache file name of a task for a random suffix:
/// `<id>-<suffix>.osu.part` or `<id>-<suffix>.osz.part`.
pub open spec fn temp_name(t: TaskModel, suffix: Seq<char>) -> Seq<char> {
    decimal(file_id(t) as nat) + "-"@ + suffix + if t.download_mode == "osu"@ { ".osu.part"@ } else { ".osz.part"@ }
}

/// A task id for a time in milliseconds and a random suffix:
/// `osu-<beatmap id>-<ms>-<suffix>` in `osu` mode, else
/// `<beatmapset id>-<ms>-<suffix>`.
pub open spec fn task_id_text(t: TaskModel, millis: i64, suffix: Seq<char>) -> Seq<char> {
    let tail = "-"@ + signed_decimal(millis as int) + "-"@ + suffix;
    if t.download_mode == "osu"@ {
        "osu-"@ + decimal(file_id(t) as nat) + tail
    } else {
        decimal(t.beatmapset_id as nat) + tail
    }
}

fn file_id_of(task: &DownloadTask) -> (r: u64)
    ensures
        r == file_id(task@),
{
    if str_eq(task.download_mode.as_str(), "osu") {
        match task.beatmap_id {
            Some(b) => b,
            None => task.beatmapset_id,
        }
    } else {
        task.beatmapset_id
    }
}

fn temp_name_for(task: &DownloadTask, suffix: &str) -> (r: String)
    ensures
        r@ == temp_name(task@, suffix@),
{
    let head = concat_str(u64_to_string(file_id_of(task)).as_str(), "-");
    let named = concat_str(head.as_str(), suffix);
    if str_eq(task.download_mode.as_str(), "osu") {
        concat_str(named.as_str(), ".osu.part")
    } else {
        concat_str(named.as_str(), ".osz.part")
    }
}

/// A new id for a task, from the current time and a random suffix of eight
/// letters and digits.
pub fn fresh_task_id(task: &DownloadTask) -> (r: String)
    ensures
        exists|millis: i64, suffix: Seq<char>| is_suffix_text(suffix, 8) && r@ == task_id_text(task@, millis, suffix),
{
    let suffix = random_alphanumeric(8);
    let millis = now_millis();
    let tail = concat_str(concat_str(concat_str("-", i64_to_string(millis).as_str()).as_str(), "-").as_str(), suffix.as_str());
    let r = if str_eq(task.download_mode.as_str(), "osu") {
        concat_str(concat_str("osu-", u64_to_string(file_id_of(task)).as_str()).as_str(), tail.as_str())
    } else {
        concat_str(u64_to_string(task.beatmapset_id).as_str(), tail.as_str())
    };
    assert(is_suffix_text(suffix@, 8));
    assert(r@ =~= task_id_text(task@, millis, suffix@));
    r
}

/// Whether a name can be a cache file name of `t`.
pub open spec fn is_fresh_temp_name(t: TaskModel, name: Seq<char>) -> bool {
    exists|suffix: Seq<char>| is_suffix_text(suffix, 8) && name == temp_name(t, suffix)
}

proof fn lemma_temp_name_plain(t: TaskModel, suffix: Seq<char>)
    requires
        is_suffix_text(suffix, 8),
    ensures
        plain_name(temp_name(t, suffix)),
{
    let n = temp_name(t, suffix);
    let d = decimal(file_id(t) as nat);
    crate::text::lemma_decimal_digits(file_id(t) as nat);
    reveal_strlit("-");
    reveal_strlit(".osu.part");
    reveal_strlit(".osz.part");
    let ext = if t.download_mode == "osu"@ { ".osu.part"@ } else { ".osz.part"@ };
    assert(n =~= d + "-"@ + suffix + ext);
    assert(n[0] == d[0] && crate::text::is_ascii_digit(d[0]));
    assert(n != seq!['.'] && n != seq!['.', '.']) by {
        if n == seq!['.'] || n == seq!['.', '.'] { assert(n[0] == '.'); }
    }
    assert forall|i: int| 0 <= i < n.len() implies n[i] != '/' && n[i] != '\\' && n[i] != ':' by {
        if i < d.len() {
            assert(n[i] == d[i]);
            assert(crate::text::is_ascii_digit(d[i]));
        } else if i == d.len() {
            assert(n[i] == '-');
        } else if i < d.len() + 1 + 8 {
            assert(n[i] == suffix[i - d.len() - 1]);
        } else {
            assert(n[i] == ext[i - d.len() - 9]);
        }
    }
}

/// A new cache path for a task in `cache_dir`, with a random suffix.
pub fn fresh_temp_path(task: &DownloadTask, cache_dir: &str) -> (r: String)
    ensures
        exists|suffix: Seq<char>| is_suffix_text(suffix, 8) && has_prefix(r@, cache_dir@)
            && has_suffix(r@, temp_name(task@, suffix)),
{
    let suffix = random_alphanumeric(8);
    let name = temp_name_for(task, suffix.as_str());
    proof { lemma_temp_name_plain(task@, suffix@); }
    let r = join_path(cache_dir, name.as_str());
    assert(is_suffix_text(suffix@, 8));
    r
}

/// The name of a task's cache file: the last component of its cache path,
/// or a fresh name when the path has none.
pub fn temp_file_name(task: &DownloadTask) -> (r: String)
    ensures
        r@.len() > 0,
        has_infix(task@.temp_path, r@) || is_fresh_temp_name(task@, r@),
{
    match path_file_name(task.temp_path.as_str()) {
        Some(name) => name,
        None => {
            let suffix = random_alphanumeric(8);
            let name = temp_name_for(task, suffix.as_str());
            proof { lemma_temp_name_plain(task@, suffix@); }
            assert(is_suffix_text(suffix@, 8));
            name
        },
    }
}

/// Where a task's download is written while it runs: its cache file name
/// in the run's cache folder.
pub fn runtime_temp_path(cache_dir: &str, task: &DownloadTask) -> (r: String)
    ensures
        exists|name: Seq<char>| (has_infix(task@.temp_path, name) || is_fresh_temp_name(task@, name))
            && (plain_name(name) ==> has_prefix(r@, cache_dir@) && has_suffix(r@, name)),
{
    let name = temp_file_name(task);
    join_path(cache_dir, name.as_str())
}


/// Where a finished playlist download waits for the rest of its group: in
/// `staged/<group>/` of the cache folder, under its target's file name
/// (`seekman-download.osz` when the target path has none).
pub fn staged_download_path(cache_dir: &str, task: &DownloadTask) -> (r: String)
    ensures
        exists|name: Seq<char>| (has_infix(task@.target_path, name) || name == "seekman-download.osz"@)
            && (#[trigger] plain_name(name) && plain_name(spec_sanitize_file_name(spec_group_of(task@)))
                ==> has_prefix(r@, cache_dir@) && has_suffix(r@, name)),
{
    let name = match path_file_name(task.target_path.as_str()) {
        Some(n) => n,
        None => "seekman-download.osz".to_string(),
    };
    let staged = join_path(cache_dir, "staged");
    let group = sanitize_file_name(normalized_group_id(task).as_str());
    proof {
        reveal_strlit("staged");
        assert(plain_name("staged"@)) by {
            assert forall|i: int| 0 <= i < "staged"@.len() implies "staged"@[i] != '/' && "staged"@[i] != '\\' && "staged"@[i] != ':' by {}
            assert("staged"@.len() == 6);
        }
    }
    let folder = join_path(staged.as_str(), group.as_str());
    let r = join_path(folder.as_str(), name.as_str());
    proof {
        if plain_name(name@) && plain_name(group@) {
            assert(has_prefix(staged@, cache_dir@));
            assert(has_prefix(folder@, staged@));
            assert(has_prefix(r@, folder@));
            assert(r@.subrange(0, cache_dir@.len() as int) =~= folder@.subrange(0, staged@.len() as int).subrange(0, cache_dir@.len() as int));
            assert(has_prefix(r@, cache_dir@));
            assert(has_suffix(r@, name@));
        }
        assert(group@ == spec_sanitize_file_name(spec_group_of(task@)));
        assert((has_infix(task@.target_path, name@) || name@ == "seekman-download.osz"@)
            && (plain_name(name@) && plain_name(spec_sanitize_file_name(spec_group_of(task@)))
                ==> has_prefix(r@, cache_dir@) && has_suffix(r@, name@)));
    }
    r
}

/// A task that a retry starts over: neither completed nor cancelled.
pub open spec fn retryable(t: TaskModel) -> bool {
    t.status != "completed"@ && t.status != "cancelled"@
}

/// `n` is task `t` made new for a retry: a fresh id and cache path, queued,
/// with no message, no bytes, retry generation zero, and the first mirror's
/// URL; its time stamp is the time of the retry.
pub open spec fn is_retry_of(n: TaskModel, t: TaskModel, settings: SettingsModel, cache_dir: Seq<char>) -> bool {
    &&& exists|millis: i64, suffix: Seq<char>| is_suffix_text(suffix, 8) && n.id == task_id_text(t, millis, suffix)
    &&& exists|suffix: Seq<char>| is_suffix_text(suffix, 8) && has_prefix(n.temp_path, cache_dir)
        && has_suffix(n.temp_path, temp_name(t, suffix))
    &&& n == TaskModel {
        id: n.id,
        status: "queued"@,
        error: Seq::empty(),
        total_bytes: None,
        downloaded_bytes: 0,
        retry_generation: 0,
        url: spec_first_url(t, settings),
        temp_path: n.temp_path,
        updated_at: n.updated_at,
        ..t
    }
}

/// Makes a task new for a retry (see `is_retry_of`).
pub fn recreate_retry_task(task: &mut DownloadTask, settings: &Settings, cache_dir: &str)
    ensures
        is_retry_of(final(task)@, old(task)@, settings@, cache_dir@),
{
    let ghost t = task@;
    task.id = fresh_task_id(task);
    task.status = "queued".to_string();
    task.error = String::new();
    task.total_bytes = None;
    task.downloaded_bytes = 0;
    task.retry_generation = 0;
    task.url = first_download_url(task, settings);
    task.temp_path = fresh_temp_path(task, cache_dir);
    task.updated_at = now_rfc3339();
    assert(file_id(task@) == file_id(t));
    assert(spec_task_candidates(task@, settings@) == spec_task_candidates(t, settings@));
}

}
