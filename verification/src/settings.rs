//! The user's settings, their defaults, and how a settings update from the
//! front end is merged into them.
use vstd::prelude::*;
use crate::text::{
    ascii_lower_seq, chars_eq, chars_of, lower_ascii, owned, str_eq, string_from_chars, trim_str,
    trim_ws, views,
};
use crate::version::{normalize_version_tag, spec_version_tag};

verus! {

/// The settings as values.
pub struct SettingsModel {
    pub songs_dir: Seq<char>,
    pub lazer_dir: Seq<char>,
    pub stable_osu_dir: Seq<char>,
    pub collection_auto_add: bool,
    pub collection_name: Seq<char>,
    pub local_source: Seq<char>,
    pub osu_client_id: Seq<char>,
    pub osu_client_secret: Seq<char>,
    pub bearer_token: Seq<char>,
    pub concurrent_downloads: usize,
    pub include_video: bool,
    pub download_mode: Seq<char>,
    pub hide_existing: bool,
    pub mirror_priority: Seq<Seq<char>>,
    pub mixed_mode: bool,
    pub theme: Seq<char>,
    pub dismissed_update_version: Seq<char>,
}

/// The user's settings.
pub struct Settings {
    pub songs_dir: String,
    pub lazer_dir: String,
    pub stable_osu_dir: String,
    pub collection_auto_add: bool,
    pub collection_name: String,
    pub local_source: String,
    pub osu_client_id: String,
    pub osu_client_secret: String,
    pub bearer_token: String,
    pub concurrent_downloads: usize,
    pub include_video: bool,
    pub download_mode: String,
    pub hide_existing: bool,
    pub mirror_priority: Vec<String>,
    pub mixed_mode: bool,
    pub theme: String,
    pub dismissed_update_version: String,
}

impl View for Settings {
    type V = SettingsModel;

    open spec fn view(&self) -> SettingsModel {
        SettingsModel {
            songs_dir: self.songs_dir@,
            lazer_dir: self.lazer_dir@,
            stable_osu_dir: self.stable_osu_dir@,
            collection_auto_add: self.collection_auto_add,
            collection_name: self.collection_name@,
            local_source: self.local_source@,
            osu_client_id: self.osu_client_id@,
            osu_client_secret: self.osu_client_secret@,
            bearer_token: self.bearer_token@,
            concurrent_downloads: self.concurrent_downloads,
            include_video: self.include_video,
            download_mode: self.download_mode@,
            hide_existing: self.hide_existing,
            mirror_priority: views(self.mirror_priority@),
            mixed_mode: self.mixed_mode,
            theme: self.theme@,
            dismissed_update_version: self.dismissed_update_version@,
        }
    }
}

/// The mirrors in their default order.
pub open spec fn spec_default_mirrors() -> Seq<Seq<char>> {
    seq!["hinamizawa"@, "catboy"@, "nerinyan"@, "sayobot"@]
}

/// The default settings.
pub open spec fn spec_default_settings() -> SettingsModel {
    SettingsModel {
        songs_dir: Seq::empty(),
        lazer_dir: Seq::empty(),
        stable_osu_dir: Seq::empty(),
        collection_auto_add: false,
        collection_name: "Seekman Downloads"@,
        local_source: "stable"@,
        osu_client_id: Seq::empty(),
        osu_client_secret: Seq::empty(),
        bearer_token: Seq::empty(),
        concurrent_downloads: 8,
        include_video: true,
        download_mode: "video"@,
        hide_existing: false,
        mirror_priority: spec_default_mirrors(),
        mixed_mode: false,
        theme: "cyan"@,
        dismissed_update_version: Seq::empty(),
    }
}

/// The mirrors in their default order: Hinamizawa, Catboy, Nerinyan, Sayobot.
pub fn default_mirror_priority() -> (r: Vec<String>)
    ensures
        views(r@) == spec_default_mirrors(),
{
    let mut r: Vec<String> = Vec::new();
    r.push(owned("hinamizawa"));
    r.push(owned("catboy"));
    r.push(owned("nerinyan"));
    r.push(owned("sayobot"));
    assert(views(r@) =~= spec_default_mirrors());
    r
}

/// The download mode of a task stored without one.
pub fn default_download_mode() -> (r: String)
    ensures
        r@ == "video"@,
{
    owned("video")
}

/// The value of a flag stored without one.
pub fn default_true() -> (r: bool)
    ensures
        r,
{
    true
}

impl Default for Settings {
    fn default() -> (s: Self)
        ensures
            s@ == spec_default_settings(),
    {
        Settings {
            songs_dir: String::new(),
            lazer_dir: String::new(),
            stable_osu_dir: String::new(),
            collection_auto_add: false,
            collection_name: owned("Seekman Downloads"),
            local_source: owned("stable"),
            osu_client_id: String::new(),
            osu_client_secret: String::new(),
            bearer_token: String::new(),
            concurrent_downloads: 8,
            include_video: true,
            download_mode: owned("video"),
            hide_existing: false,
            mirror_priority: default_mirror_priority(),
            mixed_mode: false,
            theme: owned("cyan"),
            dismissed_update_version: String::new(),
        }
    }
}

/// The trimmed value, or `fallback` when it is empty after trimming.
pub open spec fn spec_non_empty_or_default(value: Seq<char>, fallback: Seq<char>) -> Seq<char> {
    if trim_ws(value).len() == 0 {
        fallback
    } else {
        trim_ws(value)
    }
}

/// The value without surrounding white space, or `fallback` when nothing
/// else is left.
pub fn non_empty_or_default(value: &str, fallback: &str) -> (r: String)
    ensures
        r@ == spec_non_empty_or_default(value@, fallback@),
{
    let trimmed = trim_str(value);
    if trimmed.len() == 0 {
        owned(fallback)
    } else {
        string_from_chars(trimmed.as_slice())
    }
}

/// `lazer`, or `stable` for any other value.
pub open spec fn spec_local_source(value: Seq<char>) -> Seq<char> {
    if value == "lazer"@ {
        "lazer"@
    } else {
        "stable"@
    }
}

/// The local library to compare with: `lazer`, or `stable` for any other
/// value.
pub fn normalize_local_source(value: &str) -> (r: &'static str)
    ensures
        r@ == spec_local_source(value@),
{
    if str_eq(value, "lazer") {
        "lazer"
    } else {
        "stable"
    }
}

/// The download mode for a requested mode: `osu`, `noVideo` (also written
/// `no_video` or `novideo`), `video`, and for anything else `video` or
/// `noVideo` after `include_video`.
pub open spec fn spec_download_mode(value: Seq<char>, include_video: bool) -> Seq<char> {
    if value == "osu"@ {
        "osu"@
    } else if value == "noVideo"@ || value == "no_video"@ || value == "novideo"@ {
        "noVideo"@
    } else if value == "video"@ {
        "video"@
    } else if include_video {
        "video"@
    } else {
        "noVideo"@
    }
}

/// Normalises a download mode.
pub fn normalize_download_mode(value: &str, include_video: bool) -> (r: String)
    ensures
        r@ == spec_download_mode(value@, include_video),
{
    if str_eq(value, "osu") {
        owned("osu")
    } else if str_eq(value, "noVideo") || str_eq(value, "no_video") || str_eq(value, "novideo") {
        owned("noVideo")
    } else if str_eq(value, "video") {
        owned("video")
    } else if include_video {
        owned("video")
    } else {
        owned("noVideo")
    }
}

/// The colour theme for a requested theme, trimmed: `lime`, `cyan` or `sky`
/// (each also by its two colours), and `cyan` for anything else.
pub open spec fn spec_theme(value: Seq<char>) -> Seq<char> {
    let t = trim_ws(value);
    if t == "lime"@ || t == "BFFF00+222222"@ {
        "lime"@
    } else if t == "cyan"@ || t == "2C2C34+00D4FF"@ {
        "cyan"@
    } else if t == "sky"@ || t == "89C2FF+E6E7FF"@ {
        "sky"@
    } else {
        "cyan"@
    }
}

fn is_text(t: &Vec<char>, literal: &str) -> (r: bool)
    ensures
        r == (t@ == literal@),
{
    let l = chars_of(literal);
    chars_eq(t.as_slice(), l.as_slice())
}

/// Normalises a colour theme.
pub fn normalize_theme(value: &str) -> (r: &'static str)
    ensures
        r@ == spec_theme(value@),
{
    let t = trim_str(value);
    if is_text(&t, "lime") || is_text(&t, "BFFF00+222222") {
        "lime"
    } else if is_text(&t, "cyan") || is_text(&t, "2C2C34+00D4FF") {
        "cyan"
    } else if is_text(&t, "sky") || is_text(&t, "89C2FF+E6E7FF") {
        "sky"
    } else {
        "cyan"
    }
}


/// The settings that an update names; a field that is `None` is left as it
/// is.  `mirror_priority` holds the entries of the list, `None` for an entry
/// that is not a string.
pub struct SettingsPatch {
    pub songs_dir: Option<String>,
    pub lazer_dir: Option<String>,
    pub stable_osu_dir: Option<String>,
    pub collection_auto_add: Option<bool>,
    pub collection_name: Option<String>,
    pub local_source: Option<String>,
    pub osu_client_id: Option<String>,
    pub osu_client_secret: Option<String>,
    pub bearer_token: Option<String>,
    pub concurrent_downloads: Option<u64>,
    pub include_video: Option<bool>,
    pub download_mode: Option<String>,
    pub hide_existing: Option<bool>,
    pub mixed_mode: Option<bool>,
    pub theme: Option<String>,
    pub dismissed_update_version: Option<String>,
    pub mirror_priority: Option<Vec<Option<String>>>,
}

pub open spec fn opt_text(v: Option<String>, current: Seq<char>) -> Seq<char> {
    match v {
        Some(s) => s@,
        None => current,
    }
}

pub open spec fn opt_flag(v: Option<bool>, current: bool) -> bool {
    match v {
        Some(b) => b,
        None => current,
    }
}

/// The mirror keys of a list of entries, in order, each once; entries that
/// are not strings or name no mirror are left out.
pub open spec fn entry_keys(entries: Seq<Option<Seq<char>>>) -> Seq<Seq<char>>
    decreases entries.len(),
{
    if entries.len() == 0 {
        Seq::empty()
    } else {
        let base = entry_keys(entries.drop_last());
        match entries.last() {
            Some(v) => match crate::mirrors::spec_mirror_key(v) {
                Some(k) => if base.contains(k) { base } else { base.push(k) },
                None => base,
            },
            None => base,
        }
    }
}

pub open spec fn entry_views(v: Seq<Option<String>>) -> Seq<Option<Seq<char>>> {
    v.map_values(|e: Option<String>| match e {
        Some(s) => Some(s@),
        None => None,
    })
}

/// `v` clamped to `1..=64`.
pub open spec fn clamp_downloads(v: usize) -> usize {
    if v < 1 {
        1
    } else if v > 64 {
        64
    } else {
        v
    }
}

/// The paths, the collection, the local source, the account and the number
/// of downloads.
pub open spec fn merge_general(m: SettingsModel, p: SettingsPatch) -> SettingsModel {
    SettingsModel {
        songs_dir: opt_text(p.songs_dir, m.songs_dir),
        lazer_dir: opt_text(p.lazer_dir, m.lazer_dir),
        stable_osu_dir: opt_text(p.stable_osu_dir, m.stable_osu_dir),
        collection_auto_add: opt_flag(p.collection_auto_add, m.collection_auto_add),
        collection_name: match p.collection_name {
            Some(v) => spec_non_empty_or_default(v@, "Seekman Downloads"@),
            None => m.collection_name,
        },
        local_source: match p.local_source {
            Some(v) => spec_local_source(v@),
            None => m.local_source,
        },
        osu_client_id: opt_text(p.osu_client_id, m.osu_client_id),
        osu_client_secret: opt_text(p.osu_client_secret, m.osu_client_secret),
        bearer_token: opt_text(p.bearer_token, m.bearer_token),
        concurrent_downloads: match p.concurrent_downloads {
            Some(v) => clamp_downloads(v as usize),
            None => m.concurrent_downloads,
        },
        ..m
    }
}

/// `include_video`, which also switches a download mode other than `osu`
/// between `video` and `noVideo`; then the download mode, which sets
/// `include_video` to whether it is `video`.
pub open spec fn merge_video(m: SettingsModel, p: SettingsPatch) -> SettingsModel {
    let after_video = match p.include_video {
        Some(v) => SettingsModel {
            include_video: v,
            download_mode: if m.download_mode != "osu"@ {
                if v { "video"@ } else { "noVideo"@ }
            } else {
                m.download_mode
            },
            ..m
        },
        None => m,
    };
    match p.download_mode {
        Some(v) => {
            let mode = spec_download_mode(v@, after_video.include_video);
            SettingsModel { include_video: mode == "video"@, download_mode: mode, ..after_video }
        },
        None => after_video,
    }
}

/// The display settings, the dismissed version and the mirror priority (a
/// list that names a mirror replaces it).
pub open spec fn merge_display(m: SettingsModel, p: SettingsPatch) -> SettingsModel {
    let keys = match p.mirror_priority {
        Some(values) => entry_keys(entry_views(values@)),
        None => Seq::empty(),
    };
    SettingsModel {
        hide_existing: opt_flag(p.hide_existing, m.hide_existing),
        mirror_priority: if keys.len() > 0 { keys } else { m.mirror_priority },
        mixed_mode: opt_flag(p.mixed_mode, m.mixed_mode),
        theme: match p.theme {
            Some(v) => spec_theme(v@),
            None => m.theme,
        },
        dismissed_update_version: match p.dismissed_update_version {
            Some(v) => spec_version_tag(v@),
            None => m.dismissed_update_version,
        },
        ..m
    }
}

/// The settings after an update: each field the update names is replaced,
/// normalised where the settings normalise it.
pub open spec fn spec_merge_settings(m: SettingsModel, p: SettingsPatch) -> SettingsModel {
    merge_display(merge_video(merge_general(m, p), p), p)
}

fn contains_text(v: &Vec<String>, k: &str) -> (r: bool)
    ensures
        r == views(v@).contains(k@),
{
    let mut i: usize = 0;
    while i < v.len()
        invariant
            i <= v.len(),
            forall|j: int| 0 <= j < i ==> v@[j]@ != k@,
        decreases v.len() - i,
    {
        if str_eq(v[i].as_str(), k) {
            assert(views(v@)[i as int] == k@);
            return true;
        }
        i = i + 1;
    }
    proof {
        if views(v@).contains(k@) {
            let j = choose|j: int| 0 <= j < views(v@).len() && views(v@)[j] == k@;
            assert(v@[j]@ == k@);
        }
    }
    false
}

/// The mirror keys of the entries of a mirror list.
fn mirror_entry_keys(values: &Vec<Option<String>>) -> (r: Vec<String>)
    ensures
        views(r@) == entry_keys(entry_views(values@)),
{
    let mut priority: Vec<String> = Vec::new();
    let mut i: usize = 0;
    while i < values.len()
        invariant
            i <= values.len(),
            views(priority@) == entry_keys(entry_views(values@).take(i as int)),
        decreases values.len() - i,
    {
        let ghost prefix = entry_views(values@).take(i + 1);
        assert(prefix.drop_last() =~= entry_views(values@).take(i as int));
        match &values[i] {
            Some(v) => {
                assert(prefix.last() == Some(v@));
                match crate::mirrors::normalize_mirror_key(v.as_str()) {
                    Some(key) => {
                        if !contains_text(&priority, key) {
                            let ghost before = priority@;
                            priority.push(owned(key));
                            assert(views(priority@) =~= views(before).push(key@));
                        }
                    },
                    None => {},
                }
            },
            None => {
                assert(prefix.last() == None::<Seq<char>>);
            },
        }
        i = i + 1;
    }
    assert(entry_views(values@).take(values.len() as int) =~= entry_views(values@));
    priority
}

fn apply_general(settings: &mut Settings, patch: &SettingsPatch)
    ensures
        final(settings)@ == merge_general(old(settings)@, *patch),
{
    if let Some(v) = &patch.songs_dir {
        settings.songs_dir = v.clone();
    }
    if let Some(v) = &patch.lazer_dir {
        settings.lazer_dir = v.clone();
    }
    if let Some(v) = &patch.stable_osu_dir {
        settings.stable_osu_dir = v.clone();
    }
    if let Some(v) = patch.collection_auto_add {
        settings.collection_auto_add = v;
    }
    if let Some(v) = &patch.collection_name {
        settings.collection_name = non_empty_or_default(v.as_str(), "Seekman Downloads");
    }
    if let Some(v) = &patch.local_source {
        settings.local_source = owned(normalize_local_source(v.as_str()));
    }
    if let Some(v) = &patch.osu_client_id {
        settings.osu_client_id = v.clone();
    }
    if let Some(v) = &patch.osu_client_secret {
        settings.osu_client_secret = v.clone();
    }
    if let Some(v) = &patch.bearer_token {
        settings.bearer_token = v.clone();
    }
    if let Some(v) = patch.concurrent_downloads {
        let n = v as usize;
        settings.concurrent_downloads = if n < 1 {
            1
        } else if n > 64 {
            64
        } else {
            n
        };
    }
}

fn apply_video(settings: &mut Settings, patch: &SettingsPatch)
    ensures
        final(settings)@ == merge_video(old(settings)@, *patch),
{
    if let Some(v) = patch.include_video {
        settings.include_video = v;
        if !str_eq(settings.download_mode.as_str(), "osu") {
            settings.download_mode = if v {
                owned("video")
            } else {
                owned("noVideo")
            };
        }
    }
    if let Some(v) = &patch.download_mode {
        settings.download_mode = normalize_download_mode(v.as_str(), settings.include_video);
        settings.include_video = str_eq(settings.download_mode.as_str(), "video");
    }
}

fn apply_display(settings: &mut Settings, patch: &SettingsPatch)
    ensures
        final(settings)@ == merge_display(old(settings)@, *patch),
{
    if let Some(v) = patch.hide_existing {
        settings.hide_existing = v;
    }
    if let Some(v) = patch.mixed_mode {
        settings.mixed_mode = v;
    }
    if let Some(v) = &patch.theme {
        settings.theme = owned(normalize_theme(v.as_str()));
    }
    if let Some(v) = &patch.dismissed_update_version {
        settings.dismissed_update_version = normalize_version_tag(v.as_str());
    }
    if let Some(values) = &patch.mirror_priority {
        let priority = mirror_entry_keys(values);
        if priority.len() > 0 {
            settings.mirror_priority = priority;
        }
    }
}

/// Merges a settings update into the settings.
pub fn merge_settings(settings: &mut Settings, patch: &SettingsPatch)
    ensures
        final(settings)@ == spec_merge_settings(old(settings)@, *patch),
{
    apply_general(settings, patch);
    apply_video(settings, patch);
    apply_display(settings, patch);
}


/// An update that names no setting.
pub open spec fn empty_patch(p: SettingsPatch) -> bool {
    &&& p.songs_dir is None
    &&& p.lazer_dir is None
    &&& p.stable_osu_dir is None
    &&& p.collection_auto_add is None
    &&& p.collection_name is None
    &&& p.local_source is None
    &&& p.osu_client_id is None
    &&& p.osu_client_secret is None
    &&& p.bearer_token is None
    &&& p.concurrent_downloads is None
    &&& p.include_video is None
    &&& p.download_mode is None
    &&& p.hide_existing is None
    &&& p.mixed_mode is None
    &&& p.theme is None
    &&& p.dismissed_update_version is None
    &&& p.mirror_priority is None
}

/// Law: an update that names no setting leaves the settings as they are.
pub proof fn law_merge_empty_patch(m: SettingsModel, p: SettingsPatch)
    requires
        empty_patch(p),
    ensures
        spec_merge_settings(m, p) == m,
{
}

/// Law: applying the same update twice leaves the settings as applying it
/// once.
pub proof fn law_merge_idempotent(m: SettingsModel, p: SettingsPatch)
    ensures
        spec_merge_settings(spec_merge_settings(m, p), p) == spec_merge_settings(m, p),
{
    reveal_strlit("osu");
    reveal_strlit("video");
    reveal_strlit("noVideo");
    let once = spec_merge_settings(m, p);
    let twice = spec_merge_settings(once, p);
    let g1 = merge_general(m, p);
    let v1 = merge_video(g1, p);
    let g2 = merge_general(once, p);
    let v2 = merge_video(g2, p);
    assert(g2.download_mode == once.download_mode);
    assert(g2.include_video == once.include_video);
    assert(v2.download_mode == v1.download_mode);
    assert(v2.include_video == v1.include_video);
    assert(twice == once);
}

/// The osu!stable folder a collection command uses: the one given when it
/// is not blank, else the one in the settings; an error when that is blank
/// too.
pub open spec fn spec_stable_dir(input: Option<Seq<char>>, s: SettingsModel) -> Result<Seq<char>, Seq<char>> {
    let value = match input {
        Some(v) => if trim_ws(v).len() > 0 { v } else { s.stable_osu_dir },
        None => s.stable_osu_dir,
    };
    if trim_ws(value).len() == 0 { Err("请先选择 osu!stable 根目录。"@) } else { Ok(value) }
}

pub fn stable_dir_choice(input: Option<String>, settings: &Settings) -> (r: Result<String, String>)
    ensures
        match spec_stable_dir(match input { Some(v) => Some(v@), None => None }, settings@) {
            Ok(v) => r matches Ok(d) && d@ == v,
            Err(m) => r matches Err(e) && e@ == m,
        },
{
    let value = match input {
        Some(v) => if trim_str(v.as_str()).len() > 0 { v } else { settings.stable_osu_dir.clone() },
        None => settings.stable_osu_dir.clone(),
    };
    if trim_str(value.as_str()).len() == 0 {
        Err("请先选择 osu!stable 根目录。".to_string())
    } else {
        Ok(value)
    }
}

/// How many downloads run at once: the setting, kept within 1 to 64.
pub fn queue_limit(settings: &Settings) -> (r: usize)
    ensures
        r == if settings.concurrent_downloads < 1 { 1 } else if settings.concurrent_downloads > 64 { 64 } else { settings.concurrent_downloads },
{
    let n = settings.concurrent_downloads;
    if n < 1 { 1 } else if n > 64 { 64 } else { n }
}

}
