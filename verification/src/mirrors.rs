//! The download mirrors for a beatmapset: their keys, labels and URLs, and
//! the order in which they are tried.
use vstd::prelude::*;
use crate::settings::{default_mirror_priority, spec_default_mirrors, Settings};
use crate::text::{
    ascii_lower_seq, chars_eq, has_infix, has_suffix, occurs_at, chars_of, concat_str, decimal, lower_ascii, owned, str_eq,
    trim_chars, trim_ws, u64_to_string, views,
};

verus! {

/// The mirror that a priority entry names, after trimming and lower-casing:
/// `hinamizawa` (or `hinai`), `catboy` (or `catboy.best`), `nerinyan` (or
/// `nerinyan.moe`), `sayobot` (or `sayo`).
pub open spec fn spec_mirror_key(value: Seq<char>) -> Option<Seq<char>> {
    let l = ascii_lower_seq(trim_ws(value));
    if l == "hinamizawa"@ || l == "hinai"@ {
        Some("hinamizawa"@)
    } else if l == "catboy"@ || l == "catboy.best"@ {
        Some("catboy"@)
    } else if l == "nerinyan"@ || l == "nerinyan.moe"@ {
        Some("nerinyan"@)
    } else if l == "sayobot"@ || l == "sayo"@ {
        Some("sayobot"@)
    } else {
        None
    }
}

fn is_text(t: &Vec<char>, literal: &str) -> (r: bool)
    ensures
        r == (t@ == literal@),
{
    let l = chars_of(literal);
    chars_eq(t.as_slice(), l.as_slice())
}

/// The mirror that a priority entry names, if any.
pub fn normalize_mirror_key(value: &str) -> (r: Option<&'static str>)
    ensures
        match r {
            Some(k) => spec_mirror_key(value@) == Some(k@),
            None => spec_mirror_key(value@) is None,
        },
{
    let t = trim_chars(chars_of(value).as_slice());
    let l = lower_ascii(t.as_slice());
    if is_text(&l, "hinamizawa") || is_text(&l, "hinai") {
        Some("hinamizawa")
    } else if is_text(&l, "catboy") || is_text(&l, "catboy.best") {
        Some("catboy")
    } else if is_text(&l, "nerinyan") || is_text(&l, "nerinyan.moe") {
        Some("nerinyan")
    } else if is_text(&l, "sayobot") || is_text(&l, "sayo") {
        Some("sayobot")
    } else {
        None
    }
}

/// The display name of a mirror key.
pub open spec fn spec_mirror_label(key: Seq<char>) -> Seq<char> {
    if key == "hinamizawa"@ {
        "Hinamizawa"@
    } else if key == "catboy"@ {
        "Catboy"@
    } else if key == "nerinyan"@ {
        "Nerinyan"@
    } else if key == "sayobot"@ {
        "Sayobot"@
    } else {
        "Mirror"@
    }
}

/// The display name of a mirror.
pub fn mirror_label(key: &str) -> (r: &'static str)
    ensures
        r@ == spec_mirror_label(key@),
{
    if str_eq(key, "hinamizawa") {
        "Hinamizawa"
    } else if str_eq(key, "catboy") {
        "Catboy"
    } else if str_eq(key, "nerinyan") {
        "Nerinyan"
    } else if str_eq(key, "sayobot") {
        "Sayobot"
    } else {
        "Mirror"
    }
}

/// The download URL of beatmapset `id` on a mirror, with or without video;
/// an unknown key gets Hinamizawa's URL with video.
pub open spec fn spec_mirror_url(key: Seq<char>, id: u64, include_video: bool) -> Seq<char> {
    let n = decimal(id as nat);
    if key == "hinamizawa"@ {
        let base = "https://mirror.hinamizawa.ai/api/v1/hinai/d/"@ + n;
        if include_video { base } else { base + "?noVideo=1"@ }
    } else if key == "catboy"@ {
        if include_video {
            "https://catboy.best/d/"@ + n
        } else {
            "https://catboy.best/d/"@ + n + "n"@
        }
    } else if key == "nerinyan"@ {
        let base = "https://api.nerinyan.moe/d/"@ + n;
        if include_video { base } else { base + "?noVideo=1"@ }
    } else if key == "sayobot"@ {
        if include_video {
            "https://txy1.sayobot.cn/beatmaps/download/full/"@ + n
        } else {
            "https://txy1.sayobot.cn/beatmaps/download/novideo/"@ + n
        }
    } else {
        "https://mirror.hinamizawa.ai/api/v1/hinai/d/"@ + n
    }
}

/// A download URL asks the mirror to leave the video out.
pub open spec fn asks_no_video(url: Seq<char>) -> bool {
    has_infix(url, "noVideo"@) || has_infix(url, "novideo"@)
}

/// One of the four mirrors the app knows.
pub open spec fn known_mirror(key: Seq<char>) -> bool {
    key == "hinamizawa"@ || key == "catboy"@ || key == "nerinyan"@ || key == "sayobot"@
}

proof fn lemma_no_video_request(l: Seq<char>, n: Seq<char>)
    requires
        crate::text::all_digits(n),
        forall|j: int| 0 <= j < l.len() ==> l[j] != 'V',
        forall|j: int| 0 <= j && j + 1 < l.len() ==> !(#[trigger] l[j] == 'o' && l[j + 1] == 'v'),
    ensures
        !asks_no_video(l + n),
{
    reveal_strlit("noVideo");
    reveal_strlit("novideo");
    let u = l + n;
    assert forall|i: int| !occurs_at(u, "noVideo"@, i) by {
        if occurs_at(u, "noVideo"@, i) {
            assert(u[i + 2] == u.subrange(i, i + 7)[2]);
            if i + 2 < l.len() {
                assert(u[i + 2] == l[i + 2]);
            } else {
                assert(u[i + 2] == n[i + 2 - l.len()]);
                assert(crate::text::is_ascii_digit(n[i + 2 - l.len()]));
            }
        }
    }
    assert forall|i: int| !occurs_at(u, "novideo"@, i) by {
        if occurs_at(u, "novideo"@, i) {
            assert(u[i + 2] == u.subrange(i, i + 7)[2]);
            assert(u[i + 1] == u.subrange(i, i + 7)[1]);
            if i + 2 < l.len() {
                assert(u[i + 2] == l[i + 2]);
                assert(u[i + 1] == l[i + 1]);
            } else {
                assert(u[i + 2] == n[i + 2 - l.len()]);
                assert(crate::text::is_ascii_digit(n[i + 2 - l.len()]));
            }
        }
    }
}

/// Law: the video is left out only when it is not wanted. The URL of a
/// download with video never asks for no video and ends with the
/// beatmapset's id; on each known mirror the URL without video is another
/// one, and (but on catboy, which marks it by a trailing `n`) it asks for
/// no video.
pub proof fn law_mirror_url_video(key: Seq<char>, id: u64)
    ensures
        !asks_no_video(spec_mirror_url(key, id, true)),
        has_suffix(spec_mirror_url(key, id, true), decimal(id as nat)),
        known_mirror(key) ==> spec_mirror_url(key, id, false) != spec_mirror_url(key, id, true),
        known_mirror(key) && key != "catboy"@ ==> asks_no_video(spec_mirror_url(key, id, false)),
        key == "catboy"@ ==> spec_mirror_url(key, id, false) == spec_mirror_url(key, id, true) + "n"@,
{
    let n = decimal(id as nat);
    crate::text::lemma_decimal_digits(id as nat);
    reveal_strlit("https://mirror.hinamizawa.ai/api/v1/hinai/d/");
    reveal_strlit("https://catboy.best/d/");
    reveal_strlit("https://api.nerinyan.moe/d/");
    reveal_strlit("https://txy1.sayobot.cn/beatmaps/download/full/");
    reveal_strlit("https://txy1.sayobot.cn/beatmaps/download/novideo/");
    reveal_strlit("?noVideo=1");
    reveal_strlit("noVideo");
    reveal_strlit("novideo");
    reveal_strlit("n");
    reveal_strlit("hinamizawa");
    reveal_strlit("catboy");
    reveal_strlit("nerinyan");
    reveal_strlit("sayobot");
    assert("hinamizawa"@.len() == 10 && "catboy"@.len() == 6 && "nerinyan"@.len() == 8 && "sayobot"@.len() == 7);
    let h = "https://mirror.hinamizawa.ai/api/v1/hinai/d/"@;
    let c = "https://catboy.best/d/"@;
    let e = "https://api.nerinyan.moe/d/"@;
    let f = "https://txy1.sayobot.cn/beatmaps/download/full/"@;
    let v = "https://txy1.sayobot.cn/beatmaps/download/novideo/"@;
    assert(forall|j: int| 0 <= j < h.len() ==> h[j] != 'V');
    assert(forall|j: int| 0 <= j && j + 1 < h.len() ==> !(#[trigger] h[j] == 'o' && h[j + 1] == 'v'));
    assert(forall|j: int| 0 <= j < c.len() ==> c[j] != 'V');
    assert(forall|j: int| 0 <= j && j + 1 < c.len() ==> !(#[trigger] c[j] == 'o' && c[j + 1] == 'v'));
    assert(forall|j: int| 0 <= j < e.len() ==> e[j] != 'V');
    assert(forall|j: int| 0 <= j && j + 1 < e.len() ==> !(#[trigger] e[j] == 'o' && e[j + 1] == 'v'));
    assert(forall|j: int| 0 <= j < f.len() ==> f[j] != 'V');
    assert(forall|j: int| 0 <= j && j + 1 < f.len() ==> !(#[trigger] f[j] == 'o' && f[j + 1] == 'v'));
    lemma_no_video_request(h, n);
    lemma_no_video_request(c, n);
    lemma_no_video_request(e, n);
    lemma_no_video_request(f, n);
    assert((h + n).subrange((h + n).len() - n.len(), (h + n).len() as int) =~= n);
    assert((c + n).subrange((c + n).len() - n.len(), (c + n).len() as int) =~= n);
    assert((e + n).subrange((e + n).len() - n.len(), (e + n).len() as int) =~= n);
    assert((f + n).subrange((f + n).len() - n.len(), (f + n).len() as int) =~= n);
    let q = "?noVideo=1"@;
    assert(occurs_at(h + n + q, "noVideo"@, (h + n).len() + 1int)) by {
        assert((h + n + q).subrange((h + n).len() + 1int, (h + n).len() + 8int) =~= "noVideo"@);
    }
    assert(occurs_at(e + n + q, "noVideo"@, (e + n).len() + 1int)) by {
        assert((e + n + q).subrange((e + n).len() + 1int, (e + n).len() + 8int) =~= "noVideo"@);
    }
    assert(occurs_at(v + n, "novideo"@, v.len() - 8)) by {
        assert((v + n).subrange(v.len() - 8, v.len() - 1) =~= "novideo"@);
    }
    assert(f.len() != v.len());
}

/// The download URL of a beatmapset on a mirror.
pub fn mirror_url(key: &str, id: u64, include_video: bool) -> (r: String)
    ensures
        r@ == spec_mirror_url(key@, id, include_video),
{
    let n = u64_to_string(id);
    if str_eq(key, "hinamizawa") {
        let base = concat_str("https://mirror.hinamizawa.ai/api/v1/hinai/d/", n.as_str());
        if include_video {
            base
        } else {
            concat_str(base.as_str(), "?noVideo=1")
        }
    } else if str_eq(key, "catboy") {
        let base = concat_str("https://catboy.best/d/", n.as_str());
        if include_video {
            base
        } else {
            concat_str(base.as_str(), "n")
        }
    } else if str_eq(key, "nerinyan") {
        let base = concat_str("https://api.nerinyan.moe/d/", n.as_str());
        if include_video {
            base
        } else {
            concat_str(base.as_str(), "?noVideo=1")
        }
    } else if str_eq(key, "sayobot") {
        if include_video {
            concat_str("https://txy1.sayobot.cn/beatmaps/download/full/", n.as_str())
        } else {
            concat_str("https://txy1.sayobot.cn/beatmaps/download/novideo/", n.as_str())
        }
    } else {
        concat_str("https://mirror.hinamizawa.ai/api/v1/hinai/d/", n.as_str())
    }
}

/// A mirror to try: its display name and the URL.
pub struct MirrorCandidate {
    pub label: &'static str,
    pub url: String,
}

impl View for MirrorCandidate {
    type V = (Seq<char>, Seq<char>);

    open spec fn view(&self) -> (Seq<char>, Seq<char>) {
        (self.label@, self.url@)
    }
}

pub open spec fn candidate_views(v: Seq<MirrorCandidate>) -> Seq<(Seq<char>, Seq<char>)> {
    v.map_values(|c: MirrorCandidate| c@)
}

/// The mirror keys named by a priority list, in order, each once.
pub open spec fn priority_keys(priority: Seq<Seq<char>>) -> Seq<Seq<char>>
    decreases priority.len(),
{
    if priority.len() == 0 {
        Seq::empty()
    } else {
        let base = priority_keys(priority.drop_last());
        match spec_mirror_key(priority.last()) {
            Some(k) => if base.contains(k) { base } else { base.push(k) },
            None => base,
        }
    }
}

/// `keys` followed by the default mirrors it lacks, in their default order.
pub open spec fn with_defaults(keys: Seq<Seq<char>>, defaults: Seq<Seq<char>>) -> Seq<Seq<char>>
    decreases defaults.len(),
{
    if defaults.len() == 0 {
        keys
    } else {
        let base = with_defaults(keys, defaults.drop_last());
        if base.contains(defaults.last()) {
            base
        } else {
            base.push(defaults.last())
        }
    }
}

/// The order in which mirrors are tried: those the priority names, then the
/// rest of the default mirrors.
pub open spec fn spec_mirror_order(priority: Seq<Seq<char>>) -> Seq<Seq<char>> {
    with_defaults(priority_keys(priority), spec_default_mirrors())
}

pub open spec fn candidate_of(key: Seq<char>, id: u64, include_video: bool) -> (Seq<char>, Seq<char>) {
    (spec_mirror_label(key), spec_mirror_url(key, id, include_video))
}

pub open spec fn spec_candidates(keys: Seq<Seq<char>>, id: u64, include_video: bool) -> Seq<(Seq<char>, Seq<char>)> {
    keys.map_values(|k: Seq<char>| candidate_of(k, id, include_video))
}

fn contains_key(keys: &Vec<&'static str>, k: &str) -> (r: bool)
    ensures
        r == keys@.map_values(|s: &'static str| s@).contains(k@),
{
    let mut i: usize = 0;
    while i < keys.len()
        invariant
            i <= keys.len(),
            forall|j: int| 0 <= j < i ==> keys@[j]@ != k@,
        decreases keys.len() - i,
    {
        if str_eq(keys[i], k) {
            assert(keys@.map_values(|s: &'static str| s@)[i as int] == k@);
            return true;
        }
        i = i + 1;
    }
    proof {
        let m = keys@.map_values(|s: &'static str| s@);
        if m.contains(k@) {
            let j = choose|j: int| 0 <= j < m.len() && m[j] == k@;
            assert(keys@[j]@ == k@);
        }
    }
    false
}

/// The mirrors to try for beatmapset `id`, in the order of `priority`
/// (unknown and repeated entries left out), then the other default mirrors.
pub fn mirror_candidates(id: u64, include_video: bool, priority: &[String]) -> (r: Vec<MirrorCandidate>)
    ensures
        candidate_views(r@) == spec_candidates(spec_mirror_order(views(priority@)), id, include_video),
{
    let mut keys: Vec<&'static str> = Vec::new();
    let mut i: usize = 0;
    while i < priority.len()
        invariant
            i <= priority.len(),
            keys@.map_values(|s: &'static str| s@) == priority_keys(views(priority@).take(i as int)),
        decreases priority.len() - i,
    {
        let ghost prefix = views(priority@).take(i + 1);
        assert(prefix.drop_last() =~= views(priority@).take(i as int));
        assert(prefix.last() == priority@[i as int]@);
        if let Some(key) = normalize_mirror_key(priority[i].as_str()) {
            if !contains_key(&keys, key) {
                let ghost before = keys@;
                keys.push(key);
                assert(keys@.map_values(|s: &'static str| s@) =~= before.map_values(|s: &'static str| s@).push(key@));
            }
        }
        i = i + 1;
    }
    assert(views(priority@).take(priority.len() as int) =~= views(priority@));
    let defaults: [&'static str; 4] = ["hinamizawa", "catboy", "nerinyan", "sayobot"];
    let ghost dv = defaults@.map_values(|s: &'static str| s@);
    assert(dv =~= spec_default_mirrors());
    let ghost pk = keys@.map_values(|s: &'static str| s@);
    let mut d: usize = 0;
    while d < 4
        invariant
            d <= 4,
            dv == defaults@.map_values(|s: &'static str| s@),
            dv == spec_default_mirrors(),
            keys@.map_values(|s: &'static str| s@) == with_defaults(pk, dv.take(d as int)),
        decreases 4 - d,
    {
        let ghost prefix = dv.take(d + 1);
        assert(prefix.drop_last() =~= dv.take(d as int));
        let key = defaults[d];
        assert(prefix.last() == key@);
        if !contains_key(&keys, key) {
            let ghost before = keys@;
            keys.push(key);
            assert(keys@.map_values(|s: &'static str| s@) =~= before.map_values(|s: &'static str| s@).push(key@));
        }
        d = d + 1;
    }
    assert(dv.take(4) =~= dv);
    let mut out: Vec<MirrorCandidate> = Vec::new();
    let mut j: usize = 0;
    let ghost order = keys@.map_values(|s: &'static str| s@);
    while j < keys.len()
        invariant
            j <= keys.len(),
            order == keys@.map_values(|s: &'static str| s@),
            candidate_views(out@) == spec_candidates(order.take(j as int), id, include_video),
        decreases keys.len() - j,
    {
        let key = keys[j];
        let c = MirrorCandidate { label: mirror_label(key), url: mirror_url(key, id, include_video) };
        let ghost before = out@;
        out.push(c);
        assert(order.take(j + 1) =~= order.take(j as int).push(key@));
        assert(candidate_views(out@) =~= candidate_views(before).push(candidate_of(key@, id, include_video)));
        assert(spec_candidates(order.take(j + 1), id, include_video) =~= spec_candidates(order.take(j as int), id, include_video).push(candidate_of(key@, id, include_video)));
        j = j + 1;
    }
    assert(order.take(keys.len() as int) =~= order);
    out
}


proof fn lemma_priority_keys(p: Seq<Seq<char>>)
    ensures
        priority_keys(p).no_duplicates(),
        forall|x: Seq<char>| priority_keys(p).contains(x) ==> spec_default_mirrors().contains(x),
    decreases p.len(),
{
    if p.len() > 0 {
        lemma_priority_keys(p.drop_last());
        let base = priority_keys(p.drop_last());
        if let Some(k) = spec_mirror_key(p.last()) {
            assert(spec_default_mirrors()[0] == "hinamizawa"@);
            assert(spec_default_mirrors()[1] == "catboy"@);
            assert(spec_default_mirrors()[2] == "nerinyan"@);
            assert(spec_default_mirrors()[3] == "sayobot"@);
            assert(spec_default_mirrors().contains(k));
            if !base.contains(k) {
                assert forall|x: Seq<char>| base.push(k).contains(x) implies spec_default_mirrors().contains(x) by {
                    if x != k {
                        let i = choose|i: int| 0 <= i < base.push(k).len() && base.push(k)[i] == x;
                        assert(base[i] == x);
                    }
                }
            }
        }
    }
}

proof fn lemma_with_defaults(keys: Seq<Seq<char>>, d: Seq<Seq<char>>)
    requires
        keys.no_duplicates(),
    ensures
        with_defaults(keys, d).no_duplicates(),
        forall|x: Seq<char>| #![trigger with_defaults(keys, d).contains(x)]
            with_defaults(keys, d).contains(x) <==> (keys.contains(x) || d.contains(x)),
        with_defaults(keys, d).len() >= keys.len(),
        with_defaults(keys, d).subrange(0, keys.len() as int) == keys,
    decreases d.len(),
{
    if d.len() > 0 {
        lemma_with_defaults(keys, d.drop_last());
        let base = with_defaults(keys, d.drop_last());
        assert forall|x: Seq<char>| #![trigger with_defaults(keys, d).contains(x)]
            with_defaults(keys, d).contains(x) <==> (keys.contains(x) || d.contains(x)) by {
            if d.drop_last().contains(x) {
                let i = choose|i: int| 0 <= i < d.drop_last().len() && d.drop_last()[i] == x;
                assert(d[i] == x);
            }
            if d.contains(x) && !d.drop_last().contains(x) {
                let i = choose|i: int| 0 <= i < d.len() && d[i] == x;
                if i < d.len() - 1 {
                    assert(d.drop_last()[i] == x);
                }
            }
            if !base.contains(d.last()) {
                if base.push(d.last()).contains(x) && x != d.last() {
                    let i = choose|i: int| 0 <= i < base.push(d.last()).len() && base.push(d.last())[i] == x;
                    assert(base[i] == x);
                }
                if base.contains(x) {
                    let i = choose|i: int| 0 <= i < base.len() && base[i] == x;
                    assert(base.push(d.last())[i] == x);
                }
                assert(base.push(d.last())[base.len() as int] == d.last());
            }
        }
        if !base.contains(d.last()) {
            assert(base.push(d.last()).subrange(0, keys.len() as int) =~= base.subrange(0, keys.len() as int));
        }
    }
}

/// Law: the mirrors are tried in an order that holds each of the four
/// mirrors exactly once, led by the mirrors the priority names, in its order.
pub proof fn law_mirror_order(priority: Seq<Seq<char>>)
    ensures
        spec_mirror_order(priority).no_duplicates(),
        forall|x: Seq<char>| #![trigger spec_mirror_order(priority).contains(x)]
            spec_mirror_order(priority).contains(x) <==> spec_default_mirrors().contains(x),
        spec_mirror_order(priority).subrange(0, priority_keys(priority).len() as int) == priority_keys(priority),
{
    lemma_priority_keys(priority);
    lemma_with_defaults(priority_keys(priority), spec_default_mirrors());
}


/// The default mirrors rotated to start at `offset`.
pub open spec fn rotated_defaults(offset: int) -> Seq<Seq<char>> {
    spec_default_mirrors().skip(offset) + spec_default_mirrors().take(offset)
}

/// The priority that applies to beatmapset `id`: with mixed mode on, the
/// default mirrors rotated by `id` modulo four (spreading downloads over the
/// mirrors), else the user's priority.
pub open spec fn spec_priority_for(id: u64, settings: crate::settings::SettingsModel) -> Seq<Seq<char>> {
    if settings.mixed_mode {
        rotated_defaults(((id as usize) % 4) as int)
    } else {
        settings.mirror_priority
    }
}

/// The mirrors to try for a beatmapset under the user's settings.
pub fn mirror_candidates_for_settings(id: u64, include_video: bool, settings: &Settings) -> (r: Vec<MirrorCandidate>)
    ensures
        candidate_views(r@) == spec_candidates(spec_mirror_order(spec_priority_for(id, settings@)), id, include_video),
{
    if settings.mixed_mode {
        let defaults = default_mirror_priority();
        let offset = (id as usize) % 4;
        let mut priority: Vec<String> = Vec::new();
        let mut k: usize = 0;
        while k < 4
            invariant
                k <= 4,
                offset < 4,
                views(defaults@) == spec_default_mirrors(),
                views(priority@) == rotated_defaults(offset as int).take(k as int),
            decreases 4 - k,
        {
            let index = (offset + k) % 4;
            let ghost before = priority@;
            priority.push(defaults[index].clone());
            proof {
                let r = rotated_defaults(offset as int);
                assert(r.len() == 4);
                if offset + k < 4 {
                    assert(r[k as int] == spec_default_mirrors()[(offset + k) as int]);
                } else {
                    assert(r[k as int] == spec_default_mirrors()[(offset + k - 4) as int]);
                }
                assert(views(priority@) =~= views(before).push(r[k as int]));
                assert(r.take(k + 1) =~= r.take(k as int).push(r[k as int]));
            }
            k = k + 1;
        }
        assert(rotated_defaults(offset as int).take(4) =~= rotated_defaults(offset as int));
        mirror_candidates(id, include_video, priority.as_slice())
    } else {
        mirror_candidates(id, include_video, settings.mirror_priority.as_slice())
    }
}

}
