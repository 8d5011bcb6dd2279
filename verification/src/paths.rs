//! File paths as text: joining a directory and a name, the last component
//! of a path, and what a scan of the Songs folder makes of an entry.
use vstd::prelude::*;
use crate::osu_file::{leading_number, spec_leading_number};
use crate::text::{ascii_lower_seq, chars_of, has_infix, has_prefix, has_suffix, lower_ascii};

verus! {

/// A name with no path separator or drive colon that is neither `.` nor
/// `..`, which `Path::join` adds as a last component (on a verbatim
/// Windows prefix it drops `.` and `..` components).
pub open spec fn plain_name(name: Seq<char>) -> bool {
    name.len() > 0 && !name.contains('/') && !name.contains('\\') && !name.contains(':')
        && name != seq!['.'] && name != seq!['.', '.']
}

/// `Path::new(dir).join(name)`, as text (lossless: both are UTF-8). Claimed
/// for a plain name (see `plain_name`), from `PathBuf::push`'s
/// documentation: the result is `dir`, then at most one separator, then
/// `name`. Which separator, and whether one is needed, depends on the
/// platform and is not stated.
#[verifier::external_body]
pub(crate) fn join_path(dir: &str, name: &str) -> (r: String)
    ensures
        plain_name(name@) ==> has_prefix(r@, dir@) && has_suffix(r@, name@) && r@.len() <= dir@.len() + 1 + name@.len(),
{
    std::path::Path::new(dir).join(name).to_string_lossy().into_owned()
}

/// `Path::new(path).file_name()` as text: the last component of a path, or
/// `None` (for an empty path, a root, or one ending in `..`). Claimed: a
/// component is a non-empty piece of the path. Where the path is split
/// depends on the platform, so no more is stated.
#[verifier::external_body]
pub(crate) fn path_file_name(path: &str) -> (r: Option<String>)
    ensures
        r matches Some(n) ==> n@.len() > 0 && has_infix(path@, n@),
{
    std::path::Path::new(path).file_name().and_then(|n| n.to_str()).map(|n| n.to_string())
}

/// The index of the last `.` in `s`, or -1.
pub open spec fn last_dot(s: Seq<char>) -> int
    decreases s.len(),
{
    if s.len() == 0 {
        -1
    } else if s.last() == '.' {
        s.len() - 1
    } else {
        last_dot(s.drop_last())
    }
}

/// `Path::extension` of a file name: what follows its last `.`, unless the
/// name has no `.` or only a leading one.
pub open spec fn spec_extension(name: Seq<char>) -> Option<Seq<char>> {
    let k = last_dot(name);
    if k <= 0 { None } else { Some(name.skip(k + 1)) }
}

proof fn lemma_last_dot(s: Seq<char>, k: int)
    requires
        -1 <= k < s.len(),
        k >= 0 ==> s[k] == '.',
        forall|j: int| k < j < s.len() ==> s[j] != '.',
    ensures
        last_dot(s) == k,
    decreases s.len(),
{
    if s.len() > 0 && s.last() != '.' {
        assert forall|j: int| k < j < s.drop_last().len() implies s.drop_last()[j] != '.' by {
            assert(s.drop_last()[j] == s[j]);
        }
        if k >= 0 {
            assert(s.drop_last()[k] == s[k]);
        }
        lemma_last_dot(s.drop_last(), k);
    }
}

/// Whether a file name has the extension `osz`, in any case.
pub open spec fn is_osz_name(name: Seq<char>) -> bool {
    spec_extension(name) matches Some(e) && ascii_lower_seq(e) == "osz"@
}

pub fn has_osz_extension(name: &str) -> (r: bool)
    ensures
        r == is_osz_name(name@),
{
    let chars = chars_of(name);
    let mut k: usize = chars.len();
    while k > 0 && chars[k - 1] != '.'
        invariant
            k <= chars.len(),
            chars@ == name@,
            forall|j: int| k <= j < chars.len() ==> chars@[j] != '.',
        decreases k,
    {
        k = k - 1;
    }
    proof {
        if k == 0 {
            lemma_last_dot(name@, -1);
        } else {
            lemma_last_dot(name@, k - 1);
        }
    }
    if k <= 1 {
        return false;
    }
    let ext = crate::text::slice_to_vec_range(chars.as_slice(), k, chars.len());
    assert(ext@ =~= name@.skip(k as int));
    let lower = lower_ascii(ext.as_slice());
    proof { reveal_strlit("osz"); }
    let res = lower.len() == 3 && lower[0] == 'o' && lower[1] == 's' && lower[2] == 'z';
    proof {
        if res {
            assert(lower@ =~= "osz"@);
        }
    }
    res
}

/// What a scan of the Songs folder makes of one entry.
pub enum SongsEntry {
    /// Nothing: not a beatmapset.
    Skip,
    /// Beatmapset `id`, found as `source` (`osz-file` or `folder`).
    Found(u64, &'static str),
    /// A folder without an id in its name: its `.osu` files are read.
    ScanFolder,
}

/// What a scan makes of an entry named `name`: an `.osz` file whose name
/// starts with an id; a folder whose name starts with one; any other folder
/// is searched.
pub open spec fn spec_classify(name: Seq<char>, is_file: bool, is_dir: bool) -> (u8, Option<u64>) {
    if is_file {
        if is_osz_name(name) && spec_leading_number(name) is Some {
            (1, spec_leading_number(name))
        } else {
            (0, None)
        }
    } else if !is_dir {
        (0, None)
    } else if spec_leading_number(name) is Some {
        (2, spec_leading_number(name))
    } else {
        (3, None)
    }
}

pub open spec fn entry_view(e: SongsEntry) -> (u8, Option<u64>) {
    match e {
        SongsEntry::Skip => (0, None),
        SongsEntry::Found(id, source) => (if source@ == "osz-file"@ { 1u8 } else if source@ == "folder"@ { 2u8 } else { 4u8 }, Some(id)),
        SongsEntry::ScanFolder => (3, None),
    }
}

/// Classifies an entry of the Songs folder (see `spec_classify`).
pub fn classify_songs_entry(name: &str, is_file: bool, is_dir: bool) -> (r: SongsEntry)
    ensures
        entry_view(r) == spec_classify(name@, is_file, is_dir),
{
    proof {
        reveal_strlit("osz-file");
        reveal_strlit("folder");
    }
    if is_file {
        if has_osz_extension(name) {
            if let Some(id) = leading_number(name) {
                return SongsEntry::Found(id, "osz-file");
            }
        }
        return SongsEntry::Skip;
    }
    if !is_dir {
        return SongsEntry::Skip;
    }
    match leading_number(name) {
        Some(id) => {
            proof {
                reveal_strlit("folder");
                reveal_strlit("osz-file");
                assert("folder"@.len() != "osz-file"@.len());
            }
            SongsEntry::Found(id, "folder")
        },
        None => SongsEntry::ScanFolder,
    }
}


/// A path with each backslash turned into a slash.
pub open spec fn forward_slashes(s: Seq<char>) -> Seq<char> {
    s.map_values(|c: char| if c == '\\' { '/' } else { c })
}

/// Whether Android's Songs folder setting must move to the app's own
/// folder: when it is empty, inside `/data/`, or outside the app's
/// external files folder.
pub open spec fn spec_should_migrate(value: Seq<char>) -> bool {
    let n = forward_slashes(value);
    n.len() == 0 || has_prefix(n, "/data/"@) || !has_infix(n, "/Android/data/com.linnzero00.osubeatmapseekman/files/"@)
}

pub fn should_migrate_android_songs_dir(value: &str) -> (r: bool)
    ensures
        r == spec_should_migrate(value@),
{
    let chars = chars_of(value);
    let mut n: Vec<char> = Vec::new();
    let mut i: usize = 0;
    while i < chars.len()
        invariant
            i <= chars.len(),
            chars@ == value@,
            n@ == forward_slashes(value@.take(i as int)),
        decreases chars.len() - i,
    {
        n.push(if chars[i] == '\\' { '/' } else { chars[i] });
        assert(n@ =~= forward_slashes(value@.take(i + 1)));
        i = i + 1;
    }
    assert(value@.take(chars.len() as int) =~= value@);
    let data = chars_of("/data/");
    let own = chars_of("/Android/data/com.linnzero00.osubeatmapseekman/files/");
    n.len() == 0 || crate::text::starts_with_chars(n.as_slice(), data.as_slice()) || !crate::text::contains_chars(n.as_slice(), own.as_slice())
}

}
