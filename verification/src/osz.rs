//! The beatmap hashes inside an `.osz` archive, which collections list.
use vstd::prelude::*;
use std::io::Read;
use md5::Digest;
use crate::collection::{merged_hashes, sorted_unique_strings};
use crate::osu_file::{beatmap_id_from_osu_bytes, spec_positive_id_in_lines, utf8_lossy};
use crate::text::{ascii_lower_seq, chars_of, concat_str, has_suffix, lower_ascii, views};

verus! {

#[verifier::external_type_specification]
#[verifier::external_body]
#[verifier::reject_recursive_types(R)]
pub struct ExZipArchive<R>(zip::ZipArchive<R>);

#[verifier::external_type_specification]
#[verifier::external_body]
#[verifier::reject_recursive_types(T)]
pub struct ExCursor<T>(std::io::Cursor<T>);

/// An entry of a zip archive as read: why it cannot be opened, or its name
/// and its content (or why the content cannot be read).
pub type EntryModel = Result<(Seq<char>, Result<Seq<u8>, Seq<char>>), Seq<char>>;

/// The zip archive in `archive`: why the bytes do not open as one (the
/// error's text), or its entries by index.
pub uninterp spec fn zip_entries(archive: Seq<u8>) -> Result<Seq<EntryModel>, Seq<char>>;

/// The bytes an opened archive was read from.
pub uninterp spec fn archive_source(a: zip::ZipArchive<std::io::Cursor<Vec<u8>>>) -> Seq<u8>;

/// The MD5 digest of some bytes in lowercase hexadecimal.
pub uninterp spec fn md5_hex(data: Seq<u8>) -> Seq<char>;

/// The entries of an opened archive.
pub open spec fn entries_of(a: zip::ZipArchive<std::io::Cursor<Vec<u8>>>) -> Seq<EntryModel> {
    zip_entries(archive_source(a))->Ok_0
}

/// `zip::ZipArchive::new` over the bytes. Claimed: it opens exactly the
/// bytes that hold an archive, and an archive it opens is the one in those
/// bytes; otherwise its error is given as text.
#[verifier::external_body]
fn open_archive(bytes: Vec<u8>) -> (r: Result<zip::ZipArchive<std::io::Cursor<Vec<u8>>>, String>)
    ensures
        match zip_entries(bytes@) {
            Ok(_) => r matches Ok(a) && archive_source(a) == bytes@,
            Err(t) => r matches Err(e) && e@ == t,
        },
{
    zip::ZipArchive::new(std::io::Cursor::new(bytes)).map_err(|e| e.to_string())
}

/// `ZipArchive::len`: the number of entries.
#[verifier::external_body]
fn archive_len(a: &zip::ZipArchive<std::io::Cursor<Vec<u8>>>) -> (r: usize)
    requires
        zip_entries(archive_source(*a)) is Ok,
    ensures
        r == entries_of(*a).len(),
{
    a.len()
}

/// `ZipArchive::by_index` and then `ZipFile::name`: the name of entry `i`,
/// or why it cannot be opened (the error's text).
#[verifier::external_body]
fn entry_name(a: &mut zip::ZipArchive<std::io::Cursor<Vec<u8>>>, i: usize) -> (r: Result<String, String>)
    requires
        zip_entries(archive_source(*old(a))) is Ok,
        i < entries_of(*old(a)).len(),
    ensures
        archive_source(*final(a)) == archive_source(*old(a)),
        match entries_of(*old(a))[i as int] {
            Ok(e) => r matches Ok(n) && n@ == e.0,
            Err(t) => r matches Err(m) && m@ == t,
        },
{
    match a.by_index(i) {
        Ok(entry) => Ok(entry.name().to_string()),
        Err(e) => Err(e.to_string()),
    }
}

/// `ZipArchive::by_index` and then `Read::read_to_end`: the content of
/// entry `i` (one that opens), or why it cannot be read (the error's text).
#[verifier::external_body]
fn entry_bytes(a: &mut zip::ZipArchive<std::io::Cursor<Vec<u8>>>, i: usize) -> (r: Result<Vec<u8>, String>)
    requires
        zip_entries(archive_source(*old(a))) is Ok,
        i < entries_of(*old(a)).len(),
        entries_of(*old(a))[i as int] is Ok,
    ensures
        archive_source(*final(a)) == archive_source(*old(a)),
        match entries_of(*old(a))[i as int]->Ok_0.1 {
            Ok(data) => r matches Ok(d) && d@ == data,
            Err(t) => r matches Err(m) && m@ == t,
        },
{
    let mut entry = a.by_index(i).map_err(|e| e.to_string())?;
    let mut bytes = Vec::new();
    entry.read_to_end(&mut bytes).map_err(|e| e.to_string())?;
    Ok(bytes)
}

/// `Md5::digest` formatted with `{:x}`: the MD5 digest of the bytes as 32
/// lowercase hexadecimal digits. The digest is named, not computed here.
#[verifier::external_body]
fn md5_of(data: &[u8]) -> (r: String)
    ensures
        r@ == md5_hex(data@),
        r@.len() == 32,
{
    format!("{:x}", md5::Md5::digest(data))
}

/// The part of an entry name after its last `/`.
pub open spec fn last_component(name: Seq<char>) -> Seq<char>
    decreases name.len(),
{
    if name.len() == 0 {
        name
    } else if name.last() == '/' {
        Seq::empty()
    } else {
        last_component(name.drop_last()).push(name.last())
    }
}

/// An entry that is a beatmap file: its file name ends in `.osu`, in any
/// case.
pub open spec fn is_osu_entry(name: Seq<char>) -> bool {
    has_suffix(ascii_lower_seq(last_component(name)), ".osu"@)
}

/// Whether a beatmap file's content counts: every file when no beatmaps
/// are chosen, else only those whose beatmap id is chosen.
pub open spec fn allowed_content(data: Seq<u8>, allowed: Option<Seq<u64>>) -> bool {
    match allowed {
        None => true,
        Some(ids) => match spec_positive_id_in_lines(utf8_lossy(data), "BeatmapID:"@) {
            Some(id) => ids.contains(id),
            None => false,
        },
    }
}

/// An entry of an `.osz` archive as read: why it could not be opened, or
/// its name and, for a beatmap file, its content or why that could not be
/// read (for other entries the content is not looked at).
pub enum OszEntry {
    Unopened(String),
    File { name: String, content: Result<Vec<u8>, String> },
}

pub open spec fn entry_model(e: OszEntry) -> EntryModel {
    match e {
        OszEntry::Unopened(t) => Err(t@),
        OszEntry::File { name, content } => Ok((name@, match content {
            Ok(d) => Ok(d@),
            Err(t) => Err(t@),
        })),
    }
}

pub open spec fn entry_models(v: Seq<OszEntry>) -> Seq<EntryModel> {
    v.map_values(|e: OszEntry| entry_model(e))
}

/// What reading an archive entry keeps: the content of a beatmap file only.
pub open spec fn read_model(z: EntryModel) -> EntryModel {
    match z {
        Err(t) => Err(t),
        Ok((name, content)) => Ok((name, if is_osu_entry(name) { content } else { Ok(Seq::empty()) })),
    }
}

pub open spec fn read_models(zs: Seq<EntryModel>) -> Seq<EntryModel> {
    zs.map_values(|z: EntryModel| read_model(z))
}

/// The hashes of the chosen beatmap files among entries, in order, or the
/// message for the first entry that cannot be opened or beatmap file that
/// cannot be read.
pub open spec fn entry_hashes(es: Seq<EntryModel>, allowed: Option<Seq<u64>>) -> Result<Seq<Seq<char>>, Seq<char>>
    decreases es.len(),
{
    if es.len() == 0 {
        Ok(Seq::empty())
    } else {
        match entry_hashes(es.drop_last(), allowed) {
            Err(m) => Err(m),
            Ok(prev) => match es.last() {
                Err(t) => Err("读取 osz 条目失败："@ + t),
                Ok((name, content)) => if !is_osu_entry(name) {
                    Ok(prev)
                } else {
                    match content {
                        Err(t) => Err("读取 .osu 谱面失败："@ + t),
                        Ok(data) => if allowed_content(data, allowed) { Ok(prev.push(md5_hex(data))) } else { Ok(prev) },
                    }
                },
            },
        }
    }
}

fn is_osu_entry_exec(name: &str) -> (r: bool)
    ensures
        r == is_osu_entry(name@),
{
    let chars = chars_of(name);
    let mut k = chars.len();
    assert(name@.take(k as int) =~= name@);
    assert(last_component(name@) + name@.skip(k as int) =~= last_component(name@));
    while k > 0 && chars[k - 1] != '/'
        invariant
            k <= chars.len(),
            chars@ == name@,
            last_component(name@) == last_component(name@.take(k as int)) + name@.skip(k as int),
        decreases k,
    {
        proof {
            let t = name@.take(k as int);
            assert(t.drop_last() =~= name@.take(k - 1));
            assert(t.last() == name@[k - 1]);
            assert(last_component(t) == last_component(name@.take(k - 1)).push(name@[k - 1]));
            assert(last_component(name@.take(k - 1)).push(name@[k - 1]) + name@.skip(k as int)
                =~= last_component(name@.take(k - 1)) + name@.skip(k - 1));
        }
        k = k - 1;
    }
    proof {
        assert(last_component(name@.take(k as int)) =~= Seq::<char>::empty()) by {
            if k > 0 {
                assert(name@.take(k as int).last() == '/');
            }
        }
        assert(Seq::<char>::empty() + name@.skip(k as int) =~= name@.skip(k as int));
    }
    let rest = crate::text::slice_to_vec_range(chars.as_slice(), k, chars.len());
    assert(rest@ =~= name@.skip(k as int));
    let low = lower_ascii(rest.as_slice());
    let ext = chars_of(".osu");
    crate::text::ends_with_chars(low.as_slice(), ext.as_slice())
}

fn contains_id(ids: &Vec<u64>, id: u64) -> (r: bool)
    ensures
        r == ids@.contains(id),
{
    let mut i: usize = 0;
    while i < ids.len()
        invariant
            i <= ids.len(),
            forall|j: int| 0 <= j < i ==> ids@[j] != id,
        decreases ids.len() - i,
    {
        if ids[i] == id {
            assert(ids@[i as int] == id);
            return true;
        }
        i = i + 1;
    }
    false
}

fn allowed_exec(data: &[u8], allowed: &Option<Vec<u64>>) -> (r: bool)
    ensures
        r == allowed_content(data@, opt_ids(*allowed)),
{
    match allowed {
        None => true,
        Some(ids) => match beatmap_id_from_osu_bytes(data) {
            Some(id) => contains_id(ids, id),
            None => false,
        },
    }
}

pub open spec fn opt_ids(v: Option<Vec<u64>>) -> Option<Seq<u64>> {
    match v {
        Some(s) => Some(s@),
        None => None,
    }
}

/// The hashes of the chosen beatmap files among entries that were read
/// (see `entry_hashes`), sorted and once each; or the message for the first
/// entry that cannot be opened or beatmap file that cannot be read.
pub fn hashes_of_entries(entries: &Vec<OszEntry>, allowed: &Option<Vec<u64>>) -> (r: Result<Vec<String>, String>)
    ensures
        match entry_hashes(entry_models(entries@), opt_ids(*allowed)) {
            Ok(hs) => r matches Ok(h) && views(h@) == merged_hashes(Seq::empty(), hs),
            Err(m) => r matches Err(e) && e@ == m,
        },
{
    let ghost es = entry_models(entries@);
    let mut hashes: Vec<String> = Vec::new();
    let mut i: usize = 0;
    assert(es.take(0) =~= Seq::<EntryModel>::empty());
    assert(views(hashes@) =~= Seq::<Seq<char>>::empty());
    while i < entries.len()
        invariant
            i <= entries.len(),
            es == entry_models(entries@),
            entry_hashes(es.take(i as int), opt_ids(*allowed)) == Ok::<Seq<Seq<char>>, Seq<char>>(views(hashes@)),
        decreases entries.len() - i,
    {
        proof {
            assert(es.take(i + 1).drop_last() =~= es.take(i as int));
            assert(es.take(i + 1).last() == es[i as int]);
            assert(es[i as int] == entry_model(entries@[i as int]));
        }
        match &entries[i] {
            OszEntry::Unopened(t) => {
                let m = concat_str("读取 osz 条目失败：", t.as_str());
                proof { lemma_entry_fail_prefix(es, opt_ids(*allowed), i as int + 1); }
                return Err(m);
            },
            OszEntry::File { name, content } => {
                if is_osu_entry_exec(name.as_str()) {
                    match content {
                        Err(t) => {
                            let m = concat_str("读取 .osu 谱面失败：", t.as_str());
                            proof { lemma_entry_fail_prefix(es, opt_ids(*allowed), i as int + 1); }
                            return Err(m);
                        },
                        Ok(data) => {
                            if allowed_exec(data.as_slice(), allowed) {
                                let h = md5_of(data.as_slice());
                                let ghost before = hashes@;
                                hashes.push(h);
                                assert(views(hashes@) =~= views(before).push(md5_hex(data@)));
                            }
                        },
                    }
                }
            },
        }
        i = i + 1;
    }
    assert(es.take(entries.len() as int) =~= es);
    Ok(sorted_unique_strings(&hashes))
}

/// The hashes of the beatmap files in an `.osz` archive, sorted and once
/// each; with `allowed`, only the beatmaps it names. Fails with the
/// archive's error when the bytes are no archive, else as
/// `hashes_of_entries` does on the entries as read (see `read_models`).
pub fn beatmap_md5s_from_osz(bytes: Vec<u8>, allowed: Option<Vec<u64>>) -> (r: Result<Vec<String>, String>)
    ensures
        match zip_entries(bytes@) {
            Err(t) => r matches Err(e) && e@ == "读取 osz 失败："@ + t,
            Ok(zs) => match entry_hashes(read_models(zs), opt_ids(allowed)) {
                Ok(hs) => r matches Ok(h) && views(h@) == merged_hashes(Seq::empty(), hs),
                Err(m) => r matches Err(e) && e@ == m,
            },
        },
{
    let ghost src = bytes@;
    let mut archive = match open_archive(bytes) {
        Ok(a) => a,
        Err(e) => return Err(concat_str("读取 osz 失败：", e.as_str())),
    };
    let ghost zs = zip_entries(src)->Ok_0;
    let n = archive_len(&archive);
    let mut entries: Vec<OszEntry> = Vec::new();
    let mut i: usize = 0;
    while i < n
        invariant
            i <= n,
            n == zs.len(),
            src == bytes@,
            zip_entries(src) == Ok::<Seq<EntryModel>, Seq<char>>(zs),
            archive_source(archive) == src,
            entry_models(entries@) == read_models(zs).take(i as int),
        decreases n - i,
    {
        let ghost before = entries@;
        let e = match entry_name(&mut archive, i) {
            Err(t) => OszEntry::Unopened(t),
            Ok(name) => {
                let content = if is_osu_entry_exec(name.as_str()) {
                    entry_bytes(&mut archive, i)
                } else {
                    Ok(Vec::new())
                };
                OszEntry::File { name, content }
            },
        };
        entries.push(e);
        proof {
            assert(entry_model(e) == read_model(zs[i as int]));
            assert(entry_models(entries@) =~= entry_models(before).push(entry_model(e)));
            assert(read_models(zs).take(i + 1) =~= read_models(zs).take(i as int).push(read_model(zs[i as int])));
        }
        i = i + 1;
    }
    assert(read_models(zs).take(n as int) =~= read_models(zs));
    hashes_of_entries(&entries, &allowed)
}

proof fn lemma_entry_fail_prefix(es: Seq<EntryModel>, allowed: Option<Seq<u64>>, k: int)
    requires
        0 <= k <= es.len(),
        entry_hashes(es.take(k), allowed) is Err,
    ensures
        entry_hashes(es, allowed) == entry_hashes(es.take(k), allowed),
    decreases es.len() - k,
{
    if k < es.len() {
        assert(es.take(k + 1).drop_last() =~= es.take(k));
        lemma_entry_fail_prefix(es, allowed, k + 1);
    } else {
        assert(es.take(k) =~= es);
    }
}

}
