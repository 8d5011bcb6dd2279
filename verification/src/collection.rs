//! osu!stable's `collection.db`: a version, then named lists of beatmap MD5
//! hashes.  Parsing, serialising and adding hashes to a list.
use vstd::prelude::*;
use vstd::utf8::*;
use crate::binary::{
    lemma_read_i32_at, lemma_read_osu_string_at, pow128, i32_bytes, osu_string_bytes, read_agrees, read_i32, read_osu_string,
    spec_read_i32, spec_read_osu_string, write_i32, write_osu_string, DbError,
};
use crate::text::{chars_le_fn, lemma_chars_le_total_ordering, sort_strings, views};

verus! {

/// A list of `collection.db` as values.
pub struct ListModel {
    pub name: Seq<char>,
    pub hashes: Seq<Seq<char>>,
}

/// The contents of `collection.db` as values.
pub struct CollectionModel {
    pub version: i32,
    pub lists: Seq<ListModel>,
}

/// One named list of beatmap hashes.
pub struct StableCollectionList {
    pub name: String,
    pub hashes: Vec<String>,
}

/// The contents of `collection.db`.
pub struct StableCollection {
    pub version: i32,
    pub lists: Vec<StableCollectionList>,
}

impl View for StableCollectionList {
    type V = ListModel;

    open spec fn view(&self) -> ListModel {
        ListModel { name: self.name@, hashes: views(self.hashes@) }
    }
}

pub open spec fn list_views(lists: Seq<StableCollectionList>) -> Seq<ListModel> {
    lists.map_values(|l: StableCollectionList| l@)
}

impl View for StableCollection {
    type V = CollectionModel;

    open spec fn view(&self) -> CollectionModel {
        CollectionModel { version: self.version, lists: list_views(self.lists@) }
    }
}

/// A count read from the file; a negative count is taken as zero.
pub open spec fn count_of(c: i32) -> nat {
    if c < 0 {
        0
    } else {
        c as nat
    }
}

/// `n` strings, one after the other.
pub open spec fn spec_read_strings(s: Seq<u8>, pos: int, n: nat) -> Result<(Seq<Seq<char>>, int), DbError>
    decreases n,
{
    if n == 0 {
        Ok((Seq::empty(), pos))
    } else {
        match spec_read_osu_string(s, pos) {
            Err(e) => Err(e),
            Ok((h, p)) => match spec_read_strings(s, p, (n - 1) as nat) {
                Err(e) => Err(e),
                Ok((rest, q)) => Ok((seq![h] + rest, q)),
            },
        }
    }
}

/// A list: its name, the count of its hashes and the hashes.
pub open spec fn spec_read_list(s: Seq<u8>, pos: int) -> Result<(ListModel, int), DbError> {
    match spec_read_osu_string(s, pos) {
        Err(e) => Err(e),
        Ok((name, p)) => match spec_read_i32(s, p) {
            Err(e) => Err(e),
            Ok((c, q)) => match spec_read_strings(s, q, count_of(c)) {
                Err(e) => Err(e),
                Ok((hashes, r)) => Ok((ListModel { name, hashes }, r)),
            },
        },
    }
}

/// `n` lists, one after the other.
pub open spec fn spec_read_lists(s: Seq<u8>, pos: int, n: nat) -> Result<(Seq<ListModel>, int), DbError>
    decreases n,
{
    if n == 0 {
        Ok((Seq::empty(), pos))
    } else {
        match spec_read_list(s, pos) {
            Err(e) => Err(e),
            Ok((l, p)) => match spec_read_lists(s, p, (n - 1) as nat) {
                Err(e) => Err(e),
                Ok((rest, q)) => Ok((seq![l] + rest, q)),
            },
        }
    }
}

/// The file: the version, the count of lists and the lists.  Bytes after the
/// last list are ignored.
pub open spec fn spec_collection(s: Seq<u8>) -> Result<CollectionModel, DbError> {
    match spec_read_i32(s, 0) {
        Err(e) => Err(e),
        Ok((version, p)) => match spec_read_i32(s, p) {
            Err(e) => Err(e),
            Ok((c, q)) => match spec_read_lists(s, q, count_of(c)) {
                Err(e) => Err(e),
                Ok((lists, _)) => Ok(CollectionModel { version, lists }),
            },
        },
    }
}

pub open spec fn strings_bytes(hs: Seq<Seq<char>>) -> Seq<u8> {
    hs.map_values(|h: Seq<char>| osu_string_bytes(h)).flatten()
}

pub open spec fn list_bytes(l: ListModel) -> Seq<u8> {
    osu_string_bytes(l.name) + i32_bytes(l.hashes.len() as i32) + strings_bytes(l.hashes)
}

pub open spec fn lists_bytes(ls: Seq<ListModel>) -> Seq<u8> {
    ls.map_values(|l: ListModel| list_bytes(l)).flatten()
}

/// The bytes that `collection.db` holds for a collection.
pub open spec fn collection_bytes(c: CollectionModel) -> Seq<u8> {
    i32_bytes(c.version) + i32_bytes(c.lists.len() as i32) + lists_bytes(c.lists)
}

/// An executable read of strings agrees with its specification.
pub open spec fn strings_agree(
    res: Result<Vec<String>, DbError>,
    end: int,
    expected: Result<(Seq<Seq<char>>, int), DbError>,
) -> bool {
    match expected {
        Ok((v, p)) => res matches Ok(x) && views(x@) == v && end == p,
        Err(e) => res matches Err(e2) && e2 == e,
    }
}

/// The collection that stands for a missing `collection.db`.
pub fn empty_collection() -> (c: StableCollection)
    ensures
        c@.version == 20260412,
        c@.lists.len() == 0,
{
    StableCollection { version: 20260412, lists: Vec::new() }
}

pub(crate) fn read_strings(bytes: &[u8], pos: &mut usize, n: usize) -> (res: Result<Vec<String>, DbError>)
    ensures
        strings_agree(res, *final(pos) as int, spec_read_strings(bytes@, *old(pos) as int, n as nat)),
{
    let ghost s = bytes@;
    let ghost start = *pos as int;
    let mut out: Vec<String> = Vec::new();
    let mut i: usize = 0;
    while i < n
        invariant
            i <= n,
            s == bytes@,
            start == *old(pos) as int,
            spec_read_strings(s, start, n as nat) == match spec_read_strings(s, *pos as int, (n - i) as nat) {
                Ok((rest, q)) => Ok((views(out@) + rest, q)),
                Err(e) => Err::<(Seq<Seq<char>>, int), DbError>(e),
            },
        decreases n - i,
    {
        let ghost p0 = *pos as int;
        let h = match read_osu_string(bytes, pos) {
            Ok(h) => h,
            Err(e) => {
                return Err(e);
            },
        };
        proof {
            let ghost old_views = views(out@);
            match spec_read_strings(s, *pos as int, (n - i - 1) as nat) {
                Ok((rest, q)) => {
                    assert(old_views + (seq![h@] + rest) =~= old_views.push(h@) + rest);
                },
                Err(e) => {},
            }
        }
        let ghost before = out@;
        out.push(h);
        proof {
            assert(views(out@) =~= views(before).push(h@));
        }
        i = i + 1;
    }
    proof {
        assert(spec_read_strings(s, *pos as int, 0) == Ok::<(Seq<Seq<char>>, int), DbError>((Seq::empty(), *pos as int)));
        assert(views(out@) + Seq::<Seq<char>>::empty() =~= views(out@));
    }
    Ok(out)
}


fn count_from(c: i32) -> (n: usize)
    ensures
        n as nat == count_of(c),
{
    if c < 0 {
        0
    } else {
        c as usize
    }
}

fn read_list(bytes: &[u8], pos: &mut usize) -> (res: Result<StableCollectionList, DbError>)
    ensures
        read_agrees(res, *final(pos) as int, spec_read_list(bytes@, *old(pos) as int)),
{
    let name = read_osu_string(bytes, pos)?;
    let count = read_i32(bytes, pos)?;
    let hashes = read_strings(bytes, pos, count_from(count))?;
    Ok(StableCollectionList { name, hashes })
}

fn read_lists(bytes: &[u8], pos: &mut usize, n: usize) -> (res: Result<Vec<StableCollectionList>, DbError>)
    ensures
        match spec_read_lists(bytes@, *old(pos) as int, n as nat) {
            Ok((v, p)) => res matches Ok(x) && list_views(x@) == v && *final(pos) == p,
            Err(e) => res matches Err(e2) && e2 == e,
        },
{
    let ghost s = bytes@;
    let ghost start = *pos as int;
    let mut out: Vec<StableCollectionList> = Vec::new();
    let mut i: usize = 0;
    while i < n
        invariant
            i <= n,
            s == bytes@,
            start == *old(pos) as int,
            spec_read_lists(s, start, n as nat) == match spec_read_lists(s, *pos as int, (n - i) as nat) {
                Ok((rest, q)) => Ok((list_views(out@) + rest, q)),
                Err(e) => Err::<(Seq<ListModel>, int), DbError>(e),
            },
        decreases n - i,
    {
        let l = match read_list(bytes, pos) {
            Ok(l) => l,
            Err(e) => {
                return Err(e);
            },
        };
        proof {
            let ghost old_views = list_views(out@);
            match spec_read_lists(s, *pos as int, (n - i - 1) as nat) {
                Ok((rest, q)) => {
                    assert(old_views + (seq![l@] + rest) =~= old_views.push(l@) + rest);
                },
                Err(e) => {},
            }
        }
        let ghost before = out@;
        out.push(l);
        proof {
            assert(list_views(out@) =~= list_views(before).push(l@));
        }
        i = i + 1;
    }
    proof {
        assert(list_views(out@) + Seq::<ListModel>::empty() =~= list_views(out@));
    }
    Ok(out)
}

/// Parses the bytes of `collection.db`.
pub fn parse_collection_db(bytes: &[u8]) -> (res: Result<StableCollection, DbError>)
    ensures
        match spec_collection(bytes@) {
            Ok(m) => res matches Ok(c) && c@ == m,
            Err(e) => res matches Err(e2) && e2 == e,
        },
{
    let mut pos: usize = 0;
    let version = read_i32(bytes, &mut pos)?;
    let count = read_i32(bytes, &mut pos)?;
    let lists = read_lists(bytes, &mut pos, count_from(count))?;
    Ok(StableCollection { version, lists })
}

fn write_strings(bytes: &mut Vec<u8>, hashes: &Vec<String>)
    ensures
        final(bytes)@ == old(bytes)@ + strings_bytes(views(hashes@)),
{
    let ghost start = bytes@;
    let mut i: usize = 0;
    while i < hashes.len()
        invariant
            i <= hashes.len(),
            start == old(bytes)@,
            bytes@ == start + strings_bytes(views(hashes@.take(i as int))),
        decreases hashes.len() - i,
    {
        let ghost before = bytes@;
        write_osu_string(bytes, hashes[i].as_str());
        proof {
            let hv = views(hashes@.take(i as int));
            let f = |h: Seq<char>| osu_string_bytes(h);
            assert(views(hashes@.take(i + 1)) =~= hv.push(hashes@[i as int]@));
            assert(hv.push(hashes@[i as int]@).map_values(f) =~= hv.map_values(f).push(osu_string_bytes(hashes@[i as int]@)));
            hv.map_values(f).lemma_flatten_push(osu_string_bytes(hashes@[i as int]@));
        }
        i = i + 1;
    }
    assert(hashes@.take(hashes.len() as int) == hashes@);
}

/// The bytes of `collection.db` for a collection: the version, the count of
/// lists, then each list's name, count of hashes and hashes.
pub fn collection_db_bytes(collection: &StableCollection) -> (bytes: Vec<u8>)
    ensures
        bytes@ == collection_bytes(collection@),
{
    let mut bytes: Vec<u8> = Vec::new();
    write_i32(&mut bytes, collection.version);
    write_i32(&mut bytes, collection.lists.len() as i32);
    let ghost head = bytes@;
    let mut i: usize = 0;
    while i < collection.lists.len()
        invariant
            i <= collection.lists.len(),
            bytes@ == head + lists_bytes(list_views(collection.lists@.take(i as int))),
        decreases collection.lists.len() - i,
    {
        let list = &collection.lists[i];
        let ghost before = bytes@;
        write_osu_string(&mut bytes, list.name.as_str());
        write_i32(&mut bytes, list.hashes.len() as i32);
        write_strings(&mut bytes, &list.hashes);
        proof {
            let lv = list_views(collection.lists@.take(i as int));
            let f = |l: ListModel| list_bytes(l);
            assert(list_views(collection.lists@.take(i + 1)) =~= lv.push(list@));
            assert(lv.push(list@).map_values(f) =~= lv.map_values(f).push(list_bytes(list@)));
            lv.map_values(f).lemma_flatten_push(list_bytes(list@));
            assert(bytes@ =~= before + list_bytes(list@));
        }
        i = i + 1;
    }
    assert(collection.lists@.take(collection.lists.len() as int) == collection.lists@);
    assert(head =~= i32_bytes(collection.version) + i32_bytes(collection.lists.len() as i32));
    bytes
}


/// Every string of the model has a UTF-8 encoding shorter than `128^5` bytes.
pub open spec fn strings_fit(hs: Seq<Seq<char>>) -> bool {
    forall|i: int| 0 <= i < hs.len() ==> encode_utf8(#[trigger] hs[i]).len() < pow128(5)
}

/// A list can be written and read back: its name and hashes fit the string
/// length limit and the count of hashes fits an `i32`.
pub open spec fn list_fits(l: ListModel) -> bool {
    &&& encode_utf8(l.name).len() < pow128(5)
    &&& strings_fit(l.hashes)
    &&& l.hashes.len() <= i32::MAX
}

/// A collection can be written and read back.
pub open spec fn collection_fits(c: CollectionModel) -> bool {
    &&& c.lists.len() <= i32::MAX
    &&& forall|i: int| 0 <= i < c.lists.len() ==> list_fits(#[trigger] c.lists[i])
}

/// A piece of `w` that stands at `pos` in `s` stands at `pos + off`.
proof fn lemma_piece(s: Seq<u8>, pos: int, w: Seq<u8>, off: int, part: Seq<u8>)
    requires
        0 <= pos,
        pos + w.len() <= s.len(),
        s.subrange(pos, pos + w.len()) == w,
        0 <= off,
        off + part.len() <= w.len(),
        w.subrange(off, off + part.len()) == part,
    ensures
        s.subrange(pos + off, pos + off + part.len()) == part,
{
    assert forall|k: int| 0 <= k < part.len() implies s.subrange(pos + off, pos + off + part.len())[k]
        == part[k] by {
        assert(s.subrange(pos, pos + w.len())[off + k] == w[off + k]);
        assert(w.subrange(off, off + part.len())[k] == w[off + k]);
    }
    assert(s.subrange(pos + off, pos + off + part.len()) =~= part);
}

proof fn lemma_read_strings_at(hs: Seq<Seq<char>>, s: Seq<u8>, pos: int)
    requires
        strings_fit(hs),
        0 <= pos,
        pos + strings_bytes(hs).len() <= s.len(),
        s.subrange(pos, pos + strings_bytes(hs).len()) == strings_bytes(hs),
    ensures
        spec_read_strings(s, pos, hs.len())
            == Ok::<(Seq<Seq<char>>, int), DbError>((hs, pos + strings_bytes(hs).len())),
    decreases hs.len(),
{
    if hs.len() > 0 {
        let f = |h: Seq<char>| osu_string_bytes(h);
        let first = osu_string_bytes(hs[0]);
        let rest = hs.drop_first();
        let w = strings_bytes(hs);
        assert(hs.map_values(f).drop_first() =~= rest.map_values(f));
        assert(w == first + strings_bytes(rest));
        assert(w.subrange(0, first.len() as int) =~= first);
        lemma_piece(s, pos, w, 0, first);
        lemma_read_osu_string_at(hs[0], s, pos);
        let p = pos + first.len();
        assert(w.subrange(first.len() as int, first.len() as int + strings_bytes(rest).len() as int) =~= strings_bytes(rest));
        lemma_piece(s, pos, w, first.len() as int, strings_bytes(rest));
        assert(strings_fit(rest)) by {
            assert forall|i: int| 0 <= i < rest.len() implies encode_utf8(#[trigger] rest[i]).len() < pow128(5) by {
                assert(rest[i] == hs[i + 1]);
            }
        }
        lemma_read_strings_at(rest, s, p);
        assert(seq![hs[0]] + rest =~= hs);
    } else {
        assert(hs =~= Seq::<Seq<char>>::empty());
    }
}

proof fn lemma_read_list_at(l: ListModel, s: Seq<u8>, pos: int)
    requires
        list_fits(l),
        0 <= pos,
        pos + list_bytes(l).len() <= s.len(),
        s.subrange(pos, pos + list_bytes(l).len()) == list_bytes(l),
    ensures
        spec_read_list(s, pos) == Ok::<(ListModel, int), DbError>((l, pos + list_bytes(l).len())),
{
    let a = osu_string_bytes(l.name);
    let b = i32_bytes(l.hashes.len() as i32);
    let c = strings_bytes(l.hashes);
    let w = list_bytes(l);
    assert(w.subrange(0, a.len() as int) =~= a);
    lemma_piece(s, pos, w, 0, a);
    lemma_read_osu_string_at(l.name, s, pos);
    let p = pos + a.len();
    assert(w.subrange(a.len() as int, a.len() as int + b.len() as int) =~= b);
    lemma_piece(s, pos, w, a.len() as int, b);
    lemma_read_i32_at(l.hashes.len() as i32, s, p);
    assert(count_of(l.hashes.len() as i32) == l.hashes.len());
    let q = p + 4;
    assert(w.subrange(a.len() as int + b.len() as int, a.len() as int + b.len() as int + c.len() as int) =~= c);
    lemma_piece(s, pos, w, a.len() as int + b.len() as int, c);
    lemma_read_strings_at(l.hashes, s, q);
}

proof fn lemma_read_lists_at(ls: Seq<ListModel>, s: Seq<u8>, pos: int)
    requires
        forall|i: int| 0 <= i < ls.len() ==> list_fits(#[trigger] ls[i]),
        0 <= pos,
        pos + lists_bytes(ls).len() <= s.len(),
        s.subrange(pos, pos + lists_bytes(ls).len()) == lists_bytes(ls),
    ensures
        spec_read_lists(s, pos, ls.len())
            == Ok::<(Seq<ListModel>, int), DbError>((ls, pos + lists_bytes(ls).len())),
    decreases ls.len(),
{
    if ls.len() > 0 {
        let f = |l: ListModel| list_bytes(l);
        let first = list_bytes(ls[0]);
        let rest = ls.drop_first();
        let w = lists_bytes(ls);
        assert(ls.map_values(f).drop_first() =~= rest.map_values(f));
        assert(w == first + lists_bytes(rest));
        assert(w.subrange(0, first.len() as int) =~= first);
        lemma_piece(s, pos, w, 0, first);
        assert(list_fits(ls[0]));
        lemma_read_list_at(ls[0], s, pos);
        let p = pos + first.len();
        assert(w.subrange(first.len() as int, first.len() as int + lists_bytes(rest).len() as int) =~= lists_bytes(rest));
        lemma_piece(s, pos, w, first.len() as int, lists_bytes(rest));
        assert forall|i: int| 0 <= i < rest.len() implies list_fits(#[trigger] rest[i]) by {
            assert(rest[i] == ls[i + 1]);
        }
        lemma_read_lists_at(rest, s, p);
        assert(seq![ls[0]] + rest =~= ls);
    } else {
        assert(ls =~= Seq::<ListModel>::empty());
    }
}

/// Law: the bytes written for a collection parse back to the same
/// collection, whatever follows them, when every count fits an `i32` and
/// every string fits the length limit of five ULEB128 bytes.
pub proof fn law_collection_roundtrip(c: CollectionModel, tail: Seq<u8>)
    requires
        collection_fits(c),
    ensures
        spec_collection(collection_bytes(c) + tail) == Ok::<CollectionModel, DbError>(c),
{
    let s = collection_bytes(c) + tail;
    let w = collection_bytes(c);
    assert(s.subrange(0, 4) =~= i32_bytes(c.version));
    lemma_read_i32_at(c.version, s, 0);
    assert(s.subrange(4, 8) =~= i32_bytes(c.lists.len() as i32));
    lemma_read_i32_at(c.lists.len() as i32, s, 4);
    assert(count_of(c.lists.len() as i32) == c.lists.len());
    assert(s.subrange(8, 8 + lists_bytes(c.lists).len() as int) =~= lists_bytes(c.lists));
    lemma_read_lists_at(c.lists, s, 8);
}


/// The index of the first list named `name`, or the count of lists when
/// there is none (where a new list is added).
pub open spec fn list_position(lists: Seq<ListModel>, name: Seq<char>) -> int
    decreases lists.len(),
{
    if lists.len() == 0 {
        0
    } else if lists[0].name == name {
        0
    } else {
        1 + list_position(lists.drop_first(), name)
    }
}

/// `existing` with each of `added` appended, in order, unless the list
/// already holds it.
pub open spec fn with_added(existing: Seq<Seq<char>>, added: Seq<Seq<char>>) -> Seq<Seq<char>>
    decreases added.len(),
{
    if added.len() == 0 {
        existing
    } else {
        let base = with_added(existing, added.drop_last());
        if base.contains(added.last()) {
            base
        } else {
            base.push(added.last())
        }
    }
}

/// The hashes of the list after adding: the hashes it had and the new ones
/// it lacked, sorted.
pub open spec fn merged_hashes(existing: Seq<Seq<char>>, added: Seq<Seq<char>>) -> Seq<Seq<char>> {
    with_added(existing, added).sort_by(chars_le_fn())
}

/// The collection after adding `added` to the list named `name`: the first
/// list of that name, or a new list at the end when there is none.
pub open spec fn spec_add_hashes(c: CollectionModel, name: Seq<char>, added: Seq<Seq<char>>) -> CollectionModel {
    let i = list_position(c.lists, name);
    if i < c.lists.len() {
        CollectionModel {
            version: c.version,
            lists: c.lists.update(i, ListModel {
                name: c.lists[i].name,
                hashes: merged_hashes(c.lists[i].hashes, added),
            }),
        }
    } else {
        CollectionModel {
            version: c.version,
            lists: c.lists.push(ListModel { name, hashes: merged_hashes(Seq::empty(), added) }),
        }
    }
}

proof fn lemma_list_position(lists: Seq<ListModel>, name: Seq<char>, i: int)
    requires
        0 <= i <= lists.len(),
        forall|k: int| 0 <= k < i ==> (#[trigger] lists[k]).name != name,
        i == lists.len() || lists[i].name == name,
    ensures
        list_position(lists, name) == i,
    decreases lists.len(),
{
    if lists.len() > 0 && i > 0 {
        assert forall|k: int| 0 <= k < i - 1 implies (#[trigger] lists.drop_first()[k]).name != name by {
            assert(lists.drop_first()[k] == lists[k + 1]);
        }
        lemma_list_position(lists.drop_first(), name, i - 1);
    }
}

/// `list_position` is `i` when no list before `i` is named `name` and the
/// list at `i` is (or `i` is the count of lists).
pub proof fn lemma_list_position_public(lists: Seq<ListModel>, name: Seq<char>, i: int)
    requires
        0 <= i <= lists.len(),
        forall|k: int| 0 <= k < i ==> (#[trigger] lists[k]).name != name,
        i == lists.len() || lists[i].name == name,
    ensures
        list_position(lists, name) == i,
{
    lemma_list_position(lists, name, i);
}

fn contains_string(v: &Vec<String>, x: &String) -> (r: bool)
    ensures
        r == views(v@).contains(x@),
{
    let mut i: usize = 0;
    while i < v.len()
        invariant
            i <= v.len(),
            forall|k: int| 0 <= k < i ==> v@[k]@ != x@,
        decreases v.len() - i,
    {
        if v[i] == *x {
            assert(views(v@)[i as int] == x@);
            return true;
        }
        i = i + 1;
    }
    proof {
        if views(v@).contains(x@) {
            let k = choose|k: int| 0 <= k < views(v@).len() && views(v@)[k] == x@;
            assert(v@[k]@ == x@);
        }
    }
    false
}

/// Strings sorted and each kept once (`sort` then `dedup`).
pub fn sorted_unique_strings(v: &Vec<String>) -> (r: Vec<String>)
    ensures
        views(r@) == merged_hashes(Seq::empty(), views(v@)),
{
    let mut current: Vec<String> = Vec::new();
    let mut i: usize = 0;
    assert(views(current@) =~= Seq::<Seq<char>>::empty());
    assert(views(v@).take(0) =~= Seq::<Seq<char>>::empty());
    while i < v.len()
        invariant
            i <= v.len(),
            views(current@) == with_added(Seq::empty(), views(v@).take(i as int)),
        decreases v.len() - i,
    {
        let h = v[i].clone();
        let ghost added = views(v@).take(i + 1);
        assert(added.drop_last() =~= views(v@).take(i as int));
        assert(added.last() == h@);
        if !contains_string(&current, &h) {
            let ghost before = current@;
            current.push(h);
            assert(views(current@) =~= views(before).push(added.last()));
        }
        i = i + 1;
    }
    assert(views(v@).take(v.len() as int) =~= views(v@));
    sort_strings(current)
}

/// Adds beatmap hashes to the list named `collection_name`, creating the
/// list at the end when there is none: hashes the list lacks are appended,
/// and the list is then sorted.
pub fn add_hashes_to_collection(collection: &mut StableCollection, collection_name: &str, hashes: Vec<String>)
    ensures
        final(collection)@ == spec_add_hashes(old(collection)@, collection_name@, views(hashes@)),
{
    let name: String = collection_name.to_owned();
    let ghost lists0 = list_views(collection.lists@);
    let mut index: usize = 0;
    while index < collection.lists.len() && !(collection.lists[index].name == name)
        invariant
            index <= collection.lists.len(),
            forall|k: int| 0 <= k < index ==> (#[trigger] collection.lists@[k])@.name != name@,
        decreases collection.lists.len() - index,
    {
        index = index + 1;
    }
    proof {
        assert forall|k: int| 0 <= k < index implies (#[trigger] lists0[k]).name != name@ by {
            assert(lists0[k] == collection.lists@[k]@);
        }
        lemma_list_position(lists0, name@, index as int);
    }
    let mut current: Vec<String> = if index < collection.lists.len() {
        let copy = collection.lists[index].hashes.clone();
        proof {
            assert forall|k: int| 0 <= k < copy.len() implies copy@[k] == collection.lists@[index as int].hashes@[k] by {
                assert(vstd::pervasive::cloned::<String>(collection.lists@[index as int].hashes@[k], copy@[k]));
            }
            assert(views(copy@) =~= views(collection.lists@[index as int].hashes@));
        }
        copy
    } else {
        let empty: Vec<String> = Vec::new();
        assert(views(empty@) =~= Seq::<Seq<char>>::empty());
        empty
    };
    let ghost existing = views(current@);
    let mut i: usize = 0;
    while i < hashes.len()
        invariant
            i <= hashes.len(),
            views(current@) == with_added(existing, views(hashes@).take(i as int)),
        decreases hashes.len() - i,
    {
        let h = hashes[i].clone();
        let ghost added = views(hashes@).take(i + 1);
        assert(added.drop_last() =~= views(hashes@).take(i as int));
        assert(added.last() == h@);
        if !contains_string(&current, &h) {
            let ghost before = current@;
            current.push(h);
            assert(views(current@) =~= views(before).push(added.last()));
        }
        i = i + 1;
    }
    assert(views(hashes@).take(hashes.len() as int) =~= views(hashes@));
    let sorted = sort_strings(current);
    let ghost lists_before = collection.lists@;
    if index < collection.lists.len() {
        let list_name = collection.lists[index].name.clone();
        collection.lists[index] = StableCollectionList { name: list_name, hashes: sorted };
        proof {
            assert(list_views(collection.lists@) =~= lists0.update(index as int, ListModel {
                name: lists0[index as int].name,
                hashes: merged_hashes(lists0[index as int].hashes, views(hashes@)),
            }));
        }
    } else {
        collection.lists.push(StableCollectionList { name, hashes: sorted });
        proof {
            assert(list_views(collection.lists@) =~= lists0.push(ListModel {
                name: collection_name@,
                hashes: merged_hashes(Seq::empty(), views(hashes@)),
            }));
        }
    }
}


proof fn lemma_with_added_contains(ex: Seq<Seq<char>>, added: Seq<Seq<char>>, x: Seq<char>)
    ensures
        with_added(ex, added).contains(x) <==> (ex.contains(x) || added.contains(x)),
    decreases added.len(),
{
    if added.len() > 0 {
        lemma_with_added_contains(ex, added.drop_last(), x);
        let base = with_added(ex, added.drop_last());
        if added.drop_last().contains(x) {
            let k = choose|k: int| 0 <= k < added.drop_last().len() && added.drop_last()[k] == x;
            assert(added[k] == x);
        }
        if added.contains(x) && !added.drop_last().contains(x) {
            let k = choose|k: int| 0 <= k < added.len() && added[k] == x;
            if k < added.len() - 1 {
                assert(added.drop_last()[k] == x);
            }
            assert(added.last() == x);
        }
        if !base.contains(added.last()) {
            if base.push(added.last()).contains(x) && !base.contains(x) {
                let k = choose|k: int| 0 <= k < base.push(added.last()).len() && base.push(added.last())[k] == x;
                assert(k == base.len());
            }
            if base.contains(x) {
                let k = choose|k: int| 0 <= k < base.len() && base[k] == x;
                assert(base.push(added.last())[k] == x);
            }
            if added.last() == x {
                assert(base.push(added.last())[base.len() as int] == x);
            }
        }
    }
}

proof fn lemma_sort_contains(v: Seq<Seq<char>>, x: Seq<char>)
    ensures
        v.sort_by(chars_le_fn()).contains(x) <==> v.contains(x),
{
    lemma_chars_le_total_ordering();
    v.lemma_sort_by_ensures(chars_le_fn());
    broadcast use vstd::seq_lib::to_multiset_contains;
    assert(v.to_multiset().contains(x) <==> v.contains(x));
    assert(v.sort_by(chars_le_fn()).to_multiset().contains(x) <==> v.sort_by(chars_le_fn()).contains(x));
}

/// Law: after adding hashes to a list, the list holds exactly the hashes it
/// held and the hashes added, in sorted order.
pub proof fn law_add_hashes_members(c: CollectionModel, name: Seq<char>, added: Seq<Seq<char>>, x: Seq<char>)
    ensures
        ({
            let r = spec_add_hashes(c, name, added);
            let i = list_position(c.lists, name);
            let before = if i < c.lists.len() { c.lists[i].hashes } else { Seq::empty() };
            &&& list_position(r.lists, name) == i
            &&& r.lists[i].name == name
            &&& (r.lists[i].hashes.contains(x) <==> (before.contains(x) || added.contains(x)))
            &&& vstd::relations::sorted_by(r.lists[i].hashes, chars_le_fn())
            &&& r.lists.len() == if i < c.lists.len() { c.lists.len() } else { c.lists.len() + 1 }
            &&& forall|k: int| 0 <= k < c.lists.len() && k != i ==> r.lists[k] == c.lists[k]
        }),
{
    let r = spec_add_hashes(c, name, added);
    let i = list_position(c.lists, name);
    let before = if i < c.lists.len() { c.lists[i].hashes } else { Seq::empty() };
    lemma_list_position_props(c.lists, name);
    lemma_with_added_contains(before, added, x);
    lemma_sort_contains(with_added(before, added), x);
    lemma_chars_le_total_ordering();
    with_added(before, added).lemma_sort_by_ensures(chars_le_fn());
    assert forall|k: int| 0 <= k < i implies (#[trigger] r.lists[k]).name != name by {
        assert(r.lists[k] == c.lists[k]);
    }
    lemma_list_position(r.lists, name, i);
}

proof fn lemma_list_position_props(lists: Seq<ListModel>, name: Seq<char>)
    ensures
        0 <= list_position(lists, name) <= lists.len(),
        list_position(lists, name) < lists.len() ==> lists[list_position(lists, name)].name == name,
        forall|k: int| 0 <= k < list_position(lists, name) ==> (#[trigger] lists[k]).name != name,
    decreases lists.len(),
{
    if lists.len() > 0 && lists[0].name != name {
        lemma_list_position_props(lists.drop_first(), name);
        assert forall|k: int| 0 <= k < list_position(lists, name) implies (#[trigger] lists[k]).name != name by {
            if k > 0 {
                assert(lists[k] == lists.drop_first()[k - 1]);
            }
        }
    }
}

proof fn lemma_with_added_noop(ex: Seq<Seq<char>>, added: Seq<Seq<char>>)
    requires
        forall|x: Seq<char>| added.contains(x) ==> ex.contains(x),
    ensures
        with_added(ex, added) == ex,
    decreases added.len(),
{
    if added.len() > 0 {
        assert forall|x: Seq<char>| added.drop_last().contains(x) implies ex.contains(x) by {
            let k = choose|k: int| 0 <= k < added.drop_last().len() && added.drop_last()[k] == x;
            assert(added[k] == x);
        }
        lemma_with_added_noop(ex, added.drop_last());
        assert(added.contains(added.last()));
    }
}

/// Law: adding the same hashes to the same list twice leaves the collection
/// as adding them once.
pub proof fn law_add_hashes_idempotent(c: CollectionModel, name: Seq<char>, added: Seq<Seq<char>>)
    ensures
        spec_add_hashes(spec_add_hashes(c, name, added), name, added) == spec_add_hashes(c, name, added),
{
    let r = spec_add_hashes(c, name, added);
    let i = list_position(c.lists, name);
    lemma_list_position_props(c.lists, name);
    assert forall|x: Seq<char>| #![auto] true implies (list_position(r.lists, name) == i
        && (r.lists[i].hashes.contains(x) <==> ((if i < c.lists.len() { c.lists[i].hashes } else { Seq::empty() }).contains(x) || added.contains(x)))) by {
        law_add_hashes_members(c, name, added, x);
    }
    law_add_hashes_members(c, name, added, Seq::empty());
    let sorted = r.lists[i].hashes;
    assert forall|x: Seq<char>| added.contains(x) implies sorted.contains(x) by {
        law_add_hashes_members(c, name, added, x);
    }
    lemma_with_added_noop(sorted, added);
    lemma_chars_le_total_ordering();
    sorted.lemma_sort_by_ensures(chars_le_fn());
    vstd::seq_lib::lemma_sorted_unique(sorted.sort_by(chars_le_fn()), sorted, chars_le_fn());
    let r2 = spec_add_hashes(r, name, added);
    assert(r2.lists =~= r.lists);
}


/// Reading `n` strings gives `n` strings and does not go back.
pub proof fn lemma_read_strings_len(s: Seq<u8>, pos: int, n: nat)
    ensures
        spec_read_strings(s, pos, n) matches Ok((v, _)) ==> v.len() == n,
    decreases n,
{
    if n > 0 {
        if let Ok((h, p)) = spec_read_osu_string(s, pos) {
            lemma_read_strings_len(s, p, (n - 1) as nat);
        }
    }
}
}
