//! Reading ids out of `.osu` beatmap files, and the names the app gives to
//! downloaded files.
use vstd::prelude::*;
use crate::store::index_of;
use crate::text::{
    ascii_lower_seq, chars_of, has_prefix, is_ascii_digit, lower_ascii, parse_u64_chars,
    push_char, spec_parse_u64, starts_with_chars, string_from_chars, trim_chars, trim_ws,
};
use crate::version::digit_prefix_len;
use vstd::utf8::{decode_utf8, valid_utf8};

verus! {

proof fn lemma_index_of_len<K>(keys: Seq<K>, k: K)
    ensures
        0 <= index_of(keys, k) <= keys.len(),
        index_of(keys, k) < keys.len() ==> keys[index_of(keys, k)] == k,
        forall|j: int| 0 <= j < index_of(keys, k) ==> keys[j] != k,
    decreases keys.len(),
{
    if keys.len() > 0 && keys[0] != k {
        lemma_index_of_len(keys.drop_first(), k);
        assert forall|j: int| 0 <= j < index_of(keys, k) implies keys[j] != k by {
            if j > 0 {
                assert(keys[j] == keys.drop_first()[j - 1]);
            }
        }
    }
}

/// `s` split at each `sep` (`split(|x| x == sep)`): one piece more than
/// there are separators.
pub open spec fn split_on<T>(s: Seq<T>, sep: T) -> Seq<Seq<T>>
    decreases s.len(),
{
    let k = index_of(s, sep);
    if 0 <= k < s.len() {
        seq![s.take(k)] + split_on(s.skip(k + 1), sep)
    } else {
        seq![s]
    }
}

pub proof fn lemma_split_step<T>(s: Seq<T>, sep: T, i: int, j: int)
    requires
        0 <= i <= j <= s.len(),
        forall|k: int| i <= k < j ==> s[k] != sep,
        j == s.len() || s[j] == sep,
    ensures
        j < s.len() ==> split_on(s.skip(i), sep) == seq![s.subrange(i, j)] + split_on(s.skip(j + 1), sep),
        j == s.len() ==> split_on(s.skip(i), sep) == seq![s.subrange(i, j)],
{
    let t = s.skip(i);
    assert forall|k: int| 0 <= k < j - i implies t[k] != sep by {
        assert(t[k] == s[i + k]);
    }
    if j < s.len() {
        assert(t[j - i] == sep);
    }
    crate::store::lemma_index_of_public(t, sep, j - i);
    assert(t.take(j - i) =~= s.subrange(i, j));
    if j < s.len() {
        assert(t.skip(j - i + 1) =~= s.skip(j + 1));
    }
    if j == s.len() {
        assert(t =~= s.subrange(i, j));
    }
}

/// `ASCII` bytes of the key that names a beatmapset id: `BeatmapSetID:`.
pub open spec fn set_id_key_bytes() -> Seq<u8> {
    seq![66u8, 101, 97, 116, 109, 97, 112, 83, 101, 116, 73, 68, 58]
}

/// `u8::is_ascii_whitespace`: space, tab, line feed, form feed, carriage
/// return.
pub open spec fn is_ascii_ws_byte(b: u8) -> bool {
    b == 32 || b == 9 || b == 10 || b == 12 || b == 13
}

pub open spec fn is_digit_byte(b: u8) -> bool {
    48 <= b <= 57
}

/// The bytes after leading ASCII white space.
pub open spec fn skip_ws_bytes(s: Seq<u8>) -> Seq<u8>
    decreases s.len(),
{
    if s.len() > 0 && is_ascii_ws_byte(s[0]) { skip_ws_bytes(s.drop_first()) } else { s }
}

/// The leading run of ASCII digits.
pub open spec fn digit_run_bytes(s: Seq<u8>) -> Seq<u8>
    decreases s.len(),
{
    if s.len() > 0 && is_digit_byte(s[0]) { seq![s[0]] + digit_run_bytes(s.drop_first()) } else { Seq::empty() }
}

/// The number that a run of ASCII digit bytes stands for.
pub open spec fn digit_bytes_value(s: Seq<u8>) -> nat
    decreases s.len(),
{
    if s.len() == 0 { 0 } else { digit_bytes_value(s.drop_last()) * 10 + (s.last() - 48) as nat }
}

/// A line without its final carriage return.
pub open spec fn strip_cr(l: Seq<u8>) -> Seq<u8> {
    if l.len() > 0 && l.last() == 13u8 { l.drop_last() } else { l }
}

pub open spec fn has_byte_prefix(a: Seq<u8>, p: Seq<u8>) -> bool {
    p.len() <= a.len() && a.take(p.len() as int) == p
}

/// The id after the key: leading white space skipped, then the run of
/// digits, when it is a `u64` above zero.
pub open spec fn set_id_value(rest: Seq<u8>) -> Option<u64> {
    let d = digit_run_bytes(skip_ws_bytes(rest));
    if d.len() > 0 && digit_bytes_value(d) <= u64::MAX && digit_bytes_value(d) > 0 {
        Some(digit_bytes_value(d) as u64)
    } else {
        None
    }
}

/// The id of the first line that starts with the key (whether or not a
/// valid id follows it).
pub open spec fn set_id_in_lines(lines: Seq<Seq<u8>>) -> Option<u64>
    decreases lines.len(),
{
    if lines.len() == 0 {
        None
    } else if has_byte_prefix(strip_cr(lines[0]), set_id_key_bytes()) {
        set_id_value(strip_cr(lines[0]).skip(13))
    } else {
        set_id_in_lines(lines.drop_first())
    }
}

/// The beatmapset id a beatmap file names.
pub open spec fn spec_beatmapset_id_from_osu_bytes(bytes: Seq<u8>) -> Option<u64> {
    set_id_in_lines(split_on(bytes, 10u8))
}

fn set_id_value_exec(line: &[u8], from: usize) -> (r: Option<u64>)
    requires
        from <= line.len(),
    ensures
        r == set_id_value(line@.skip(from as int)),
{
    let mut i = from;
    assert(line@.skip(from as int).skip(0) =~= line@.skip(from as int));
    while i < line.len() && (line[i] == 32 || line[i] == 9 || line[i] == 10 || line[i] == 12 || line[i] == 13)
        invariant
            from <= i <= line.len(),
            skip_ws_bytes(line@.skip(from as int)) == skip_ws_bytes(line@.skip(i as int)),
        decreases line.len() - i,
    {
        assert(line@.skip(i as int).drop_first() =~= line@.skip(i + 1));
        i = i + 1;
    }
    let ghost t = line@.skip(i as int);
    assert(skip_ws_bytes(t) == t);
    let start = i;
    let mut value: u64 = 0;
    let mut overflow = false;
    while i < line.len() && 48 <= line[i] && line[i] <= 57
        invariant
            start <= i <= line.len(),
            t == line@.skip(start as int),
            forall|k: int| start <= k < i ==> is_digit_byte(#[trigger] line@[k]),
            digit_run_bytes(t) == line@.subrange(start as int, i as int) + digit_run_bytes(line@.skip(i as int)),
            !overflow ==> value == digit_bytes_value(line@.subrange(start as int, i as int)),
            overflow ==> digit_bytes_value(line@.subrange(start as int, i as int)) > u64::MAX,
        decreases line.len() - i,
    {
        let d = (line[i] - 48) as u64;
        let ghost pre = line@.subrange(start as int, i as int);
        let ghost next = line@.subrange(start as int, i + 1);
        assert(next.drop_last() =~= pre);
        assert(next.last() == line@[i as int]);
        assert(line@.skip(i as int).drop_first() =~= line@.skip(i + 1));
        assert(digit_run_bytes(line@.skip(i as int)) =~= seq![line@[i as int]] + digit_run_bytes(line@.skip(i + 1)));
        assert(pre + (seq![line@[i as int]] + digit_run_bytes(line@.skip(i + 1))) =~= next + digit_run_bytes(line@.skip(i + 1)));
        if overflow {
            assert(digit_bytes_value(next) >= digit_bytes_value(pre) * 10) by (nonlinear_arith)
                requires digit_bytes_value(next) == digit_bytes_value(pre) * 10 + (next.last() - 48) as nat;
        } else if value > (u64::MAX - d) / 10 {
            overflow = true;
            assert(digit_bytes_value(next) > u64::MAX) by (nonlinear_arith)
                requires
                    digit_bytes_value(next) == value * 10 + d,
                    value > (u64::MAX - d) / 10,
                    d <= 9;
        } else {
            assert(value * 10 + d <= u64::MAX) by (nonlinear_arith)
                requires value <= (u64::MAX - d) / 10, d <= 9;
            value = value * 10 + d;
        }
        i = i + 1;
    }
    assert(digit_run_bytes(line@.skip(i as int)) =~= Seq::<u8>::empty());
    assert(digit_run_bytes(t) =~= line@.subrange(start as int, i as int));
    if i > start && !overflow && value > 0 {
        Some(value)
    } else {
        None
    }
}

/// The beatmapset id named on the first `BeatmapSetID:` line of a beatmap
/// file (`None` when that line holds no id above zero, or there is none).
pub fn beatmapset_id_from_osu_bytes(bytes: &[u8]) -> (r: Option<u64>)
    ensures
        r == spec_beatmapset_id_from_osu_bytes(bytes@),
{
    let ghost s = bytes@;
    let mut i: usize = 0;
    assert(s.skip(0) =~= s);
    loop
        invariant
            i <= bytes.len(),
            s == bytes@,
            set_id_in_lines(split_on(s.skip(i as int), 10u8)) == spec_beatmapset_id_from_osu_bytes(s),
        decreases bytes.len() - i,
    {
        let mut j = i;
        while j < bytes.len() && bytes[j] != 10
            invariant
                i <= j <= bytes.len(),
                s == bytes@,
                forall|k: int| i <= k < j ==> s[k] != 10u8,
            decreases bytes.len() - j,
        {
            j = j + 1;
        }
        proof { lemma_split_step(s, 10u8, i as int, j as int); }
        let mut end = j;
        if end > i && bytes[end - 1] == 13 {
            end = end - 1;
        }
        let ghost line = strip_cr(s.subrange(i as int, j as int));
        assert(line =~= s.subrange(i as int, end as int));
        let key: [u8; 13] = [66, 101, 97, 116, 109, 97, 112, 83, 101, 116, 73, 68, 58];
        assert(key@ =~= set_id_key_bytes());
        let mut matches = end - i >= 13;
        let mut k: usize = 0;
        while matches && k < 13
            invariant
                i <= end <= bytes.len(),
                s == bytes@,
                key@ == set_id_key_bytes(),
                k <= 13,
                matches ==> end - i >= 13 && forall|m: int| 0 <= m < k ==> s[i + m] == key@[m],
                !matches ==> !has_byte_prefix(line, set_id_key_bytes()),
                line == s.subrange(i as int, end as int),
            decreases 13 - k,
        {
            if bytes[i + k] != key[k] {
                matches = false;
                assert(line.take(13)[k as int] != set_id_key_bytes()[k as int]);
            }
            k = k + 1;
        }
        let ghost lines = split_on(s.skip(i as int), 10u8);
        if matches {
            assert(line.take(13) =~= set_id_key_bytes());
            let line_vec = slice_bytes(bytes, i, end);
            assert(line_vec@ == line);
            return set_id_value_exec(line_vec.as_slice(), 13);
        }
        if j == bytes.len() {
            assert(set_id_in_lines(lines.drop_first()) == None::<u64>);
            return None;
        }
        assert(lines.drop_first() == split_on(s.skip(j + 1), 10u8));
        i = j + 1;
    }
}

fn slice_bytes(s: &[u8], a: usize, b: usize) -> (r: Vec<u8>)
    requires
        a <= b <= s.len(),
    ensures
        r@ == s@.subrange(a as int, b as int),
{
    let mut r: Vec<u8> = Vec::new();
    let mut i = a;
    while i < b
        invariant
            a <= i <= b <= s.len(),
            r@ == s@.subrange(a as int, i as int),
        decreases b - i,
    {
        r.push(s[i]);
        assert(s@.subrange(a as int, i + 1) == s@.subrange(a as int, i as int).push(s@[i as int]));
        i = i + 1;
    }
    r
}


/// What `String::from_utf8_lossy` makes of some bytes: each invalid
/// sequence becomes U+FFFD.
pub uninterp spec fn utf8_lossy(bytes: Seq<u8>) -> Seq<char>;

/// `String::from_utf8_lossy`. Claimed: the result is the lossy decoding of
/// the bytes (named, not spelled out), and valid UTF-8 decodes unchanged.
#[verifier::external_body]
fn from_utf8_lossy(bytes: &[u8]) -> (r: String)
    ensures
        r@ == utf8_lossy(bytes@),
        valid_utf8(bytes@) ==> r@ == decode_utf8(bytes@),
{
    String::from_utf8_lossy(bytes).into_owned()
}

/// The id on the first line that starts with `key` and holds, after it and
/// around white space, a `u64` above zero.
pub open spec fn id_in_lines(lines: Seq<Seq<char>>, key: Seq<char>) -> Option<u64>
    decreases lines.len(),
{
    if lines.len() == 0 {
        None
    } else {
        let l = lines[0];
        let v = spec_parse_u64(trim_ws(l.skip(key.len() as int)));
        if has_prefix(l, key) && v is Some && v->0 > 0 {
            v
        } else {
            id_in_lines(lines.drop_first(), key)
        }
    }
}

/// The id that the lines of `text` give for `key` (lines are split at line
/// feeds; a carriage return before one is white space that the trim takes
/// away).
pub open spec fn spec_positive_id_in_lines(text: Seq<char>, key: Seq<char>) -> Option<u64> {
    id_in_lines(split_on(text, '\n'), key)
}

/// The first id above zero that a `key:` line of `text` gives, such as
/// `BeatmapID:` or `BeatmapSetID:` in a beatmap file.
pub fn positive_id_in_lines(text: &str, key: &str) -> (r: Option<u64>)
    ensures
        r == spec_positive_id_in_lines(text@, key@),
{
    let chars = chars_of(text);
    let key_chars = chars_of(key);
    let ghost s = chars@;
    let mut i: usize = 0;
    assert(s.skip(0) =~= s);
    loop
        invariant
            i <= chars.len(),
            s == chars@,
            s == text@,
            key_chars@ == key@,
            id_in_lines(split_on(s.skip(i as int), '\n'), key@) == spec_positive_id_in_lines(text@, key@),
        decreases chars.len() - i,
    {
        let mut j = i;
        while j < chars.len() && chars[j] != '\n'
            invariant
                i <= j <= chars.len(),
                s == chars@,
                forall|k: int| i <= k < j ==> s[k] != '\n',
            decreases chars.len() - j,
        {
            j = j + 1;
        }
        proof { lemma_split_step(s, '\n', i as int, j as int); }
        let line = crate::text::slice_to_vec_range(chars.as_slice(), i, j);
        let ghost lines = split_on(s.skip(i as int), '\n');
        assert(lines[0] == line@);
        if starts_with_chars(line.as_slice(), key_chars.as_slice()) {
            let rest = crate::text::slice_to_vec_range(line.as_slice(), key_chars.len(), line.len());
            assert(rest@ =~= line@.skip(key@.len() as int));
            let trimmed = trim_chars(rest.as_slice());
            match parse_u64_chars(trimmed.as_slice()) {
                Some(v) => {
                    if v > 0 {
                        return Some(v);
                    }
                },
                None => {},
            }
        }
        if j == chars.len() {
            assert(id_in_lines(lines.drop_first(), key@) == None::<u64>);
            return None;
        }
        assert(lines.drop_first() == split_on(s.skip(j + 1), '\n'));
        i = j + 1;
    }
}

/// The beatmap id of a beatmap file: its text, decoded leniently, as
/// `positive_id_in_lines` reads it for `BeatmapID:`.
pub fn beatmap_id_from_osu_bytes(bytes: &[u8]) -> (r: Option<u64>)
    ensures
        r == spec_positive_id_in_lines(utf8_lossy(bytes@), "BeatmapID:"@),
{
    let text = from_utf8_lossy(bytes);
    positive_id_in_lines(text.as_str(), "BeatmapID:")
}

/// `ASCII` bytes of `osu file format`, how a beatmap file starts.
pub open spec fn format_header_bytes() -> Seq<u8> {
    seq![111u8, 115, 117, 32, 102, 105, 108, 101, 32, 102, 111, 114, 109, 97, 116]
}

/// Whether `p` occurs in `a`.
pub open spec fn has_byte_infix(a: Seq<u8>, p: Seq<u8>) -> bool {
    exists|i: int| 0 <= i && i + p.len() <= a.len() && #[trigger] a.subrange(i, i + p.len()) == p
}

/// The largest file that a scan of lazer's files reads as a beatmap.
pub const LAZER_MAX_BEATMAP_BYTES: u64 = 786432;

/// The beatmapset id of a file in lazer's store, from its size and the
/// head of its content: a file of one byte up to the limit whose head
/// starts like a beatmap file and names a beatmapset.
pub open spec fn spec_lazer_file_id(len: u64, head: Seq<u8>) -> Option<u64> {
    if len == 0 || len > LAZER_MAX_BEATMAP_BYTES {
        None
    } else if !has_byte_prefix(head, format_header_bytes()) || !has_byte_infix(head, set_id_key_bytes()) {
        None
    } else {
        spec_beatmapset_id_from_osu_bytes(head)
    }
}

fn bytes_at(a: &[u8], p: &[u8], i: usize) -> (r: bool)
    requires
        i <= a.len(),
    ensures
        r == (i + p.len() <= a.len() && a@.subrange(i as int, i + p.len()) == p@),
{
    if a.len() - i < p.len() {
        return false;
    }
    let mut k: usize = 0;
    while k < p.len()
        invariant
            k <= p.len(),
            i + p.len() <= a.len(),
            forall|j: int| 0 <= j < k ==> a@[i + j] == p@[j],
        decreases p.len() - k,
    {
        if a[i + k] != p[k] {
            assert(a@.subrange(i as int, i + p.len())[k as int] != p@[k as int]);
            return false;
        }
        k = k + 1;
    }
    assert(a@.subrange(i as int, i + p.len()) =~= p@);
    true
}

/// Which beatmapset a file in lazer's store belongs to, if it is a beatmap
/// (see `spec_lazer_file_id`).
pub fn lazer_file_beatmapset_id(len: u64, head: &[u8]) -> (r: Option<u64>)
    ensures
        r == spec_lazer_file_id(len, head@),
{
    if len == 0 || len > LAZER_MAX_BEATMAP_BYTES {
        return None;
    }
    let header: [u8; 15] = [111, 115, 117, 32, 102, 105, 108, 101, 32, 102, 111, 114, 109, 97, 116];
    let key: [u8; 13] = [66, 101, 97, 116, 109, 97, 112, 83, 101, 116, 73, 68, 58];
    assert(header@ =~= format_header_bytes());
    assert(key@ =~= set_id_key_bytes());
    if !bytes_at(head, header.as_slice(), 0) {
        assert(!has_byte_prefix(head@, format_header_bytes())) by {
            if has_byte_prefix(head@, format_header_bytes()) {
                assert(head@.subrange(0, 15) =~= head@.take(15));
            }
        }
        return None;
    }
    assert(head@.subrange(0, 15) =~= head@.take(15));
    let mut i: usize = 0;
    let mut found = false;
    while i < head.len() && !found
        invariant
            i <= head.len(),
            key@ == set_id_key_bytes(),
            found ==> has_byte_infix(head@, set_id_key_bytes()),
            !found ==> forall|j: int| 0 <= j < i ==> !(j + 13 <= head@.len() && #[trigger] head@.subrange(j, j + 13) == set_id_key_bytes()),
        decreases head.len() - i + (if found { 0int } else { 1int }),
    {
        if bytes_at(head, key.as_slice(), i) {
            found = true;
        } else {
            i = i + 1;
        }
    }
    if !found {
        assert(!has_byte_infix(head@, set_id_key_bytes())) by {
            if has_byte_infix(head@, set_id_key_bytes()) {
                let j = choose|j: int| 0 <= j && j + set_id_key_bytes().len() <= head@.len() && #[trigger] head@.subrange(j, j + set_id_key_bytes().len()) == set_id_key_bytes();
                assert(j < i);
            }
        }
        return None;
    }
    beatmapset_id_from_osu_bytes(head)
}

/// The number a name starts with: its leading ASCII digits, when they make
/// a `u64` above zero.
pub open spec fn spec_leading_number(value: Seq<char>) -> Option<u64> {
    let v = spec_parse_u64(value.take(digit_prefix_len(value) as int));
    if v is Some && v->0 > 0 { v } else { None }
}

/// The beatmapset id that a folder or `.osz` name starts with.
pub fn leading_number(value: &str) -> (r: Option<u64>)
    ensures
        r == spec_leading_number(value@),
{
    let chars = chars_of(value);
    let mut j: usize = 0;
    while j < chars.len() && '0' <= chars[j] && chars[j] <= '9'
        invariant
            j <= chars.len(),
            chars@ == value@,
            forall|k: int| 0 <= k < j ==> is_ascii_digit(#[trigger] chars@[k]),
        decreases chars.len() - j,
    {
        j = j + 1;
    }
    proof { lemma_digit_prefix_is(value@, j as int); }
    let digits = crate::text::slice_to_vec_range(chars.as_slice(), 0, j);
    assert(digits@ =~= value@.take(j as int));
    match parse_u64_chars(digits.as_slice()) {
        Some(v) => if v > 0 { Some(v) } else { None },
        None => None,
    }
}

proof fn lemma_digit_prefix_is(s: Seq<char>, j: int)
    requires
        0 <= j <= s.len(),
        forall|k: int| 0 <= k < j ==> is_ascii_digit(#[trigger] s[k]),
        j == s.len() || !is_ascii_digit(s[j]),
    ensures
        digit_prefix_len(s) == j,
    decreases j,
{
    if j > 0 {
        assert forall|k: int| 0 <= k < j - 1 implies is_ascii_digit(#[trigger] s.drop_first()[k]) by {
            assert(s.drop_first()[k] == s[k + 1]);
        }
        if j < s.len() {
            assert(s.drop_first()[j - 1] == s[j]);
        }
        lemma_digit_prefix_is(s.drop_first(), j - 1);
    }
}

/// `char::is_control`: the characters of general category `Cc`.
pub open spec fn is_control(c: char) -> bool {
    ('\u{0}' <= c && c <= '\u{1F}') || ('\u{7F}' <= c && c <= '\u{9F}')
}

/// A character of a file name, or `_` where Windows refuses it.
pub open spec fn safe_char(c: char) -> char {
    if c == '<' || c == '>' || c == ':' || c == '"' || c == '/' || c == '\\' || c == '|' || c == '?' || c == '*' || is_control(c) {
        '_'
    } else {
        c
    }
}

/// A file name made safe: each refused character becomes `_`, and at most
/// 180 characters are kept.
pub open spec fn spec_sanitize_file_name(name: Seq<char>) -> Seq<char> {
    name.take(if name.len() < 180 { name.len() as int } else { 180 }).map_values(|c: char| safe_char(c))
}

/// Makes a file name safe on every platform.
pub fn sanitize_file_name(name: &str) -> (r: String)
    ensures
        r@ == spec_sanitize_file_name(name@),
{
    let chars = chars_of(name);
    let n: usize = if chars.len() < 180 { chars.len() } else { 180 };
    let mut out = String::new();
    let mut i: usize = 0;
    while i < n
        invariant
            i <= n <= chars.len(),
            n == (if chars.len() < 180 { chars.len() } else { 180 }),
            chars@ == name@,
            out@ == name@.take(i as int).map_values(|c: char| safe_char(c)),
        decreases n - i,
    {
        let c = chars[i];
        let safe = if c == '<' || c == '>' || c == ':' || c == '"' || c == '/' || c == '\\' || c == '|'
            || c == '?' || c == '*' || ('\u{0}' <= c && c <= '\u{1F}') || ('\u{7F}' <= c && c <= '\u{9F}') {
            '_'
        } else {
            c
        };
        push_char(&mut out, safe);
        assert(out@ =~= name@.take(i + 1).map_values(|c: char| safe_char(c)));
        i = i + 1;
    }
    out
}


/// A safe file name has at most 180 characters, none of them refused by
/// Windows, and making it safe again changes nothing.
pub proof fn law_sanitize_safe(name: Seq<char>)
    ensures
        spec_sanitize_file_name(name).len() <= 180,
        forall|i: int| 0 <= i < spec_sanitize_file_name(name).len() ==> {
            let c = #[trigger] spec_sanitize_file_name(name)[i];
            &&& c != '<' && c != '>' && c != ':' && c != '"' && c != '/' && c != '\\' && c != '|' && c != '?' && c != '*'
            &&& !is_control(c)
        },
        spec_sanitize_file_name(spec_sanitize_file_name(name)) == spec_sanitize_file_name(name),
{
    let r = spec_sanitize_file_name(name);
    assert forall|i: int| 0 <= i < r.len() implies safe_char(#[trigger] r[i]) == r[i] by {
        assert(r[i] == safe_char(name[i]));
    }
    assert(spec_sanitize_file_name(r) =~= r);
}

}
