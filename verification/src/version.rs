//! Release versions: the numbers in a version tag, their comparison, and
//! what the latest release on GitHub means for an update prompt.
use vstd::prelude::*;
use std::cmp::Ordering;
use crate::text::{
    all_digits, ascii_lower_seq, chars_of, has_infix, has_suffix, is_ascii_digit, lower_ascii,
    contains_chars, ends_with_chars, parse_unsigned_max, spec_parse_unsigned, string_from_chars,
    str_eq, trim_str, trim_ws,
};

verus! {

/// `s` without any leading `c`.
pub open spec fn strip_leading(s: Seq<char>, c: char) -> Seq<char>
    decreases s.len(),
{
    if s.len() > 0 && s[0] == c {
        strip_leading(s.drop_first(), c)
    } else {
        s
    }
}

/// A tag without white space around it and without leading `v`s, then
/// without leading `V`s.
pub open spec fn spec_version_tag(s: Seq<char>) -> Seq<char> {
    strip_leading(strip_leading(trim_ws(s), 'v'), 'V')
}

fn strip_leading_exec(s: &[char], c: char) -> (r: Vec<char>)
    ensures
        r@ == strip_leading(s@, c),
{
    let mut i: usize = 0;
    assert(s@.skip(0) == s@);
    while i < s.len() && s[i] == c
        invariant
            i <= s.len(),
            strip_leading(s@, c) == strip_leading(s@.skip(i as int), c),
        decreases s.len() - i,
    {
        assert(s@.skip(i as int).drop_first() == s@.skip(i + 1));
        i = i + 1;
    }
    let r = crate::text::slice_to_vec_range(s, i, s.len());
    assert(r@ == s@.skip(i as int));
    r
}

/// Normalises a version tag: trimmed, without a leading `v` or `V`.
pub fn normalize_version_tag(value: &str) -> (r: String)
    ensures
        r@ == spec_version_tag(value@),
{
    let t = trim_str(value);
    let a = strip_leading_exec(t.as_slice(), 'v');
    let b = strip_leading_exec(a.as_slice(), 'V');
    string_from_chars(b.as_slice())
}

/// The length of the run of ASCII digits at the start of `s`.
pub open spec fn digit_prefix_len(s: Seq<char>) -> nat
    decreases s.len(),
{
    if s.len() > 0 && is_ascii_digit(s[0]) {
        1 + digit_prefix_len(s.drop_first())
    } else {
        0
    }
}

proof fn lemma_digit_prefix_len(s: Seq<char>)
    ensures
        digit_prefix_len(s) <= s.len(),
        all_digits(s.take(digit_prefix_len(s) as int)),
        digit_prefix_len(s) < s.len() ==> !is_ascii_digit(s[digit_prefix_len(s) as int]),
    decreases s.len(),
{
    if s.len() > 0 && is_ascii_digit(s[0]) {
        lemma_digit_prefix_len(s.drop_first());
        let k = digit_prefix_len(s);
        assert forall|i: int| 0 <= i < k implies is_ascii_digit(#[trigger] s.take(k as int)[i]) by {
            if i > 0 {
                assert(s.take(k as int)[i] == s.drop_first().take(k - 1)[i - 1]);
            }
        }
        if k < s.len() {
            assert(s[k as int] == s.drop_first()[k - 1]);
        }
    } else {
        assert(s.take(0) =~= Seq::<char>::empty());
    }
}

/// The numbers of the runs of ASCII digits in `s`, in order, leaving out
/// runs whose value is above `max` (what splitting at every non-digit and
/// parsing each non-empty piece with `from_str` keeps).
pub open spec fn numbers_in(s: Seq<char>, max: nat) -> Seq<nat>
    decreases s.len(),
{
    if s.len() == 0 {
        Seq::empty()
    } else if !is_ascii_digit(s[0]) {
        numbers_in(s.drop_first(), max)
    } else {
        let k = digit_prefix_len(s);
        let rest = if 0 < k <= s.len() { numbers_in(s.skip(k as int), max) } else { Seq::empty() };
        match spec_parse_unsigned(s.take(k as int), max) {
            Some(v) => seq![v] + rest,
            None => rest,
        }
    }
}

/// Collects the numbers of the runs of digits in `s` that do not exceed `max`.
pub fn numbers_in_chars(s: &[char], max: u64) -> (r: Vec<u64>)
    ensures
        r@.map_values(|v: u64| v as nat) == numbers_in(s@, max as nat),
{
    let mut out: Vec<u64> = Vec::new();
    let mut i: usize = 0;
    assert(s@.skip(0) == s@);
    assert(out@.map_values(|v: u64| v as nat) =~= Seq::<nat>::empty());
    while i < s.len()
        invariant
            i <= s.len(),
            numbers_in(s@, max as nat) == out@.map_values(|v: u64| v as nat) + numbers_in(s@.skip(i as int), max as nat),
        decreases s.len() - i,
    {
        let ghost rest = s@.skip(i as int);
        if !('0' <= s[i] && s[i] <= '9') {
            assert(rest.drop_first() == s@.skip(i + 1));
            i = i + 1;
        } else {
            let mut j = i;
            while j < s.len() && '0' <= s[j] && s[j] <= '9'
                invariant
                    i <= j <= s.len(),
                    forall|k: int| i <= k < j ==> is_ascii_digit(#[trigger] s@[k]),
                decreases s.len() - j,
            {
                j = j + 1;
            }
            proof {
                lemma_digit_prefix_len(rest);
                lemma_prefix_len_is(rest, (j - i) as nat);
            }
            let run = crate::text::slice_to_vec_range(s, i, j);
            assert(run@ == rest.take((j - i) as int));
            assert(rest.skip((j - i) as int) == s@.skip(j as int));
            let ghost before = out@.map_values(|v: u64| v as nat);
            match parse_unsigned_max(run.as_slice(), max) {
                Some(v) => {
                    out.push(v);
                    assert(out@.map_values(|v: u64| v as nat) =~= before.push(v as nat));
                    assert(before + (seq![v as nat] + numbers_in(s@.skip(j as int), max as nat))
                        =~= before.push(v as nat) + numbers_in(s@.skip(j as int), max as nat));
                },
                None => {},
            }
            i = j;
        }
    }
    assert(numbers_in(s@.skip(i as int), max as nat) =~= Seq::<nat>::empty());
    assert(out@.map_values(|v: u64| v as nat) + Seq::<nat>::empty() =~= out@.map_values(|v: u64| v as nat));
    out
}

proof fn lemma_prefix_len_is(s: Seq<char>, k: nat)
    requires
        k <= s.len(),
        k > 0,
        forall|i: int| 0 <= i < k ==> is_ascii_digit(#[trigger] s[i]),
        k == s.len() || !is_ascii_digit(s[k as int]),
    ensures
        digit_prefix_len(s) == k,
    decreases k,
{
    if k > 1 {
        assert forall|i: int| 0 <= i < k - 1 implies is_ascii_digit(#[trigger] s.drop_first()[i]) by {
            assert(s.drop_first()[i] == s[i + 1]);
        }
        if k < s.len() {
            assert(s.drop_first()[k - 1] == s[k as int]);
        }
        lemma_prefix_len_is(s.drop_first(), (k - 1) as nat);
    } else {
        if s.len() > 1 {
            assert(s.drop_first()[0] == s[1]);
        }
        assert(digit_prefix_len(s.drop_first()) == 0);
    }
}

/// The numbers of a version string.
pub open spec fn spec_version_parts(s: Seq<char>) -> Seq<u64> {
    numbers_in(s, u64::MAX as nat).map_values(|v: nat| v as u64)
}

/// The numbers of a version string, in order: each run of ASCII digits
/// that fits a `u64`.
pub fn version_parts(value: &str) -> (r: Vec<u64>)
    ensures
        r@ == spec_version_parts(value@),
{
    let c = chars_of(value);
    let r = numbers_in_chars(c.as_slice(), u64::MAX);
    assert(r@ =~= r@.map_values(|v: u64| v as nat).map_values(|v: nat| v as u64));
    r
}

/// The part of a version at `i`, zero past its end.
pub open spec fn part_at(a: Seq<u64>, i: int) -> u64 {
    if 0 <= i < a.len() {
        a[i]
    } else {
        0
    }
}

/// Compares versions part by part from `i` on, a missing part counting as
/// zero: -1, 0 or 1.
pub open spec fn parts_order_from(a: Seq<u64>, b: Seq<u64>, i: int) -> int
    decreases (if a.len() > b.len() { a.len() } else { b.len() }) - i,
{
    if i >= a.len() && i >= b.len() {
        0
    } else if part_at(a, i) < part_at(b, i) {
        -1
    } else if part_at(a, i) > part_at(b, i) {
        1
    } else {
        parts_order_from(a, b, i + 1)
    }
}

pub open spec fn spec_compare_versions(left: Seq<char>, right: Seq<char>) -> int {
    parts_order_from(spec_version_parts(left), spec_version_parts(right), 0)
}

/// Compares two version strings by their numbers: -1, 0 or 1.
fn version_order(left: &str, right: &str) -> (r: i8)
    ensures
        r == spec_compare_versions(left@, right@),
{
    let left_parts = version_parts(left);
    let right_parts = version_parts(right);
    let n = if left_parts.len() > right_parts.len() { left_parts.len() } else { right_parts.len() };
    let mut index: usize = 0;
    while index < n
        invariant
            index <= n,
            n == (if left_parts.len() > right_parts.len() { left_parts.len() } else { right_parts.len() }),
            spec_compare_versions(left@, right@) == parts_order_from(left_parts@, right_parts@, index as int),
            left_parts@ == spec_version_parts(left@),
            right_parts@ == spec_version_parts(right@),
        decreases n - index,
    {
        let left_value = if index < left_parts.len() { left_parts[index] } else { 0 };
        let right_value = if index < right_parts.len() { right_parts[index] } else { 0 };
        if left_value < right_value {
            return -1;
        }
        if left_value > right_value {
            return 1;
        }
        index = index + 1;
    }
    0
}

/// Compares two version strings by their numbers, a missing number counting
/// as zero.
pub fn compare_versions(left: &str, right: &str) -> (r: Ordering)
    ensures
        match r {
            Ordering::Less => spec_compare_versions(left@, right@) == -1,
            Ordering::Equal => spec_compare_versions(left@, right@) == 0,
            Ordering::Greater => spec_compare_versions(left@, right@) == 1,
        },
{
    let order = version_order(left, right);
    proof {
        lemma_parts_order_antisymmetric(spec_version_parts(left@), spec_version_parts(right@), 0);
    }
    if order < 0 {
        Ordering::Less
    } else if order == 0 {
        Ordering::Equal
    } else {
        Ordering::Greater
    }
}

proof fn lemma_parts_order_antisymmetric(a: Seq<u64>, b: Seq<u64>, i: int)
    ensures
        parts_order_from(a, b, i) == -parts_order_from(b, a, i),
        -1 <= parts_order_from(a, b, i) <= 1,
    decreases (if a.len() > b.len() { a.len() } else { b.len() }) - i,
{
    if !(i >= a.len() && i >= b.len()) && part_at(a, i) == part_at(b, i) {
        lemma_parts_order_antisymmetric(a, b, i + 1);
    }
}

proof fn lemma_parts_order_reflexive(a: Seq<u64>, i: int)
    ensures
        parts_order_from(a, a, i) == 0,
    decreases a.len() - i,
{
    if i < a.len() {
        lemma_parts_order_reflexive(a, i + 1);
    }
}

/// Law: comparing versions the other way round gives the opposite answer,
/// and a version compares equal to itself.
pub proof fn law_compare_versions_antisymmetric(left: Seq<char>, right: Seq<char>)
    ensures
        spec_compare_versions(left, right) == -spec_compare_versions(right, left),
        spec_compare_versions(left, left) == 0,
{
    lemma_parts_order_antisymmetric(spec_version_parts(left), spec_version_parts(right), 0);
    lemma_parts_order_reflexive(spec_version_parts(left), 0);
}

proof fn lemma_parts_extend(a: Seq<u64>, x: u64, i: int)
    requires
        0 <= i <= a.len(),
    ensures
        parts_order_from(a, a.push(x), i) == (if x > 0 { -1int } else { 0int }),
    decreases a.len() - i,
{
    let b = a.push(x);
    if i < a.len() {
        assert(part_at(a, i) == part_at(b, i));
        lemma_parts_extend(a, x, i + 1);
    } else {
        assert(part_at(b, i) == x);
        assert(part_at(a, i) == 0);
        if x == 0 {
            assert(parts_order_from(a, b, i + 1) == 0);
        }
    }
}

proof fn lemma_parts_first_difference(a: Seq<u64>, b: Seq<u64>, k: int, i: int)
    requires
        0 <= i <= k,
        k < a.len(),
        k < b.len(),
        a.take(k) == b.take(k),
        a[k] < b[k],
    ensures
        parts_order_from(a, b, i) == -1,
    decreases k - i,
{
    if i < k {
        assert(a[i] == a.take(k)[i]);
        assert(b[i] == b.take(k)[i]);
        lemma_parts_first_difference(a, b, k, i + 1);
    }
}

/// Law: a missing number counts as zero. A version whose numbers are those
/// of another followed by a positive number is newer than it (so `2.1.1`
/// is newer than `2.1`); followed by a zero, the two compare equal.
pub proof fn law_compare_versions_longer(left: Seq<char>, right: Seq<char>, x: u64)
    requires
        spec_version_parts(right) == spec_version_parts(left).push(x),
    ensures
        x > 0 ==> spec_compare_versions(left, right) == -1 && spec_compare_versions(right, left) == 1,
        x == 0 ==> spec_compare_versions(left, right) == 0 && spec_compare_versions(right, left) == 0,
{
    let a = spec_version_parts(left);
    lemma_parts_extend(a, x, 0);
    lemma_parts_order_antisymmetric(a, a.push(x), 0);
}

/// Law: versions are ordered by their first differing number: when the
/// numbers agree before position `k` and `left`'s number there is smaller,
/// `left` is older.
pub proof fn law_compare_versions_first_difference(left: Seq<char>, right: Seq<char>, k: int)
    requires
        0 <= k < spec_version_parts(left).len(),
        k < spec_version_parts(right).len(),
        spec_version_parts(left).take(k) == spec_version_parts(right).take(k),
        spec_version_parts(left)[k] < spec_version_parts(right)[k],
    ensures
        spec_compare_versions(left, right) == -1,
        spec_compare_versions(right, left) == 1,
{
    let a = spec_version_parts(left);
    let b = spec_version_parts(right);
    lemma_parts_first_difference(a, b, k, 0);
    lemma_parts_order_antisymmetric(a, b, 0);
}

/// The version of this program.
pub open spec fn app_version() -> Seq<char> {
    "2.1.0"@
}

/// A release tag is newer than this program's version.
pub open spec fn spec_is_release_newer(tag: Seq<char>) -> bool {
    spec_compare_versions(spec_version_tag(tag), app_version()) == 1
}

/// The release tag names a version newer than this program's.
pub fn is_release_newer(tag: &str) -> (r: bool)
    ensures
        r == spec_is_release_newer(tag@),
{
    let normalized = normalize_version_tag(tag);
    match compare_versions(normalized.as_str(), "2.1.0") {
        Ordering::Greater => true,
        Ordering::Less => false,
        Ordering::Equal => false,
    }
}

}
