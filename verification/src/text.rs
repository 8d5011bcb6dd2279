use vstd::prelude::*;

verus! {

pub open spec fn is_ascii_digit(c: char) -> bool {
    '0' <= c && c <= '9'
}

pub fn char_is_ascii_digit(c: char) -> (r: bool)
    ensures r == is_ascii_digit(c),
{
    '0' <= c && c <= '9'
}

/// Appends one character to a string (`String::push`).
#[verifier::external_body]
pub(crate) fn push_char(s: &mut String, c: char)
    ensures final(s)@ == old(s)@.push(c),
{
    s.push(c);
}

/// The characters of a string slice, in order.
pub fn chars_of(s: &str) -> (v: Vec<char>)
    ensures v@ == s@,
{
    let mut v: Vec<char> = Vec::new();
    for c in it: s.chars()
        invariant
            v@ == it.seq().take(it.index() as int),
            it.seq() == s@,
    {
        v.push(c);
    }
    v
}

pub fn string_from_chars(v: &[char]) -> (s: String)
    ensures s@ == v@,
{
    let mut s = String::new();
    let mut i: usize = 0;
    while i < v.len()
        invariant
            i <= v.len(),
            s@ == v@.take(i as int),
        decreases v.len() - i,
    {
        push_char(&mut s, v[i]);
        assert(v@.take(i + 1) == v@.take(i as int).push(v@[i as int]));
        i += 1;
    }
    assert(v@.take(v.len() as int) == v@);
    s
}


/// The order of `String`'s `Ord`: lexicographic by characters (which is the
/// order of their UTF-8 bytes).
pub open spec fn chars_le(a: Seq<char>, b: Seq<char>) -> bool
    decreases a.len(),
{
    if a.len() == 0 {
        true
    } else if b.len() == 0 {
        false
    } else if a[0] != b[0] {
        (a[0] as u32) < (b[0] as u32)
    } else {
        chars_le(a.drop_first(), b.drop_first())
    }
}

pub open spec fn chars_le_fn() -> spec_fn(Seq<char>, Seq<char>) -> bool {
    |a: Seq<char>, b: Seq<char>| chars_le(a, b)
}

pub proof fn lemma_chars_le_reflexive(a: Seq<char>)
    ensures
        chars_le(a, a),
    decreases a.len(),
{
    if a.len() > 0 {
        lemma_chars_le_reflexive(a.drop_first());
    }
}

pub proof fn lemma_chars_le_antisymmetric(a: Seq<char>, b: Seq<char>)
    requires
        chars_le(a, b),
        chars_le(b, a),
    ensures
        a == b,
    decreases a.len(),
{
    if a.len() > 0 && b.len() > 0 {
        if a[0] == b[0] {
            lemma_chars_le_antisymmetric(a.drop_first(), b.drop_first());
            assert(a =~= seq![a[0]] + a.drop_first());
            assert(b =~= seq![b[0]] + b.drop_first());
        } else {
            vstd::utf8::char_u32_cast(a[0], a[0] as u32);
        }
    } else {
        assert(a =~= b);
    }
}

pub proof fn lemma_chars_le_transitive(a: Seq<char>, b: Seq<char>, c: Seq<char>)
    requires
        chars_le(a, b),
        chars_le(b, c),
    ensures
        chars_le(a, c),
    decreases a.len(),
{
    if a.len() > 0 && b.len() > 0 && c.len() > 0 {
        if a[0] == b[0] && b[0] == c[0] {
            lemma_chars_le_transitive(a.drop_first(), b.drop_first(), c.drop_first());
        } else if a[0] != c[0] {
            if a[0] == b[0] {
            } else if b[0] == c[0] {
            } else {
            }
        } else {
            // a[0] == c[0] but a[0] != b[0] or b[0] != c[0]
            vstd::utf8::char_u32_cast(a[0], a[0] as u32);
            vstd::utf8::char_u32_cast(c[0], c[0] as u32);
        }
    }
}

pub proof fn lemma_chars_le_total(a: Seq<char>, b: Seq<char>)
    ensures
        chars_le(a, b) || chars_le(b, a),
    decreases a.len(),
{
    if a.len() > 0 && b.len() > 0 {
        if a[0] == b[0] {
            lemma_chars_le_total(a.drop_first(), b.drop_first());
        } else {
            vstd::utf8::char_u32_cast(a[0], a[0] as u32);
            vstd::utf8::char_u32_cast(b[0], b[0] as u32);
        }
    }
}

/// The character order is a total order.
pub proof fn lemma_chars_le_total_ordering()
    ensures
        vstd::relations::total_ordering(chars_le_fn()),
{
    assert forall|x: Seq<char>| #[trigger] (chars_le_fn())(x, x) by {
        lemma_chars_le_reflexive(x);
    }
    assert forall|x: Seq<char>, y: Seq<char>|
        #[trigger] (chars_le_fn())(x, y) && #[trigger] (chars_le_fn())(y, x) implies x == y by {
        lemma_chars_le_antisymmetric(x, y);
    }
    assert forall|x: Seq<char>, y: Seq<char>, z: Seq<char>|
        #[trigger] (chars_le_fn())(x, y) && #[trigger] (chars_le_fn())(y, z) implies (
        chars_le_fn())(x, z) by {
        lemma_chars_le_transitive(x, y, z);
    }
    assert forall|x: Seq<char>, y: Seq<char>|
        #[trigger] (chars_le_fn())(x, y) || #[trigger] (chars_le_fn())(y, x) by {
        lemma_chars_le_total(x, y);
    }
}

/// Compares two character sequences in the order of `String`'s `Ord`.
pub fn chars_le_exec(a: &[char], b: &[char]) -> (r: bool)
    ensures
        r == chars_le(a@, b@),
{
    let mut i: usize = 0;
    assert(a@.skip(0) == a@);
    assert(b@.skip(0) == b@);
    while i < a.len() && i < b.len()
        invariant
            i <= a.len(),
            i <= b.len(),
            forall|k: int| 0 <= k < i ==> a@[k] == b@[k],
            chars_le(a@, b@) == chars_le(a@.skip(i as int), b@.skip(i as int)),
        decreases a.len() - i,
    {
        if a[i] != b[i] {
            return (a[i] as u32) < (b[i] as u32);
        }
        assert(a@.skip(i as int).drop_first() == a@.skip(i + 1));
        assert(b@.skip(i as int).drop_first() == b@.skip(i + 1));
        i = i + 1;
    }
    i == a.len()
}

/// The views of a sequence of strings.
pub open spec fn views(v: Seq<String>) -> Seq<Seq<char>> {
    v.map_values(|s: String| s@)
}

/// Sorts strings in the order of `String`'s `Ord` (what `sort` and
/// `sort_unstable` give on a `Vec<String>`).
pub fn sort_strings(v: Vec<String>) -> (out: Vec<String>)
    ensures
        views(out@) == views(v@).sort_by(chars_le_fn()),
{
    let mut out: Vec<String> = Vec::new();
    let mut keys: Vec<Vec<char>> = Vec::new();
    let mut i: usize = 0;
    proof {
        lemma_chars_le_total_ordering();
        assert(views(out@) =~= views(v@.take(0)));
    }
    while i < v.len()
        invariant
            i <= v.len(),
            keys.len() == out.len(),
            forall|k: int| 0 <= k < keys.len() ==> (#[trigger] keys@[k])@ == out@[k]@,
            vstd::relations::sorted_by(views(out@), chars_le_fn()),
            views(out@).to_multiset() == views(v@.take(i as int)).to_multiset(),
            vstd::relations::total_ordering(chars_le_fn()),
        decreases v.len() - i,
    {
        let x = v[i].clone();
        let xc = chars_of(x.as_str());
        let mut pos: usize = 0;
        while pos < out.len() && chars_le_exec(keys[pos].as_slice(), xc.as_slice())
            invariant
                pos <= out.len(),
                keys.len() == out.len(),
                forall|k: int| 0 <= k < keys.len() ==> (#[trigger] keys@[k])@ == out@[k]@,
                forall|k: int| 0 <= k < pos ==> chars_le(#[trigger] out@[k]@, xc@),
            decreases out.len() - pos,
        {
            pos = pos + 1;
        }
        let ghost old_views = views(out@);
        proof {
            assert forall|k: int| pos <= k < out.len() implies chars_le(xc@, #[trigger] out@[k]@) by {
                if k > pos as int {
                    assert((chars_le_fn())(old_views[pos as int], old_views[k]));
                }
                lemma_chars_le_total(out@[pos as int]@, xc@);
                if !chars_le(xc@, out@[pos as int]@) {
                } else {
                    lemma_chars_le_transitive(xc@, out@[pos as int]@, out@[k]@);
                }
            }
        }
        out.insert(pos, x);
        keys.insert(pos, xc);
        proof {
            assert(views(out@) =~= old_views.insert(pos as int, xc@));
            vstd::seq_lib::to_multiset_insert(old_views, pos as int, xc@);
            assert(v@.take(i + 1) =~= v@.take(i as int).push(v@[i as int]));
            assert(views(v@.take(i + 1)) =~= views(v@.take(i as int)).push(xc@));
            vstd::seq_lib::to_multiset_build(views(v@.take(i as int)), xc@);
            assert forall|a: int, b: int| 0 <= a < b < out.len() implies
                #[trigger] (chars_le_fn())(views(out@)[a], views(out@)[b]) by {
                if a < pos && b < pos {
                    assert((chars_le_fn())(old_views[a], old_views[b]));
                } else if a < pos && b == pos {
                } else if a < pos && b > pos {
                    lemma_chars_le_transitive(old_views[a], xc@, old_views[b - 1]);
                } else if a == pos {
                } else {
                    assert((chars_le_fn())(old_views[a - 1], old_views[b - 1]));
                }
            }
        }
        i = i + 1;
    }
    proof {
        assert(v@.take(v.len() as int) == v@);
        views(v@).lemma_sort_by_ensures(chars_le_fn());
        vstd::seq_lib::lemma_sorted_unique(views(out@), views(v@).sort_by(chars_le_fn()), chars_le_fn());
    }
    out
}

/// `char::is_whitespace`: the characters of Unicode's `White_Space` property.
pub open spec fn is_white_space(c: char) -> bool {
    ||| c == '\t'
    ||| c == '\n'
    ||| c == '\x0B'
    ||| c == '\x0C'
    ||| c == '\r'
    ||| c == ' '
    ||| c == '\u{85}'
    ||| c == '\u{A0}'
    ||| c == '\u{1680}'
    ||| ('\u{2000}' <= c && c <= '\u{200A}')
    ||| c == '\u{2028}'
    ||| c == '\u{2029}'
    ||| c == '\u{202F}'
    ||| c == '\u{205F}'
    ||| c == '\u{3000}'
}

pub fn char_is_white_space(c: char) -> (r: bool)
    ensures
        r == is_white_space(c),
{
    c == '\t' || c == '\n' || c == '\x0B' || c == '\x0C' || c == '\r' || c == ' ' || c == '\u{85}'
        || c == '\u{A0}' || c == '\u{1680}' || ('\u{2000}' <= c && c <= '\u{200A}') || c
        == '\u{2028}' || c == '\u{2029}' || c == '\u{202F}' || c == '\u{205F}' || c == '\u{3000}'
}

pub open spec fn trim_start_ws(s: Seq<char>) -> Seq<char>
    decreases s.len(),
{
    if s.len() > 0 && is_white_space(s[0]) {
        trim_start_ws(s.drop_first())
    } else {
        s
    }
}

pub open spec fn trim_end_ws(s: Seq<char>) -> Seq<char>
    decreases s.len(),
{
    if s.len() > 0 && is_white_space(s.last()) {
        trim_end_ws(s.drop_last())
    } else {
        s
    }
}

/// `str::trim`: without leading and trailing white space.
pub open spec fn trim_ws(s: Seq<char>) -> Seq<char> {
    trim_end_ws(trim_start_ws(s))
}

/// Removes leading and trailing white space (`str::trim`).
pub fn trim_chars(s: &[char]) -> (r: Vec<char>)
    ensures
        r@ == trim_ws(s@),
{
    let mut a: usize = 0;
    assert(s@.skip(0) == s@);
    while a < s.len() && char_is_white_space(s[a])
        invariant
            a <= s.len(),
            trim_start_ws(s@) == trim_start_ws(s@.skip(a as int)),
        decreases s.len() - a,
    {
        assert(s@.skip(a as int).drop_first() == s@.skip(a + 1));
        a = a + 1;
    }
    let ghost mid = s@.skip(a as int);
    assert(trim_start_ws(s@) == mid);
    let mut b: usize = s.len();
    assert(mid.take(mid.len() as int) == mid);
    while b > a && char_is_white_space(s[b - 1])
        invariant
            a <= b <= s.len(),
            mid == s@.skip(a as int),
            trim_end_ws(mid) == trim_end_ws(s@.subrange(a as int, b as int)),
        decreases b,
    {
        assert(s@.subrange(a as int, b as int).drop_last() == s@.subrange(a as int, b - 1));
        b = b - 1;
    }
    assert(s@.subrange(a as int, b as int) == s@.subrange(a as int, b as int));
    let r = slice_to_vec_range(s, a, b);
    r
}

/// The characters of `s` from `a` up to `b`.
pub fn slice_to_vec_range(s: &[char], a: usize, b: usize) -> (r: Vec<char>)
    requires
        a <= b <= s.len(),
    ensures
        r@ == s@.subrange(a as int, b as int),
{
    let mut r: Vec<char> = Vec::new();
    let mut i = a;
    while i < b
        invariant
            a <= i <= b <= s.len(),
            r@ == s@.subrange(a as int, i as int),
        decreases b - i,
    {
        r.push(s[i]);
        assert(s@.subrange(a as int, i + 1) == s@.subrange(a as int, i as int).push(s@[i as int]));
        i = i + 1;
    }
    r
}

/// Trims a string slice (`str::trim`), as characters.
pub fn trim_str(s: &str) -> (r: Vec<char>)
    ensures
        r@ == trim_ws(s@),
{
    let c = chars_of(s);
    trim_chars(c.as_slice())
}

/// `a` starts with `p`.
pub open spec fn has_prefix(a: Seq<char>, p: Seq<char>) -> bool {
    p.len() <= a.len() && a.subrange(0, p.len() as int) == p
}

/// `a` ends with `p`.
pub open spec fn has_suffix(a: Seq<char>, p: Seq<char>) -> bool {
    p.len() <= a.len() && a.subrange(a.len() - p.len(), a.len() as int) == p
}

/// `p` occurs in `a` at `i`.
pub open spec fn occurs_at(a: Seq<char>, p: Seq<char>, i: int) -> bool {
    0 <= i && i + p.len() <= a.len() && a.subrange(i, i + p.len()) == p
}

/// `p` occurs in `a`.
pub open spec fn has_infix(a: Seq<char>, p: Seq<char>) -> bool {
    exists|i: int| occurs_at(a, p, i)
}

pub fn occurs_at_exec(a: &[char], p: &[char], i: usize) -> (r: bool)
    ensures
        r == occurs_at(a@, p@, i as int),
{
    if i > a.len() || a.len() - i < p.len() {
        return false;
    }
    let mut k: usize = 0;
    while k < p.len()
        invariant
            k <= p.len(),
            i + p.len() <= a.len(),
            forall|j: int| 0 <= j < k ==> a@[i + j] == p@[j],
        decreases p.len() - k,
    {
        if a[i + k] != p[k] {
            assert(a@.subrange(i as int, i + p.len())[k as int] != p@[k as int]);
            return false;
        }
        k = k + 1;
    }
    assert(a@.subrange(i as int, i + p.len()) =~= p@);
    true
}

pub fn starts_with_chars(a: &[char], p: &[char]) -> (r: bool)
    ensures
        r == has_prefix(a@, p@),
{
    occurs_at_exec(a, p, 0)
}

pub fn ends_with_chars(a: &[char], p: &[char]) -> (r: bool)
    ensures
        r == has_suffix(a@, p@),
{
    if p.len() > a.len() {
        return false;
    }
    occurs_at_exec(a, p, a.len() - p.len())
}

/// The first index at which `p` occurs in `a` (from `from` on), if any.
pub fn find_chars(a: &[char], p: &[char], from: usize) -> (r: Option<usize>)
    ensures
        match r {
            Some(i) => from <= i && occurs_at(a@, p@, i as int) && forall|j: int|
                from <= j < i ==> !occurs_at(a@, p@, j),
            None => forall|j: int| from <= j ==> !occurs_at(a@, p@, j),
        },
{
    let mut i = from;
    while i < a.len() && !(occurs_at_exec(a, p, i))
        invariant
            from <= i,
            forall|j: int| from <= j < i ==> !occurs_at(a@, p@, j),
        decreases a.len() - i,
    {
        i = i + 1;
    }
    if i < a.len() {
        return Some(i);
    }
    if occurs_at_exec(a, p, i) {
        return Some(i);
    }
    assert forall|j: int| from <= j implies !occurs_at(a@, p@, j) by {
        if j > i {
            assert(j + p@.len() > a@.len() || p@.len() > 0 || j > a@.len());
        }
    }
    None
}

pub fn contains_chars(a: &[char], p: &[char]) -> (r: bool)
    ensures
        r == has_infix(a@, p@),
{
    match find_chars(a, p, 0) {
        Some(i) => {
            assert(occurs_at(a@, p@, i as int));
            true
        },
        None => false,
    }
}

pub open spec fn is_ascii_upper(c: char) -> bool {
    'A' <= c && c <= 'Z'
}

/// `char::to_ascii_lowercase`.
pub open spec fn ascii_lower(c: char) -> char {
    if is_ascii_upper(c) {
        ((c as u32) + 32) as char
    } else {
        c
    }
}

/// `str::to_ascii_lowercase`.
pub open spec fn ascii_lower_seq(s: Seq<char>) -> Seq<char> {
    s.map_values(|c: char| ascii_lower(c))
}

pub fn lower_ascii(s: &[char]) -> (r: Vec<char>)
    ensures
        r@ == ascii_lower_seq(s@),
{
    let mut r: Vec<char> = Vec::new();
    let mut i: usize = 0;
    while i < s.len()
        invariant
            i <= s.len(),
            r@ == ascii_lower_seq(s@.take(i as int)),
        decreases s.len() - i,
    {
        let c = s[i];
        let l = if 'A' <= c && c <= 'Z' {
            let u = (c as u32) + 32;
            proof {
                vstd::utf8::char_u32_cast(c, c as u32);
            }
            assert(u <= 0x7f);
            u as u8 as char
        } else {
            c
        };
        assert(l == ascii_lower(c)) by {
            if 'A' <= c && c <= 'Z' {
                assert((((c as u32) + 32) as u8) as char == (((c as u32) + 32) as char));
            }
        }
        r.push(l);
        assert(ascii_lower_seq(s@.take(i + 1)) =~= ascii_lower_seq(s@.take(i as int)).push(ascii_lower(c)));
        i = i + 1;
    }
    assert(s@.take(s.len() as int) == s@);
    r
}


/// The value of an ASCII digit.
pub open spec fn digit_value(c: char) -> nat {
    ((c as u32) - ('0' as u32)) as nat
}

pub open spec fn all_digits(s: Seq<char>) -> bool {
    forall|i: int| 0 <= i < s.len() ==> is_ascii_digit(#[trigger] s[i])
}

/// The number that a run of decimal digits stands for.
pub open spec fn digits_value(s: Seq<char>) -> nat
    decreases s.len(),
{
    if s.len() == 0 {
        0
    } else {
        digits_value(s.drop_last()) * 10 + digit_value(s.last())
    }
}

/// The digits after an optional `+` sign.
pub open spec fn unsigned_digits(s: Seq<char>) -> Seq<char> {
    if s.len() > 0 && s[0] == '+' {
        s.drop_first()
    } else {
        s
    }
}

/// `from_str` of an unsigned integer type whose largest value is `max`:
/// an optional `+`, then one or more ASCII digits, and a value not above
/// `max`; nothing else (no white space) is accepted.
pub open spec fn spec_parse_unsigned(s: Seq<char>, max: nat) -> Option<nat> {
    let d = unsigned_digits(s);
    if d.len() > 0 && all_digits(d) && digits_value(d) <= max {
        Some(digits_value(d))
    } else {
        None
    }
}

pub open spec fn spec_parse_u64(s: Seq<char>) -> Option<u64> {
    match spec_parse_unsigned(s, u64::MAX as nat) {
        Some(v) => Some(v as u64),
        None => None,
    }
}

pub open spec fn spec_parse_u8(s: Seq<char>) -> Option<u8> {
    match spec_parse_unsigned(s, u8::MAX as nat) {
        Some(v) => Some(v as u8),
        None => None,
    }
}

pub open spec fn spec_parse_usize(s: Seq<char>) -> Option<usize> {
    match spec_parse_unsigned(s, usize::MAX as nat) {
        Some(v) => Some(v as usize),
        None => None,
    }
}

proof fn lemma_digits_value_step(s: Seq<char>, i: int)
    requires
        0 <= i < s.len(),
    ensures
        digits_value(s.take(i + 1)) == digits_value(s.take(i)) * 10 + digit_value(s[i]),
{
    assert(s.take(i + 1).drop_last() == s.take(i));
}

/// Parses digits after an optional `+`, up to `max`.
pub fn parse_unsigned_max(s: &[char], max: u64) -> (r: Option<u64>)
    ensures
        match spec_parse_unsigned(s@, max as nat) {
            Some(v) => r == Some(v as u64),
            None => r is None,
        },
{
    let start: usize = if s.len() > 0 && s[0] == '+' { 1 } else { 0 };
    let ghost d = unsigned_digits(s@);
    assert(d == s@.skip(start as int));
    if start >= s.len() {
        return None;
    }
    let mut value: u64 = 0;
    let mut i: usize = start;
    assert(d.take(0) =~= Seq::<char>::empty());
    while i < s.len()
        invariant
            start <= i <= s.len(),
            d == s@.skip(start as int),
            d == unsigned_digits(s@),
            all_digits(d.take(i - start)),
            value as nat == digits_value(d.take(i - start)),
            value <= max,
        decreases s.len() - i,
    {
        let c = s[i];
        if !('0' <= c && c <= '9') {
            assert(!all_digits(d)) by {
                assert(d[i - start] == c);
            }
            return None;
        }
        let dv = (c as u32) - ('0' as u32);
        proof {
            lemma_digits_value_step(d, i - start);
            assert(d[i - start] == c);
        }
        if value > max / 10 {
            proof {
                assert(value * 10 + dv > max) by (nonlinear_arith)
                    requires value > max / 10;
                lemma_digits_too_large(d, (i - start) as int, max as nat);
            }
            return None;
        }
        assert(value * 10 <= max) by (nonlinear_arith)
            requires value <= max / 10;
        let t = value * 10;
        if max - t < dv as u64 {
            proof {
                lemma_digits_too_large(d, (i - start) as int, max as nat);
            }
            return None;
        }
        value = t + dv as u64;
        assert(all_digits(d.take(i - start + 1))) by {
            assert forall|k: int| 0 <= k < i - start + 1 implies is_ascii_digit(#[trigger] d.take(i - start + 1)[k]) by {
                if k < i - start {
                    assert(d.take(i - start + 1)[k] == d.take(i - start)[k]);
                }
            }
        }
        i = i + 1;
    }
    assert(d.take(i - start) == d);
    Some(value)
}

/// Once a prefix of digits is above `max`, so is every longer run.
proof fn lemma_digits_too_large(d: Seq<char>, i: int, max: nat)
    requires
        0 <= i < d.len(),
        digits_value(d.take(i)) * 10 + digit_value(d[i]) > max,
    ensures
        !(all_digits(d) && digits_value(d) <= max),
    decreases d.len() - i,
{
    if all_digits(d) {
        lemma_digits_value_step(d, i);
        lemma_digits_prefix_le(d, i + 1);
    }
}

proof fn lemma_digits_prefix_le(d: Seq<char>, i: int)
    requires
        0 <= i <= d.len(),
        all_digits(d),
    ensures
        digits_value(d.take(i)) <= digits_value(d),
    decreases d.len() - i,
{
    if i < d.len() {
        lemma_digits_prefix_le(d, i + 1);
        lemma_digits_value_step(d, i);
        assert(d.take(i + 1) == d.take(i + 1));
    } else {
        assert(d.take(i) == d);
    }
}

/// `u64::from_str`.
pub fn parse_u64_chars(s: &[char]) -> (r: Option<u64>)
    ensures
        r == spec_parse_u64(s@),
{
    parse_unsigned_max(s, u64::MAX)
}

/// `u8::from_str`.
pub fn parse_u8_chars(s: &[char]) -> (r: Option<u8>)
    ensures
        r == spec_parse_u8(s@),
{
    match parse_unsigned_max(s, 255) {
        Some(v) => Some(v as u8),
        None => None,
    }
}

/// `usize::from_str`.
pub fn parse_usize_chars(s: &[char]) -> (r: Option<usize>)
    ensures
        r == spec_parse_usize(s@),
{
    match parse_unsigned_max(s, usize::MAX as u64) {
        Some(v) => Some(v as usize),
        None => None,
    }
}

/// `i64::from_str`: an optional sign, then one or more ASCII digits, within
/// the range of `i64`.
pub open spec fn spec_parse_i64(s: Seq<char>) -> Option<i64> {
    if s.len() > 0 && s[0] == '-' {
        let d = s.drop_first();
        if d.len() > 0 && all_digits(d) && digits_value(d) <= 0x8000_0000_0000_0000 {
            Some((0 - digits_value(d)) as i64)
        } else {
            None
        }
    } else {
        match spec_parse_unsigned(s, i64::MAX as nat) {
            Some(v) => Some(v as i64),
            None => None,
        }
    }
}

pub fn parse_i64_chars(s: &[char]) -> (r: Option<i64>)
    ensures
        r == spec_parse_i64(s@),
{
    if s.len() > 0 && s[0] == '-' {
        let rest = slice_to_vec_range(s, 1, s.len());
        assert(rest@ == s@.drop_first());
        if rest.len() > 0 && rest[0] == '+' {
            // a sign after the minus sign is not a digit
            assert(!is_ascii_digit(rest@[0]));
            return None;
        }
        assert(unsigned_digits(rest@) == rest@);
        match parse_unsigned_max(rest.as_slice(), 0x8000_0000_0000_0000) {
            Some(v) => {
                if v == 0x8000_0000_0000_0000 {
                    Some(i64::MIN)
                } else {
                    Some(0 - (v as i64))
                }
            },
            None => None,
        }
    } else {
        match parse_unsigned_max(s, i64::MAX as u64) {
            Some(v) => Some(v as i64),
            None => None,
        }
    }
}

/// The ASCII digit of a value below ten.
pub open spec fn digit_char(d: nat) -> char {
    if d == 0 {
        '0'
    } else if d == 1 {
        '1'
    } else if d == 2 {
        '2'
    } else if d == 3 {
        '3'
    } else if d == 4 {
        '4'
    } else if d == 5 {
        '5'
    } else if d == 6 {
        '6'
    } else if d == 7 {
        '7'
    } else if d == 8 {
        '8'
    } else {
        '9'
    }
}

/// The decimal digits of `n` (what `to_string` gives for an unsigned integer).
pub open spec fn decimal(n: nat) -> Seq<char>
    decreases n,
{
    if n < 10 {
        seq![digit_char(n)]
    } else {
        decimal(n / 10).push(digit_char(n % 10))
    }
}

/// What `to_string` gives for a signed integer.
pub open spec fn signed_decimal(v: int) -> Seq<char> {
    if v < 0 {
        seq!['-'] + decimal((0 - v) as nat)
    } else {
        decimal(v as nat)
    }
}

fn digit_to_char(d: u64) -> (c: char)
    requires
        d < 10,
    ensures
        c == digit_char(d as nat),
{
    match d {
        0 => '0',
        1 => '1',
        2 => '2',
        3 => '3',
        4 => '4',
        5 => '5',
        6 => '6',
        7 => '7',
        8 => '8',
        _ => '9',
    }
}

/// The decimal digits of `n` (`u64::to_string`).
pub fn u64_to_decimal(n: u64) -> (r: Vec<char>)
    ensures
        r@ == decimal(n as nat),
    decreases n,
{
    if n < 10 {
        let mut r: Vec<char> = Vec::new();
        r.push(digit_to_char(n));
        assert(r@ =~= seq![digit_char(n as nat)]);
        r
    } else {
        let mut r = u64_to_decimal(n / 10);
        r.push(digit_to_char(n % 10));
        r
    }
}

/// What `to_string` gives for an `i64`.
pub fn i64_to_decimal(v: i64) -> (r: Vec<char>)
    ensures
        r@ == signed_decimal(v as int),
{
    if v < 0 {
        let magnitude: u64 = if v == i64::MIN {
            0x8000_0000_0000_0000
        } else {
            (0 - v) as u64
        };
        let digits = u64_to_decimal(magnitude);
        let mut r: Vec<char> = Vec::new();
        r.push('-');
        let mut i: usize = 0;
        while i < digits.len()
            invariant
                i <= digits.len(),
                r@ == seq!['-'] + digits@.take(i as int),
            decreases digits.len() - i,
        {
            r.push(digits[i]);
            assert(digits@.take(i + 1) == digits@.take(i as int).push(digits@[i as int]));
            i = i + 1;
        }
        assert(digits@.take(digits.len() as int) == digits@);
        r
    } else {
        u64_to_decimal(v as u64)
    }
}

/// `u64::to_string`.
pub fn u64_to_string(n: u64) -> (s: String)
    ensures
        s@ == decimal(n as nat),
{
    let d = u64_to_decimal(n);
    string_from_chars(d.as_slice())
}

/// `i64::to_string` (and of the narrower signed types).
pub fn i64_to_string(v: i64) -> (s: String)
    ensures
        s@ == signed_decimal(v as int),
{
    let d = i64_to_decimal(v);
    string_from_chars(d.as_slice())
}

pub proof fn lemma_decimal_digits(n: nat)
    ensures
        all_digits(decimal(n)),
        decimal(n).len() > 0,
        digits_value(decimal(n)) == n,
        decimal(n)[0] != '+',
    decreases n,
{
    if n >= 10 {
        lemma_decimal_digits(n / 10);
        let d = decimal(n);
        assert(d.drop_last() == decimal(n / 10));
        assert forall|i: int| 0 <= i < d.len() implies is_ascii_digit(#[trigger] d[i]) by {
            if i < d.len() - 1 {
                assert(d[i] == decimal(n / 10)[i]);
            }
        }
        assert(d[0] == decimal(n / 10)[0]);
        let k = n % 10;
        assert(digit_value(digit_char(k)) == k);
        assert(d.last() == digit_char(k));
        assert(digits_value(d) == digits_value(d.drop_last()) * 10 + digit_value(d.last()));
        assert(n == (n / 10) * 10 + k);
    } else {
        assert(digit_value(digit_char(n)) == n);
        assert(decimal(n).drop_last() =~= Seq::<char>::empty());
        assert(digits_value(decimal(n)) == digits_value(decimal(n).drop_last()) * 10 + digit_value(decimal(n).last()));
    }
}

/// Law: the decimal digits of a number parse back to the number.
pub proof fn law_parse_decimal(n: u64)
    ensures
        spec_parse_u64(decimal(n as nat)) == Some(n),
{
    lemma_decimal_digits(n as nat);
}

/// What `to_string` gives for a signed integer parses back to it.
pub proof fn lemma_parse_signed_decimal(v: int)
    requires
        i64::MIN <= v <= i64::MAX,
    ensures
        spec_parse_i64(signed_decimal(v)) == Some(v as i64),
        forall|i: int| 0 <= i < signed_decimal(v).len() ==>
            is_ascii_digit(#[trigger] signed_decimal(v)[i]) || signed_decimal(v)[i] == '-',
{
    if v < 0 {
        let d = decimal((0 - v) as nat);
        lemma_decimal_digits((0 - v) as nat);
        let s = signed_decimal(v);
        assert(s.drop_first() =~= d);
        assert forall|i: int| 0 <= i < s.len() implies is_ascii_digit(#[trigger] s[i]) || s[i] == '-' by {
            if i > 0 {
                assert(s[i] == d[i - 1]);
            }
        }
    } else {
        lemma_decimal_digits(v as nat);
        assert(decimal(v as nat)[0] != '-');
    }
}


/// Compares two character sequences for equality.
pub fn chars_eq(a: &[char], b: &[char]) -> (r: bool)
    ensures
        r == (a@ == b@),
{
    if a.len() != b.len() {
        return false;
    }
    let mut i: usize = 0;
    while i < a.len()
        invariant
            i <= a.len(),
            a.len() == b.len(),
            forall|k: int| 0 <= k < i ==> a@[k] == b@[k],
        decreases a.len() - i,
    {
        if a[i] != b[i] {
            return false;
        }
        i = i + 1;
    }
    assert(a@ =~= b@);
    true
}

/// Compares two string slices for equality (`==` on `str`).
pub fn str_eq(a: &str, b: &str) -> (r: bool)
    ensures
        r == (a@ == b@),
{
    let x = chars_of(a);
    let y = chars_of(b);
    chars_eq(x.as_slice(), y.as_slice())
}

/// A string from a literal (`to_string`).
pub fn owned(s: &str) -> (r: String)
    ensures
        r@ == s@,
{
    s.to_owned()
}


/// The concatenation of two string slices.
pub fn concat_str(a: &str, b: &str) -> (r: String)
    ensures
        r@ == a@ + b@,
{
    let mut v = chars_of(a);
    let w = chars_of(b);
    let mut i: usize = 0;
    let ghost start = v@;
    while i < w.len()
        invariant
            i <= w.len(),
            v@ == start + w@.take(i as int),
        decreases w.len() - i,
    {
        v.push(w[i]);
        assert(w@.take(i + 1) == w@.take(i as int).push(w@[i as int]));
        i = i + 1;
    }
    assert(w@.take(w.len() as int) == w@);
    string_from_chars(v.as_slice())
}

}
