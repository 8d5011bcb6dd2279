//! The order in which search results are listed: a stable sort by a key,
//! reversed when the order is descending.
use vstd::prelude::*;
use crate::text::{chars_le, chars_le_exec, chars_of, lemma_chars_le_antisymmetric,
    lemma_chars_le_total, lemma_chars_le_transitive};

verus! {

/// In a stable ascending sort by integer key, entry `a` comes before entry
/// `b`: its key is smaller, or the keys are equal and it came first.
pub open spec fn number_before(keys: Seq<u64>, a: int, b: int) -> bool {
    keys[a] < keys[b] || (keys[a] == keys[b] && a < b)
}

/// In a stable ascending sort by text key (in `String`'s order), entry `a`
/// comes before entry `b`.
pub open spec fn text_before(keys: Seq<Seq<char>>, a: int, b: int) -> bool {
    (chars_le(keys[a], keys[b]) && keys[a] != keys[b]) || (keys[a] == keys[b] && a < b)
}

/// `order` lists each index below `n` exactly once.
pub open spec fn lists_indices(order: Seq<usize>, n: int) -> bool {
    &&& order.len() == n
    &&& forall|p: int| 0 <= p < n ==> (order[p] as int) < n
    &&& forall|j: usize| (j as int) < n ==> #[trigger] order.contains(j)
}

/// `order` is the stable sort of entries by integer key: ascending, or that
/// order reversed.
pub open spec fn is_number_order(keys: Seq<u64>, order: Seq<usize>, ascending: bool) -> bool {
    &&& lists_indices(order, keys.len() as int)
    &&& forall|p: int, q: int| 0 <= p < q < order.len() ==> if ascending {
        number_before(keys, #[trigger] order[p] as int, #[trigger] order[q] as int)
    } else {
        number_before(keys, order[q] as int, order[p] as int)
    }
}

/// `order` is the stable sort of entries by text key: ascending, or that
/// order reversed.
pub open spec fn is_text_order(keys: Seq<Seq<char>>, order: Seq<usize>, ascending: bool) -> bool {
    &&& lists_indices(order, keys.len() as int)
    &&& forall|p: int, q: int| 0 <= p < q < order.len() ==> if ascending {
        text_before(keys, #[trigger] order[p] as int, #[trigger] order[q] as int)
    } else {
        text_before(keys, order[q] as int, order[p] as int)
    }
}

/// The entries of `v` from last to first.
fn reversed(v: &Vec<usize>) -> (r: Vec<usize>)
    ensures
        r@.len() == v@.len(),
        forall|p: int| 0 <= p < v@.len() ==> #[trigger] r@[p] == v@[v@.len() - 1 - p],
{
    let mut r: Vec<usize> = Vec::new();
    let mut k: usize = v.len();
    while k > 0
        invariant
            k <= v.len(),
            r@.len() == v.len() - k,
            forall|p: int| 0 <= p < r@.len() ==> #[trigger] r@[p] == v@[v@.len() - 1 - p],
        decreases k,
    {
        k = k - 1;
        r.push(v[k]);
    }
    r
}

proof fn lemma_insert_lists(prev: Seq<usize>, pos: int, i: int)
    requires
        0 <= pos <= prev.len(),
        prev.len() == i,
        forall|p: int| 0 <= p < i ==> (prev[p] as int) < i,
        forall|j: usize| (j as int) < i ==> #[trigger] prev.contains(j),
    ensures
        lists_indices(prev.insert(pos, i as usize), i + 1),
{
    let new = prev.insert(pos, i as usize);
    assert forall|j: usize| (j as int) < i + 1 implies #[trigger] new.contains(j) by {
        if j as int == i {
            assert(new[pos] == j);
        } else {
            assert(prev.contains(j));
            let p = choose|p: int| 0 <= p < prev.len() && prev[p] == j;
            if p < pos {
                assert(new[p] == j);
            } else {
                assert(new[p + 1] == j);
            }
        }
    }
}

proof fn lemma_reverse_lists(asc: Seq<usize>, desc: Seq<usize>, n: int)
    requires
        lists_indices(asc, n),
        desc.len() == n,
        forall|p: int| 0 <= p < n ==> #[trigger] desc[p] == asc[n - 1 - p],
    ensures
        lists_indices(desc, n),
{
    assert forall|p: int| 0 <= p < n implies (desc[p] as int) < n by {
        assert(desc[p] == asc[n - 1 - p]);
    }
    assert forall|j: usize| (j as int) < n implies #[trigger] desc.contains(j) by {
        assert(asc.contains(j));
        let t = choose|t: int| 0 <= t < asc.len() && asc[t] == j;
        assert(desc[n - 1 - t] == asc[t]);
    }
}

/// The stable ascending order of entries by integer key.
fn ascending_number_order(keys: &Vec<u64>) -> (r: Vec<usize>)
    ensures
        is_number_order(keys@, r@, true),
{
    let mut r: Vec<usize> = Vec::new();
    let mut i: usize = 0;
    while i < keys.len()
        invariant
            i <= keys.len(),
            r@.len() == i,
            forall|p: int| 0 <= p < i ==> (r@[p] as int) < i,
            forall|j: usize| j < i ==> #[trigger] r@.contains(j),
            forall|p: int, q: int| 0 <= p < q < i ==>
                number_before(keys@, #[trigger] r@[p] as int, #[trigger] r@[q] as int),
        decreases keys.len() - i,
    {
        let mut pos: usize = 0;
        while pos < r.len() && keys[r[pos]] <= keys[i]
            invariant
                pos <= r@.len(),
                r@.len() == i,
                i < keys.len(),
                forall|p: int| 0 <= p < i ==> (r@[p] as int) < i,
                forall|p: int| 0 <= p < pos ==> keys@[#[trigger] r@[p] as int] <= keys@[i as int],
            decreases r@.len() - pos,
        {
            pos = pos + 1;
        }
        let ghost prev = r@;
        proof {
            assert forall|q: int| pos <= q < i implies keys@[i as int] < keys@[#[trigger] prev[q] as int] by {
                if q > pos {
                    assert(number_before(keys@, prev[pos as int] as int, prev[q] as int));
                }
            }
        }
        r.insert(pos, i);
        proof {
            lemma_insert_lists(prev, pos as int, i as int);
            assert forall|p: int, q: int| 0 <= p < q < i + 1 implies
                number_before(keys@, #[trigger] r@[p] as int, #[trigger] r@[q] as int) by {
                if p < pos && q < pos {
                    assert(number_before(keys@, prev[p] as int, prev[q] as int));
                } else if p < pos && q == pos {
                    assert(keys@[prev[p] as int] <= keys@[i as int]);
                } else if p < pos {
                    assert(number_before(keys@, prev[p] as int, prev[q - 1] as int));
                } else if p == pos {
                    assert(keys@[i as int] < keys@[prev[q - 1] as int]);
                } else {
                    assert(number_before(keys@, prev[p - 1] as int, prev[q - 1] as int));
                }
            }
        }
        i = i + 1;
    }
    r
}

/// The order in which entries with these integer keys are listed: a stable
/// sort by key, reversed when `ascending` is false (so entries with equal
/// keys then come last one first).
pub fn order_by_number(keys: &Vec<u64>, ascending: bool) -> (r: Vec<usize>)
    ensures
        is_number_order(keys@, r@, ascending),
{
    let asc = ascending_number_order(keys);
    if ascending {
        asc
    } else {
        let desc = reversed(&asc);
        proof {
            let n = keys@.len() as int;
            lemma_reverse_lists(asc@, desc@, n);
            assert forall|p: int, q: int| 0 <= p < q < desc@.len() implies
                number_before(keys@, #[trigger] desc@[q] as int, #[trigger] desc@[p] as int) by {
                assert(number_before(keys@, asc@[n - 1 - q] as int, asc@[n - 1 - p] as int));
            }
        }
        desc
    }
}

/// The stable ascending order of entries by text key.
fn ascending_text_order(keys: &Vec<Vec<char>>) -> (r: Vec<usize>)
    ensures
        is_text_order(keys@.map_values(|k: Vec<char>| k@), r@, true),
{
    let ghost ks = keys@.map_values(|k: Vec<char>| k@);
    let mut r: Vec<usize> = Vec::new();
    let mut i: usize = 0;
    while i < keys.len()
        invariant
            i <= keys.len(),
            ks == keys@.map_values(|k: Vec<char>| k@),
            r@.len() == i,
            forall|p: int| 0 <= p < i ==> (r@[p] as int) < i,
            forall|j: usize| j < i ==> #[trigger] r@.contains(j),
            forall|p: int, q: int| 0 <= p < q < i ==>
                text_before(ks, #[trigger] r@[p] as int, #[trigger] r@[q] as int),
        decreases keys.len() - i,
    {
        let mut pos: usize = 0;
        while pos < r.len() && chars_le_exec(keys[r[pos]].as_slice(), keys[i].as_slice())
            invariant
                pos <= r@.len(),
                r@.len() == i,
                i < keys.len(),
                ks == keys@.map_values(|k: Vec<char>| k@),
                forall|p: int| 0 <= p < i ==> (r@[p] as int) < i,
                forall|p: int| 0 <= p < pos ==> chars_le(ks[#[trigger] r@[p] as int], ks[i as int]),
            decreases r@.len() - pos,
        {
            proof {
                assert(ks[r@[pos as int] as int] == keys@[r@[pos as int] as int]@);
                assert(ks[i as int] == keys@[i as int]@);
            }
            pos = pos + 1;
        }
        let ghost prev = r@;
        let ghost ki = ks[i as int];
        proof {
            if pos < i {
                assert(ks[prev[pos as int] as int] == keys@[prev[pos as int] as int]@);
                assert(ki == keys@[i as int]@);
                lemma_chars_le_total(ks[prev[pos as int] as int], ki);
            }
            assert forall|q: int| pos <= q < i implies
                chars_le(ki, ks[#[trigger] prev[q] as int]) && ki != ks[prev[q] as int] by {
                let kp = ks[prev[pos as int] as int];
                let kq = ks[prev[q] as int];
                if q > pos {
                    assert(text_before(ks, prev[pos as int] as int, prev[q] as int));
                    if kp == kq {
                    } else {
                        lemma_chars_le_transitive(ki, kp, kq);
                        if ki == kq {
                            lemma_chars_le_antisymmetric(kp, ki);
                        }
                    }
                }
            }
        }
        r.insert(pos, i);
        proof {
            lemma_insert_lists(prev, pos as int, i as int);
            assert forall|p: int, q: int| 0 <= p < q < i + 1 implies
                text_before(ks, #[trigger] r@[p] as int, #[trigger] r@[q] as int) by {
                if p < pos && q < pos {
                    assert(text_before(ks, prev[p] as int, prev[q] as int));
                } else if p < pos && q == pos {
                    assert(chars_le(ks[prev[p] as int], ki));
                } else if p < pos {
                    assert(text_before(ks, prev[p] as int, prev[q - 1] as int));
                } else if p == pos {
                    assert(chars_le(ki, ks[prev[q - 1] as int]) && ki != ks[prev[q - 1] as int]);
                } else {
                    assert(text_before(ks, prev[p - 1] as int, prev[q - 1] as int));
                }
            }
        }
        i = i + 1;
    }
    r
}

/// The order in which entries with these text keys are listed: a stable
/// sort in `String`'s order, reversed when `ascending` is false.
pub fn order_by_text(keys: &Vec<String>, ascending: bool) -> (r: Vec<usize>)
    ensures
        is_text_order(keys@.map_values(|k: String| k@), r@, ascending),
{
    let mut chars: Vec<Vec<char>> = Vec::new();
    let mut i: usize = 0;
    while i < keys.len()
        invariant
            i <= keys.len(),
            chars@.len() == i,
            forall|p: int| 0 <= p < i ==> (#[trigger] chars@[p])@ == keys@[p]@,
        decreases keys.len() - i,
    {
        chars.push(chars_of(keys[i].as_str()));
        i = i + 1;
    }
    let ghost ks = keys@.map_values(|k: String| k@);
    assert(chars@.map_values(|k: Vec<char>| k@) =~= ks);
    let asc = ascending_text_order(&chars);
    if ascending {
        asc
    } else {
        let desc = reversed(&asc);
        proof {
            let n = keys@.len() as int;
            lemma_reverse_lists(asc@, desc@, n);
            assert forall|p: int, q: int| 0 <= p < q < desc@.len() implies
                text_before(ks, #[trigger] desc@[q] as int, #[trigger] desc@[p] as int) by {
                assert(text_before(ks, asc@[n - 1 - q] as int, asc@[n - 1 - p] as int));
            }
        }
        desc
    }
}

}
