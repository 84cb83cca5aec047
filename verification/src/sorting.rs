//! Ordered renderings of collections of names: sorted with duplicates kept,
//! and sorted with each name once.

use crate::text::{
    from_chars, lemma_lex_le_total, lemma_lex_le_transitive, lex_le, lex_less, lex_lt, strings,
    texts,
};
use vstd::prelude::*;
use vstd::relations::{sorted_by, total_ordering};
use vstd::seq_lib::{
    lemma_multiset_commutative, lemma_sorted_unique, to_multiset_build, to_multiset_contains,
};

verus! {

/// Each element comes before the later ones or equals them.
pub open spec fn sorted(s: Seq<Seq<char>>) -> bool {
    forall|i: int, j: int| 0 <= i < j < s.len() ==> lex_le(#[trigger] s[i], #[trigger] s[j])
}

/// Each element comes strictly before the later ones.
pub open spec fn strictly_sorted(s: Seq<Seq<char>>) -> bool {
    forall|i: int, j: int| 0 <= i < j < s.len() ==> lex_lt(#[trigger] s[i], #[trigger] s[j])
}

/// `s` holds the items of `items` in ascending order, each as often as
/// `items` has it.
pub open spec fn lists_all(s: Seq<Seq<char>>, items: Seq<Seq<char>>) -> bool {
    sorted(s) && s.to_multiset() == items.to_multiset()
}

/// `s` holds the members of `set` in ascending order, each once.
pub open spec fn lists_set(s: Seq<Seq<char>>, set: Set<Seq<char>>) -> bool {
    strictly_sorted(s) && s.to_set() == set
}

/// Nothing in `s` comes after `x`.
pub open spec fn bounded_by(s: Seq<Seq<char>>, x: Seq<char>) -> bool {
    forall|k: int| 0 <= k < s.len() ==> lex_le(#[trigger] s[k], x)
}

/// A sorted list stays sorted when an item is added at its end that nothing
/// in the list comes after; and what the added item does not come after,
/// nothing in the longer list comes after.
proof fn lemma_push_sorted(s: Seq<Seq<char>>, x: Seq<char>, y: Seq<char>)
    requires
        sorted(s),
        bounded_by(s, x),
        lex_le(x, y),
    ensures
        sorted(s.push(x)),
        bounded_by(s.push(x), y),
{
    assert forall|k: int| 0 <= k < s.push(x).len() implies lex_le(#[trigger] s.push(x)[k], y) by {
        if k < s.len() {
            lemma_lex_le_transitive(s[k], x, y);
        }
    }
}

/// The first `i + 1` items are the first `i` items and the item at `i`.
proof fn lemma_take_next(s: Seq<Seq<char>>, i: int)
    requires
        0 <= i < s.len(),
    ensures
        s.take(i + 1) == s.take(i).push(s[i]),
        s.take(i + 1).to_multiset() == s.take(i).to_multiset().insert(s[i]),
        s.take(i + 1).to_set() == s.take(i).to_set().insert(s[i]),
{
    assert(s.take(i + 1) == s.take(i).push(s[i]));
    to_multiset_build(s.take(i), s[i]);
    s.take(i).lemma_push_to_set_commute(s[i]);
}

/// Merges two sorted lists into one.
fn merge<'a>(a: &Vec<&'a [char]>, b: &Vec<&'a [char]>) -> (r: Vec<&'a [char]>)
    requires
        sorted(texts(a@)),
        sorted(texts(b@)),
    ensures
        sorted(texts(r@)),
        texts(r@).to_multiset() == texts(a@).to_multiset().add(texts(b@).to_multiset()),
{
    let mut out: Vec<&'a [char]> = Vec::new();
    let mut i: usize = 0;
    let mut j: usize = 0;
    let ghost left = texts(a@);
    let ghost right = texts(b@);
    proof {
        let none = Seq::<Seq<char>>::empty();
        assert(texts(out@) == none && left.take(0) == none && right.take(0) == none);
        none.to_multiset_ensures();
    }
    while i < a.len() || j < b.len()
        invariant
            left == texts(a@),
            right == texts(b@),
            sorted(left),
            sorted(right),
            i <= a.len(),
            j <= b.len(),
            sorted(texts(out@)),
            texts(out@).to_multiset() == left.take(i as int).to_multiset().add(
                right.take(j as int).to_multiset(),
            ),
            i < a.len() ==> bounded_by(texts(out@), left[i as int]),
            j < b.len() ==> bounded_by(texts(out@), right[j as int]),
        decreases a.len() - i + b.len() - j,
    {
        let from_left = if i >= a.len() {
            false
        } else if j >= b.len() {
            true
        } else {
            !lex_less(b[j], a[i])
        };
        let ghost before = texts(out@);
        if from_left {
            out.push(a[i]);
            proof {
                let x = left[i as int];
                assert(texts(out@) == before.push(x));
                lemma_take_next(left, i as int);
                to_multiset_build(before, x);
                assert(texts(out@).to_multiset() == left.take(i + 1).to_multiset().add(
                    right.take(j as int).to_multiset(),
                ));
                lemma_push_sorted(before, x, x);
                if i + 1 < a.len() {
                    lemma_push_sorted(before, x, left[i + 1]);
                }
                if j < b.len() {
                    lemma_lex_le_total(right[j as int], x);
                    lemma_push_sorted(before, x, right[j as int]);
                }
            }
            i += 1;
        } else {
            out.push(b[j]);
            proof {
                let x = right[j as int];
                assert(texts(out@) == before.push(x));
                lemma_take_next(right, j as int);
                to_multiset_build(before, x);
                assert(texts(out@).to_multiset() == left.take(i as int).to_multiset().add(
                    right.take(j + 1).to_multiset(),
                ));
                lemma_push_sorted(before, x, x);
                if j + 1 < b.len() {
                    lemma_push_sorted(before, x, right[j + 1]);
                }
                if i < a.len() {
                    lemma_lex_le_total(x, left[i as int]);
                    lemma_push_sorted(before, x, left[i as int]);
                }
            }
            j += 1;
        }
    }
    assert(left.take(a.len() as int) == left);
    assert(right.take(b.len() as int) == right);
    out
}

/// Sorts the items of `v` from index `lo` up to `hi`.
fn sort_range<'a>(v: &Vec<&'a [char]>, lo: usize, hi: usize) -> (r: Vec<&'a [char]>)
    requires
        lo <= hi <= v.len(),
    ensures
        lists_all(texts(r@), texts(v@).subrange(lo as int, hi as int)),
    decreases hi - lo,
{
    let ghost all = texts(v@);
    if hi - lo <= 1 {
        let mut out: Vec<&'a [char]> = Vec::new();
        if lo < hi {
            out.push(v[lo]);
        }
        assert(texts(out@) == all.subrange(lo as int, hi as int));
        out
    } else {
        let mid = lo + (hi - lo) / 2;
        let left = sort_range(v, lo, mid);
        let right = sort_range(v, mid, hi);
        proof {
            lemma_multiset_commutative(
                all.subrange(lo as int, mid as int),
                all.subrange(mid as int, hi as int),
            );
            assert(all.subrange(lo as int, mid as int) + all.subrange(mid as int, hi as int)
                == all.subrange(lo as int, hi as int));
        }
        merge(&left, &right)
    }
}

/// Sorts a list of names into ascending order. Names that occur several
/// times stay that often.
pub fn sort_texts<'a>(v: &Vec<&'a [char]>) -> (r: Vec<&'a [char]>)
    ensures
        lists_all(texts(r@), texts(v@)),
{
    assert(texts(v@).subrange(0, v.len() as int) == texts(v@));
    sort_range(v, 0, v.len())
}

/// A strictly ascending list stays so when an item is added at its end that
/// comes after the last one.
proof fn lemma_push_strictly_sorted(s: Seq<Seq<char>>, x: Seq<char>)
    requires
        strictly_sorted(s),
        s.len() > 0 ==> lex_lt(s.last(), x),
    ensures
        strictly_sorted(s.push(x)),
{
    let t = s.push(x);
    assert forall|k: int, m: int| 0 <= k < m < t.len() implies lex_lt(
        #[trigger] t[k],
        #[trigger] t[m],
    ) by {
        if m == s.len() {
            if k < s.len() - 1 {
                assert(lex_lt(s[k], s[s.len() - 1]));
            }
            lemma_lex_le_transitive(s[k], s.last(), x);
        }
    }
}

/// Drops the repetitions from a sorted list.
fn dedup_sorted<'a>(v: &Vec<&'a [char]>) -> (r: Vec<&'a [char]>)
    requires
        sorted(texts(v@)),
    ensures
        lists_set(texts(r@), texts(v@).to_set()),
{
    let mut out: Vec<&'a [char]> = Vec::new();
    let mut i: usize = 0;
    let ghost all = texts(v@);
    while i < v.len()
        invariant
            all == texts(v@),
            sorted(all),
            i <= v.len(),
            strictly_sorted(texts(out@)),
            texts(out@).to_set() == all.take(i as int).to_set(),
            out.len() > 0 ==> i > 0 && texts(out@).last() == all[i - 1],
        decreases v.len() - i,
    {
        let keep = if out.len() == 0 {
            true
        } else {
            lex_less(out[out.len() - 1], v[i])
        };
        let ghost before = texts(out@);
        proof {
            lemma_take_next(all, i as int);
        }
        if keep {
            out.push(v[i]);
            proof {
                assert(texts(out@) == before.push(all[i as int]));
                before.lemma_push_to_set_commute(all[i as int]);
                lemma_push_strictly_sorted(before, all[i as int]);
            }
        } else {
            proof {
                lemma_lex_le_total(all[i - 1], all[i as int]);
            }
        }
        i += 1;
    }
    assert(all.take(v.len() as int) == all);
    out
}

/// Makes a string of each name.
pub fn to_strings(v: &Vec<&[char]>) -> (r: Vec<String>)
    ensures
        strings(r@) == texts(v@),
{
    let mut out: Vec<String> = Vec::new();
    let mut i: usize = 0;
    while i < v.len()
        invariant
            i <= v.len(),
            strings(out@) == texts(v@).take(i as int),
        decreases v.len() - i,
    {
        let name = from_chars(v[i]);
        out.push(name);
        assert(texts(v@).take(i + 1) == texts(v@).take(i as int).push(v@[i as int]@));
        i += 1;
    }
    out
}

/// The names of `items` in ascending order, each as often as it occurs.
pub fn sorted_strings(items: &Vec<&[char]>) -> (r: Vec<String>)
    ensures
        lists_all(strings(r@), texts(items@)),
{
    let ordered = sort_texts(items);
    to_strings(&ordered)
}

/// The set of the names of `items` as a list in ascending order, each name
/// once however often it occurs.
pub fn as_sorted_vec(items: &Vec<&[char]>) -> (r: Vec<String>)
    ensures
        lists_set(strings(r@), texts(items@).to_set()),
{
    let ordered = sort_texts(items);
    proof {
        lemma_same_items_same_set(texts(ordered@), texts(items@));
    }
    let distinct = dedup_sorted(&ordered);
    to_strings(&distinct)
}

/// Two lists with the same items, however arranged, have the same set of
/// items.
pub proof fn lemma_same_items_same_set(a: Seq<Seq<char>>, b: Seq<Seq<char>>)
    requires
        a.to_multiset() == b.to_multiset(),
    ensures
        a.to_set() == b.to_set(),
{
    assert forall|x: Seq<char>| a.to_set().contains(x) <==> b.to_set().contains(x) by {
        to_multiset_contains(a, x);
        to_multiset_contains(b, x);
    }
}

/// The ascending arrangement of a list is unique.
pub proof fn lemma_lists_all_unique(a: Seq<Seq<char>>, b: Seq<Seq<char>>, items: Seq<Seq<char>>)
    requires
        lists_all(a, items),
        lists_all(b, items),
    ensures
        a == b,
{
    let leq = |x: Seq<char>, y: Seq<char>| lex_le(x, y);
    assert(total_ordering(leq)) by {
        assert forall|x: Seq<char>, y: Seq<char>| #[trigger]
            leq(x, y) && #[trigger] leq(y, x) implies x == y by {
            lemma_lex_le_total(x, y);
        }
        assert forall|x: Seq<char>, y: Seq<char>, z: Seq<char>| #[trigger]
            leq(x, y) && #[trigger] leq(y, z) implies leq(x, z) by {
            lemma_lex_le_transitive(x, y, z);
        }
        assert forall|x: Seq<char>, y: Seq<char>| #[trigger] leq(x, y) || #[trigger] leq(y, x) by {
            lemma_lex_le_total(x, y);
        }
    }
    assert(sorted_by(a, leq));
    assert(sorted_by(b, leq));
    lemma_sorted_unique(a, b, leq);
}

/// A strictly ascending list holds nothing twice.
pub proof fn lemma_strictly_sorted_distinct(s: Seq<Seq<char>>)
    requires
        strictly_sorted(s),
    ensures
        s.no_duplicates(),
        sorted(s),
{
    assert forall|i: int, j: int| 0 <= i < s.len() && 0 <= j < s.len() && i != j implies s[i]
        != s[j] by {
        if i < j {
            lemma_lex_le_total(s[i], s[j]);
        } else {
            lemma_lex_le_total(s[j], s[i]);
        }
    }
}

/// The ascending list of a set is unique: whatever order the names came in,
/// and however often, the same set is listed the same way.
pub proof fn lemma_lists_set_unique(a: Seq<Seq<char>>, b: Seq<Seq<char>>, set: Set<Seq<char>>)
    requires
        lists_set(a, set),
        lists_set(b, set),
    ensures
        a == b,
{
    lemma_strictly_sorted_distinct(a);
    lemma_strictly_sorted_distinct(b);
    a.lemma_multiset_has_no_duplicates();
    b.lemma_multiset_has_no_duplicates();
    assert forall|x: Seq<char>| a.to_multiset().count(x) == b.to_multiset().count(x) by {
        to_multiset_contains(a, x);
        to_multiset_contains(b, x);
        assert(a.to_set().contains(x) == b.to_set().contains(x));
    }
    assert(a.to_multiset() =~= b.to_multiset());
    lemma_lists_all_unique(a, b, a);
}

} // verus!
