//! Splitting a sequence at every occurrence of a separator.

use vstd::prelude::*;

verus! {

/// The index of the first occurrence of `x` in `s`, or the length of `s` if
/// there is none.
pub open spec fn position<T>(s: Seq<T>, x: T) -> nat
    decreases s.len(),
{
    if s.len() == 0 || s[0] == x {
        0
    } else {
        1 + position(s.drop_first(), x)
    }
}

/// The pieces of `s` between the occurrences of `sep`. There is always at
/// least one piece; two adjacent separators have an empty piece between them.
pub open spec fn split<T>(s: Seq<T>, sep: T) -> Seq<Seq<T>>
    decreases s.len(),
{
    let n = position(s, sep) as int;
    if n >= s.len() {
        seq![s]
    } else {
        seq![s.take(n)] + split(s.skip(n + 1), sep)
    }
}

/// The pieces put together again, with `sep` between each two.
pub open spec fn join<T>(pieces: Seq<Seq<T>>, sep: T) -> Seq<T>
    decreases pieces.len(),
{
    if pieces.len() == 0 {
        Seq::empty()
    } else if pieces.len() == 1 {
        pieces[0]
    } else {
        pieces[0] + seq![sep] + join(pieces.drop_first(), sep)
    }
}

/// `position` is within the sequence, nothing before it is `x`, and unless
/// it is the length, `x` stands at it.
pub proof fn lemma_position<T>(s: Seq<T>, x: T)
    ensures
        position(s, x) <= s.len(),
        forall|i: int| 0 <= i < position(s, x) ==> s[i] != x,
        position(s, x) < s.len() ==> s[position(s, x) as int] == x,
    decreases s.len(),
{
    if s.len() > 0 && s[0] != x {
        let rest = s.drop_first();
        lemma_position(rest, x);
        assert forall|i: int| 0 <= i < position(s, x) implies s[i] != x by {
            if i > 0 {
                assert(s[i] == rest[i - 1]);
            }
        }
    }
}

/// An index with the properties that `lemma_position` states is the position.
pub proof fn lemma_position_unique<T>(s: Seq<T>, x: T, k: int)
    requires
        0 <= k <= s.len(),
        forall|i: int| 0 <= i < k ==> s[i] != x,
        k < s.len() ==> s[k] == x,
    ensures
        position(s, x) == k,
{
    lemma_position(s, x);
}

/// Splitting yields at least one piece, no piece holds the separator, and
/// joining the pieces gives the sequence back: the three together say what
/// the pieces are.
pub proof fn lemma_split_join<T>(s: Seq<T>, sep: T)
    ensures
        split(s, sep).len() >= 1,
        forall|k: int|
            0 <= k < split(s, sep).len() ==> !(#[trigger] split(s, sep)[k]).contains(sep),
        join(split(s, sep), sep) == s,
    decreases s.len(),
{
    lemma_position(s, sep);
    let n = position(s, sep) as int;
    if n < s.len() {
        let rest = s.skip(n + 1);
        lemma_split_join(rest, sep);
        assert(split(s, sep).drop_first() == split(rest, sep));
    }
}

/// A separator at index `n` of `s`, with none before it, cuts off the first
/// piece.
pub proof fn lemma_split_at_first<T>(s: Seq<T>, sep: T, n: int)
    requires
        0 <= n < s.len(),
        s[n] == sep,
        forall|i: int| 0 <= i < n ==> s[i] != sep,
    ensures
        split(s, sep) == seq![s.take(n)] + split(s.skip(n + 1), sep),
{
    lemma_position_unique(s, sep, n);
}

/// A sequence without the separator is one piece.
pub proof fn lemma_split_none<T>(s: Seq<T>, sep: T)
    requires
        forall|i: int| 0 <= i < s.len() ==> s[i] != sep,
    ensures
        split(s, sep) == seq![s],
{
    lemma_position_unique(s, sep, s.len() as int);
}

/// The index of the first `c` in `s`, or the length of `s`.
pub fn find_char(s: &[char], c: char) -> (r: usize)
    ensures
        r == position(s@, c),
{
    let mut i: usize = 0;
    while i < s.len() && s[i] != c
        invariant
            i <= s.len(),
            forall|j: int| 0 <= j < i ==> s@[j] != c,
        decreases s.len() - i,
    {
        i += 1;
    }
    proof {
        lemma_position_unique(s@, c, i as int);
    }
    i
}

} // verus!
