//! Byte strings: equality, copies and the lexicographic order in which
//! archive paths are compared; and the reversal of a vector.

use vstd::prelude::*;

verus! {

/// The first index at or after `i` at which `a` and `b` stop agreeing: either
/// one of them ends there, or their bytes differ.
pub open spec fn first_diff(a: Seq<u8>, b: Seq<u8>, i: int) -> int
    decreases a.len() - i,
{
    if 0 <= i < a.len() && i < b.len() && a[i] == b[i] {
        first_diff(a, b, i + 1)
    } else {
        i
    }
}

/// `a` comes strictly before `b` in the lexicographic order of bytes: at the
/// first index where they stop agreeing, `a` has ended or holds the smaller
/// byte.
pub open spec fn lex_less(a: Seq<u8>, b: Seq<u8>) -> bool {
    let k = first_diff(a, b, 0);
    k < b.len() && (k == a.len() || a[k] < b[k])
}

/// What `first_diff` returns: the two strings agree from `i` up to it, and not
/// at it.
pub proof fn lemma_first_diff(a: Seq<u8>, b: Seq<u8>, i: int)
    requires
        0 <= i <= a.len(),
        i <= b.len(),
    ensures
        i <= first_diff(a, b, i) <= a.len(),
        first_diff(a, b, i) <= b.len(),
        forall|j: int| i <= j < first_diff(a, b, i) ==> a[j] == b[j],
        first_diff(a, b, i) == a.len() || first_diff(a, b, i) == b.len() || a[first_diff(
            a,
            b,
            i,
        )] != b[first_diff(a, b, i)],
    decreases a.len() - i,
{
    if i < a.len() && i < b.len() && a[i] == b[i] {
        lemma_first_diff(a, b, i + 1);
    }
}

/// `first_diff` is the only index with the properties of `lemma_first_diff`.
pub proof fn lemma_first_diff_unique(a: Seq<u8>, b: Seq<u8>, i: int, k: int)
    requires
        0 <= i <= k <= a.len(),
        k <= b.len(),
        forall|j: int| i <= j < k ==> a[j] == b[j],
        k == a.len() || k == b.len() || a[k] != b[k],
    ensures
        first_diff(a, b, i) == k,
    decreases k - i,
{
    if i < k {
        lemma_first_diff_unique(a, b, i + 1, k);
    }
}

/// Two strings stop agreeing at the same index whichever is named first.
pub proof fn lemma_first_diff_symmetric(a: Seq<u8>, b: Seq<u8>)
    ensures
        first_diff(a, b, 0) == first_diff(b, a, 0),
{
    lemma_first_diff(a, b, 0);
    lemma_first_diff_unique(b, a, 0, first_diff(a, b, 0));
}

/// No string comes before itself.
pub proof fn lemma_lex_irreflexive(a: Seq<u8>)
    ensures
        !lex_less(a, a),
{
    lemma_first_diff_unique(a, a, 0, a.len() as int);
}

/// Of two different strings exactly one comes before the other; of two equal
/// strings neither does.
pub proof fn lemma_lex_total(a: Seq<u8>, b: Seq<u8>)
    ensures
        a == b ==> !lex_less(a, b) && !lex_less(b, a),
        a != b ==> (lex_less(a, b) <==> !lex_less(b, a)),
{
    lemma_first_diff(a, b, 0);
    lemma_first_diff_symmetric(a, b);
    if a == b {
        lemma_lex_irreflexive(a);
    } else {
        let k = first_diff(a, b, 0);
        if k == a.len() && k == b.len() {
            assert(a =~= b);
        }
    }
}

/// The lexicographic order is transitive.
pub proof fn lemma_lex_transitive(a: Seq<u8>, b: Seq<u8>, c: Seq<u8>)
    requires
        lex_less(a, b),
        lex_less(b, c),
    ensures
        lex_less(a, c),
{
    lemma_first_diff(a, b, 0);
    lemma_first_diff(b, c, 0);
    let k1 = first_diff(a, b, 0);
    let k2 = first_diff(b, c, 0);
    let k = if k1 <= k2 {
        k1
    } else {
        k2
    };
    assert forall|j: int| 0 <= j < k implies a[j] == c[j] by {
        assert(a[j] == b[j]);
        assert(b[j] == c[j]);
    }
    lemma_first_diff_unique(a, c, 0, k);
}

/// Whether `a` comes strictly before `b` in the lexicographic order of bytes.
pub fn bytes_less(a: &Vec<u8>, b: &Vec<u8>) -> (r: bool)
    ensures
        r == lex_less(a@, b@),
{
    let mut i: usize = 0;
    while i < a.len() && i < b.len() && a[i] == b[i]
        invariant
            i <= a.len(),
            i <= b.len(),
            first_diff(a@, b@, 0) == first_diff(a@, b@, i as int),
        decreases a.len() - i,
    {
        i = i + 1;
    }
    i < b.len() && (i == a.len() || a[i] < b[i])
}

/// Whether `a` and `b` hold the same bytes.
pub fn bytes_eq(a: &Vec<u8>, b: &Vec<u8>) -> (r: bool)
    ensures
        r == (a@ == b@),
{
    if a.len() != b.len() {
        return false;
    }
    let mut i: usize = 0;
    while i < a.len()
        invariant
            i <= a.len(),
            a.len() == b.len(),
            forall|j: int| 0 <= j < i ==> a@[j] == b@[j],
        decreases a.len() - i,
    {
        if a[i] != b[i] {
            return false;
        }
        i = i + 1;
    }
    assert(a@ =~= b@);
    true
}

/// A copy of the bytes of `s` from `from` up to, not including, `to`.
pub fn copy_range(s: &Vec<u8>, from: usize, to: usize) -> (r: Vec<u8>)
    requires
        from <= to <= s.len(),
    ensures
        r@ == s@.subrange(from as int, to as int),
{
    let mut r: Vec<u8> = Vec::new();
    let mut i: usize = from;
    while i < to
        invariant
            from <= i <= to <= s.len(),
            r@ == s@.subrange(from as int, i as int),
        decreases to - i,
    {
        r.push(s[i]);
        assert(r@ =~= s@.subrange(from as int, i + 1));
        i = i + 1;
    }
    r
}

/// The elements of a vector in the reverse of their order.
pub fn reversed<A>(v: Vec<A>) -> (r: Vec<A>)
    ensures
        r@ == v@.reverse(),
{
    let mut v = v;
    let ghost all = v@;
    let mut r: Vec<A> = Vec::new();
    while v.len() > 0
        invariant
            v@.len() + r@.len() == all.len(),
            v@ == all.subrange(0, v@.len() as int),
            forall|i: int| 0 <= i < r@.len() ==> r@[i] == all[all.len() - 1 - i],
        decreases v@.len(),
    {
        let ghost before = v@;
        let last = v.pop().unwrap();
        assert(v@ =~= all.subrange(0, v@.len() as int));
        assert(last == all[before.len() - 1]);
        r.push(last);
    }
    assert(r@ =~= all.reverse());
    r
}

} // verus!
