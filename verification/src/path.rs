//! Archive paths as byte strings: the name an entry ends in, the directory it
//! lies in, and the components that place it in a tree.
//!
//! Segments are separated by `/`. Empty segments and `.` segments name
//! nothing; a `..` segment is kept as a component but is never a name.

use vstd::prelude::*;
use crate::bytes::copy_range;

verus! {

/// The separator of path segments, `/`.
pub const SEP: u8 = 47;

/// The byte `.`.
pub const DOT: u8 = 46;

/// The segment `..`.
pub open spec fn dot_dot() -> Seq<u8> {
    seq![DOT, DOT]
}

/// Whether `p` ends in a byte that belongs to no name: a separator, or the
/// single `.` of a `.` segment.
pub open spec fn ends_idle(p: Seq<u8>) -> bool {
    p.len() > 0 && (p.last() == SEP || (p.last() == DOT && (p.len() == 1 || p[p.len() - 2]
        == SEP)))
}

/// `p` without the separators and `.` segments that end it.
pub open spec fn trim_end(p: Seq<u8>) -> Seq<u8>
    decreases p.len(),
{
    if ends_idle(p) {
        trim_end(p.drop_last())
    } else {
        p
    }
}

/// The index at which the last segment of `t` starts: just after its last
/// separator, or 0 where it has none.
pub open spec fn name_start(t: Seq<u8>) -> int
    decreases t.len(),
{
    if t.len() == 0 || t.last() == SEP {
        t.len() as int
    } else {
        name_start(t.drop_last())
    }
}

/// The last segment of `p` once trimmed, whatever it is; empty where nothing
/// is left of `p`.
pub open spec fn last_segment(p: Seq<u8>) -> Seq<u8> {
    let t = trim_end(p);
    t.subrange(name_start(t), t.len() as int)
}

/// The name that `p` ends in: its last segment once trimmed, unless nothing is
/// left or that segment is `..`.
pub open spec fn basename(p: Seq<u8>) -> Option<Seq<u8>> {
    if trim_end(p).len() == 0 || last_segment(p) == dot_dot() {
        None
    } else {
        Some(last_segment(p))
    }
}

/// The directory that `p` lies in: what stands before its last segment,
/// trimmed in turn.
pub open spec fn dirname(p: Seq<u8>) -> Seq<u8> {
    let t = trim_end(p);
    trim_end(t.subrange(0, name_start(t)))
}

/// The components of `p`: its segments in order, without the empty ones and
/// the `.` ones.
pub open spec fn components(p: Seq<u8>) -> Seq<Seq<u8>>
    decreases p.len(),
{
    let t = trim_end(p);
    if t.len() == 0 {
        Seq::empty()
    } else {
        proof {
            lemma_trim_end(p);
            lemma_name_start(t);
        }
        components(t.subrange(0, name_start(t))).push(last_segment(p))
    }
}

/// A component that names an entry of a directory: not empty, not `.`, not
/// `..`, and free of separators.
pub open spec fn plain_name(n: Seq<u8>) -> bool {
    &&& n.len() > 0
    &&& n != seq![DOT]
    &&& n != dot_dot()
    &&& forall|i: int| 0 <= i < n.len() ==> n[i] != SEP
}

/// Whether `p` climbs: one of its segments is `..`.
pub open spec fn climbs(p: Seq<u8>) -> bool
    decreases p.len(),
{
    let t = trim_end(p);
    if t.len() == 0 {
        false
    } else {
        proof {
            lemma_trim_end(p);
            lemma_name_start(t);
        }
        last_segment(p) == dot_dot() || climbs(t.subrange(0, name_start(t)))
    }
}

/// A path climbs exactly where `..` is one of its components.
pub proof fn lemma_climbs(p: Seq<u8>)
    ensures
        climbs(p) <==> components(p).contains(dot_dot()),
    decreases p.len(),
{
    let t = trim_end(p);
    if t.len() > 0 {
        lemma_trim_end(p);
        lemma_name_start(t);
        let head = t.subrange(0, name_start(t));
        lemma_climbs(head);
        let c = components(head);
        let all = c.push(last_segment(p));
        if all.contains(dot_dot()) {
            let i = choose|i: int| 0 <= i < all.len() && all[i] == dot_dot();
            if i < c.len() {
                assert(c[i] == dot_dot());
            }
        }
        if c.contains(dot_dot()) {
            let i = choose|i: int| 0 <= i < c.len() && c[i] == dot_dot();
            assert(all[i] == dot_dot());
        }
        if last_segment(p) == dot_dot() {
            assert(all[c.len() as int] == dot_dot());
        }
    }
}

/// What trimming leaves: a prefix of `p` that does not end idly, and that
/// trimming leaves alone.
pub proof fn lemma_trim_end(p: Seq<u8>)
    ensures
        trim_end(p).is_prefix_of(p),
        !ends_idle(trim_end(p)),
        trim_end(trim_end(p)) == trim_end(p),
    decreases p.len(),
{
    if ends_idle(p) {
        lemma_trim_end(p.drop_last());
        let t = trim_end(p.drop_last());
        assert(t =~= p.subrange(0, t.len() as int));
    } else {
        assert(p =~= p.subrange(0, p.len() as int));
    }
}

/// Where the last segment starts: no separator stands from there on, and one
/// stands just before, unless the segment starts the string.
pub proof fn lemma_name_start(t: Seq<u8>)
    ensures
        0 <= name_start(t) <= t.len(),
        forall|i: int| name_start(t) <= i < t.len() ==> t[i] != SEP,
        name_start(t) > 0 ==> t[name_start(t) - 1] == SEP,
        t.len() > 0 && t.last() != SEP ==> name_start(t) < t.len(),
    decreases t.len(),
{
    if t.len() > 0 && t.last() != SEP {
        lemma_name_start(t.drop_last());
        assert forall|i: int| name_start(t) <= i < t.len() implies t[i] != SEP by {
            if i < t.len() - 1 {
                assert(t[i] == t.drop_last()[i]);
            }
        }
    }
}

/// The start of the last segment is the only index with the properties of
/// `lemma_name_start`.
pub proof fn lemma_name_start_unique(t: Seq<u8>, k: int)
    requires
        0 <= k <= t.len(),
        forall|i: int| k <= i < t.len() ==> t[i] != SEP,
        k > 0 ==> t[k - 1] == SEP,
    ensures
        name_start(t) == k,
    decreases t.len(),
{
    if t.len() > 0 && t.last() != SEP {
        lemma_name_start_unique(t.drop_last(), k);
    }
}

/// A name is a plain name: whatever `basename` returns can name an entry of a
/// directory.
pub proof fn lemma_basename_plain(p: Seq<u8>)
    ensures
        basename(p) matches Some(n) ==> plain_name(n),
        trim_end(p).len() > 0 ==> last_segment(p).len() > 0,
{
    let t = trim_end(p);
    lemma_trim_end(p);
    lemma_name_start(t);
    if t.len() > 0 {
        let k = name_start(t);
        let n = last_segment(p);
        assert(n.len() == t.len() - k);
        if n == seq![DOT] {
            assert(n[0] == DOT);
            assert(t.last() == n[0]);
            assert(t.len() == 1 || t[t.len() - 2] == SEP);
        }
    }
}

/// The components of a path are those of its directory followed by its last
/// segment, which is its name unless it is `..`.
pub proof fn lemma_components_split(p: Seq<u8>)
    requires
        trim_end(p).len() > 0,
    ensures
        components(p) == components(dirname(p)).push(last_segment(p)),
        components(p).len() > 0,
{
    let t = trim_end(p);
    let head = t.subrange(0, name_start(t));
    lemma_trim_end(p);
    lemma_name_start(t);
    lemma_components_trimmed(head);
}

/// Trimming a path changes none of its components.
pub proof fn lemma_components_trimmed(p: Seq<u8>)
    ensures
        components(trim_end(p)) == components(p),
{
    lemma_trim_end(p);
}

/// The length that trimming leaves of the first `n` bytes of `path`.
pub fn trimmed_len(path: &Vec<u8>, n: usize) -> (m: usize)
    requires
        n <= path.len(),
    ensures
        m <= n,
        path@.subrange(0, m as int) == trim_end(path@.subrange(0, n as int)),
{
    let mut m: usize = n;
    loop
        invariant
            m <= n <= path.len(),
            trim_end(path@.subrange(0, m as int)) == trim_end(path@.subrange(0, n as int)),
        ensures
            m <= n,
            !ends_idle(path@.subrange(0, m as int)),
            trim_end(path@.subrange(0, m as int)) == trim_end(path@.subrange(0, n as int)),
        decreases m,
    {
        let ghost cur = path@.subrange(0, m as int);
        if m == 0 {
            break ;
        }
        let last: u8 = path[m - 1];
        let idle: bool = last == SEP || (last == DOT && (m == 1 || path[m - 2] == SEP));
        assert(cur.last() == last);
        assert(m >= 2 ==> cur[cur.len() - 2] == path@[m - 2]);
        assert(idle == ends_idle(cur));
        if !idle {
            break ;
        }
        assert(cur.drop_last() =~= path@.subrange(0, m - 1));
        m = m - 1;
    }
    m
}

/// The start of the last segment of the first `n` bytes of `path`.
pub fn segment_start(path: &Vec<u8>, n: usize) -> (k: usize)
    requires
        n <= path.len(),
    ensures
        k <= n,
        k == name_start(path@.subrange(0, n as int)),
{
    let mut k: usize = n;
    while k > 0 && path[k - 1] != SEP
        invariant
            k <= n <= path.len(),
            forall|i: int| k <= i < n ==> path@[i] != SEP,
        decreases k,
    {
        k = k - 1;
    }
    proof {
        lemma_name_start_unique(path@.subrange(0, n as int), k as int);
    }
    k
}

/// Whether `path` climbs.
pub fn is_climbing(path: &Vec<u8>) -> (r: bool)
    ensures
        r == climbs(path@),
{
    let mut n: usize = path.len();
    assert(path@.subrange(0, n as int) =~= path@);
    loop
        invariant
            n <= path.len(),
            climbs(path@) == climbs(path@.subrange(0, n as int)),
        decreases n,
    {
        let ghost cur = path@.subrange(0, n as int);
        let end: usize = trimmed_len(path, n);
        if end == 0 {
            return false;
        }
        let start: usize = segment_start(path, end);
        proof {
            let t = trim_end(cur);
            lemma_name_start(t);
            lemma_trim_end(cur);
            assert(t =~= path@.subrange(0, end as int));
            assert(last_segment(cur) =~= path@.subrange(start as int, end as int));
            assert(t.subrange(0, start as int) =~= path@.subrange(0, start as int));
        }
        if end - start == 2 && path[start] == DOT && path[start + 1] == DOT {
            assert(path@.subrange(start as int, end as int) =~= dot_dot());
            return true;
        }
        proof {
            if path@.subrange(start as int, end as int) == dot_dot() {
                assert(path@.subrange(start as int, end as int)[0] == DOT);
                assert(path@.subrange(start as int, end as int)[1] == DOT);
            }
        }
        n = start;
    }
}

/// Splits `path` into the directory it lies in and the name it ends in.
/// Returns `None` where the path ends in no name: nothing is left of it once
/// trimmed, or its last segment is `..`.
pub fn split(path: &Vec<u8>) -> (r: Option<(Vec<u8>, Vec<u8>)>)
    ensures
        match r {
            Some((dir, name)) => basename(path@) == Some(name@) && dir@ == dirname(path@),
            None => basename(path@) is None,
        },
{
    let end: usize = trimmed_len(path, path.len());
    assert(path@.subrange(0, path@.len() as int) =~= path@);
    if end == 0 {
        return None;
    }
    let start: usize = segment_start(path, end);
    let name: Vec<u8> = copy_range(path, start, end);
    let ghost t = trim_end(path@);
    assert(name@ =~= t.subrange(name_start(t), t.len() as int));
    if name.len() == 2 && name[0] == DOT && name[1] == DOT {
        assert(name@ =~= dot_dot());
        return None;
    }
    let dir_end: usize = trimmed_len(path, start);
    let dir: Vec<u8> = copy_range(path, 0, dir_end);
    assert(path@.subrange(0, start as int) =~= t.subrange(0, start as int));
    Some((dir, name))
}

} // verus!
