//! Sorting the keys of a pattern set into the groups that dispatch walks.
use vstd::prelude::*;

use crate::keys::{key_kind, kind_of, KeyKind};
use crate::patterns::{Entries, PatternSet};

verus! {

/// The positions, below `n`, of the keys of kind `kind`, in order.
pub open spec fn group_upto(es: Entries, kind: KeyKind, n: int) -> Seq<usize>
    decreases n,
{
    if n <= 0 {
        Seq::empty()
    } else if kind_of(es[n - 1].0) == kind {
        group_upto(es, kind, n - 1).push((n - 1) as usize)
    } else {
        group_upto(es, kind, n - 1)
    }
}

/// The positions of the keys of kind `kind`, in order.
pub open spec fn group(es: Entries, kind: KeyKind) -> Seq<usize> {
    group_upto(es, kind, es.len() as int)
}

/// The number of `*` and `?` in a glob.
pub open spec fn glob_count(k: Seq<char>) -> nat
    decreases k.len(),
{
    if k.len() == 0 {
        0
    } else {
        glob_count(k.drop_last()) + if k.last() == '*' || k.last() == '?' {
            1nat
        } else {
            0nat
        }
    }
}

/// The glob count of the key at position `x`.
pub open spec fn count_at(es: Entries, x: usize) -> nat {
    glob_count(es[x as int].0)
}

/// `x` placed into `s` after every position whose key has no more glob characters.
pub open spec fn place(s: Seq<usize>, x: usize, es: Entries) -> Seq<usize>
    decreases s.len(),
{
    if s.len() == 0 || count_at(es, s.last()) <= count_at(es, x) {
        s.push(x)
    } else {
        place(s.drop_last(), x, es).push(s.last())
    }
}

/// Positions ordered by ascending glob count; equal counts keep their order.
pub open spec fn by_specificity(s: Seq<usize>, es: Entries) -> Seq<usize>
    decreases s.len(),
{
    if s.len() == 0 {
        s
    } else {
        place(by_specificity(s.drop_last(), es), s.last(), es)
    }
}

/// The groups that dispatch walks, each a list of positions in a pattern set.
pub struct PatternGroups {
    pub predicate: Vec<usize>,
    pub any: Vec<usize>,
    pub not: Vec<usize>,
    pub regex: Vec<usize>,
    /// Ordered by ascending glob count.
    pub wildcard: Vec<usize>,
}

/// What `PatternGroups::from_set` gives for a set.
pub open spec fn groups_of(g: PatternGroups, es: Entries) -> bool {
    &&& g.predicate@ == group(es, KeyKind::When)
    &&& g.any@ == group(es, KeyKind::Any)
    &&& g.not@ == group(es, KeyKind::Not)
    &&& g.regex@ == group(es, KeyKind::Regex)
    &&& g.wildcard@ == by_specificity(group(es, KeyKind::Wildcard), es)
}

/// Every position in `s` is one of `es`.
pub open spec fn in_bounds(s: Seq<usize>, es: Entries) -> bool {
    forall|j: int| 0 <= j < s.len() ==> (#[trigger] s[j]) < es.len()
}

pub proof fn lemma_group_upto(es: Entries, kind: KeyKind, n: int)
    requires
        0 <= n <= es.len() <= usize::MAX,
    ensures
        forall|j: int| 0 <= j < group_upto(es, kind, n).len() ==> {
            let x = #[trigger] group_upto(es, kind, n)[j];
            x < n && kind_of(es[x as int].0) == kind
        },
        forall|x: int| 0 <= x < n && kind_of(es[x].0) == kind ==> group_upto(es, kind, n).contains(x as usize),
    decreases n,
{
    if n > 0 {
        lemma_group_upto(es, kind, n - 1);
        let g = group_upto(es, kind, n - 1);
        let h = group_upto(es, kind, n);
        if kind_of(es[n - 1].0) == kind {
            assert(h == g.push((n - 1) as usize));
            assert forall|j: int| 0 <= j < h.len() implies {
                let x = #[trigger] h[j];
                x < n && kind_of(es[x as int].0) == kind
            } by {
                if j < g.len() {
                    assert(h[j] == g[j]);
                }
            }
            assert forall|x: int| 0 <= x < n && kind_of(es[x].0) == kind implies h.contains(x as usize) by {
                if x < n - 1 {
                    let j = choose|j: int| 0 <= j < g.len() && g[j] == x as usize;
                    assert(h[j] == x as usize);
                } else {
                    assert(h[g.len() as int] == x as usize);
                }
            }
        }
    }
}

/// Where `place` puts `x`: after the last position whose key has no more glob
/// characters than `x`'s, among those at the end with more.
pub open spec fn place_pos(s: Seq<usize>, x: usize, es: Entries) -> int
    decreases s.len(),
{
    if s.len() == 0 || count_at(es, s.last()) <= count_at(es, x) {
        s.len() as int
    } else {
        place_pos(s.drop_last(), x, es)
    }
}

pub proof fn lemma_place_split(s: Seq<usize>, x: usize, es: Entries)
    ensures
        0 <= place_pos(s, x, es) <= s.len(),
        place(s, x, es) == s.subrange(0, place_pos(s, x, es)).push(x) + s.subrange(place_pos(s, x, es), s.len() as int),
        place_pos(s, x, es) == 0 || count_at(es, s[place_pos(s, x, es) - 1]) <= count_at(es, x),
        forall|j: int| place_pos(s, x, es) <= j < s.len() ==> count_at(es, #[trigger] s[j]) > count_at(es, x),
    decreases s.len(),
{
    let p = place_pos(s, x, es);
    if s.len() == 0 || count_at(es, s.last()) <= count_at(es, x) {
        assert(s.subrange(0, p).push(x) + s.subrange(p, s.len() as int) =~= s.push(x));
    } else {
        let d = s.drop_last();
        lemma_place_split(d, x, es);
        assert(place(d, x, es).push(s.last()) =~= s.subrange(0, p).push(x) + s.subrange(p, s.len() as int));
        assert forall|j: int| p <= j < s.len() implies count_at(es, #[trigger] s[j]) > count_at(es, x) by {
            if j < d.len() {
                assert(d[j] == s[j]);
            }
        }
        if p > 0 {
            assert(d[p - 1] == s[p - 1]);
        }
    }
}

pub proof fn lemma_place(s: Seq<usize>, x: usize, es: Entries, p: int)
    requires
        0 <= p <= s.len(),
        p == 0 || count_at(es, s[p - 1]) <= count_at(es, x),
        forall|j: int| p <= j < s.len() ==> count_at(es, #[trigger] s[j]) > count_at(es, x),
    ensures
        place(s, x, es) == s.subrange(0, p).push(x) + s.subrange(p, s.len() as int),
    decreases s.len(),
{
    if p == s.len() {
        assert(s.subrange(0, p).push(x) + s.subrange(p, s.len() as int) =~= s.push(x));
    } else {
        let d = s.drop_last();
        lemma_place(d, x, es, p);
        assert(place(d, x, es).push(s.last()) =~= s.subrange(0, p).push(x) + s.subrange(p, s.len() as int));
    }
}

pub proof fn lemma_place_members(s: Seq<usize>, x: usize, es: Entries)
    ensures
        place(s, x, es).len() == s.len() + 1,
        forall|y: usize| place(s, x, es).contains(y) <==> (s.contains(y) || y == x),
{
    lemma_place_split(s, x, es);
    let p = place_pos(s, x, es);
    let r = place(s, x, es);
    assert forall|k: int| 0 <= k < r.len() implies #[trigger] r[k] == (if k < p {
        s[k]
    } else if k == p {
        x
    } else {
        s[k - 1]
    }) by {}
    assert forall|y: usize| r.contains(y) <==> (s.contains(y) || y == x) by {
        if r.contains(y) {
            let j = choose|j: int| 0 <= j < r.len() && r[j] == y;
            if j < p {
                assert(s[j] == y);
            } else if j > p {
                assert(s[j - 1] == y);
            }
        }
        if s.contains(y) {
            let k = choose|k: int| 0 <= k < s.len() && s[k] == y;
            if k < p {
                assert(r[k] == y);
            } else {
                assert(r[k + 1] == y);
            }
        }
        if y == x {
            assert(r[p] == y);
        }
    }
}

pub proof fn lemma_by_specificity_members(s: Seq<usize>, es: Entries)
    ensures
        by_specificity(s, es).len() == s.len(),
        forall|y: usize| by_specificity(s, es).contains(y) <==> s.contains(y),
    decreases s.len(),
{
    if s.len() > 0 {
        let d = s.drop_last();
        lemma_by_specificity_members(d, es);
        lemma_place_members(by_specificity(d, es), s.last(), es);
        assert forall|y: usize| by_specificity(s, es).contains(y) <==> s.contains(y) by {
            if d.contains(y) {
                let k = choose|k: int| 0 <= k < d.len() && d[k] == y;
                assert(s[k] == y);
            }
            if s.contains(y) {
                let k = choose|k: int| 0 <= k < s.len() && s[k] == y;
                if k < s.len() - 1 {
                    assert(d[k] == y);
                }
            }
            if y == s.last() {
                assert(s[s.len() - 1] == y);
            }
        }
    }
}

pub proof fn lemma_by_specificity_in_bounds(s: Seq<usize>, es: Entries)
    requires
        in_bounds(s, es),
    ensures
        in_bounds(by_specificity(s, es), es),
{
    lemma_by_specificity_members(s, es);
    let r = by_specificity(s, es);
    assert forall|j: int| 0 <= j < r.len() implies (#[trigger] r[j]) < es.len() by {
        assert(r.contains(r[j]));
        assert(s.contains(r[j]));
        let k = choose|k: int| 0 <= k < s.len() && s[k] == r[j];
    }
}

/// Ascending glob count along a list of positions.
pub open spec fn ascending(s: Seq<usize>, es: Entries) -> bool {
    forall|a: int, b: int| 0 <= a < b < s.len() ==> count_at(es, #[trigger] s[a]) <= count_at(es, #[trigger] s[b])
}

pub proof fn lemma_place_ascending(s: Seq<usize>, x: usize, es: Entries)
    requires
        ascending(s, es),
    ensures
        ascending(place(s, x, es), es),
{
    lemma_place_split(s, x, es);
    let p = place_pos(s, x, es);
    let r = place(s, x, es);
    assert forall|k: int| 0 <= k < r.len() implies #[trigger] r[k] == (if k < p {
        s[k]
    } else if k == p {
        x
    } else {
        s[k - 1]
    }) by {}
    assert forall|a: int, b: int| 0 <= a < b < r.len() implies count_at(es, #[trigger] r[a]) <= count_at(es, #[trigger] r[b]) by {
        if a < p && b < p {
            assert(count_at(es, s[a]) <= count_at(es, s[b]));
        } else if a < p && b == p {
            if a < p - 1 {
                assert(count_at(es, s[a]) <= count_at(es, s[p - 1]));
            }
        } else if a < p {
            assert(count_at(es, s[a]) <= count_at(es, s[b - 1]));
        } else if a == p {
            assert(count_at(es, s[b - 1]) > count_at(es, x));
        } else {
            assert(count_at(es, s[a - 1]) <= count_at(es, s[b - 1]));
        }
    }
}

pub proof fn lemma_by_specificity_ascending(s: Seq<usize>, es: Entries)
    ensures
        ascending(by_specificity(s, es), es),
    decreases s.len(),
{
    if s.len() > 0 {
        lemma_by_specificity_ascending(s.drop_last(), es);
        lemma_place_ascending(by_specificity(s.drop_last(), es), s.last(), es);
    }
}

/// The number of `*` and `?` in a key.
pub fn wildcard_count(k: &str) -> (r: usize)
    ensures
        r == glob_count(k@),
{
    let n = k.unicode_len();
    let mut c: usize = 0;
    let mut i: usize = 0;
    while i < n
        invariant
            n == k@.len(),
            i <= n,
            c == glob_count(k@.subrange(0, i as int)),
            c <= i,
        decreases n - i,
    {
        let ch = k.get_char(i);
        assert(k@.subrange(0, i + 1).drop_last() =~= k@.subrange(0, i as int));
        if ch == '*' || ch == '?' {
            c += 1;
        }
        i += 1;
    }
    assert(k@.subrange(0, n as int) =~= k@);
    c
}

/// The positions of `ws` ordered by ascending glob count, equal counts in their
/// original order.
pub fn sort_by_specificity(set: &PatternSet, ws: &Vec<usize>) -> (r: Vec<usize>)
    requires
        in_bounds(ws@, set@),
    ensures
        r@ == by_specificity(ws@, set@),
{
    let mut r: Vec<usize> = Vec::new();
    let mut i: usize = 0;
    while i < ws.len()
        invariant
            i <= ws@.len(),
            in_bounds(ws@, set@),
            r@ == by_specificity(ws@.subrange(0, i as int), set@),
        decreases ws@.len() - i,
    {
        let x = ws[i];
        let cx = wildcard_count(set.key(x));
        let ghost s = r@;
        proof {
            assert(in_bounds(ws@.subrange(0, i as int), set@));
            lemma_by_specificity_in_bounds(ws@.subrange(0, i as int), set@);
        }
        let mut p: usize = r.len();
        while p > 0 && wildcard_count(set.key(r[p - 1])) > cx
            invariant
                p <= s.len(),
                r@ == s,
                cx == count_at(set@, x),
                forall|j: int| 0 <= j < s.len() ==> (#[trigger] s[j]) < set@.len(),
                forall|j: int| p <= j < s.len() ==> count_at(set@, #[trigger] s[j]) > count_at(set@, x),
            decreases p,
        {
            p -= 1;
        }
        proof {
            lemma_place(s, x, set@, p as int);
            assert(ws@.subrange(0, i + 1).drop_last() =~= ws@.subrange(0, i as int));
        }
        r.insert(p, x);
        assert(r@ =~= s.subrange(0, p as int).push(x) + s.subrange(p as int, s.len() as int));
        i += 1;
    }
    assert(ws@.subrange(0, ws@.len() as int) =~= ws@);
    r
}

impl PatternGroups {
    /// Sorts the keys of `set` into groups, leaving out the reserved keys and
    /// plain keys; the wildcard group is then ordered by ascending glob count.
    pub fn from_set(set: &PatternSet) -> (r: PatternGroups)
        ensures
            groups_of(r, set@),
    {
        let n = set.len();
        let mut predicate: Vec<usize> = Vec::new();
        let mut any: Vec<usize> = Vec::new();
        let mut not: Vec<usize> = Vec::new();
        let mut regex: Vec<usize> = Vec::new();
        let mut wildcard: Vec<usize> = Vec::new();
        let mut i: usize = 0;
        while i < n
            invariant
                n == set@.len(),
                i <= n,
                predicate@ == group_upto(set@, KeyKind::When, i as int),
                any@ == group_upto(set@, KeyKind::Any, i as int),
                not@ == group_upto(set@, KeyKind::Not, i as int),
                regex@ == group_upto(set@, KeyKind::Regex, i as int),
                wildcard@ == group_upto(set@, KeyKind::Wildcard, i as int),
            decreases n - i,
        {
            match key_kind(set.key(i)) {
                KeyKind::When => predicate.push(i),
                KeyKind::Any => any.push(i),
                KeyKind::Not => not.push(i),
                KeyKind::Regex => regex.push(i),
                KeyKind::Wildcard => wildcard.push(i),
                _ => {},
            }
            i += 1;
        }
        proof {
            lemma_group_upto(set@, KeyKind::Wildcard, n as int);
        }
        let wildcard = sort_by_specificity(set, &wildcard);
        PatternGroups { predicate, any, not, regex, wildcard }
    }
}

} // verus!
