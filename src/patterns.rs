//! Pattern sets: keys bound to handlers, in the order they were first bound.
use vstd::prelude::*;

use crate::text::text_eq;

verus! {

/// A pattern set as its entries: each key with whether a callable handler is bound to it.
pub type Entries = Seq<(Seq<char>, bool)>;

/// One key and whether the handler bound to it can be called.
#[derive(Debug)]
pub struct Entry {
    pub key: String,
    pub callable: bool,
}

/// Keys bound to handlers. Handlers live with the caller, who knows them by the
/// position of their entry; the set records only whether each one can be called.
/// Binding a key again replaces its handler and keeps its place.
#[derive(Debug)]
pub struct PatternSet {
    entries: Vec<Entry>,
}

/// The first position at or after `i` whose key is `k`, or -1.
pub open spec fn lookup_from(es: Entries, k: Seq<char>, i: int) -> int
    decreases es.len() - i,
{
    if i < 0 || i >= es.len() {
        -1
    } else if es[i].0 == k {
        i
    } else {
        lookup_from(es, k, i + 1)
    }
}

/// The position of key `k`, or -1.
pub open spec fn lookup(es: Entries, k: Seq<char>) -> int {
    lookup_from(es, k, 0)
}

/// The position of a callable handler bound to key `k`, if there is one.
pub open spec fn handler_at(es: Entries, k: Seq<char>) -> Option<usize> {
    let i = lookup(es, k);
    if 0 <= i && es[i].1 {
        Some(i as usize)
    } else {
        None
    }
}

/// No key appears twice.
pub open spec fn unique_keys(es: Entries) -> bool {
    forall|a: int, b: int| 0 <= a < b < es.len() ==> es[a].0 != es[b].0
}

pub proof fn lemma_lookup_from(es: Entries, k: Seq<char>, i: int)
    requires
        0 <= i,
    ensures
        lookup_from(es, k, i) == -1 || (i <= lookup_from(es, k, i) < es.len() && es[lookup_from(es, k, i)].0 == k),
        lookup_from(es, k, i) == -1 ==> forall|j: int| i <= j < es.len() ==> es[j].0 != k,
        lookup_from(es, k, i) != -1 ==> forall|j: int| i <= j < lookup_from(es, k, i) ==> es[j].0 != k,
    decreases es.len() - i,
{
    if i < es.len() && es[i].0 != k {
        lemma_lookup_from(es, k, i + 1);
    }
}

impl View for PatternSet {
    type V = Entries;

    closed spec fn view(&self) -> Entries {
        self.entries@.map_values(|e: Entry| (e.key@, e.callable))
    }
}

impl PatternSet {
    /// An empty set.
    pub fn new() -> (r: PatternSet)
        ensures
            r@ == Seq::<(Seq<char>, bool)>::empty(),
            unique_keys(r@),
    {
        let r = PatternSet { entries: Vec::new() };
        assert(r@ =~= Seq::<(Seq<char>, bool)>::empty());
        r
    }

    /// The number of keys.
    pub fn len(&self) -> (r: usize)
        ensures
            r == self@.len(),
    {
        self.entries.len()
    }

    /// The key at position `i`.
    pub fn key(&self, i: usize) -> (r: &str)
        requires
            i < self@.len(),
        ensures
            r@ == self@[i as int].0,
    {
        self.entries[i].key.as_str()
    }

    /// Whether the handler at position `i` can be called.
    pub fn is_callable(&self, i: usize) -> (r: bool)
        requires
            i < self@.len(),
        ensures
            r == self@[i as int].1,
    {
        self.entries[i].callable
    }

    /// The position of key `k`, if it is bound.
    pub fn position(&self, k: &str) -> (r: Option<usize>)
        ensures
            r is None ==> lookup(self@, k@) == -1,
            r matches Some(i) ==> i as int == lookup(self@, k@) && i < self@.len() && self@[i as int].0 == k@,
    {
        proof {
            lemma_lookup_from(self@, k@, 0);
        }
        let mut i: usize = 0;
        while i < self.entries.len()
            invariant
                i <= self@.len(),
                self@.len() == self.entries@.len(),
                lookup_from(self@, k@, i as int) == lookup(self@, k@),
            decreases self@.len() - i,
        {
            if text_eq(self.entries[i].key.as_str(), k) {
                return Some(i);
            }
            i += 1;
        }
        None
    }

    /// The position of a callable handler bound to `k`, if there is one.
    pub fn handler_of(&self, k: &str) -> (r: Option<usize>)
        ensures
            r == handler_at(self@, k@),
            r matches Some(i) ==> i < self@.len() && self@[i as int].0 == k@,
    {
        proof {
            lemma_lookup_from(self@, k@, 0);
        }
        match self.position(k) {
            Some(i) => if self.entries[i].callable {
                Some(i)
            } else {
                None
            },
            None => None,
        }
    }

    /// Binds `key`: a key already bound keeps its place and takes the new
    /// handler; a new key goes last.
    pub fn insert(&mut self, key: &str, callable: bool)
        ensures
            ({
                let i = lookup(old(self)@, key@);
                if i >= 0 {
                    final(self)@ == old(self)@.update(i, (key@, callable))
                } else {
                    final(self)@ == old(self)@.push((key@, callable))
                }
            }),
            unique_keys(old(self)@) ==> unique_keys(final(self)@),
    {
        proof {
            lemma_lookup_from(self@, key@, 0);
        }
        let e = Entry { key: String::from_str(key), callable };
        match self.position(key) {
            Some(i) => {
                self.entries.set(i, e);
                assert(self@ =~= old(self)@.update(i as int, (key@, callable)));
            },
            None => {
                self.entries.push(e);
                assert(self@ =~= old(self)@.push((key@, callable)));
            },
        }
    }
}

} // verus!
