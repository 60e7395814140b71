//! The predicate registry: the names under which `when` patterns find their
//! predicates, each with the slot where the caller keeps the predicate itself.
use vstd::prelude::*;

use crate::keys::{decimal, when_key, Condition};
use crate::text::text_eq;

verus! {

/// Registered names, each with a slot.
pub type Registrations = Seq<(Seq<char>, usize)>;

/// The slot registered under `name` at or after position `i`, if any.
pub open spec fn slot_from(rs: Registrations, name: Seq<char>, i: int) -> Option<usize>
    decreases rs.len() - i,
{
    if i < 0 || i >= rs.len() {
        None
    } else if rs[i].0 == name {
        Some(rs[i].1)
    } else {
        slot_from(rs, name, i + 1)
    }
}

/// The slot registered under `name`, if any.
pub open spec fn slot_of(rs: Registrations, name: Seq<char>) -> Option<usize> {
    slot_from(rs, name, 0)
}

/// Predicates by name. A name is registered at most once; registering it again
/// replaces its slot. Nothing is ever removed.
pub struct PredicateRegistry {
    names: Vec<String>,
    slots: Vec<usize>,
}

impl View for PredicateRegistry {
    type V = Registrations;

    closed spec fn view(&self) -> Registrations {
        Seq::new(self.names@.len(), |i: int| (self.names@[i]@, self.slots@[i]))
    }
}

impl PredicateRegistry {
    /// The two lists run side by side.
    pub closed spec fn wf(&self) -> bool {
        self.names@.len() == self.slots@.len()
    }

    /// An empty registry.
    pub fn new() -> (r: PredicateRegistry)
        ensures
            r.wf(),
            forall|name: Seq<char>| slot_of(r@, name) is None,
    {
        let r = PredicateRegistry { names: Vec::new(), slots: Vec::new() };
        assert(r@.len() == 0);
        r
    }

    fn position(&self, name: &str) -> (r: Option<usize>)
        requires
            self.wf(),
        ensures
            r is None ==> slot_of(self@, name@) is None && forall|j: int| 0 <= j < self@.len() ==> self@[j].0 != name@,
            r matches Some(i) ==> i < self@.len() && self@[i as int].0 == name@ && slot_of(self@, name@) == Some(self@[i as int].1)
                && forall|j: int| 0 <= j < i ==> self@[j].0 != name@,
    {
        let mut i: usize = 0;
        while i < self.names.len()
            invariant
                self.wf(),
                i <= self@.len(),
                slot_from(self@, name@, i as int) == slot_of(self@, name@),
                forall|j: int| 0 <= j < i ==> self@[j].0 != name@,
            decreases self@.len() - i,
        {
            if text_eq(self.names[i].as_str(), name) {
                return Some(i);
            }
            i += 1;
        }
        None
    }

    /// The slot of the predicate registered under `name`, if there is one.
    pub fn lookup(&self, name: &str) -> (r: Option<usize>)
        requires
            self.wf(),
        ensures
            r == slot_of(self@, name@),
    {
        match self.position(name) {
            Some(i) => Some(self.slots[i]),
            None => None,
        }
    }

    /// Registers the predicate kept at `slot` under the name for `hash`, the
    /// hash of its source text, and returns the `when` key that refers to it.
    /// Other names keep their slots.
    pub fn register(&mut self, hash: u64, slot: usize) -> (r: String)
        requires
            old(self).wf(),
        ensures
            final(self).wf(),
            r@ == when_key(Condition::Predicate(hash)),
            slot_of(final(self)@, decimal(hash as nat)) == Some(slot),
            forall|name: Seq<char>| name != decimal(hash as nat) ==> slot_of(final(self)@, name) == slot_of(old(self)@, name),
    {
        let key = match crate::keys::when(&Condition::Predicate(hash)) {
            Ok(k) => k,
            Err(_) => String::new(),
        };
        proof {
            reveal_strlit("when::");
        }
        let name = crate::text::slice(key.as_str(), 6, key.unicode_len());
        assert(name@ =~= decimal(hash as nat));
        let ghost before = self@;
        match self.position(name.as_str()) {
            Some(i) => {
                self.slots.set(i, slot);
                proof {
                    lemma_slot_update(before, self@, i as int, name@);
                }
            },
            None => {
                self.names.push(name);
                self.slots.push(slot);
                proof {
                    assert(self@ =~= before.push((decimal(hash as nat), slot)));
                    lemma_slot_push(before, decimal(hash as nat), slot);
                }
            },
        }
        key
    }
}

proof fn lemma_slot_update(a: Registrations, b: Registrations, i: int, name: Seq<char>)
    requires
        0 <= i < a.len(),
        a.len() == b.len(),
        a[i].0 == name,
        b[i].0 == name,
        forall|j: int| 0 <= j < a.len() && j != i ==> a[j] == b[j],
        slot_of(a, name) == Some(a[i].1),
        forall|j: int| 0 <= j < i ==> a[j].0 != name,
    ensures
        slot_of(b, name) == Some(b[i].1),
        forall|n: Seq<char>| n != name ==> slot_of(b, n) == slot_of(a, n),
{
    assert forall|n: Seq<char>| n != name implies slot_of(b, n) == slot_of(a, n) by {
        lemma_slot_from_agree(a, b, n, 0, i);
    }
    lemma_slot_from_first(b, name, 0, i);
}

proof fn lemma_slot_from_agree(a: Registrations, b: Registrations, n: Seq<char>, k: int, i: int)
    requires
        0 <= k,
        a.len() == b.len(),
        a[i].0 != n,
        b[i].0 != n,
        forall|j: int| 0 <= j < a.len() && j != i ==> a[j] == b[j],
    ensures
        slot_from(b, n, k) == slot_from(a, n, k),
    decreases a.len() - k,
{
    if k < a.len() {
        lemma_slot_from_agree(a, b, n, k + 1, i);
    }
}

proof fn lemma_slot_from_first(b: Registrations, name: Seq<char>, k: int, i: int)
    requires
        0 <= k <= i < b.len(),
        b[i].0 == name,
        forall|j: int| k <= j < i ==> b[j].0 != name,
    ensures
        slot_from(b, name, k) == Some(b[i].1),
    decreases i - k,
{
    if k < i {
        lemma_slot_from_first(b, name, k + 1, i);
    }
}

proof fn lemma_slot_push(a: Registrations, name: Seq<char>, slot: usize)
    requires
        forall|j: int| 0 <= j < a.len() ==> a[j].0 != name,
    ensures
        slot_of(a.push((name, slot)), name) == Some(slot),
        forall|n: Seq<char>| n != name ==> slot_of(a.push((name, slot)), n) == slot_of(a, n),
{
    let b = a.push((name, slot));
    assert forall|n: Seq<char>| n != name implies slot_of(b, n) == slot_of(a, n) by {
        lemma_slot_from_push(a, name, slot, n, 0);
    }
    lemma_slot_from_first(b, name, 0, a.len() as int);
}

proof fn lemma_slot_from_push(a: Registrations, name: Seq<char>, slot: usize, n: Seq<char>, k: int)
    requires
        0 <= k,
        n != name,
    ensures
        slot_from(a.push((name, slot)), n, k) == slot_from(a, n, k),
    decreases a.len() + 1 - k,
{
    if k < a.len() {
        lemma_slot_from_push(a, name, slot, n, k + 1);
    } else if k == a.len() {
        assert(slot_from(a.push((name, slot)), n, k + 1) is None);
    }
}

} // verus!
