//! The pending-request registry: an in-memory correlation table from a
//! request identifier to a single-use notification slot.
//!
//! A request that no rule decides is registered here under its identifier;
//! when the external decision arrives, resolving the identifier removes the
//! entry and hands the slot back to the caller, who delivers the decision
//! through it. The slot type is a parameter: the registry itself only
//! guarantees that each identifier maps to at most one slot and that
//! resolution returns the slot registered under exactly that identifier.

use vstd::prelude::*;

verus! {

/// No identifier occurs twice among the entries.
pub open spec fn ids_distinct<S>(entries: Seq<(String, S)>) -> bool {
    forall|i: int, j: int| 0 <= i < j < entries.len() ==> entries[i].0@ != entries[j].0@
}

/// Whether some entry is registered under `id`.
pub open spec fn contains_id<S>(entries: Seq<(String, S)>, id: Seq<char>) -> bool {
    exists|k: int| 0 <= k < entries.len() && entries[k].0@ == id
}

/// Index of the first entry registered under `id` at or after `i`, or
/// `entries.len()` when there is none.
pub open spec fn find_id_from<S>(entries: Seq<(String, S)>, id: Seq<char>, i: nat) -> nat
    decreases entries.len() - i,
{
    if i >= entries.len() {
        entries.len()
    } else if entries[i as int].0@ == id {
        i
    } else {
        find_id_from(entries, id, i + 1)
    }
}

/// Registering appends one entry at the end.
pub open spec fn register_spec<S>(entries: Seq<(String, S)>, id: String, slot: S) -> Seq<
    (String, S),
> {
    entries.push((id, slot))
}

/// Resolving removes the entry registered under `id`, if any; every other
/// entry stays, in order.
pub open spec fn remove_id_spec<S>(entries: Seq<(String, S)>, id: Seq<char>) -> Seq<(String, S)> {
    let k = find_id_from(entries, id, 0);
    if k == entries.len() {
        entries
    } else {
        entries.remove(k as int)
    }
}

/// The slot that resolving `id` hands back, if any entry is registered
/// under it.
pub open spec fn resolved_slot_spec<S>(entries: Seq<(String, S)>, id: Seq<char>) -> Option<S> {
    let k = find_id_from(entries, id, 0);
    if k == entries.len() {
        None
    } else {
        Some(entries[k as int].1)
    }
}

proof fn lemma_find_id_props<S>(entries: Seq<(String, S)>, id: Seq<char>, i: nat)
    requires
        i <= entries.len(),
    ensures
        i <= find_id_from(entries, id, i) <= entries.len(),
        find_id_from(entries, id, i) < entries.len() ==> entries[find_id_from(entries, id, i) as int].0@
            == id,
        forall|k: int| i <= k < find_id_from(entries, id, i) ==> entries[k].0@ != id,
    decreases entries.len() - i,
{
    if i < entries.len() && entries[i as int].0@ != id {
        lemma_find_id_props(entries, id, i + 1);
    }
}

/// With distinct identifiers, the entry found for `id` is the only one.
proof fn lemma_find_id_unique<S>(entries: Seq<(String, S)>, id: Seq<char>, m: int)
    requires
        ids_distinct(entries),
        0 <= m < entries.len(),
        entries[m].0@ == id,
    ensures
        find_id_from(entries, id, 0) == m,
{
    lemma_find_id_props(entries, id, 0);
    let k = find_id_from(entries, id, 0);
    if k < m {
        assert(entries[k as int].0@ == id);
    } else if m < k {
        assert(entries[m].0@ != id);
    }
}

proof fn lemma_find_id_absent<S>(entries: Seq<(String, S)>, id: Seq<char>)
    requires
        !contains_id(entries, id),
    ensures
        find_id_from(entries, id, 0) == entries.len(),
{
    lemma_find_id_props(entries, id, 0);
    let k = find_id_from(entries, id, 0);
    if k < entries.len() {
        assert(contains_id(entries, id));
    }
}

/// The registry. Entries are kept in registration order; identifiers are
/// unique among them.
pub struct PendingRegistry<S> {
    entries: Vec<(String, S)>,
}

impl<S> PendingRegistry<S> {
    /// The current entries, in registration order.
    pub closed spec fn spec_entries(&self) -> Seq<(String, S)> {
        self.entries@
    }

    /// The registry invariant: at most one entry per identifier.
    pub open spec fn wf(&self) -> bool {
        ids_distinct(self.spec_entries())
    }

    /// An empty registry.
    pub fn new() -> (r: Self)
        ensures
            r.spec_entries() == Seq::<(String, S)>::empty(),
            r.wf(),
    {
        let r = PendingRegistry { entries: Vec::new() };
        proof {
            assert(r.spec_entries() =~= Seq::<(String, S)>::empty());
        }
        r
    }

    /// How many requests are pending.
    pub fn len(&self) -> (n: usize)
        ensures
            n == self.spec_entries().len(),
    {
        self.entries.len()
    }

    /// Register `slot` under `id`. Fails (returning `false`, changing
    /// nothing) when an entry is already registered under `id`: a
    /// duplicate identifier is a caller bug.
    pub fn register(&mut self, id: String, slot: S) -> (r: bool)
        requires
            old(self).wf(),
        ensures
            r == !contains_id(old(self).spec_entries(), id@),
            r ==> final(self).spec_entries() == register_spec(old(self).spec_entries(), id, slot),
            !r ==> final(self).spec_entries() == old(self).spec_entries(),
            final(self).wf(),
    {
        let n = self.entries.len();
        let mut i: usize = 0;
        while i < n
            invariant
                i <= n,
                n == self.entries.len(),
                self == old(self),
                old(self).wf(),
                forall|k: int| 0 <= k < i ==> self.entries@[k].0@ != id@,
            decreases n - i,
        {
            if self.entries[i].0.eq(&id) {
                proof {
                    assert(contains_id(old(self).spec_entries(), id@)) by {
                        assert(old(self).spec_entries()[i as int].0@ == id@);
                    }
                }
                return false;
            }
            i = i + 1;
        }
        proof {
            if contains_id(self.spec_entries(), id@) {
                let k = choose|k: int|
                    0 <= k < self.spec_entries().len() && self.spec_entries()[k].0@ == id@;
                assert(self.spec_entries()[k].0@ != id@);
            }
        }
        let ghost before = self.spec_entries();
        self.entries.push((id, slot));
        proof {
            assert forall|a: int, b: int|
                0 <= a < b < self.spec_entries().len() implies self.spec_entries()[a].0@
                != self.spec_entries()[b].0@ by {
                if b < before.len() {
                    assert(self.spec_entries()[a] == before[a]);
                    assert(self.spec_entries()[b] == before[b]);
                } else {
                    assert(self.spec_entries()[a] == before[a]);
                    assert(self.spec_entries()[b].0@ == id@);
                }
            }
        }
        true
    }

    /// Resolve `id`: remove its entry and hand back the slot registered
    /// under it. Resolving an identifier that is not registered — perhaps
    /// already resolved, perhaps never known — is a no-op yielding `None`.
    pub fn resolve(&mut self, id: &String) -> (r: Option<S>)
        requires
            old(self).wf(),
        ensures
            final(self).spec_entries() == remove_id_spec(old(self).spec_entries(), id@),
            r == resolved_slot_spec(old(self).spec_entries(), id@),
            (r is None) == !contains_id(old(self).spec_entries(), id@),
            final(self).wf(),
    {
        let ghost before = self.spec_entries();
        let n = self.entries.len();
        let mut i: usize = 0;
        while i < n
            invariant
                i <= n,
                n == self.entries.len(),
                self == old(self),
                before == old(self).spec_entries(),
                ids_distinct(before),
                forall|k: int| 0 <= k < i ==> self.entries@[k].0@ != id@,
            decreases n - i,
        {
            if self.entries[i].0.eq(id) {
                proof {
                    lemma_find_id_props(before, id@, 0);
                    lemma_find_id_unique(before, id@, i as int);
                    assert(contains_id(before, id@)) by {
                        assert(before[i as int].0@ == id@);
                    }
                }
                let entry = self.entries.remove(i);
                proof {
                    assert forall|a: int, b: int|
                        0 <= a < b < self.spec_entries().len() implies self.spec_entries()[a].0@
                        != self.spec_entries()[b].0@ by {
                        let aa: int = if a < i { a } else { a + 1 };
                        let bb: int = if b < i { b } else { b + 1 };
                        assert(self.spec_entries()[a] == before[aa]);
                        assert(self.spec_entries()[b] == before[bb]);
                    }
                }
                return Some(entry.1);
            }
            i = i + 1;
        }
        proof {
            if contains_id(before, id@) {
                let k = choose|k: int| 0 <= k < before.len() && before[k].0@ == id@;
                assert(before[k].0@ != id@);
            }
            lemma_find_id_absent(before, id@);
        }
        None
    }
}

/// A registered entry stays private to its identifier: registering two
/// entries under distinct identifiers and resolving them in reverse order
/// hands each waiter exactly the slot registered under its own identifier.
pub proof fn lemma_no_crosstalk<S>(entries: Seq<(String, S)>, a: String, x: S, b: String, y: S)
    requires
        ids_distinct(entries),
        !contains_id(entries, a@),
        !contains_id(entries, b@),
        a@ != b@,
    ensures
        ({
            let both = register_spec(register_spec(entries, a, x), b, y);
            resolved_slot_spec(both, b@) == Some(y) && resolved_slot_spec(
                remove_id_spec(both, b@),
                a@,
            ) == Some(x)
        }),
{
    let one = register_spec(entries, a, x);
    let both = register_spec(one, b, y);
    let n = entries.len() as int;
    assert(ids_distinct(both)) by {
        assert forall|i: int, j: int| 0 <= i < j < both.len() implies both[i].0@ != both[j].0@ by {
            if j < n {
            } else if j == n {
                assert(both[j].0@ == a@);
                assert(both[i] == entries[i]);
                if entries[i].0@ == a@ {
                    assert(contains_id(entries, a@)) by {
                        assert(entries[i].0@ == a@);
                    }
                }
            } else {
                assert(both[j].0@ == b@);
                if i < n {
                    assert(both[i] == entries[i]);
                    if entries[i].0@ == b@ {
                        assert(contains_id(entries, b@)) by {
                            assert(entries[i].0@ == b@);
                        }
                    }
                } else {
                    assert(both[i].0@ == a@);
                }
            }
        }
    }
    assert(both[n + 1].0@ == b@);
    lemma_find_id_unique(both, b@, n + 1);
    assert(resolved_slot_spec(both, b@) == Some(y));
    let after = remove_id_spec(both, b@);
    assert(after =~= one);
    assert(ids_distinct(one));
    assert(one[n as int].0@ == a@);
    lemma_find_id_unique(one, a@, n as int);
    assert(resolved_slot_spec(one, a@) == Some(x));
}

/// Resolving an identifier that is not registered — never known, or
/// already resolved — yields nothing and leaves every entry in place.
pub proof fn lemma_resolve_absent_is_noop<S>(entries: Seq<(String, S)>, id: Seq<char>)
    requires
        !contains_id(entries, id),
    ensures
        resolved_slot_spec(entries, id) is None,
        remove_id_spec(entries, id) == entries,
{
    lemma_find_id_absent(entries, id);
}

/// Resolving the same identifier a second time is a no-op: the first
/// resolution removed the entry, and no other entry answers to the
/// identifier.
pub proof fn lemma_resolve_twice_is_noop<S>(entries: Seq<(String, S)>, id: Seq<char>)
    requires
        ids_distinct(entries),
    ensures
        !contains_id(remove_id_spec(entries, id), id),
        resolved_slot_spec(remove_id_spec(entries, id), id) is None,
        remove_id_spec(remove_id_spec(entries, id), id) == remove_id_spec(entries, id),
{
    let k = find_id_from(entries, id, 0);
    lemma_find_id_props(entries, id, 0);
    let once = remove_id_spec(entries, id);
    if k == entries.len() {
        if contains_id(entries, id) {
            let w = choose|w: int| 0 <= w < entries.len() && entries[w].0@ == id;
            assert(entries[w].0@ != id);
        }
    } else {
        assert(entries[k as int].0@ == id);
        assert forall|j: int| 0 <= j < once.len() implies once[j].0@ != id by {
            let jj: int = if j < k { j } else { j + 1 };
            assert(once[j] == entries[jj]);
            if jj != k && entries[jj].0@ == id {
                if jj < k {
                    assert(entries[jj].0@ != id);
                } else {
                    assert(entries[k as int].0@ != entries[jj].0@);
                }
            }
        }
        if contains_id(once, id) {
            let w = choose|w: int| 0 <= w < once.len() && once[w].0@ == id;
            assert(once[w].0@ != id);
        }
    }
    lemma_resolve_absent_is_noop(once, id);
}

} // verus!
