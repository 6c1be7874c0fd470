//! The coalescing map: a keyed single-flight cache with stable values.
//!
//! Each key is either published (its value is fixed for the map's lifetime),
//! in flight (some caller's producer is running), or absent. A lookup for a
//! published key returns the stored value; one for an in-flight key waits;
//! one for an absent key registers the caller as the producer. A producer
//! that fails surfaces its error to its waiters but does not poison the key:
//! the next lookup runs the producer again.
//!
//! The embedding program serializes the map's operations under a short
//! lock; the contracts here pin down each transition, and
//! the laws at the bottom state single-flight, no-poisoning and the stability
//! of published entries across every transition.

use vstd::prelude::*;

use crate::names::str_eq;

verus! {

/// An error surfaced by a coalesced operation.
#[derive(Debug, Clone, PartialEq, Eq)]
pub enum CoalescingError<E> {
    /// The producer itself failed with this error.
    CacheError(E),
    /// The operation lost its producer or its waiters.
    Cancelled,
}

/// What a lookup finds: the index of a published value, an in-flight
/// producer to wait for, or the duty to produce.
#[derive(Debug, Clone, Copy, PartialEq, Eq, Structural)]
pub enum Lookup {
    /// The value is published at this index and will stay there.
    Hit(usize),
    /// Another caller's producer is running for this key.
    Wait,
    /// The caller was registered as the key's producer.
    MustProduce,
}

/// A keyed single-flight cache. Published entries are never moved, changed
/// or dropped; at most one producer is in flight per key.
pub struct CoalescingMap<V> {
    published: Vec<(String, V)>,
    in_flight: Vec<String>,
}

/// The index of `key` in the published entries, or their count when absent.
pub open spec fn spec_find<V>(entries: Seq<(Seq<char>, V)>, key: Seq<char>) -> int
    decreases entries.len(),
{
    if entries.len() == 0 {
        0
    } else if entries[0].0 == key {
        0
    } else {
        1 + spec_find(entries.drop_first(), key)
    }
}

/// True when a sequence of keys holds `key`.
pub open spec fn spec_has_key(keys: Seq<Seq<char>>, key: Seq<char>) -> bool {
    exists|i: int| 0 <= i < keys.len() && keys[i] == key
}

impl<V> CoalescingMap<V> {
    /// The published entries, keys as character sequences.
    pub closed spec fn spec_published(&self) -> Seq<(Seq<char>, V)> {
        self.published@.map_values(|e: (String, V)| (e.0@, e.1))
    }

    /// The keys with a running producer.
    pub closed spec fn spec_in_flight(&self) -> Seq<Seq<char>> {
        self.in_flight@.map_values(|k: String| k@)
    }

    /// True when `key` has a published value.
    pub open spec fn spec_is_published(&self, key: Seq<char>) -> bool {
        exists|i: int|
            0 <= i < self.spec_published().len() && #[trigger] self.spec_published()[i].0 == key
    }

    /// Well-formedness: published keys are unique, in-flight keys are unique,
    /// and no key is both.
    pub open spec fn wf(&self) -> bool {
        &&& forall|i: int, j: int|
            0 <= i < j < self.spec_published().len() ==> self.spec_published()[i].0
                != self.spec_published()[j].0
        &&& forall|i: int, j: int|
            0 <= i < j < self.spec_in_flight().len() ==> self.spec_in_flight()[i]
                != self.spec_in_flight()[j]
        &&& forall|i: int|
            0 <= i < self.spec_in_flight().len() ==> !self.spec_is_published(
                #[trigger] self.spec_in_flight()[i],
            )
    }

    /// The outcome a lookup for `key` has in this state.
    pub open spec fn spec_lookup(&self, key: Seq<char>) -> Lookup {
        if self.spec_is_published(key) {
            Lookup::Hit(spec_find(self.spec_published(), key) as usize)
        } else if spec_has_key(self.spec_in_flight(), key) {
            Lookup::Wait
        } else {
            Lookup::MustProduce
        }
    }

    /// An empty map.
    pub fn new() -> (r: CoalescingMap<V>)
        ensures
            r.spec_published() =~= Seq::<(Seq<char>, V)>::empty(),
            r.spec_in_flight() =~= Seq::<Seq<char>>::empty(),
            r.wf(),
    {
        CoalescingMap { published: Vec::new(), in_flight: Vec::new() }
    }

    /// Looks `key` up and, when it is absent, registers the caller as its
    /// producer. Published entries never change.
    pub fn begin(&mut self, key: &str) -> (r: Lookup)
        requires
            old(self).wf(),
        ensures
            final(self).wf(),
            r == old(self).spec_lookup(key@),
            final(self).spec_published() == old(self).spec_published(),
            r == Lookup::MustProduce ==> final(self).spec_in_flight() == old(self).spec_in_flight().push(key@),
            r != Lookup::MustProduce ==> final(self).spec_in_flight() == old(self).spec_in_flight(),
            r matches Lookup::Hit(i) ==> 0 <= i < final(self).spec_published().len() && final(self).spec_published()[i as int].0 == key@,
    {
        match self.find_published(key) {
            Some(i) => Lookup::Hit(i),
            None => {
                if self.find_in_flight(key) {
                    Lookup::Wait
                } else {
                    let ghost old_if = self.spec_in_flight();
                    self.in_flight.push(key.to_owned());
                    proof {
                        assert(self.spec_in_flight() =~= old_if.push(key@));
                        assert(self.spec_published() =~= old(self).spec_published());
                        assert forall|i: int, j: int|
                            0 <= i < j < self.spec_in_flight().len() implies self.spec_in_flight()[i]
                            != self.spec_in_flight()[j] by {
                            if j < self.spec_in_flight().len() - 1 {
                                assert(old_if[i] != old_if[j]);
                            } else {
                                assert(!spec_has_key(old_if, key@));
                                assert(old_if[i] == self.spec_in_flight()[i]);
                            }
                        }
                    }
                    Lookup::MustProduce
                }
            },
        }
    }

    /// Publishes the produced value for `key`. The key's producer must be the
    /// one registered; the value is appended and every earlier entry stays
    /// where it was.
    pub fn publish(&mut self, key: &str, value: V)
        requires
            old(self).wf(),
            spec_has_key(old(self).spec_in_flight(), key@),
        ensures
            final(self).wf(),
            final(self).spec_published() == old(self).spec_published().push((key@, value)),
            final(self).spec_in_flight() == remove_key(old(self).spec_in_flight(), key@),
            !spec_has_key(final(self).spec_in_flight(), key@),
            final(self).spec_is_published(key@),
    {
        self.remove_in_flight(key);
        let ghost old_pub = self.spec_published();
        self.published.push((key.to_owned(), value));
        proof {
            assert(self.spec_published() =~= old_pub.push((key@, value)));
            assert forall|i: int, j: int|
                0 <= i < j < self.spec_published().len() implies self.spec_published()[i].0
                != self.spec_published()[j].0 by {
                if j < self.spec_published().len() - 1 {
                    assert(old_pub[i].0 != old_pub[j].0);
                } else {
                    // The key was in flight, so it was not published before.
                    let w = choose|w: int|
                        0 <= w < old(self).spec_in_flight().len() && old(
                            self,
                        ).spec_in_flight()[w] == key@;
                    assert(!old(self).spec_is_published(old(self).spec_in_flight()[w]));
                    assert(self.spec_published()[i] == old_pub[i]);
                }
            }
            assert(self.spec_published()[self.spec_published().len() - 1].0 == key@);
            assert forall|i: int|
                0 <= i < self.spec_in_flight().len() implies !self.spec_is_published(
                #[trigger] self.spec_in_flight()[i],
            ) by {
                assert(self.spec_in_flight()[i] != key@);
                if self.spec_is_published(self.spec_in_flight()[i]) {
                    let w = choose|w: int|
                        0 <= w < self.spec_published().len() && #[trigger] self.spec_published()[w].0
                            == self.spec_in_flight()[i];
                    assert(w < self.spec_published().len() - 1);
                    assert(old_pub[w].0 == self.spec_in_flight()[i]);
                }
            }
        }
    }

    /// Drops the failed producer for `key` without publishing anything: the
    /// key is left absent, so the next lookup runs the producer again.
    pub fn fail(&mut self, key: &str)
        requires
            old(self).wf(),
            spec_has_key(old(self).spec_in_flight(), key@),
        ensures
            final(self).wf(),
            final(self).spec_published() == old(self).spec_published(),
            final(self).spec_in_flight() == remove_key(old(self).spec_in_flight(), key@),
            !spec_has_key(final(self).spec_in_flight(), key@),
            !final(self).spec_is_published(key@),
    {
        self.remove_in_flight(key);
        proof {
            if self.spec_is_published(key@) {
                let w = choose|w: int|
                    0 <= w < old(self).spec_in_flight().len() && old(self).spec_in_flight()[w]
                        == key@;
                assert(!old(self).spec_is_published(old(self).spec_in_flight()[w]));
            }
        }
    }

    /// Returns the published value for `key`, when there is one.
    pub fn get(&self, key: &str) -> (r: Option<&V>)
        requires
            self.wf(),
        ensures
            match r {
                Some(v) => self.spec_is_published(key@) && *v == self.spec_published()[spec_find(
                    self.spec_published(),
                    key@,
                )].1,
                None => !self.spec_is_published(key@),
            },
    {
        match self.find_published(key) {
            Some(i) => Some(&self.published[i].1),
            None => None,
        }
    }

    /// Finds the index of a published key.
    fn find_published(&self, key: &str) -> (r: Option<usize>)
        ensures
            match r {
                Some(i) => 0 <= i < self.spec_published().len() && self.spec_published()[
                    i as int].0 == key@ && i as int == spec_find(self.spec_published(), key@)
                    && self.spec_is_published(key@),
                None => !self.spec_is_published(key@),
            },
    {
        let n = self.published.len();
        let mut i: usize = 0;
        while i < n
            invariant
                0 <= i <= n,
                n == self.published@.len(),
                forall|j: int| 0 <= j < i ==> self.spec_published()[j].0 != key@,
            decreases n - i,
        {
            if str_eq(self.published[i].0.as_str(), key) {
                proof {
                    assert(self.spec_published()[i as int].0 == key@);
                    lemma_spec_find_at(self.spec_published(), key@, i as int);
                }
                return Some(i);
            }
            i += 1;
        }
        None
    }

    /// True when the key has a running producer.
    fn find_in_flight(&self, key: &str) -> (r: bool)
        ensures
            r == spec_has_key(self.spec_in_flight(), key@),
    {
        let n = self.in_flight.len();
        let mut i: usize = 0;
        while i < n
            invariant
                0 <= i <= n,
                n == self.in_flight@.len(),
                forall|j: int| 0 <= j < i ==> self.spec_in_flight()[j] != key@,
            decreases n - i,
        {
            if str_eq(self.in_flight[i].as_str(), key) {
                assert(self.spec_in_flight()[i as int] == key@);
                return true;
            }
            i += 1;
        }
        false
    }

    /// Removes the registered producer for `key`.
    fn remove_in_flight(&mut self, key: &str)
        requires
            old(self).wf(),
            spec_has_key(old(self).spec_in_flight(), key@),
        ensures
            final(self).wf(),
            final(self).spec_published() == old(self).spec_published(),
            final(self).spec_in_flight() == remove_key(old(self).spec_in_flight(), key@),
            !spec_has_key(final(self).spec_in_flight(), key@),
    {
        let n = self.in_flight.len();
        let mut i: usize = 0;
        while i < n
            invariant
                0 <= i <= n,
                n == self.in_flight@.len(),
                forall|j: int| 0 <= j < i ==> self.spec_in_flight()[j] != key@,
                spec_has_key(old(self).spec_in_flight(), key@),
                old(self).wf(),
                self == old(self),
            decreases n - i,
        {
            if str_eq(self.in_flight[i].as_str(), key) {
                proof {
                    assert(self.spec_in_flight()[i as int] == key@);
                    lemma_spec_index_of_at(self.spec_in_flight(), key@, i as int);
                }
                let ghost old_if = self.spec_in_flight();
                self.in_flight.remove(i);
                proof {
                    assert(old(self).wf());
                    assert(old_if == old(self).spec_in_flight());
                    assert(self.spec_in_flight() =~= old_if.subrange(0, i as int) + old_if.subrange(
                        i as int + 1,
                        old_if.len() as int,
                    ));
                    assert(self.spec_in_flight() =~= remove_key(old_if, key@));
                    assert(self.spec_published() =~= old(self).spec_published());
                    assert forall|j: int|
                        0 <= j < self.spec_in_flight().len() implies self.spec_in_flight()[j]
                        != key@ && !self.spec_is_published(self.spec_in_flight()[j]) by {
                        let v = if j < i {
                            old_if[j]
                        } else {
                            old_if[j + 1]
                        };
                        assert(self.spec_in_flight()[j] == v);
                        if j >= i {
                            assert(old(self).spec_in_flight()[i as int] != old(
                                self,
                            ).spec_in_flight()[j + 1]);
                        }
                        assert(!old(self).spec_is_published(v));
                        if self.spec_is_published(v) {
                            let w = choose|w: int|
                                0 <= w < self.spec_published().len()
                                    && #[trigger] self.spec_published()[w].0 == v;
                            assert(old(self).spec_published()[w].0 == v);
                        }
                    }
                    assert forall|a: int, b: int|
                        0 <= a < b < self.spec_in_flight().len() implies self.spec_in_flight()[a]
                        != self.spec_in_flight()[b] by {
                        let va = if a < i {
                            a
                        } else {
                            a + 1
                        };
                        let vb = if b < i {
                            b
                        } else {
                            b + 1
                        };
                        assert(self.spec_in_flight()[a] == old_if[va]);
                        assert(self.spec_in_flight()[b] == old_if[vb]);
                        assert(old(self).spec_in_flight()[va] != old(self).spec_in_flight()[vb]);
                    }
                }
                return ;
            }
            i += 1;
        }
        proof {
            assert(false);
        }
    }
}

/// The sequence with the (unique) occurrence of `key` removed.
pub open spec fn remove_key(keys: Seq<Seq<char>>, key: Seq<char>) -> Seq<Seq<char>> {
    let i = spec_index_of(keys, key);
    if 0 <= i < keys.len() {
        keys.subrange(0, i) + keys.subrange(i + 1, keys.len() as int)
    } else {
        keys
    }
}

/// The index of `key` in a key sequence, or its length when absent.
pub open spec fn spec_index_of(keys: Seq<Seq<char>>, key: Seq<char>) -> int
    decreases keys.len(),
{
    if keys.len() == 0 {
        0
    } else if keys[0] == key {
        0
    } else {
        1 + spec_index_of(keys.drop_first(), key)
    }
}

/// A scan that found `key` at `i` with no earlier occurrence pins
/// [`spec_index_of`] down.
proof fn lemma_spec_index_of_at(keys: Seq<Seq<char>>, key: Seq<char>, i: int)
    requires
        0 <= i < keys.len(),
        keys[i] == key,
        forall|j: int| 0 <= j < i ==> keys[j] != key,
    ensures
        spec_index_of(keys, key) == i,
    decreases i,
{
    if i == 0 {
    } else {
        lemma_spec_index_of_at(keys.drop_first(), key, i - 1);
    }
}

/// A scan that found `key` at `i` with no earlier occurrence pins
/// [`spec_find`] down.
proof fn lemma_spec_find_at<V>(entries: Seq<(Seq<char>, V)>, key: Seq<char>, i: int)
    requires
        0 <= i < entries.len(),
        entries[i].0 == key,
        forall|j: int| 0 <= j < i ==> entries[j].0 != key,
    ensures
        spec_find(entries, key) == i,
    decreases i,
{
    if i == 0 {
    } else {
        lemma_spec_find_at(entries.drop_first(), key, i - 1);
    }
}

/// Single-flight: once a caller was registered as the producer for a key,
/// every later lookup for that key waits (or hits the published value) until
/// the producer publishes or fails; a second producer is never registered
/// while the first runs.
pub proof fn lemma_single_flight<V>(m: CoalescingMap<V>, key: Seq<char>)
    requires
        m.wf(),
        spec_has_key(m.spec_in_flight(), key),
    ensures
        m.spec_lookup(key) != Lookup::MustProduce,
{
}

/// No poisoning: after a producer for an unpublished key fails, the key is
/// neither published nor in flight, so the next lookup registers a new
/// producer and the work is rerun.
pub proof fn lemma_no_poisoning<V>(m: CoalescingMap<V>, key: Seq<char>)
    requires
        m.wf(),
        !m.spec_is_published(key),
        !spec_has_key(m.spec_in_flight(), key),
    ensures
        m.spec_lookup(key) == Lookup::MustProduce,
{
}

/// Stable references: a published entry is never moved or changed. Whatever
/// a later `begin`, `publish` or `fail` did to the map, every entry that was
/// published before is still at its index with the same key and value; this
/// is exactly what their contracts allow, since `begin` and `fail` keep the
/// published entries and `publish` only appends.
pub proof fn lemma_stable_reference<V>(
    before: Seq<(Seq<char>, V)>,
    after: Seq<(Seq<char>, V)>,
    i: int,
)
    requires
        0 <= i < before.len(),
        after == before || (exists|e: (Seq<char>, V)| after == before.push(e)),
    ensures
        after[i] == before[i],
{
    if after != before {
        let e = choose|e: (Seq<char>, V)| after == before.push(e);
        assert(after[i] == before.push(e)[i]);
    }
}

} // verus!
