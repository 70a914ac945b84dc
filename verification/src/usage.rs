//! The usage mapping: how often each import-bound name occurred.
//!
//! A `UsageMap` is an association list from names to positive counts, with
//! no name listed twice. Its mathematical model is a `Map<Seq<char>, nat>`,
//! and merging two usage maps adds their counts pointwise.

use vstd::prelude::*;

verus! {

/// One name together with its occurrence count.
pub struct Entry {
    pub name: String,
    pub count: usize,
}

/// A mapping from import-bound names to occurrence counts.
///
/// Entries are kept in first-insertion order; every listed count is at
/// least one, because an entry is only created when an occurrence is
/// recorded.
pub struct UsageMap {
    pub entries: Vec<Entry>,
}

/// The map denoted by an association list: later entries win, though a
/// well-formed `UsageMap` never lists a name twice.
pub open spec fn map_of_entries(s: Seq<Entry>) -> Map<Seq<char>, nat>
    decreases s,
{
    if s.len() == 0 {
        Map::empty()
    } else {
        map_of_entries(s.drop_last()).insert(s.last().name@, s.last().count as nat)
    }
}

/// The count a map associates with a name, zero when the name is absent.
pub open spec fn count_in(m: Map<Seq<char>, nat>, k: Seq<char>) -> nat {
    if m.contains_key(k) {
        m[k]
    } else {
        0
    }
}

/// The pointwise sum of two usage mappings: the domains unite and the
/// counts add.
pub open spec fn map_plus(a: Map<Seq<char>, nat>, b: Map<Seq<char>, nat>) -> Map<Seq<char>, nat> {
    Map::new(
        |k: Seq<char>| a.contains_key(k) || b.contains_key(k),
        |k: Seq<char>| count_in(a, k) + count_in(b, k),
    )
}

impl View for UsageMap {
    type V = Map<Seq<char>, nat>;

    open spec fn view(&self) -> Map<Seq<char>, nat> {
        map_of_entries(self.entries@)
    }
}

impl UsageMap {
    /// Well-formedness: no name occurs twice and every count is positive.
    pub open spec fn wf(self) -> bool {
        &&& forall|i: int, j: int|
            0 <= i < j < self.entries@.len() ==> self.entries@[i].name@ != self.entries@[j].name@
        &&& forall|i: int| 0 <= i < self.entries@.len() ==> self.entries@[i].count >= 1
    }

    /// An empty usage mapping.
    pub fn new() -> (m: UsageMap)
        ensures
            m.wf(),
            m@ == Map::<Seq<char>, nat>::empty(),
    {
        UsageMap { entries: Vec::new() }
    }

    /// The position of `name` in the entry list, if it is present.
    fn index_of(&self, name: &String) -> (r: Option<usize>)
        ensures
            match r {
                Some(i) => i < self.entries@.len() && self.entries@[i as int].name@ == name@,
                None => forall|i: int| 0 <= i < self.entries@.len() ==> self.entries@[i].name@ != name@,
            },
    {
        let mut i: usize = 0;
        while i < self.entries.len()
            invariant
                i <= self.entries@.len(),
                forall|j: int| 0 <= j < i ==> self.entries@[j].name@ != name@,
            decreases self.entries@.len() - i,
        {
            if self.entries[i].name == *name {
                return Some(i);
            }
            i += 1;
        }
        None
    }

    /// The count recorded for `name`, zero when the name is absent.
    pub fn get(&self, name: &String) -> (c: usize)
        requires
            self.wf(),
        ensures
            c as nat == count_in(self@, name@),
    {
        match self.index_of(name) {
            Some(i) => {
                proof {
                    lemma_entries_index(self.entries@, i as int);
                }
                self.entries[i].count
            },
            None => {
                proof {
                    lemma_entries_absent(self.entries@, name@);
                }
                0
            },
        }
    }

    /// Add `delta` to the count of `name`, creating the entry when absent.
    pub fn bump(&mut self, name: &String, delta: usize)
        requires
            old(self).wf(),
            delta >= 1,
            count_in(old(self)@, name@) + delta <= usize::MAX,
        ensures
            final(self).wf(),
            final(self)@ == old(self)@.insert(name@, (count_in(old(self)@, name@) + delta) as nat),
    {
        match self.index_of(name) {
            Some(i) => {
                proof {
                    lemma_entries_index(self.entries@, i as int);
                }
                let c = self.entries[i].count;
                self.entries[i].count = c + delta;
                proof {
                    lemma_entries_update_count(old(self).entries@, i as int, (c + delta) as nat);
                    assert(self.entries@ =~= old(self).entries@.update(
                        i as int,
                        Entry { name: old(self).entries@[i as int].name, count: (c + delta) as usize },
                    ));
                }
            },
            None => {
                proof {
                    lemma_entries_absent(self.entries@, name@);
                }
                let entry = Entry { name: name.clone(), count: delta };
                self.entries.push(entry);
                proof {
                    assert(self.entries@.drop_last() =~= old(self).entries@);
                }
            },
        }
    }
}

impl UsageMap {
    /// Whether the pointwise sum with `other` stays within the machine's
    /// count range, so that `merge_from` may be called.
    pub fn merge_fits(&self, other: &UsageMap) -> (r: bool)
        requires
            self.wf(),
            other.wf(),
        ensures
            r <==> (forall|k: Seq<char>|
                self@.contains_key(k) && other@.contains_key(k) ==> self@[k] + other@[k]
                    <= usize::MAX),
    {
        let mut j: usize = 0;
        while j < other.entries.len()
            invariant
                self.wf(),
                other.wf(),
                j <= other.entries@.len(),
                forall|jj: int|
                    0 <= jj < j ==> count_in(self@, other.entries@[jj].name@)
                        + other.entries@[jj].count <= usize::MAX,
            decreases other.entries@.len() - j,
        {
            let c_other = other.entries[j].count;
            let c_self = self.get(&other.entries[j].name);
            if c_self > usize::MAX - c_other {
                proof {
                    let k = other.entries@[j as int].name@;
                    lemma_entries_index(other.entries@, j as int);
                    assert(self@.contains_key(k) && other@.contains_key(k) && self@[k] + other@[k]
                        > usize::MAX);
                }
                return false;
            }
            j += 1;
        }
        proof {
            assert forall|k: Seq<char>|
                self@.contains_key(k) && other@.contains_key(k) implies self@[k] + other@[k]
                <= usize::MAX by {
                lemma_entries_contains(other.entries@, k);
                let jj = choose|jj: int|
                    0 <= jj < other.entries@.len() && other.entries@[jj].name@ == k;
                lemma_entries_index(other.entries@, jj);
            }
        }
        true
    }

    /// Merge another usage mapping into this one, adding counts pointwise.
    pub fn merge_from(&mut self, other: &UsageMap)
        requires
            old(self).wf(),
            other.wf(),
            forall|k: Seq<char>|
                old(self)@.contains_key(k) && other@.contains_key(k) ==> old(self)@[k] + other@[k]
                    <= usize::MAX,
        ensures
            final(self).wf(),
            final(self)@ == map_plus(old(self)@, other@),
    {
        let ghost a = old(self)@;
        let mut j: usize = 0;
        while j < other.entries.len()
            invariant
                self.wf(),
                other.wf(),
                j <= other.entries@.len(),
                self@ == map_plus(a, map_of_entries(other.entries@.take(j as int))),
                forall|k: Seq<char>|
                    a.contains_key(k) && other@.contains_key(k) ==> a[k] + other@[k] <= usize::MAX,
            decreases other.entries@.len() - j,
        {
            let ghost partial = map_of_entries(other.entries@.take(j as int));
            let ghost k = other.entries@[j as int].name@;
            let ghost delta = other.entries@[j as int].count as nat;
            proof {
                assert forall|jj: int| 0 <= jj < j implies other.entries@.take(j as int)[jj].name@
                    != k by {}
                lemma_entries_absent(other.entries@.take(j as int), k);
                lemma_entries_index(other.entries@, j as int);
                assert(count_in(self@, k) == count_in(a, k) + count_in(partial, k));
                assert(count_in(partial, k) == 0);
            }
            let d = other.entries[j].count;
            self.bump(&other.entries[j].name, d);
            proof {
                assert(other.entries@.take(j + 1 as int).drop_last() =~= other.entries@.take(
                    j as int,
                ));
                assert(other.entries@.take(j + 1 as int).last() == other.entries@[j as int]);
                assert(map_of_entries(other.entries@.take(j + 1 as int)) == partial.insert(
                    k,
                    delta,
                ));
                assert(self@ =~= map_plus(a, partial.insert(k, delta)));
            }
            j += 1;
        }
        proof {
            assert(other.entries@.take(other.entries@.len() as int) =~= other.entries@);
        }
    }
}

/// A key of the map of an entry list is the name of some entry.
pub proof fn lemma_entries_contains(s: Seq<Entry>, k: Seq<char>)
    requires
        map_of_entries(s).contains_key(k),
    ensures
        exists|i: int| 0 <= i < s.len() && s[i].name@ == k,
    decreases s.len(),
{
    if s.len() > 0 {
        if s.last().name@ == k {
            assert(s[s.len() - 1].name@ == k);
        } else {
            lemma_entries_contains(s.drop_last(), k);
        }
    }
}

/// A name listed at position `i` of a duplicate-free entry list is mapped
/// to the count listed there.
pub proof fn lemma_entries_index(s: Seq<Entry>, i: int)
    requires
        forall|p: int, q: int| 0 <= p < q < s.len() ==> s[p].name@ != s[q].name@,
        0 <= i < s.len(),
    ensures
        map_of_entries(s).contains_key(s[i].name@),
        map_of_entries(s)[s[i].name@] == s[i].count as nat,
    decreases s.len(),
{
    if i == s.len() - 1 {
    } else {
        assert(s.drop_last()[i] == s[i]);
        lemma_entries_index(s.drop_last(), i);
    }
}

/// A name listed nowhere in an entry list is absent from its map.
pub proof fn lemma_entries_absent(s: Seq<Entry>, k: Seq<char>)
    requires
        forall|i: int| 0 <= i < s.len() ==> s[i].name@ != k,
    ensures
        !map_of_entries(s).contains_key(k),
    decreases s.len(),
{
    if s.len() > 0 {
        lemma_entries_absent(s.drop_last(), k);
    }
}

/// Updating the count at one position of a duplicate-free entry list
/// updates exactly that name's value in the map.
pub proof fn lemma_entries_update_count(s: Seq<Entry>, i: int, c: nat)
    requires
        forall|p: int, q: int| 0 <= p < q < s.len() ==> s[p].name@ != s[q].name@,
        0 <= i < s.len(),
        c <= usize::MAX,
    ensures
        map_of_entries(s.update(i, Entry { name: s[i].name, count: c as usize }))
            =~= map_of_entries(s).insert(s[i].name@, c),
    decreases s.len(),
{
    let t = s.update(i, Entry { name: s[i].name, count: c as usize });
    if i == s.len() - 1 {
        assert(t.drop_last() =~= s.drop_last());
        assert(t.last() == Entry { name: s[i].name, count: c as usize });
    } else {
        lemma_entries_update_count(s.drop_last(), i, c);
        assert(t.drop_last() =~= s.drop_last().update(i, Entry { name: s[i].name, count: c as usize }));
        assert(t.last() == s.last());
        lemma_entries_index(s, i);
    }
}

} // verus!
