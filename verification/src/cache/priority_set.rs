//! A set of prioritized data entries.
//!
//! Each data key is held once, with one priority. Entries are ordered by priority
//! (lowest value first) and, on equal priorities, by data.

use vstd::prelude::*;
use std::collections::{BTreeSet, HashMap, HashSet};
use vstd::std_specs::iter::IteratorSpec;
use vstd::std_specs::btree::spec_btree_keys_iter;
use vstd::std_specs::hash::{spec_hash_keys_iter, spec_keys_iter};
use super::entry_order::{pair_lt, lemma_pair_order, lemma_increasing_pairs};

verus! {

broadcast use vstd::std_specs::btree::group_btree_axioms, vstd::std_specs::hash::group_hash_axioms;

/// Entry `(d1, p1)` comes strictly before entry `(d2, p2)`: the lower priority value
/// first, and on equal priorities the smaller data first.
pub open spec fn precedes(d1: u64, p1: u64, d2: u64, p2: u64) -> bool {
    p1 < p2 || (p1 == p2 && d1 < d2)
}

/// `(d, p)` is the first entry of `m` in priority order.
pub open spec fn is_first(m: Map<u64, u64>, d: u64, p: u64) -> bool {
    &&& m.contains_key(d)
    &&& m[d] == p
    &&& forall|k: u64| #[trigger] m.contains_key(k) && k != d ==> precedes(d, p, k, m[k])
}

/// `s` lists every entry `(data, priority)` of `m` exactly once, in priority order.
pub open spec fn lists_in_order(m: Map<u64, u64>, s: Seq<(u64, u64)>) -> bool {
    &&& m.dom().finite()
    &&& s.len() == m.len()
    &&& forall|i: int| 0 <= i < s.len() ==> #[trigger] m.contains_key(s[i].0) && m[s[i].0] == s[i].1
    &&& forall|d: u64| #[trigger] m.contains_key(d) ==> exists|i: int| 0 <= i < s.len() && s[i].0 == d
    &&& forall|i: int, j: int| 0 <= i < j < s.len() ==> precedes(s[i].0, s[i].1, s[j].0, s[j].1)
}

/// What `reconcile` leaves: exactly the keys of `keep`, with their old priority where
/// they had one and `default` elsewhere.
pub open spec fn reconciled(old: Map<u64, u64>, keep: Set<u64>, default: u64) -> Map<u64, u64> {
    Map::new(|d: u64| keep.contains(d), |d: u64| if old.contains_key(d) { old[d] } else { default })
}

/// The priority order is strict: of two different entries, exactly one comes first.
pub proof fn law_precedes_is_strict_total(d1: u64, p1: u64, d2: u64, p2: u64)
    ensures
        !precedes(d1, p1, d1, p1),
        d1 != d2 ==> (precedes(d1, p1, d2, p2) <==> !precedes(d2, p2, d1, p1)),
{
}

/// A set has a single first entry: `top` and `pop` name the same one.
pub proof fn law_first_is_unique(m: Map<u64, u64>, d1: u64, p1: u64, d2: u64, p2: u64)
    requires
        is_first(m, d1, p1),
        is_first(m, d2, p2),
    ensures
        d1 == d2,
        p1 == p2,
{
    if d1 != d2 {
        assert(m.contains_key(d2));
        assert(m.contains_key(d1));
    }
}

/// The order of iteration is determined by the entries alone, and its first element
/// is the first entry.
pub proof fn law_listing_is_unique(m: Map<u64, u64>, s: Seq<(u64, u64)>, t: Seq<(u64, u64)>)
    requires
        lists_in_order(m, s),
        lists_in_order(m, t),
    ensures
        s == t,
        s.len() > 0 ==> is_first(m, s[0].0, s[0].1),
    decreases s.len(),
{
    if s.len() > 0 {
        assert(m.contains_key(s[0].0));
        assert(m.contains_key(t[0].0));
        assert forall|k: u64| #[trigger] m.contains_key(k) && k != s[0].0 implies precedes(
            s[0].0,
            s[0].1,
            k,
            m[k],
        ) by {
            let j = choose|j: int| 0 <= j < s.len() && s[j].0 == k;
            assert(j != 0);
        }
        assert(t.len() > 0);
        assert(is_first(m, t[0].0, t[0].1)) by {
            assert forall|k: u64| #[trigger] m.contains_key(k) && k != t[0].0 implies precedes(
                t[0].0,
                t[0].1,
                k,
                m[k],
            ) by {
                let j = choose|j: int| 0 <= j < t.len() && t[j].0 == k;
                assert(j != 0);
            }
        }
        law_first_is_unique(m, s[0].0, s[0].1, t[0].0, t[0].1);
        let m2 = m.remove(s[0].0);
        let s2 = s.drop_first();
        let t2 = t.drop_first();
        assert(lists_in_order(m2, s2)) by {
            assert forall|i: int| 0 <= i < s2.len() implies #[trigger] m2.contains_key(s2[i].0) && m2[s2[i].0] == s2[i].1 by {
                assert(s[i + 1] == s2[i]);
                assert(precedes(s[0].0, s[0].1, s[i + 1].0, s[i + 1].1));
            }
            assert forall|d: u64| #[trigger] m2.contains_key(d) implies exists|i: int| 0 <= i < s2.len() && s2[i].0 == d by {
                let j = choose|j: int| 0 <= j < s.len() && s[j].0 == d;
                assert(s2[j - 1].0 == d);
            }
        }
        assert(lists_in_order(m2, t2)) by {
            assert forall|i: int| 0 <= i < t2.len() implies #[trigger] m2.contains_key(t2[i].0) && m2[t2[i].0] == t2[i].1 by {
                assert(t[i + 1] == t2[i]);
                assert(precedes(t[0].0, t[0].1, t[i + 1].0, t[i + 1].1));
            }
            assert forall|d: u64| #[trigger] m2.contains_key(d) implies exists|i: int| 0 <= i < t2.len() && t2[i].0 == d by {
                let j = choose|j: int| 0 <= j < t.len() && t[j].0 == d;
                assert(t2[j - 1].0 == d);
            }
        }
        law_listing_is_unique(m2, s2, t2);
        assert(s =~= t) by {
            assert forall|i: int| 0 <= i < s.len() implies s[i] == t[i] by {
                if i > 0 {
                    assert(s2[i - 1] == t2[i - 1]);
                }
            }
        }
    } else {
        assert(t.len() == 0);
        assert(s =~= t);
    }
}

/// What a lookup gives back of a write: after inserting `data` with `priority`, the
/// priority of `data` is `priority` and the other entries are unchanged; after
/// deleting `data`, it is absent and the other entries are unchanged.
pub proof fn law_lookup_after_write(m: Map<u64, u64>, data: u64, priority: u64, other: u64)
    requires
        other != data,
    ensures
        m.insert(data, priority).contains_key(data),
        m.insert(data, priority)[data] == priority,
        !m.remove(data).contains_key(data),
        m.insert(data, priority).contains_key(other) == m.contains_key(other),
        m.remove(data).contains_key(other) == m.contains_key(other),
        m.contains_key(other) ==> m.insert(data, priority)[other] == m[other] && m.remove(data)[other]
            == m[other],
{
}

/// Reconciling is idempotent, and keeps the priority of every entry it keeps.
pub proof fn law_reconcile_idempotent(m: Map<u64, u64>, keep: Set<u64>, default: u64)
    ensures
        reconciled(reconciled(m, keep, default), keep, default) == reconciled(m, keep, default),
        forall|d: u64| #[trigger] m.contains_key(d) && keep.contains(d) ==> reconciled(m, keep, default)[d] == m[d],
{
    assert(reconciled(reconciled(m, keep, default), keep, default) =~= reconciled(m, keep, default));
}

/// The pair that the ordered set holds for data `d` with priority `p`.
spec fn pair_of(m: Map<u64, u64>) -> spec_fn(u64) -> (u64, u64) {
    |d: u64| (m[d], d)
}

/// A priority set: a map from data to priority, kept twice, as an index for lookups
/// and as an ordered set for ordered access.
pub struct PrioritySet {
    /// `(priority, data)` pairs, ordered.
    entries: BTreeSet<(u64, u64)>,
    /// Priority of each data, for lookups.
    indices: HashMap<u64, u64>,
}

impl View for PrioritySet {
    type V = Map<u64, u64>;

    closed spec fn view(&self) -> Map<u64, u64> {
        self.indices@
    }
}

impl PrioritySet {
    /// The ordered set holds the pair `(p, d)` exactly when the index maps `d` to `p`.
    pub closed spec fn wf(&self) -> bool {
        forall|p: u64, d: u64|
            #[trigger] self.entries@.contains((p, d)) <==> (self.indices@.contains_key(d)
                && self.indices@[d] == p)
    }

    /// The ordered set holds as many pairs as the index holds keys.
    proof fn lemma_same_size(&self)
        requires
            self.wf(),
        ensures
            self.entries@.finite(),
            self.entries@.len() == self@.len(),
    {
        let dom = self.indices@.dom();
        let f = pair_of(self.indices@);
        assert(dom.finite());
        assert(vstd::relations::injective_on(f, dom));
        assert(dom.map(f) =~= self.entries@) by {
            assert forall|e: (u64, u64)| self.entries@.contains(e) implies dom.map(f).contains(e) by {
                assert(self.entries@.contains((e.0, e.1)));
                assert(f(e.1) == e);
            }
        }
        vstd::set_lib::lemma_map_size(dom, self.entries@, f);
    }

    /// The pairs that iteration over the ordered set yields: every pair once, in
    /// increasing order.
    proof fn lemma_iteration(&self, q: Seq<&(u64, u64)>)
        requires
            self.wf(),
            q == spec_btree_keys_iter(&self.entries).remaining(),
        ensures
            q.len() == self@.len(),
            forall|i: int| 0 <= i < q.len() ==> #[trigger] self.entries@.contains(*q[i]),
            forall|e: (u64, u64)| #[trigger] self.entries@.contains(e) ==> exists|i: int|
                0 <= i < q.len() && *q[i] == e,
            forall|i: int, j: int| 0 <= i < j < q.len() ==> pair_lt(*q[i], *q[j]),
    {
        lemma_pair_order();
        self.lemma_same_size();
        lemma_increasing_pairs(q);
        assert forall|i: int| 0 <= i < q.len() implies #[trigger] self.entries@.contains(*q[i]) by {
            assert(q.unref()[i] == *q[i]);
            assert(q.unref().to_set().contains(q.unref()[i]));
        }
        assert forall|e: (u64, u64)| #[trigger] self.entries@.contains(e) implies exists|i: int|
            0 <= i < q.len() && *q[i] == e by {
            assert(q.unref().to_set().contains(e));
            let i = choose|i: int| 0 <= i < q.unref().len() && q.unref()[i] == e;
            assert(*q[i] == e);
        }
    }

    /// Creates an empty set.
    pub fn new() -> (s: Self)
        ensures
            s.wf(),
            s@ == Map::<u64, u64>::empty(),
    {
        PrioritySet { entries: BTreeSet::new(), indices: HashMap::new() }
    }

    /// Inserts `data` with `priority`, replacing the priority it had, if any.
    pub fn insert(&mut self, data: u64, priority: u64)
        requires
            old(self).wf(),
        ensures
            final(self).wf(),
            final(self)@ == old(self)@.insert(data, priority),
    {
        proof { lemma_pair_order(); }
        match self.indices.remove(&data) {
            Some(legacy) => {
                self.entries.remove(&(legacy, data));
            },
            None => {},
        }
        self.indices.insert(data, priority);
        self.entries.insert((priority, data));
        assert forall|p: u64, d: u64| #[trigger] self.entries@.contains((p, d)) <==> (
        self.indices@.contains_key(d) && self.indices@[d] == p) by {
            if d != data {
                assert(old(self).entries@.contains((p, d)) == self.entries@.contains((p, d)));
            }
        }
    }

    /// Deletes `data`; tells whether it was in the set.
    pub fn delete(&mut self, data: &u64) -> (r: bool)
        requires
            old(self).wf(),
        ensures
            final(self).wf(),
            r == old(self)@.contains_key(*data),
            final(self)@ == old(self)@.remove(*data),
    {
        proof { lemma_pair_order(); }
        match self.indices.remove(data) {
            Some(p) => {
                self.entries.remove(&(p, *data));
                assert forall|q: u64, d: u64| #[trigger] self.entries@.contains((q, d)) <==> (
                self.indices@.contains_key(d) && self.indices@[d] == q) by {
                    if d != *data {
                        assert(old(self).entries@.contains((q, d)) == self.entries@.contains(
                            (q, d),
                        ));
                    }
                }
                true
            },
            None => false,
        }
    }

    /// The priority of `data`, if it is in the set.
    pub fn priority(&self, data: &u64) -> (r: Option<u64>)
        requires
            self.wf(),
        ensures
            r == (if self@.contains_key(*data) { Some(self@[*data]) } else { None::<u64> }),
    {
        match self.indices.get(data) {
            Some(p) => Some(*p),
            None => None,
        }
    }

    /// Whether `data` is in the set.
    pub fn has(&self, data: &u64) -> (r: bool)
        requires
            self.wf(),
        ensures
            r == self@.contains_key(*data),
    {
        self.indices.contains_key(data)
    }

    /// The first entry in priority order, as `(data, priority)`.
    pub fn top(&self) -> (r: Option<(&u64, &u64)>)
        requires
            self.wf(),
        ensures
            r is None <==> self@.dom().is_empty(),
            r matches Some(e) ==> is_first(self@, *e.0, *e.1),
    {
        proof { lemma_pair_order(); }
        for e in it: self.entries.iter()
            invariant
                self.wf(),
                it.index() == 0,
                it.seq() == spec_btree_keys_iter(&self.entries).remaining(),
        {
            proof {
                let q = it.seq();
                self.lemma_iteration(q);
                assert forall|k: u64| #[trigger] self@.contains_key(k) && k != e.1 implies precedes(
                    e.1,
                    e.0,
                    k,
                    self@[k],
                ) by {
                    assert(self.entries@.contains((self@[k], k)));
                    let j = choose|j: int| 0 <= j < q.len() && *q[j] == (self@[k], k);
                    assert(j != 0);
                    assert(pair_lt(*q[0], *q[j]));
                }
                assert(self.entries@.contains(*e));
            }
            return Some((&e.1, &e.0));
        }
        proof {
            self.lemma_iteration(spec_btree_keys_iter(&self.entries).remaining());
            if !self@.dom().is_empty() {
                let k = self@.dom().choose();
                assert(self.entries@.contains((self@[k], k)));
            }
        }
        None
    }

    /// Removes and returns the first entry in priority order, as `(data, priority)`.
    pub fn pop(&mut self) -> (r: Option<(u64, u64)>)
        requires
            old(self).wf(),
        ensures
            final(self).wf(),
            r is None ==> old(self)@.dom().is_empty() && final(self)@ == old(self)@,
            r matches Some(e) ==> is_first(old(self)@, e.0, e.1) && final(self)@ == old(self)@.remove(e.0),
    {
        let first = match self.top() {
            Some((d, p)) => Some((*d, *p)),
            None => None,
        };
        match first {
            Some((d, p)) => {
                let _ = self.delete(&d);
                Some((d, p))
            },
            None => None,
        }
    }

    /// Removes every entry.
    pub fn clear(&mut self)
        ensures
            final(self).wf(),
            final(self)@ == Map::<u64, u64>::empty(),
    {
        self.entries.clear();
        self.indices.clear();
    }

    /// Whether the set holds no entry.
    pub fn is_empty(&self) -> (r: bool)
        requires
            self.wf(),
        ensures
            r == self@.dom().is_empty(),
    {
        self.indices.is_empty()
    }

    /// The number of entries.
    pub fn len(&self) -> (r: usize)
        requires
            self.wf(),
        ensures
            r == self@.len(),
    {
        self.indices.len()
    }

    /// Removes the entries of the given data keys, one after the other.
    fn remove_all(&mut self, keys: &Vec<u64>)
        requires
            old(self).wf(),
        ensures
            final(self).wf(),
            final(self)@ == old(self)@.remove_keys(keys@.to_set()),
    {
        let ghost start = self@;
        for i in 0..keys.len()
            invariant
                self.wf(),
                self@ == start.remove_keys(keys@.take(i as int).to_set()),
        {
            let _ = self.delete(&keys[i]);
            assert(keys@.take(i + 1) == keys@.take(i as int).push(keys@[i as int]));
            assert(keys@.take(i + 1).to_set() =~= keys@.take(i as int).to_set().insert(keys@[i as int])) by {
                broadcast use vstd::seq_lib::group_seq_properties;
            }
            assert(self@ =~= start.remove_keys(keys@.take(i + 1).to_set()));
        }
        assert(keys@.take(keys.len() as int) == keys@);
    }

    /// Keeps the entries whose data `filter` accepts and removes the others.
    /// `filter` is asked once for each entry.
    pub fn retain(&mut self, filter: impl Fn(&u64) -> bool)
        requires
            old(self).wf(),
            forall|d: u64| filter.requires((&d,)),
        ensures
            final(self).wf(),
            forall|d: u64| #[trigger] final(self)@.contains_key(d) ==> old(self)@.contains_key(d)
                && final(self)@[d] == old(self)@[d] && filter.ensures((&d,), true),
            forall|d: u64| #[trigger] old(self)@.contains_key(d) && !final(self)@.contains_key(d)
                ==> filter.ensures((&d,), false),
    {
        proof { lemma_pair_order(); }
        let mut rejected: Vec<u64> = Vec::new();
        for e in it: self.entries.iter()
            invariant
                self.wf(),
                forall|d: u64| filter.requires((&d,)),
                it.seq() == spec_btree_keys_iter(&self.entries).remaining(),
                forall|j: int| 0 <= j < rejected@.len() ==> filter.ensures((&#[trigger] rejected@[j],), false),
                forall|j: int| 0 <= j < it.index() ==> rejected@.contains(#[trigger] it.seq()[j].1)
                    || filter.ensures((&it.seq()[j].1,), true),
        {
            let accepted = filter(&e.1);
            if !accepted {
                rejected.push(e.1);
            }
            proof {
                broadcast use vstd::seq_lib::group_seq_properties;
            }
        }
        let ghost before = self@;
        let ghost q = spec_btree_keys_iter(&self.entries).remaining();
        proof { self.lemma_iteration(q); }
        self.remove_all(&rejected);
        proof {
            assert forall|d: u64| #[trigger] self@.contains_key(d) implies before.contains_key(d)
                && self@[d] == before[d] && filter.ensures((&d,), true) by {
                assert(old(self).entries@.contains((before[d], d)));
                let j = choose|j: int| 0 <= j < q.len() && *q[j] == (before[d], d);
                assert(!rejected@.to_set().contains(d));
                assert(!rejected@.contains(q[j].1));
            }
            assert forall|d: u64| #[trigger] before.contains_key(d) && !self@.contains_key(d)
                implies filter.ensures((&d,), false) by {
                assert(rejected@.to_set().contains(d));
                let j = choose|j: int| 0 <= j < rejected@.len() && rejected@[j] == d;
            }
        }
    }

    /// Removes the entries whose data is not in `keep`, leaves those that are untouched,
    /// and adds the data of `keep` that was missing with priority `default`.
    pub fn reconcile(&mut self, keep: &[u64], default: u64)
        requires
            old(self).wf(),
        ensures
            final(self).wf(),
            final(self)@ == reconciled(old(self)@, keep@.to_set(), default),
    {
        let ghost start = self@;
        let ghost wanted = keep@.to_set();
        let mut retained: HashSet<u64> = HashSet::new();
        for i in 0..keep.len()
            invariant
                retained@ == keep@.take(i as int).to_set(),
        {
            retained.insert(keep[i]);
            proof {
                broadcast use vstd::seq_lib::group_seq_properties;
                assert(keep@.take(i + 1) == keep@.take(i as int).push(keep@[i as int]));
                assert(keep@.take(i + 1).to_set() =~= keep@.take(i as int).to_set().insert(keep@[i as int]));
            }
        }
        proof {
            assert(keep@.take(keep@.len() as int) == keep@);
        }
        let mut to_remove: Vec<u64> = Vec::new();
        for key in it: self.indices.keys()
            invariant
                self.wf(),
                self@ == start,
                it.seq() == spec_keys_iter(&self.indices).remaining(),
                0 <= it.index() <= it.seq().len(),
                it.seq().no_duplicates(),
                retained@ == wanted.difference(it.seq().take(it.index()).unref().to_set()),
                forall|d: u64| #[trigger] to_remove@.contains(d) <==> (it.seq().take(it.index()).unref().contains(d) && !wanted.contains(d)),
        {
            let ghost idx = it.index();
            let ghost ks = it.seq();
            if !retained.remove(key) {
                to_remove.push(*key);
            }
            proof {
                broadcast use vstd::seq_lib::group_seq_properties;
                assert(ks.take(idx + 1).unref() == ks.take(idx).unref().push(*ks[idx]));
                assert(!ks.take(idx).unref().contains(*ks[idx])) by {
                    if ks.take(idx).unref().contains(*ks[idx]) {
                        let j = choose|j: int| 0 <= j < idx && ks.take(idx).unref()[j] == *ks[idx];
                        assert(ks[j] == ks[idx]);
                    }
                }
                assert(retained@ =~= wanted.difference(ks.take(idx + 1).unref().to_set()));
            }
        }
        let ghost ks = spec_keys_iter(&self.indices).remaining();
        proof {
            assert(ks.take(ks.len() as int) == ks);
            assert(ks.unref().to_set() == start.dom());
        }
        self.remove_all(&to_remove);
        proof {
            assert(self@ =~= start.restrict(wanted)) by {
                broadcast use vstd::seq_lib::group_seq_properties;
                assert forall|d: u64| to_remove@.to_set().contains(d) <==> (start.contains_key(d) && !wanted.contains(d)) by {
                    assert(to_remove@.contains(d) <==> to_remove@.to_set().contains(d));
                    assert(ks.unref().contains(d) <==> ks.unref().to_set().contains(d));
                }
            }
        }
        let ghost kept = self@;
        for item in it: retained.iter()
            invariant
                self.wf(),
                it.seq() == spec_hash_keys_iter(&retained).remaining(),
                0 <= it.index() <= it.seq().len(),
                self@ == kept.union_prefer_right(Map::new(|d: u64| it.seq().take(it.index()).unref().contains(d), |d: u64| default)),
        {
            let ghost idx = it.index();
            let ghost rs = it.seq();
            self.insert(*item, default);
            proof {
                broadcast use vstd::seq_lib::group_seq_properties;
                assert(rs.take(idx + 1).unref() == rs.take(idx).unref().push(*rs[idx]));
                assert(self@ =~= kept.union_prefer_right(Map::new(|d: u64| rs.take(idx + 1).unref().contains(d), |d: u64| default)));
            }
        }
        proof {
            broadcast use vstd::seq_lib::group_seq_properties;
            let rs = spec_hash_keys_iter(&retained).remaining();
            assert(rs.take(rs.len() as int) == rs);
            assert forall|d: u64| rs.unref().contains(d) <==> retained@.contains(d) by {
                assert(rs.unref().contains(d) <==> rs.unref().to_set().contains(d));
            }
            assert(self@ =~= reconciled(start, wanted, default));
        }
    }

    /// Every entry as `(data, priority)`, in priority order.
    pub fn iter(&self) -> (r: Vec<(&u64, &u64)>)
        requires
            self.wf(),
        ensures
            lists_in_order(self@, r@.unref()),
    {
        proof { lemma_pair_order(); }
        let mut out: Vec<(&u64, &u64)> = Vec::new();
        for e in it: self.entries.iter()
            invariant
                self.wf(),
                it.seq() == spec_btree_keys_iter(&self.entries).remaining(),
                out@.len() == it.index(),
                forall|i: int| 0 <= i < it.index() ==> #[trigger] out@[i].0 == it.seq()[i].1 && out@[i].1 == it.seq()[i].0,
        {
            out.push((&e.1, &e.0));
        }
        proof {
            let q = spec_btree_keys_iter(&self.entries).remaining();
            self.lemma_iteration(q);
            let s = out@.unref();
            assert forall|d: u64| #[trigger] self@.contains_key(d) implies exists|i: int|
                0 <= i < s.len() && s[i].0 == d by {
                assert(self.entries@.contains((self@[d], d)));
                let j = choose|j: int| 0 <= j < q.len() && *q[j] == (self@[d], d);
                assert(s[j].0 == d);
            }
            assert forall|i: int| 0 <= i < s.len() implies #[trigger] self@.contains_key(s[i].0) && self@[s[i].0] == s[i].1 by {
                assert(self.entries@.contains(*q[i]));
            }
            assert forall|i: int, j: int| 0 <= i < j < s.len() implies precedes(s[i].0, s[i].1, s[j].0, s[j].1) by {
                assert(pair_lt(*q[i], *q[j]));
            }
        }
        out
    }
}

} // verus!
