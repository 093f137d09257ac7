//! A header map keyed by canonical header identity: an ordered list of
//! entries whose case-folded keys are pairwise distinct. Inserting under a
//! key that is already present replaces the value and keeps the original
//! key text and position, so at most one value per canonical key can ever
//! be held — the later of two same-keyed assignments wins.
use vstd::prelude::*;

verus! {

use crate::header::{WarcHeader, canon, display_name};

/// An ordered header map with at most one value per canonical key.
#[derive(Debug, Clone)]
pub struct HeaderMap {
    entries: Vec<(WarcHeader, Vec<u8>)>,
}

impl HeaderMap {
    /// The entries, in insertion order.
    pub closed spec fn entries_seq(self) -> Seq<(WarcHeader, Vec<u8>)> {
        self.entries@
    }

    /// The number of entries.
    pub open spec fn spec_len(self) -> nat {
        self.entries_seq().len()
    }

    /// The case-folded key of the entry at an index.
    pub open spec fn canon_at(self, i: int) -> Seq<char> {
        canon(self.entries_seq()[i].0)
    }

    /// The value of the entry at an index.
    pub open spec fn val_at(self, i: int) -> Seq<u8> {
        self.entries_seq()[i].1@
    }

    /// Case-folded keys are pairwise distinct.
    pub open spec fn wf(self) -> bool {
        forall|i: int, j: int|
            0 <= i < j < self.entries_seq().len() ==> self.canon_at(i) != self.canon_at(j)
    }

    /// Whether some entry holds the given case-folded key.
    pub open spec fn has_key(self, k: Seq<char>) -> bool {
        exists|i: int| 0 <= i < self.entries_seq().len() && self.canon_at(i) == k
    }

    /// The index of the entry holding the given case-folded key.
    pub open spec fn index_of(self, k: Seq<char>) -> int {
        choose|i: int| 0 <= i < self.entries_seq().len() && self.canon_at(i) == k
    }

    /// The value held under the given case-folded key.
    pub open spec fn get_val(self, k: Seq<char>) -> Seq<u8> {
        self.val_at(self.index_of(k))
    }

    /// The map read as a mathematical map from case-folded key to value.
    pub open spec fn as_map(self) -> Map<Seq<char>, Seq<u8>> {
        Map::new(|k: Seq<char>| self.has_key(k), |k: Seq<char>| self.get_val(k))
    }

    /// In a well-formed map, every entry holding a key sits at the key's
    /// index.
    pub proof fn lemma_index_unique(self, i: int)
        requires
            self.wf(),
            0 <= i < self.entries_seq().len(),
        ensures
            self.has_key(self.canon_at(i)),
            self.index_of(self.canon_at(i)) == i,
            self.get_val(self.canon_at(i)) == self.val_at(i),
    {
        let k = self.canon_at(i);
        assert(self.has_key(k));
        let j = self.index_of(k);
        if i < j {
            assert(self.canon_at(i) != self.canon_at(j));
        } else if j < i {
            assert(self.canon_at(j) != self.canon_at(i));
        }
    }

    /// An empty map.
    pub fn new() -> (r: HeaderMap)
        ensures
            r.entries_seq().len() == 0,
            r.wf(),
            forall|k: Seq<char>| !r.has_key(k),
    {
        HeaderMap { entries: Vec::new() }
    }

    /// The number of entries.
    pub fn len(&self) -> (r: usize)
        ensures
            r == self.spec_len(),
    {
        self.entries.len()
    }

    /// Whether the map holds no entry.
    pub fn is_empty(&self) -> (r: bool)
        ensures
            r == (self.spec_len() == 0),
    {
        self.entries.len() == 0
    }

    /// The entry at an index.
    pub fn entry_at(&self, i: usize) -> (r: &(WarcHeader, Vec<u8>))
        requires
            i < self.spec_len(),
        ensures
            *r == self.entries_seq()[i as int],
    {
        &self.entries[i]
    }

    /// The index of the entry with the same canonical key, if any.
    fn find(&self, key: &WarcHeader) -> (r: Option<usize>)
        ensures
            match r {
                Some(i) => i < self.spec_len() && self.canon_at(i as int) == canon(*key),
                None => !self.has_key(canon(*key)),
            },
    {
        let n = self.entries.len();
        let mut i: usize = 0;
        while i < n
            invariant
                n == self.spec_len(),
                0 <= i <= n,
                forall|j: int| 0 <= j < i ==> self.canon_at(j) != canon(*key),
            decreases n - i,
        {
            if self.entries[i].0.key_eq(key) {
                return Some(i);
            }
            i = i + 1;
        }
        None
    }

    /// Whether the map holds the given key.
    pub fn contains_key(&self, key: &WarcHeader) -> (r: bool)
        ensures
            r == self.has_key(canon(*key)),
    {
        match self.find(key) {
            Some(i) => {
                proof {
                    assert(self.has_key(canon(*key)));
                }
                true
            },
            None => false,
        }
    }

    /// The value under the given key, if any.
    pub fn get(&self, key: &WarcHeader) -> (r: Option<&Vec<u8>>)
        requires
            self.wf(),
        ensures
            match r {
                Some(v) => self.has_key(canon(*key)) && v@ == self.get_val(canon(*key)),
                None => !self.has_key(canon(*key)),
            },
    {
        match self.find(key) {
            Some(i) => {
                proof {
                    self.lemma_index_unique(i as int);
                }
                Some(&self.entries[i].1)
            },
            None => None,
        }
    }

    /// Put a value under a key. An existing entry keeps its key text and
    /// position and only its value is replaced — the new assignment wins —
    /// and the replaced value is handed back.
    pub fn insert(&mut self, key: WarcHeader, value: Vec<u8>) -> (r: Option<Vec<u8>>)
        requires
            old(self).wf(),
        ensures
            final(self).wf(),
            old(self).has_key(canon(key)) ==> {
                let i = old(self).index_of(canon(key));
                &&& r matches Some(v) && v@ == old(self).val_at(i)
                &&& final(self).entries_seq() == old(self).entries_seq().update(
                    i,
                    (old(self).entries_seq()[i].0, value),
                )
            },
            !old(self).has_key(canon(key)) ==> {
                &&& r is None
                &&& final(self).entries_seq() == old(self).entries_seq().push((key, value))
            },
            forall|k: Seq<char>|
                #[trigger] final(self).has_key(k) <==> old(self).has_key(k) || k == canon(key),
            final(self).get_val(canon(key)) == value@,
            forall|k: Seq<char>|
                k != canon(key) && old(self).has_key(k) ==> #[trigger] final(self).get_val(k)
                    == old(self).get_val(k) && final(self).index_of(k) == old(self).index_of(k),
    {
        let ghost prev = *old(self);
        let ghost vview = value@;
        let ghost k_new = canon(key);
        match self.find(&key) {
            Some(i) => {
                proof {
                    self.lemma_index_unique(i as int);
                }
                let prior = self.entries.remove(i);
                self.entries.insert(i, (prior.0, value));
                proof {
                    assert(final(self).entries_seq() =~= old(self).entries_seq().update(
                        i as int,
                        (old(self).entries_seq()[i as int].0, value),
                    ));
                    assert forall|a: int, b: int|
                        0 <= a < b < final(self).entries_seq().len() implies final(self).canon_at(a)
                        != final(self).canon_at(b) by {
                        assert(old(self).canon_at(a) != old(self).canon_at(b));
                    }
                    lemma_insert_key_level(prev, *self, key, vview, i as int);
                }
                Some(prior.1)
            },
            None => {
                self.entries.push((key, value));
                proof {
                    assert forall|a: int, b: int|
                        0 <= a < b < final(self).entries_seq().len() implies final(self).canon_at(a)
                        != final(self).canon_at(b) by {
                        if b < old(self).entries_seq().len() {
                            assert(old(self).canon_at(a) != old(self).canon_at(b));
                        } else {
                            assert(old(self).canon_at(a) != canon(key));
                        }
                    }
                    lemma_push_key_level(prev, *self, key, vview);
                }
                None
            },
        }
    }

    /// Take the entry under a key out of the map, handing its value back.
    pub fn remove(&mut self, key: &WarcHeader) -> (r: Option<Vec<u8>>)
        requires
            old(self).wf(),
        ensures
            final(self).wf(),
            old(self).has_key(canon(*key)) ==> {
                let i = old(self).index_of(canon(*key));
                &&& r matches Some(v) && v@ == old(self).val_at(i)
                &&& final(self).entries_seq() == old(self).entries_seq().remove(i)
            },
            !old(self).has_key(canon(*key)) ==> {
                &&& r is None
                &&& *final(self) == *old(self)
            },
            forall|k: Seq<char>|
                #[trigger] final(self).has_key(k) <==> old(self).has_key(k) && k != canon(*key),
            forall|k: Seq<char>|
                k != canon(*key) && old(self).has_key(k) ==> #[trigger] final(self).get_val(k)
                    == old(self).get_val(k),
    {
        let ghost prev = *old(self);
        match self.find(key) {
            Some(i) => {
                proof {
                    self.lemma_index_unique(i as int);
                }
                let prior = self.entries.remove(i);
                proof {
                    assert forall|a: int, b: int|
                        0 <= a < b < final(self).entries_seq().len() implies final(self).canon_at(a)
                        != final(self).canon_at(b) by {
                        let oa = if a < i { a } else { a + 1 };
                        let ob = if b < i { b } else { b + 1 };
                        assert(old(self).canon_at(oa) != old(self).canon_at(ob));
                    }
                    lemma_remove_key_level(prev, *self, canon(*key), i as int);
                }
                Some(prior.1)
            },
            None => {
                proof {
                    assert forall|k: Seq<char>| #[trigger]
                        self.has_key(k) implies prev.has_key(k) && k != canon(*key) by {
                        let t = self.index_of(k);
                        self.lemma_index_unique(t);
                    }
                }
                None
            },
        }
    }

    /// Put every entry of another map into this one, in that map's order;
    /// a same-keyed entry of the other map wins.
    #[verifier::loop_isolation(false)]
    pub fn extend_from(&mut self, other: &HeaderMap)
        requires
            old(self).wf(),
            other.wf(),
        ensures
            final(self).wf(),
            forall|k: Seq<char>|
                #[trigger] final(self).has_key(k) <==> old(self).has_key(k) || other.has_key(k),
            forall|k: Seq<char>|
                other.has_key(k) ==> #[trigger] final(self).get_val(k) == other.get_val(k),
            forall|k: Seq<char>|
                !other.has_key(k) && old(self).has_key(k) ==> #[trigger] final(self).get_val(k)
                    == old(self).get_val(k),
            extended_matches(*old(self), *other, *final(self)),
    {
        let ghost base = *old(self);
        let ghost es_o = other.entries_seq();
        let ghost bl = base.spec_len() as int;
        let n = other.entries.len();
        let mut i: usize = 0;
        let ghost mut gi: int = 0;
        proof {
            assert(forall|k: Seq<char>| !has_key_upto(*other, k, 0)) by {
                reveal(has_key_upto);
            }
        }
        while i < n
            invariant
                n == other.spec_len(),
                0 <= i <= n,
                other.wf(),
                self.wf(),
                base == *old(self),
                es_o == other.entries_seq(),
                bl == base.spec_len() as int,
                base.wf(),
                forall|k: Seq<char>|
                    #[trigger] self.has_key(k) <==> old(self).has_key(k) || exists|j: int|
                        0 <= j < i && other.canon_at(j) == k,
                forall|j: int|
                    0 <= j < i ==> #[trigger] self.get_val(other.canon_at(j)) == other.val_at(j),
                forall|k: Seq<char>|
                    (!exists|j: int| 0 <= j < i && other.canon_at(j) == k) && old(self).has_key(k)
                        ==> #[trigger] self.get_val(k) == old(self).get_val(k),
                gi == i as int,
                self.spec_len() == bl + novel_entries(base, es_o, gi).len(),
                forall|t: int|
                    0 <= t < bl ==> #[trigger] self.entries_seq()[t].0 == base.entries_seq()[t].0
                        && self.val_at(t) == (if has_key_upto(*other, base.canon_at(t), gi) {
                        other.get_val(base.canon_at(t))
                    } else {
                        base.val_at(t)
                    }),
                forall|t: int|
                    bl <= t < self.spec_len() ==> {
                        let u = t - bl;
                        let nv = novel_entries(base, es_o, gi);
                        &&& #[trigger] self.canon_at(t) == canon(nv[u].0)
                        &&& display_name(self.entries_seq()[t].0) == display_name(nv[u].0)
                        &&& self.val_at(t) == nv[u].1@
                    },
            decreases n - i,
        {
            let entry = other.entry_at(i);
            let key = entry.0.dup();
            let mut value: Vec<u8> = Vec::new();
            value.extend_from_slice(entry.1.as_slice());
            proof {
                assert(value@ =~= other.val_at(i as int));
            }
            let ghost prev = *self;
            let ghost vview = value@;
            let ghost gk_canon = canon(key);
            let ghost gk_display = display_name(key);
            self.insert(key, value);
            proof {
                let k_new = other.canon_at(i as int);
                let pl = prev.entries_seq().len() as int;
                assert(gk_canon == k_new && gk_display == display_name(es_o[i as int].0));
                let ghost ii: int = if prev.has_key(k_new) {
                    prev.index_of(k_new)
                } else {
                    pl
                };
                if prev.has_key(k_new) {
                    prev.lemma_index_unique(ii);
                    assert(self.entries_seq() == prev.entries_seq().update(
                        ii,
                        (prev.entries_seq()[ii].0, value),
                    ));
                    assert(forall|t: int| 0 <= t < pl ==> self.canon_at(t) == prev.canon_at(t));
                    assert(forall|t: int|
                        0 <= t < pl && t != ii ==> self.val_at(t) == prev.val_at(t));
                } else {
                    assert(self.entries_seq() == prev.entries_seq().push((key, value)));
                    assert(forall|t: int|
                        0 <= t < pl ==> self.canon_at(t) == prev.canon_at(t) && self.val_at(t)
                            == prev.val_at(t));
                }
                assert(self.canon_at(ii) == k_new);
                assert(self.val_at(ii) == vview);
                self.lemma_index_unique(ii);
                assert forall|j: int|
                    0 <= j < i + 1 implies #[trigger] self.get_val(other.canon_at(j))
                    == other.val_at(j) by {
                    let kj = other.canon_at(j);
                    if j == i {
                        assert(self.get_val(k_new) == vview);
                    } else if kj == k_new {
                        assert(other.canon_at(j) != other.canon_at(i as int));
                    } else {
                        assert(0 <= j < i && other.canon_at(j) == kj);
                        assert(prev.has_key(kj));
                        let jj = prev.index_of(kj);
                        prev.lemma_index_unique(jj);
                        assert(self.canon_at(jj) == kj);
                        self.lemma_index_unique(jj);
                        assert(jj != ii);
                        assert(self.val_at(jj) == prev.val_at(jj));
                    }
                }
                assert forall|k: Seq<char>|
                    (!exists|j: int| 0 <= j < i + 1 && other.canon_at(j) == k) && old(
                        self,
                    ).has_key(k) implies #[trigger] self.get_val(k) == old(self).get_val(k) by {
                    assert(prev.has_key(k));
                    let jj = prev.index_of(k);
                    prev.lemma_index_unique(jj);
                    assert(self.canon_at(jj) == k);
                    self.lemma_index_unique(jj);
                    assert(k != k_new);
                    assert(jj != ii);
                    assert(self.val_at(jj) == prev.val_at(jj));
                }
                assert forall|k: Seq<char>| #[trigger]
                    self.has_key(k) implies (old(self).has_key(k) || exists|j: int|
                    0 <= j < i + 1 && other.canon_at(j) == k) by {
                    let jj = self.index_of(k);
                    self.lemma_index_unique(jj);
                    if jj != ii {
                        assert(jj < pl);
                        assert(prev.canon_at(jj) == k);
                        assert(prev.has_key(k));
                    } else {
                        assert(k == k_new);
                        assert(0 <= i < i + 1 && other.canon_at(i as int) == k);
                    }
                }
                assert forall|k: Seq<char>|
                    (old(self).has_key(k) || exists|j: int|
                        0 <= j < i + 1 && other.canon_at(j) == k) implies #[trigger] self.has_key(
                    k) by {
                    if prev.has_key(k) {
                        let jj = prev.index_of(k);
                        prev.lemma_index_unique(jj);
                        assert(self.canon_at(jj) == k);
                        assert(self.has_key(k));
                    } else {
                        let j = choose|j: int| 0 <= j < i + 1 && other.canon_at(j) == k;
                        assert(j == i);
                        assert(self.canon_at(ii) == k);
                        assert(self.has_key(k));
                    }
                }
                // entry-level bookkeeping for the extended shape
                assert(!(exists|j: int| 0 <= j < i && other.canon_at(j) == k_new)) by {
                    if exists|j: int| 0 <= j < i && other.canon_at(j) == k_new {
                        let j = choose|j: int| 0 <= j < i && other.canon_at(j) == k_new;
                        assert(other.canon_at(j) != other.canon_at(i as int));
                    }
                }
                assert(prev.has_key(k_new) <==> base.has_key(k_new));
                assert(canon(es_o[i as int].0) == k_new);
                if prev.has_key(k_new) {
                    let idx = base.index_of(k_new);
                    base.lemma_index_unique(idx);
                    assert(prev.entries_seq()[idx].0 == base.entries_seq()[idx].0);
                    assert(prev.canon_at(idx) == k_new);
                    prev.lemma_index_unique(idx);
                    assert(ii == idx && idx < bl);
                    assert(novel_entries(base, es_o, i + 1) == novel_entries(base, es_o, i as int));
                    assert forall|t: int|
                        0 <= t < bl implies #[trigger] self.entries_seq()[t].0
                        == base.entries_seq()[t].0 && self.val_at(t) == (if has_key_upto(
                        *other,
                        base.canon_at(t),
                        i + 1,
                    ) {
                        other.get_val(base.canon_at(t))
                    } else {
                        base.val_at(t)
                    }) by {
                        reveal(has_key_upto);
                        assert(prev.entries_seq()[t].0 == base.entries_seq()[t].0);
                        if t == idx {
                            other.lemma_index_unique(i as int);
                            assert(self.val_at(t) == other.get_val(k_new));
                            assert(0 <= i < i + 1 && other.canon_at(i as int) == base.canon_at(t));
                            assert(has_key_upto(*other, base.canon_at(t), i + 1));
                        } else {
                            assert(self.val_at(t) == prev.val_at(t));
                            if has_key_upto(*other, base.canon_at(t), i + 1) {
                                let j = choose|j: int|
                                    0 <= j < i + 1 && other.canon_at(j) == base.canon_at(t);
                                if j == i {
                                    assert(base.canon_at(t) == k_new);
                                    if t < idx {
                                        assert(base.canon_at(t) != base.canon_at(idx));
                                    } else {
                                        assert(base.canon_at(idx) != base.canon_at(t));
                                    }
                                } else {
                                    assert(has_key_upto(*other, base.canon_at(t), i as int));
                                }
                            }
                        }
                    }
                    assert forall|t: int| bl <= t < self.spec_len() implies {
                        let u = t - bl;
                        let nv = novel_entries(base, es_o, i + 1);
                        &&& #[trigger] self.canon_at(t) == canon(nv[u].0)
                        &&& display_name(self.entries_seq()[t].0) == display_name(nv[u].0)
                        &&& self.val_at(t) == nv[u].1@
                    } by {
                        let u = t - bl;
                        let nv0 = novel_entries(base, es_o, i as int);
                        assert(prev.canon_at(t) == canon(nv0[u].0));
                        assert(display_name(prev.entries_seq()[t].0) == display_name(nv0[u].0));
                        assert(prev.val_at(t) == nv0[u].1@);
                        assert(t != ii);
                        assert(self.entries_seq()[t] == prev.entries_seq()[t]);
                    }
                } else {
                    assert(!base.has_key(k_new));
                    assert(ii == pl);
                    assert(novel_entries(base, es_o, i + 1) == novel_entries(base, es_o, i as int)
                        + seq![es_o[i as int]]);
                    assert forall|t: int|
                        0 <= t < bl implies #[trigger] self.entries_seq()[t].0
                        == base.entries_seq()[t].0 && self.val_at(t) == (if has_key_upto(
                        *other,
                        base.canon_at(t),
                        i + 1,
                    ) {
                        other.get_val(base.canon_at(t))
                    } else {
                        base.val_at(t)
                    }) by {
                        reveal(has_key_upto);
                        assert(self.entries_seq()[t] == prev.entries_seq()[t]);
                        assert(prev.entries_seq()[t].0 == base.entries_seq()[t].0);
                        if has_key_upto(*other, base.canon_at(t), i + 1) {
                            let j = choose|j: int|
                                0 <= j < i + 1 && other.canon_at(j) == base.canon_at(t);
                            if j == i {
                                assert(base.canon_at(t) == k_new);
                                base.lemma_index_unique(t);
                                assert(base.has_key(k_new));
                            } else {
                                assert(has_key_upto(*other, base.canon_at(t), i as int));
                            }
                        }
                    }
                    assert forall|t: int| bl <= t < self.spec_len() implies {
                        let u = t - bl;
                        let nv = novel_entries(base, es_o, i + 1);
                        &&& #[trigger] self.canon_at(t) == canon(nv[u].0)
                        &&& display_name(self.entries_seq()[t].0) == display_name(nv[u].0)
                        &&& self.val_at(t) == nv[u].1@
                    } by {
                        let u = t - bl;
                        let nv0 = novel_entries(base, es_o, i as int);
                        let nv = novel_entries(base, es_o, i + 1);
                        if t < pl {
                            assert(self.entries_seq()[t] == prev.entries_seq()[t]);
                            assert(prev.canon_at(t) == canon(nv0[u].0));
                            assert(display_name(prev.entries_seq()[t].0) == display_name(nv0[u].0));
                            assert(prev.val_at(t) == nv0[u].1@);
                            assert(nv[u] == nv0[u]);
                        } else {
                            assert(t == pl && u == nv0.len());
                            assert(nv[u] == es_o[i as int]);
                            assert(self.canon_at(t) == gk_canon);
                            assert(display_name(self.entries_seq()[t].0) == gk_display);
                            assert(self.val_at(t) == vview);
                        }
                    }
                }
                gi = gi + 1;
                assert(gi == i + 1);
                assert(self.spec_len() == bl + novel_entries(base, es_o, gi).len());
                assert(forall|t: int|
                    0 <= t < bl ==> #[trigger] self.entries_seq()[t].0 == base.entries_seq()[t].0
                        && self.val_at(t) == (if has_key_upto(*other, base.canon_at(t), gi) {
                        other.get_val(base.canon_at(t))
                    } else {
                        base.val_at(t)
                    }));
                assert(forall|t: int|
                    bl <= t < self.spec_len() ==> {
                        let u = t - bl;
                        let nv = novel_entries(base, es_o, gi);
                        &&& #[trigger] self.canon_at(t) == canon(nv[u].0)
                        &&& display_name(self.entries_seq()[t].0) == display_name(nv[u].0)
                        &&& self.val_at(t) == nv[u].1@
                    });
            }
            i = i + 1;
        }
        proof {
            assert forall|t: int|
                0 <= t < bl implies (has_key_upto(*other, base.canon_at(t), n as int)
                <==> other.has_key(base.canon_at(t))) by {
                reveal(has_key_upto);
                if has_key_upto(*other, base.canon_at(t), n as int) {
                    let j = choose|j: int| 0 <= j < n && other.canon_at(j) == base.canon_at(t);
                    assert(other.has_key(base.canon_at(t)));
                }
                if other.has_key(base.canon_at(t)) {
                    let j = other.index_of(base.canon_at(t));
                    other.lemma_index_unique(j);
                    assert(has_key_upto(*other, base.canon_at(t), n as int));
                }
            }
            assert(extended_matches(base, *other, *self));
        }
    }
}

/// Whether one of the first `i` entries of a map holds the given
/// case-folded key.
#[verifier::opaque]
pub open spec fn has_key_upto(m: HeaderMap, k: Seq<char>, i: int) -> bool {
    exists|j: int| 0 <= j < i && m.canon_at(j) == k
}

/// Among the first `i` entries of a list, those whose case-folded keys
/// the base map does not hold, in their stored order.
pub open spec fn novel_entries(
    base: HeaderMap,
    es: Seq<(WarcHeader, Vec<u8>)>,
    i: int,
) -> Seq<(WarcHeader, Vec<u8>)>
    decreases i,
{
    if i <= 0 || i > es.len() {
        Seq::empty()
    } else if base.has_key(canon(es[i - 1].0)) {
        novel_entries(base, es, i - 1)
    } else {
        novel_entries(base, es, i - 1) + seq![es[i - 1]]
    }
}

/// Which entries the base map does not hold depends only on which keys it
/// holds.
pub proof fn lemma_novel_entries_same(
    base1: HeaderMap,
    base2: HeaderMap,
    es: Seq<(WarcHeader, Vec<u8>)>,
    i: int,
)
    requires
        forall|k: Seq<char>| #[trigger] base1.has_key(k) <==> base2.has_key(k),
    ensures
        novel_entries(base1, es, i) == novel_entries(base2, es, i),
    decreases i,
{
    if 0 < i <= es.len() {
        lemma_novel_entries_same(base1, base2, es, i - 1);
        assert(base1.has_key(canon(es[i - 1].0)) <==> base2.has_key(canon(es[i - 1].0)));
    }
}

/// How a map extended with another's entries relates to the two, entry by
/// entry: the base entries keep their keys and positions, a value is
/// replaced in place where the other map holds the same key, and the
/// other map's remaining entries follow in their stored order.
pub open spec fn extended_matches(base: HeaderMap, other: HeaderMap, m: HeaderMap) -> bool {
    let nv = novel_entries(base, other.entries_seq(), other.spec_len() as int);
    &&& m.spec_len() == base.spec_len() + nv.len()
    &&& (forall|t: int|
        0 <= t < base.spec_len() ==> #[trigger] m.entries_seq()[t].0 == base.entries_seq()[t].0
            && m.val_at(t) == (if other.has_key(base.canon_at(t)) {
            other.get_val(base.canon_at(t))
        } else {
            base.val_at(t)
        }))
    &&& (forall|t: int|
        base.spec_len() <= t < m.spec_len() ==> {
            let u = t - base.spec_len();
            &&& #[trigger] m.canon_at(t) == canon(nv[u].0)
            &&& display_name(m.entries_seq()[t].0) == display_name(nv[u].0)
            &&& m.val_at(t) == nv[u].1@
        })
}

impl PartialEq for HeaderMap {
    fn eq(&self, other: &HeaderMap) -> (r: bool) {
        let n = self.entries.len();
        if n != other.entries.len() {
            return false;
        }
        let mut i: usize = 0;
        while i < n
            invariant
                n == self.spec_len(),
                n == other.spec_len(),
                0 <= i <= n,
                forall|j: int|
                    0 <= j < i ==> self.canon_at(j) == other.canon_at(j) && self.val_at(j)
                        == other.val_at(j),
            decreases n - i,
        {
            if !self.entries[i].0.key_eq(&other.entries[i].0) {
                proof {
                    assert(self.canon_at(i as int) != other.canon_at(i as int));
                }
                return false;
            }
            if !(self.entries[i].1 == other.entries[i].1) {
                proof {
                    if self.val_at(i as int) == other.val_at(i as int) {
                        let a = self.entries_seq()[i as int].1;
                        let b = other.entries_seq()[i as int].1;
                        assert(a@.len() == b@.len());
                        assert(forall|e: int| 0 <= e < a@.len() ==> a@[e] == b@[e]);
                        assert(false);
                    }
                }
                return false;
            }
            proof {
                assert(self.val_at(i as int) =~= other.val_at(i as int));
            }
            i = i + 1;
        }
        true
    }
}

/// What replacing the value at a key's own index means key by key.
proof fn lemma_insert_key_level(
    prev: HeaderMap,
    cur: HeaderMap,
    key: WarcHeader,
    vview: Seq<u8>,
    ii: int,
)
    requires
        prev.wf(),
        cur.wf(),
        0 <= ii < prev.entries_seq().len(),
        prev.canon_at(ii) == canon(key),
        cur.spec_len() == prev.spec_len(),
        forall|t: int| 0 <= t < prev.spec_len() ==> cur.canon_at(t) == prev.canon_at(t),
        cur.val_at(ii) == vview,
        forall|t: int| 0 <= t < prev.spec_len() && t != ii ==> cur.val_at(t) == prev.val_at(t),
    ensures
        forall|k: Seq<char>| #[trigger] cur.has_key(k) <==> prev.has_key(k) || k == canon(key),
        cur.get_val(canon(key)) == vview,
        forall|k: Seq<char>|
            k != canon(key) && prev.has_key(k) ==> #[trigger] cur.get_val(k) == prev.get_val(k)
                && cur.index_of(k) == prev.index_of(k),
{
    assert forall|k: Seq<char>| #[trigger] cur.has_key(k) implies prev.has_key(k) by {
        let t = cur.index_of(k);
        cur.lemma_index_unique(t);
        assert(prev.canon_at(t) == k);
        prev.lemma_index_unique(t);
    }
    assert forall|k: Seq<char>| prev.has_key(k) implies #[trigger] cur.has_key(k) by {
        let t = prev.index_of(k);
        prev.lemma_index_unique(t);
        assert(cur.canon_at(t) == k);
        cur.lemma_index_unique(t);
    }
    prev.lemma_index_unique(ii);
    assert(cur.canon_at(ii) == canon(key));
    cur.lemma_index_unique(ii);
    assert forall|k: Seq<char>|
        k != canon(key) && prev.has_key(k) implies #[trigger] cur.get_val(k) == prev.get_val(k)
        && cur.index_of(k) == prev.index_of(k) by {
        let t = prev.index_of(k);
        prev.lemma_index_unique(t);
        assert(cur.canon_at(t) == k);
        cur.lemma_index_unique(t);
        assert(t != ii);
    }
}

/// What appending an entry under a fresh key means key by key.
proof fn lemma_push_key_level(prev: HeaderMap, cur: HeaderMap, key: WarcHeader, vview: Seq<u8>)
    requires
        prev.wf(),
        cur.wf(),
        !prev.has_key(canon(key)),
        cur.spec_len() == prev.spec_len() + 1,
        forall|t: int|
            0 <= t < prev.spec_len() ==> cur.canon_at(t) == prev.canon_at(t) && cur.val_at(t)
                == prev.val_at(t),
        cur.canon_at(prev.spec_len() as int) == canon(key),
        cur.val_at(prev.spec_len() as int) == vview,
    ensures
        forall|k: Seq<char>| #[trigger] cur.has_key(k) <==> prev.has_key(k) || k == canon(key),
        cur.get_val(canon(key)) == vview,
        forall|k: Seq<char>|
            k != canon(key) && prev.has_key(k) ==> #[trigger] cur.get_val(k) == prev.get_val(k)
                && cur.index_of(k) == prev.index_of(k),
{
    let pl = prev.spec_len() as int;
    assert forall|k: Seq<char>| #[trigger] cur.has_key(k) implies (prev.has_key(k) || k == canon(
        key,
    )) by {
        let t = cur.index_of(k);
        cur.lemma_index_unique(t);
        if t < pl {
            assert(prev.canon_at(t) == k);
            prev.lemma_index_unique(t);
        }
    }
    assert forall|k: Seq<char>| prev.has_key(k) implies #[trigger] cur.has_key(k) by {
        let t = prev.index_of(k);
        prev.lemma_index_unique(t);
        assert(cur.canon_at(t) == k);
        cur.lemma_index_unique(t);
    }
    assert(cur.has_key(canon(key))) by {
        cur.lemma_index_unique(pl);
    }
    cur.lemma_index_unique(pl);
    assert forall|k: Seq<char>|
        k != canon(key) && prev.has_key(k) implies #[trigger] cur.get_val(k) == prev.get_val(k)
        && cur.index_of(k) == prev.index_of(k) by {
        let t = prev.index_of(k);
        prev.lemma_index_unique(t);
        assert(cur.canon_at(t) == k);
        cur.lemma_index_unique(t);
    }
}

/// What taking out the entry at a key's own index means key by key.
proof fn lemma_remove_key_level(prev: HeaderMap, cur: HeaderMap, kc: Seq<char>, ii: int)
    requires
        prev.wf(),
        cur.wf(),
        0 <= ii < prev.entries_seq().len(),
        prev.canon_at(ii) == kc,
        cur.spec_len() == prev.spec_len() - 1,
        forall|t: int| 0 <= t < ii ==> cur.canon_at(t) == prev.canon_at(t) && cur.val_at(t)
            == prev.val_at(t),
        forall|t: int|
            ii <= t < cur.spec_len() ==> cur.canon_at(t) == prev.canon_at(t + 1) && cur.val_at(t)
                == prev.val_at(t + 1),
    ensures
        forall|k: Seq<char>| #[trigger] cur.has_key(k) <==> prev.has_key(k) && k != kc,
        forall|k: Seq<char>|
            k != kc && prev.has_key(k) ==> #[trigger] cur.get_val(k) == prev.get_val(k),
{
    prev.lemma_index_unique(ii);
    assert forall|k: Seq<char>| #[trigger] cur.has_key(k) implies (prev.has_key(k) && k != kc) by {
        let t = cur.index_of(k);
        cur.lemma_index_unique(t);
        let ot = if t < ii {
            t
        } else {
            t + 1
        };
        assert(prev.canon_at(ot) == k);
        prev.lemma_index_unique(ot);
        assert(ot != ii);
    }
    assert forall|k: Seq<char>| prev.has_key(k) && k != kc implies #[trigger] cur.has_key(k) by {
        let t = prev.index_of(k);
        prev.lemma_index_unique(t);
        assert(t != ii);
        let ct = if t < ii {
            t
        } else {
            t - 1
        };
        assert(cur.canon_at(ct) == k);
        cur.lemma_index_unique(ct);
    }
    assert forall|k: Seq<char>|
        k != kc && prev.has_key(k) implies #[trigger] cur.get_val(k) == prev.get_val(k) by {
        let t = prev.index_of(k);
        prev.lemma_index_unique(t);
        assert(t != ii);
        let ct = if t < ii {
            t
        } else {
            t - 1
        };
        assert(cur.canon_at(ct) == k);
        cur.lemma_index_unique(ct);
        assert(cur.val_at(ct) == prev.val_at(t));
    }
}

/// Entry-wise equality of header maps: same length, and the same
/// canonical key and value at every position.
pub open spec fn hm_eq(a: HeaderMap, b: HeaderMap) -> bool {
    &&& a.spec_len() == b.spec_len()
    &&& forall|j: int|
        0 <= j < a.spec_len() ==> a.canon_at(j) == b.canon_at(j) && a.val_at(j) == b.val_at(j)
}

impl vstd::std_specs::cmp::PartialEqSpecImpl for HeaderMap {
    open spec fn obeys_eq_spec() -> bool {
        true
    }

    open spec fn eq_spec(&self, other: &HeaderMap) -> bool {
        hm_eq(*self, *other)
    }
}

} // verus!
