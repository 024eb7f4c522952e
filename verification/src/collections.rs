use vstd::prelude::*;

use crate::peers::PeerId;

verus! {

/// The map described by an association sequence: later entries win.
pub open spec fn seq_to_map<V>(s: Seq<(PeerId, V)>) -> Map<PeerId, V>
    decreases s.len(),
{
    if s.len() == 0 {
        Map::empty()
    } else {
        seq_to_map(s.drop_last()).insert(s.last().0, s.last().1)
    }
}

/// The set of the peers listed in a sequence.
pub open spec fn seq_to_set(s: Seq<PeerId>) -> Set<PeerId>
    decreases s.len(),
{
    if s.len() == 0 {
        Set::empty()
    } else {
        seq_to_set(s.drop_last()).insert(s.last())
    }
}

/// Whether an association sequence lists a key.
pub open spec fn has_key<V>(s: Seq<(PeerId, V)>, k: PeerId) -> bool {
    exists|i: int| 0 <= i < s.len() && (#[trigger] s[i]).0 == k
}

/// The position of a key in an association sequence.
pub open spec fn key_index<V>(s: Seq<(PeerId, V)>, k: PeerId) -> int {
    choose|i: int| 0 <= i < s.len() && (#[trigger] s[i]).0 == k
}

/// An association sequence after an insert: overwritten in place where the
/// key is present, appended where it is fresh.
pub open spec fn seq_insert<V>(s: Seq<(PeerId, V)>, k: PeerId, v: V) -> Seq<(PeerId, V)> {
    if has_key(s, k) {
        s.update(key_index(s, k), (k, v))
    } else {
        s.push((k, v))
    }
}

/// Keys of an association sequence are pairwise distinct.
pub open spec fn distinct_keys<V>(s: Seq<(PeerId, V)>) -> bool {
    forall|i: int, j: int|
        0 <= i < j < s.len() ==> (#[trigger] s[i]).0 != (#[trigger] s[j]).0
}

/// Elements of a peer sequence are pairwise distinct.
pub open spec fn distinct_peers(s: Seq<PeerId>) -> bool {
    forall|i: int, j: int| 0 <= i < j < s.len() ==> s[i] != s[j]
}

pub proof fn lemma_seq_to_map_domain<V>(s: Seq<(PeerId, V)>, k: PeerId)
    ensures
        seq_to_map(s).contains_key(k) <==> exists|i: int|
            0 <= i < s.len() && (#[trigger] s[i]).0 == k,
    decreases s.len(),
{
    if s.len() > 0 {
        lemma_seq_to_map_domain(s.drop_last(), k);
        if s.last().0 == k {
            assert((s[s.len() - 1]).0 == k);
        } else if seq_to_map(s).contains_key(k) {
            let i = choose|i: int| 0 <= i < s.drop_last().len() && (#[trigger] s.drop_last()[i]).0 == k;
            assert((s[i]).0 == k);
        } else {
            assert forall|i: int| 0 <= i < s.len() && (#[trigger] s[i]).0 == k implies false by {
                if i < s.len() - 1 {
                    assert((s.drop_last()[i]).0 == k);
                }
            }
        }
    }
}

pub proof fn lemma_seq_to_map_index<V>(s: Seq<(PeerId, V)>, i: int)
    requires
        distinct_keys(s),
        0 <= i < s.len(),
    ensures
        seq_to_map(s).contains_key((s[i]).0),
        seq_to_map(s)[(s[i]).0] == (s[i]).1,
    decreases s.len(),
{
    if s.len() > 0 {
        if i == s.len() - 1 {
        } else {
            assert(distinct_keys(s.drop_last())) by {
                assert forall|a: int, b: int|
                    0 <= a < b < s.drop_last().len() implies (#[trigger] s.drop_last()[a]).0
                    != (#[trigger] s.drop_last()[b]).0 by {
                    assert((s[a]).0 != (s[b]).0);
                }
            }
            lemma_seq_to_map_index(s.drop_last(), i);
            assert((s[i]).0 != (s[s.len() - 1]).0);
            assert(s.drop_last()[i] == s[i]);
        }
    }
}

pub proof fn lemma_seq_to_map_len<V>(s: Seq<(PeerId, V)>)
    requires
        distinct_keys(s),
    ensures
        seq_to_map(s).dom().finite(),
        seq_to_map(s).dom().len() == s.len(),
    decreases s.len(),
{
    if s.len() > 0 {
        assert(distinct_keys(s.drop_last())) by {
            assert forall|a: int, b: int|
                0 <= a < b < s.drop_last().len() implies (#[trigger] s.drop_last()[a]).0
                != (#[trigger] s.drop_last()[b]).0 by {
                assert((s[a]).0 != (s[b]).0);
            }
        }
        lemma_seq_to_map_len(s.drop_last());
        lemma_seq_to_map_domain(s.drop_last(), s.last().0);
        assert forall|i: int|
            0 <= i < s.drop_last().len() implies (#[trigger] s.drop_last()[i]).0 != s.last().0 by {
            assert((s[i]).0 != (s[s.len() - 1]).0);
        }
        assert(!seq_to_map(s.drop_last()).contains_key(s.last().0));
    }
}

pub proof fn lemma_seq_to_set_contains(s: Seq<PeerId>, k: PeerId)
    ensures
        seq_to_set(s).contains(k) <==> s.contains(k),
    decreases s.len(),
{
    if s.len() > 0 {
        lemma_seq_to_set_contains(s.drop_last(), k);
        if s.last() == k {
            assert(s[s.len() - 1] == k);
        } else if seq_to_set(s).contains(k) {
            let i = choose|i: int| 0 <= i < s.drop_last().len() && s.drop_last()[i] == k;
            assert(s[i] == k);
        } else {
            assert forall|i: int| 0 <= i < s.len() && s[i] == k implies false by {
                if i < s.len() - 1 {
                    assert(s.drop_last()[i] == k);
                }
            }
        }
    }
}

pub proof fn lemma_seq_to_set_len(s: Seq<PeerId>)
    requires
        distinct_peers(s),
    ensures
        seq_to_set(s).finite(),
        seq_to_set(s).len() == s.len(),
    decreases s.len(),
{
    if s.len() > 0 {
        assert(distinct_peers(s.drop_last()));
        lemma_seq_to_set_len(s.drop_last());
        lemma_seq_to_set_contains(s.drop_last(), s.last());
        assert(!s.drop_last().contains(s.last())) by {
            assert forall|i: int| 0 <= i < s.drop_last().len() implies s.drop_last()[i]
                != s.last() by {
                assert(s[i] != s[s.len() - 1]);
            }
        }
    }
}

/// An insertion-ordered association map from peers to values with pairwise
/// distinct keys, the shape every query strategy keeps its responses in.
pub struct PeerMap<V> {
    entries: Vec<(PeerId, V)>,
}

impl<V> View for PeerMap<V> {
    type V = Map<PeerId, V>;

    open spec fn view(&self) -> Map<PeerId, V> {
        seq_to_map(self.entries_seq())
    }
}

impl<V> PeerMap<V> {
    /// The entries in insertion order.
    pub closed spec fn entries_seq(&self) -> Seq<(PeerId, V)> {
        self.entries@
    }

    pub open spec fn wf(&self) -> bool {
        distinct_keys(self.entries_seq())
    }

    pub fn new() -> (m: Self)
        ensures
            m.wf(),
            m.entries_seq() =~= Seq::<(PeerId, V)>::empty(),
            m@ =~= Map::<PeerId, V>::empty(),
    {
        PeerMap { entries: Vec::new() }
    }

    pub fn len(&self) -> (n: usize)
        requires
            self.wf(),
        ensures
            n == self.entries_seq().len(),
            n == self@.dom().len(),
    {
        proof {
            lemma_seq_to_map_len(self.entries_seq());
        }
        self.entries.len()
    }

    fn index_of(&self, k: PeerId) -> (r: Option<usize>)
        ensures
            match r {
                Some(i) => i < self.entries_seq().len() && (self.entries_seq()[i as int]).0 == k,
                None => forall|i: int|
                    0 <= i < self.entries_seq().len() ==> (#[trigger] self.entries_seq()[i]).0 != k,
            },
    {
        let mut i: usize = 0;
        while i < self.entries.len()
            invariant
                i <= self.entries_seq().len(),
                forall|j: int| 0 <= j < i ==> (#[trigger] self.entries_seq()[j]).0 != k,
            decreases self.entries_seq().len() - i,
        {
            if self.entries[i].0 == k {
                return Some(i);
            }
            i = i + 1;
        }
        None
    }

    pub fn contains_key(&self, k: PeerId) -> (r: bool)
        ensures
            r == self@.contains_key(k),
    {
        proof {
            lemma_seq_to_map_domain(self.entries_seq(), k);
        }
        self.index_of(k).is_some()
    }

    pub fn get(&self, k: PeerId) -> (r: Option<&V>)
        requires
            self.wf(),
        ensures
            match r {
                Some(v) => self@.contains_key(k) && *v == self@[k],
                None => !self@.contains_key(k),
            },
    {
        proof {
            lemma_seq_to_map_domain(self.entries_seq(), k);
        }
        match self.index_of(k) {
            Some(i) => {
                proof {
                    lemma_seq_to_map_index(self.entries_seq(), i as int);
                }
                Some(&self.entries[i].1)
            },
            None => None,
        }
    }

    /// Insert or overwrite; a fresh key is appended, keeping insertion order.
    pub fn insert(&mut self, k: PeerId, v: V)
        requires
            old(self).wf(),
        ensures
            final(self).wf(),
            final(self)@ == old(self)@.insert(k, v),
            final(self).entries_seq() == seq_insert(old(self).entries_seq(), k, v),
            !old(self)@.contains_key(k) ==> final(self).entries_seq() == old(self).entries_seq().push((k, v)),
            old(self)@.contains_key(k) ==> final(self).entries_seq().len() == old(self).entries_seq().len(),
    {
        proof {
            lemma_seq_to_map_domain(self.entries_seq(), k);
        }
        match self.index_of(k) {
            Some(i) => {
                self.entries[i] = (k, v);
                proof {
                    let so = old(self).entries_seq();
                    let sn = self.entries_seq();
                    assert(sn =~= so.update(i as int, (k, v)));
                    assert(has_key(so, k));
                    assert(key_index(so, k) == i as int) by {
                        let j = key_index(so, k);
                        assert(0 <= j < so.len() && (so[j]).0 == k);
                        if j != i as int {
                            assert((so[j]).0 != (so[i as int]).0);
                        }
                    }
                    assert(distinct_keys(sn)) by {
                        assert forall|a: int, b: int|
                            0 <= a < b < sn.len() implies (#[trigger] sn[a]).0
                            != (#[trigger] sn[b]).0 by {
                            assert((so[a]).0 != (so[b]).0);
                            assert((so[i as int]).0 == k);
                        }
                    }
                    assert(final(self)@ =~= old(self)@.insert(k, v)) by {
                        lemma_map_update_at(so, i as int, (k, v));
                    }
                }
            },
            None => {
                self.entries.push((k, v));
                proof {
                    let so = old(self).entries_seq();
                    let sn = self.entries_seq();
                    assert(sn.drop_last() =~= so);
                    assert(!has_key(so, k));
                    assert(final(self)@ == old(self)@.insert(k, v));
                }
            },
        }
    }

    /// Remove the entry at a position, by swapping the last entry into it.
    pub fn remove_at(&mut self, i: usize) -> (r: (PeerId, V))
        requires
            old(self).wf(),
            i < old(self).entries_seq().len(),
        ensures
            final(self).wf(),
            r == old(self).entries_seq()[i as int],
            final(self)@ == old(self)@.remove(r.0),
    {
        let r = self.entries.swap_remove(i);
        proof {
            let so = old(self).entries_seq();
            let sn = self.entries_seq();
            lemma_map_swap_remove(so, i as int);
            if i as int == so.len() - 1 {
                assert(sn =~= so.drop_last());
            } else {
                assert(sn =~= so.drop_last().update(i as int, so.last()));
            }
        }
        r
    }

    /// Hand the whole map out and leave this one empty.
    pub fn take(&mut self) -> (r: Self)
        ensures
            r == *old(self),
            final(self).wf(),
            final(self)@ =~= Map::<PeerId, V>::empty(),
            final(self).entries_seq() =~= Seq::<(PeerId, V)>::empty(),
    {
        let mut other = PeerMap { entries: Vec::new() };
        core::mem::swap(self, &mut other);
        other
    }

    /// The entries, for callers that walk the map in insertion order.
    pub fn entries(&self) -> (r: &Vec<(PeerId, V)>)
        ensures
            r@ == self.entries_seq(),
    {
        &self.entries
    }

    /// The entries, handed over whole.
    pub fn into_entries(self) -> (r: Vec<(PeerId, V)>)
        ensures
            r@ == self.entries_seq(),
    {
        self.entries
    }
}

proof fn lemma_map_update_at<V>(s: Seq<(PeerId, V)>, i: int, e: (PeerId, V))
    requires
        distinct_keys(s),
        0 <= i < s.len(),
        (s[i]).0 == e.0,
    ensures
        seq_to_map(s.update(i, e)) == seq_to_map(s).insert(e.0, e.1),
{
    let sn = s.update(i, e);
    assert(distinct_keys(sn)) by {
        assert forall|a: int, b: int|
            0 <= a < b < sn.len() implies (#[trigger] sn[a]).0 != (#[trigger] sn[b]).0 by {
            assert((s[a]).0 != (s[b]).0);
        }
    }
    assert(seq_to_map(sn) =~= seq_to_map(s).insert(e.0, e.1)) by {
        assert forall|k: PeerId| #[trigger]
            seq_to_map(sn).contains_key(k) == seq_to_map(s).insert(e.0, e.1).contains_key(k) by {
            lemma_seq_to_map_domain(sn, k);
            lemma_seq_to_map_domain(s, k);
            if seq_to_map(sn).contains_key(k) {
                let j = choose|j: int| 0 <= j < sn.len() && (#[trigger] sn[j]).0 == k;
                assert((s[j]).0 == k);
            }
            if seq_to_map(s).contains_key(k) {
                let j = choose|j: int| 0 <= j < s.len() && (#[trigger] s[j]).0 == k;
                assert((sn[j]).0 == k);
            }
            if k == e.0 {
                assert((sn[i]).0 == k);
            }
        }
        assert forall|k: PeerId|
            seq_to_map(sn).contains_key(k) implies #[trigger] seq_to_map(sn)[k] == seq_to_map(
            s,
        ).insert(e.0, e.1)[k] by {
            lemma_seq_to_map_domain(sn, k);
            let j = choose|j: int| 0 <= j < sn.len() && (#[trigger] sn[j]).0 == k;
            lemma_seq_to_map_index(sn, j);
            if k == e.0 {
                assert(j == i);
            } else {
                assert(sn[j] == s[j]);
                lemma_seq_to_map_index(s, j);
            }
        }
    }
}

proof fn lemma_map_swap_remove<V>(s: Seq<(PeerId, V)>, i: int)
    requires
        distinct_keys(s),
        0 <= i < s.len(),
    ensures
        distinct_keys(
            if i == s.len() - 1 {
                s.drop_last()
            } else {
                s.drop_last().update(i, s.last())
            },
        ),
        seq_to_map(
            if i == s.len() - 1 {
                s.drop_last()
            } else {
                s.drop_last().update(i, s.last())
            },
        ) == seq_to_map(s).remove((s[i]).0),
{
    let sn = if i == s.len() - 1 {
        s.drop_last()
    } else {
        s.drop_last().update(i, s.last())
    };
    assert(distinct_keys(s.drop_last())) by {
        assert forall|a: int, b: int|
            0 <= a < b < s.drop_last().len() implies (#[trigger] s.drop_last()[a]).0
            != (#[trigger] s.drop_last()[b]).0 by {
            assert((s[a]).0 != (s[b]).0);
        }
    }
    assert(distinct_keys(sn)) by {
        assert forall|a: int, b: int|
            0 <= a < b < sn.len() implies (#[trigger] sn[a]).0 != (#[trigger] sn[b]).0 by {
            if i < s.len() - 1 {
                if a == i {
                    assert(sn[a] == s[s.len() - 1]);
                    assert(sn[b] == s[b]);
                } else if b == i {
                    assert(sn[b] == s[s.len() - 1]);
                    assert(sn[a] == s[a]);
                } else {
                    assert(sn[a] == s[a]);
                    assert(sn[b] == s[b]);
                }
            } else {
                assert(sn[a] == s[a]);
                assert(sn[b] == s[b]);
            }
        }
    }
    assert(seq_to_map(sn) =~= seq_to_map(s).remove((s[i]).0)) by {
        assert forall|k: PeerId| #[trigger]
            seq_to_map(sn).contains_key(k) == seq_to_map(s).remove((s[i]).0).contains_key(k) by {
            lemma_seq_to_map_domain(sn, k);
            lemma_seq_to_map_domain(s, k);
            if k != (s[i]).0 {
                if exists|j: int| 0 <= j < s.len() && (#[trigger] s[j]).0 == k {
                    let j = choose|j: int| 0 <= j < s.len() && (#[trigger] s[j]).0 == k;
                    assert(j != i);
                    if j == s.len() - 1 {
                        assert(i < s.len() - 1);
                        assert((sn[i]).0 == k);
                    } else {
                        assert((sn[j]).0 == k);
                    }
                }
                if exists|j: int| 0 <= j < sn.len() && (#[trigger] sn[j]).0 == k {
                    let j = choose|j: int| 0 <= j < sn.len() && (#[trigger] sn[j]).0 == k;
                    if i < s.len() - 1 && j == i {
                        assert((s[s.len() - 1]).0 == k);
                    } else {
                        assert((s[j]).0 == k);
                    }
                }
            } else {
                assert forall|j: int| 0 <= j < sn.len() implies (#[trigger] sn[j]).0 != k by {
                    if i < s.len() - 1 && j == i {
                        assert((s[s.len() - 1]).0 != k);
                    } else {
                        assert((s[j]).0 != k);
                    }
                }
            }
        }
        assert forall|k: PeerId|
            seq_to_map(sn).contains_key(k) implies #[trigger] seq_to_map(sn)[k] == seq_to_map(
            s,
        ).remove((s[i]).0)[k] by {
            lemma_seq_to_map_domain(sn, k);
            let j = choose|j: int| 0 <= j < sn.len() && (#[trigger] sn[j]).0 == k;
            lemma_seq_to_map_index(sn, j);
            if i < s.len() - 1 && j == i {
                lemma_seq_to_map_index(s, s.len() - 1);
                assert(sn[j] == s[s.len() - 1]);
            } else {
                assert(sn[j] == s[j]);
                lemma_seq_to_map_index(s, j);
            }
        }
    }
}

/// An insertion-ordered set of peers.
pub struct PeerSet {
    items: Vec<PeerId>,
}

impl View for PeerSet {
    type V = Set<PeerId>;

    open spec fn view(&self) -> Set<PeerId> {
        seq_to_set(self.items_seq())
    }
}

impl PeerSet {
    /// The peers in insertion order.
    pub closed spec fn items_seq(&self) -> Seq<PeerId> {
        self.items@
    }

    pub open spec fn wf(&self) -> bool {
        distinct_peers(self.items_seq())
    }

    pub fn new() -> (s: Self)
        ensures
            s.wf(),
            s.items_seq() =~= Seq::<PeerId>::empty(),
            s@ =~= Set::<PeerId>::empty(),
    {
        PeerSet { items: Vec::new() }
    }

    pub fn singleton(k: PeerId) -> (s: Self)
        ensures
            s.wf(),
            s.items_seq() =~= seq![k],
            s@ =~= Set::<PeerId>::empty().insert(k),
    {
        let mut items: Vec<PeerId> = Vec::new();
        items.push(k);
        let s = PeerSet { items };
        proof {
            assert(s.items_seq() =~= seq![k]);
            assert(s.items_seq().drop_last() =~= Seq::<PeerId>::empty());
            assert(seq_to_set(Seq::<PeerId>::empty()) =~= Set::<PeerId>::empty());
            assert(s@ == seq_to_set(s.items_seq().drop_last()).insert(k));
        }
        s
    }

    pub fn len(&self) -> (n: usize)
        requires
            self.wf(),
        ensures
            n == self.items_seq().len(),
            n == self@.len(),
    {
        proof {
            lemma_seq_to_set_len(self.items_seq());
        }
        self.items.len()
    }

    pub fn contains(&self, k: PeerId) -> (r: bool)
        ensures
            r == self@.contains(k),
    {
        proof {
            lemma_seq_to_set_contains(self.items_seq(), k);
        }
        let mut i: usize = 0;
        while i < self.items.len()
            invariant
                i <= self.items_seq().len(),
                forall|j: int| 0 <= j < i ==> self.items_seq()[j] != k,
            decreases self.items_seq().len() - i,
        {
            if self.items[i] == k {
                proof {
                    lemma_seq_to_set_contains(self.items_seq(), k);
                    assert(self.items_seq().contains(k)) by {
                        assert(self.items_seq()[i as int] == k);
                    }
                }
                return true;
            }
            i = i + 1;
        }
        false
    }

    /// Record a peer that was not in the set yet.
    pub fn insert(&mut self, k: PeerId)
        requires
            old(self).wf(),
            !old(self)@.contains(k),
        ensures
            final(self).wf(),
            final(self)@ == old(self)@.insert(k),
            final(self).items_seq() == old(self).items_seq().push(k),
    {
        proof {
            lemma_seq_to_set_contains(self.items_seq(), k);
        }
        self.items.push(k);
        proof {
            assert(self.items_seq().drop_last() =~= old(self).items_seq());
            assert forall|a: int, b: int|
                0 <= a < b < self.items_seq().len() implies self.items_seq()[a]
                != self.items_seq()[b] by {
                if b == self.items_seq().len() - 1 {
                    assert(old(self).items_seq().contains(old(self).items_seq()[a]));
                }
            }
        }
    }

    /// Hand the whole set out and leave this one empty.
    pub fn take(&mut self) -> (r: Self)
        ensures
            r == *old(self),
            final(self).wf(),
            final(self)@ =~= Set::<PeerId>::empty(),
            final(self).items_seq() =~= Seq::<PeerId>::empty(),
    {
        let mut other = PeerSet { items: Vec::new() };
        core::mem::swap(self, &mut other);
        other
    }

    /// The peers, for callers that walk the set in insertion order.
    pub fn items(&self) -> (r: &Vec<PeerId>)
        ensures
            r@ == self.items_seq(),
    {
        &self.items
    }
}


/// The map described by an association sequence through the keys' and
/// values' abstract views: later entries win.
pub open spec fn dv_map<K: DeepView, V: DeepView>(s: Seq<(K, V)>) -> Map<
    <K as DeepView>::V,
    <V as DeepView>::V,
>
    decreases s.len(),
{
    if s.len() == 0 {
        Map::empty()
    } else {
        dv_map(s.drop_last()).insert(s.last().0.deep_view(), s.last().1.deep_view())
    }
}

/// Key views of an association sequence are pairwise distinct.
pub open spec fn dv_distinct_keys<K: DeepView, V>(s: Seq<(K, V)>) -> bool {
    forall|i: int, j: int|
        0 <= i < j < s.len() ==> (#[trigger] s[i]).0.deep_view() != (#[trigger] s[j]).0.deep_view()
}

pub proof fn lemma_dv_map_domain<K: DeepView, V: DeepView>(s: Seq<(K, V)>, k: <K as DeepView>::V)
    ensures
        dv_map(s).contains_key(k) <==> exists|i: int|
            0 <= i < s.len() && (#[trigger] s[i]).0.deep_view() == k,
    decreases s.len(),
{
    if s.len() > 0 {
        lemma_dv_map_domain(s.drop_last(), k);
        if s.last().0.deep_view() == k {
            assert((s[s.len() - 1]).0.deep_view() == k);
        } else if dv_map(s).contains_key(k) {
            let i = choose|i: int|
                0 <= i < s.drop_last().len() && (#[trigger] s.drop_last()[i]).0.deep_view() == k;
            assert((s[i]).0.deep_view() == k);
        } else {
            assert forall|i: int|
                0 <= i < s.len() && (#[trigger] s[i]).0.deep_view() == k implies false by {
                if i < s.len() - 1 {
                    assert((s.drop_last()[i]).0.deep_view() == k);
                }
            }
        }
    }
}

pub proof fn lemma_dv_map_index<K: DeepView, V: DeepView>(s: Seq<(K, V)>, i: int)
    requires
        dv_distinct_keys(s),
        0 <= i < s.len(),
    ensures
        dv_map(s).contains_key((s[i]).0.deep_view()),
        dv_map(s)[(s[i]).0.deep_view()] == (s[i]).1.deep_view(),
    decreases s.len(),
{
    if s.len() > 0 {
        if i == s.len() - 1 {
        } else {
            assert(dv_distinct_keys(s.drop_last())) by {
                assert forall|a: int, b: int|
                    0 <= a < b < s.drop_last().len() implies (
                #[trigger] s.drop_last()[a]).0.deep_view() != (
                #[trigger] s.drop_last()[b]).0.deep_view() by {
                    assert((s[a]).0.deep_view() != (s[b]).0.deep_view());
                }
            }
            lemma_dv_map_index(s.drop_last(), i);
            assert((s[i]).0.deep_view() != (s[s.len() - 1]).0.deep_view());
            assert(s.drop_last()[i] == s[i]);
        }
    }
}


/// The set of the elements' abstract views.
pub open spec fn dv_set<T: DeepView>(s: Seq<T>) -> Set<<T as DeepView>::V>
    decreases s.len(),
{
    if s.len() == 0 {
        Set::empty()
    } else {
        dv_set(s.drop_last()).insert(s.last().deep_view())
    }
}

/// Element views are pairwise distinct.
pub open spec fn dv_distinct<T: DeepView>(s: Seq<T>) -> bool {
    forall|i: int, j: int|
        0 <= i < j < s.len() ==> (#[trigger] s[i]).deep_view() != (#[trigger] s[j]).deep_view()
}

pub proof fn lemma_dv_set_contains<T: DeepView>(s: Seq<T>, k: <T as DeepView>::V)
    ensures
        dv_set(s).contains(k) <==> exists|i: int|
            0 <= i < s.len() && (#[trigger] s[i]).deep_view() == k,
    decreases s.len(),
{
    if s.len() > 0 {
        lemma_dv_set_contains(s.drop_last(), k);
        if s.last().deep_view() == k {
            assert((s[s.len() - 1]).deep_view() == k);
        } else if dv_set(s).contains(k) {
            let i = choose|i: int|
                0 <= i < s.drop_last().len() && (#[trigger] s.drop_last()[i]).deep_view() == k;
            assert((s[i]).deep_view() == k);
        } else {
            assert forall|i: int|
                0 <= i < s.len() && (#[trigger] s[i]).deep_view() == k implies false by {
                if i < s.len() - 1 {
                    assert((s.drop_last()[i]).deep_view() == k);
                }
            }
        }
    }
}

} // verus!
