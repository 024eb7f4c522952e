use vstd::prelude::*;

use crate::amount::Amount;
use crate::collections::{
    dv_distinct, dv_distinct_keys, dv_map, dv_set, lemma_dv_map_domain, lemma_dv_map_index,
    lemma_dv_set_contains,
};

verus! {

/// Identifier of a pending issuance output: the transaction and the index
/// of the output within it.
#[derive(Clone, Debug)]
pub struct OutPoint {
    pub txid: Vec<u8>,
    pub out_idx: u32,
}

impl DeepView for OutPoint {
    type V = (Seq<u8>, u32);

    open spec fn deep_view(&self) -> (Seq<u8>, u32) {
        (self.txid.deep_view(), self.out_idx)
    }
}

/// A key of the mint's audit table: one open issuance or redemption, or a
/// rolled-up total.
#[derive(Clone, Debug)]
pub enum MintAuditItemKey {
    /// Value signed out for an outstanding issuance.
    Issuance(OutPoint),
    /// The rolled-up total of all issuances so far.
    IssuanceTotal,
    /// Value redeemed by spending the note with this nonce.
    Redemption(Vec<u8>),
    /// The rolled-up total of all redemptions so far.
    RedemptionTotal,
}

/// The abstract form of an audit key.
pub enum AuditKeyView {
    Issuance((Seq<u8>, u32)),
    IssuanceTotal,
    Redemption(Seq<u8>),
    RedemptionTotal,
}

impl DeepView for MintAuditItemKey {
    type V = AuditKeyView;

    open spec fn deep_view(&self) -> AuditKeyView {
        match self {
            MintAuditItemKey::Issuance(op) => AuditKeyView::Issuance(op.deep_view()),
            MintAuditItemKey::IssuanceTotal => AuditKeyView::IssuanceTotal,
            MintAuditItemKey::Redemption(nonce) => AuditKeyView::Redemption(nonce.deep_view()),
            MintAuditItemKey::RedemptionTotal => AuditKeyView::RedemptionTotal,
        }
    }
}

/// One user's e-cash backup: an opaque snapshot with its timestamp.
#[derive(Clone, Debug)]
pub struct EcashBackupSnapshot {
    pub timestamp: u64,
    pub data: Vec<u8>,
}

impl DeepView for EcashBackupSnapshot {
    type V = (u64, Seq<u8>);

    open spec fn deep_view(&self) -> (u64, Seq<u8>) {
        (self.timestamp, self.data.deep_view())
    }
}

/// What a metric event observed.
#[derive(Clone, Copy, Debug, PartialEq, Eq, Structural)]
pub enum MetricKind {
    IssuedEcash,
    RedeemedEcash,
}

/// One metric observation, recorded for after the commit.
#[derive(Clone, Copy, Debug, PartialEq, Eq, Structural)]
pub struct MetricEvent {
    pub kind: MetricKind,
    pub amount: Amount,
    pub fee: Amount,
}

/// The value redeemed or issued by the audit entries of a table, counting
/// open items and rolled-up totals alike.
pub open spec fn issuance_sum(s: Seq<(MintAuditItemKey, u64)>) -> int
    decreases s.len(),
{
    if s.len() == 0 {
        0
    } else {
        issuance_sum(s.drop_last()) + match s.last().0 {
            MintAuditItemKey::Issuance(_) => s.last().1 as int,
            MintAuditItemKey::IssuanceTotal => s.last().1 as int,
            _ => 0,
        }
    }
}

/// The redemption counterpart of `issuance_sum`.
pub open spec fn redemption_sum(s: Seq<(MintAuditItemKey, u64)>) -> int
    decreases s.len(),
{
    if s.len() == 0 {
        0
    } else {
        redemption_sum(s.drop_last()) + match s.last().0 {
            MintAuditItemKey::Redemption(_) => s.last().1 as int,
            MintAuditItemKey::RedemptionTotal => s.last().1 as int,
            _ => 0,
        }
    }
}

pub proof fn lemma_bytes_deep_view(v: Vec<u8>)
    ensures
        v.deep_view() == v@,
{
    assert(v.deep_view() =~= v@);
}

/// Whether two byte strings hold the same bytes.
pub fn bytes_eq(a: &Vec<u8>, b: &Vec<u8>) -> (r: bool)
    ensures
        r == (a@ == b@),
{
    if a.len() != b.len() {
        proof {
            assert(a@.len() != b@.len());
        }
        return false;
    }
    let mut i: usize = 0;
    while i < a.len()
        invariant
            a@.len() == b@.len(),
            i <= a@.len(),
            forall|j: int| 0 <= j < i ==> a@[j] == b@[j],
        decreases a@.len() - i,
    {
        if a[i] != b[i] {
            proof {
                assert(a@[i as int] != b@[i as int]);
            }
            return false;
        }
        i = i + 1;
    }
    proof {
        assert(a@ =~= b@);
    }
    true
}

/// A copy of a byte string.
pub fn bytes_dup(a: &Vec<u8>) -> (r: Vec<u8>)
    ensures
        r@ == a@,
{
    let mut r: Vec<u8> = Vec::new();
    let mut i: usize = 0;
    while i < a.len()
        invariant
            i <= a@.len(),
            r@ =~= a@.take(i as int),
        decreases a@.len() - i,
    {
        r.push(a[i]);
        proof {
            assert(r@ =~= a@.take(i as int + 1));
        }
        i = i + 1;
    }
    proof {
        assert(a@.take(a@.len() as int) =~= a@);
    }
    r
}

/// Whether two out points name the same output.
pub fn out_point_eq(a: &OutPoint, b: &OutPoint) -> (r: bool)
    ensures
        r == (a.deep_view() == b.deep_view()),
{
    proof {
        assert(a.txid@ == a.txid.deep_view());
        assert(b.txid@ == b.txid.deep_view());
    }
    bytes_eq(&a.txid, &b.txid) && a.out_idx == b.out_idx
}

/// One atomic transaction over the mint module's key space: the spent-nonce
/// set, the issuance outcomes, the audit entries, the user backups, and the
/// metric observations scheduled for after the commit.  Every write happens
/// here and takes effect together or not at all.
pub struct DbTransaction {
    nonces: Vec<Vec<u8>>,
    outcomes: Vec<(OutPoint, Vec<u8>)>,
    audit_items: Vec<(MintAuditItemKey, u64)>,
    backups: Vec<(Vec<u8>, EcashBackupSnapshot)>,
    metric_events: Vec<MetricEvent>,
}

impl DbTransaction {
    /// The spent nonces, in insertion order.
    pub closed spec fn nonces_seq(&self) -> Seq<Vec<u8>> {
        self.nonces@
    }

    /// The issuance outcomes, in insertion order.
    pub closed spec fn outcomes_seq(&self) -> Seq<(OutPoint, Vec<u8>)> {
        self.outcomes@
    }

    /// The audit entries, in insertion order.
    pub closed spec fn audit_seq(&self) -> Seq<(MintAuditItemKey, u64)> {
        self.audit_items@
    }

    /// The backups, in insertion order.
    pub closed spec fn backups_seq(&self) -> Seq<(Vec<u8>, EcashBackupSnapshot)> {
        self.backups@
    }

    /// The metric observations scheduled so far.
    pub closed spec fn metrics_seq(&self) -> Seq<MetricEvent> {
        self.metric_events@
    }

    /// The set of spent nonces.
    pub open spec fn nonce_set(&self) -> Set<Seq<u8>> {
        dv_set(self.nonces_seq())
    }

    /// The outcome of each issuance, by out point.
    pub open spec fn outcomes_map(&self) -> Map<(Seq<u8>, u32), Seq<u8>> {
        dv_map(self.outcomes_seq())
    }

    /// The audit table.
    pub open spec fn audit_map(&self) -> Map<AuditKeyView, u64> {
        dv_map(self.audit_seq())
    }

    /// The backup of each user, by backup id.
    pub open spec fn backups_map(&self) -> Map<Seq<u8>, (u64, Seq<u8>)> {
        dv_map(self.backups_seq())
    }

    pub open spec fn wf(&self) -> bool {
        &&& dv_distinct(self.nonces_seq())
        &&& dv_distinct_keys(self.outcomes_seq())
        &&& dv_distinct_keys(self.audit_seq())
        &&& dv_distinct_keys(self.backups_seq())
        &&& forall|i: int|
            0 <= i < self.audit_seq().len() ==> match (#[trigger] self.audit_seq()[i]).0 {
                MintAuditItemKey::Redemption(nonce) => self.nonce_set().contains(nonce@),
                MintAuditItemKey::Issuance(op) => self.outcomes_map().contains_key(op.deep_view()),
                _ => true,
            }
    }

    pub fn new() -> (r: Self)
        ensures
            r.wf(),
            r.nonces_seq() =~= Seq::<Vec<u8>>::empty(),
            r.outcomes_seq() =~= Seq::<(OutPoint, Vec<u8>)>::empty(),
            r.audit_seq() =~= Seq::<(MintAuditItemKey, u64)>::empty(),
            r.backups_seq() =~= Seq::<(Vec<u8>, EcashBackupSnapshot)>::empty(),
            r.metrics_seq() =~= Seq::<MetricEvent>::empty(),
    {
        DbTransaction {
            nonces: Vec::new(),
            outcomes: Vec::new(),
            audit_items: Vec::new(),
            backups: Vec::new(),
            metric_events: Vec::new(),
        }
    }

    /// Mark a nonce spent; reports whether it already was.  A nonce, once
    /// in the set, never leaves it.
    pub fn insert_nonce(&mut self, nonce: Vec<u8>) -> (was_spent: bool)
        requires
            old(self).wf(),
        ensures
            final(self).wf(),
            was_spent == old(self).nonce_set().contains(nonce@),
            final(self).nonce_set() == old(self).nonce_set().insert(nonce@),
            !was_spent ==> final(self).nonces_seq() == old(self).nonces_seq().push(nonce),
            was_spent ==> final(self).nonces_seq() == old(self).nonces_seq(),
            final(self).outcomes_seq() == old(self).outcomes_seq(),
            final(self).audit_seq() == old(self).audit_seq(),
            final(self).backups_seq() == old(self).backups_seq(),
            final(self).metrics_seq() == old(self).metrics_seq(),
    {
        proof {
            lemma_dv_set_contains(self.nonces_seq(), nonce@);
            assert(nonce.deep_view() == nonce@);
        }
        let mut i: usize = 0;
        while i < self.nonces.len()
            invariant
                old(self).wf(),
                self == old(self),
                i <= self.nonces_seq().len(),
                forall|j: int| 0 <= j < i ==> (#[trigger] self.nonces_seq()[j]).deep_view() != nonce@,
                nonce.deep_view() == nonce@,
            decreases self.nonces_seq().len() - i,
        {
            if bytes_eq(&self.nonces[i], &nonce) {
                proof {
                    lemma_dv_set_contains(self.nonces_seq(), nonce@);
                    lemma_bytes_deep_view(self.nonces_seq()[i as int]);
                    assert((self.nonces_seq()[i as int]).deep_view() == nonce@);
                    assert(old(self).nonce_set().insert(nonce@) =~= old(self).nonce_set());
                }
                return true;
            }
            proof {
                lemma_bytes_deep_view(self.nonces_seq()[i as int]);
            }
            i = i + 1;
        }
        self.nonces.push(nonce);
        proof {
            let so = old(self).nonces_seq();
            let sn = self.nonces_seq();
            assert(sn.drop_last() =~= so);
            lemma_dv_set_contains(so, nonce@);
            assert(!old(self).nonce_set().contains(nonce@));
            assert forall|a: int, b: int|
                0 <= a < b < sn.len() implies (#[trigger] sn[a]).deep_view() != (
            #[trigger] sn[b]).deep_view() by {
                if b == sn.len() - 1 {
                    assert((so[a]).deep_view() != nonce@);
                }
            }
            assert forall|i2: int|
                0 <= i2 < self.audit_seq().len() implies match (#[trigger] self.audit_seq()[i2]).0 {
                MintAuditItemKey::Redemption(n) => self.nonce_set().contains(n@),
                MintAuditItemKey::Issuance(op) => self.outcomes_map().contains_key(op.deep_view()),
                _ => true,
            } by {
                match self.audit_seq()[i2].0 {
                    MintAuditItemKey::Redemption(n) => {
                        assert(old(self).nonce_set().contains(n@));
                    },
                    _ => {},
                }
            }
        }
        false
    }

    /// The blind-signature share recorded for this out point, if any.
    pub fn get_outcome(&self, out_point: &OutPoint) -> (r: Option<&Vec<u8>>)
        requires
            self.wf(),
        ensures
            match r {
                Some(v) => self.outcomes_map().contains_key(out_point.deep_view()) && v@
                    == self.outcomes_map()[out_point.deep_view()],
                None => !self.outcomes_map().contains_key(out_point.deep_view()),
            },
    {
        proof {
            lemma_dv_map_domain(self.outcomes_seq(), out_point.deep_view());
        }
        let mut i: usize = 0;
        while i < self.outcomes.len()
            invariant
                self.wf(),
                i <= self.outcomes_seq().len(),
                forall|j: int|
                    0 <= j < i ==> (#[trigger] self.outcomes_seq()[j]).0.deep_view()
                        != out_point.deep_view(),
            decreases self.outcomes_seq().len() - i,
        {
            if out_point_eq(&self.outcomes[i].0, out_point) {
                proof {
                    lemma_dv_map_index(self.outcomes_seq(), i as int);
                    lemma_dv_map_domain(self.outcomes_seq(), out_point.deep_view());
                    assert((self.outcomes_seq()[i as int]).1.deep_view() == (
                    self.outcomes_seq()[i as int]).1@);
                }
                return Some(&self.outcomes[i].1);
            }
            i = i + 1;
        }
        proof {
            lemma_dv_map_domain(self.outcomes_seq(), out_point.deep_view());
        }
        None
    }

    /// Record the outcome of a fresh issuance.
    pub fn insert_new_outcome(&mut self, out_point: OutPoint, share: Vec<u8>)
        requires
            old(self).wf(),
            !old(self).outcomes_map().contains_key(out_point.deep_view()),
        ensures
            final(self).wf(),
            final(self).outcomes_seq() == old(self).outcomes_seq().push((out_point, share)),
            final(self).outcomes_map() == old(self).outcomes_map().insert(
                out_point.deep_view(),
                share@,
            ),
            final(self).nonces_seq() == old(self).nonces_seq(),
            final(self).audit_seq() == old(self).audit_seq(),
            final(self).backups_seq() == old(self).backups_seq(),
            final(self).metrics_seq() == old(self).metrics_seq(),
    {
        proof {
            lemma_dv_map_domain(self.outcomes_seq(), out_point.deep_view());
        }
        self.outcomes.push((out_point, share));
        proof {
            let so = old(self).outcomes_seq();
            let sn = self.outcomes_seq();
            assert(sn.drop_last() =~= so);
            assert(sn.last().1.deep_view() == sn.last().1@);
            assert forall|a: int, b: int|
                0 <= a < b < sn.len() implies (#[trigger] sn[a]).0.deep_view() != (
            #[trigger] sn[b]).0.deep_view() by {
                if b == sn.len() - 1 {
                    assert((so[a]).0.deep_view() != sn.last().0.deep_view());
                }
            }
            assert forall|i2: int|
                0 <= i2 < self.audit_seq().len() implies match (#[trigger] self.audit_seq()[i2]).0 {
                MintAuditItemKey::Redemption(n) => self.nonce_set().contains(n@),
                MintAuditItemKey::Issuance(op) => self.outcomes_map().contains_key(op.deep_view()),
                _ => true,
            } by {
                match self.audit_seq()[i2].0 {
                    MintAuditItemKey::Issuance(op) => {
                        assert(old(self).outcomes_map().contains_key(op.deep_view()));
                    },
                    _ => {},
                }
            }
        }
    }

    /// Record a fresh audit entry.  A redemption entry needs its nonce
    /// spent, an issuance entry its outcome recorded, so that the audit
    /// table never names unknown work.
    pub fn insert_audit_item(&mut self, key: MintAuditItemKey, amount_msats: u64)
        requires
            old(self).wf(),
            !old(self).audit_map().contains_key(key.deep_view()),
            key matches MintAuditItemKey::Redemption(n) ==> old(self).nonce_set().contains(n@),
            key matches MintAuditItemKey::Issuance(op) ==> old(self).outcomes_map().contains_key(
                op.deep_view(),
            ),
        ensures
            final(self).wf(),
            final(self).audit_seq() == old(self).audit_seq().push((key, amount_msats)),
            final(self).audit_map() == old(self).audit_map().insert(key.deep_view(), amount_msats),
            final(self).nonces_seq() == old(self).nonces_seq(),
            final(self).outcomes_seq() == old(self).outcomes_seq(),
            final(self).backups_seq() == old(self).backups_seq(),
            final(self).metrics_seq() == old(self).metrics_seq(),
    {
        proof {
            lemma_dv_map_domain(self.audit_seq(), key.deep_view());
        }
        self.audit_items.push((key, amount_msats));
        proof {
            let so = old(self).audit_seq();
            let sn = self.audit_seq();
            assert(sn.drop_last() =~= so);
            assert(sn.last().1.deep_view() == amount_msats);
            assert forall|a: int, b: int|
                0 <= a < b < sn.len() implies (#[trigger] sn[a]).0.deep_view() != (
            #[trigger] sn[b]).0.deep_view() by {
                if b == sn.len() - 1 {
                    assert((so[a]).0.deep_view() != sn.last().0.deep_view());
                }
            }
        }
    }

    /// Hand out every audit entry and leave the table empty: the scan side
    /// of the roll-up.
    pub fn take_audit_items(&mut self) -> (r: Vec<(MintAuditItemKey, u64)>)
        requires
            old(self).wf(),
        ensures
            final(self).wf(),
            r@ == old(self).audit_seq(),
            final(self).audit_seq() =~= Seq::<(MintAuditItemKey, u64)>::empty(),
            final(self).nonces_seq() == old(self).nonces_seq(),
            final(self).outcomes_seq() == old(self).outcomes_seq(),
            final(self).backups_seq() == old(self).backups_seq(),
            final(self).metrics_seq() == old(self).metrics_seq(),
    {
        let mut taken: Vec<(MintAuditItemKey, u64)> = Vec::new();
        core::mem::swap(&mut self.audit_items, &mut taken);
        taken
    }

    /// The stored backup for this id, if any.
    pub fn get_backup(&self, id: &Vec<u8>) -> (r: Option<&EcashBackupSnapshot>)
        requires
            self.wf(),
        ensures
            match r {
                Some(v) => self.backups_map().contains_key(id@) && v.deep_view()
                    == self.backups_map()[id@],
                None => !self.backups_map().contains_key(id@),
            },
    {
        proof {
            lemma_dv_map_domain(self.backups_seq(), id@);
            assert(id.deep_view() == id@);
        }
        let mut i: usize = 0;
        while i < self.backups.len()
            invariant
                self.wf(),
                i <= self.backups_seq().len(),
                forall|j: int| 0 <= j < i ==> (#[trigger] self.backups_seq()[j]).0.deep_view() != id@,
            decreases self.backups_seq().len() - i,
        {
            if bytes_eq(&self.backups[i].0, &id) {
                proof {
                    lemma_bytes_deep_view(self.backups_seq()[i as int].0);
                    assert((self.backups_seq()[i as int]).0.deep_view() == id@);
                    lemma_dv_map_index(self.backups_seq(), i as int);
                    lemma_dv_map_domain(self.backups_seq(), id@);
                }
                return Some(&self.backups[i].1);
            }
            proof {
                lemma_bytes_deep_view(self.backups_seq()[i as int].0);
            }
            i = i + 1;
        }
        proof {
            lemma_dv_map_domain(self.backups_seq(), id@);
        }
        None
    }

    /// Store or overwrite the backup for this id.
    pub fn put_backup(&mut self, id: Vec<u8>, snapshot: EcashBackupSnapshot)
        requires
            old(self).wf(),
        ensures
            final(self).wf(),
            final(self).backups_map() == old(self).backups_map().insert(
                id@,
                snapshot.deep_view(),
            ),
            final(self).nonces_seq() == old(self).nonces_seq(),
            final(self).outcomes_seq() == old(self).outcomes_seq(),
            final(self).audit_seq() == old(self).audit_seq(),
            final(self).metrics_seq() == old(self).metrics_seq(),
    {
        proof {
            lemma_dv_map_domain(self.backups_seq(), id@);
            assert(id.deep_view() == id@);
        }
        let mut i: usize = 0;
        while i < self.backups.len()
            invariant
                old(self).wf(),
                self == old(self),
                i <= self.backups_seq().len(),
                forall|j: int| 0 <= j < i ==> (#[trigger] self.backups_seq()[j]).0.deep_view() != id@,
                id.deep_view() == id@,
            decreases self.backups_seq().len() - i,
        {
            if bytes_eq(&self.backups[i].0, &id) {
                proof {
                    lemma_bytes_deep_view(self.backups_seq()[i as int].0);
                }
                self.backups[i] = (id, snapshot);
                proof {
                    lemma_bytes_deep_view(old(self).backups_seq()[i as int].0);
                    let so = old(self).backups_seq();
                    let sn = self.backups_seq();
                    assert(sn =~= so.update(i as int, (id, snapshot)));
                    assert forall|a: int, b: int|
                        0 <= a < b < sn.len() implies (#[trigger] sn[a]).0.deep_view() != (
                    #[trigger] sn[b]).0.deep_view() by {
                        assert((so[a]).0.deep_view() != (so[b]).0.deep_view());
                        assert((so[i as int]).0.deep_view() == id@);
                    }
                    lemma_dv_update_at(so, i as int, (id, snapshot));
                }
                return ;
            }
            proof {
                lemma_bytes_deep_view(self.backups_seq()[i as int].0);
            }
            i = i + 1;
        }
        self.backups.push((id, snapshot));
        proof {
            let so = old(self).backups_seq();
            let sn = self.backups_seq();
            assert(sn.drop_last() =~= so);
            assert forall|a: int, b: int|
                0 <= a < b < sn.len() implies (#[trigger] sn[a]).0.deep_view() != (
            #[trigger] sn[b]).0.deep_view() by {
                if b == sn.len() - 1 {
                    assert((so[a]).0.deep_view() != id@);
                }
            }
        }
    }

    /// Schedule one metric observation for after the commit.
    pub fn push_metric(&mut self, event: MetricEvent)
        requires
            old(self).wf(),
        ensures
            final(self).wf(),
            final(self).metrics_seq() == old(self).metrics_seq().push(event),
            final(self).nonces_seq() == old(self).nonces_seq(),
            final(self).outcomes_seq() == old(self).outcomes_seq(),
            final(self).audit_seq() == old(self).audit_seq(),
            final(self).backups_seq() == old(self).backups_seq(),
    {
        self.metric_events.push(event);
    }

    /// The scheduled metric observations, for the post-commit hook.
    pub fn metric_events(&self) -> (r: &Vec<MetricEvent>)
        ensures
            r@ == self.metrics_seq(),
    {
        &self.metric_events
    }
}

proof fn lemma_dv_update_at(
    s: Seq<(Vec<u8>, EcashBackupSnapshot)>,
    i: int,
    e: (Vec<u8>, EcashBackupSnapshot),
)
    requires
        dv_distinct_keys(s),
        0 <= i < s.len(),
        (s[i]).0.deep_view() == e.0.deep_view(),
    ensures
        dv_map(s.update(i, e)) == dv_map(s).insert(e.0.deep_view(), e.1.deep_view()),
{
    let sn = s.update(i, e);
    assert(dv_distinct_keys(sn)) by {
        assert forall|a: int, b: int|
            0 <= a < b < sn.len() implies (#[trigger] sn[a]).0.deep_view() != (
        #[trigger] sn[b]).0.deep_view() by {
            assert((s[a]).0.deep_view() != (s[b]).0.deep_view());
        }
    }
    assert(dv_map(sn) =~= dv_map(s).insert(e.0.deep_view(), e.1.deep_view())) by {
        assert forall|k: Seq<u8>| #[trigger]
            dv_map(sn).contains_key(k) == dv_map(s).insert(
                e.0.deep_view(),
                e.1.deep_view(),
            ).contains_key(k) by {
            lemma_dv_map_domain(sn, k);
            lemma_dv_map_domain(s, k);
            if dv_map(sn).contains_key(k) {
                let j = choose|j: int| 0 <= j < sn.len() && (#[trigger] sn[j]).0.deep_view() == k;
                assert((s[j]).0.deep_view() == k);
            }
            if dv_map(s).contains_key(k) {
                let j = choose|j: int| 0 <= j < s.len() && (#[trigger] s[j]).0.deep_view() == k;
                assert((sn[j]).0.deep_view() == k);
            }
            if k == e.0.deep_view() {
                assert((sn[i]).0.deep_view() == k);
            }
        }
        assert forall|k: Seq<u8>|
            dv_map(sn).contains_key(k) implies #[trigger] dv_map(sn)[k] == dv_map(s).insert(
            e.0.deep_view(),
            e.1.deep_view(),
        )[k] by {
            lemma_dv_map_domain(sn, k);
            let j = choose|j: int| 0 <= j < sn.len() && (#[trigger] sn[j]).0.deep_view() == k;
            lemma_dv_map_index(sn, j);
            if k == e.0.deep_view() {
                assert(j == i) by {
                    if j != i {
                        assert((sn[j]).0.deep_view() != (sn[i]).0.deep_view());
                    }
                }
            } else {
                assert(sn[j] == s[j]);
                lemma_dv_map_index(s, j);
            }
        }
    }
}

} // verus!
