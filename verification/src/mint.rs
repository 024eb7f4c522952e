use vstd::prelude::*;

use crate::amount::Amount;
use crate::crypto::{
    backup_sig_valid, blind_share_of, note_sig_valid, sign_blinded_nonce,
    verify_backup_signature, verify_note_signature,
};
use crate::db::{
    bytes_dup, issuance_sum, redemption_sum, DbTransaction, EcashBackupSnapshot, MetricEvent,
    MetricKind, MintAuditItemKey, OutPoint,
};

verus! {

/// Whether a tier table lists this denomination.
pub open spec fn thas_key<V>(s: Seq<(u64, V)>, t: u64) -> bool {
    exists|i: int| 0 <= i < s.len() && (#[trigger] s[i]).0 == t
}

/// The position of this denomination in a tier table.
pub open spec fn tkey_index<V>(s: Seq<(u64, V)>, t: u64) -> int {
    choose|i: int| 0 <= i < s.len() && (#[trigger] s[i]).0 == t
}

/// Denominations of a tier table are pairwise distinct.
pub open spec fn tdistinct<V>(s: Seq<(u64, V)>) -> bool {
    forall|i: int, j: int| 0 <= i < j < s.len() ==> (#[trigger] s[i]).0 != (#[trigger] s[j]).0
}

/// The key bytes this tier table lists for a denomination.
pub open spec fn tier_bytes(s: Seq<(u64, Vec<u8>)>, t: u64) -> Seq<u8> {
    s[tkey_index(s, t)].1@
}

/// Look a denomination up in a tier table.
pub fn tier_get<'a>(entries: &'a Vec<(u64, Vec<u8>)>, tier: u64) -> (r: Option<&'a Vec<u8>>)
    requires
        tdistinct(entries@),
    ensures
        match r {
            Some(v) => thas_key(entries@, tier) && v@ == tier_bytes(entries@, tier),
            None => !thas_key(entries@, tier),
        },
{
    let mut i: usize = 0;
    while i < entries.len()
        invariant
            tdistinct(entries@),
            i <= entries@.len(),
            forall|j: int| 0 <= j < i ==> (#[trigger] entries@[j]).0 != tier,
        decreases entries@.len() - i,
    {
        if entries[i].0 == tier {
            proof {
                assert(thas_key(entries@, tier)) by {
                    assert(entries@[i as int].0 == tier);
                }
                let k = tkey_index(entries@, tier);
                assert(0 <= k < entries@.len() && entries@[k].0 == tier);
                if k != i as int {
                    assert(entries@[i as int].0 != entries@[k].0);
                }
            }
            return Some(&entries[i].1);
        }
        i = i + 1;
    }
    None
}

/// A bearer e-cash note: its unique nonce and the federation's blind
/// signature on it, both as bytes.
#[derive(Clone, Debug)]
pub struct Note {
    pub nonce: Vec<u8>,
    pub signature: Vec<u8>,
}

/// A spend input: the denomination claimed and the note that covers it.
#[derive(Clone, Debug)]
pub struct MintInput {
    pub amount: Amount,
    pub note: Note,
}

/// An issuance output: the denomination asked for and the blinded nonce to
/// sign.
#[derive(Clone, Debug)]
pub struct MintOutput {
    pub amount: Amount,
    pub blind_nonce: Vec<u8>,
}

/// Value and fee of one accepted transaction item.
#[derive(Clone, Copy, Debug, PartialEq, Eq, Structural)]
pub struct TransactionItemAmount {
    pub amount: Amount,
    pub fee: Amount,
}

/// What an accepted spend input is worth, and the key allowed to spend it:
/// a note's spend key is its nonce.
#[derive(Clone, Debug)]
pub struct InputMeta {
    pub amount: TransactionItemAmount,
    pub pub_key: Vec<u8>,
}

/// Why a spend input was rejected.
#[derive(Clone, Copy, Debug, PartialEq, Eq, Structural)]
pub enum MintInputError {
    /// The mint has no key for this denomination.
    InvalidAmountTier(Amount),
    /// The note's signature does not verify.
    InvalidSignature,
    /// The note's nonce is already in the spent set.
    SpentCoin,
}

/// Why an issuance output was rejected.
#[derive(Clone, Copy, Debug, PartialEq, Eq, Structural)]
pub enum MintOutputError {
    /// The mint has no key for this denomination.
    InvalidAmountTier(Amount),
}

/// The absolute fees charged on spends and issuances.
#[derive(Clone, Copy, Debug, PartialEq, Eq, Structural)]
pub struct FeeConsensus {
    pub note_issuance_abs: Amount,
    pub note_spend_abs: Amount,
}

/// A placeholder consensus item: the mint is driven purely by transaction
/// inputs and outputs, so none is ever proposed or accepted.
#[derive(Clone, Copy, Debug, PartialEq, Eq, Structural)]
pub struct MintConsensusItem;

/// The per-tier balance sheet handed to the audit collector: issued value
/// counts negative, redeemed value positive, in millisatoshis.
pub struct Audit {
    pub balances: Vec<i64>,
}

impl Audit {
    pub closed spec fn balances_seq(&self) -> Seq<i64> {
        self.balances@
    }

    pub fn new() -> (r: Self)
        ensures
            r.balances_seq() =~= Seq::<i64>::empty(),
    {
        Audit { balances: Vec::new() }
    }

    /// Record one balance.
    pub fn add_balance(&mut self, balance: i64)
        ensures
            final(self).balances_seq() == old(self).balances_seq().push(balance),
    {
        self.balances.push(balance);
    }
}

/// One federation member's mint: its per-tier secret key shares and the
/// per-tier aggregate public keys of the whole federation.
pub struct Mint {
    fee_consensus: FeeConsensus,
    sec_key: Vec<(u64, Vec<u8>)>,
    pub_key: Vec<(u64, Vec<u8>)>,
}

impl Mint {
    /// The fees this mint charges.
    pub closed spec fn fee_spec(&self) -> FeeConsensus {
        self.fee_consensus
    }

    /// The secret share held for each denomination.
    pub closed spec fn sec_key_seq(&self) -> Seq<(u64, Vec<u8>)> {
        self.sec_key@
    }

    /// The aggregate public key for each denomination.
    pub closed spec fn pub_key_seq(&self) -> Seq<(u64, Vec<u8>)> {
        self.pub_key@
    }

    pub open spec fn wf(&self) -> bool {
        &&& tdistinct(self.sec_key_seq())
        &&& tdistinct(self.pub_key_seq())
    }

    /// Wire a mint up from bare key material: the per-tier fees, secret
    /// shares, and aggregate public keys.
    pub fn from_parts(
        fee_consensus: FeeConsensus,
        sec_key: Vec<(u64, Vec<u8>)>,
        pub_key: Vec<(u64, Vec<u8>)>,
    ) -> (r: Mint)
        requires
            tdistinct(sec_key@),
            tdistinct(pub_key@),
        ensures
            r.wf(),
            r.fee_spec() == fee_consensus,
            r.sec_key_seq() == sec_key@,
            r.pub_key_seq() == pub_key@,
    {
        Mint { fee_consensus, sec_key, pub_key }
    }

    /// The aggregate public key of each denomination tier.
    pub fn pub_key(&self) -> (r: &Vec<(u64, Vec<u8>)>)
        ensures
            r@ == self.pub_key_seq(),
    {
        &self.pub_key
    }

    /// The mint proposes no consensus items of its own.
    pub fn consensus_proposal(&self, dbtx: &DbTransaction) -> (r: Vec<MintConsensusItem>)
        ensures
            r@.len() == 0,
    {
        Vec::new()
    }

    /// The mint rejects every consensus item: it is driven purely by the
    /// transaction inputs and outputs the surrounding engine routes to it.
    pub fn process_consensus_item(
        &self,
        dbtx: &mut DbTransaction,
        item: MintConsensusItem,
        peer: crate::peers::PeerId,
    ) -> (r: Result<(), MintConsensusItem>)
        ensures
            r is Err,
            *final(dbtx) == *old(dbtx),
    {
        Err(item)
    }

    /// Redeem a note: check the tier, verify the signature, consume the
    /// nonce, record the redemption for the audit, and schedule the metric
    /// observation; all within the one transaction, so a conflicting spend
    /// of the same nonce cannot slip in between.
    pub fn process_input(&self, dbtx: &mut DbTransaction, input: &MintInput) -> (r: Result<
        InputMeta,
        MintInputError,
    >)
        requires
            self.wf(),
            old(dbtx).wf(),
        ensures
            final(dbtx).wf(),
            match r {
                Ok(meta) => {
                    &&& thas_key(self.pub_key_seq(), input.amount.msats)
                    &&& note_sig_valid(
                        tier_bytes(self.pub_key_seq(), input.amount.msats),
                        input.note.nonce@,
                        input.note.signature@,
                    )
                    &&& !old(dbtx).nonce_set().contains(input.note.nonce@)
                    &&& final(dbtx).nonce_set() == old(dbtx).nonce_set().insert(
                        input.note.nonce@,
                    )
                    &&& final(dbtx).audit_seq().len() == old(dbtx).audit_seq().len() + 1
                    &&& final(dbtx).audit_seq().drop_last() == old(dbtx).audit_seq()
                    &&& final(dbtx).audit_seq().last().0 matches MintAuditItemKey::Redemption(n)
                        && n@ == input.note.nonce@
                    &&& final(dbtx).audit_seq().last().1 == input.amount.msats
                    &&& final(dbtx).metrics_seq() == old(dbtx).metrics_seq().push(
                        MetricEvent {
                            kind: MetricKind::RedeemedEcash,
                            amount: input.amount,
                            fee: self.fee_spec().note_spend_abs,
                        },
                    )
                    &&& final(dbtx).outcomes_seq() == old(dbtx).outcomes_seq()
                    &&& final(dbtx).backups_seq() == old(dbtx).backups_seq()
                    &&& meta.amount.amount == input.amount
                    &&& meta.amount.fee == self.fee_spec().note_spend_abs
                    &&& meta.pub_key@ == input.note.nonce@
                },
                Err(MintInputError::InvalidAmountTier(a)) => {
                    &&& a == input.amount
                    &&& !thas_key(self.pub_key_seq(), input.amount.msats)
                    &&& *final(dbtx) == *old(dbtx)
                },
                Err(MintInputError::InvalidSignature) => {
                    &&& thas_key(self.pub_key_seq(), input.amount.msats)
                    &&& !note_sig_valid(
                        tier_bytes(self.pub_key_seq(), input.amount.msats),
                        input.note.nonce@,
                        input.note.signature@,
                    )
                    &&& *final(dbtx) == *old(dbtx)
                },
                Err(MintInputError::SpentCoin) => {
                    &&& thas_key(self.pub_key_seq(), input.amount.msats)
                    &&& note_sig_valid(
                        tier_bytes(self.pub_key_seq(), input.amount.msats),
                        input.note.nonce@,
                        input.note.signature@,
                    )
                    &&& old(dbtx).nonce_set().contains(input.note.nonce@)
                    &&& final(dbtx).nonce_set() == old(dbtx).nonce_set()
                    &&& final(dbtx).nonces_seq() == old(dbtx).nonces_seq()
                    &&& final(dbtx).audit_seq() == old(dbtx).audit_seq()
                    &&& final(dbtx).outcomes_seq() == old(dbtx).outcomes_seq()
                    &&& final(dbtx).backups_seq() == old(dbtx).backups_seq()
                    &&& final(dbtx).metrics_seq() == old(dbtx).metrics_seq()
                },
            },
    {
        let amount_key = match tier_get(&self.pub_key, input.amount.msats) {
            Some(k) => k,
            None => {
                return Err(MintInputError::InvalidAmountTier(input.amount));
            },
        };
        if !verify_note_signature(amount_key, &input.note.nonce, &input.note.signature) {
            return Err(MintInputError::InvalidSignature);
        }
        let nonce = bytes_dup(&input.note.nonce);
        proof {
            assert(nonce@ == input.note.nonce@);
        }
        if dbtx.insert_nonce(nonce) {
            return Err(MintInputError::SpentCoin);
        }
        let audit_nonce = bytes_dup(&input.note.nonce);
        proof {
            let key = MintAuditItemKey::Redemption(audit_nonce);
            crate::db::lemma_bytes_deep_view(audit_nonce);
            assert(key.deep_view() == crate::db::AuditKeyView::Redemption(input.note.nonce@));
            crate::collections::lemma_dv_map_domain(dbtx.audit_seq(), key.deep_view());
            assert forall|i: int|
                0 <= i < dbtx.audit_seq().len() implies (
            #[trigger] dbtx.audit_seq()[i]).0.deep_view() != key.deep_view() by {
                match dbtx.audit_seq()[i].0 {
                    MintAuditItemKey::Redemption(n) => {
                        assert(old(dbtx).nonce_set().contains(n@));
                        crate::db::lemma_bytes_deep_view(n);
                    },
                    _ => {},
                }
            }
        }
        dbtx.insert_audit_item(
            MintAuditItemKey::Redemption(audit_nonce),
            input.amount.msats,
        );
        dbtx.push_metric(
            MetricEvent {
                kind: MetricKind::RedeemedEcash,
                amount: input.amount,
                fee: self.fee_consensus.note_spend_abs,
            },
        );
        Ok(
            InputMeta {
                amount: TransactionItemAmount {
                    amount: input.amount,
                    fee: self.fee_consensus.note_spend_abs,
                },
                pub_key: bytes_dup(&input.note.nonce),
            },
        )
    }
}

/// Schedule the post-commit metric observation for one issuance.
pub fn calculate_mint_issued_ecash_metrics(dbtx: &mut DbTransaction, amount: Amount, fee: Amount)
    requires
        old(dbtx).wf(),
    ensures
        final(dbtx).wf(),
        final(dbtx).metrics_seq() == old(dbtx).metrics_seq().push(
            MetricEvent { kind: MetricKind::IssuedEcash, amount, fee },
        ),
        final(dbtx).nonces_seq() == old(dbtx).nonces_seq(),
        final(dbtx).outcomes_seq() == old(dbtx).outcomes_seq(),
        final(dbtx).audit_seq() == old(dbtx).audit_seq(),
        final(dbtx).backups_seq() == old(dbtx).backups_seq(),
{
    dbtx.push_metric(MetricEvent { kind: MetricKind::IssuedEcash, amount, fee });
}

/// Schedule the post-commit metric observation for one redemption.
pub fn calculate_mint_redeemed_ecash_metrics(dbtx: &mut DbTransaction, amount: Amount, fee: Amount)
    requires
        old(dbtx).wf(),
    ensures
        final(dbtx).wf(),
        final(dbtx).metrics_seq() == old(dbtx).metrics_seq().push(
            MetricEvent { kind: MetricKind::RedeemedEcash, amount, fee },
        ),
        final(dbtx).nonces_seq() == old(dbtx).nonces_seq(),
        final(dbtx).outcomes_seq() == old(dbtx).outcomes_seq(),
        final(dbtx).audit_seq() == old(dbtx).audit_seq(),
        final(dbtx).backups_seq() == old(dbtx).backups_seq(),
{
    dbtx.push_metric(MetricEvent { kind: MetricKind::RedeemedEcash, amount, fee });
}

/// A user's signed request to store an e-cash backup.
#[derive(Clone, Debug)]
pub struct SignedBackupRequest {
    pub id: Vec<u8>,
    pub timestamp: u64,
    pub payload: Vec<u8>,
    pub signature: Vec<u8>,
}

/// Why a backup request was rejected.
#[derive(Clone, Copy, Debug, PartialEq, Eq, Structural)]
pub enum ApiRequestError {
    /// The request's signature does not verify.
    InvalidRequest,
    /// An existing snapshot is at least as recent.
    TimestampTooSmall,
}

impl ApiRequestError {
    /// The request-level message for this rejection.
    pub fn describe(&self) -> (r: String)
        ensures
            self is InvalidRequest ==> r@ == "invalid request"@,
            self is TimestampTooSmall ==> r@ == "timestamp too small"@,
    {
        let mut s = String::new();
        match self {
            ApiRequestError::InvalidRequest => {
                s.append("invalid request");
            },
            ApiRequestError::TimestampTooSmall => {
                s.append("timestamp too small");
            },
        }
        proof {
            assert(s@ =~= match self {
                ApiRequestError::InvalidRequest => "invalid request"@,
                ApiRequestError::TimestampTooSmall => "timestamp too small"@,
            });
        }
        s
    }
}

/// A total rendered as the audit collector's signed balance: the u64 bits
/// read as a two's-complement i64, which is how the report converts.
pub open spec fn spec_balance(msats: u64) -> int {
    if msats <= i64::MAX {
        msats as int
    } else {
        msats - 0x1_0000_0000_0000_0000
    }
}

/// The issued side of the report: the balance negated, wrapping at the
/// lower bound as the two's-complement negation does.
pub open spec fn spec_negated_balance(msats: u64) -> int {
    if spec_balance(msats) == i64::MIN {
        i64::MIN as int
    } else {
        0 - spec_balance(msats)
    }
}

/// Render a u64 total as the i64 balance the audit collector records,
/// reading the bits as two's complement.
fn to_signed_balance(msats: u64) -> (r: i64)
    ensures
        r as int == spec_balance(msats),
{
    if msats <= (i64::MAX as u64) {
        msats as i64
    } else {
        let below_top = u64::MAX - msats;
        0 - (below_top as i64) - 1
    }
}

proof fn lemma_issuance_sum_bounds(s: Seq<(MintAuditItemKey, u64)>, k: int)
    requires
        0 <= k <= s.len(),
    ensures
        0 <= issuance_sum(s.take(k)) <= issuance_sum(s),
        0 <= redemption_sum(s.take(k)) <= redemption_sum(s),
    decreases s.len() - k,
{
    if k == s.len() {
        assert(s.take(k) =~= s);
        lemma_sums_nonneg(s);
    } else {
        lemma_issuance_sum_bounds(s, k + 1);
        lemma_sums_nonneg(s.take(k));
        assert(s.take(k + 1).drop_last() =~= s.take(k));
        assert(s.take(k + 1).last() == s[k]);
    }
}

proof fn lemma_sums_nonneg(s: Seq<(MintAuditItemKey, u64)>)
    ensures
        issuance_sum(s) >= 0,
        redemption_sum(s) >= 0,
    decreases s.len(),
{
    if s.len() > 0 {
        lemma_sums_nonneg(s.drop_last());
    }
}

impl Mint {
    /// Sign an issuance: check the tier, produce this peer's blind
    /// signature share over the blinded nonce, record the outcome under the
    /// out point, record the issuance for the audit, and schedule the
    /// metric observation.  The out point must be fresh: each issuance
    /// outcome is written exactly once.
    pub fn process_output(
        &self,
        dbtx: &mut DbTransaction,
        output: &MintOutput,
        out_point: OutPoint,
    ) -> (r: Result<TransactionItemAmount, MintOutputError>)
        requires
            self.wf(),
            old(dbtx).wf(),
            !old(dbtx).outcomes_map().contains_key(out_point.deep_view()),
        ensures
            final(dbtx).wf(),
            match r {
                Ok(t) => {
                    &&& thas_key(self.sec_key_seq(), output.amount.msats)
                    &&& final(dbtx).outcomes_map() == old(dbtx).outcomes_map().insert(
                        out_point.deep_view(),
                        blind_share_of(
                            output.blind_nonce@,
                            tier_bytes(self.sec_key_seq(), output.amount.msats),
                        ),
                    )
                    &&& final(dbtx).outcomes_seq().len() == old(dbtx).outcomes_seq().len() + 1
                    &&& final(dbtx).outcomes_seq().drop_last() == old(dbtx).outcomes_seq()
                    &&& final(dbtx).audit_seq().len() == old(dbtx).audit_seq().len() + 1
                    &&& final(dbtx).audit_seq().drop_last() == old(dbtx).audit_seq()
                    &&& final(dbtx).audit_seq().last().0 matches MintAuditItemKey::Issuance(op)
                        && op.deep_view() == out_point.deep_view()
                    &&& final(dbtx).audit_seq().last().1 == output.amount.msats
                    &&& final(dbtx).metrics_seq() == old(dbtx).metrics_seq().push(
                        MetricEvent {
                            kind: MetricKind::IssuedEcash,
                            amount: output.amount,
                            fee: self.fee_spec().note_issuance_abs,
                        },
                    )
                    &&& final(dbtx).nonces_seq() == old(dbtx).nonces_seq()
                    &&& final(dbtx).backups_seq() == old(dbtx).backups_seq()
                    &&& t.amount == output.amount
                    &&& t.fee == self.fee_spec().note_issuance_abs
                },
                Err(MintOutputError::InvalidAmountTier(a)) => {
                    &&& a == output.amount
                    &&& !thas_key(self.sec_key_seq(), output.amount.msats)
                    &&& *final(dbtx) == *old(dbtx)
                },
            },
    {
        let amount_key = match tier_get(&self.sec_key, output.amount.msats) {
            Some(k) => k,
            None => {
                return Err(MintOutputError::InvalidAmountTier(output.amount));
            },
        };
        let share = sign_blinded_nonce(&output.blind_nonce, amount_key);
        let audit_out_point = OutPoint {
            txid: bytes_dup(&out_point.txid),
            out_idx: out_point.out_idx,
        };
        proof {
            assert(audit_out_point.deep_view() == out_point.deep_view());
        }
        dbtx.insert_new_outcome(out_point, share);
        proof {
            let key = MintAuditItemKey::Issuance(audit_out_point);
            crate::collections::lemma_dv_map_domain(dbtx.audit_seq(), key.deep_view());
            assert forall|i: int|
                0 <= i < dbtx.audit_seq().len() implies (
            #[trigger] dbtx.audit_seq()[i]).0.deep_view() != key.deep_view() by {
                match dbtx.audit_seq()[i].0 {
                    MintAuditItemKey::Issuance(op) => {
                        assert(old(dbtx).outcomes_map().contains_key(op.deep_view()));
                    },
                    _ => {},
                }
            }
        }
        dbtx.insert_audit_item(MintAuditItemKey::Issuance(audit_out_point), output.amount.msats);
        calculate_mint_issued_ecash_metrics(
            dbtx,
            output.amount,
            self.fee_consensus.note_issuance_abs,
        );
        Ok(
            TransactionItemAmount {
                amount: output.amount,
                fee: self.fee_consensus.note_issuance_abs,
            },
        )
    }

    /// The blind-signature share recorded for an out point, if any.
    pub fn output_status(&self, dbtx: &DbTransaction, out_point: &OutPoint) -> (r: Option<
        Vec<u8>,
    >)
        requires
            dbtx.wf(),
        ensures
            match r {
                Some(v) => dbtx.outcomes_map().contains_key(out_point.deep_view()) && v@
                    == dbtx.outcomes_map()[out_point.deep_view()],
                None => !dbtx.outcomes_map().contains_key(out_point.deep_view()),
            },
    {
        match dbtx.get_outcome(out_point) {
            Some(v) => Some(bytes_dup(v)),
            None => None,
        }
    }

    /// Roll the audit table up: sum the open issuance and redemption
    /// entries together with the previous totals, replace everything with
    /// the two new totals, and report the balance to the audit collector,
    /// issued value negative and redeemed value positive.  The rolled-up
    /// value is conserved exactly.
    pub fn audit(&self, dbtx: &mut DbTransaction, audit: &mut Audit)
        requires
            self.wf(),
            old(dbtx).wf(),
            issuance_sum(old(dbtx).audit_seq()) <= u64::MAX,
            redemption_sum(old(dbtx).audit_seq()) <= u64::MAX,
        ensures
            final(dbtx).wf(),
            issuance_sum(final(dbtx).audit_seq()) == issuance_sum(old(dbtx).audit_seq()),
            redemption_sum(final(dbtx).audit_seq()) == redemption_sum(old(dbtx).audit_seq()),
            final(dbtx).audit_seq().len() == 2,
            final(dbtx).audit_seq()[0].0 is IssuanceTotal,
            final(dbtx).audit_seq()[0].1 == issuance_sum(old(dbtx).audit_seq()),
            final(dbtx).audit_seq()[1].0 is RedemptionTotal,
            final(dbtx).audit_seq()[1].1 == redemption_sum(old(dbtx).audit_seq()),
            final(dbtx).nonces_seq() == old(dbtx).nonces_seq(),
            final(dbtx).outcomes_seq() == old(dbtx).outcomes_seq(),
            final(dbtx).backups_seq() == old(dbtx).backups_seq(),
            final(dbtx).metrics_seq() == old(dbtx).metrics_seq(),
            final(audit).balances_seq().len() == old(audit).balances_seq().len() + 2,
            final(audit).balances_seq().drop_last().drop_last() == old(audit).balances_seq(),
            final(audit).balances_seq()[final(audit).balances_seq().len() - 2] as int
                == spec_negated_balance(issuance_sum(old(dbtx).audit_seq()) as u64),
            final(audit).balances_seq()[final(audit).balances_seq().len() - 1] as int
                == spec_balance(redemption_sum(old(dbtx).audit_seq()) as u64),
    {
        let items = dbtx.take_audit_items();
        let ghost all = items@;
        let mut issuances: u64 = 0;
        let mut redemptions: u64 = 0;
        let mut k: usize = 0;
        proof {
            lemma_sums_nonneg(all);
        }
        while k < items.len()
            invariant
                items@ == all,
                k <= all.len(),
                issuance_sum(all) <= u64::MAX,
                redemption_sum(all) <= u64::MAX,
                issuances == issuance_sum(all.take(k as int)),
                redemptions == redemption_sum(all.take(k as int)),
            decreases all.len() - k,
        {
            proof {
                lemma_issuance_sum_bounds(all, k as int + 1);
                assert(all.take(k as int + 1).drop_last() =~= all.take(k as int));
                assert(all.take(k as int + 1).last() == all[k as int]);
            }
            match &items[k].0 {
                MintAuditItemKey::Issuance(_) => {
                    issuances = issuances + items[k].1;
                },
                MintAuditItemKey::IssuanceTotal => {
                    issuances = issuances + items[k].1;
                },
                MintAuditItemKey::Redemption(_) => {
                    redemptions = redemptions + items[k].1;
                },
                MintAuditItemKey::RedemptionTotal => {
                    redemptions = redemptions + items[k].1;
                },
            }
            k = k + 1;
        }
        proof {
            assert(all.take(all.len() as int) =~= all);
        }
        dbtx.insert_audit_item(MintAuditItemKey::IssuanceTotal, issuances);
        dbtx.insert_audit_item(MintAuditItemKey::RedemptionTotal, redemptions);
        let issued_balance = to_signed_balance(issuances);
        let negated = if issued_balance == i64::MIN {
            i64::MIN
        } else {
            0 - issued_balance
        };
        audit.add_balance(negated);
        audit.add_balance(to_signed_balance(redemptions));
        proof {
            let e = Seq::<(MintAuditItemKey, u64)>::empty();
            let a1 = e.push((MintAuditItemKey::IssuanceTotal, issuances));
            let s = dbtx.audit_seq();
            assert(s == a1.push((MintAuditItemKey::RedemptionTotal, redemptions)));
            assert(s.drop_last() =~= a1);
            assert(a1.drop_last() =~= e);
            assert(issuance_sum(e) == 0);
            assert(redemption_sum(e) == 0);
            assert(issuance_sum(a1) == issuances);
            assert(redemption_sum(a1) == 0);
            assert(issuance_sum(s) == issuances);
            assert(redemption_sum(s) == redemptions);
        }
    }

    /// Store a user's e-cash backup: verify the request signature, and
    /// overwrite any previous snapshot only where the new timestamp is
    /// strictly newer.
    pub fn handle_backup_request(
        &self,
        dbtx: &mut DbTransaction,
        request: SignedBackupRequest,
    ) -> (r: Result<(), ApiRequestError>)
        requires
            self.wf(),
            old(dbtx).wf(),
        ensures
            final(dbtx).wf(),
            final(dbtx).nonces_seq() == old(dbtx).nonces_seq(),
            final(dbtx).outcomes_seq() == old(dbtx).outcomes_seq(),
            final(dbtx).audit_seq() == old(dbtx).audit_seq(),
            final(dbtx).metrics_seq() == old(dbtx).metrics_seq(),
            match r {
                Ok(u) => {
                    &&& backup_sig_valid(
                        request.id@,
                        request.timestamp,
                        request.payload@,
                        request.signature@,
                    )
                    &&& old(dbtx).backups_map().contains_key(request.id@) ==> old(
                        dbtx,
                    ).backups_map()[request.id@].0 < request.timestamp
                    &&& final(dbtx).backups_map() == old(dbtx).backups_map().insert(
                        request.id@,
                        (request.timestamp, request.payload@),
                    )
                },
                Err(ApiRequestError::InvalidRequest) => {
                    &&& !backup_sig_valid(
                        request.id@,
                        request.timestamp,
                        request.payload@,
                        request.signature@,
                    )
                    &&& final(dbtx).backups_seq() == old(dbtx).backups_seq()
                },
                Err(ApiRequestError::TimestampTooSmall) => {
                    &&& backup_sig_valid(
                        request.id@,
                        request.timestamp,
                        request.payload@,
                        request.signature@,
                    )
                    &&& old(dbtx).backups_map().contains_key(request.id@)
                    &&& old(dbtx).backups_map()[request.id@].0 >= request.timestamp
                    &&& final(dbtx).backups_seq() == old(dbtx).backups_seq()
                },
            },
    {
        if !verify_backup_signature(
            &request.id,
            request.timestamp,
            &request.payload,
            &request.signature,
        ) {
            return Err(ApiRequestError::InvalidRequest);
        }
        let too_small = match dbtx.get_backup(&request.id) {
            Some(prev) => request.timestamp <= prev.timestamp,
            None => false,
        };
        if too_small {
            return Err(ApiRequestError::TimestampTooSmall);
        }
        let snapshot = EcashBackupSnapshot { timestamp: request.timestamp, data: request.payload };
        proof {
            crate::db::lemma_bytes_deep_view(snapshot.data);
            assert(snapshot.deep_view() == (request.timestamp, request.payload@));
        }
        dbtx.put_backup(request.id, snapshot);
        Ok(())
    }

    /// The stored backup for this id: a pure read.
    pub fn handle_recover_request(&self, dbtx: &DbTransaction, id: &Vec<u8>) -> (r: Option<
        EcashBackupSnapshot,
    >)
        requires
            dbtx.wf(),
        ensures
            match r {
                Some(s) => dbtx.backups_map().contains_key(id@) && s.deep_view()
                    == dbtx.backups_map()[id@],
                None => !dbtx.backups_map().contains_key(id@),
            },
    {
        match dbtx.get_backup(id) {
            Some(s) => Some(
                EcashBackupSnapshot { timestamp: s.timestamp, data: bytes_dup(&s.data) },
            ),
            None => None,
        }
    }
}

// The library's standing laws about the mint, stated over the same spec
// functions the contracts use.

/// Double-spend impossibility.  A successful redemption demands a nonce
/// outside the spent set and puts it in, and the spent set only ever
/// grows, so the same nonce can never satisfy `process_input`'s success
/// case again: the redeemed nonces form a set, each spent at most once.
pub proof fn lemma_double_spend_impossible(
    before_first: Set<Seq<u8>>,
    after_first: Set<Seq<u8>>,
    later: Set<Seq<u8>>,
    nonce: Seq<u8>,
)
    requires
        !before_first.contains(nonce),
        after_first == before_first.insert(nonce),
        after_first.subset_of(later),
    ensures
        later.contains(nonce),
{
    assert(after_first.contains(nonce));
}

/// Issuance share uniqueness.  `process_output` demands a fresh out point
/// and records its outcome, and outcomes are never overwritten, so the
/// outcome of any out point is written at most once: recording it again
/// can never satisfy `process_output`'s precondition.
pub proof fn lemma_issuance_written_once(
    before_first: Map<(Seq<u8>, u32), Seq<u8>>,
    after_first: Map<(Seq<u8>, u32), Seq<u8>>,
    later: Map<(Seq<u8>, u32), Seq<u8>>,
    out_point: (Seq<u8>, u32),
    share: Seq<u8>,
)
    requires
        !before_first.contains_key(out_point),
        after_first == before_first.insert(out_point, share),
        after_first.submap_of(later),
    ensures
        later.contains_key(out_point),
{
    assert(after_first.contains_key(out_point));
}

/// Audit conservation, step case.  Appending one audit entry moves the
/// issuance sum up by exactly the issued amount and never down, and
/// likewise for redemptions; together with `audit`'s postcondition, which
/// keeps both sums exactly across a roll-up, the running totals are
/// monotonic over any run of operations and roll-ups.
pub proof fn lemma_audit_sum_extend(s: Seq<(MintAuditItemKey, u64)>, key: MintAuditItemKey, amount: u64)
    ensures
        issuance_sum(s.push((key, amount))) == issuance_sum(s) + match key {
            MintAuditItemKey::Issuance(_) => amount as int,
            MintAuditItemKey::IssuanceTotal => amount as int,
            _ => 0,
        },
        redemption_sum(s.push((key, amount))) == redemption_sum(s) + match key {
            MintAuditItemKey::Redemption(_) => amount as int,
            MintAuditItemKey::RedemptionTotal => amount as int,
            _ => 0,
        },
        issuance_sum(s.push((key, amount))) >= issuance_sum(s),
        redemption_sum(s.push((key, amount))) >= redemption_sum(s),
{
    let t = s.push((key, amount));
    assert(t.drop_last() =~= s);
    assert(t.last() == (key, amount));
}

} // verus!
