use vstd::prelude::*;

use crate::crypto::{
    agg_pk_of, aggregate_pub_shares, derive_pub_share, eval_poly_at, poly_eval_at, pub_share_of,
    random_scalar_bytes,
};
use crate::db::{bytes_dup, bytes_eq};
use crate::mint::{tdistinct, thas_key, FeeConsensus, Mint};
use crate::peers::PeerId;
use crate::version::{MultiApiVersion, SupportedModuleApiVersions};

verus! {

/// One peer's public key shares, per denomination tier.
pub type TierTable = Vec<(u64, Vec<u8>)>;

/// The shared, consensus-relevant part of a mint's configuration: every
/// peer's public key share for every tier, and the fee schedule.
pub struct MintConfigConsensus {
    pub peer_tbs_pks: Vec<(PeerId, TierTable)>,
    pub fee_consensus: FeeConsensus,
    pub max_notes_per_denomination: u8,
}

/// The private part: this peer's secret share for every tier.
pub struct MintConfigPrivate {
    pub tbs_sks: TierTable,
}

/// One peer's whole mint configuration.
pub struct MintConfig {
    pub consensus: MintConfigConsensus,
    pub private: MintConfigPrivate,
}

/// The abstract view of a tier table.
pub open spec fn tiers_view(s: Seq<(u64, Vec<u8>)>) -> Seq<(u64, Seq<u8>)> {
    s.map_values(|e: (u64, Vec<u8>)| (e.0, e.1@))
}

/// The tier table of public shares a secret tier table gives rise to.
pub open spec fn derived_pubs(s: Seq<(u64, Vec<u8>)>) -> Seq<(u64, Seq<u8>)> {
    s.map_values(|e: (u64, Vec<u8>)| (e.0, pub_share_of(e.1@)))
}

impl MintConfig {
    pub open spec fn wf(&self) -> bool {
        &&& tdistinct(self.private.tbs_sks@)
        &&& crate::collections::distinct_keys(self.consensus.peer_tbs_pks@)
        &&& forall|i: int|
            0 <= i < self.consensus.peer_tbs_pks@.len() ==> tdistinct(
                (#[trigger] self.consensus.peer_tbs_pks@[i]).1@,
            )
    }
}

/// Parameters for generating a mint's configuration: the denomination
/// tiers, in millisatoshis, and the fee schedule.
pub struct MintGenParams {
    pub denominations: Vec<u64>,
    pub fee_consensus: FeeConsensus,
    pub max_notes_per_denomination: u8,
}

/// Sample a fresh degree-`threshold - 1` polynomial and deal every peer a
/// share: the secret shares are its values at the points `1..=keys`, the
/// public shares their public counterparts, and the aggregate public key
/// belongs to the value at zero.
pub fn dealer_keygen(threshold: usize, keys: usize) -> (r: (Vec<u8>, Vec<Vec<u8>>, Vec<Vec<u8>>))
    requires
        threshold >= 1,
        keys < u64::MAX,
    ensures
        r.1.len() == keys,
        r.2.len() == keys,
        exists|poly: Seq<Seq<u8>>|
            {
                &&& poly.len() == threshold
                &&& r.0@ == pub_share_of(#[trigger] poly_eval_at(poly, 0))
                &&& forall|i: int|
                    0 <= i < keys ==> (#[trigger] r.2@[i])@ == poly_eval_at(poly, (i + 1) as u64)
                &&& forall|i: int|
                    0 <= i < keys ==> (#[trigger] r.1@[i])@ == pub_share_of(r.2@[i]@)
            },
{
    let mut poly: Vec<Vec<u8>> = Vec::new();
    let mut c: usize = 0;
    while c < threshold
        invariant
            c <= threshold,
            poly@.len() == c,
        decreases threshold - c,
    {
        poly.push(random_scalar_bytes());
        c = c + 1;
    }
    let apk = derive_pub_share(&eval_poly_at(&poly, 0));
    let mut sks: Vec<Vec<u8>> = Vec::new();
    let mut pks: Vec<Vec<u8>> = Vec::new();
    let mut i: usize = 0;
    while i < keys
        invariant
            i <= keys,
            keys < u64::MAX,
            sks@.len() == i,
            pks@.len() == i,
            forall|j: int|
                0 <= j < i ==> (#[trigger] sks@[j])@ == poly_eval_at(
                    poly.deep_view(),
                    (j + 1) as u64,
                ),
            forall|j: int| 0 <= j < i ==> (#[trigger] pks@[j])@ == pub_share_of(sks@[j]@),
        decreases keys - i,
    {
        let sk = eval_poly_at(&poly, (i as u64) + 1);
        let pk = derive_pub_share(&sk);
        sks.push(sk);
        pks.push(pk);
        i = i + 1;
    }
    proof {
        assert(poly.deep_view().len() == threshold);
    }
    (apk, pks, sks)
}

/// How a generated configuration set relates to the parameters: every peer
/// holds the same public shares, each tier's shares lie on one polynomial,
/// and each public share is the public counterpart of the peer's secret.
pub open spec fn dealer_configs_ok(
    peers: Seq<PeerId>,
    params: MintGenParams,
    cfgs: Seq<(PeerId, MintConfig)>,
) -> bool {
    &&& cfgs.len() == peers.len()
    &&& forall|j: int| 0 <= j < cfgs.len() ==> (#[trigger] cfgs[j]).0 == peers[j]
    &&& forall|j: int|
        {
            &&& 0 <= j < cfgs.len() ==> {
                let cfg = (#[trigger] cfgs[j]).1;
                &&& cfg.wf()
                &&& cfg.consensus.fee_consensus == params.fee_consensus
                &&& cfg.consensus.max_notes_per_denomination
                    == params.max_notes_per_denomination
                &&& cfg.private.tbs_sks@.len() == params.denominations@.len()
                &&& forall|d: int|
                    0 <= d < params.denominations@.len() ==> (
                    #[trigger] cfg.private.tbs_sks@[d]).0 == params.denominations@[d]
                &&& cfg.consensus.peer_tbs_pks@.len() == peers.len()
                &&& forall|q: int, d: int|
                    0 <= q < peers.len() && 0 <= d < params.denominations@.len() ==> {
                        &&& (#[trigger] cfg.consensus.peer_tbs_pks@[q]).0 == peers[q]
                        &&& cfg.consensus.peer_tbs_pks@[q].1@.len()
                            == params.denominations@.len()
                        &&& (#[trigger] cfg.consensus.peer_tbs_pks@[q].1@[d]).0
                            == params.denominations@[d]
                        &&& cfg.consensus.peer_tbs_pks@[q].1@[d].1@ == pub_share_of(
                            cfgs[q].1.private.tbs_sks@[d].1@,
                        )
                    }
            }
        }
    &&& forall|d: int|
        0 <= d < params.denominations@.len() ==> #[trigger] tier_on_one_polynomial(cfgs, d)
}

/// All secret shares of one tier lie on a single polynomial, peer `j`
/// holding its value at the point `j + 1`.
pub open spec fn tier_on_one_polynomial(cfgs: Seq<(PeerId, MintConfig)>, d: int) -> bool {
    exists|poly: Seq<Seq<u8>>|
        {
            &&& #[trigger] poly.len() >= 0
            &&& forall|j: int|
                0 <= j < cfgs.len() ==> (#[trigger] cfgs[j]).1.private.tbs_sks@[d].1@
                    == poly_eval_at(poly, (j + 1) as u64)
        }
}

/// Why a mint could not be built from a configuration.
#[derive(Clone, Copy, Debug, PartialEq, Eq, Structural)]
pub enum MintCreationError {
    /// The configuration holds no denomination tier at all.
    NoTiers,
    /// Some peer's public share table does not list exactly the tiers of
    /// the private table.
    InconsistentTiers,
    /// No peer's public shares match the ones derived from the private
    /// shares.
    OwnKeyNotFound,
}

/// Why a configuration failed validation.
#[derive(Clone, Copy, Debug, PartialEq, Eq, Structural)]
pub enum MintConfigError {
    /// The validating peer is not listed in the configuration.
    UnknownIdentity,
    /// The private key does not match the listed public share.
    KeyMismatch,
    /// The one-millisatoshi denomination is missing.
    MissingMsatDenomination,
}

/// Every peer's table lists exactly the tiers of the private table, in the
/// same order.
pub open spec fn tiers_consistent(cfg: MintConfig) -> bool {
    forall|q: int|
        0 <= q < cfg.consensus.peer_tbs_pks@.len() ==> {
            let table = (#[trigger] cfg.consensus.peer_tbs_pks@[q]).1@;
            &&& table.len() == cfg.private.tbs_sks@.len()
            &&& forall|d: int|
                0 <= d < table.len() ==> (#[trigger] table[d]).0 == cfg.private.tbs_sks@[d].0
        }
}

/// Peer `q`'s listed public shares are exactly the ones derived from the
/// private shares: `q` is this mint's own identity.
pub open spec fn is_own_peer(cfg: MintConfig, q: int) -> bool {
    &&& 0 <= q < cfg.consensus.peer_tbs_pks@.len()
    &&& tiers_view(cfg.consensus.peer_tbs_pks@[q].1@) == derived_pubs(cfg.private.tbs_sks@)
}

/// The public shares of the first `threshold` peers for tier position `d`.
pub open spec fn first_shares(cfg: MintConfig, threshold: int, d: int) -> Seq<Seq<u8>> {
    Seq::new(threshold as nat, |q: int| cfg.consensus.peer_tbs_pks@[q].1@[d].1@)
}

/// Compare a peer's tier table against the derived public shares.
fn table_matches_derived(table: &TierTable, sks: &TierTable) -> (r: bool)
    ensures
        r == (tiers_view(table@) == derived_pubs(sks@)),
{
    if table.len() != sks.len() {
        proof {
            assert(tiers_view(table@).len() == table@.len());
            assert(derived_pubs(sks@).len() == sks@.len());
        }
        return false;
    }
    let mut d: usize = 0;
    while d < table.len()
        invariant
            table@.len() == sks@.len(),
            d <= table@.len(),
            forall|j: int|
                0 <= j < d ==> (#[trigger] table@[j]).0 == sks@[j].0 && table@[j].1@
                    == pub_share_of(sks@[j].1@),
        decreases table@.len() - d,
    {
        let derived = derive_pub_share(&sks[d].1);
        if table[d].0 != sks[d].0 || !bytes_eq(&table[d].1, &derived) {
            proof {
                assert(tiers_view(table@)[d as int] != derived_pubs(sks@)[d as int]);
            }
            return false;
        }
        d = d + 1;
    }
    proof {
        assert(tiers_view(table@) =~= derived_pubs(sks@));
    }
    true
}

/// Aggregate, for every tier position, the first `threshold` peers' public
/// shares into the tier's aggregate public key.
fn aggregate_tier_keys(
    peer_tbs_pks: &Vec<(PeerId, TierTable)>,
    sks: &TierTable,
    threshold: usize,
) -> (r: TierTable)
    requires
        1 <= threshold <= peer_tbs_pks@.len(),
        forall|q: int|
            0 <= q < peer_tbs_pks@.len() ==> {
                let table = (#[trigger] peer_tbs_pks@[q]).1@;
                &&& table.len() == sks@.len()
                &&& forall|d: int| 0 <= d < table.len() ==> (#[trigger] table[d]).0 == sks@[d].0
            },
    ensures
        r@.len() == sks@.len(),
        forall|d: int|
            0 <= d < sks@.len() ==> (#[trigger] r@[d]).0 == sks@[d].0 && r@[d].1@ == agg_pk_of(
                Seq::new(threshold as nat, |q: int| peer_tbs_pks@[q].1@[d].1@),
            ),
{
    let mut out: TierTable = Vec::new();
    let mut d: usize = 0;
    while d < sks.len()
        invariant
            1 <= threshold <= peer_tbs_pks@.len(),
            forall|q: int|
                0 <= q < peer_tbs_pks@.len() ==> {
                    let table = (#[trigger] peer_tbs_pks@[q]).1@;
                    &&& table.len() == sks@.len()
                    &&& forall|e: int|
                        0 <= e < table.len() ==> (#[trigger] table[e]).0 == sks@[e].0
                },
            d <= sks@.len(),
            out@.len() == d,
            forall|e: int|
                0 <= e < d ==> (#[trigger] out@[e]).0 == sks@[e].0 && out@[e].1@ == agg_pk_of(
                    Seq::new(threshold as nat, |q: int| peer_tbs_pks@[q].1@[e].1@),
                ),
        decreases sks@.len() - d,
    {
        let mut shares: Vec<Vec<u8>> = Vec::new();
        let mut q: usize = 0;
        while q < threshold
            invariant
                1 <= threshold <= peer_tbs_pks@.len(),
                d < sks@.len(),
                forall|t: int|
                    0 <= t < peer_tbs_pks@.len() ==> {
                        let table = (#[trigger] peer_tbs_pks@[t]).1@;
                        &&& table.len() == sks@.len()
                    },
                q <= threshold,
                shares@.len() == q,
                forall|t: int|
                    0 <= t < q ==> (#[trigger] shares@[t])@ == peer_tbs_pks@[t].1@[d as int].1@,
            decreases threshold - q,
        {
            shares.push(bytes_dup(&peer_tbs_pks[q].1[d]. 1));
            q = q + 1;
        }
        let agg = aggregate_pub_shares(&shares);
        proof {
            assert(shares.deep_view() =~= Seq::new(
                threshold as nat,
                |t: int| peer_tbs_pks@[t].1@[d as int].1@,
            )) by {
                assert forall|t: int| 0 <= t < threshold implies shares.deep_view()[t]
                    == peer_tbs_pks@[t].1@[d as int].1@ by {
                    crate::db::lemma_bytes_deep_view(shares@[t]);
                }
            }
        }
        out.push((sks[d].0, agg));
        d = d + 1;
    }
    out
}

/// The position of a peer in a share table.
fn peer_index_of(entries: &Vec<(PeerId, TierTable)>, id: PeerId) -> (r: Option<usize>)
    ensures
        match r {
            Some(i) => i < entries@.len() && (entries@[i as int]).0 == id,
            None => forall|j: int| 0 <= j < entries@.len() ==> (#[trigger] entries@[j]).0 != id,
        },
{
    let mut q: usize = 0;
    while q < entries.len()
        invariant
            q <= entries@.len(),
            forall|j: int| 0 <= j < q ==> (#[trigger] entries@[j]).0 != id,
        decreases entries@.len() - q,
    {
        if entries[q].0 == id {
            return Some(q);
        }
        q = q + 1;
    }
    None
}

/// The first peer whose listed public shares are the ones derived from
/// these private shares.
fn find_own_peer(entries: &Vec<(PeerId, TierTable)>, sks: &TierTable) -> (r: Option<usize>)
    ensures
        match r {
            Some(i) => i < entries@.len() && tiers_view((entries@[i as int]).1@) == derived_pubs(
                sks@,
            ),
            None => forall|j: int|
                0 <= j < entries@.len() ==> tiers_view((#[trigger] entries@[j]).1@)
                    != derived_pubs(sks@),
        },
{
    let mut q: usize = 0;
    while q < entries.len()
        invariant
            q <= entries@.len(),
            forall|j: int|
                0 <= j < q ==> tiers_view((#[trigger] entries@[j]).1@) != derived_pubs(sks@),
        decreases entries@.len() - q,
    {
        if table_matches_derived(&entries[q].1, sks) {
            return Some(q);
        }
        q = q + 1;
    }
    None
}

/// A mint's builder: generates, validates and projects configurations.
#[derive(Clone, Copy, Debug)]
pub struct MintInit;

/// What a client needs of the federation's mint: the aggregate public key
/// and every peer's public share per tier, and the fee schedule.
pub struct MintClientConfig {
    pub tbs_pks: TierTable,
    pub fee_consensus: FeeConsensus,
    pub max_notes_per_denomination: u8,
}

impl MintInit {
    /// The consensus versions this module speaks.
    pub fn versions(&self) -> (r: Vec<crate::version::ModuleConsensusVersion>)
        ensures
            r@.len() == 1,
            r@[0].major == 0 && r@[0].minor == 0,
    {
        let mut v: Vec<crate::version::ModuleConsensusVersion> = Vec::new();
        v.push(crate::version::ModuleConsensusVersion::new(0, 0));
        v
    }

    /// The API versions this module serves: version `(0, 0)` under any
    /// core consensus and module consensus `(0, 0)`.
    pub fn supported_api_versions(&self) -> (r: SupportedModuleApiVersions)
        ensures
            r.wf(),
            r.core_consensus.major == u32::MAX,
            r.module_consensus.major == 0,
            r.api@.len() == 1,
            r.api@[0].major == 0 && r.api@[0].minor == 0,
    {
        let mut api: Vec<(u32, u32)> = Vec::new();
        api.push((0, 0));
        match SupportedModuleApiVersions::from_raw((u32::MAX, 0), (0, 0), api) {
            Ok(s) => s,
            Err(_) => {
                proof {
                    assert(false);
                }
                SupportedModuleApiVersions {
                    core_consensus: crate::version::CoreConsensusVersion::new(u32::MAX, 0),
                    module_consensus: crate::version::ModuleConsensusVersion::new(0, 0),
                    api: MultiApiVersion::new_empty(),
                }
            },
        }
    }

    /// Check one peer's configuration: the private key of every tier must
    /// match the public share listed for this peer, and the
    /// one-millisatoshi denomination must exist.
    pub fn validate_config(&self, identity: &PeerId, config: &MintConfig) -> (r: Result<
        (),
        MintConfigError,
    >)
        requires
            config.wf(),
        ensures
            match r {
                Ok(u) => {
                    &&& crate::collections::has_key(config.consensus.peer_tbs_pks@, *identity)
                    &&& is_own_peer(
                        *config,
                        crate::collections::key_index(config.consensus.peer_tbs_pks@, *identity),
                    )
                    &&& thas_key(config.private.tbs_sks@, 1)
                },
                Err(MintConfigError::UnknownIdentity) => !crate::collections::has_key(
                    config.consensus.peer_tbs_pks@,
                    *identity,
                ),
                Err(MintConfigError::KeyMismatch) => {
                    &&& crate::collections::has_key(config.consensus.peer_tbs_pks@, *identity)
                    &&& !is_own_peer(
                        *config,
                        crate::collections::key_index(config.consensus.peer_tbs_pks@, *identity),
                    )
                },
                Err(MintConfigError::MissingMsatDenomination) => {
                    &&& crate::collections::has_key(config.consensus.peer_tbs_pks@, *identity)
                    &&& is_own_peer(
                        *config,
                        crate::collections::key_index(config.consensus.peer_tbs_pks@, *identity),
                    )
                    &&& !thas_key(config.private.tbs_sks@, 1)
                },
            },
    {
        let own = match peer_index_of(&config.consensus.peer_tbs_pks, *identity) {
            Some(i) => i,
            None => {
                proof {
                    crate::collections::lemma_seq_to_map_domain(
                        config.consensus.peer_tbs_pks@,
                        *identity,
                    );
                }
                return Err(MintConfigError::UnknownIdentity);
            },
        };
        proof {
            assert(crate::collections::has_key(config.consensus.peer_tbs_pks@, *identity)) by {
                assert(config.consensus.peer_tbs_pks@[own as int].0 == *identity);
            }
            let k = crate::collections::key_index(config.consensus.peer_tbs_pks@, *identity);
            if k != own as int {
                assert(config.consensus.peer_tbs_pks@[k].0
                    == config.consensus.peer_tbs_pks@[own as int].0);
            }
        }
        if !table_matches_derived(&config.consensus.peer_tbs_pks[own].1, &config.private.tbs_sks) {
            return Err(MintConfigError::KeyMismatch);
        }
        match crate::mint::tier_get(&config.private.tbs_sks, 1) {
            Some(_) => Ok(()),
            None => Err(MintConfigError::MissingMsatDenomination),
        }
    }
}

impl Mint {
    /// Build a mint from one peer's configuration: check that the key
    /// material is consistent and that the own key is among the public
    /// shares, then aggregate each tier's public key over the first
    /// threshold peers.
    pub fn new(cfg: MintConfig) -> (r: Result<Mint, MintCreationError>)
        requires
            cfg.wf(),
            cfg.consensus.peer_tbs_pks@.len() >= 1,
        ensures
            match r {
                Ok(m) => {
                    &&& cfg.private.tbs_sks@.len() >= 1
                    &&& tiers_consistent(cfg)
                    &&& exists|q: int| #[trigger] is_own_peer(cfg, q)
                    &&& m.wf()
                    &&& m.fee_spec() == cfg.consensus.fee_consensus
                    &&& m.sec_key_seq() == cfg.private.tbs_sks@
                    &&& m.pub_key_seq().len() == cfg.private.tbs_sks@.len()
                    &&& forall|d: int|
                        0 <= d < cfg.private.tbs_sks@.len() ==> (#[trigger] m.pub_key_seq()[d]).0
                            == cfg.private.tbs_sks@[d].0 && m.pub_key_seq()[d].1@ == agg_pk_of(
                            first_shares(
                                cfg,
                                crate::peers::spec_honest_threshold(
                                    cfg.consensus.peer_tbs_pks@.len() as int,
                                ),
                                d,
                            ),
                        )
                },
                Err(MintCreationError::NoTiers) => cfg.private.tbs_sks@.len() == 0,
                Err(MintCreationError::InconsistentTiers) => {
                    &&& cfg.private.tbs_sks@.len() >= 1
                    &&& !tiers_consistent(cfg)
                },
                Err(MintCreationError::OwnKeyNotFound) => {
                    &&& cfg.private.tbs_sks@.len() >= 1
                    &&& tiers_consistent(cfg)
                    &&& forall|q: int| !(#[trigger] is_own_peer(cfg, q))
                },
            },
    {
        let n = cfg.consensus.peer_tbs_pks.len();
        if cfg.private.tbs_sks.len() == 0 {
            return Err(MintCreationError::NoTiers);
        }
        let mut q: usize = 0;
        while q < n
            invariant
                cfg.wf(),
                cfg.private.tbs_sks@.len() >= 1,
                n == cfg.consensus.peer_tbs_pks@.len(),
                q <= n,
                forall|j: int|
                    0 <= j < q ==> {
                        let table = (#[trigger] cfg.consensus.peer_tbs_pks@[j]).1@;
                        &&& table.len() == cfg.private.tbs_sks@.len()
                        &&& forall|d: int|
                            0 <= d < table.len() ==> (#[trigger] table[d]).0
                                == cfg.private.tbs_sks@[d].0
                    },
            decreases n - q,
        {
            let table = &cfg.consensus.peer_tbs_pks[q].1;
            if table.len() != cfg.private.tbs_sks.len() {
                proof {
                    assert(!tiers_consistent(cfg)) by {
                        assert((cfg.consensus.peer_tbs_pks@[q as int]).1@.len()
                            != cfg.private.tbs_sks@.len());
                    }
                }
                return Err(MintCreationError::InconsistentTiers);
            }
            let mut d: usize = 0;
            while d < table.len()
                invariant
                    cfg.wf(),
                    cfg.private.tbs_sks@.len() >= 1,
                    q < cfg.consensus.peer_tbs_pks@.len(),
                    table@ == cfg.consensus.peer_tbs_pks@[q as int].1@,
                    table@.len() == cfg.private.tbs_sks@.len(),
                    d <= table@.len(),
                    forall|e: int|
                        0 <= e < d ==> (#[trigger] table@[e]).0 == cfg.private.tbs_sks@[e].0,
                decreases table@.len() - d,
            {
                if table[d].0 != cfg.private.tbs_sks[d].0 {
                    proof {
                        assert(!tiers_consistent(cfg)) by {
                            assert(((cfg.consensus.peer_tbs_pks@[q as int]).1@[d as int]).0
                                != cfg.private.tbs_sks@[d as int].0);
                        }
                    }
                    return Err(MintCreationError::InconsistentTiers);
                }
                d = d + 1;
            }
            q = q + 1;
        }
        proof {
            assert(tiers_consistent(cfg));
        }
        let own = find_own_peer(&cfg.consensus.peer_tbs_pks, &cfg.private.tbs_sks);
        if own.is_none() {
            proof {
                assert forall|j: int| !(#[trigger] is_own_peer(cfg, j)) by {
                    if 0 <= j < cfg.consensus.peer_tbs_pks@.len() {
                        assert(tiers_view(cfg.consensus.peer_tbs_pks@[j].1@) != derived_pubs(
                            cfg.private.tbs_sks@,
                        ));
                    }
                }
            }
            return Err(MintCreationError::OwnKeyNotFound);
        }
        match own {
            Some(i) => {
                proof {
                    assert(is_own_peer(cfg, i as int));
                }
            },
            None => {},
        }
        let max_evil = crate::peers::max_evil(n);
        let threshold = n - max_evil;
        let pub_key = aggregate_tier_keys(
            &cfg.consensus.peer_tbs_pks,
            &cfg.private.tbs_sks,
            threshold,
        );
        proof {
            assert(tdistinct(pub_key@)) by {
                assert forall|a: int, b: int|
                    0 <= a < b < pub_key@.len() implies (#[trigger] pub_key@[a]).0 != (
                #[trigger] pub_key@[b]).0 by {
                    assert(pub_key@[a].0 == cfg.private.tbs_sks@[a].0);
                    assert(pub_key@[b].0 == cfg.private.tbs_sks@[b].0);
                }
            }
            assert forall|d: int|
                0 <= d < cfg.private.tbs_sks@.len() implies first_shares(
                cfg,
                threshold as int,
                d,
            ) =~= Seq::new(
                threshold as nat,
                |t: int| cfg.consensus.peer_tbs_pks@[t].1@[d].1@,
            ) by {}
        }
        let fee_consensus = cfg.consensus.fee_consensus;
        Ok(Mint::from_parts(fee_consensus, cfg.private.tbs_sks, pub_key))
    }
}

/// All shares in the list lie on one polynomial, position `q` holding its
/// value at the point `q + 1`.
pub open spec fn shares_on_poly(s: Seq<Vec<u8>>) -> bool {
    exists|poly: Seq<Seq<u8>>|
        {
            &&& #[trigger] poly.len() >= 0
            &&& forall|q: int|
                0 <= q < s.len() ==> (#[trigger] s[q])@ == poly_eval_at(poly, (q + 1) as u64)
        }
}

impl MintInit {
    /// Deal every peer a full configuration from one trusted spot: sample
    /// one polynomial per denomination tier, give each peer its secret
    /// share, and list every peer's public share in every configuration.
    pub fn trusted_dealer_gen(&self, peers: &Vec<PeerId>, params: &MintGenParams) -> (r: Vec<
        (PeerId, MintConfig),
    >)
        requires
            1 <= peers@.len() < u64::MAX,
            crate::collections::distinct_peers(peers@),
            forall|i: int, j: int|
                0 <= i < j < params.denominations@.len() ==> params.denominations@[i]
                    != params.denominations@[j],
        ensures
            dealer_configs_ok(peers@, *params, r@),
    {
        let n = peers.len();
        let nd = params.denominations.len();
        let max_evil = crate::peers::max_evil(n);
        let threshold = n - max_evil;
        let mut tier_sks: Vec<Vec<Vec<u8>>> = Vec::new();
        let mut tier_pks: Vec<Vec<Vec<u8>>> = Vec::new();
        let mut d: usize = 0;
        while d < nd
            invariant
                1 <= n < u64::MAX,
                n == peers@.len(),
                threshold >= 1,
                nd == params.denominations@.len(),
                d <= nd,
                tier_sks@.len() == d,
                tier_pks@.len() == d,
                forall|e: int| 0 <= e < d ==> (#[trigger] tier_sks@[e])@.len() == n,
                forall|e: int| 0 <= e < d ==> (#[trigger] tier_pks@[e])@.len() == n,
                forall|e: int, q: int|
                    0 <= e < d && 0 <= q < n ==> (#[trigger] tier_pks@[e]@[q])@ == pub_share_of(
                        tier_sks@[e]@[q]@,
                    ),
                forall|e: int| 0 <= e < d ==> shares_on_poly((#[trigger] tier_sks@[e])@),
            decreases nd - d,
        {
            let keys = dealer_keygen(threshold, n);
            proof {
                assert(shares_on_poly(keys.2@)) by {
                    let poly = choose|poly: Seq<Seq<u8>>|
                        {
                            &&& poly.len() == threshold
                            &&& keys.0@ == pub_share_of(#[trigger] poly_eval_at(poly, 0))
                            &&& forall|i: int|
                                0 <= i < n ==> (#[trigger] keys.2@[i])@ == poly_eval_at(
                                    poly,
                                    (i + 1) as u64,
                                )
                            &&& forall|i: int|
                                0 <= i < n ==> (#[trigger] keys.1@[i])@ == pub_share_of(
                                    keys.2@[i]@,
                                )
                        };
                    assert(poly.len() >= 0);
                }
            }
            tier_pks.push(keys.1);
            tier_sks.push(keys.2);
            d = d + 1;
        }
        let mut out: Vec<(PeerId, MintConfig)> = Vec::new();
        let mut j: usize = 0;
        while j < n
            invariant
                1 <= n < u64::MAX,
                n == peers@.len(),
                crate::collections::distinct_peers(peers@),
                nd == params.denominations@.len(),
                forall|i2: int, j2: int|
                    0 <= i2 < j2 < nd ==> params.denominations@[i2] != params.denominations@[j2],
                tier_sks@.len() == nd,
                tier_pks@.len() == nd,
                forall|e: int| 0 <= e < nd ==> (#[trigger] tier_sks@[e])@.len() == n,
                forall|e: int| 0 <= e < nd ==> (#[trigger] tier_pks@[e])@.len() == n,
                forall|e: int, q: int|
                    0 <= e < nd && 0 <= q < n ==> (#[trigger] tier_pks@[e]@[q])@
                        == pub_share_of(tier_sks@[e]@[q]@),
                forall|e: int| 0 <= e < nd ==> shares_on_poly((#[trigger] tier_sks@[e])@),
                j <= n,
                out@.len() == j,
                forall|t: int| 0 <= t < j ==> (#[trigger] out@[t]).0 == peers@[t],
                forall|t: int|
                    0 <= t < j ==> {
                        let cfg = (#[trigger] out@[t]).1;
                        &&& cfg.wf()
                        &&& cfg.consensus.fee_consensus == params.fee_consensus
                        &&& cfg.consensus.max_notes_per_denomination
                            == params.max_notes_per_denomination
                        &&& cfg.private.tbs_sks@.len() == nd
                        &&& forall|e: int|
                            0 <= e < nd ==> (#[trigger] cfg.private.tbs_sks@[e]).0
                                == params.denominations@[e] && cfg.private.tbs_sks@[e].1@
                                == tier_sks@[e]@[t]@
                        &&& cfg.consensus.peer_tbs_pks@.len() == n
                        &&& forall|q: int|
                            0 <= q < n ==> (#[trigger] cfg.consensus.peer_tbs_pks@[q]).0
                                == peers@[q] && cfg.consensus.peer_tbs_pks@[q].1@.len() == nd
                        &&& forall|q: int, e: int|
                            0 <= q < n && 0 <= e < nd ==> (
                            #[trigger] cfg.consensus.peer_tbs_pks@[q].1@[e]).0
                                == params.denominations@[e]
                                && cfg.consensus.peer_tbs_pks@[q].1@[e].1@ == tier_pks@[e]@[q]@
                    },
            decreases n - j,
        {
            let mut sks_table: TierTable = Vec::new();
            let mut e: usize = 0;
            while e < nd
                invariant
                    nd == params.denominations@.len(),
                    tier_sks@.len() == nd,
                    j < n,
                    forall|e2: int| 0 <= e2 < nd ==> (#[trigger] tier_sks@[e2])@.len() == n,
                    e <= nd,
                    sks_table@.len() == e,
                    forall|e2: int|
                        0 <= e2 < e ==> (#[trigger] sks_table@[e2]).0 == params.denominations@[e2]
                            && sks_table@[e2].1@ == tier_sks@[e2]@[j as int]@,
                decreases nd - e,
            {
                sks_table.push((params.denominations[e], bytes_dup(&tier_sks[e][j])));
                e = e + 1;
            }
            let mut pks_peers: Vec<(PeerId, TierTable)> = Vec::new();
            let mut q: usize = 0;
            while q < n
                invariant
                    n == peers@.len(),
                    nd == params.denominations@.len(),
                    tier_pks@.len() == nd,
                    forall|e2: int| 0 <= e2 < nd ==> (#[trigger] tier_pks@[e2])@.len() == n,
                    q <= n,
                    pks_peers@.len() == q,
                    forall|t: int|
                        0 <= t < q ==> (#[trigger] pks_peers@[t]).0 == peers@[t]
                            && pks_peers@[t].1@.len() == nd,
                    forall|t: int, e2: int|
                        0 <= t < q && 0 <= e2 < nd ==> (#[trigger] pks_peers@[t].1@[e2]).0
                            == params.denominations@[e2] && pks_peers@[t].1@[e2].1@
                            == tier_pks@[e2]@[t]@,
                decreases n - q,
            {
                let mut ptable: TierTable = Vec::new();
                let mut e2: usize = 0;
                while e2 < nd
                    invariant
                        nd == params.denominations@.len(),
                        tier_pks@.len() == nd,
                        q < n,
                        forall|e3: int| 0 <= e3 < nd ==> (#[trigger] tier_pks@[e3])@.len() == n,
                        e2 <= nd,
                        ptable@.len() == e2,
                        forall|e3: int|
                            0 <= e3 < e2 ==> (#[trigger] ptable@[e3]).0
                                == params.denominations@[e3] && ptable@[e3].1@
                                == tier_pks@[e3]@[q as int]@,
                    decreases nd - e2,
                {
                    ptable.push((params.denominations[e2], bytes_dup(&tier_pks[e2][q])));
                    e2 = e2 + 1;
                }
                pks_peers.push((peers[q], ptable));
                q = q + 1;
            }
            let cfg = MintConfig {
                consensus: MintConfigConsensus {
                    peer_tbs_pks: pks_peers,
                    fee_consensus: params.fee_consensus,
                    max_notes_per_denomination: params.max_notes_per_denomination,
                },
                private: MintConfigPrivate { tbs_sks: sks_table },
            };
            proof {
                assert(cfg.wf()) by {
                    assert(tdistinct(cfg.private.tbs_sks@));
                    assert(crate::collections::distinct_keys(cfg.consensus.peer_tbs_pks@));
                    assert forall|i2: int|
                        0 <= i2 < cfg.consensus.peer_tbs_pks@.len() implies tdistinct(
                        (#[trigger] cfg.consensus.peer_tbs_pks@[i2]).1@,
                    ) by {
                        assert forall|a: int, b: int|
                            0 <= a < b < cfg.consensus.peer_tbs_pks@[i2].1@.len() implies (
                        #[trigger] cfg.consensus.peer_tbs_pks@[i2].1@[a]).0 != (
                        #[trigger] cfg.consensus.peer_tbs_pks@[i2].1@[b]).0 by {
                            assert(params.denominations@[a] != params.denominations@[b]);
                        }
                    }
                }
            }
            out.push((peers[j], cfg));
            j = j + 1;
        }
        proof {
            assert forall|e: int|
                0 <= e < nd implies #[trigger] tier_on_one_polynomial(out@, e) by {
                assert(shares_on_poly(tier_sks@[e]@));
                let poly = choose|poly: Seq<Seq<u8>>|
                    {
                        &&& #[trigger] poly.len() >= 0
                        &&& forall|q: int|
                            0 <= q < tier_sks@[e]@.len() ==> (#[trigger] tier_sks@[e]@[q])@
                                == poly_eval_at(poly, (q + 1) as u64)
                    };
                assert forall|t: int|
                    0 <= t < out@.len() implies (#[trigger] out@[t]).1.private.tbs_sks@[e].1@
                    == poly_eval_at(poly, (t + 1) as u64) by {
                    assert(out@[t].1.private.tbs_sks@[e].1@ == tier_sks@[e]@[t]@);
                }
            }
        }
        out
    }
}


impl MintInit {
    /// Project the client-visible part out of the consensus configuration:
    /// the aggregate public key of every tier, obtained from the first
    /// threshold peers' shares, and the fee schedule.
    pub fn get_client_config(&self, config: &MintConfigConsensus) -> (r: MintClientConfig)
        requires
            config.peer_tbs_pks@.len() >= 1,
            forall|q: int|
                0 <= q < config.peer_tbs_pks@.len() ==> {
                    let table = (#[trigger] config.peer_tbs_pks@[q]).1@;
                    &&& table.len() == config.peer_tbs_pks@[0].1@.len()
                    &&& forall|d: int|
                        0 <= d < table.len() ==> (#[trigger] table[d]).0
                            == config.peer_tbs_pks@[0].1@[d].0
                },
        ensures
            r.fee_consensus == config.fee_consensus,
            r.max_notes_per_denomination == config.max_notes_per_denomination,
            r.tbs_pks@.len() == config.peer_tbs_pks@[0].1@.len(),
            forall|d: int|
                0 <= d < r.tbs_pks@.len() ==> (#[trigger] r.tbs_pks@[d]).0
                    == config.peer_tbs_pks@[0].1@[d].0 && r.tbs_pks@[d].1@ == agg_pk_of(
                    Seq::new(
                        crate::peers::spec_honest_threshold(
                            config.peer_tbs_pks@.len() as int,
                        ) as nat,
                        |q: int| config.peer_tbs_pks@[q].1@[d].1@,
                    ),
                ),
    {
        let n = config.peer_tbs_pks.len();
        let max_evil = crate::peers::max_evil(n);
        let threshold = n - max_evil;
        let mut reference: TierTable = Vec::new();
        let first = &config.peer_tbs_pks[0].1;
        let mut d: usize = 0;
        while d < first.len()
            invariant
                first@ == config.peer_tbs_pks@[0].1@,
                d <= first@.len(),
                reference@.len() == d,
                forall|e: int| 0 <= e < d ==> (#[trigger] reference@[e]).0 == first@[e].0,
            decreases first@.len() - d,
        {
            reference.push((first[d].0, Vec::new()));
            d = d + 1;
        }
        let tbs_pks = aggregate_tier_keys(&config.peer_tbs_pks, &reference, threshold);
        MintClientConfig {
            tbs_pks,
            fee_consensus: config.fee_consensus,
            max_notes_per_denomination: config.max_notes_per_denomination,
        }
    }
}


/// The key material one round of distributed key generation leaves with a
/// peer, per denomination tier: the polynomial's public commitments and the
/// peer's own secret share.
pub struct DkgTierKeys {
    pub commitments: Vec<Vec<u8>>,
    pub secret_share: Vec<u8>,
}

impl MintInit {
    /// Assemble one peer's configuration out of the results of a
    /// distributed key generation, one instance per denomination: this
    /// peer keeps its secret shares, and every peer's public share is the
    /// commitment polynomial evaluated at that peer's point.  The driving
    /// of the generation itself, against the peer-to-peer transport, is
    /// the caller's affair; this is the part that decides what the
    /// configuration says.
    pub fn distributed_gen(
        &self,
        peers: &Vec<PeerId>,
        params: &MintGenParams,
        dkg_keys: Vec<DkgTierKeys>,
    ) -> (r: MintConfig)
        requires
            1 <= peers@.len() < u64::MAX,
            crate::collections::distinct_peers(peers@),
            forall|i: int, j: int|
                0 <= i < j < params.denominations@.len() ==> params.denominations@[i]
                    != params.denominations@[j],
            dkg_keys@.len() == params.denominations@.len(),
        ensures
            r.wf(),
            r.consensus.fee_consensus == params.fee_consensus,
            r.consensus.max_notes_per_denomination == params.max_notes_per_denomination,
            r.private.tbs_sks@.len() == params.denominations@.len(),
            forall|d: int|
                0 <= d < params.denominations@.len() ==> (#[trigger] r.private.tbs_sks@[d]).0
                    == params.denominations@[d] && r.private.tbs_sks@[d].1@
                    == dkg_keys@[d].secret_share@,
            r.consensus.peer_tbs_pks@.len() == peers@.len(),
            forall|q: int|
                0 <= q < peers@.len() ==> (#[trigger] r.consensus.peer_tbs_pks@[q]).0
                    == peers@[q] && r.consensus.peer_tbs_pks@[q].1@.len()
                    == params.denominations@.len(),
            forall|q: int, d: int|
                0 <= q < peers@.len() && 0 <= d < params.denominations@.len() ==> (
                #[trigger] r.consensus.peer_tbs_pks@[q].1@[d]).0 == params.denominations@[d]
                    && r.consensus.peer_tbs_pks@[q].1@[d].1@ == crate::crypto::poly_eval_g2(
                    dkg_keys@[d].commitments.deep_view(),
                    (q + 1) as u64,
                ),
    {
        let n = peers.len();
        let nd = params.denominations.len();
        let mut tbs_sks: TierTable = Vec::new();
        let mut d: usize = 0;
        while d < nd
            invariant
                nd == params.denominations@.len(),
                dkg_keys@.len() == nd,
                d <= nd,
                tbs_sks@.len() == d,
                forall|e: int|
                    0 <= e < d ==> (#[trigger] tbs_sks@[e]).0 == params.denominations@[e]
                        && tbs_sks@[e].1@ == dkg_keys@[e].secret_share@,
            decreases nd - d,
        {
            tbs_sks.push((params.denominations[d], bytes_dup(&dkg_keys[d].secret_share)));
            d = d + 1;
        }
        let mut peer_tbs_pks: Vec<(PeerId, TierTable)> = Vec::new();
        let mut q: usize = 0;
        while q < n
            invariant
                n == peers@.len(),
                n < u64::MAX,
                nd == params.denominations@.len(),
                dkg_keys@.len() == nd,
                q <= n,
                peer_tbs_pks@.len() == q,
                forall|t: int|
                    0 <= t < q ==> (#[trigger] peer_tbs_pks@[t]).0 == peers@[t]
                        && peer_tbs_pks@[t].1@.len() == nd,
                forall|t: int, e: int|
                    0 <= t < q && 0 <= e < nd ==> (#[trigger] peer_tbs_pks@[t].1@[e]).0
                        == params.denominations@[e] && peer_tbs_pks@[t].1@[e].1@
                        == crate::crypto::poly_eval_g2(
                        dkg_keys@[e].commitments.deep_view(),
                        (t + 1) as u64,
                    ),
            decreases n - q,
        {
            let mut table: TierTable = Vec::new();
            let mut e: usize = 0;
            while e < nd
                invariant
                    nd == params.denominations@.len(),
                    dkg_keys@.len() == nd,
                    q < n,
                    n < u64::MAX,
                    e <= nd,
                    table@.len() == e,
                    forall|e2: int|
                        0 <= e2 < e ==> (#[trigger] table@[e2]).0 == params.denominations@[e2]
                            && table@[e2].1@ == crate::crypto::poly_eval_g2(
                            dkg_keys@[e2].commitments.deep_view(),
                            (q + 1) as u64,
                        ),
                decreases nd - e,
            {
                let share = crate::crypto::eval_poly_g2(
                    &dkg_keys[e].commitments,
                    (q as u64) + 1,
                );
                table.push((params.denominations[e], share));
                e = e + 1;
            }
            peer_tbs_pks.push((peers[q], table));
            q = q + 1;
        }
        let cfg = MintConfig {
            consensus: MintConfigConsensus {
                peer_tbs_pks,
                fee_consensus: params.fee_consensus,
                max_notes_per_denomination: params.max_notes_per_denomination,
            },
            private: MintConfigPrivate { tbs_sks },
        };
        proof {
            assert(cfg.wf()) by {
                assert forall|i2: int|
                    0 <= i2 < cfg.consensus.peer_tbs_pks@.len() implies tdistinct(
                    (#[trigger] cfg.consensus.peer_tbs_pks@[i2]).1@,
                ) by {
                    assert forall|a: int, b: int|
                        0 <= a < b < cfg.consensus.peer_tbs_pks@[i2].1@.len() implies (
                    #[trigger] cfg.consensus.peer_tbs_pks@[i2].1@[a]).0 != (
                    #[trigger] cfg.consensus.peer_tbs_pks@[i2].1@[b]).0 by {
                        assert(params.denominations@[a] != params.denominations@[b]);
                    }
                }
            }
        }
        cfg
    }
}

} // verus!
