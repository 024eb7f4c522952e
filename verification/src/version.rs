use vstd::prelude::*;

use crate::collections::PeerMap;
use crate::peers::PeerId;
use crate::query::{AllOrDeadline, PeerError, PeerResult, QueryStep, QueryStrategy};

verus! {

/// An API version.  A peer serving major `M` with minor `m` is compatible
/// with any client that asks for the same major and a minor `<= m`.
#[derive(Clone, Copy, Debug, PartialEq, Eq, Structural, Hash)]
pub struct ApiVersion {
    pub major: u32,
    pub minor: u32,
}

/// The version of the core consensus rules a peer runs.  Only the major
/// component gates API compatibility.
#[derive(Clone, Copy, Debug, PartialEq, Eq, Structural, Hash)]
pub struct CoreConsensusVersion {
    pub major: u32,
    pub minor: u32,
}

impl CoreConsensusVersion {
    pub fn new(major: u32, minor: u32) -> (r: Self)
        ensures
            r.major == major,
            r.minor == minor,
    {
        CoreConsensusVersion { major, minor }
    }
}

/// The version of one module's consensus rules.
#[derive(Clone, Copy, Debug, PartialEq, Eq, Structural, Hash)]
pub struct ModuleConsensusVersion {
    pub major: u32,
    pub minor: u32,
}

impl ModuleConsensusVersion {
    pub fn new(major: u32, minor: u32) -> (r: Self)
        ensures
            r.major == major,
            r.minor == minor,
    {
        ModuleConsensusVersion { major, minor }
    }
}

/// Whether a version list carries an entry for this major.
pub open spec fn has_major(s: Seq<ApiVersion>, major: u32) -> bool {
    exists|i: int| 0 <= i < s.len() && (#[trigger] s[i]).major == major
}

/// The position of the entry for this major.
pub open spec fn major_index(s: Seq<ApiVersion>, major: u32) -> int {
    choose|i: int| 0 <= i < s.len() && (#[trigger] s[i]).major == major
}

/// The minor supported for this major, if any.
pub open spec fn spec_minor_for(s: Seq<ApiVersion>, major: u32) -> Option<u32> {
    if has_major(s, major) {
        Some(s[major_index(s, major)].minor)
    } else {
        None
    }
}

/// A set of supported API versions with at most one entry per major, kept in
/// the order the client listed them; ties in version discovery go to the
/// entry listed first.
#[derive(Clone, Debug)]
pub struct MultiApiVersion {
    versions: Vec<ApiVersion>,
}

impl View for MultiApiVersion {
    type V = Seq<ApiVersion>;

    closed spec fn view(&self) -> Seq<ApiVersion> {
        self.versions@
    }
}

impl MultiApiVersion {
    /// A set with no versions at all.
    pub fn new_empty() -> (r: Self)
        ensures
            r.wf(),
            r@ =~= Seq::<ApiVersion>::empty(),
    {
        MultiApiVersion { versions: Vec::new() }
    }

    /// Majors are pairwise distinct.
    pub open spec fn wf(&self) -> bool {
        forall|i: int, j: int|
            0 <= i < j < self@.len() ==> (#[trigger] self@[i]).major != (#[trigger] self@[j]).major
    }

    /// Build the set from a version list; the first version that repeats an
    /// earlier major is handed back as the error.
    pub fn try_from_iter(versions: Vec<ApiVersion>) -> (r: Result<Self, ApiVersion>)
        ensures
            match r {
                Ok(m) => m.wf() && m@ == versions@,
                Err(v) => exists|i: int, j: int|
                    0 <= i < j < versions@.len() && (#[trigger] versions@[i]).major == (
                    #[trigger] versions@[j]).major,
            },
    {
        let mut i: usize = 0;
        while i < versions.len()
            invariant
                i <= versions@.len(),
                forall|a: int, b: int|
                    0 <= a < b < i ==> (#[trigger] versions@[a]).major != (
                    #[trigger] versions@[b]).major,
            decreases versions@.len() - i,
        {
            let mut j: usize = 0;
            while j < i
                invariant
                    j <= i,
                    i < versions@.len(),
                    forall|b: int| 0 <= b < j ==> (#[trigger] versions@[b]).major != versions@[i as int].major,
                decreases i - j,
            {
                if versions[j].major == versions[i].major {
                    return Err(versions[i]);
                }
                j = j + 1;
            }
            i = i + 1;
        }
        Ok(MultiApiVersion { versions })
    }

    /// The minor supported for this major, if any.
    pub fn get_minor(&self, major: u32) -> (r: Option<u32>)
        requires
            self.wf(),
        ensures
            r == spec_minor_for(self@, major),
    {
        let mut i: usize = 0;
        while i < self.versions.len()
            invariant
                self.wf(),
                i <= self@.len(),
                forall|j: int| 0 <= j < i ==> (#[trigger] self@[j]).major != major,
            decreases self@.len() - i,
        {
            if self.versions[i].major == major {
                proof {
                    assert(has_major(self@, major)) by {
                        assert(self@[i as int].major == major);
                    }
                    let k = major_index(self@, major);
                    if k != i as int {
                        assert(self@[k].major == major);
                        assert(self@[i as int].major != self@[k].major);
                    }
                }
                return Some(self.versions[i].minor);
            }
            i = i + 1;
        }
        proof {
            if has_major(self@, major) {
                let k = major_index(self@, major);
                assert(self@[k].major == major);
            }
        }
        None
    }

    /// The versions, for callers that walk the set in order.
    pub fn versions(&self) -> (r: &Vec<ApiVersion>)
        ensures
            r@ == self@,
    {
        &self.versions
    }
}

/// The core API versions one peer, or the client, supports.
#[derive(Clone, Debug)]
pub struct SupportedCoreApiVersions {
    pub core_consensus: CoreConsensusVersion,
    pub api: MultiApiVersion,
}

impl SupportedCoreApiVersions {
    pub open spec fn wf(&self) -> bool {
        self.api.wf()
    }

    /// The minor served for this API major, gated on the consensus major.
    pub open spec fn spec_get_minor(
        &self,
        consensus: CoreConsensusVersion,
        api_major: u32,
    ) -> Option<u32> {
        if self.core_consensus.major != consensus.major {
            None
        } else {
            spec_minor_for(self.api@, api_major)
        }
    }

    /// The minor served for this API major, or nothing where the consensus
    /// major differs or the major is not offered.
    pub fn get_minor_api_version(
        &self,
        core_consensus: CoreConsensusVersion,
        api_major: u32,
    ) -> (r: Option<u32>)
        requires
            self.wf(),
        ensures
            r == self.spec_get_minor(core_consensus, api_major),
    {
        if self.core_consensus.major != core_consensus.major {
            None
        } else {
            self.api.get_minor(api_major)
        }
    }
}

/// The API versions one peer, or the client, supports for one module.
#[derive(Clone, Debug)]
pub struct SupportedModuleApiVersions {
    pub core_consensus: CoreConsensusVersion,
    pub module_consensus: ModuleConsensusVersion,
    pub api: MultiApiVersion,
}

impl SupportedModuleApiVersions {
    pub open spec fn wf(&self) -> bool {
        self.api.wf()
    }

    /// Build from plain version pairs.
    pub fn from_raw(core: (u32, u32), module: (u32, u32), api_versions: Vec<(u32, u32)>) -> (r:
        Result<Self, ApiVersion>)
        ensures
            match r {
                Ok(s) => {
                    &&& s.wf()
                    &&& s.core_consensus.major == core.0 && s.core_consensus.minor == core.1
                    &&& s.module_consensus.major == module.0 && s.module_consensus.minor
                        == module.1
                    &&& s.api@.len() == api_versions@.len()
                    &&& forall|i: int|
                        0 <= i < api_versions@.len() ==> (#[trigger] s.api@[i]).major
                            == api_versions@[i].0 && s.api@[i].minor == api_versions@[i].1
                },
                Err(_) => exists|i: int, j: int|
                    0 <= i < j < api_versions@.len() && (#[trigger] api_versions@[i]).0 == (
                    #[trigger] api_versions@[j]).0,
            },
    {
        let mut versions: Vec<ApiVersion> = Vec::new();
        let mut i: usize = 0;
        while i < api_versions.len()
            invariant
                i <= api_versions@.len(),
                versions@.len() == i,
                forall|j: int|
                    0 <= j < i ==> (#[trigger] versions@[j]).major == api_versions@[j].0
                        && versions@[j].minor == api_versions@[j].1,
            decreases api_versions@.len() - i,
        {
            versions.push(ApiVersion { major: api_versions[i].0, minor: api_versions[i].1 });
            i = i + 1;
        }
        let ghost vs = versions@;
        match MultiApiVersion::try_from_iter(versions) {
            Ok(api) => Ok(
                SupportedModuleApiVersions {
                    core_consensus: CoreConsensusVersion { major: core.0, minor: core.1 },
                    module_consensus: ModuleConsensusVersion { major: module.0, minor: module.1 },
                    api,
                },
            ),
            Err(v) => {
                proof {
                    let i = choose|i: int, j: int|
                        0 <= i < j < vs.len() && (#[trigger] vs[i]).major == (
                        #[trigger] vs[j]).major;
                }
                Err(v)
            },
        }
    }

    /// The minor served for this API major, gated on the consensus majors of
    /// the core and of the module.
    pub open spec fn spec_get_minor(
        &self,
        core: CoreConsensusVersion,
        module: ModuleConsensusVersion,
        api_major: u32,
    ) -> Option<u32> {
        if self.core_consensus.major != core.major || self.module_consensus.major
            != module.major {
            None
        } else {
            spec_minor_for(self.api@, api_major)
        }
    }

    /// The minor served for this API major, or nothing where a consensus
    /// major differs or the major is not offered.
    pub fn get_minor_api_version(
        &self,
        core: CoreConsensusVersion,
        module: ModuleConsensusVersion,
        api_major: u32,
    ) -> (r: Option<u32>)
        requires
            self.wf(),
        ensures
            r == self.spec_get_minor(core, module, api_major),
    {
        if self.core_consensus.major != core.major || self.module_consensus.major != module.major {
            None
        } else {
            self.api.get_minor(api_major)
        }
    }
}

/// One more than any u32 minor: the minimum over an empty set of peers.
pub open spec fn no_minor() -> int {
    0x1_0000_0000
}

/// A peer serves the client version `cav` under this consensus version.
pub open spec fn core_compat(
    v: SupportedCoreApiVersions,
    consensus: CoreConsensusVersion,
    cav: ApiVersion,
) -> bool {
    match v.spec_get_minor(consensus, cav.major) {
        Some(m) => cav.minor <= m,
        None => false,
    }
}

/// How many peers serve the client version `cav`.
pub open spec fn core_compat_count(
    peers: Seq<(PeerId, SupportedCoreApiVersions)>,
    consensus: CoreConsensusVersion,
    cav: ApiVersion,
) -> nat
    decreases peers.len(),
{
    if peers.len() == 0 {
        0
    } else {
        core_compat_count(peers.drop_last(), consensus, cav) + if core_compat(
            peers.last().1,
            consensus,
            cav,
        ) {
            1nat
        } else {
            0nat
        }
    }
}

/// The least minor among the peers that serve `cav`.
pub open spec fn core_min_minor(
    peers: Seq<(PeerId, SupportedCoreApiVersions)>,
    consensus: CoreConsensusVersion,
    cav: ApiVersion,
) -> int
    decreases peers.len(),
{
    if peers.len() == 0 {
        no_minor()
    } else {
        let rest = core_min_minor(peers.drop_last(), consensus, cav);
        match peers.last().1.spec_get_minor(consensus, cav.major) {
            Some(m) => if cav.minor <= m && (m as int) < rest {
                m as int
            } else {
                rest
            },
            None => rest,
        }
    }
}

proof fn lemma_core_min_bound(
    peers: Seq<(PeerId, SupportedCoreApiVersions)>,
    consensus: CoreConsensusVersion,
    cav: ApiVersion,
)
    ensures
        core_compat_count(peers, consensus, cav) == 0 ==> core_min_minor(peers, consensus, cav)
            == no_minor(),
        core_compat_count(peers, consensus, cav) >= 1 ==> cav.minor <= core_min_minor(
            peers,
            consensus,
            cav,
        ) < no_minor(),
    decreases peers.len(),
{
    if peers.len() > 0 {
        lemma_core_min_bound(peers.drop_last(), consensus, cav);
    }
}

/// Position `i` of the client's list is the one the discovery rules pick:
/// at least one peer serves it, no entry is served by more peers, and every
/// earlier entry is served by strictly fewer.
pub open spec fn core_best_index(
    client: SupportedCoreApiVersions,
    peers: Seq<(PeerId, SupportedCoreApiVersions)>,
    i: int,
) -> bool {
    &&& 0 <= i < client.api@.len()
    &&& core_compat_count(peers, client.core_consensus, client.api@[i]) >= 1
    &&& forall|j: int|
        0 <= j < client.api@.len() ==> core_compat_count(
            peers,
            client.core_consensus,
            #[trigger] client.api@[j],
        ) <= core_compat_count(peers, client.core_consensus, client.api@[i])
    &&& forall|j: int|
        0 <= j < i ==> core_compat_count(peers, client.core_consensus, #[trigger] client.api@[j])
            < core_compat_count(peers, client.core_consensus, client.api@[i])
}

/// `v` is the version the discovery rules produce: the major of the first
/// client entry served by the most peers, with the least minor any serving
/// peer offers for it.
pub open spec fn core_version_choice(
    client: SupportedCoreApiVersions,
    peers: Seq<(PeerId, SupportedCoreApiVersions)>,
    v: ApiVersion,
) -> bool {
    exists|i: int|
        {
            &&& #[trigger] core_best_index(client, peers, i)
            &&& v.major == client.api@[i].major
            &&& v.minor == core_min_minor(peers, client.core_consensus, client.api@[i])
        }
}

/// No client entry is served by any peer.
pub open spec fn no_core_version(
    client: SupportedCoreApiVersions,
    peers: Seq<(PeerId, SupportedCoreApiVersions)>,
) -> bool {
    forall|i: int|
        0 <= i < client.api@.len() ==> core_compat_count(
            peers,
            client.core_consensus,
            #[trigger] client.api@[i],
        ) == 0
}

/// Find the core API version to speak with the federation: the client major
/// that the most peers serve, with ties to the major the client listed
/// first, at the least minor the serving peers agree on.
pub fn discover_common_core_api_version(
    client_versions: &SupportedCoreApiVersions,
    peer_versions: PeerMap<SupportedCoreApiVersions>,
) -> (r: Option<ApiVersion>)
    requires
        client_versions.wf(),
        forall|i: int|
            0 <= i < peer_versions.entries_seq().len() ==> (#[trigger] peer_versions.entries_seq()[i]).1.wf(),
    ensures
        match r {
            Some(v) => core_version_choice(*client_versions, peer_versions.entries_seq(), v),
            None => no_core_version(*client_versions, peer_versions.entries_seq()),
        },
{
    let ghost peers = peer_versions.entries_seq();
    let ghost consensus = client_versions.core_consensus;
    let entries = peer_versions.entries();
    let client_api = client_versions.api.versions();
    let mut best: Option<usize> = None;
    let mut best_num: usize = 0;
    let mut i: usize = 0;
    while i < client_api.len()
        invariant
            client_api@ == client_versions.api@,
            entries@ == peers,
            consensus == client_versions.core_consensus,
            forall|k: int| 0 <= k < peers.len() ==> (#[trigger] peers[k]).1.wf(),
            i <= client_api@.len(),
            match best {
                Some(b) => {
                    &&& b < i
                    &&& best_num == core_compat_count(peers, consensus, client_api@[b as int])
                    &&& best_num >= 1
                    &&& forall|j: int|
                        0 <= j < i ==> core_compat_count(
                            peers,
                            consensus,
                            #[trigger] client_api@[j],
                        ) <= best_num
                    &&& forall|j: int|
                        0 <= j < b ==> core_compat_count(
                            peers,
                            consensus,
                            #[trigger] client_api@[j],
                        ) < best_num
                },
                None => {
                    &&& best_num == 0
                    &&& forall|j: int|
                        0 <= j < i ==> core_compat_count(
                            peers,
                            consensus,
                            #[trigger] client_api@[j],
                        ) == 0
                },
            },
        decreases client_api@.len() - i,
    {
        let cav = client_api[i];
        let mut c: usize = 0;
        let mut k: usize = 0;
        while k < entries.len()
            invariant
                client_api@ == client_versions.api@,
                entries@ == peers,
                consensus == client_versions.core_consensus,
                forall|t: int| 0 <= t < peers.len() ==> (#[trigger] peers[t]).1.wf(),
                i < client_api@.len(),
                cav == client_api@[i as int],
                k <= peers.len(),
                c <= k,
                c == core_compat_count(peers.take(k as int), consensus, cav),
            decreases peers.len() - k,
        {
            let compatible = match entries[k].1.get_minor_api_version(
                client_versions.core_consensus,
                cav.major,
            ) {
                Some(m) => cav.minor <= m,
                None => false,
            };
            proof {
                let t = peers.take(k as int + 1);
                assert(t.drop_last() =~= peers.take(k as int));
                assert(t.last() == peers[k as int]);
            }
            if compatible {
                c = c + 1;
            }
            k = k + 1;
        }
        proof {
            assert(peers.take(peers.len() as int) =~= peers);
        }
        if best_num < c {
            best = Some(i);
            best_num = c;
        }
        i = i + 1;
    }
    match best {
        None => None,
        Some(b) => {
            let cav = client_api[b];
            proof {
                lemma_core_min_bound(peers, consensus, cav);
            }
            let mut least: Option<u32> = None;
            let mut k: usize = 0;
            while k < entries.len()
                invariant
                    client_api@ == client_versions.api@,
                    entries@ == peers,
                    consensus == client_versions.core_consensus,
                    forall|t: int| 0 <= t < peers.len() ==> (#[trigger] peers[t]).1.wf(),
                    b < client_api@.len(),
                    cav == client_api@[b as int],
                    k <= peers.len(),
                    match least {
                        Some(x) => x as int == core_min_minor(peers.take(k as int), consensus, cav)
                            && cav.minor <= x,
                        None => core_min_minor(peers.take(k as int), consensus, cav) == no_minor(),
                    },
                decreases peers.len() - k,
            {
                let found = entries[k].1.get_minor_api_version(
                    client_versions.core_consensus,
                    cav.major,
                );
                proof {
                    let t = peers.take(k as int + 1);
                    assert(t.drop_last() =~= peers.take(k as int));
                    assert(t.last() == peers[k as int]);
                }
                match found {
                    Some(m) => {
                        if cav.minor <= m {
                            least = match least {
                                Some(x) => if m < x {
                                    Some(m)
                                } else {
                                    Some(x)
                                },
                                None => Some(m),
                            };
                        }
                    },
                    None => {},
                }
                k = k + 1;
            }
            proof {
                assert(peers.take(peers.len() as int) =~= peers);
            }
            match least {
                Some(minor) => {
                    proof {
                        assert(core_best_index(*client_versions, peers, b as int));
                        let v = ApiVersion { major: cav.major, minor };
                        assert(core_version_choice(*client_versions, peers, v)) by {
                            assert(core_best_index(*client_versions, peers, b as int));
                        }
                    }
                    Some(ApiVersion { major: cav.major, minor })
                },
                None => {
                    proof {
                        assert(core_compat_count(peers, consensus, cav) >= 1);
                        assert(core_min_minor(peers, consensus, cav) == no_minor());
                        assert(false);
                    }
                    None
                },
            }
        },
    }
}


/// The consensus versions and version list of one module's support entry,
/// as plain abstract data.
pub open spec fn smav_view(v: SupportedModuleApiVersions) -> (
    CoreConsensusVersion,
    ModuleConsensusVersion,
    Seq<ApiVersion>,
) {
    (v.core_consensus, v.module_consensus, v.api@)
}

/// The abstract views of a whole peer map of module support entries.
pub open spec fn smav_views(s: Seq<(PeerId, SupportedModuleApiVersions)>) -> Seq<
    (PeerId, (CoreConsensusVersion, ModuleConsensusVersion, Seq<ApiVersion>)),
> {
    s.map_values(|e: (PeerId, SupportedModuleApiVersions)| (e.0, smav_view(e.1)))
}

/// The minor a module support entry serves for this API major, gated on the
/// consensus majors of the core and of the module.
pub open spec fn smav_minor(
    v: (CoreConsensusVersion, ModuleConsensusVersion, Seq<ApiVersion>),
    core: CoreConsensusVersion,
    module: ModuleConsensusVersion,
    api_major: u32,
) -> Option<u32> {
    if v.0.major != core.major || v.1.major != module.major {
        None
    } else {
        spec_minor_for(v.2, api_major)
    }
}

/// A peer serves the client version `cav` for a module.
pub open spec fn module_compat(
    v: (CoreConsensusVersion, ModuleConsensusVersion, Seq<ApiVersion>),
    core: CoreConsensusVersion,
    module: ModuleConsensusVersion,
    cav: ApiVersion,
) -> bool {
    match smav_minor(v, core, module, cav.major) {
        Some(m) => cav.minor <= m,
        None => false,
    }
}

/// How many peers serve the client version `cav` for a module.
pub open spec fn module_compat_count(
    peers: Seq<(PeerId, (CoreConsensusVersion, ModuleConsensusVersion, Seq<ApiVersion>))>,
    core: CoreConsensusVersion,
    module: ModuleConsensusVersion,
    cav: ApiVersion,
) -> nat
    decreases peers.len(),
{
    if peers.len() == 0 {
        0
    } else {
        module_compat_count(peers.drop_last(), core, module, cav) + if module_compat(
            peers.last().1,
            core,
            module,
            cav,
        ) {
            1nat
        } else {
            0nat
        }
    }
}

/// The least minor among the peers that serve `cav` for a module.
pub open spec fn module_min_minor(
    peers: Seq<(PeerId, (CoreConsensusVersion, ModuleConsensusVersion, Seq<ApiVersion>))>,
    core: CoreConsensusVersion,
    module: ModuleConsensusVersion,
    cav: ApiVersion,
) -> int
    decreases peers.len(),
{
    if peers.len() == 0 {
        no_minor()
    } else {
        let rest = module_min_minor(peers.drop_last(), core, module, cav);
        match smav_minor(peers.last().1, core, module, cav.major) {
            Some(m) => if cav.minor <= m && (m as int) < rest {
                m as int
            } else {
                rest
            },
            None => rest,
        }
    }
}

proof fn lemma_module_min_bound(
    peers: Seq<(PeerId, (CoreConsensusVersion, ModuleConsensusVersion, Seq<ApiVersion>))>,
    core: CoreConsensusVersion,
    module: ModuleConsensusVersion,
    cav: ApiVersion,
)
    ensures
        module_compat_count(peers, core, module, cav) == 0 ==> module_min_minor(
            peers,
            core,
            module,
            cav,
        ) == no_minor(),
        module_compat_count(peers, core, module, cav) >= 1 ==> cav.minor <= module_min_minor(
            peers,
            core,
            module,
            cav,
        ) < no_minor(),
    decreases peers.len(),
{
    if peers.len() > 0 {
        lemma_module_min_bound(peers.drop_last(), core, module, cav);
    }
}

/// Position `i` of the client's module version list is the one picked: at
/// least one peer serves it, no entry is served by more peers, and every
/// earlier entry is served by strictly fewer.
pub open spec fn module_best_index(
    client: SupportedModuleApiVersions,
    peers: Seq<(PeerId, (CoreConsensusVersion, ModuleConsensusVersion, Seq<ApiVersion>))>,
    i: int,
) -> bool {
    let core = client.core_consensus;
    let module = client.module_consensus;
    &&& 0 <= i < client.api@.len()
    &&& module_compat_count(peers, core, module, client.api@[i]) >= 1
    &&& forall|j: int|
        0 <= j < client.api@.len() ==> module_compat_count(
            peers,
            core,
            module,
            #[trigger] client.api@[j],
        ) <= module_compat_count(peers, core, module, client.api@[i])
    &&& forall|j: int|
        0 <= j < i ==> module_compat_count(peers, core, module, #[trigger] client.api@[j])
            < module_compat_count(peers, core, module, client.api@[i])
}

/// `v` is the module version the discovery rules produce.
pub open spec fn module_version_choice(
    client: SupportedModuleApiVersions,
    peers: Seq<(PeerId, (CoreConsensusVersion, ModuleConsensusVersion, Seq<ApiVersion>))>,
    v: ApiVersion,
) -> bool {
    exists|i: int|
        {
            &&& #[trigger] module_best_index(client, peers, i)
            &&& v.major == client.api@[i].major
            &&& v.minor == module_min_minor(
                peers,
                client.core_consensus,
                client.module_consensus,
                client.api@[i],
            )
        }
}

/// No client module version is served by any peer.
pub open spec fn no_module_version(
    client: SupportedModuleApiVersions,
    peers: Seq<(PeerId, (CoreConsensusVersion, ModuleConsensusVersion, Seq<ApiVersion>))>,
) -> bool {
    forall|i: int|
        0 <= i < client.api@.len() ==> module_compat_count(
            peers,
            client.core_consensus,
            client.module_consensus,
            #[trigger] client.api@[i],
        ) == 0
}

/// Find the API version to speak with the federation for one module, by the
/// same rules as for the core.
pub fn discover_common_module_api_version(
    client_versions: &SupportedModuleApiVersions,
    peer_versions: PeerMap<SupportedModuleApiVersions>,
) -> (r: Option<ApiVersion>)
    requires
        client_versions.wf(),
        forall|i: int|
            0 <= i < peer_versions.entries_seq().len() ==> (#[trigger] peer_versions.entries_seq()[i]).1.wf(),
    ensures
        match r {
            Some(v) => module_version_choice(
                *client_versions,
                smav_views(peer_versions.entries_seq()),
                v,
            ),
            None => no_module_version(*client_versions, smav_views(peer_versions.entries_seq())),
        },
{
    let ghost peers = smav_views(peer_versions.entries_seq());
    let ghost core = client_versions.core_consensus;
    let ghost module = client_versions.module_consensus;
    let entries = peer_versions.entries();
    let client_api = client_versions.api.versions();
    proof {
        assert(peers.len() == entries@.len());
    }
    let mut best: Option<usize> = None;
    let mut best_num: usize = 0;
    let mut i: usize = 0;
    while i < client_api.len()
        invariant
            client_api@ == client_versions.api@,
            entries@ == peer_versions.entries_seq(),
            peers == smav_views(peer_versions.entries_seq()),
            peers.len() == entries@.len(),
            core == client_versions.core_consensus,
            module == client_versions.module_consensus,
            forall|t: int| 0 <= t < entries@.len() ==> (#[trigger] entries@[t]).1.wf(),
            forall|t: int|
                0 <= t < entries@.len() ==> #[trigger] peers[t] == (
                    entries@[t].0,
                    smav_view(entries@[t].1),
                ),
            i <= client_api@.len(),
            match best {
                Some(b) => {
                    &&& b < i
                    &&& best_num == module_compat_count(peers, core, module, client_api@[b as int])
                    &&& best_num >= 1
                    &&& forall|j: int|
                        0 <= j < i ==> module_compat_count(
                            peers,
                            core,
                            module,
                            #[trigger] client_api@[j],
                        ) <= best_num
                    &&& forall|j: int|
                        0 <= j < b ==> module_compat_count(
                            peers,
                            core,
                            module,
                            #[trigger] client_api@[j],
                        ) < best_num
                },
                None => {
                    &&& best_num == 0
                    &&& forall|j: int|
                        0 <= j < i ==> module_compat_count(
                            peers,
                            core,
                            module,
                            #[trigger] client_api@[j],
                        ) == 0
                },
            },
        decreases client_api@.len() - i,
    {
        let cav = client_api[i];
        let mut c: usize = 0;
        let mut k: usize = 0;
        while k < entries.len()
            invariant
                client_api@ == client_versions.api@,
                entries@ == peer_versions.entries_seq(),
                peers.len() == entries@.len(),
                core == client_versions.core_consensus,
                module == client_versions.module_consensus,
                forall|t: int| 0 <= t < entries@.len() ==> (#[trigger] entries@[t]).1.wf(),
                forall|t: int|
                    0 <= t < entries@.len() ==> #[trigger] peers[t] == (
                        entries@[t].0,
                        smav_view(entries@[t].1),
                    ),
                i < client_api@.len(),
                cav == client_api@[i as int],
                k <= entries@.len(),
                c <= k,
                c == module_compat_count(peers.take(k as int), core, module, cav),
            decreases entries@.len() - k,
        {
            let compatible = match entries[k].1.get_minor_api_version(
                client_versions.core_consensus,
                client_versions.module_consensus,
                cav.major,
            ) {
                Some(m) => cav.minor <= m,
                None => false,
            };
            proof {
                let t = peers.take(k as int + 1);
                assert(t.drop_last() =~= peers.take(k as int));
                assert(t.last() == peers[k as int]);
                assert(compatible == module_compat(peers[k as int].1, core, module, cav));
            }
            if compatible {
                c = c + 1;
            }
            k = k + 1;
        }
        proof {
            assert(peers.take(peers.len() as int) =~= peers);
        }
        if best_num < c {
            best = Some(i);
            best_num = c;
        }
        i = i + 1;
    }
    match best {
        None => None,
        Some(b) => {
            let cav = client_api[b];
            proof {
                lemma_module_min_bound(peers, core, module, cav);
            }
            let mut least: Option<u32> = None;
            let mut k: usize = 0;
            while k < entries.len()
                invariant
                    client_api@ == client_versions.api@,
                    entries@ == peer_versions.entries_seq(),
                    peers.len() == entries@.len(),
                    core == client_versions.core_consensus,
                    module == client_versions.module_consensus,
                    forall|t: int| 0 <= t < entries@.len() ==> (#[trigger] entries@[t]).1.wf(),
                    forall|t: int|
                        0 <= t < entries@.len() ==> #[trigger] peers[t] == (
                            entries@[t].0,
                            smav_view(entries@[t].1),
                        ),
                    b < client_api@.len(),
                    cav == client_api@[b as int],
                    k <= entries@.len(),
                    match least {
                        Some(x) => x as int == module_min_minor(
                            peers.take(k as int),
                            core,
                            module,
                            cav,
                        ) && cav.minor <= x,
                        None => module_min_minor(peers.take(k as int), core, module, cav)
                            == no_minor(),
                    },
                decreases entries@.len() - k,
            {
                let found = entries[k].1.get_minor_api_version(
                    client_versions.core_consensus,
                    client_versions.module_consensus,
                    cav.major,
                );
                proof {
                    let t = peers.take(k as int + 1);
                    assert(t.drop_last() =~= peers.take(k as int));
                    assert(t.last() == peers[k as int]);
                    assert(found == smav_minor(peers[k as int].1, core, module, cav.major));
                }
                match found {
                    Some(m) => {
                        if cav.minor <= m {
                            least = match least {
                                Some(x) => if m < x {
                                    Some(m)
                                } else {
                                    Some(x)
                                },
                                None => Some(m),
                            };
                        }
                    },
                    None => {},
                }
                k = k + 1;
            }
            proof {
                assert(peers.take(peers.len() as int) =~= peers);
            }
            match least {
                Some(minor) => {
                    proof {
                        assert(module_best_index(*client_versions, peers, b as int));
                    }
                    Some(ApiVersion { major: cav.major, minor })
                },
                None => {
                    proof {
                        assert(module_compat_count(peers, core, module, cav) >= 1);
                        assert(false);
                    }
                    None
                },
            }
        },
    }
}

/// Whether a module list carries an entry for this instance id.
pub open spec fn mhas_key<V>(s: Seq<(u16, V)>, k: u16) -> bool {
    exists|i: int| 0 <= i < s.len() && (#[trigger] s[i]).0 == k
}

/// The position of the entry for this instance id.
pub open spec fn mkey_index<V>(s: Seq<(u16, V)>, k: u16) -> int {
    choose|i: int| 0 <= i < s.len() && (#[trigger] s[i]).0 == k
}

/// The value listed for this instance id.
pub open spec fn mvalue<V>(s: Seq<(u16, V)>, k: u16) -> V {
    s[mkey_index(s, k)].1
}

/// Instance ids are pairwise distinct.
pub open spec fn mdistinct<V>(s: Seq<(u16, V)>) -> bool {
    forall|i: int, j: int|
        0 <= i < j < s.len() ==> (#[trigger] s[i]).0 != (#[trigger] s[j]).0
}

/// Look an instance id up in a module list.
fn module_entry_get<'a>(entries: &'a Vec<(u16, SupportedModuleApiVersions)>, id: u16) -> (r:
    Option<&'a SupportedModuleApiVersions>)
    requires
        mdistinct(entries@),
    ensures
        match r {
            Some(v) => mhas_key(entries@, id) && *v == mvalue(entries@, id),
            None => !mhas_key(entries@, id),
        },
{
    let mut i: usize = 0;
    while i < entries.len()
        invariant
            mdistinct(entries@),
            i <= entries@.len(),
            forall|j: int| 0 <= j < i ==> (#[trigger] entries@[j]).0 != id,
        decreases entries@.len() - i,
    {
        if entries[i].0 == id {
            proof {
                assert(mhas_key(entries@, id)) by {
                    assert(entries@[i as int].0 == id);
                }
                let k = mkey_index(entries@, id);
                assert(0 <= k < entries@.len() && entries@[k].0 == id);
                if k != i as int {
                    assert(entries@[i as int].0 != entries@[k].0);
                }
            }
            return Some(&entries[i].1);
        }
        i = i + 1;
    }
    None
}

impl MultiApiVersion {
    /// An equal copy of the version list.
    pub fn duplicate(&self) -> (r: Self)
        ensures
            r@ == self@,
    {
        let mut versions: Vec<ApiVersion> = Vec::new();
        let mut i: usize = 0;
        while i < self.versions.len()
            invariant
                i <= self@.len(),
                versions@ =~= self@.take(i as int),
            decreases self@.len() - i,
        {
            versions.push(self.versions[i]);
            proof {
                assert(versions@ =~= self@.take(i as int + 1));
            }
            i = i + 1;
        }
        proof {
            assert(self@.take(self@.len() as int) =~= self@);
        }
        MultiApiVersion { versions }
    }
}

impl SupportedModuleApiVersions {
    /// A copy carrying the same versions.
    pub fn duplicate(&self) -> (r: Self)
        ensures
            r.core_consensus == self.core_consensus,
            r.module_consensus == self.module_consensus,
            r.api@ == self.api@,
            smav_view(r) == smav_view(*self),
    {
        SupportedModuleApiVersions {
            core_consensus: self.core_consensus,
            module_consensus: self.module_consensus,
            api: self.api.duplicate(),
        }
    }
}

/// What one peer reports of itself: its core API versions and, per module
/// instance, the module's API versions.
#[derive(Clone, Debug)]
pub struct SupportedApiVersionsSummary {
    pub core: SupportedCoreApiVersions,
    pub modules: Vec<(u16, SupportedModuleApiVersions)>,
}

impl SupportedApiVersionsSummary {
    pub open spec fn wf(&self) -> bool {
        &&& self.core.wf()
        &&& mdistinct(self.modules@)
        &&& forall|i: int| 0 <= i < self.modules@.len() ==> (#[trigger] self.modules@[i]).1.wf()
    }
}

/// The version agreement discovery produces: one core API version and one
/// per module instance that has any version in common.
#[derive(Clone, Debug)]
pub struct ApiVersionSet {
    pub core: ApiVersion,
    pub modules: Vec<(u16, ApiVersion)>,
}

/// The peers' core support entries, in peer order.
pub open spec fn project_core(peers: Seq<(PeerId, SupportedApiVersionsSummary)>) -> Seq<
    (PeerId, SupportedCoreApiVersions),
> {
    peers.map_values(|e: (PeerId, SupportedApiVersionsSummary)| (e.0, e.1.core))
}

/// The views of the support entries of one module instance, over the peers
/// that report it, in peer order.
pub open spec fn project_module_views(
    peers: Seq<(PeerId, SupportedApiVersionsSummary)>,
    id: u16,
) -> Seq<(PeerId, (CoreConsensusVersion, ModuleConsensusVersion, Seq<ApiVersion>))>
    decreases peers.len(),
{
    if peers.len() == 0 {
        Seq::empty()
    } else {
        let rest = project_module_views(peers.drop_last(), id);
        if mhas_key(peers.last().1.modules@, id) {
            rest.push((peers.last().0, smav_view(mvalue(peers.last().1.modules@, id))))
        } else {
            rest
        }
    }
}

/// `s` is the version set the discovery rules produce for this client and
/// these peer reports.
pub open spec fn api_version_set_choice(
    client: SupportedApiVersionsSummary,
    peers: Seq<(PeerId, SupportedApiVersionsSummary)>,
    s: ApiVersionSet,
) -> bool {
    &&& core_version_choice(client.core, project_core(peers), s.core)
    &&& mdistinct(s.modules@)
    &&& forall|i: int|
        0 <= i < s.modules@.len() ==> mhas_key(client.modules@, (#[trigger] s.modules@[i]).0)
            && module_version_choice(
            mvalue(client.modules@, s.modules@[i].0),
            project_module_views(peers, s.modules@[i].0),
            s.modules@[i].1,
        )
    &&& forall|j: int|
        0 <= j < client.modules@.len() ==> (mhas_key(
            s.modules@,
            (#[trigger] client.modules@[j]).0,
        ) <==> !no_module_version(
            client.modules@[j].1,
            project_module_views(peers, client.modules@[j].0),
        ))
}

/// No core API version is common to the client and any peer.
pub open spec fn no_api_version_set(
    client: SupportedApiVersionsSummary,
    peers: Seq<(PeerId, SupportedApiVersionsSummary)>,
) -> bool {
    no_core_version(client.core, project_core(peers))
}

/// Combine the peers' version reports into the version set to use: the core
/// version by the core rules, and per module instance the module rules,
/// skipping instances with no common version.  Failure only where no common
/// core API version exists.
pub fn discover_common_api_versions_set(
    client_versions: &SupportedApiVersionsSummary,
    peer_versions: PeerMap<SupportedApiVersionsSummary>,
) -> (r: Result<ApiVersionSet, String>)
    requires
        client_versions.wf(),
        peer_versions.wf(),
        forall|i: int|
            0 <= i < peer_versions.entries_seq().len() ==> (#[trigger] peer_versions.entries_seq()[i]).1.wf(),
    ensures
        match r {
            Ok(s) => api_version_set_choice(*client_versions, peer_versions.entries_seq(), s),
            Err(m) => no_api_version_set(*client_versions, peer_versions.entries_seq()) && m@
                == "could not find a common core API version"@,
        },
{
    let ghost orig = peer_versions.entries_seq();
    let mut rest = peer_versions.into_entries();
    let mut core_peers: PeerMap<SupportedCoreApiVersions> = PeerMap::new();
    let mut mods: Vec<(PeerId, Vec<(u16, SupportedModuleApiVersions)>)> = Vec::new();
    while rest.len() > 0
        invariant
            crate::collections::distinct_keys(orig),
            forall|t: int| 0 <= t < orig.len() ==> (#[trigger] orig[t]).1.wf(),
            mods@.len() + rest@.len() == orig.len(),
            rest@ =~= orig.skip(mods@.len() as int),
            core_peers.wf(),
            core_peers.entries_seq() == project_core(orig.take(mods@.len() as int)),
            forall|t: int|
                0 <= t < mods@.len() ==> (#[trigger] mods@[t]).0 == orig[t].0 && mods@[t].1@
                    == orig[t].1.modules@,
        decreases rest@.len(),
    {
        let ghost k = mods@.len() as int;
        let e = rest.remove(0);
        proof {
            assert(e == orig[k]);
            assert(rest@ =~= orig.skip(k + 1));
            assert(core_peers.entries_seq().len() == k) by {
                assert(project_core(orig.take(k)).len() == orig.take(k).len());
            }
            assert(!core_peers@.contains_key(e.0)) by {
                crate::collections::lemma_seq_to_map_domain(core_peers.entries_seq(), e.0);
                assert forall|t: int|
                    0 <= t < core_peers.entries_seq().len() implies (
                #[trigger] core_peers.entries_seq()[t]).0 != e.0 by {
                    assert(core_peers.entries_seq()[t] == project_core(orig.take(k))[t]);
                    assert(core_peers.entries_seq()[t].0 == orig[t].0);
                    assert(orig[t].0 != orig[k].0);
                }
            }
        }
        core_peers.insert(e.0, e.1.core);
        mods.push((e.0, e.1.modules));
        proof {
            assert(core_peers.entries_seq() =~= project_core(orig.take(k + 1))) by {
                assert(orig.take(k + 1).drop_last() =~= orig.take(k));
                assert(project_core(orig.take(k + 1)).drop_last() =~= project_core(orig.take(k)));
                assert(project_core(orig.take(k + 1)).last() == (orig[k].0, orig[k].1.core));
            }
        }
    }
    proof {
        assert(orig.take(orig.len() as int) =~= orig);
    }
    let core = match discover_common_core_api_version(&client_versions.core, core_peers) {
        Some(v) => v,
        None => {
            let mut m = String::new();
            m.append("could not find a common core API version");
            return Err(m);
        },
    };
    let client_mods = &client_versions.modules;
    let mut out_mods: Vec<(u16, ApiVersion)> = Vec::new();
    let mut ci: usize = 0;
    while ci < client_mods.len()
        invariant
            client_mods@ == client_versions.modules@,
            client_versions.wf(),
            crate::collections::distinct_keys(orig),
            forall|t: int| 0 <= t < orig.len() ==> (#[trigger] orig[t]).1.wf(),
            mods@.len() == orig.len(),
            forall|t: int|
                0 <= t < mods@.len() ==> (#[trigger] mods@[t]).0 == orig[t].0 && mods@[t].1@
                    == orig[t].1.modules@,
            ci <= client_mods@.len(),
            mdistinct(out_mods@),
            forall|t: int|
                0 <= t < out_mods@.len() ==> exists|j: int|
                    0 <= j < ci && (#[trigger] out_mods@[t]).0 == client_mods@[j].0,
            forall|t: int|
                0 <= t < out_mods@.len() ==> mhas_key(
                    client_versions.modules@,
                    (#[trigger] out_mods@[t]).0,
                ) && module_version_choice(
                    mvalue(client_versions.modules@, out_mods@[t].0),
                    project_module_views(orig, out_mods@[t].0),
                    out_mods@[t].1,
                ),
            forall|j: int|
                0 <= j < ci ==> (mhas_key(out_mods@, (#[trigger] client_mods@[j]).0)
                    <==> !no_module_version(
                    client_mods@[j].1,
                    project_module_views(orig, client_mods@[j].0),
                )),
        decreases client_mods@.len() - ci,
    {
        let id = client_mods[ci].0;
        let mut mp: PeerMap<SupportedModuleApiVersions> = PeerMap::new();
        let mut p: usize = 0;
        while p < mods.len()
            invariant
                crate::collections::distinct_keys(orig),
                forall|t: int| 0 <= t < orig.len() ==> (#[trigger] orig[t]).1.wf(),
                mods@.len() == orig.len(),
                forall|t: int|
                    0 <= t < mods@.len() ==> (#[trigger] mods@[t]).0 == orig[t].0 && mods@[t].1@
                        == orig[t].1.modules@,
                p <= mods@.len(),
                mp.wf(),
                smav_views(mp.entries_seq()) =~= project_module_views(orig.take(p as int), id),
                forall|t: int|
                    0 <= t < mp.entries_seq().len() ==> exists|u: int|
                        0 <= u < p && (#[trigger] mp.entries_seq()[t]).0 == orig[u].0,
                forall|t: int|
                    0 <= t < mp.entries_seq().len() ==> (#[trigger] mp.entries_seq()[t]).1.wf(),
            decreases mods@.len() - p,
        {
            proof {
                assert(mdistinct(mods@[p as int].1@)) by {
                    assert(orig[p as int].1.wf());
                }
            }
            let found = module_entry_get(&mods[p].1, id);
            proof {
                assert(orig.take(p as int + 1).drop_last() =~= orig.take(p as int));
                assert(orig.take(p as int + 1).last() == orig[p as int]);
            }
            match found {
                Some(v) => {
                    let d = v.duplicate();
                    proof {
                        assert(!mp@.contains_key(mods@[p as int].0)) by {
                            crate::collections::lemma_seq_to_map_domain(
                                mp.entries_seq(),
                                mods@[p as int].0,
                            );
                            assert forall|t: int|
                                0 <= t < mp.entries_seq().len() implies (
                            #[trigger] mp.entries_seq()[t]).0 != mods@[p as int].0 by {
                                let u = choose|u: int|
                                    0 <= u < p && (#[trigger] mp.entries_seq()[t]).0 == orig[u].0;
                                assert(orig[u].0 != orig[p as int].0);
                            }
                        }
                        assert((*v).wf()) by {
                            assert(orig[p as int].1.wf());
                            assert(mhas_key(orig[p as int].1.modules@, id));
                            let w = mkey_index(orig[p as int].1.modules@, id);
                            assert(orig[p as int].1.modules@[w].1.wf());
                        }
                    }
                    let ghost mp_pre = mp.entries_seq();
                    mp.insert(mods[p].0, d);
                    proof {
                        assert(mp.entries_seq() == mp_pre.push((orig[p as int].0, d)));
                        assert(smav_views(mp.entries_seq()) =~= smav_views(mp_pre).push(
                            (orig[p as int].0, smav_view(d)),
                        ));
                        assert(smav_view(d) == smav_view(mvalue(orig[p as int].1.modules@, id)));
                        assert(smav_views(mp.entries_seq()) =~= project_module_views(
                            orig.take(p as int + 1),
                            id,
                        ));
                    }
                },
                None => {
                    proof {
                        assert(!mhas_key(orig[p as int].1.modules@, id));
                        assert(smav_views(mp.entries_seq()) =~= project_module_views(
                            orig.take(p as int + 1),
                            id,
                        ));
                    }
                },
            }
            p = p + 1;
        }
        proof {
            assert(orig.take(orig.len() as int) =~= orig);
            assert(client_mods@[ci as int].1.wf());
            assert(smav_views(mp.entries_seq()) == project_module_views(orig, id));
        }
        let found = discover_common_module_api_version(&client_mods[ci].1, mp);
        proof {
            assert(mvalue(client_versions.modules@, id) == client_mods@[ci as int].1) by {
                assert(mhas_key(client_versions.modules@, id)) by {
                    assert(client_versions.modules@[ci as int].0 == id);
                }
                let w = mkey_index(client_versions.modules@, id);
                if w != ci as int {
                    assert(client_versions.modules@[w].0 != client_versions.modules@[ci as int].0);
                }
            }
            assert(!mhas_key(out_mods@, id)) by {
                assert forall|t: int|
                    0 <= t < out_mods@.len() implies (#[trigger] out_mods@[t]).0 != id by {
                    let j = choose|j: int|
                        0 <= j < ci && (#[trigger] out_mods@[t]).0 == client_mods@[j].0;
                    assert(client_mods@[j].0 != client_mods@[ci as int].0);
                }
            }
        }
        match found {
            Some(v) => {
                let ghost out_pre = out_mods@;
                out_mods.push((id, v));
                proof {
                    assert(mdistinct(out_mods@)) by {
                        assert forall|a: int, b: int|
                            0 <= a < b < out_mods@.len() implies (#[trigger] out_mods@[a]).0 != (
                        #[trigger] out_mods@[b]).0 by {
                            if b == out_mods@.len() - 1 {
                                assert(out_mods@[a] == out_pre[a]);
                                assert(!mhas_key(out_pre, id));
                                assert(out_pre[a].0 != id);
                            }
                        }
                    }
                    assert(module_version_choice(
                        client_mods@[ci as int].1,
                        project_module_views(orig, id),
                        v,
                    ));
                    assert(!no_module_version(
                        client_mods@[ci as int].1,
                        project_module_views(orig, id),
                    )) by {
                        let cm = client_mods@[ci as int].1;
                        let bi = choose|i: int|
                            {
                                &&& #[trigger] module_best_index(
                                    cm,
                                    project_module_views(orig, id),
                                    i,
                                )
                                &&& v.major == cm.api@[i].major
                                &&& v.minor == module_min_minor(
                                    project_module_views(orig, id),
                                    cm.core_consensus,
                                    cm.module_consensus,
                                    cm.api@[i],
                                )
                            };
                        assert(module_compat_count(
                            project_module_views(orig, id),
                            cm.core_consensus,
                            cm.module_consensus,
                            cm.api@[bi],
                        ) >= 1);
                    }
                    assert(mhas_key(out_mods@, id)) by {
                        assert(out_mods@[out_mods@.len() - 1].0 == id);
                    }
                    assert forall|j: int|
                        0 <= j < ci implies mhas_key(out_mods@, (#[trigger] client_mods@[j]).0)
                        == mhas_key(out_pre, client_mods@[j].0) by {
                        let cj = client_mods@[j].0;
                        assert(cj != client_mods@[ci as int].0);
                        if mhas_key(out_pre, cj) {
                            let t = choose|t: int|
                                0 <= t < out_pre.len() && (#[trigger] out_pre[t]).0 == cj;
                            assert(out_mods@[t].0 == cj);
                        }
                        if mhas_key(out_mods@, cj) {
                            let t = choose|t: int|
                                0 <= t < out_mods@.len() && (#[trigger] out_mods@[t]).0 == cj;
                            if t < out_mods@.len() - 1 {
                                assert(out_pre[t].0 == cj);
                            }
                        }
                    }
                }
            },
            None => {
                proof {
                    assert(no_module_version(
                        client_mods@[ci as int].1,
                        project_module_views(orig, id),
                    ));
                }
            },
        }
        ci = ci + 1;
    }
    Ok(ApiVersionSet { core, modules: out_mods })
}

/// Query every guardian for its supported API versions until a deadline,
/// then reduce the reports to the best version set to use.
pub struct DiscoverApiVersionSet {
    inner: AllOrDeadline<SupportedApiVersionsSummary>,
    client_versions: SupportedApiVersionsSummary,
}

impl DiscoverApiVersionSet {
    /// The deadline collection underneath.
    pub closed spec fn inner_spec(&self) -> AllOrDeadline<SupportedApiVersionsSummary> {
        self.inner
    }

    /// The versions this client supports.
    pub closed spec fn client_spec(&self) -> SupportedApiVersionsSummary {
        self.client_versions
    }

    pub open spec fn wf(&self) -> bool {
        &&& self.inner_spec().wf()
        &&& self.client_spec().wf()
        &&& forall|i: int|
            0 <= i < self.inner_spec().responses_seq().len()
                ==> (#[trigger] self.inner_spec().responses_seq()[i]).1.wf()
    }

    pub fn new(
        num_peers: usize,
        deadline: u64,
        client_versions: SupportedApiVersionsSummary,
    ) -> (r: Self)
        requires
            client_versions.wf(),
        ensures
            r.wf(),
            r.client_spec() == client_versions,
            r.inner_spec().num_peers_spec() == num_peers,
            r.inner_spec().deadline_spec() == deadline,
            r.inner_spec().responses_seq() =~= Seq::<(PeerId, SupportedApiVersionsSummary)>::empty(),
    {
        DiscoverApiVersionSet { inner: AllOrDeadline::new(num_peers, deadline), client_versions }
    }

    /// How one event at wall-clock time `now` maps to the step: the deadline
    /// collection decides, and a full collection is reduced to a version
    /// set, or to a failure where no common core version exists.
    pub open spec fn step_at_ens(
        pre: Self,
        post: Self,
        peer: PeerId,
        result: PeerResult<SupportedApiVersionsSummary>,
        now: int,
        step: QueryStep<ApiVersionSet>,
    ) -> bool {
        &&& post.client_spec() == pre.client_spec()
        &&& exists|inner_step: QueryStep<PeerMap<SupportedApiVersionsSummary>>|
            {
                &&& #[trigger] AllOrDeadline::step_at_ens(
                    pre.inner_spec(),
                    post.inner_spec(),
                    peer,
                    result,
                    now,
                    inner_step,
                )
                &&& match inner_step {
                    QueryStep::Success(m) => match step {
                        QueryStep::Success(s) => api_version_set_choice(
                            pre.client_spec(),
                            m.entries_seq(),
                            s,
                        ),
                        QueryStep::Failure { general, peers } => {
                            &&& no_api_version_set(pre.client_spec(), m.entries_seq())
                            &&& general matches Some(g) && g@
                                == "could not find a common core API version"@
                            &&& peers@ =~= Map::<PeerId, PeerError>::empty()
                        },
                        _ => false,
                    },
                    QueryStep::Retry(ps) => step matches QueryStep::Retry(qs) && qs == ps,
                    QueryStep::Continue => step matches QueryStep::Continue,
                    QueryStep::Failure { .. } => false,
                }
            }
    }
}

impl QueryStrategy<SupportedApiVersionsSummary, ApiVersionSet> for DiscoverApiVersionSet {
    open spec fn process_req(
        pre: Self,
        peer: PeerId,
        result: PeerResult<SupportedApiVersionsSummary>,
    ) -> bool {
        &&& pre.wf()
        &&& result matches Ok(s) ==> s.wf() && !crate::collections::has_key(
            pre.inner_spec().responses_seq(),
            peer,
        )
    }

    open spec fn process_ens(
        pre: Self,
        post: Self,
        peer: PeerId,
        result: PeerResult<SupportedApiVersionsSummary>,
        step: QueryStep<ApiVersionSet>,
    ) -> bool {
        &&& post.wf()
        &&& exists|now: int| #[trigger] Self::step_at_ens(pre, post, peer, result, now, step)
    }

    /// The request timeout is the time left until the deadline, zero once
    /// it is past, and never absent, whatever the clock read.
    open spec fn timeout_ens(&self, t: Option<u64>) -> bool {
        exists|now: u64|
            t == Some(#[trigger] crate::query::spec_remaining_millis(
                self.inner_spec().deadline_spec() as u64,
                now,
            ))
    }

    /// The time left until the deadline, as this strategy's request timeout.
    fn request_timeout(&self) -> (t: Option<u64>) {
        let now = crate::time::now_unix_millis();
        let remaining = crate::query::remaining_millis(self.inner.deadline(), now);
        proof {
            assert(self.inner_spec().deadline_spec() as u64 == self.inner_spec().deadline_spec());
            assert(remaining == crate::query::spec_remaining_millis(
                self.inner_spec().deadline_spec() as u64,
                now,
            ));
        }
        Some(remaining)
    }

    fn process(&mut self, peer_id: PeerId, response: PeerResult<SupportedApiVersionsSummary>) -> (step:
        QueryStep<ApiVersionSet>) {
        let now = crate::time::now_unix_millis();
        let ghost pre = *self;
        let inner_step = self.inner.process_at(peer_id, response, now);
        let ghost ginner = inner_step;
        let step = match inner_step {
            QueryStep::Success(m) => {
                proof {
                    assert forall|i: int|
                        0 <= i < m.entries_seq().len() implies (#[trigger] m.entries_seq()[i]).1.wf() by {
                        let s1 = pre.inner_spec().responses_seq().push(
                            (peer_id, response->Ok_0),
                        );
                        if response is Ok {
                            assert(m.entries_seq() == s1);
                            if i < s1.len() - 1 {
                                assert(m.entries_seq()[i] == pre.inner_spec().responses_seq()[i]);
                            }
                        } else {
                            assert(m.entries_seq() == pre.inner_spec().responses_seq());
                        }
                    }
                }
                match discover_common_api_versions_set(&self.client_versions, m) {
                    Ok(o) => QueryStep::Success(o),
                    Err(e) => QueryStep::Failure { general: Some(e), peers: PeerMap::new() },
                }
            },
            QueryStep::Retry(v) => QueryStep::Retry(v),
            QueryStep::Continue => QueryStep::Continue,
            QueryStep::Failure { general, peers } => QueryStep::Failure { general, peers },
        };
        proof {
            assert(Self::step_at_ens(pre, *self, peer_id, response, now as int, step)) by {
                assert(AllOrDeadline::step_at_ens(
                    pre.inner_spec(),
                    self.inner_spec(),
                    peer_id,
                    response,
                    now as int,
                    ginner,
                ));
            }
        }
        step
    }
}

// The library's standing laws about version discovery.

proof fn lemma_compat_count_all(
    peers: Seq<(PeerId, SupportedCoreApiVersions)>,
    consensus: CoreConsensusVersion,
    cav: ApiVersion,
)
    requires
        forall|t: int| 0 <= t < peers.len() ==> core_compat((#[trigger] peers[t]).1, consensus, cav),
    ensures
        core_compat_count(peers, consensus, cav) == peers.len(),
    decreases peers.len(),
{
    if peers.len() > 0 {
        assert(core_compat(peers[peers.len() - 1].1, consensus, cav));
        lemma_compat_count_all(peers.drop_last(), consensus, cav);
    }
}

/// Version discovery cannot come back empty when every peer serves one of
/// the client's versions.
pub proof fn lemma_discovery_succeeds_when_served(
    client: SupportedCoreApiVersions,
    peers: Seq<(PeerId, SupportedCoreApiVersions)>,
    i: int,
)
    requires
        0 <= i < client.api@.len(),
        peers.len() >= 1,
        forall|t: int|
            0 <= t < peers.len() ==> core_compat(
                (#[trigger] peers[t]).1,
                client.core_consensus,
                client.api@[i],
            ),
    ensures
        !no_core_version(client, peers),
{
    lemma_compat_count_all(peers, client.core_consensus, client.api@[i]);
}

/// Version discovery monotonicity, for a client asking one version: where
/// every peer serves at least the client's `(major, minor)`, the result
/// keeps that major and never drops below that minor.
pub proof fn lemma_version_discovery_monotone(
    client: SupportedCoreApiVersions,
    peers: Seq<(PeerId, SupportedCoreApiVersions)>,
    v: ApiVersion,
)
    requires
        client.api@.len() == 1,
        peers.len() >= 1,
        forall|t: int|
            0 <= t < peers.len() ==> core_compat(
                (#[trigger] peers[t]).1,
                client.core_consensus,
                client.api@[0],
            ),
        core_version_choice(client, peers, v),
    ensures
        v.major == client.api@[0].major,
        client.api@[0].minor <= v.minor,
{
    let i = choose|i: int|
        {
            &&& #[trigger] core_best_index(client, peers, i)
            &&& v.major == client.api@[i].major
            &&& v.minor == core_min_minor(peers, client.core_consensus, client.api@[i])
        };
    assert(i == 0);
    lemma_compat_count_all(peers, client.core_consensus, client.api@[0]);
    lemma_core_min_bound(peers, client.core_consensus, client.api@[0]);
}


/// Whatever version discovery picks respects the client's own floor: the
/// result's major is one the client asked for, and the result's minor is
/// at least the minor the client asked for under that major.
pub proof fn lemma_choice_respects_client_minor(
    client: SupportedCoreApiVersions,
    peers: Seq<(PeerId, SupportedCoreApiVersions)>,
    v: ApiVersion,
)
    requires
        core_version_choice(client, peers, v),
    ensures
        exists|i: int|
            0 <= i < client.api@.len() && (#[trigger] client.api@[i]).major == v.major
                && client.api@[i].minor <= v.minor,
{
    let i = choose|i: int|
        {
            &&& #[trigger] core_best_index(client, peers, i)
            &&& v.major == client.api@[i].major
            &&& v.minor == core_min_minor(peers, client.core_consensus, client.api@[i])
        };
    lemma_core_min_bound(peers, client.core_consensus, client.api@[i]);
    assert(client.api@[i].major == v.major && client.api@[i].minor <= v.minor);
}

} // verus!
