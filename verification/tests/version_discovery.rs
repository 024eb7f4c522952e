use minimint::collections::PeerMap;
use minimint::peers::PeerId;
use minimint::version::{
    discover_common_api_versions_set, discover_common_core_api_version, ApiVersion,
    CoreConsensusVersion, MultiApiVersion, SupportedApiVersionsSummary, SupportedCoreApiVersions,
};

fn api(versions: Vec<(u32, u32)>) -> MultiApiVersion {
    let vs: Vec<ApiVersion> = versions
        .into_iter()
        .map(|(major, minor)| ApiVersion { major, minor })
        .collect();
    MultiApiVersion::try_from_iter(vs).unwrap()
}

fn core_versions(consensus: CoreConsensusVersion, versions: Vec<(u32, u32)>) -> SupportedCoreApiVersions {
    SupportedCoreApiVersions {
        core_consensus: consensus,
        api: api(versions),
    }
}

fn peer_map(entries: Vec<(u16, SupportedCoreApiVersions)>) -> PeerMap<SupportedCoreApiVersions> {
    let mut m = PeerMap::new();
    for (id, v) in entries {
        m.insert(PeerId(id), v);
    }
    m
}

#[test]
fn discover_common_core_api_version_sanity() {
    let core_consensus = CoreConsensusVersion::new(0, 0);
    let client_versions = SupportedCoreApiVersions {
        core_consensus,
        api: MultiApiVersion::try_from_iter(vec![
            ApiVersion { major: 2, minor: 3 },
            ApiVersion { major: 3, minor: 1 },
        ])
        .unwrap(),
    };

    assert!(discover_common_core_api_version(&client_versions, peer_map(vec![])).is_none());
    assert_eq!(
        discover_common_core_api_version(
            &client_versions,
            peer_map(vec![(0, core_versions(CoreConsensusVersion::new(0, 0), vec![(2, 3)]))]),
        ),
        Some(ApiVersion { major: 2, minor: 3 })
    );
    // A different minor consensus version does not matter.
    assert_eq!(
        discover_common_core_api_version(
            &client_versions,
            peer_map(vec![(0, core_versions(CoreConsensusVersion::new(0, 1), vec![(2, 3)]))]),
        ),
        Some(ApiVersion { major: 2, minor: 3 })
    );
    // A wrong major consensus version rules the peer out.
    assert_eq!(
        discover_common_core_api_version(
            &client_versions,
            peer_map(vec![(0, core_versions(CoreConsensusVersion::new(1, 0), vec![(2, 4)]))]),
        ),
        None
    );
    // The same peer id listed twice keeps only the later entry.
    assert_eq!(
        discover_common_core_api_version(
            &client_versions,
            peer_map(vec![
                (0, core_versions(core_consensus, vec![(2, 2)])),
                (1, core_versions(core_consensus, vec![(2, 1)])),
                (1, core_versions(core_consensus, vec![(3, 1)])),
            ]),
        ),
        Some(ApiVersion { major: 3, minor: 1 })
    );
    assert_eq!(
        discover_common_core_api_version(
            &client_versions,
            peer_map(vec![
                (0, core_versions(core_consensus, vec![(2, 4)])),
                (1, core_versions(core_consensus, vec![(2, 5)])),
            ]),
        ),
        Some(ApiVersion { major: 2, minor: 4 })
    );
}

#[test]
fn discovery_picks_major_of_most_peers_and_least_minor() {
    // The client supports (2,3) and (3,1); peers report (2,2), (2,1),
    // (3,1), (3,1).  Only major 3 is served at the client's minor, by the
    // most peers, and the least qualifying minor is 1.
    let core_consensus = CoreConsensusVersion::new(0, 0);
    let client_versions = core_versions(core_consensus, vec![(2, 3), (3, 1)]);
    let result = discover_common_core_api_version(
        &client_versions,
        peer_map(vec![
            (0, core_versions(core_consensus, vec![(2, 2)])),
            (1, core_versions(core_consensus, vec![(2, 1)])),
            (2, core_versions(core_consensus, vec![(3, 1)])),
            (3, core_versions(core_consensus, vec![(3, 1)])),
        ]),
    );
    assert_eq!(result, Some(ApiVersion { major: 3, minor: 1 }));
}

#[test]
fn discovery_of_whole_version_set() {
    let core_consensus = CoreConsensusVersion::new(0, 0);
    let client = SupportedApiVersionsSummary {
        core: core_versions(core_consensus, vec![(0, 1)]),
        modules: vec![],
    };
    let mut peers: PeerMap<SupportedApiVersionsSummary> = PeerMap::new();
    peers.insert(
        PeerId(0),
        SupportedApiVersionsSummary {
            core: core_versions(core_consensus, vec![(0, 2)]),
            modules: vec![],
        },
    );
    let set = discover_common_api_versions_set(&client, peers).unwrap();
    assert_eq!(set.core, ApiVersion { major: 0, minor: 2 });
    assert!(set.modules.is_empty());

    let client2 = SupportedApiVersionsSummary {
        core: core_versions(core_consensus, vec![(7, 0)]),
        modules: vec![],
    };
    let mut peers2: PeerMap<SupportedApiVersionsSummary> = PeerMap::new();
    peers2.insert(
        PeerId(0),
        SupportedApiVersionsSummary {
            core: core_versions(core_consensus, vec![(0, 2)]),
            modules: vec![],
        },
    );
    let err = discover_common_api_versions_set(&client2, peers2).unwrap_err();
    assert_eq!(err, "could not find a common core API version");
}
