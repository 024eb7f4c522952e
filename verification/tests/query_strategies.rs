use minimint::collections::PeerMap;
use minimint::peers::PeerId;
use minimint::query::{
    AllOrDeadline, ErrorStrategy, FilterMap, FilterMapThreshold, PeerError, QueryStep,
    QueryStrategy, ThresholdConsensus, UnionResponses, UnionResponsesSingle,
};

#[test]
fn filter_map_success_on_first() {
    // With four peers, the first response that filters cleanly answers the
    // whole query.
    let mut strategy: FilterMap<String, String, _> =
        FilterMap::new(|r: String| Ok(r.to_uppercase()), 4);
    match strategy.process(PeerId(0), Ok("x".to_string())) {
        QueryStep::Success(v) => assert_eq!(v, "X"),
        _ => panic!("expected success after one response"),
    }
}

#[test]
fn filter_map_failure_at_error_budget() {
    // With four peers the budget is f + 1 = 2: two transport errors fail
    // the query, and both peers are listed.
    let mut strategy: FilterMap<String, String, _> =
        FilterMap::new(|r: String| Ok(r), 4);
    match strategy.process(PeerId(0), Err(PeerError::Transport("a".to_string()))) {
        QueryStep::Continue => {}
        _ => panic!("one error must not fail the query"),
    }
    match strategy.process(PeerId(1), Err(PeerError::Transport("b".to_string()))) {
        QueryStep::Failure { general, peers } => {
            assert!(peers.contains_key(PeerId(0)));
            assert!(peers.contains_key(PeerId(1)));
            assert_eq!(peers.len(), 2);
            assert_eq!(
                general.unwrap(),
                "received errors from 2 peers: peer-0: transport error: a, peer-1: transport error: b"
            );
        }
        _ => panic!("the second error must fail the query"),
    }
}

#[test]
fn filter_map_rejects_unusable_response() {
    let mut strategy: FilterMap<String, String, _> =
        FilterMap::new(|_r: String| Err("not for us".to_string()), 4);
    match strategy.process(PeerId(2), Ok("junk".to_string())) {
        QueryStep::Continue => {}
        _ => panic!("a filtered-out response only counts against the budget"),
    }
}

#[test]
fn filter_map_threshold_collects_three_of_four() {
    let mut strategy: FilterMapThreshold<u64, u64, _> =
        FilterMapThreshold::new(|_peer: PeerId, r: u64| Ok(r + 1), 4);
    assert!(matches!(strategy.process(PeerId(0), Ok(10)), QueryStep::Continue));
    assert!(matches!(strategy.process(PeerId(1), Ok(20)), QueryStep::Continue));
    match strategy.process(PeerId(2), Ok(30)) {
        QueryStep::Success(m) => {
            assert_eq!(m.len(), 3);
            assert_eq!(m.get(PeerId(0)), Some(&11));
            assert_eq!(m.get(PeerId(1)), Some(&21));
            assert_eq!(m.get(PeerId(2)), Some(&31));
        }
        _ => panic!("three accepted responses are the threshold at n = 4"),
    }
}

#[test]
fn threshold_consensus_success_on_third_identical() {
    // Peers 0, 1, 2 return the same value; peer 3 has not answered.
    let mut strategy: ThresholdConsensus<u64> = ThresholdConsensus::new(4);
    assert!(matches!(strategy.process(PeerId(0), Ok(7)), QueryStep::Continue));
    assert!(matches!(strategy.process(PeerId(1), Ok(7)), QueryStep::Continue));
    match strategy.process(PeerId(2), Ok(7)) {
        QueryStep::Success(v) => assert_eq!(v, 7),
        _ => panic!("three identical responses must succeed at n = 4"),
    }
}

#[test]
fn threshold_consensus_retries_without_agreement() {
    // Peers 0, 1, 2 return three distinct values: no consensus, and the
    // three answered peers are asked again.
    let mut strategy: ThresholdConsensus<u64> = ThresholdConsensus::new(4);
    assert!(matches!(strategy.process(PeerId(0), Ok(1)), QueryStep::Continue));
    assert!(matches!(strategy.process(PeerId(1), Ok(2)), QueryStep::Continue));
    match strategy.process(PeerId(2), Ok(3)) {
        QueryStep::Retry(peers) => {
            assert_eq!(peers.len(), 3);
            assert!(peers.contains(PeerId(0)));
            assert!(peers.contains(PeerId(1)));
            assert!(peers.contains(PeerId(2)));
        }
        _ => panic!("threshold responses without agreement must retry"),
    }
}

#[test]
fn threshold_consensus_most_common_response() {
    let mut strategy: ThresholdConsensus<u64> = ThresholdConsensus::new(7);
    assert!(matches!(strategy.process(PeerId(0), Ok(5)), QueryStep::Continue));
    assert!(matches!(strategy.process(PeerId(1), Ok(9)), QueryStep::Continue));
    assert!(matches!(strategy.process(PeerId(2), Ok(9)), QueryStep::Continue));
    assert_eq!(strategy.get_most_common_response(), Some(&9));
}

#[test]
fn union_responses_deduplicates_in_arrival_order() {
    let mut strategy: UnionResponses<u64> = UnionResponses::new(4);
    assert!(matches!(
        strategy.process(PeerId(0), Ok(vec![1, 2])),
        QueryStep::Continue
    ));
    assert!(matches!(
        strategy.process(PeerId(1), Ok(vec![2, 3])),
        QueryStep::Continue
    ));
    match strategy.process(PeerId(2), Ok(vec![3, 1, 4])) {
        QueryStep::Success(u) => assert_eq!(u, vec![1, 2, 3, 4]),
        _ => panic!("three contributing peers are the threshold at n = 4"),
    }
}

#[test]
fn union_responses_single_ignores_duplicates() {
    // The same response arriving twice never changes the union's contents.
    let mut strategy: UnionResponsesSingle<u64> = UnionResponsesSingle::new(4);
    assert!(matches!(strategy.process(PeerId(0), Ok(5)), QueryStep::Continue));
    assert!(matches!(strategy.process(PeerId(1), Ok(5)), QueryStep::Continue));
    match strategy.process(PeerId(2), Ok(6)) {
        QueryStep::Success(u) => assert_eq!(u, vec![5, 6]),
        _ => panic!("three contributing peers are the threshold at n = 4"),
    }
}

#[test]
fn error_strategy_formats_each_kind() {
    let strategy = ErrorStrategy::new(4);
    assert_eq!(strategy.format_errors(), "");
    let mut strategy = ErrorStrategy::new(2);
    assert!(matches!(
        strategy.process::<u64>(PeerId(3), PeerError::InvalidResponse("odd".to_string())),
        QueryStep::Continue
    ));
    match strategy.process::<u64>(PeerId(5), PeerError::ServerError("down".to_string())) {
        QueryStep::Failure { general, .. } => assert_eq!(
            general.unwrap(),
            "received errors from 2 peers: peer-3: invalid response: odd, peer-5: server error: down"
        ),
        _ => panic!("the budget of two was reached"),
    }
}

#[test]
fn all_or_deadline_collects_until_deadline() {
    let mut strategy: AllOrDeadline<u64> = AllOrDeadline::new(3, 1_000);
    assert!(matches!(
        strategy.process_at(PeerId(0), Ok(1), 10),
        QueryStep::Continue
    ));
    // An error before the deadline asks the one peer again.
    match strategy.process_at(PeerId(1), Err(PeerError::Transport("t".to_string())), 20) {
        QueryStep::Retry(ps) => {
            assert_eq!(ps.len(), 1);
            assert!(ps.contains(PeerId(1)));
        }
        _ => panic!("an early error must retry that peer"),
    }
    // Any event at or past the deadline closes the collection.
    match strategy.process_at(PeerId(2), Ok(3), 1_000) {
        QueryStep::Success(m) => {
            assert_eq!(m.len(), 2);
            assert_eq!(m.get(PeerId(0)), Some(&1));
            assert_eq!(m.get(PeerId(2)), Some(&3));
        }
        _ => panic!("the deadline must close the collection"),
    }
}

#[test]
fn all_or_deadline_completes_on_full_house() {
    let mut strategy: AllOrDeadline<u64> = AllOrDeadline::new(2, u64::MAX);
    assert!(matches!(
        strategy.process_at(PeerId(0), Ok(10), 0),
        QueryStep::Continue
    ));
    match strategy.process_at(PeerId(1), Ok(20), 0) {
        QueryStep::Success(m) => assert_eq!(m.len(), 2),
        _ => panic!("every peer answered"),
    }
}
