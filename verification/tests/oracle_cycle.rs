use block_oracle::chain_id::{BadChainId, Caip2ChainId};
use block_oracle::compressor::{CompressionError, Network};
use block_oracle::config::{
    epoch_duration, freshness_threshold, protocol_chain_polling_interval_in_seconds,
    transaction_confirmation_count, transaction_confirmation_poll_interval_in_seconds,
    web3_transport_retry_max_wait_time_in_seconds,
};
use block_oracle::epoch_tracker::{EpochTracker, EpochTrackerError};
use block_oracle::error_handling::{handle_error, EmitterError, OracleControlFlow, OracleError};
use block_oracle::freshness::{subgraph_is_fresh, Freshness};
use block_oracle::hex_format::hex_string;
use block_oracle::messages::{BlockPtr, Message};
use block_oracle::networks_diff::{networks_diff_to_message, NetworksDiff};
use block_oracle::oracle::{
    latest_blocks_to_message, produce_next_payload, registered_networks, Action, Event, Oracle,
    Phase, SubgraphData, SubgraphNetwork,
};
use block_oracle::subgraph_state::State;

fn names(list: &[&str]) -> Vec<String> {
    list.iter().map(|s| s.to_string()).collect()
}

fn subgraph(latest_indexed_block: u64, networks: &[(&str, u64, i64)]) -> SubgraphData {
    SubgraphData {
        latest_indexed_block,
        networks: networks
            .iter()
            .map(|(id, latest_block_number, delta)| SubgraphNetwork {
                id: id.to_string(),
                latest_block_number: *latest_block_number,
                delta: *delta,
            })
            .collect(),
    }
}

#[test]
fn defaults() {
    assert_eq!(epoch_duration(), 6646);
    assert_eq!(protocol_chain_polling_interval_in_seconds(), 120);
    assert_eq!(web3_transport_retry_max_wait_time_in_seconds(), 60);
    assert_eq!(freshness_threshold(), 10);
    assert_eq!(transaction_confirmation_poll_interval_in_seconds(), 5);
    assert_eq!(transaction_confirmation_count(), 0);
}

#[test]
fn hex_string_is_lower_case_behind_0x() {
    assert_eq!(hex_string(&[]), "0x");
    assert_eq!(hex_string(&[0x00, 0x0f, 0xa0, 0xff, 0x12]), "0x000fa0ff12");
}

#[test]
fn chain_ids() {
    assert_eq!(Caip2ChainId::parse("eip155:1").unwrap().as_str(), "eip155:1");
    assert!(Caip2ChainId::parse("eip155:137").is_ok());
    assert!(Caip2ChainId::parse("abc:d").is_ok());
    assert!(Caip2ChainId::parse("abcdefgh:12345678901234567890123456789012").is_ok());
    assert_eq!(Caip2ChainId::parse(""), Err(BadChainId));
    assert_eq!(Caip2ChainId::parse("ab:1"), Err(BadChainId));
    assert_eq!(Caip2ChainId::parse("abcdefghi:1"), Err(BadChainId));
    assert_eq!(Caip2ChainId::parse("eip155:"), Err(BadChainId));
    assert_eq!(Caip2ChainId::parse("eip155"), Err(BadChainId));
    assert_eq!(Caip2ChainId::parse("eip155:1:2"), Err(BadChainId));
    assert_eq!(Caip2ChainId::parse("eip-155:1"), Err(BadChainId));
    assert_eq!(Caip2ChainId::parse("eip155:1 "), Err(BadChainId));
    assert_eq!(
        Caip2ChainId::parse("eip155:123456789012345678901234567890123"),
        Err(BadChainId)
    );
    assert_eq!(Caip2ChainId::parse("éip155:1"), Err(BadChainId));
}

#[test]
fn diff_with_removal_and_addition() {
    let diff = NetworksDiff::calculate(&names(&["A", "B", "C"]), &names(&["A", "C", "D"]));
    assert_eq!(diff.deletions, vec![("B".to_string(), 1)]);
    assert_eq!(diff.insertions, vec![("D".to_string(), 2)]);
    match networks_diff_to_message(&diff) {
        Some(Message::RegisterNetworks { remove, add }) => {
            assert_eq!(remove, vec![1]);
            assert_eq!(add, names(&["D"]));
        }
        other => panic!("no registry change: {:?}", other),
    }
}

#[test]
fn diff_orders_deletions_by_index_and_insertions_by_config() {
    let diff =
        NetworksDiff::calculate(&names(&["X", "A", "Y", "Z"]), &names(&["Q", "A", "P", "N"]));
    assert_eq!(
        diff.deletions,
        vec![("X".to_string(), 0), ("Y".to_string(), 2), ("Z".to_string(), 3)]
    );
    assert_eq!(
        diff.insertions,
        vec![("Q".to_string(), 0), ("P".to_string(), 2), ("N".to_string(), 3)]
    );
}

#[test]
fn no_diff_no_message() {
    let diff = NetworksDiff::calculate(&names(&["A", "B"]), &names(&["B", "A"]));
    assert!(diff.deletions.is_empty());
    assert!(diff.insertions.is_empty());
    assert!(networks_diff_to_message(&diff).is_none());
}

#[test]
fn applying_the_diff_leaves_none() {
    let registered = names(&["A", "B", "C", "E"]);
    let configured = names(&["D", "C", "A", "F"]);
    let diff = NetworksDiff::calculate(&registered, &configured);
    let registry: Vec<(String, Network)> = registered
        .iter()
        .map(|n| (n.clone(), Network { block_number: 1, block_delta: 0 }))
        .collect();
    let remove: Vec<u64> = diff.deletions.iter().map(|d| d.1).collect();
    let add: Vec<String> = diff.insertions.iter().map(|i| i.0.clone()).collect();
    let next = block_oracle::compressor::apply_register_networks(&registry, &remove, &add);
    let next_names: Vec<String> = next.iter().map(|n| n.0.clone()).collect();
    assert_eq!(next_names, names(&["A", "C", "D", "F"]));
    let again = NetworksDiff::calculate(&next_names, &configured);
    assert!(again.deletions.is_empty());
    assert!(again.insertions.is_empty());
}

#[test]
fn freshness_boundary() {
    assert_eq!(subgraph_is_fresh(100, 100, 10), Freshness::Fresh);
    assert_eq!(subgraph_is_fresh(101, 100, 10), Freshness::Fresh);
    for gap in 1..=10u64 {
        let verdict = subgraph_is_fresh(100 - gap, 100, 10);
        assert_eq!(verdict, Freshness::Undecided { from_block: 101 - gap, to_block: 100 });
        assert!(verdict.needs_scan());
        assert!(verdict.resolve(0));
        assert!(!verdict.resolve(1));
    }
    let verdict = subgraph_is_fresh(89, 100, 10);
    assert_eq!(verdict, Freshness::NotFresh);
    assert!(!verdict.needs_scan());
    assert!(!verdict.resolve(0));
    assert!(Freshness::Fresh.resolve(3));
    assert_eq!(subgraph_is_fresh(0, u64::MAX, u64::MAX), Freshness::Undecided {
        from_block: 1,
        to_block: u64::MAX,
    });
}

#[test]
fn epochs() {
    let mut tracker = EpochTracker::new(6646, None);
    assert_eq!(tracker.epoch(0), Ok(0));
    assert_eq!(tracker.epoch(6645), Ok(0));
    assert_eq!(tracker.epoch(6646), Ok(1));
    assert_eq!(tracker.epoch(13292), Ok(2));
    assert_eq!(tracker.is_new_epoch(100), Ok(false));
    assert_eq!(tracker.is_new_epoch(20000), Ok(true));
    assert_eq!(tracker.last_observed, 3);
    assert_eq!(tracker.is_new_epoch(20000), Ok(false));
    assert_eq!(tracker.is_new_epoch(26583), Ok(false));
    assert_eq!(tracker.is_new_epoch(26584), Ok(true));
    let mut known = EpochTracker::new(10, Some(5));
    assert_eq!(known.is_new_epoch(59), Ok(false));
    assert_eq!(known.is_new_epoch(60), Ok(true));
    let mut broken = EpochTracker::new(0, None);
    assert_eq!(broken.is_new_epoch(5), Err(EpochTrackerError::ZeroEpochDuration));
    assert_eq!(broken.epoch(5), Err(EpochTrackerError::ZeroEpochDuration));
}

#[test]
fn error_policies() {
    assert_eq!(OracleError::BadConfig.instruction(), OracleControlFlow::Break);
    assert_eq!(
        OracleError::Encoding(CompressionError::NetworkMismatch).instruction(),
        OracleControlFlow::Break
    );
    assert_eq!(OracleError::Subgraph.instruction(), OracleControlFlow::Continue(None));
    assert_eq!(
        OracleError::SubgraphNotFresh.instruction(),
        OracleControlFlow::Continue(Some(30))
    );
    assert_eq!(OracleError::BadJrpcProtocolChain.instruction(), OracleControlFlow::Continue(None));
    assert_eq!(
        OracleError::BadJrpcIndexedChain { chain_id: "eip155:1".to_string() }.instruction(),
        OracleControlFlow::Continue(None)
    );
    assert_eq!(
        OracleError::EpochTracker(EpochTrackerError::ZeroEpochDuration).instruction(),
        OracleControlFlow::Continue(None)
    );
    assert_eq!(OracleError::CantSubmitTx.instruction(), OracleControlFlow::Continue(None));
    assert_eq!(
        EmitterError::BroadcastTransaction.instruction(),
        OracleControlFlow::Continue(None)
    );
    assert_eq!(handle_error(OracleError::BadConfig), Err(OracleError::BadConfig));
    assert_eq!(handle_error(OracleError::SubgraphNotFresh), Ok(30));
    assert_eq!(handle_error(OracleError::CantSubmitTx), Ok(0));
}

#[test]
fn subgraph_failure_preserves_last_state() {
    let start: State<u32> = State::Uninitialized { error: None };
    let valid = start.next(Ok(1));
    assert!(matches!(&valid, State::Valid { state } if **state == 1));
    let failed = valid.next(Err(anyhow::Error::msg("down")));
    match &failed {
        State::Failed { previous, error } => {
            assert_eq!(**previous, 1);
            assert_eq!(error.to_string(), "down");
        }
        _ => panic!("not failed"),
    }
    let failed_again = failed.next(Err(anyhow::Error::msg("still down")));
    match &failed_again {
        State::Failed { previous, error } => {
            assert_eq!(**previous, 1);
            assert_eq!(error.to_string(), "still down");
        }
        _ => panic!("not failed"),
    }
    let recovered = failed_again.next(Ok(2));
    assert!(matches!(&recovered, State::Valid { state } if **state == 2));
    let never: State<u32> = State::Uninitialized { error: None };
    let still_never = never.next(Err(anyhow::Error::msg("no")));
    assert!(matches!(still_never, State::Uninitialized { error: Some(_) }));
}

#[test]
fn registry_from_subgraph() {
    assert!(registered_networks(None).is_empty());
    let data = subgraph(7, &[("A", 10, 1), ("B", 20, -2)]);
    assert_eq!(
        registered_networks(Some(&data)),
        vec![
            ("A".to_string(), Network { block_number: 10, block_delta: 1 }),
            ("B".to_string(), Network { block_number: 20, block_delta: -2 }),
        ]
    );
}

#[test]
fn latest_blocks_become_one_message() {
    let blocks = vec![("A".to_string(), BlockPtr::new(1, [0u8; 32]))];
    match latest_blocks_to_message(blocks.clone()) {
        Message::SetBlockNumbersForNextEpoch(inner) => assert_eq!(inner, blocks),
        other => panic!("wrong message: {:?}", other),
    }
}

#[test]
fn payload_of_an_empty_registry_and_configuration() {
    assert_eq!(produce_next_payload(&vec![], vec![], &vec![]), Ok(vec![0x00, 0x01]));
}

#[test]
fn payload_registers_then_sets() {
    let hash = [0xABu8; 32];
    let payload = produce_next_payload(
        &names(&["eip155:137"]),
        vec![],
        &vec![
            ("eip155:137".to_string(), BlockPtr::new(42, hash)),
            ("eip155:1".to_string(), BlockPtr::new(1, hash)),
        ],
    )
    .unwrap();
    assert_eq!(payload[0], 0x03);
    assert_eq!(&payload[1..4], &[0x00, 0x01, 10]);
    assert_eq!(&payload[4..14], b"eip155:137");
    assert_eq!(payload.len(), 14 + 32 + 1);
    assert_eq!(payload[46], 0x54);
}

#[test]
fn payload_with_a_chain_that_did_not_answer_is_a_mismatch() {
    let registry = vec![
        ("A".to_string(), Network { block_number: 10, block_delta: 1 }),
        ("B".to_string(), Network { block_number: 20, block_delta: 1 }),
    ];
    let r = produce_next_payload(
        &names(&["A", "B"]),
        registry,
        &vec![("A".to_string(), BlockPtr::new(11, [0u8; 32]))],
    );
    assert_eq!(r, Err(OracleError::Encoding(CompressionError::NetworkMismatch)));
}

#[test]
fn not_fresh_retry() {
    let mut oracle = Oracle::new(names(&["A"]), 10, 10, None);
    assert_eq!(oracle.step(Event::Start), Action::RefreshSubgraph);
    assert_eq!(
        oracle.step(Event::SubgraphRefreshed(Some(subgraph(95, &[("A", 1, 0)])))),
        Action::FetchProtocolChainHead
    );
    assert_eq!(
        oracle.step(Event::ProtocolChainHead(Some(100))),
        Action::ScanTraces { from_block: 96, to_block: 100 }
    );
    let action = oracle.step(Event::Traces(Some(1)));
    assert_eq!(action, Action::Finish(Err(OracleError::SubgraphNotFresh)));
    assert_eq!(oracle.phase, Phase::Idle);
    assert_eq!(handle_error(OracleError::SubgraphNotFresh), Ok(30));
    // The next iteration resumes from the start.
    assert_eq!(oracle.step(Event::Start), Action::RefreshSubgraph);
}

#[test]
fn full_cycle_in_a_new_epoch() {
    let hash = [1u8; 32];
    let mut oracle = Oracle::new(names(&["A"]), 10, 10, None);
    assert_eq!(oracle.step(Event::Start), Action::RefreshSubgraph);
    oracle.step(Event::SubgraphRefreshed(Some(subgraph(100, &[("A", 100, 5)]))));
    assert_eq!(oracle.step(Event::ProtocolChainHead(Some(100))), Action::FetchLatestBlocks);
    assert_eq!(oracle.epoch_tracker.last_observed, 10);
    let action = oracle.step(Event::LatestBlocks(vec![("A".to_string(), BlockPtr::new(108, hash))]));
    let expected = produce_next_payload(
        &names(&["A"]),
        vec![("A".to_string(), Network { block_number: 100, block_delta: 5 })],
        &vec![("A".to_string(), BlockPtr::new(108, hash))],
    )
    .unwrap();
    assert_eq!(expected[0], 0x00);
    assert_eq!(expected[33], 0x06);
    assert_eq!(action, Action::SubmitPayload(expected));
    assert_eq!(oracle.phase, Phase::AwaitingSubmission);
    assert_eq!(oracle.step(Event::Submitted(true)), Action::Finish(Ok(())));
    assert_eq!(oracle.phase, Phase::Idle);

    // Same epoch again: the cycle ends after the epoch check.
    oracle.step(Event::Start);
    oracle.step(Event::SubgraphRefreshed(Some(subgraph(105, &[("A", 108, 8)]))));
    assert_eq!(oracle.step(Event::ProtocolChainHead(Some(105))), Action::Finish(Ok(())));
}

#[test]
fn failures_end_the_cycle() {
    let mut oracle = Oracle::new(names(&["A"]), 10, 10, None);
    oracle.step(Event::Start);
    assert_eq!(
        oracle.step(Event::SubgraphRefreshed(None)),
        Action::Finish(Err(OracleError::Subgraph))
    );
    oracle.step(Event::Start);
    oracle.step(Event::SubgraphRefreshed(Some(subgraph(50, &[]))));
    assert_eq!(
        oracle.step(Event::ProtocolChainHead(None)),
        Action::Finish(Err(OracleError::BadJrpcProtocolChain))
    );
    oracle.step(Event::Start);
    oracle.step(Event::SubgraphRefreshed(Some(subgraph(50, &[]))));
    assert_eq!(
        oracle.step(Event::ProtocolChainHead(Some(61))),
        Action::Finish(Err(OracleError::SubgraphNotFresh))
    );
    oracle.step(Event::Start);
    oracle.step(Event::SubgraphRefreshed(Some(subgraph(50, &[]))));
    oracle.step(Event::ProtocolChainHead(Some(55)));
    assert_eq!(
        oracle.step(Event::Traces(None)),
        Action::Finish(Err(OracleError::BadJrpcProtocolChain))
    );
    oracle.step(Event::Start);
    oracle.step(Event::SubgraphRefreshed(Some(subgraph(50, &[]))));
    oracle.step(Event::ProtocolChainHead(Some(55)));
    assert_eq!(oracle.step(Event::Traces(Some(0))), Action::FetchLatestBlocks);
    let action = oracle.step(Event::LatestBlocks(vec![("A".to_string(), BlockPtr::new(1, [0u8; 32]))]));
    assert!(matches!(action, Action::SubmitPayload(_)));
    assert_eq!(
        oracle.step(Event::Submitted(false)),
        Action::Finish(Err(OracleError::CantSubmitTx))
    );
    assert_eq!(oracle.step(Event::Submitted(true)), Action::Ignored);
    assert_eq!(oracle.phase, Phase::Idle);
    let mut broken = Oracle::new(names(&["A"]), 0, 10, None);
    broken.step(Event::Start);
    broken.step(Event::SubgraphRefreshed(Some(subgraph(50, &[]))));
    assert_eq!(
        broken.step(Event::ProtocolChainHead(Some(50))),
        Action::Finish(Err(OracleError::EpochTracker(EpochTrackerError::ZeroEpochDuration)))
    );
}
