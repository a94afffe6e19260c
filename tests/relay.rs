use relayer_core::chain::{PacketKey, SourceChain};
use relayer_core::config::ChainConfig;
use relayer_core::destination::{DestinationChain, RecvPacketMsg};
use relayer_core::error::RelayError;
use relayer_core::height::Height;
use relayer_core::packet::Packet;
use relayer_core::relay::{
    build_receive_packet_message, ReceivePacketRelayer, RelayAction, RelayEvent, RelayPhase,
};

fn h(n: u64) -> Height {
    Height::new(1, n)
}

fn packet(channel: u64, sequence: u64) -> Packet {
    Packet {
        source_port: 7,
        source_channel: channel,
        destination_port: 8,
        destination_channel: channel + 10,
        sequence,
        timeout_height: h(1000),
        timeout_timestamp: 0,
        data: vec![1, 2, 3],
    }
}

/// A source chain at `latest` with the packet committed at `at`.
fn source_with(p: &Packet, at: u64, latest: u64) -> SourceChain {
    let mut src = SourceChain::new(h(at));
    assert!(src.commit(p.source_key(), 42));
    assert!(src.advance(h(latest), latest * 5));
    src
}

/// A destination whose client trusts the source's state at `trusted`.
fn destination_trusting(src: &SourceChain, trusted: u64) -> DestinationChain {
    let mut dst = DestinationChain::new();
    assert!(dst.update_client(src.consensus_state_at(h(trusted))));
    dst
}

#[test]
fn height_order() {
    assert!(Height::new(1, 5).lt(&Height::new(1, 6)));
    assert!(Height::new(1, 99).lt(&Height::new(2, 0)));
    assert!(!Height::new(2, 0).lt(&Height::new(1, 99)));
    assert!(Height::new(3, 3).le(&Height::new(3, 3)));
    assert!(!Height::new(3, 3).lt(&Height::new(3, 3)));
    assert!(Height::new(3, 3).same_revision(&Height::new(3, 9)));
    assert!(!Height::new(3, 3).same_revision(&Height::new(4, 3)));
}

#[test]
fn proven_packet_is_accepted_at_its_height() {
    let p = packet(0, 1);
    let src = source_with(&p, 90, 100);
    let proof = src.proven_packet(p.source_key(), h(95)).unwrap();
    assert_eq!(proof.height, h(95));
    assert_eq!(proof.digest, 42);
    assert_eq!(proof.key, PacketKey { channel: 0, sequence: 1 });
    assert!(src.consensus_state_at(h(95)).verify_membership(&proof));
    // Bound to one height: another consensus state rejects it.
    assert!(!src.consensus_state_at(h(96)).verify_membership(&proof));
    // A root from before the commitment was written does not hold it.
    let early = src.consensus_state_at(h(89));
    assert_eq!(early.root.len(), 0);
}

#[test]
fn proven_packet_errors() {
    let p = packet(0, 1);
    let mut src = source_with(&p, 90, 100);
    assert!(src.prune(h(93)));
    assert_eq!(src.proven_packet(p.source_key(), h(92)), Err(RelayError::ProofNotFound));
    assert_eq!(src.proven_packet(p.source_key(), h(101)), Err(RelayError::ProofNotFound));
    assert_eq!(src.proven_packet(p.source_key(), h(93)).map(|q| q.height), Ok(h(93)));
    assert_eq!(
        src.proven_packet(PacketKey { channel: 0, sequence: 2 }, h(95)),
        Err(RelayError::PacketNotFound)
    );
    // Pruning past the current height is refused.
    assert!(!src.prune(h(101)));
    assert!(!src.advance(h(50), 1));
}

#[test]
fn commit_keeps_one_commitment_per_packet() {
    let p = packet(3, 9);
    let mut src = SourceChain::new(h(10));
    assert!(src.commit(p.source_key(), 1));
    assert!(!src.commit(p.source_key(), 2));
    assert_eq!(src.commitments.len(), 1);
    assert_eq!(src.commitments[0].digest, 1);
}

#[test]
fn relay_writes_receipt() {
    let p = packet(0, 1);
    let src = source_with(&p, 90, 100);
    let mut dst = destination_trusting(&src, 95);
    assert!(!dst.has_receipt(p.destination_key()));
    let relayer = ReceivePacketRelayer;
    assert_eq!(relayer.relay_packet(&src, &mut dst, &p, 5), Ok(()));
    assert!(dst.has_receipt(p.destination_key()));
    assert_eq!(dst.receipts, vec![PacketKey { channel: 10, sequence: 1 }]);
}

#[test]
fn relaying_twice_changes_nothing_more() {
    let p = packet(0, 1);
    let src = source_with(&p, 90, 100);
    let mut dst = destination_trusting(&src, 95);
    let msg = build_receive_packet_message(&src, h(95), &p, 5).unwrap();
    assert_eq!(dst.deliver_recv_packet(&msg), Ok(()));
    assert_eq!(dst.deliver_recv_packet(&msg), Err(RelayError::TxFailure));
    assert_eq!(dst.receipts.len(), 1);
    let relayer = ReceivePacketRelayer;
    assert_eq!(relayer.relay_packet(&src, &mut dst, &p, 5), Err(RelayError::TxFailure));
    assert_eq!(dst.receipts.len(), 1);
}

#[test]
fn commitment_after_trusted_height_is_not_relayed() {
    // Source at 100 writes the commitment at 100; destination trusts 95.
    let p = packet(0, 1);
    let src = source_with(&p, 100, 100);
    let mut dst = destination_trusting(&src, 95);
    let relayer = ReceivePacketRelayer;
    assert_eq!(relayer.relay_packet(&src, &mut dst, &p, 5), Err(RelayError::PacketNotFound));
    assert!(!dst.has_receipt(p.destination_key()));
    // After a client update to 100 the packet goes through.
    assert!(dst.update_client(src.consensus_state_at(h(100))));
    assert_eq!(dst.query_trusted_height(), h(100));
    assert_eq!(relayer.relay_packet(&src, &mut dst, &p, 5), Ok(()));
}

#[test]
fn relay_at_pruned_height_fails() {
    let p = packet(0, 1);
    let mut src = source_with(&p, 90, 100);
    let mut dst = destination_trusting(&src, 95);
    assert!(src.prune(h(97)));
    let relayer = ReceivePacketRelayer;
    assert_eq!(relayer.relay_packet(&src, &mut dst, &p, 5), Err(RelayError::ProofNotFound));
    assert_eq!(dst.receipts.len(), 0);
}

#[test]
fn message_carries_packet_and_proof() {
    let p = packet(2, 4);
    let src = source_with(&p, 10, 20);
    let msg = build_receive_packet_message(&src, h(15), &p, 77).unwrap();
    assert_eq!(msg.proof_height, h(15));
    assert_eq!(msg.proof.height, h(15));
    assert_eq!(msg.signer, 77);
    assert_eq!(msg.packet.data, vec![1, 2, 3]);
    assert_eq!(msg.packet.sequence, 4);
    assert_eq!(
        build_receive_packet_message(&src, h(9), &p, 77).map(|m| m.signer),
        Err(RelayError::PacketNotFound)
    );
}

#[test]
fn message_without_trusted_state_is_rejected() {
    let p = packet(0, 1);
    let src = source_with(&p, 90, 100);
    let mut dst = destination_trusting(&src, 95);
    let msg = build_receive_packet_message(&src, h(96), &p, 5).unwrap();
    assert_eq!(dst.deliver_recv_packet(&msg), Err(RelayError::TxFailure));
    // A proof for another packet is rejected as well.
    let other = packet(0, 2);
    let forged = RecvPacketMsg {
        packet: other,
        proof: src.proven_packet(p.source_key(), h(95)).unwrap(),
        proof_height: h(95),
        signer: 5,
    };
    assert_eq!(dst.deliver_recv_packet(&forged), Err(RelayError::TxFailure));
    assert_eq!(dst.receipts.len(), 0);
}

#[test]
fn update_client_keeps_one_state_per_height() {
    let p = packet(0, 1);
    let src = source_with(&p, 90, 100);
    let mut dst = destination_trusting(&src, 95);
    assert!(!dst.update_client(src.consensus_state_at(h(95))));
    assert_eq!(dst.consensus_states.len(), 1);
}

#[test]
fn error_kinds() {
    assert!(RelayError::ProofNotFound.is_retryable());
    assert!(RelayError::QueryError.is_retryable());
    assert!(!RelayError::TxFailure.is_retryable());
    assert!(!RelayError::ConfigError.is_retryable());
    assert!(RelayError::PacketNotFound.is_terminal());
    assert!(!RelayError::InsufficientTrust.is_terminal());
}

#[test]
fn missing_connection_config() {
    let c = ChainConfig { id: "chain-a".to_string(), psql_conn: None, trust_period: 10 };
    assert_eq!(c.psql_connection(), Err(RelayError::ConfigError));
    let c = ChainConfig {
        id: "chain-a".to_string(),
        psql_conn: Some("postgres://db".to_string()),
        trust_period: 10,
    };
    assert_eq!(c.psql_connection().map(|s| s.as_str()), Ok("postgres://db"));
}

#[test]
fn async_relay_steps_in_order() {
    let r = ReceivePacketRelayer;
    let (p, a) = r.step(RelayPhase::Start, RelayEvent::Begin);
    assert_eq!(p, RelayPhase::QueryingHeight);
    assert!(matches!(a, RelayAction::QueryTrustedHeight));
    let (p, a) = r.step(p, RelayEvent::HeightQueried(Ok(h(95))));
    assert_eq!(p, RelayPhase::Building);
    assert!(matches!(a, RelayAction::BuildMessage(x) if x == h(95)));
    let (p, a) = r.step(p, RelayEvent::MessageBuilt(Ok(())));
    assert_eq!(p, RelayPhase::Sending);
    assert!(matches!(a, RelayAction::SendMessage));
    let (p, a) = r.step(p, RelayEvent::MessageSent(Ok(())));
    assert_eq!(p, RelayPhase::Finished);
    assert!(matches!(a, RelayAction::Done(Ok(()))));
    let (p, a) = r.step(p, RelayEvent::Begin);
    assert_eq!(p, RelayPhase::Finished);
    assert!(matches!(a, RelayAction::Ignore));
}

#[test]
fn async_relay_errors_end_before_sending() {
    let r = ReceivePacketRelayer;
    let (p, a) = r.step(RelayPhase::QueryingHeight, RelayEvent::HeightQueried(Err(RelayError::QueryError)));
    assert_eq!(p, RelayPhase::Finished);
    assert!(matches!(a, RelayAction::Done(Err(RelayError::QueryError))));
    let (p, a) = r.step(RelayPhase::Building, RelayEvent::MessageBuilt(Err(RelayError::PacketNotFound)));
    assert_eq!(p, RelayPhase::Finished);
    assert!(matches!(a, RelayAction::Done(Err(RelayError::PacketNotFound))));
    let (p, a) = r.step(RelayPhase::Sending, RelayEvent::MessageSent(Err(RelayError::TxFailure)));
    assert_eq!(p, RelayPhase::Finished);
    assert!(matches!(a, RelayAction::Done(Err(RelayError::TxFailure))));
    let (p, a) = r.step(RelayPhase::Start, RelayEvent::MessageBuilt(Ok(())));
    assert_eq!(p, RelayPhase::Start);
    assert!(matches!(a, RelayAction::Ignore));
}

#[test]
fn batch_reports_each_message() {
    let p1 = packet(0, 1);
    let p2 = packet(0, 2);
    let mut src = SourceChain::new(h(90));
    assert!(src.commit(p1.source_key(), 1));
    assert!(src.commit(p2.source_key(), 2));
    assert!(src.advance(h(100), 500));
    let mut dst = destination_trusting(&src, 95);
    let m1 = build_receive_packet_message(&src, h(95), &p1, 5).unwrap();
    let stale = build_receive_packet_message(&src, h(96), &p2, 5).unwrap();
    let m1_again = build_receive_packet_message(&src, h(95), &p1, 5).unwrap();
    let m2 = build_receive_packet_message(&src, h(95), &p2, 5).unwrap();
    let out = dst.send_messages_and_wait_commit(&vec![m1, stale, m1_again, m2]);
    assert_eq!(
        out,
        vec![
            Ok(PacketKey { channel: 10, sequence: 1 }),
            Err(RelayError::TxFailure),
            Err(RelayError::TxFailure),
            Ok(PacketKey { channel: 10, sequence: 2 })
        ]
    );
    assert_eq!(
        dst.receipts,
        vec![PacketKey { channel: 10, sequence: 1 }, PacketKey { channel: 10, sequence: 2 }]
    );
}

#[test]
fn check_tx_reports_without_executing() {
    let p1 = packet(0, 1);
    let src = source_with(&p1, 90, 100);
    let mut dst = destination_trusting(&src, 95);
    let good = build_receive_packet_message(&src, h(95), &p1, 5).unwrap();
    let stale = build_receive_packet_message(&src, h(96), &p1, 5).unwrap();
    let out = dst.send_messages_and_wait_check_tx(&vec![good, stale]);
    assert_eq!(out, vec![Ok(()), Err(RelayError::TxFailure)]);
    assert!(dst.receipts.is_empty());
    let relayer = ReceivePacketRelayer;
    assert_eq!(relayer.relay_packet(&src, &mut dst, &p1, 5), Ok(()));
    let again = build_receive_packet_message(&src, h(95), &p1, 5).unwrap();
    assert_eq!(dst.send_messages_and_wait_check_tx(&vec![again]), vec![Err(RelayError::TxFailure)]);
}

#[test]
fn unreceived_packets_are_listed() {
    let p1 = packet(0, 1);
    let src = source_with(&p1, 90, 100);
    let mut dst = destination_trusting(&src, 95);
    assert_eq!(dst.query_unreceived_packets(10, &vec![1, 2, 3]), vec![1, 2, 3]);
    let relayer = ReceivePacketRelayer;
    assert_eq!(relayer.relay_packet(&src, &mut dst, &p1, 5), Ok(()));
    assert_eq!(dst.query_unreceived_packets(10, &vec![1, 2, 3]), vec![2, 3]);
    assert_eq!(dst.query_unreceived_packets(11, &vec![1]), vec![1]);
}
