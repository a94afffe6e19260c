use relayer_core::chain::{ChainStatus, PacketKey, SourceChain, StatePath};
use relayer_core::config::ChainConfig;
use relayer_core::error::RelayError;
use relayer_core::height::Height;
use relayer_core::light_client::{ClientState, LightBlock, LightClient, PsqlLightClient};
use relayer_core::psql::PsqlChain;

fn config(conn: Option<&str>) -> ChainConfig {
    ChainConfig {
        id: "ibc-0".to_string(),
        psql_conn: conn.map(|c| c.to_string()),
        trust_period: 100,
    }
}

fn chain() -> SourceChain {
    let mut src = SourceChain::new(Height::new(0, 5));
    assert!(src.commit(PacketKey { channel: 1, sequence: 1 }, 9));
    assert!(src.advance(Height::new(0, 8), 80));
    src
}

#[test]
fn bootstrap_needs_connection() {
    assert_eq!(PsqlChain::bootstrap(config(None), chain()).map(|c| c.chain.latest), Err(RelayError::ConfigError));
    let c = PsqlChain::bootstrap(config(Some("postgres://localhost/ibc")), chain()).unwrap();
    assert_eq!(c.conn(), "postgres://localhost/ibc");
    assert_eq!(c.id(), "ibc-0");
    assert_eq!(c.config().trust_period, 100);
    assert!(c.init_light_client().0.blocks.is_empty());
    assert_eq!(c.query_application_status(), ChainStatus { height: Height::new(0, 8), timestamp: 80 });
}

#[test]
fn forwards_packet_proofs() {
    let c = PsqlChain::bootstrap(config(Some("db")), chain()).unwrap();
    let key = PacketKey { channel: 1, sequence: 1 };
    assert_eq!(c.proven_packet(key, Height::new(0, 6)), chain().proven_packet(key, Height::new(0, 6)));
    assert_eq!(c.proven_packet(key, Height::new(0, 6)).map(|p| p.digest), Ok(9));
    assert_eq!(c.proven_packet(key, Height::new(0, 4)), Err(RelayError::PacketNotFound));
    assert_eq!(c.proven_packet(key, Height::new(0, 9)), Err(RelayError::ProofNotFound));
}

#[test]
fn build_header_splits_target_and_support() {
    let c = PsqlChain::bootstrap(config(Some("db")), chain()).unwrap();
    let mut lc = LightClient::new();
    let blocks = [(1, 1, 1), (2, 1, 2), (3, 2, 2), (4, 2, 2)];
    for (n, v, next) in blocks {
        assert!(lc.add_block(LightBlock {
            height: Height::new(0, n),
            time: n,
            validators_hash: v,
            next_validators_hash: next,
            app_hash: 0,
        }));
    }
    let lc = PsqlLightClient(lc);
    let cs = ClientState { trust_period: 100 };
    let (target, support) = c.build_header(Height::new(0, 1), Height::new(0, 4), &cs, &lc, 10).unwrap();
    assert_eq!(support.len(), 1);
    assert_eq!(support[0].block.height, Height::new(0, 2));
    assert_eq!(target.trusted_height, Height::new(0, 2));
    assert_eq!(target.block.height, Height::new(0, 4));
    assert_eq!(
        c.build_header(Height::new(0, 1), Height::new(0, 4), &cs, &lc, 500).map(|r| r.0),
        Err(RelayError::ExpiredClient)
    );
}

#[test]
fn forwards_state_proofs() {
    let mut src = SourceChain::new(Height::new(0, 5));
    assert!(src.store(StatePath::ClientState { client: 7 }, 70));
    assert!(src.store(StatePath::Connection { connection: 1 }, 11));
    assert!(src.advance(Height::new(0, 8), 80));
    assert!(src.store(StatePath::Channel { port: 2, channel: 3 }, 23));
    assert!(src.store(StatePath::ClientConsensus { client: 7, height: Height::new(4, 40) }, 440));
    assert!(!src.store(StatePath::ClientState { client: 7 }, 71));
    let c = PsqlChain::bootstrap(config(Some("db")), src).unwrap();
    let p = c.proven_client_state(7, Height::new(0, 6)).unwrap();
    assert_eq!((p.value, p.height), (70, Height::new(0, 6)));
    assert_eq!(c.proven_connection(1, Height::new(0, 5)).map(|p| p.value), Ok(11));
    assert_eq!(c.proven_connection(2, Height::new(0, 5)), Err(RelayError::ProofNotFound));
    // The channel was written at 8: absent at 7, present at 8.
    assert_eq!(c.proven_channel(2, 3, Height::new(0, 7)), Err(RelayError::ProofNotFound));
    assert_eq!(c.proven_channel(2, 3, Height::new(0, 8)).map(|p| p.value), Ok(23));
    assert_eq!(
        c.proven_client_consensus(7, Height::new(4, 40), Height::new(0, 8)).map(|p| p.value),
        Ok(440)
    );
    assert_eq!(
        c.proven_client_consensus(7, Height::new(4, 41), Height::new(0, 8)),
        Err(RelayError::ProofNotFound)
    );
    // Above the current height.
    assert_eq!(c.proven_client_state(7, Height::new(0, 9)), Err(RelayError::ProofNotFound));
}

#[test]
fn lists_commitments_of_a_channel() {
    let mut src = SourceChain::new(Height::new(0, 5));
    assert!(src.commit(PacketKey { channel: 1, sequence: 4 }, 1));
    assert!(src.commit(PacketKey { channel: 2, sequence: 1 }, 1));
    assert!(src.commit(PacketKey { channel: 1, sequence: 2 }, 1));
    assert!(src.advance(Height::new(0, 9), 90));
    let c = PsqlChain::bootstrap(config(Some("db")), src).unwrap();
    assert_eq!(c.query_packet_commitments(1), (vec![4, 2], Height::new(0, 9)));
    assert_eq!(c.query_packet_commitments(3), (vec![], Height::new(0, 9)));
}

#[test]
fn unreceived_acknowledgements_still_hold_commitments() {
    let mut src = SourceChain::new(Height::new(0, 5));
    assert!(src.commit(PacketKey { channel: 1, sequence: 4 }, 1));
    assert!(src.commit(PacketKey { channel: 1, sequence: 2 }, 1));
    let c = PsqlChain::bootstrap(config(Some("db")), src).unwrap();
    assert_eq!(c.query_unreceived_acknowledgements(1, &vec![1, 2, 3, 4]), vec![2, 4]);
    assert_eq!(c.query_unreceived_acknowledgements(2, &vec![2, 4]), vec![]);
}

#[test]
fn state_proofs_verify_against_their_height() {
    let mut src = SourceChain::new(Height::new(0, 5));
    assert!(src.store(StatePath::Connection { connection: 1 }, 11));
    assert!(src.advance(Height::new(0, 8), 80));
    let p = src.proven_state(StatePath::Connection { connection: 1 }, Height::new(0, 6)).unwrap();
    assert!(src.consensus_state_at(Height::new(0, 6)).verify_state_membership(&p));
    assert!(!src.consensus_state_at(Height::new(0, 7)).verify_state_membership(&p));
    assert!(src.consensus_state_at(Height::new(0, 4)).state_root.is_empty());
    assert_eq!(src.consensus_state_at(Height::new(0, 5)).state_root.len(), 1);
}
