use relayer_core::error::RelayError;
use relayer_core::height::Height;
use relayer_core::light_client::{
    check_misbehaviour, ClientState, Header, LightBlock, LightClient, PsqlLightClient,
    SignedHeader,
};

fn block(rev: u64, n: u64, vals: u64, next: u64) -> LightBlock {
    LightBlock {
        height: Height::new(rev, n),
        time: n * 10,
        validators_hash: vals,
        next_validators_hash: next,
        app_hash: n,
    }
}

/// Blocks 1..=9 of revision 1. The validator set changes at 4 and at 7:
/// 1-3 signed by A (announcing A, then B at 3), 4-6 by B, 7-9 by C.
fn client() -> LightClient {
    let mut lc = LightClient::new();
    let sets = [(1, 1), (1, 1), (1, 2), (2, 2), (2, 2), (2, 3), (3, 3), (3, 3), (3, 3)];
    for (i, (v, n)) in sets.iter().enumerate() {
        assert!(lc.add_block(block(1, i as u64 + 1, *v, *n)));
    }
    assert!(lc.add_block(block(2, 1, 4, 4)));
    lc
}

const CS: ClientState = ClientState { trust_period: 1000 };

#[test]
fn direct_target_needs_no_support() {
    let lc = client();
    let v = lc.header_and_minimal_set(Height::new(1, 1), Height::new(1, 3), &CS, 50).unwrap();
    assert!(v.supporting.is_empty());
    assert_eq!(v.target.trusted_height, Height::new(1, 1));
    assert_eq!(v.target.block, block(1, 3, 1, 2));
}

#[test]
fn chain_over_validator_changes() {
    let lc = client();
    let v = lc.header_and_minimal_set(Height::new(1, 1), Height::new(1, 9), &CS, 50).unwrap();
    let heights: Vec<(u64, u64)> = v
        .supporting
        .iter()
        .map(|h| (h.trusted_height.revision_height, h.block.height.revision_height))
        .collect();
    // 1 -> 3 (farthest signed by A), 3 -> 6 (farthest by B), 6 -> 9.
    assert_eq!(heights, vec![(1, 3), (3, 6)]);
    assert_eq!(v.target.trusted_height, Height::new(1, 6));
    assert_eq!(v.target.block.height, Height::new(1, 9));
    assert_eq!(v.supporting[0].trusted_height, Height::new(1, 1));
    for h in v.supporting.iter().chain(std::iter::once(&v.target)) {
        assert_eq!(h.block.height.revision_number, 1);
        assert_eq!(h.trusted_height.revision_number, 1);
    }
}

#[test]
fn no_chain_across_revisions() {
    let lc = client();
    assert_eq!(
        lc.header_and_minimal_set(Height::new(1, 9), Height::new(2, 1), &CS, 50).map(|v| v.target),
        Err(RelayError::InsufficientTrust)
    );
    assert_eq!(
        lc.header_and_minimal_set(Height::new(1, 5), Height::new(1, 2), &CS, 50).map(|v| v.target),
        Err(RelayError::InsufficientTrust)
    );
}

#[test]
fn header_errors() {
    let lc = client();
    assert_eq!(
        lc.header_and_minimal_set(Height::new(1, 20), Height::new(1, 9), &CS, 50).map(|v| v.target),
        Err(RelayError::HeightNotAvailable)
    );
    assert_eq!(
        lc.header_and_minimal_set(Height::new(1, 1), Height::new(1, 20), &CS, 50).map(|v| v.target),
        Err(RelayError::HeightNotAvailable)
    );
    // Block 1 has time 10: expired once now reaches 10 + 1000.
    assert_eq!(
        lc.header_and_minimal_set(Height::new(1, 1), Height::new(1, 9), &CS, 1010).map(|v| v.target),
        Err(RelayError::ExpiredClient)
    );
    assert!(lc.header_and_minimal_set(Height::new(1, 1), Height::new(1, 9), &CS, 1009).is_ok());
}

#[test]
fn no_trusted_path() {
    let mut lc = LightClient::new();
    assert!(lc.add_block(block(1, 1, 1, 1)));
    assert!(lc.add_block(block(1, 2, 5, 5)));
    assert_eq!(
        lc.header_and_minimal_set(Height::new(1, 1), Height::new(1, 2), &CS, 0).map(|v| v.target),
        Err(RelayError::InsufficientTrust)
    );
}

#[test]
fn verify_single_step() {
    let lc = client();
    assert_eq!(lc.verify(Height::new(1, 4), Height::new(1, 6), &CS, 50), Ok(block(1, 6, 2, 3)));
    assert_eq!(
        lc.verify(Height::new(1, 1), Height::new(1, 9), &CS, 50),
        Err(RelayError::InsufficientTrust)
    );
    assert_eq!(
        lc.verify(Height::new(1, 1), Height::new(1, 2), &CS, 2000),
        Err(RelayError::ExpiredClient)
    );
    assert_eq!(
        lc.verify(Height::new(1, 0), Height::new(1, 2), &CS, 0),
        Err(RelayError::HeightNotAvailable)
    );
}

fn header(app_hash: u64) -> Header {
    let mut b = block(1, 5, 2, 2);
    b.app_hash = app_hash;
    Header { block: b, trusted_height: Height::new(1, 3) }
}

#[test]
fn reordered_signatures_are_no_misbehaviour() {
    let a = SignedHeader { header: header(5), signatures: vec![1, 2, 3] };
    let b = SignedHeader { header: header(5), signatures: vec![3, 1, 2] };
    assert_eq!(check_misbehaviour(&a, &b), None);
}

#[test]
fn conflicting_headers_give_evidence() {
    // Both headers name validator set 2 and carry its signatures.
    let a = SignedHeader { header: header(5), signatures: vec![2, 2] };
    let b = SignedHeader { header: header(6), signatures: vec![2] };
    let e = check_misbehaviour(&a, &b).unwrap();
    assert_eq!(e.height, Height::new(1, 5));
    assert_eq!(e.header1, header(5));
    assert_eq!(e.header2, header(6));
    // Different trusted predecessors are no conflict.
    let mut c = header(6);
    c.trusted_height = Height::new(1, 4);
    let c = SignedHeader { header: c, signatures: vec![2] };
    assert_eq!(check_misbehaviour(&a, &c), None);
}

#[test]
fn unsigned_or_foreign_headers_give_no_evidence() {
    let b = SignedHeader { header: header(6), signatures: vec![2] };
    // No signature at all.
    let unsigned = SignedHeader { header: header(5), signatures: vec![] };
    assert_eq!(check_misbehaviour(&unsigned, &b), None);
    // A signature by another validator set.
    let forged = SignedHeader { header: header(5), signatures: vec![2, 7] };
    assert_eq!(check_misbehaviour(&forged, &b), None);
    // A conflicting header that names another validator set.
    let mut other = header(5);
    other.block.validators_hash = 3;
    let other = SignedHeader { header: other, signatures: vec![3] };
    assert_eq!(check_misbehaviour(&other, &b), None);
    // The trusted side must be validly signed as well.
    let a = SignedHeader { header: header(5), signatures: vec![2] };
    let bad = SignedHeader { header: header(6), signatures: vec![] };
    assert_eq!(check_misbehaviour(&a, &bad), None);
}

#[test]
fn client_checks_updates_against_its_blocks() {
    let lc = PsqlLightClient(client());
    let honest = SignedHeader {
        header: Header { block: block(1, 5, 2, 2), trusted_height: Height::new(1, 4) },
        signatures: vec![9],
    };
    assert_eq!(lc.check_misbehaviour(&honest, &CS), Ok(None));
    let mut forged_block = block(1, 5, 2, 2);
    forged_block.app_hash = 77;
    let forged = SignedHeader {
        header: Header { block: forged_block, trusted_height: Height::new(1, 4) },
        signatures: vec![2, 2],
    };
    let e = lc.check_misbehaviour(&forged, &CS).unwrap().unwrap();
    assert_eq!(e.header2.block, block(1, 5, 2, 2));
    let unsigned = SignedHeader { header: forged.header, signatures: vec![9] };
    assert_eq!(lc.check_misbehaviour(&unsigned, &CS), Ok(None));
    let far = SignedHeader {
        header: Header { block: block(1, 50, 2, 2), trusted_height: Height::new(1, 4) },
        signatures: vec![],
    };
    assert_eq!(lc.check_misbehaviour(&far, &CS), Err(RelayError::HeightNotAvailable));
}

#[test]
fn wrapper_forwards() {
    let lc = PsqlLightClient(client());
    assert_eq!(lc.fetch(Height::new(1, 2)), Ok(block(1, 2, 1, 1)));
    assert_eq!(lc.fetch(Height::new(1, 0)), Err(RelayError::HeightNotAvailable));
    assert_eq!(lc.verify(Height::new(1, 4), Height::new(1, 6), &CS, 50), Ok(block(1, 6, 2, 3)));
    let v = lc.header_and_minimal_set(Height::new(1, 1), Height::new(1, 9), &CS, 50).unwrap();
    assert_eq!(v.supporting.len(), 2);
}

#[test]
fn duplicate_block_height_is_refused() {
    let mut lc = client();
    assert!(!lc.add_block(block(1, 2, 7, 7)));
    assert_eq!(lc.fetch(Height::new(1, 2)), Ok(block(1, 2, 1, 1)));
}

#[test]
fn search_backtracks_from_a_dead_end() {
    // From 1, blocks 2 and 3 are both signed by the announced set; only 2
    // announces the set that signs the target at 4.
    let mut lc = LightClient::new();
    assert!(lc.add_block(block(1, 1, 1, 1)));
    assert!(lc.add_block(block(1, 2, 1, 5)));
    assert!(lc.add_block(block(1, 3, 1, 6)));
    assert!(lc.add_block(block(1, 4, 5, 5)));
    let v = lc.header_and_minimal_set(Height::new(1, 1), Height::new(1, 4), &CS, 0).unwrap();
    assert_eq!(v.supporting.len(), 1);
    assert_eq!(v.supporting[0].block.height, Height::new(1, 2));
    assert_eq!(v.supporting[0].trusted_height, Height::new(1, 1));
    assert_eq!(v.target.trusted_height, Height::new(1, 2));
    assert_eq!(v.target.block, block(1, 4, 5, 5));
}

#[test]
fn shortest_chain_is_returned() {
    // 1 announces A; 2 (signed by A) announces C; 3 (signed by A) announces
    // B; 4 (signed by B) announces C; 5 is signed by C. Both 1-3-4-5 and
    // 1-2-5 lead to 5: the shorter one comes back.
    let mut lc = LightClient::new();
    assert!(lc.add_block(block(1, 1, 0, 1)));
    assert!(lc.add_block(block(1, 2, 1, 3)));
    assert!(lc.add_block(block(1, 3, 1, 2)));
    assert!(lc.add_block(block(1, 4, 2, 3)));
    assert!(lc.add_block(block(1, 5, 3, 3)));
    let v = lc.header_and_minimal_set(Height::new(1, 1), Height::new(1, 5), &CS, 0).unwrap();
    assert_eq!(v.supporting.len(), 1);
    assert_eq!(v.supporting[0].block.height, Height::new(1, 2));
    assert_eq!(v.target.trusted_height, Height::new(1, 2));
    assert_eq!(v.target.block.height, Height::new(1, 5));
}

#[test]
fn latest_of_equally_short_chains_is_returned() {
    // 1 announces A; 2 and 3 are both signed by A and announce C; 4 is
    // signed by C. Both 1-2-4 and 1-3-4 are shortest: the one through the
    // higher block 3 comes back.
    let mut lc = LightClient::new();
    assert!(lc.add_block(block(1, 1, 0, 1)));
    assert!(lc.add_block(block(1, 2, 1, 3)));
    assert!(lc.add_block(block(1, 3, 1, 3)));
    assert!(lc.add_block(block(1, 4, 3, 3)));
    let v = lc.header_and_minimal_set(Height::new(1, 1), Height::new(1, 4), &CS, 0).unwrap();
    assert_eq!(v.supporting.len(), 1);
    assert_eq!(v.supporting[0].block.height, Height::new(1, 3));
    let w = PsqlLightClient(lc).header_and_minimal_set(Height::new(1, 1), Height::new(1, 4), &CS, 0).unwrap();
    assert_eq!(w.supporting[0].block.height, Height::new(1, 3));
}
