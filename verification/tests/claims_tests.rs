use chainindex::claims::{correlate_claim, ClaimMap, ClaimRecord};
use chainindex::txtype::TxType;

fn record(claim_tx: &str, addr: &str, amt: &str) -> ClaimRecord {
    ClaimRecord {
        address: addr.to_string(),
        amount: amt.to_string(),
        claim_tx: claim_tx.to_string(),
        order_tx: format!("order-{claim_tx}"),
        offer_tx: format!("offer-{claim_tx}"),
        dfchtlc_tx: format!("htlc-{claim_tx}"),
    }
}

#[test]
fn matching_txid_yields_claim_fields() {
    let mut m = ClaimMap::new();
    m.insert(record("c1", "addrA", "4.2"));
    let hit = correlate_claim(&TxType::ICXClaimDFCHTLC, &"c1".to_string(), &m);
    let c = hit.expect("claim must be joined");
    assert_eq!(c.address, "addrA");
    assert_eq!(c.amount, "4.2");
    assert_eq!(c.order_tx, "order-c1");
}

#[test]
fn non_matching_txid_yields_nothing_not_an_error() {
    let mut m = ClaimMap::new();
    m.insert(record("c1", "addrA", "4.2"));
    assert!(correlate_claim(&TxType::ICXClaimDFCHTLC, &"other".to_string(), &m).is_none());
    // A non-claim transaction never joins, even on a matching id.
    assert!(correlate_claim(&TxType::PoolSwap, &"c1".to_string(), &m).is_none());
}

#[test]
fn duplicate_claim_key_last_write_wins() {
    let mut m = ClaimMap::new();
    m.insert(record("c1", "first", "1"));
    m.insert(record("c1", "second", "2"));
    assert_eq!(m.len(), 1);
    let c = m.get(&"c1".to_string()).unwrap();
    assert_eq!(c.address, "second");
}
