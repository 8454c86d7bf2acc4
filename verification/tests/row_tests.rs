use chainindex::claims::{ClaimMap, ClaimRecord};
use chainindex::model::{resolve_inputs, InputRef, TxData, VmMessage};
use chainindex::rows::process_tx;

const LEGACY_A: &str = "8JBuS81VT8ouPrT6vkF1KnLskXqcs4tmVw";
const LEGACY_B: &str = "dFFPENo7FPMJpDV6fUcfo4QfkZrfrV1Uf8";

fn plain_tx(txid: &str, vm: Option<VmMessage>, vout: Vec<(String, String)>) -> TxData {
    TxData { txid: txid.to_string(), raw_json: format!("{{\"txid\":\"{txid}\"}}"), vm, vout }
}

fn pairs(list: &[(&str, &str)]) -> Vec<(String, String)> {
    list.iter().map(|(a, v)| (a.to_string(), v.to_string())).collect()
}

#[test]
fn coinbase_row_has_empty_optional_columns() {
    let tx = plain_tx("t1", None, pairs(&[("x", "5"), ("dest", "5")]));
    let claims = ClaimMap::new();
    let no_inputs: Vec<(String, String)> = Vec::new();
    let p = process_tx(&tx, 7, &no_inputs, &claims, true).unwrap();
    assert_eq!(p.row.tx_type, "Coinbase");
    assert_eq!(p.row.height, 7);
    assert_eq!(p.row.tx_in_json, "");
    // The raw output list was non-empty, so the column holds the filtered
    // object, coinbase marker excluded.
    assert_eq!(p.row.tx_out_json, "{\"dest\":\"5\"}");
    assert_eq!(p.row.dvm_addrs_json, "");
    assert_eq!(p.row.icx_json, "");
    assert_eq!(p.row.swap_amt, "");
    assert_eq!(p.edges.entries().len(), 0);
}

#[test]
fn pool_swap_row_carries_swap_descriptor() {
    let vm = VmMessage {
        opcode: "PoolSwap".to_string(),
        text: format!("{{\"from\":\"{LEGACY_A}\",\"to\":\"{LEGACY_B}\"}}"),
        from_token: Some("0".to_string()),
        to_token: Some("2".to_string()),
        from_amount_nanos: Some(1_500_000_000),
    };
    let tx = plain_tx("swap1", Some(vm), pairs(&[(LEGACY_B, "1")]));
    let claims = ClaimMap::new();
    let ins = pairs(&[(LEGACY_A, "2")]);
    let p = process_tx(&tx, 9, &ins, &claims, true).unwrap();
    assert_eq!(p.row.tx_type, "PoolSwap");
    assert_eq!(p.row.swap_from, "DFI");
    assert_eq!(p.row.swap_to, "BTC");
    assert_eq!(p.row.swap_amt, "1.500000000");
    // Both payload addresses were found, in order of first appearance.
    assert_eq!(p.dvm_addrs, vec![LEGACY_A.to_string(), LEGACY_B.to_string()]);
    assert_eq!(
        p.row.dvm_addrs_json,
        format!("[\"{LEGACY_A}\",\"{LEGACY_B}\"]")
    );
    assert_eq!(p.row.tx_in_json, format!("[[\"{LEGACY_A}\",\"2\"]]"));
    // Seed (A, swap1, B) at 0; M_in = {A}, M_out = {B}... both present, so
    // the directional pair (B, swap1, A) lands at 1.
    assert_eq!(p.edges.get_level(&LEGACY_A.to_string(), &"swap1".to_string(), &LEGACY_B.to_string()), Some(0));
    assert_eq!(p.edges.get_level(&LEGACY_B.to_string(), &"swap1".to_string(), &LEGACY_A.to_string()), Some(1));
}

#[test]
fn claim_row_joins_by_txid() {
    let vm = VmMessage {
        opcode: "ICXClaimDFCHTLC".to_string(),
        text: String::new(),
        from_token: None,
        to_token: None,
        from_amount_nanos: None,
    };
    let tx = plain_tx("claimtx", Some(vm), Vec::new());
    let mut claims = ClaimMap::new();
    claims.insert(ClaimRecord {
        address: "addr9".to_string(),
        amount: "0.5".to_string(),
        claim_tx: "claimtx".to_string(),
        order_tx: "o1".to_string(),
        offer_tx: "f1".to_string(),
        dfchtlc_tx: "h1".to_string(),
    });
    let ins = pairs(&[("someinput", "1")]);
    let p = process_tx(&tx, 3, &ins, &claims, false).unwrap();
    assert_eq!(p.row.icx_addr, "addr9");
    assert_eq!(p.row.icx_amt, "0.5");
    assert_eq!(
        p.row.icx_json,
        "{\"claim_tx\":\"claimtx\",\"dfchtlc_tx\":\"h1\",\"offer_tx\":\"f1\",\"order_tx\":\"o1\"}"
    );
    assert_eq!(p.edges.entries().len(), 0);
}

#[test]
fn unmatched_claim_leaves_fields_empty() {
    let vm = VmMessage {
        opcode: "ICXClaimDFCHTLC".to_string(),
        text: String::new(),
        from_token: None,
        to_token: None,
        from_amount_nanos: None,
    };
    let tx = plain_tx("lonely", Some(vm), Vec::new());
    let claims = ClaimMap::new();
    let ins = pairs(&[("someinput", "1")]);
    let p = process_tx(&tx, 3, &ins, &claims, false).unwrap();
    assert_eq!(p.row.icx_addr, "");
    assert_eq!(p.row.icx_amt, "");
    assert_eq!(p.row.icx_json, "");
}

#[test]
fn repeated_output_address_keeps_later_value() {
    let tx = plain_tx("t2", None, pairs(&[("dest", "1"), ("x", "9"), ("dest", "2")]));
    let claims = ClaimMap::new();
    let no_inputs: Vec<(String, String)> = Vec::new();
    let p = process_tx(&tx, 1, &no_inputs, &claims, false).unwrap();
    assert_eq!(p.row.tx_out_json, "{\"dest\":\"2\"}");
}

#[test]
fn malformed_pool_swap_payload_is_fatal() {
    let vm = VmMessage {
        opcode: "PoolSwap".to_string(),
        text: String::new(),
        from_token: Some("0".to_string()),
        to_token: None,
        from_amount_nanos: None,
    };
    let tx = plain_tx("bad", Some(vm), Vec::new());
    let claims = ClaimMap::new();
    let ins = pairs(&[("a", "1")]);
    assert!(process_tx(&tx, 1, &ins, &claims, false).is_err());
}

#[test]
fn missing_prior_output_contributes_nothing() {
    let refs = vec![
        InputRef { prior_outputs: Some(pairs(&[("a", "1"), ("b", "2")])), vout_index: 1 },
        InputRef { prior_outputs: None, vout_index: 0 },
        InputRef { prior_outputs: Some(pairs(&[("c", "3")])), vout_index: 5 },
    ];
    let resolved = resolve_inputs(&refs);
    assert_eq!(resolved, pairs(&[("b", "2")]));
}
