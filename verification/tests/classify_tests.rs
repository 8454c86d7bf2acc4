use chainindex::model::VmMessage;
use chainindex::txtype::{classify, tx_type_of_opcode, wants_vm_scan, TxType};

fn vm(opcode: &str) -> Option<VmMessage> {
    Some(VmMessage {
        opcode: opcode.to_string(),
        text: String::new(),
        from_token: None,
        to_token: None,
        from_amount_nanos: None,
    })
}

fn ins(addrs: &[&str]) -> Vec<(String, String)> {
    addrs.iter().map(|a| (a.to_string(), "1".to_string())).collect()
}

#[test]
fn classification_is_idempotent() {
    let inputs = ins(&["8JBuS81VT8ouPrT6vkF1KnLskXqcs4tmVw"]);
    let v = vm("PoolSwap");
    let first = classify(&inputs, &v).to_tag();
    let second = classify(&inputs, &v).to_tag();
    assert_eq!(first, second);
    assert_eq!(first, "PoolSwap");
}

#[test]
fn coinbase_precedence_over_vm_opcode() {
    let empty_inputs: Vec<(String, String)> = Vec::new();
    let t = classify(&empty_inputs, &vm("PoolSwap"));
    assert!(matches!(t, TxType::Coinbase));
    assert_eq!(t.to_tag(), "Coinbase");
}

#[test]
fn missing_vm_payload_is_utxo() {
    let t = classify(&ins(&["a"]), &None);
    assert_eq!(t.to_tag(), "Utxo");
}

#[test]
fn unknown_opcode_passes_through() {
    let t = tx_type_of_opcode(&"CreateMasternode".to_string());
    assert!(matches!(t, TxType::Other(_)));
    assert_eq!(t.to_tag(), "CreateMasternode");
    let u = classify(&ins(&["a"]), &vm("AccountToAccount"));
    assert_eq!(u.to_tag(), "AccountToAccount");
}

#[test]
fn scan_worthiness_follows_tag() {
    assert!(!wants_vm_scan(&TxType::Coinbase));
    assert!(!wants_vm_scan(&TxType::Utxo));
    assert!(!wants_vm_scan(&TxType::Unknown));
    assert!(wants_vm_scan(&TxType::PoolSwap));
    assert!(wants_vm_scan(&TxType::Other("AnyMessage".to_string())));
}
