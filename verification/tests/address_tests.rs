use chainindex::addresses::{extract_dfi_addresses, is_valid_address};

const LEGACY_A: &str = "8JBuS81VT8ouPrT6vkF1KnLskXqcs4tmVw";
const LEGACY_B: &str = "dFFPENo7FPMJpDV6fUcfo4QfkZrfrV1Uf8";

fn native() -> String {
    format!("df1{}", "q".repeat(39))
}

#[test]
fn recognizes_both_formats() {
    assert!(is_valid_address(LEGACY_A));
    assert!(is_valid_address(LEGACY_B));
    assert!(is_valid_address(&native()));
    // '0' is outside the legacy alphabet.
    assert!(!is_valid_address("80BuS81VT8ouPrT6vkF1KnLskXqcs4tmVw"));
    assert!(!is_valid_address("tooshort"));
}

#[test]
fn extracts_distinct_addresses_in_order() {
    let n = native();
    let payload = format!(
        "{{\"from\":\"{a}\",\"to\":\"{n}\",\"echo\":\"{a}\"}}",
        a = LEGACY_A,
        n = n
    );
    let found = extract_dfi_addresses(&payload);
    assert_eq!(found, vec![LEGACY_A.to_string(), n]);
}

#[test]
fn ignores_invalid_runs() {
    let payload = format!("xyz {} 123notanaddress", LEGACY_B);
    let found = extract_dfi_addresses(&payload);
    assert_eq!(found, vec![LEGACY_B.to_string()]);
}

#[test]
fn empty_payload_finds_nothing() {
    assert!(extract_dfi_addresses("").is_empty());
}
