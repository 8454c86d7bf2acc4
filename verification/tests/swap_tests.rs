use chainindex::model::VmMessage;
use chainindex::swap::{format_fixed9, swap_descriptor, token_id_to_symbol_maybe, u64_dec};

#[test]
fn swap_amount_formats_nine_decimals() {
    assert_eq!(format_fixed9(1_500_000_000), "1.500000000");
}

#[test]
fn swap_amount_edge_values() {
    assert_eq!(format_fixed9(0), "0.000000000");
    assert_eq!(format_fixed9(1), "0.000000001");
    assert_eq!(format_fixed9(123_456_789_012), "123.456789012");
    assert_eq!(format_fixed9(1_000_000_000), "1.000000000");
}

#[test]
fn decimal_rendering() {
    assert_eq!(u64_dec(0), "0");
    assert_eq!(u64_dec(10), "10");
    assert_eq!(u64_dec(90210), "90210");
}

#[test]
fn token_symbols() {
    assert_eq!(token_id_to_symbol_maybe(&"0".to_string()), "DFI");
    assert_eq!(token_id_to_symbol_maybe(&"2".to_string()), "BTC");
    // An unknown id passes through as itself, not an error.
    assert_eq!(token_id_to_symbol_maybe(&"999".to_string()), "999");
}

#[test]
fn swap_descriptor_requires_fields() {
    let vm = VmMessage {
        opcode: "PoolSwap".to_string(),
        text: String::new(),
        from_token: Some("0".to_string()),
        to_token: None,
        from_amount_nanos: Some(1_500_000_000),
    };
    assert!(swap_descriptor(&vm).is_err());
    let full = VmMessage { to_token: Some("2".to_string()), ..vm };
    let info = swap_descriptor(&full).unwrap();
    assert_eq!(info.from_symbol, "DFI");
    assert_eq!(info.to_symbol, "BTC");
    assert_eq!(info.amount, "1.500000000");
}
