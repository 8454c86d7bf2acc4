use vstd::prelude::*;
use crate::model::{IndexError, VmMessage};
use crate::util::eq_lit;

verus! {

/// The character for one decimal digit.
pub open spec fn digit_char(d: nat) -> char {
    if d == 0 {
        '0'
    } else if d == 1 {
        '1'
    } else if d == 2 {
        '2'
    } else if d == 3 {
        '3'
    } else if d == 4 {
        '4'
    } else if d == 5 {
        '5'
    } else if d == 6 {
        '6'
    } else if d == 7 {
        '7'
    } else if d == 8 {
        '8'
    } else {
        '9'
    }
}

/// The decimal digits of n, most significant first, no leading zeros.
pub open spec fn dec_str(n: nat) -> Seq<char>
    decreases n,
{
    if n < 10 {
        seq![digit_char(n)]
    } else {
        dec_str(n / 10).push(digit_char(n % 10))
    }
}

/// The last `w` decimal digits of n, zero-padded to exactly `w` characters.
pub open spec fn dec_pad(n: nat, w: nat) -> Seq<char>
    decreases w,
{
    if w == 0 {
        Seq::empty()
    } else {
        dec_pad(n / 10, (w - 1) as nat).push(digit_char(n % 10))
    }
}

/// An amount held in billionths of a unit, rendered with exactly nine
/// decimal places.
pub open spec fn fixed9_str(nanos: nat) -> Seq<char> {
    dec_str(nanos / 1000000000) + seq!['.'] + dec_pad(nanos % 1000000000, 9)
}

fn digit_string(d: u64) -> (r: String)
    requires
        d < 10,
    ensures
        r@ == seq![digit_char(d as nat)],
{
    let r = if d == 0 {
        String::from_str("0")
    } else if d == 1 {
        String::from_str("1")
    } else if d == 2 {
        String::from_str("2")
    } else if d == 3 {
        String::from_str("3")
    } else if d == 4 {
        String::from_str("4")
    } else if d == 5 {
        String::from_str("5")
    } else if d == 6 {
        String::from_str("6")
    } else if d == 7 {
        String::from_str("7")
    } else if d == 8 {
        String::from_str("8")
    } else {
        String::from_str("9")
    };
    proof {
        reveal_strlit("0");
        reveal_strlit("1");
        reveal_strlit("2");
        reveal_strlit("3");
        reveal_strlit("4");
        reveal_strlit("5");
        reveal_strlit("6");
        reveal_strlit("7");
        reveal_strlit("8");
        reveal_strlit("9");
        assert(r@ =~= seq![digit_char(d as nat)]);
    }
    r
}

/// Renders an integer in decimal.
pub fn u64_dec(n: u64) -> (r: String)
    ensures
        r@ == dec_str(n as nat),
    decreases n,
{
    if n < 10 {
        digit_string(n)
    } else {
        let mut s = u64_dec(n / 10);
        let d = digit_string(n % 10);
        s.append(d.as_str());
        s
    }
}

/// Renders the last `w` decimal digits of an integer, zero-padded.
pub fn u64_dec_pad(n: u64, w: u64) -> (r: String)
    ensures
        r@ == dec_pad(n as nat, w as nat),
    decreases w,
{
    if w == 0 {
        let r = String::new();
        proof {
            assert(r@ =~= dec_pad(n as nat, 0));
        }
        r
    } else {
        let mut s = u64_dec_pad(n / 10, w - 1);
        let d = digit_string(n % 10);
        s.append(d.as_str());
        s
    }
}

/// Formats a swap amount held in billionths of a unit with fixed 9-decimal
/// precision: 1500000000 becomes "1.500000000".
pub fn format_fixed9(nanos: u64) -> (r: String)
    ensures
        r@ == fixed9_str(nanos as nat),
{
    let mut s = u64_dec(nanos / 1000000000);
    s.append(".");
    let frac = u64_dec_pad(nanos % 1000000000, 9);
    s.append(frac.as_str());
    proof {
        reveal_strlit(".");
        assert(s@ =~= fixed9_str(nanos as nat));
    }
    s
}

/// The human-readable symbol of a token id; an unknown id passes through as
/// itself.
pub open spec fn symbol_of(id: Seq<char>) -> Seq<char> {
    if id == "0"@ {
        "DFI"@
    } else if id == "1"@ {
        "ETH"@
    } else if id == "2"@ {
        "BTC"@
    } else if id == "3"@ {
        "USDT"@
    } else if id == "7"@ {
        "DOGE"@
    } else if id == "9"@ {
        "LTC"@
    } else if id == "11"@ {
        "BCH"@
    } else if id == "13"@ {
        "USDC"@
    } else {
        id
    }
}

/// Maps a token id to its symbol via the lookup table; unknown ids pass
/// through unchanged rather than failing.
pub fn token_id_to_symbol_maybe(id: &String) -> (r: String)
    ensures
        r@ == symbol_of(id@),
{
    if eq_lit(id, "0") {
        String::from_str("DFI")
    } else if eq_lit(id, "1") {
        String::from_str("ETH")
    } else if eq_lit(id, "2") {
        String::from_str("BTC")
    } else if eq_lit(id, "3") {
        String::from_str("USDT")
    } else if eq_lit(id, "7") {
        String::from_str("DOGE")
    } else if eq_lit(id, "9") {
        String::from_str("LTC")
    } else if eq_lit(id, "11") {
        String::from_str("BCH")
    } else if eq_lit(id, "13") {
        String::from_str("USDC")
    } else {
        id.clone()
    }
}

/// The swap descriptor persisted for a PoolSwap transaction.
#[derive(Clone, Debug)]
pub struct SwapInfo {
    pub from_symbol: String,
    pub to_symbol: String,
    pub amount: String,
}

/// Extracts the swap descriptor from a PoolSwap payload. A payload missing
/// one of the swap fields violates the data model and is fatal.
pub fn swap_descriptor(vm: &VmMessage) -> (r: Result<SwapInfo, IndexError>)
    ensures
        r is Ok <==> (vm.from_token is Some && vm.to_token is Some
            && vm.from_amount_nanos is Some),
        r matches Ok(s) ==> vm.from_token matches Some(f) ==> vm.to_token matches Some(t)
            ==> vm.from_amount_nanos matches Some(n) ==> (s.from_symbol@ == symbol_of(f@)
            && s.to_symbol@ == symbol_of(t@) && s.amount@ == fixed9_str(n as nat)),
        r matches Err(e) ==> e is SerializationFailure,
{
    match (&vm.from_token, &vm.to_token, &vm.from_amount_nanos) {
        (Some(f), Some(t), Some(n)) => Ok(
            SwapInfo {
                from_symbol: token_id_to_symbol_maybe(f),
                to_symbol: token_id_to_symbol_maybe(t),
                amount: format_fixed9(*n),
            },
        ),
        _ => Err(IndexError::SerializationFailure),
    }
}

} // verus!
