use vstd::prelude::*;
use crate::model::VmMessage;

verus! {

/// The protocol-level intent tag of a transaction.
///
/// Opcodes the pipeline does not specially handle are carried through
/// verbatim in `Other`.
#[derive(Clone, Debug)]
pub enum TxType {
    Coinbase,
    Utxo,
    Unknown,
    PoolSwap,
    CompositeSwap,
    ICXClaimDFCHTLC,
    Other(String),
}

/// Mathematical view of a tag: the same shape over character sequences.
pub ghost enum TxTypeV {
    Coinbase,
    Utxo,
    Unknown,
    PoolSwap,
    CompositeSwap,
    ICXClaimDFCHTLC,
    Other(Seq<char>),
}

impl View for TxType {
    type V = TxTypeV;

    open spec fn view(&self) -> TxTypeV {
        match self {
            TxType::Coinbase => TxTypeV::Coinbase,
            TxType::Utxo => TxTypeV::Utxo,
            TxType::Unknown => TxTypeV::Unknown,
            TxType::PoolSwap => TxTypeV::PoolSwap,
            TxType::CompositeSwap => TxTypeV::CompositeSwap,
            TxType::ICXClaimDFCHTLC => TxTypeV::ICXClaimDFCHTLC,
            TxType::Other(s) => TxTypeV::Other(s@),
        }
    }
}

/// The tag named by a VM-payload opcode. Recognized opcodes map to their
/// named tag; anything else passes through verbatim.
pub open spec fn tag_of_opcode(op: Seq<char>) -> TxTypeV {
    if op == "Coinbase"@ {
        TxTypeV::Coinbase
    } else if op == "Utxo"@ {
        TxTypeV::Utxo
    } else if op == "Unknown"@ {
        TxTypeV::Unknown
    } else if op == "PoolSwap"@ {
        TxTypeV::PoolSwap
    } else if op == "CompositeSwap"@ {
        TxTypeV::CompositeSwap
    } else if op == "ICXClaimDFCHTLC"@ {
        TxTypeV::ICXClaimDFCHTLC
    } else {
        TxTypeV::Other(op)
    }
}

/// Classification rule: no resolvable input addresses means Coinbase,
/// whatever the VM payload says; otherwise the opcode's tag when a VM
/// payload is present; otherwise plain Utxo.
pub open spec fn classify_spec(tx_in_addrs: Seq<(String, String)>, vm: Option<VmMessage>) -> TxTypeV {
    if tx_in_addrs.len() == 0 {
        TxTypeV::Coinbase
    } else {
        match vm {
            Some(m) => tag_of_opcode(m.opcode@),
            None => TxTypeV::Utxo,
        }
    }
}

fn opcode_is(op: &String, lit: &str) -> (b: bool)
    ensures
        b == (op@ == lit@),
{
    let l = String::from_str(lit);
    *op == l
}

/// Maps an opcode string to its tag.
pub fn tx_type_of_opcode(op: &String) -> (t: TxType)
    ensures
        t@ == tag_of_opcode(op@),
{
    if opcode_is(op, "Coinbase") {
        TxType::Coinbase
    } else if opcode_is(op, "Utxo") {
        TxType::Utxo
    } else if opcode_is(op, "Unknown") {
        TxType::Unknown
    } else if opcode_is(op, "PoolSwap") {
        TxType::PoolSwap
    } else if opcode_is(op, "CompositeSwap") {
        TxType::CompositeSwap
    } else if opcode_is(op, "ICXClaimDFCHTLC") {
        TxType::ICXClaimDFCHTLC
    } else {
        TxType::Other(op.clone())
    }
}

/// Classifies a transaction from its resolved input addresses and its VM
/// payload. The result is a pure function of the two arguments, and an empty
/// input set always yields Coinbase, VM payload or not.
pub fn classify(tx_in_addrs: &Vec<(String, String)>, vm: &Option<VmMessage>) -> (t: TxType)
    ensures
        t@ == classify_spec(tx_in_addrs@, *vm),
        tx_in_addrs@.len() == 0 ==> t@ == TxTypeV::Coinbase,
{
    if tx_in_addrs.len() == 0 {
        TxType::Coinbase
    } else {
        match vm {
            Some(m) => tx_type_of_opcode(&m.opcode),
            None => TxType::Utxo,
        }
    }
}

/// The string form of a tag, as persisted in the transaction row.
pub open spec fn tag_str(t: TxTypeV) -> Seq<char> {
    match t {
        TxTypeV::Coinbase => "Coinbase"@,
        TxTypeV::Utxo => "Utxo"@,
        TxTypeV::Unknown => "Unknown"@,
        TxTypeV::PoolSwap => "PoolSwap"@,
        TxTypeV::CompositeSwap => "CompositeSwap"@,
        TxTypeV::ICXClaimDFCHTLC => "ICXClaimDFCHTLC"@,
        TxTypeV::Other(s) => s,
    }
}

impl TxType {
    /// Renders the tag for persistence; unrecognized opcodes come back
    /// verbatim.
    pub fn to_tag(&self) -> (r: String)
        ensures
            r@ == tag_str(self@),
    {
        match self {
            TxType::Coinbase => String::from_str("Coinbase"),
            TxType::Utxo => String::from_str("Utxo"),
            TxType::Unknown => String::from_str("Unknown"),
            TxType::PoolSwap => String::from_str("PoolSwap"),
            TxType::CompositeSwap => String::from_str("CompositeSwap"),
            TxType::ICXClaimDFCHTLC => String::from_str("ICXClaimDFCHTLC"),
            TxType::Other(s) => s.clone(),
        }
    }
}

/// Whether address extraction scans the VM payload for this tag: every tag
/// except Coinbase, Utxo and Unknown.
pub open spec fn scans_vm_payload(t: TxTypeV) -> bool {
    !(t is Coinbase || t is Utxo || t is Unknown)
}

/// Executable form of `scans_vm_payload`.
pub fn wants_vm_scan(t: &TxType) -> (b: bool)
    ensures
        b == scans_vm_payload(t@),
{
    match t {
        TxType::Coinbase => false,
        TxType::Utxo => false,
        TxType::Unknown => false,
        _ => true,
    }
}

} // verus!
