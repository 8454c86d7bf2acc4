use vstd::prelude::*;
use crate::addresses::{extract_dfi_addresses, token_at, valid_address};
use crate::claims::{correlate_claim, ClaimMap, ClaimRecord, ClaimV};
use crate::encode::{
    json_list_str, json_object_str, json_pairs_str, pairs_kv_map, to_json_object,
    to_json_pairs_list, to_json_string_list,
};
use crate::graph::{infer_edges, inferred_map, out_addrs, pair_addrs, str_addrs, Changeset, EdgeKey};
use crate::model::{IndexError, TxData};
use crate::swap::{fixed9_str, swap_descriptor, symbol_of};
use crate::txtype::{classify, classify_spec, scans_vm_payload, tag_str, TxType};
use crate::util::{dv_pairs, dv_strs, eq_lit};

verus! {

/// One row of the blocks table.
#[derive(Clone, Debug)]
pub struct BlockRow {
    pub height: u64,
    pub hash: String,
    pub block_json: String,
}

impl BlockRow {
    /// Builds the block row persisted for one height.
    pub fn new(height: u64, hash: String, block_json: String) -> (r: BlockRow)
        ensures
            r.height == height,
            r.hash@ == hash@,
            r.block_json@ == block_json@,
    {
        BlockRow { height, hash, block_json }
    }
}

/// One row of the transactions table, every column already rendered to the
/// string persisted; columns that do not apply hold the empty string.
#[derive(Clone, Debug)]
pub struct TxRow {
    pub txid: String,
    pub height: u64,
    pub tx_type: String,
    pub tx_in_json: String,
    pub tx_out_json: String,
    pub dvm_addrs_json: String,
    pub tx_json: String,
    pub icx_json: String,
    pub icx_addr: String,
    pub icx_amt: String,
    pub swap_from: String,
    pub swap_to: String,
    pub swap_amt: String,
}

/// The output mapping persisted for a transaction: output address to value,
/// the coinbase marker address excluded, a repeated address keeping the
/// later value.
pub open spec fn out_kv_map(s: Seq<(String, String)>) -> Map<Seq<char>, Seq<char>>
    decreases s.len(),
{
    if s.len() == 0 {
        Map::empty()
    } else {
        let rest = out_kv_map(s.drop_last());
        if s.last().0@ == "x"@ {
            rest
        } else {
            rest.insert(s.last().0@, s.last().1@)
        }
    }
}

/// The four correlated transaction ids of a claim, keyed by their column
/// names.
pub open spec fn icx_kv(c: ClaimV) -> Map<Seq<char>, Seq<char>> {
    Map::<Seq<char>, Seq<char>>::empty().insert("order_tx"@, c.order_tx).insert(
        "claim_tx"@,
        c.claim_tx,
    ).insert("offer_tx"@, c.offer_tx).insert("dfchtlc_tx"@, c.dfchtlc_tx)
}

/// Everything derived from one transaction: its row, the addresses found in
/// its VM payload, and its inferred graph edges.
pub struct ProcessedTx {
    pub row: TxRow,
    pub dvm_addrs: Vec<String>,
    pub edges: Changeset,
}

#[verifier::loop_isolation(false)]
fn find_key(pairs: &Vec<(String, String)>, key: &String) -> (r: Option<usize>)
    ensures
        match r {
            Some(i) => 0 <= i < pairs@.len() && pairs@[i as int].0@ == key@,
            None => forall|j: int| 0 <= j < pairs@.len() ==> pairs@[j].0@ != key@,
        },
{
    let mut i: usize = 0;
    while i < pairs.len()
        invariant
            i <= pairs@.len(),
            forall|j: int| 0 <= j < i ==> pairs@[j].0@ != key@,
        decreases pairs@.len() - i,
    {
        if pairs[i].0 == *key {
            return Some(i);
        }
        i = i + 1;
    }
    None
}

proof fn lemma_pairs_kv_map_update(s: Seq<(String, String)>, i: int, p: (String, String))
    requires
        forall|a: int, b: int| 0 <= a < b < s.len() ==> s[a].0@ != s[b].0@,
        0 <= i < s.len(),
        p.0@ == s[i].0@,
    ensures
        pairs_kv_map(s.update(i, p)) == pairs_kv_map(s).insert(p.0@, p.1@),
    decreases s.len(),
{
    if i == s.len() - 1 {
        assert(s.update(i, p).drop_last() =~= s.drop_last());
        assert(s.update(i, p).last() == p);
        assert(pairs_kv_map(s.update(i, p)) =~= pairs_kv_map(s).insert(p.0@, p.1@));
    } else {
        assert(s.drop_last().update(i, p) =~= s.update(i, p).drop_last());
        assert(s.update(i, p).last() == s.last());
        lemma_pairs_kv_map_update(s.drop_last(), i, p);
        assert(s.last().0@ != p.0@);
        assert(pairs_kv_map(s.update(i, p)) =~= pairs_kv_map(s).insert(p.0@, p.1@));
    }
}

fn icx_pairs_for(c: &ClaimRecord) -> (v: Vec<(String, String)>)
    ensures
        pairs_kv_map(v@) == icx_kv(c@),
        forall|a: int, b: int| 0 <= a < b < v@.len() ==> v@[a].0@ != v@[b].0@,
{
    let mut v: Vec<(String, String)> = Vec::new();
    let ghost s0 = v@;
    v.push((String::from_str("order_tx"), c.order_tx.clone()));
    let ghost s1 = v@;
    v.push((String::from_str("claim_tx"), c.claim_tx.clone()));
    let ghost s2 = v@;
    v.push((String::from_str("offer_tx"), c.offer_tx.clone()));
    let ghost s3 = v@;
    v.push((String::from_str("dfchtlc_tx"), c.dfchtlc_tx.clone()));
    proof {
        assert(s1.drop_last() =~= s0);
        assert(s2.drop_last() =~= s1);
        assert(s3.drop_last() =~= s2);
        assert(v@.drop_last() =~= s3);
        assert(pairs_kv_map(s0) == Map::<Seq<char>, Seq<char>>::empty());
        assert(pairs_kv_map(s1) == pairs_kv_map(s0).insert("order_tx"@, c.order_tx@));
        assert(pairs_kv_map(s2) == pairs_kv_map(s1).insert("claim_tx"@, c.claim_tx@));
        assert(pairs_kv_map(s3) == pairs_kv_map(s2).insert("offer_tx"@, c.offer_tx@));
        assert(pairs_kv_map(v@) == pairs_kv_map(s3).insert("dfchtlc_tx"@, c.dfchtlc_tx@));
        assert(pairs_kv_map(v@) == icx_kv(c@));
        reveal_strlit("order_tx");
        reveal_strlit("claim_tx");
        reveal_strlit("offer_tx");
        reveal_strlit("dfchtlc_tx");
        assert(v@.len() == 4);
        assert(v@[0].0@ == "order_tx"@);
        assert(v@[1].0@ == "claim_tx"@);
        assert(v@[2].0@ == "offer_tx"@);
        assert(v@[3].0@ == "dfchtlc_tx"@);
        assert("order_tx"@ != "claim_tx"@) by {
            if "order_tx"@ == "claim_tx"@ {
                assert("order_tx"@[0] == "claim_tx"@[0]);
                assert(false);
            }
        }
        assert("order_tx"@ != "offer_tx"@) by {
            if "order_tx"@ == "offer_tx"@ {
                assert("order_tx"@[1] == "offer_tx"@[1]);
                assert(false);
            }
        }
        assert("claim_tx"@ != "offer_tx"@) by {
            if "claim_tx"@ == "offer_tx"@ {
                assert("claim_tx"@[0] == "offer_tx"@[0]);
                assert(false);
            }
        }
        assert("order_tx"@ != "dfchtlc_tx"@) by {
            if "order_tx"@ == "dfchtlc_tx"@ {
                assert("order_tx"@.len() == "dfchtlc_tx"@.len());
                assert(false);
            }
        }
        assert("claim_tx"@ != "dfchtlc_tx"@) by {
            if "claim_tx"@ == "dfchtlc_tx"@ {
                assert("claim_tx"@.len() == "dfchtlc_tx"@.len());
                assert(false);
            }
        }
        assert("offer_tx"@ != "dfchtlc_tx"@) by {
            if "offer_tx"@ == "dfchtlc_tx"@ {
                assert("offer_tx"@.len() == "dfchtlc_tx"@.len());
                assert(false);
            }
        }
    }
    v
}

/// Classifies one transaction and derives everything persisted for it:
/// the rendered transaction row, the VM-payload addresses, and the inferred
/// edge changeset (empty when the graph table is disabled). Classification
/// and extraction anomalies degrade to empty columns; the one error is a
/// pool-swap payload missing a swap field, and the contract says so exactly.
#[verifier::loop_isolation(false)]
#[verifier::rlimit(80)]
pub fn process_tx(
    tx: &TxData,
    height: u64,
    tx_in_addrs: &Vec<(String, String)>,
    claims: &ClaimMap,
    graph_enabled: bool,
) -> (r: Result<ProcessedTx, IndexError>)
    requires
        claims.wf(),
    ensures
        r matches Err(e) ==> e is SerializationFailure,
        r is Ok <==> (classify_spec(tx_in_addrs@, tx.vm) is PoolSwap && tx.vm is Some ==> ((
        tx.vm->0).from_token is Some && (tx.vm->0).to_token is Some && (
        tx.vm->0).from_amount_nanos is Some)),
        r matches Ok(p) ==> ({
            let t = classify_spec(tx_in_addrs@, tx.vm);
            &&& p.row.txid@ == tx.txid@
            &&& p.row.height == height
            &&& p.row.tx_type@ == tag_str(t)
            &&& p.row.tx_json@ == tx.raw_json@
            &&& p.row.tx_in_json@ == (if tx_in_addrs@.len() == 0 {
                Seq::<char>::empty()
            } else {
                json_pairs_str(dv_pairs(tx_in_addrs@))
            })
            &&& p.row.tx_out_json@ == (if tx.vout@.len() == 0 {
                Seq::<char>::empty()
            } else {
                json_object_str(out_kv_map(tx.vout@))
            })
            &&& p.row.dvm_addrs_json@ == (if p.dvm_addrs@.len() == 0 {
                Seq::<char>::empty()
            } else {
                json_list_str(dv_strs(p.dvm_addrs@))
            })
            &&& (!scans_vm_payload(t) ==> p.dvm_addrs@.len() == 0)
            &&& (tx.vm matches Some(m) ==> scans_vm_payload(t) ==> ({
                &&& (forall|a: int, b: int|
                    0 <= a < b < p.dvm_addrs@.len() ==> p.dvm_addrs@[a]@ != p.dvm_addrs@[b]@)
                &&& (forall|a: int|
                    0 <= a < p.dvm_addrs@.len() ==> valid_address(#[trigger] p.dvm_addrs@[a]@)
                        && exists|i: int, j: int|
                        token_at(m.text@, i, j) && m.text@.subrange(i, j) == p.dvm_addrs@[a]@)
                &&& (forall|i: int, j: int|
                    token_at(m.text@, i, j) && valid_address(m.text@.subrange(i, j)) ==> exists|
                        a: int,
                    |
                        0 <= a < p.dvm_addrs@.len() && #[trigger] p.dvm_addrs@[a]@
                            == m.text@.subrange(i, j))
            }))
            &&& p.edges.wf()
            &&& (graph_enabled ==> p.edges@ == inferred_map(
                tx.txid@,
                pair_addrs(tx_in_addrs@),
                out_addrs(tx.vout@),
                str_addrs(p.dvm_addrs@),
            ))
            &&& (!graph_enabled ==> p.edges@ == Map::<EdgeKey, u8>::empty())
            &&& ((t is ICXClaimDFCHTLC && claims@.contains_key(tx.txid@)) ==> ({
                &&& p.row.icx_addr@ == claims@[tx.txid@].address
                &&& p.row.icx_amt@ == claims@[tx.txid@].amount
                &&& p.row.icx_json@ == json_object_str(icx_kv(claims@[tx.txid@]))
            }))
            &&& (!(t is ICXClaimDFCHTLC && claims@.contains_key(tx.txid@)) ==> ({
                &&& p.row.icx_addr@ == Seq::<char>::empty()
                &&& p.row.icx_amt@ == Seq::<char>::empty()
                &&& p.row.icx_json@ == Seq::<char>::empty()
            }))
            &&& (tx.vm matches Some(m) ==> t is PoolSwap ==> ({
                &&& m.from_token is Some && m.to_token is Some && m.from_amount_nanos is Some
                &&& p.row.swap_from@ == symbol_of((m.from_token->0)@)
                &&& p.row.swap_to@ == symbol_of((m.to_token->0)@)
                &&& p.row.swap_amt@ == fixed9_str((m.from_amount_nanos->0) as nat)
            }))
            &&& (!(t is PoolSwap) ==> p.row.swap_from@ == Seq::<char>::empty()
                && p.row.swap_to@ == Seq::<char>::empty() && p.row.swap_amt@
                == Seq::<char>::empty())
        }),
{
    let tx_type = classify(tx_in_addrs, &tx.vm);

    // VM-payload addresses, for the types that carry a payload to scan.
    let dvm_addrs: Vec<String> = if crate::txtype::wants_vm_scan(&tx_type) {
        match &tx.vm {
            Some(m) => extract_dfi_addresses(m.text.as_str()),
            None => {
                proof {
                    assert(false);
                }
                Vec::new()
            },
        }
    } else {
        Vec::new()
    };

    // Swap descriptor for pool swaps; a malformed payload is fatal.
    let mut swap_from = crate::empty();
    let mut swap_to = crate::empty();
    let mut swap_amt = crate::empty();
    if matches!(tx_type, TxType::PoolSwap) {
        match &tx.vm {
            Some(m) => {
                let info = match swap_descriptor(m) {
                    Ok(info) => info,
                    Err(e) => {
                        return Err(e);
                    },
                };
                swap_from = info.from_symbol;
                swap_to = info.to_symbol;
                swap_amt = info.amount;
            },
            None => {
                proof {
                    assert(false);
                }
            },
        }
    }

    // Cross-chain claim correlation; absence is not an error.
    let mut icx_addr = crate::empty();
    let mut icx_amt = crate::empty();
    let mut icx_json = crate::empty();
    match correlate_claim(&tx_type, &tx.txid, claims) {
        Some(c) => {
            icx_addr = c.address.clone();
            icx_amt = c.amount.clone();
            let icx_pairs = icx_pairs_for(c);
            icx_json = to_json_object(&icx_pairs);
        },
        None => {},
    }

    // The output mapping for persistence, with the coinbase marker stripped
    // and a repeated address collapsed to its later value, as the store's
    // object column holds at most one value per address.
    let mut out_pairs: Vec<(String, String)> = Vec::new();
    let mut oi: usize = 0;
    while oi < tx.vout.len()
        invariant
            oi <= tx.vout@.len(),
            pairs_kv_map(out_pairs@) == out_kv_map(tx.vout@.take(oi as int)),
            forall|a: int, b: int|
                0 <= a < b < out_pairs@.len() ==> out_pairs@[a].0@ != out_pairs@[b].0@,
        decreases tx.vout@.len() - oi,
    {
        proof {
            assert(tx.vout@.take(oi + 1).drop_last() =~= tx.vout@.take(oi as int));
            assert(tx.vout@.take(oi + 1).last() == tx.vout@[oi as int]);
        }
        if !eq_lit(&tx.vout[oi].0, "x") {
            let addr = tx.vout[oi].0.clone();
            let val = tx.vout[oi].1.clone();
            match find_key(&out_pairs, &addr) {
                Some(k) => {
                    proof {
                        lemma_pairs_kv_map_update(out_pairs@, k as int, (addr, val));
                    }
                    out_pairs[k] = (addr, val);
                },
                None => {
                    let ghost pre = out_pairs@;
                    out_pairs.push((addr, val));
                    proof {
                        assert(out_pairs@.drop_last() =~= pre);
                    }
                },
            }
        }
        oi = oi + 1;
    }
    proof {
        assert(tx.vout@.take(tx.vout@.len() as int) =~= tx.vout@);
    }

    // Render the final strings; missing parts stay empty.
    let tx_in_json = if tx_in_addrs.len() == 0 {
        crate::empty()
    } else {
        to_json_pairs_list(tx_in_addrs)
    };
    let tx_out_json = if tx.vout.len() == 0 {
        crate::empty()
    } else {
        to_json_object(&out_pairs)
    };
    let dvm_addrs_json = if dvm_addrs.len() == 0 {
        crate::empty()
    } else {
        to_json_string_list(&dvm_addrs)
    };

    // Infer the graph edges for this transaction.
    let edges = if graph_enabled {
        infer_edges(&tx.txid, tx_in_addrs, &tx.vout, &dvm_addrs)
    } else {
        Changeset::new()
    };

    let row = TxRow {
        txid: tx.txid.clone(),
        height,
        tx_type: tx_type.to_tag(),
        tx_in_json,
        tx_out_json,
        dvm_addrs_json,
        tx_json: tx.raw_json.clone(),
        icx_json,
        icx_addr,
        icx_amt,
        swap_from,
        swap_to,
        swap_amt,
    };
    Ok(ProcessedTx { row, dvm_addrs, edges })
}

} // verus!
