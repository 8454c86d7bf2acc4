use vstd::prelude::*;

verus! {

/// Error taxonomy of the indexing pipeline.
///
/// Only `SourceUnavailable` and `StorageFailure` abort a run; the others
/// either degrade to empty values at the site where they arise or are
/// reported and skipped.
#[derive(Clone, Debug)]
pub enum IndexError {
    /// A block fetch from the chain source failed; terminal for the loop.
    SourceUnavailable,
    /// A claim-log line matched the marker but its payload was not decodable.
    MalformedClaimLog,
    /// An input's referenced prior output could not be resolved.
    MissingReference,
    /// A persisted row (or a specially handled payload) violated the data
    /// model, e.g. a swap payload missing a required field.
    SerializationFailure,
    /// A transactional write or commit failed.
    StorageFailure,
}

/// The decoded virtual-machine payload of a transaction, reduced to the
/// plain values this library reads from it.
///
/// `opcode` is the protocol operation named by the payload; `text` is the
/// payload rendered as text (scanned for embedded addresses); the remaining
/// fields carry the swap data when the payload has it. The swap amount is
/// held in billionths of a unit so that no fractional number is needed.
#[derive(Clone, Debug)]
pub struct VmMessage {
    pub opcode: String,
    pub text: String,
    pub from_token: Option<String>,
    pub to_token: Option<String>,
    pub from_amount_nanos: Option<u64>,
}

/// One transaction as handed to the indexing logic: its id, its raw record
/// text (persisted verbatim), its optional VM payload, and its outputs as
/// (address, value-text) pairs.
#[derive(Clone, Debug)]
pub struct TxData {
    pub txid: String,
    pub raw_json: String,
    pub vm: Option<VmMessage>,
    pub vout: Vec<(String, String)>,
}

/// What resolving one transaction input against the already indexed store
/// produced: the referenced prior transaction's output list (absent when the
/// prior transaction is unknown) and the referenced output index.
pub struct InputRef {
    pub prior_outputs: Option<Vec<(String, String)>>,
    pub vout_index: usize,
}

/// The contribution of one input: the view of the referenced output's pair
/// when the prior transaction is known and the index is in range, nothing
/// otherwise.
pub open spec fn input_contribution(r: InputRef) -> Option<(Seq<char>, Seq<char>)> {
    match r.prior_outputs {
        Some(outs) => if r.vout_index < outs@.len() {
            Some((outs@[r.vout_index as int].0@, outs@[r.vout_index as int].1@))
        } else {
            None
        },
        None => None,
    }
}

/// The resolved input pairs of a whole input list, unresolvable inputs
/// contributing nothing.
pub open spec fn resolved_inputs_spec(refs: Seq<InputRef>) -> Seq<(Seq<char>, Seq<char>)>
    decreases refs.len(),
{
    if refs.len() == 0 {
        Seq::empty()
    } else {
        let rest = resolved_inputs_spec(refs.drop_last());
        match input_contribution(refs.last()) {
            Some(p) => rest.push(p),
            None => rest,
        }
    }
}

/// Resolves a transaction's inputs to (address, value) pairs. An input whose
/// referenced prior transaction or output index cannot be found contributes
/// nothing; absence is never an error.
pub fn resolve_inputs(refs: &Vec<InputRef>) -> (r: Vec<(String, String)>)
    ensures
        crate::util::dv_pairs(r@) == resolved_inputs_spec(refs@),
{
    broadcast use crate::util::lemma_dv_pairs_push;

    let mut r: Vec<(String, String)> = Vec::new();
    let mut i: usize = 0;
    while i < refs.len()
        invariant
            i <= refs.len(),
            crate::util::dv_pairs(r@) == resolved_inputs_spec(refs@.take(i as int)),
        decreases refs.len() - i,
    {
        proof {
            assert(refs@.take(i + 1).drop_last() =~= refs@.take(i as int));
            assert(refs@.take(i + 1).last() == refs@[i as int]);
        }
        match &refs[i].prior_outputs {
            Some(outs) => {
                if refs[i].vout_index < outs.len() {
                    let a = outs[refs[i].vout_index].0.clone();
                    let v = outs[refs[i].vout_index].1.clone();
                    r.push((a, v));
                }
            },
            None => {},
        }
        i = i + 1;
    }
    proof {
        assert(refs@.take(refs@.len() as int) =~= refs@);
    }
    r
}

} // verus!
