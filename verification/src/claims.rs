use vstd::prelude::*;
use crate::txtype::{TxType, TxTypeV};

verus! {

/// One cross-chain claim record, parsed from the side-channel log: the four
/// correlated transaction ids plus the claimed address and amount.
#[derive(Clone, Debug)]
pub struct ClaimRecord {
    pub address: String,
    pub amount: String,
    pub claim_tx: String,
    pub order_tx: String,
    pub offer_tx: String,
    pub dfchtlc_tx: String,
}

/// Mathematical view of a claim record.
pub ghost struct ClaimV {
    pub address: Seq<char>,
    pub amount: Seq<char>,
    pub claim_tx: Seq<char>,
    pub order_tx: Seq<char>,
    pub offer_tx: Seq<char>,
    pub dfchtlc_tx: Seq<char>,
}

impl View for ClaimRecord {
    type V = ClaimV;

    open spec fn view(&self) -> ClaimV {
        ClaimV {
            address: self.address@,
            amount: self.amount@,
            claim_tx: self.claim_tx@,
            order_tx: self.order_tx@,
            offer_tx: self.offer_tx@,
            dfchtlc_tx: self.dfchtlc_tx@,
        }
    }
}

/// The map a record list denotes, keyed by claim transaction id; later
/// entries win, so inserting in log order gives last-write-wins.
pub open spec fn claims_map(s: Seq<ClaimRecord>) -> Map<Seq<char>, ClaimV>
    decreases s.len(),
{
    if s.len() == 0 {
        Map::empty()
    } else {
        claims_map(s.drop_last()).insert(s.last().claim_tx@, s.last()@)
    }
}

/// The claim correlator's mapping from claim transaction id to claim record,
/// with one entry per id.
pub struct ClaimMap {
    entries: Vec<ClaimRecord>,
}

impl View for ClaimMap {
    type V = Map<Seq<char>, ClaimV>;

    closed spec fn view(&self) -> Map<Seq<char>, ClaimV> {
        claims_map(self.entries@)
    }
}

proof fn lemma_claims_map_domain(s: Seq<ClaimRecord>)
    ensures
        forall|k: Seq<char>|
            claims_map(s).contains_key(k) <==> exists|i: int|
                0 <= i < s.len() && #[trigger] s[i].claim_tx@ == k,
    decreases s.len(),
{
    if s.len() > 0 {
        lemma_claims_map_domain(s.drop_last());
        assert forall|k: Seq<char>| claims_map(s).contains_key(k) implies exists|i: int|
            0 <= i < s.len() && #[trigger] s[i].claim_tx@ == k by {
            if k == s.last().claim_tx@ {
                assert(s[s.len() - 1].claim_tx@ == k);
            } else {
                assert(claims_map(s.drop_last()).contains_key(k));
                let i = choose|i: int|
                    0 <= i < s.drop_last().len() && #[trigger] s.drop_last()[i].claim_tx@ == k;
                assert(s.drop_last()[i] == s[i]);
                assert(s[i].claim_tx@ == k);
            }
        }
        assert forall|k: Seq<char>| (exists|i: int|
            0 <= i < s.len() && #[trigger] s[i].claim_tx@ == k) implies claims_map(
            s,
        ).contains_key(k) by {
            let i = choose|i: int| 0 <= i < s.len() && #[trigger] s[i].claim_tx@ == k;
            if i < s.len() - 1 {
                assert(s.drop_last()[i].claim_tx@ == k);
                assert(claims_map(s.drop_last()).contains_key(k));
            } else {
                assert(s.last().claim_tx@ == k);
            }
        }
    }
}

proof fn lemma_claims_map_value(s: Seq<ClaimRecord>, i: int)
    requires
        forall|p: int, q: int| 0 <= p < q < s.len() ==> s[p].claim_tx@ != s[q].claim_tx@,
        0 <= i < s.len(),
    ensures
        claims_map(s).contains_key(s[i].claim_tx@),
        claims_map(s)[s[i].claim_tx@] == s[i]@,
    decreases s.len(),
{
    lemma_claims_map_domain(s);
    if i == s.len() - 1 {
    } else {
        assert(s.drop_last()[i] == s[i]);
        lemma_claims_map_value(s.drop_last(), i);
        assert(s[i].claim_tx@ != s.last().claim_tx@);
    }
}

proof fn lemma_claims_map_push(s: Seq<ClaimRecord>, r: ClaimRecord)
    ensures
        claims_map(s.push(r)) == claims_map(s).insert(r.claim_tx@, r@),
{
    assert(s.push(r).drop_last() =~= s);
    assert(s.push(r).last() == r);
}

proof fn lemma_claims_map_update(s: Seq<ClaimRecord>, i: int, r: ClaimRecord)
    requires
        forall|p: int, q: int| 0 <= p < q < s.len() ==> s[p].claim_tx@ != s[q].claim_tx@,
        0 <= i < s.len(),
        r.claim_tx@ == s[i].claim_tx@,
    ensures
        claims_map(s.update(i, r)) == claims_map(s).insert(r.claim_tx@, r@),
    decreases s.len(),
{
    if i == s.len() - 1 {
        assert(s.update(i, r).drop_last() =~= s.drop_last());
        assert(s.update(i, r).last() == r);
        assert(claims_map(s.update(i, r)) =~= claims_map(s).insert(r.claim_tx@, r@));
    } else {
        assert(s.drop_last().update(i, r) =~= s.update(i, r).drop_last());
        assert(s.update(i, r).last() == s.last());
        lemma_claims_map_update(s.drop_last(), i, r);
        assert(s.last().claim_tx@ != r.claim_tx@);
        assert(claims_map(s.update(i, r)) =~= claims_map(s).insert(r.claim_tx@, r@));
    }
}

impl ClaimMap {
    /// One entry per claim transaction id.
    pub closed spec fn wf(&self) -> bool {
        forall|p: int, q: int|
            0 <= p < q < self.entries@.len() ==> self.entries@[p].claim_tx@
                != self.entries@[q].claim_tx@
    }

    /// An empty mapping.
    pub fn new() -> (r: ClaimMap)
        ensures
            r.wf(),
            r@ == Map::<Seq<char>, ClaimV>::empty(),
    {
        ClaimMap { entries: Vec::new() }
    }

    fn find(&self, key: &String) -> (r: Option<usize>)
        ensures
            match r {
                Some(i) => 0 <= i < self.entries@.len() && self.entries@[i as int].claim_tx@
                    == key@,
                None => !self@.contains_key(key@),
            },
    {
        let mut i: usize = 0;
        while i < self.entries.len()
            invariant
                i <= self.entries@.len(),
                forall|j: int| 0 <= j < i ==> self.entries@[j].claim_tx@ != key@,
            decreases self.entries@.len() - i,
        {
            if self.entries[i].claim_tx == *key {
                return Some(i);
            }
            i = i + 1;
        }
        proof {
            lemma_claims_map_domain(self.entries@);
        }
        None
    }

    /// Inserts a record under its claim transaction id; a duplicate id
    /// overwrites the earlier record (last write wins).
    pub fn insert(&mut self, r: ClaimRecord)
        requires
            old(self).wf(),
        ensures
            final(self).wf(),
            final(self)@ == old(self)@.insert(r.claim_tx@, r@),
    {
        match self.find(&r.claim_tx) {
            Some(i) => {
                proof {
                    lemma_claims_map_update(self.entries@, i as int, r);
                }
                self.entries[i] = r;
            },
            None => {
                proof {
                    lemma_claims_map_domain(self.entries@);
                    lemma_claims_map_push(self.entries@, r);
                }
                self.entries.push(r);
            },
        }
    }

    /// Looks a claim up by transaction id.
    pub fn get(&self, txid: &String) -> (r: Option<&ClaimRecord>)
        requires
            self.wf(),
        ensures
            match r {
                Some(c) => self@.contains_key(txid@) && c@ == self@[txid@],
                None => !self@.contains_key(txid@),
            },
    {
        match self.find(txid) {
            Some(i) => {
                proof {
                    lemma_claims_map_value(self.entries@, i as int);
                }
                Some(&self.entries[i])
            },
            None => None,
        }
    }

    /// How many claims are known.
    pub fn len(&self) -> (n: usize)
        requires
            self.wf(),
        ensures
            n == self@.dom().len(),
    {
        proof {
            lemma_claims_len(self.entries@);
        }
        self.entries.len()
    }
}

proof fn lemma_claims_len(s: Seq<ClaimRecord>)
    requires
        forall|p: int, q: int| 0 <= p < q < s.len() ==> s[p].claim_tx@ != s[q].claim_tx@,
    ensures
        claims_map(s).dom().len() == s.len(),
        claims_map(s).dom().finite(),
    decreases s.len(),
{
    if s.len() > 0 {
        lemma_claims_map_domain(s.drop_last());
        lemma_claims_len(s.drop_last());
        assert forall|q: int| 0 <= q < s.drop_last().len() implies s.drop_last()[q].claim_tx@
            != s.last().claim_tx@ by {
            assert(s[q].claim_tx@ != s[s.len() - 1].claim_tx@);
        }
        if claims_map(s.drop_last()).dom().contains(s.last().claim_tx@) {
            let q = choose|q: int|
                0 <= q < s.drop_last().len() && #[trigger] s.drop_last()[q].claim_tx@
                    == s.last().claim_tx@;
            assert(false);
        }
        assert(claims_map(s).dom() =~= claims_map(s.drop_last()).dom().insert(
            s.last().claim_tx@,
        ));
        assert(claims_map(s).dom().len() == s.len());
    } else {
        assert(claims_map(s).dom() =~= Set::<Seq<char>>::empty());
    }
}

/// Joins a transaction with the claim correlator's mapping: a transaction
/// tagged as the claim type whose txid matches a known claim gets the claim
/// fields; anything else gets none, which is not an error.
pub fn correlate_claim<'a>(tx_type: &TxType, txid: &String, claims: &'a ClaimMap) -> (r: Option<
    &'a ClaimRecord,
>)
    requires
        claims.wf(),
    ensures
        r is Some <==> (tx_type@ is ICXClaimDFCHTLC && claims@.contains_key(txid@)),
        r matches Some(c) ==> c@ == claims@[txid@],
{
    match tx_type {
        TxType::ICXClaimDFCHTLC => claims.get(txid),
        _ => None,
    }
}

} // verus!
