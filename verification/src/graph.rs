use vstd::prelude::*;

verus! {

/// One weighted directed edge inferred for a transaction, as persisted in
/// the graph table. `level` is the evidence ordinal: 0 for same-transaction
/// co-occurrence only, 1 for a directional signal from the VM-payload
/// partition alone, 2 for a directional signal corroborated by UTXO
/// co-occurrence.
#[derive(Clone, Debug)]
pub struct GraphEdge {
    pub src: String,
    pub txid: String,
    pub dst: String,
    pub level: u8,
}

/// The composite key a changeset is indexed by.
pub ghost struct EdgeKey {
    pub src: Seq<char>,
    pub txid: Seq<char>,
    pub dst: Seq<char>,
}

/// Builds an edge key from its three parts.
pub open spec fn key3(src: Seq<char>, txid: Seq<char>, dst: Seq<char>) -> EdgeKey {
    EdgeKey { src, txid, dst }
}

impl GraphEdge {
    /// The key of this edge.
    pub open spec fn key(self) -> EdgeKey {
        key3(self.src@, self.txid@, self.dst@)
    }
}

/// The finite map denoted by an edge list; later entries win, and in a
/// well-formed changeset keys never repeat.
pub open spec fn edges_map(s: Seq<GraphEdge>) -> Map<EdgeKey, u8>
    decreases s.len(),
{
    if s.len() == 0 {
        Map::empty()
    } else {
        edges_map(s.drop_last()).insert(s.last().key(), s.last().level)
    }
}

/// No two entries share a key.
pub open spec fn distinct_keys(s: Seq<GraphEdge>) -> bool {
    forall|i: int, j: int| 0 <= i < j < s.len() ==> s[i].key() != s[j].key()
}

proof fn lemma_edges_map_domain(s: Seq<GraphEdge>)
    ensures
        forall|k: EdgeKey|
            edges_map(s).contains_key(k) <==> exists|i: int|
                0 <= i < s.len() && #[trigger] s[i].key() == k,
    decreases s.len(),
{
    if s.len() > 0 {
        lemma_edges_map_domain(s.drop_last());
        assert forall|k: EdgeKey| edges_map(s).contains_key(k) implies exists|i: int|
            0 <= i < s.len() && #[trigger] s[i].key() == k by {
            if k == s.last().key() {
                assert(s[s.len() - 1].key() == k);
            } else {
                assert(edges_map(s.drop_last()).contains_key(k));
                let i = choose|i: int| 0 <= i < s.drop_last().len() && #[trigger] s.drop_last()[i].key() == k;
                assert(s.drop_last()[i] == s[i]);
                assert(s[i].key() == k);
            }
        }
        assert forall|k: EdgeKey| (exists|i: int| 0 <= i < s.len() && #[trigger] s[i].key() == k)
            implies edges_map(s).contains_key(k) by {
            let i = choose|i: int| 0 <= i < s.len() && #[trigger] s[i].key() == k;
            if i < s.len() - 1 {
                assert(s.drop_last()[i].key() == k);
                assert(edges_map(s.drop_last()).contains_key(k));
            } else {
                assert(s.last().key() == k);
            }
        }
    }
}

proof fn lemma_edges_map_value(s: Seq<GraphEdge>, i: int)
    requires
        distinct_keys(s),
        0 <= i < s.len(),
    ensures
        edges_map(s).contains_key(s[i].key()),
        edges_map(s)[s[i].key()] == s[i].level,
    decreases s.len(),
{
    lemma_edges_map_domain(s);
    if i == s.len() - 1 {
    } else {
        assert(distinct_keys(s.drop_last()));
        assert(s.drop_last()[i] == s[i]);
        lemma_edges_map_value(s.drop_last(), i);
        assert(s[i].key() != s.last().key());
    }
}

proof fn lemma_edges_map_push(s: Seq<GraphEdge>, e: GraphEdge)
    ensures
        edges_map(s.push(e)) == edges_map(s).insert(e.key(), e.level),
{
    assert(s.push(e).drop_last() =~= s);
    assert(s.push(e).last() == e);
}

proof fn lemma_edges_map_update(s: Seq<GraphEdge>, i: int, e: GraphEdge)
    requires
        distinct_keys(s),
        0 <= i < s.len(),
        e.key() == s[i].key(),
    ensures
        edges_map(s.update(i, e)) == edges_map(s).insert(e.key(), e.level),
    decreases s.len(),
{
    if i == s.len() - 1 {
        assert(s.update(i, e).drop_last() =~= s.drop_last());
        assert(s.update(i, e).last() == e);
        assert(edges_map(s.update(i, e)) =~= edges_map(s).insert(e.key(), e.level));
    } else {
        assert(distinct_keys(s.drop_last()));
        assert(s.drop_last().update(i, e) =~= s.update(i, e).drop_last());
        assert(s.update(i, e).last() == s.last());
        lemma_edges_map_update(s.drop_last(), i, e);
        assert(s.last().key() != e.key());
        assert(edges_map(s.update(i, e)) =~= edges_map(s).insert(e.key(), e.level));
    }
}

/// The changeset of graph edges accumulated for a transaction: a mapping
/// from edge key to evidence level with an explicit merge discipline, kept
/// as a list with pairwise distinct keys.
pub struct Changeset {
    edges: Vec<GraphEdge>,
}

impl View for Changeset {
    type V = Map<EdgeKey, u8>;

    closed spec fn view(&self) -> Map<EdgeKey, u8> {
        edges_map(self.edges@)
    }
}

impl Changeset {
    /// Well-formed: no repeated keys, and every level is one of 0, 1, 2.
    pub closed spec fn wf(&self) -> bool {
        &&& distinct_keys(self.edges@)
        &&& forall|i: int| 0 <= i < self.edges@.len() ==> self.edges@[i].level <= 2
    }

    /// An empty changeset.
    pub fn new() -> (r: Changeset)
        ensures
            r.wf(),
            r@ == Map::<EdgeKey, u8>::empty(),
    {
        Changeset { edges: Vec::new() }
    }

    fn find(&self, src: &String, txid: &String, dst: &String) -> (r: Option<usize>)
        ensures
            match r {
                Some(i) => 0 <= i < self.edges@.len() && self.edges@[i as int].key() == key3(
                    src@,
                    txid@,
                    dst@,
                ),
                None => !self@.contains_key(key3(src@, txid@, dst@)),
            },
    {
        let ghost k = key3(src@, txid@, dst@);
        let mut i: usize = 0;
        while i < self.edges.len()
            invariant
                i <= self.edges@.len(),
                k == key3(src@, txid@, dst@),
                forall|j: int| 0 <= j < i ==> self.edges@[j].key() != k,
            decreases self.edges@.len() - i,
        {
            let e = &self.edges[i];
            let same_src: bool = e.src == *src;
            let same_txid: bool = e.txid == *txid;
            let same_dst: bool = e.dst == *dst;
            if same_src && same_txid && same_dst {
                return Some(i);
            }
            proof {
                let ke = self.edges@[i as int].key();
                if ke == k {
                    assert(ke.src == k.src && ke.txid == k.txid && ke.dst == k.dst);
                    assert(false);
                }
            }
            i = i + 1;
        }
        proof {
            lemma_edges_map_domain(self.edges@);
        }
        None
    }

    /// Records edge key (src, txid, dst) at evidence level 0 unless the key
    /// is already present; an existing entry is left exactly as it is.
    pub fn seed(&mut self, src: &String, txid: &String, dst: &String)
        requires
            old(self).wf(),
        ensures
            final(self).wf(),
            final(self)@ == if old(self)@.contains_key(key3(src@, txid@, dst@)) {
                old(self)@
            } else {
                old(self)@.insert(key3(src@, txid@, dst@), 0u8)
            },
    {
        let ghost k = key3(src@, txid@, dst@);
        match self.find(src, txid, dst) {
            Some(i) => {
                proof {
                    lemma_edges_map_domain(self.edges@);
                }
            },
            None => {
                let e = GraphEdge {
                    src: src.clone(),
                    txid: txid.clone(),
                    dst: dst.clone(),
                    level: 0u8,
                };
                proof {
                    lemma_edges_map_domain(self.edges@);
                    lemma_edges_map_push(self.edges@, e);
                }
                self.edges.push(e);
            },
        }
    }

    /// Records a directional signal for edge key (src, txid, dst): a key
    /// present at level 0 is upgraded to 2, a key present at level 1 or 2 is
    /// left alone, and an absent key is inserted at level 1. Returns whether
    /// anything changed.
    pub fn record_directional(&mut self, src: &String, txid: &String, dst: &String) -> (changed:
        bool)
        requires
            old(self).wf(),
        ensures
            final(self).wf(),
            changed == (!old(self)@.contains_key(key3(src@, txid@, dst@)) || old(self)@[key3(
                src@,
                txid@,
                dst@,
            )] == 0),
            final(self)@ == if !old(self)@.contains_key(key3(src@, txid@, dst@)) {
                old(self)@.insert(key3(src@, txid@, dst@), 1u8)
            } else if old(self)@[key3(src@, txid@, dst@)] == 0 {
                old(self)@.insert(key3(src@, txid@, dst@), 2u8)
            } else {
                old(self)@
            },
    {
        let ghost k = key3(src@, txid@, dst@);
        match self.find(src, txid, dst) {
            Some(i) => {
                proof {
                    lemma_edges_map_value(self.edges@, i as int);
                }
                if self.edges[i].level == 0 {
                    let e = GraphEdge {
                        src: self.edges[i].src.clone(),
                        txid: self.edges[i].txid.clone(),
                        dst: self.edges[i].dst.clone(),
                        level: 2u8,
                    };
                    proof {
                        lemma_edges_map_update(self.edges@, i as int, e);
                    }
                    self.edges[i] = e;
                    true
                } else {
                    false
                }
            },
            None => {
                let e = GraphEdge {
                    src: src.clone(),
                    txid: txid.clone(),
                    dst: dst.clone(),
                    level: 1u8,
                };
                proof {
                    lemma_edges_map_domain(self.edges@);
                    lemma_edges_map_push(self.edges@, e);
                }
                self.edges.push(e);
                true
            },
        }
    }

    /// The evidence level currently recorded for a key, if any.
    pub fn get_level(&self, src: &String, txid: &String, dst: &String) -> (r: Option<u8>)
        requires
            self.wf(),
        ensures
            r == if self@.contains_key(key3(src@, txid@, dst@)) {
                Some(self@[key3(src@, txid@, dst@)])
            } else {
                None::<u8>
            },
    {
        match self.find(src, txid, dst) {
            Some(i) => {
                proof {
                    lemma_edges_map_value(self.edges@, i as int);
                }
                Some(self.edges[i].level)
            },
            None => None,
        }
    }

    /// The recorded edges, for emission as graph rows: every listed entry is
    /// in the map at its level, every key of the map is listed once.
    pub fn entries(&self) -> (v: &Vec<GraphEdge>)
        requires
            self.wf(),
        ensures
            forall|i: int|
                0 <= i < v@.len() ==> self@.contains_key(#[trigger] v@[i].key()) && self@[v@[
                    i
                ].key()] == v@[i].level,
            forall|k: EdgeKey|
                self@.contains_key(k) ==> exists|i: int|
                    0 <= i < v@.len() && #[trigger] v@[i].key() == k,
            distinct_keys(v@),
    {
        proof {
            lemma_edges_map_domain(self.edges@);
            assert forall|i: int| 0 <= i < self.edges@.len() implies self@.contains_key(
                #[trigger] self.edges@[i].key(),
            ) && self@[self.edges@[i].key()] == self.edges@[i].level by {
                lemma_edges_map_value(self.edges@, i);
            }
        }
        &self.edges
    }
}



/// The set of addresses occurring as the first component of a pair list.
pub open spec fn pair_addrs(s: Seq<(String, String)>) -> Set<Seq<char>>
    decreases s.len(),
{
    if s.len() == 0 {
        Set::empty()
    } else {
        pair_addrs(s.drop_last()).insert(s.last().0@)
    }
}

/// The set of addresses in a string list.
pub open spec fn str_addrs(s: Seq<String>) -> Set<Seq<char>>
    decreases s.len(),
{
    if s.len() == 0 {
        Set::empty()
    } else {
        str_addrs(s.drop_last()).insert(s.last()@)
    }
}

/// The output address set used for edge inference: the listed output
/// addresses with the coinbase marker address excluded.
pub open spec fn out_addrs(s: Seq<(String, String)>) -> Set<Seq<char>> {
    pair_addrs(s).remove("x"@)
}

/// A set of one address.
pub open spec fn sing(a: Seq<char>) -> Set<Seq<char>> {
    Set::empty().insert(a)
}

/// There is at least one address in the set.
pub open spec fn nonempty(s: Set<Seq<char>>) -> bool {
    exists|a: Seq<char>| s.contains(a)
}

proof fn lemma_pair_addrs_contains(s: Seq<(String, String)>)
    ensures
        forall|a: Seq<char>|
            pair_addrs(s).contains(a) <==> exists|i: int| 0 <= i < s.len() && #[trigger] s[i].0@ == a,
    decreases s.len(),
{
    if s.len() > 0 {
        lemma_pair_addrs_contains(s.drop_last());
        assert forall|a: Seq<char>| pair_addrs(s).contains(a) implies exists|i: int|
            0 <= i < s.len() && #[trigger] s[i].0@ == a by {
            if a == s.last().0@ {
                assert(s[s.len() - 1].0@ == a);
            } else {
                assert(pair_addrs(s.drop_last()).contains(a));
                let i = choose|i: int|
                    0 <= i < s.drop_last().len() && #[trigger] s.drop_last()[i].0@ == a;
                assert(s.drop_last()[i] == s[i]);
                assert(s[i].0@ == a);
            }
        }
        assert forall|a: Seq<char>| (exists|i: int| 0 <= i < s.len() && #[trigger] s[i].0@ == a)
            implies pair_addrs(s).contains(a) by {
            let i = choose|i: int| 0 <= i < s.len() && #[trigger] s[i].0@ == a;
            if i < s.len() - 1 {
                assert(s.drop_last()[i].0@ == a);
                assert(pair_addrs(s.drop_last()).contains(a));
            }
        }
    }
}

proof fn lemma_str_addrs_contains(s: Seq<String>)
    ensures
        forall|a: Seq<char>|
            str_addrs(s).contains(a) <==> exists|i: int| 0 <= i < s.len() && #[trigger] s[i]@ == a,
    decreases s.len(),
{
    if s.len() > 0 {
        lemma_str_addrs_contains(s.drop_last());
        assert forall|a: Seq<char>| str_addrs(s).contains(a) implies exists|i: int|
            0 <= i < s.len() && #[trigger] s[i]@ == a by {
            if a == s.last()@ {
                assert(s[s.len() - 1]@ == a);
            } else {
                assert(str_addrs(s.drop_last()).contains(a));
                let i = choose|i: int|
                    0 <= i < s.drop_last().len() && #[trigger] s.drop_last()[i]@ == a;
                assert(s.drop_last()[i] == s[i]);
                assert(s[i]@ == a);
            }
        }
        assert forall|a: Seq<char>| (exists|i: int| 0 <= i < s.len() && #[trigger] s[i]@ == a)
            implies str_addrs(s).contains(a) by {
            let i = choose|i: int| 0 <= i < s.len() && #[trigger] s[i]@ == a;
            if i < s.len() - 1 {
                assert(s.drop_last()[i]@ == a);
                assert(str_addrs(s.drop_last()).contains(a));
            }
        }
    }
}

/// Seeding applied as a map transform: every key (src, txid, dst) with src
/// drawn from `i_set` and dst from `o_set` is present afterwards, at level 0
/// unless it was already present, in which case it keeps its level.
pub open spec fn seed_apply(
    m: Map<EdgeKey, u8>,
    txid: Seq<char>,
    i_set: Set<Seq<char>>,
    o_set: Set<Seq<char>>,
) -> Map<EdgeKey, u8> {
    Map::new(
        |k: EdgeKey|
            m.contains_key(k) || (k.txid == txid && i_set.contains(k.src) && o_set.contains(
                k.dst,
            )),
        |k: EdgeKey| if m.contains_key(k) {
            m[k]
        } else {
            0u8
        },
    )
}

/// A directional record applied as a map transform over every key (src,
/// txid, dst) with src in `s_set` and dst in `d_set`: a key at level 0 goes
/// to 2, an absent key appears at level 1, any other key keeps its level.
pub open spec fn upgrade_apply(
    m: Map<EdgeKey, u8>,
    txid: Seq<char>,
    s_set: Set<Seq<char>>,
    d_set: Set<Seq<char>>,
) -> Map<EdgeKey, u8> {
    Map::new(
        |k: EdgeKey|
            m.contains_key(k) || (k.txid == txid && s_set.contains(k.src) && d_set.contains(
                k.dst,
            )),
        |k: EdgeKey| if k.txid == txid && s_set.contains(k.src) && d_set.contains(k.dst) {
            if m.contains_key(k) {
                if m[k] == 0 {
                    2u8
                } else {
                    m[k]
                }
            } else {
                1u8
            }
        } else {
            m[k]
        },
    )
}

/// A directional record of this key would change the map.
pub open spec fn upgradeable(m: Map<EdgeKey, u8>, k: EdgeKey) -> bool {
    !m.contains_key(k) || m[k] == 0
}

/// Some pair drawn from the two sets would change the map.
pub open spec fn any_upgrade(
    m: Map<EdgeKey, u8>,
    txid: Seq<char>,
    s_set: Set<Seq<char>>,
    d_set: Set<Seq<char>>,
) -> bool {
    exists|s: Seq<char>, d: Seq<char>|
        #[trigger] s_set.contains(s) && #[trigger] d_set.contains(d) && upgradeable(
            m,
            key3(s, txid, d),
        )
}

/// The whole inference pass applied as a map transform, per the heuristic:
/// seed the UTXO co-occurrence pairs, record a directional signal for every
/// (VM-only, VM-and-input) address pair, and when that recorded nothing yet
/// VM addresses were found, fall back to reusing the VM-and-input addresses
/// as destinations for every input address.
pub open spec fn infer_apply(
    m: Map<EdgeKey, u8>,
    txid: Seq<char>,
    i_set: Set<Seq<char>>,
    o_set: Set<Seq<char>>,
    m_set: Set<Seq<char>>,
) -> Map<EdgeKey, u8> {
    let mi = m_set.intersect(i_set);
    let mo = m_set.difference(i_set);
    let m1 = seed_apply(m, txid, i_set, o_set);
    let dmod = any_upgrade(m1, txid, mo, mi);
    let m2 = upgrade_apply(m1, txid, mo, mi);
    if !dmod && nonempty(m_set) {
        upgrade_apply(m2, txid, i_set, mi)
    } else {
        m2
    }
}

proof fn lemma_seed_apply_empty_srcs(m: Map<EdgeKey, u8>, txid: Seq<char>, o_set: Set<Seq<char>>)
    ensures
        seed_apply(m, txid, Set::empty(), o_set) == m,
{
    assert(seed_apply(m, txid, Set::empty(), o_set) =~= m);
}

proof fn lemma_seed_step(
    mb: Map<EdgeKey, u8>,
    txid: Seq<char>,
    s_set: Set<Seq<char>>,
    s0: Seq<char>,
    o0: Seq<char>,
)
    ensures
        seed_apply(mb, txid, s_set.insert(s0), sing(o0)) == (if seed_apply(
            mb,
            txid,
            s_set,
            sing(o0),
        ).contains_key(key3(s0, txid, o0)) {
            seed_apply(mb, txid, s_set, sing(o0))
        } else {
            seed_apply(mb, txid, s_set, sing(o0)).insert(key3(s0, txid, o0), 0u8)
        }),
{
    let cur = seed_apply(mb, txid, s_set, sing(o0));
    let k0 = key3(s0, txid, o0);
    if cur.contains_key(k0) {
        assert(seed_apply(mb, txid, s_set.insert(s0), sing(o0)) =~= cur);
    } else {
        assert(seed_apply(mb, txid, s_set.insert(s0), sing(o0)) =~= cur.insert(k0, 0u8));
    }
}

proof fn lemma_seed_collapse(
    m: Map<EdgeKey, u8>,
    txid: Seq<char>,
    i_set: Set<Seq<char>>,
    o_set: Set<Seq<char>>,
    o0: Seq<char>,
)
    ensures
        seed_apply(seed_apply(m, txid, i_set, o_set), txid, i_set, sing(o0)) == seed_apply(
            m,
            txid,
            i_set,
            o_set.insert(o0),
        ),
{
    assert(seed_apply(seed_apply(m, txid, i_set, o_set), txid, i_set, sing(o0)) =~= seed_apply(
        m,
        txid,
        i_set,
        o_set.insert(o0),
    ));
}

proof fn lemma_upgrade_apply_empty(m: Map<EdgeKey, u8>, txid: Seq<char>, s_set: Set<Seq<char>>, d_set: Set<Seq<char>>)
    requires
        s_set == Set::<Seq<char>>::empty() || d_set == Set::<Seq<char>>::empty(),
    ensures
        upgrade_apply(m, txid, s_set, d_set) == m,
{
    assert(upgrade_apply(m, txid, s_set, d_set) =~= m);
}

proof fn lemma_upgrade_frame(
    m: Map<EdgeKey, u8>,
    txid: Seq<char>,
    s_set: Set<Seq<char>>,
    d_set: Set<Seq<char>>,
    k: EdgeKey,
)
    requires
        !(k.txid == txid && s_set.contains(k.src) && d_set.contains(k.dst)),
    ensures
        upgrade_apply(m, txid, s_set, d_set).contains_key(k) == m.contains_key(k),
        m.contains_key(k) ==> upgrade_apply(m, txid, s_set, d_set)[k] == m[k],
{
}

proof fn lemma_upgrade_step(
    mb: Map<EdgeKey, u8>,
    txid: Seq<char>,
    s0: Seq<char>,
    d_set: Set<Seq<char>>,
    d0: Seq<char>,
)
    requires
        !d_set.contains(d0),
    ensures
        upgrade_apply(mb, txid, sing(s0), d_set.insert(d0)) == (if !mb.contains_key(
            key3(s0, txid, d0),
        ) {
            upgrade_apply(mb, txid, sing(s0), d_set).insert(key3(s0, txid, d0), 1u8)
        } else if mb[key3(s0, txid, d0)] == 0 {
            upgrade_apply(mb, txid, sing(s0), d_set).insert(key3(s0, txid, d0), 2u8)
        } else {
            upgrade_apply(mb, txid, sing(s0), d_set)
        }),
{
    let cur = upgrade_apply(mb, txid, sing(s0), d_set);
    let k0 = key3(s0, txid, d0);
    if !mb.contains_key(k0) {
        assert(upgrade_apply(mb, txid, sing(s0), d_set.insert(d0)) =~= cur.insert(k0, 1u8));
    } else if mb[k0] == 0 {
        assert(upgrade_apply(mb, txid, sing(s0), d_set.insert(d0)) =~= cur.insert(k0, 2u8));
    } else {
        assert(upgrade_apply(mb, txid, sing(s0), d_set.insert(d0)) =~= cur);
    }
}

proof fn lemma_upgrade_collapse(
    m: Map<EdgeKey, u8>,
    txid: Seq<char>,
    s_set: Set<Seq<char>>,
    s0: Seq<char>,
    d_set: Set<Seq<char>>,
)
    ensures
        upgrade_apply(upgrade_apply(m, txid, s_set, d_set), txid, sing(s0), d_set)
            == upgrade_apply(m, txid, s_set.insert(s0), d_set),
{
    let inner = upgrade_apply(m, txid, s_set, d_set);
    let lhs = upgrade_apply(inner, txid, sing(s0), d_set);
    let rhs = upgrade_apply(m, txid, s_set.insert(s0), d_set);
    assert forall|k: EdgeKey| lhs.contains_key(k) == rhs.contains_key(k) && (lhs.contains_key(k)
        ==> lhs[k] == rhs[k]) by {
        if k.txid == txid && d_set.contains(k.dst) {
            if s_set.contains(k.src) {
                assert(inner.contains_key(k));
                assert(inner[k] != 0);
            }
        }
    }
    assert(lhs =~= rhs);
}

proof fn lemma_any_upgrade_step(
    m: Map<EdgeKey, u8>,
    txid: Seq<char>,
    s0: Seq<char>,
    d_set: Set<Seq<char>>,
    d0: Seq<char>,
)
    ensures
        any_upgrade(m, txid, sing(s0), d_set.insert(d0)) == (any_upgrade(m, txid, sing(s0), d_set)
            || upgradeable(m, key3(s0, txid, d0))),
{
    if any_upgrade(m, txid, sing(s0), d_set.insert(d0)) {
        let (s, d) = choose|s: Seq<char>, d: Seq<char>|
            #[trigger] sing(s0).contains(s) && #[trigger] d_set.insert(d0).contains(d)
                && upgradeable(m, key3(s, txid, d));
        if d == d0 {
            assert(upgradeable(m, key3(s0, txid, d0)));
        } else {
            assert(d_set.contains(d));
            assert(any_upgrade(m, txid, sing(s0), d_set));
        }
    }
    if any_upgrade(m, txid, sing(s0), d_set) {
        let (s, d) = choose|s: Seq<char>, d: Seq<char>|
            #[trigger] sing(s0).contains(s) && #[trigger] d_set.contains(d) && upgradeable(
                m,
                key3(s, txid, d),
            );
        assert(d_set.insert(d0).contains(d));
        assert(any_upgrade(m, txid, sing(s0), d_set.insert(d0)));
    }
    if upgradeable(m, key3(s0, txid, d0)) {
        assert(sing(s0).contains(s0) && d_set.insert(d0).contains(d0));
        assert(any_upgrade(m, txid, sing(s0), d_set.insert(d0)));
    }
}

proof fn lemma_any_upgrade_split(
    m: Map<EdgeKey, u8>,
    txid: Seq<char>,
    s_set: Set<Seq<char>>,
    s0: Seq<char>,
    d_set: Set<Seq<char>>,
)
    ensures
        any_upgrade(m, txid, s_set.insert(s0), d_set) == (any_upgrade(m, txid, s_set, d_set)
            || any_upgrade(m, txid, sing(s0), d_set)),
{
    if any_upgrade(m, txid, s_set.insert(s0), d_set) {
        let (s, d) = choose|s: Seq<char>, d: Seq<char>|
            #[trigger] s_set.insert(s0).contains(s) && #[trigger] d_set.contains(d) && upgradeable(
                m,
                key3(s, txid, d),
            );
        if s == s0 {
            assert(sing(s0).contains(s0));
            assert(any_upgrade(m, txid, sing(s0), d_set));
        } else {
            assert(s_set.contains(s));
            assert(any_upgrade(m, txid, s_set, d_set));
        }
    }
    if any_upgrade(m, txid, s_set, d_set) {
        let (s, d) = choose|s: Seq<char>, d: Seq<char>|
            #[trigger] s_set.contains(s) && #[trigger] d_set.contains(d) && upgradeable(
                m,
                key3(s, txid, d),
            );
        assert(s_set.insert(s0).contains(s));
        assert(any_upgrade(m, txid, s_set.insert(s0), d_set));
    }
    if any_upgrade(m, txid, sing(s0), d_set) {
        let (s, d) = choose|s: Seq<char>, d: Seq<char>|
            #[trigger] sing(s0).contains(s) && #[trigger] d_set.contains(d) && upgradeable(
                m,
                key3(s, txid, d),
            );
        assert(s_set.insert(s0).contains(s0));
        assert(any_upgrade(m, txid, s_set.insert(s0), d_set));
    }
}

proof fn lemma_any_upgrade_empty(m: Map<EdgeKey, u8>, txid: Seq<char>, s_set: Set<Seq<char>>, d_set: Set<Seq<char>>)
    requires
        s_set == Set::<Seq<char>>::empty() || d_set == Set::<Seq<char>>::empty(),
    ensures
        !any_upgrade(m, txid, s_set, d_set),
{
}


/// The evidence level the heuristic assigns to (src, dst) for a transaction
/// with input set `i_set`, output set `o_set` (coinbase marker excluded) and
/// VM-mentioned set `m_set`, starting from an empty changeset; None when no
/// edge is recorded for the pair.
pub open spec fn inferred_level(
    i_set: Set<Seq<char>>,
    o_set: Set<Seq<char>>,
    m_set: Set<Seq<char>>,
    src: Seq<char>,
    dst: Seq<char>,
) -> Option<u8> {
    let mi = m_set.intersect(i_set);
    let mo = m_set.difference(i_set);
    let direct = nonempty(mo) && nonempty(mi);
    let fallback = !direct && nonempty(m_set);
    if direct && mo.contains(src) && mi.contains(dst) {
        Some(1u8)
    } else if fallback && i_set.contains(src) && mi.contains(dst) {
        if o_set.contains(dst) {
            Some(2u8)
        } else {
            Some(1u8)
        }
    } else if i_set.contains(src) && o_set.contains(dst) {
        Some(0u8)
    } else {
        None
    }
}

/// The full changeset the heuristic produces for one transaction when it
/// starts from an empty changeset.
pub open spec fn inferred_map(
    txid: Seq<char>,
    i_set: Set<Seq<char>>,
    o_set: Set<Seq<char>>,
    m_set: Set<Seq<char>>,
) -> Map<EdgeKey, u8> {
    Map::new(
        |k: EdgeKey| k.txid == txid && inferred_level(i_set, o_set, m_set, k.src, k.dst) is Some,
        |k: EdgeKey| match inferred_level(i_set, o_set, m_set, k.src, k.dst) {
            Some(v) => v,
            None => 0u8,
        },
    )
}

/// Edge monotonicity: replaying the inference pass over an already filled
/// changeset never decreases the evidence level of a key that is already
/// present, and never drops a key.
pub proof fn lemma_infer_monotone(
    m: Map<EdgeKey, u8>,
    txid: Seq<char>,
    i_set: Set<Seq<char>>,
    o_set: Set<Seq<char>>,
    m_set: Set<Seq<char>>,
)
    ensures
        forall|k: EdgeKey|
            m.contains_key(k) ==> #[trigger] infer_apply(m, txid, i_set, o_set, m_set).contains_key(
                k,
            ) && infer_apply(m, txid, i_set, o_set, m_set)[k] >= m[k],
{
    let mi = m_set.intersect(i_set);
    let mo = m_set.difference(i_set);
    let m1 = seed_apply(m, txid, i_set, o_set);
    let m2 = upgrade_apply(m1, txid, mo, mi);
    let m3 = upgrade_apply(m2, txid, i_set, mi);
    assert forall|k: EdgeKey| m.contains_key(k) implies #[trigger] infer_apply(
        m,
        txid,
        i_set,
        o_set,
        m_set,
    ).contains_key(k) && infer_apply(m, txid, i_set, o_set, m_set)[k] >= m[k] by {
        assert(m1.contains_key(k) && m1[k] == m[k]);
        assert(m2.contains_key(k) && m2[k] >= m1[k]);
        assert(m3.contains_key(k) && m3[k] >= m2[k]);
    }
}

/// Starting from an empty changeset, the inference pass produces exactly
/// `inferred_map`.
pub proof fn lemma_infer_from_empty(
    txid: Seq<char>,
    i_set: Set<Seq<char>>,
    o_set: Set<Seq<char>>,
    m_set: Set<Seq<char>>,
)
    ensures
        infer_apply(Map::empty(), txid, i_set, o_set, m_set) == inferred_map(
            txid,
            i_set,
            o_set,
            m_set,
        ),
{
    let mi = m_set.intersect(i_set);
    let mo = m_set.difference(i_set);
    let m1 = seed_apply(Map::<EdgeKey, u8>::empty(), txid, i_set, o_set);
    let dmod = any_upgrade(m1, txid, mo, mi);
    let m2 = upgrade_apply(m1, txid, mo, mi);
    let direct = nonempty(mo) && nonempty(mi);

    if dmod {
        let (s, d) = choose|s: Seq<char>, d: Seq<char>|
            #[trigger] mo.contains(s) && #[trigger] mi.contains(d) && upgradeable(
                m1,
                key3(s, txid, d),
            );
        assert(nonempty(mo) && nonempty(mi));
    }
    if direct {
        let s = choose|s: Seq<char>| mo.contains(s);
        let d = choose|d: Seq<char>| mi.contains(d);
        assert(!i_set.contains(s));
        assert(!m1.contains_key(key3(s, txid, d)));
        assert(upgradeable(m1, key3(s, txid, d)));
        assert(any_upgrade(m1, txid, mo, mi));
    }
    assert(dmod == direct);

    if dmod {
        assert(m2 =~= inferred_map(txid, i_set, o_set, m_set));
    } else if nonempty(m_set) {
        assert(m2 =~= m1);
        assert(upgrade_apply(m2, txid, i_set, mi) =~= inferred_map(txid, i_set, o_set, m_set));
    } else {
        assert forall|a: Seq<char>| !mo.contains(a) && !mi.contains(a) by {
            if mo.contains(a) || mi.contains(a) {
                assert(m_set.contains(a));
            }
        }
        assert(m2 =~= m1);
        assert(m1 =~= inferred_map(txid, i_set, o_set, m_set));
    }
}

#[verifier::loop_isolation(false)]
fn contains_addr(pairs: &Vec<(String, String)>, a: &String) -> (b: bool)
    ensures
        b == pair_addrs(pairs@).contains(a@),
{
    proof {
        lemma_pair_addrs_contains(pairs@);
    }
    let mut i: usize = 0;
    while i < pairs.len()
        invariant
            i <= pairs@.len(),
            forall|j: int| 0 <= j < i ==> pairs@[j].0@ != a@,
        decreases pairs@.len() - i,
    {
        if pairs[i].0 == *a {
            return true;
        }
        i = i + 1;
    }
    false
}

/// Runs the edge-inference heuristic for one transaction, accumulating into
/// an existing changeset: seed every (input, output) pair at level 0, record
/// a directional signal for every (VM-only, VM-and-input) pair, and if that
/// recorded nothing while VM addresses were found, reuse the VM-and-input
/// addresses as destinations for every input address.
#[verifier::loop_isolation(false)]
#[verifier::rlimit(60)]
pub fn infer_edges_into(
    cs: &mut Changeset,
    txid: &String,
    tx_in_addrs: &Vec<(String, String)>,
    tx_out_addrs: &Vec<(String, String)>,
    dvm_addrs: &Vec<String>,
)
    requires
        old(cs).wf(),
        forall|i: int, j: int| 0 <= i < j < dvm_addrs@.len() ==> dvm_addrs@[i]@ != dvm_addrs@[j]@,
    ensures
        final(cs).wf(),
        final(cs)@ == infer_apply(
            old(cs)@,
            txid@,
            pair_addrs(tx_in_addrs@),
            out_addrs(tx_out_addrs@),
            str_addrs(dvm_addrs@),
        ),
{
    let ghost base = old(cs)@;
    let ghost i_set = pair_addrs(tx_in_addrs@);
    let ghost o_set = out_addrs(tx_out_addrs@);
    let ghost m_set = str_addrs(dvm_addrs@);
    let ghost mi_set = m_set.intersect(i_set);
    let ghost mo_set = m_set.difference(i_set);

    let x_lit = String::from_str("x");

    // Partition the VM-mentioned addresses by membership in the input set.
    let mut m_in: Vec<String> = Vec::new();
    let mut m_out: Vec<String> = Vec::new();
    let mut i: usize = 0;
    while i < dvm_addrs.len()
        invariant
            i <= dvm_addrs@.len(),
            forall|p: int|
                0 <= p < m_in@.len() ==> i_set.contains(#[trigger] m_in@[p]@) && str_addrs(
                    dvm_addrs@.take(i as int),
                ).contains(m_in@[p]@),
            forall|p: int|
                0 <= p < m_out@.len() ==> !i_set.contains(#[trigger] m_out@[p]@) && str_addrs(
                    dvm_addrs@.take(i as int),
                ).contains(m_out@[p]@),
            forall|q: int| #![trigger dvm_addrs@[q]]
                0 <= q < i ==> str_addrs(m_in@).contains(dvm_addrs@[q]@) || str_addrs(
                    m_out@,
                ).contains(dvm_addrs@[q]@),
            forall|p: int, p2: int| 0 <= p < p2 < m_in@.len() ==> m_in@[p]@ != m_in@[p2]@,
            forall|p: int, p2: int| 0 <= p < p2 < m_out@.len() ==> m_out@[p]@ != m_out@[p2]@,
        decreases dvm_addrs@.len() - i,
    {
        let a = &dvm_addrs[i];
        proof {
            assert(dvm_addrs@.take(i + 1).drop_last() =~= dvm_addrs@.take(i as int));
            assert(dvm_addrs@.take(i + 1).last() == dvm_addrs@[i as int]);
            lemma_str_addrs_contains(dvm_addrs@.take(i as int));
        }
        if contains_addr(tx_in_addrs, a) {
            let ghost pre = m_in@;
            proof {
                assert forall|p: int| 0 <= p < pre.len() implies pre[p]@ != dvm_addrs@[
                    i as int
                ]@ by {
                    let q = choose|q: int|
                        0 <= q < i && #[trigger] dvm_addrs@.take(i as int)[q]@ == pre[p]@;
                    assert(dvm_addrs@[q]@ == pre[p]@);
                    assert(dvm_addrs@[q]@ != dvm_addrs@[i as int]@);
                }
            }
            m_in.push(a.clone());
            proof {
                assert(m_in@.drop_last() =~= pre);
                assert(m_in@.last()@ == dvm_addrs@[i as int]@);
                assert(str_addrs(m_in@) == str_addrs(pre).insert(dvm_addrs@[i as int]@));
            }
        } else {
            let ghost pre = m_out@;
            proof {
                assert forall|p: int| 0 <= p < pre.len() implies pre[p]@ != dvm_addrs@[
                    i as int
                ]@ by {
                    let q = choose|q: int|
                        0 <= q < i && #[trigger] dvm_addrs@.take(i as int)[q]@ == pre[p]@;
                    assert(dvm_addrs@[q]@ == pre[p]@);
                    assert(dvm_addrs@[q]@ != dvm_addrs@[i as int]@);
                }
            }
            m_out.push(a.clone());
            proof {
                assert(m_out@.drop_last() =~= pre);
                assert(m_out@.last()@ == dvm_addrs@[i as int]@);
                assert(str_addrs(m_out@) == str_addrs(pre).insert(dvm_addrs@[i as int]@));
            }
        }
        i = i + 1;
    }

    proof {
        assert(dvm_addrs@.take(dvm_addrs@.len() as int) =~= dvm_addrs@);
        lemma_str_addrs_contains(m_in@);
        lemma_str_addrs_contains(m_out@);
        lemma_str_addrs_contains(dvm_addrs@);
        assert forall|x: Seq<char>| str_addrs(m_in@).contains(x) implies mi_set.contains(x) by {
            let p = choose|p: int| 0 <= p < m_in@.len() && #[trigger] m_in@[p]@ == x;
            assert(str_addrs(dvm_addrs@).contains(m_in@[p]@));
        }
        assert forall|x: Seq<char>| mi_set.contains(x) implies str_addrs(m_in@).contains(x) by {
            let q = choose|q: int| 0 <= q < dvm_addrs@.len() && #[trigger] dvm_addrs@[q]@ == x;
            if str_addrs(m_out@).contains(dvm_addrs@[q]@) {
                let p = choose|p: int| 0 <= p < m_out@.len() && #[trigger] m_out@[p]@ == x;
                assert(!i_set.contains(x));
            }
        }
        assert(str_addrs(m_in@) =~= mi_set);
        assert forall|x: Seq<char>| str_addrs(m_out@).contains(x) implies mo_set.contains(x) by {
            let p = choose|p: int| 0 <= p < m_out@.len() && #[trigger] m_out@[p]@ == x;
            assert(str_addrs(dvm_addrs@).contains(m_out@[p]@));
        }
        assert forall|x: Seq<char>| mo_set.contains(x) implies str_addrs(m_out@).contains(x) by {
            let q = choose|q: int| 0 <= q < dvm_addrs@.len() && #[trigger] dvm_addrs@[q]@ == x;
            if str_addrs(m_in@).contains(dvm_addrs@[q]@) {
                let p = choose|p: int| 0 <= p < m_in@.len() && #[trigger] m_in@[p]@ == x;
                assert(i_set.contains(x));
            }
        }
        assert(str_addrs(m_out@) =~= mo_set);
    }

    // Seed every (input, output) pair at level 0, skipping the coinbase
    // marker output.
    let ghost m1 = seed_apply(base, txid@, i_set, o_set);
    proof {
        assert(tx_out_addrs@.take(0) =~= Seq::<(String, String)>::empty());
        assert(out_addrs(tx_out_addrs@.take(0)) =~= Set::<Seq<char>>::empty());
        assert(seed_apply(base, txid@, i_set, out_addrs(tx_out_addrs@.take(0))) =~= base);
    }
    let mut j: usize = 0;
    while j < tx_out_addrs.len()
        invariant
            cs.wf(),
            j <= tx_out_addrs@.len(),
            cs@ == seed_apply(base, txid@, i_set, out_addrs(tx_out_addrs@.take(j as int))),
        decreases tx_out_addrs@.len() - j,
    {
        proof {
            assert(tx_out_addrs@.take(j + 1).drop_last() =~= tx_out_addrs@.take(j as int));
            assert(tx_out_addrs@.take(j + 1).last() == tx_out_addrs@[j as int]);
        }
        let not_cb = !(tx_out_addrs[j].0 == x_lit);
        if not_cb {
            let ghost oj = tx_out_addrs@[j as int].0@;
            let ghost mj = seed_apply(base, txid@, i_set, out_addrs(tx_out_addrs@.take(j as int)));
            proof {
                assert(tx_in_addrs@.take(0) =~= Seq::<(String, String)>::empty());
                assert(pair_addrs(tx_in_addrs@.take(0)) =~= Set::<Seq<char>>::empty());
                lemma_seed_apply_empty_srcs(mj, txid@, sing(oj));
            }
            let mut l: usize = 0;
            while l < tx_in_addrs.len()
                invariant
                    cs.wf(),
                    l <= tx_in_addrs@.len(),
                    cs@ == seed_apply(mj, txid@, pair_addrs(tx_in_addrs@.take(l as int)), sing(oj)),
                decreases tx_in_addrs@.len() - l,
            {
                cs.seed(&tx_in_addrs[l].0, txid, &tx_out_addrs[j].0);
                proof {
                    assert(tx_in_addrs@.take(l + 1).drop_last() =~= tx_in_addrs@.take(l as int));
                    assert(tx_in_addrs@.take(l + 1).last() == tx_in_addrs@[l as int]);
                    lemma_seed_step(
                        mj,
                        txid@,
                        pair_addrs(tx_in_addrs@.take(l as int)),
                        tx_in_addrs@[l as int].0@,
                        oj,
                    );
                }
                l = l + 1;
            }
            proof {
                assert(tx_in_addrs@.take(tx_in_addrs@.len() as int) =~= tx_in_addrs@);
                lemma_seed_collapse(
                    base,
                    txid@,
                    i_set,
                    out_addrs(tx_out_addrs@.take(j as int)),
                    oj,
                );
                assert(out_addrs(tx_out_addrs@.take(j + 1)) =~= out_addrs(
                    tx_out_addrs@.take(j as int),
                ).insert(oj));
            }
        } else {
            proof {
                assert(tx_out_addrs@[j as int].0@ == "x"@);
                assert(out_addrs(tx_out_addrs@.take(j + 1)) =~= out_addrs(
                    tx_out_addrs@.take(j as int),
                ));
            }
        }
        j = j + 1;
    }
    proof {
        assert(tx_out_addrs@.take(tx_out_addrs@.len() as int) =~= tx_out_addrs@);
        assert(cs@ == m1);
    }

    // Record a directional signal for every (VM-only, VM-and-input) pair.
    let mut dmod = false;
    proof {
        assert(m_out@.take(0) =~= Seq::<String>::empty());
        assert(str_addrs(m_out@.take(0)) =~= Set::<Seq<char>>::empty());
        lemma_upgrade_apply_empty(m1, txid@, str_addrs(m_out@.take(0)), mi_set);
        lemma_any_upgrade_empty(m1, txid@, str_addrs(m_out@.take(0)), mi_set);
    }
    let mut a: usize = 0;
    while a < m_out.len()
        invariant
            cs.wf(),
            a <= m_out@.len(),
            cs@ == upgrade_apply(m1, txid@, str_addrs(m_out@.take(a as int)), mi_set),
            dmod == any_upgrade(m1, txid@, str_addrs(m_out@.take(a as int)), mi_set),
        decreases m_out@.len() - a,
    {
        let ghost s0 = m_out@[a as int]@;
        let ghost ma = upgrade_apply(m1, txid@, str_addrs(m_out@.take(a as int)), mi_set);
        proof {
            lemma_str_addrs_contains(m_out@.take(a as int));
            assert forall|p: int| 0 <= p < a implies m_out@.take(a as int)[p]@ != s0 by {
                assert(m_out@[p]@ != m_out@[a as int]@);
            }
            assert(!str_addrs(m_out@.take(a as int)).contains(s0));
            assert(m_in@.take(0) =~= Seq::<String>::empty());
            assert(str_addrs(m_in@.take(0)) =~= Set::<Seq<char>>::empty());
            lemma_upgrade_apply_empty(ma, txid@, sing(s0), str_addrs(m_in@.take(0)));
            lemma_any_upgrade_empty(m1, txid@, sing(s0), str_addrs(m_in@.take(0)));
        }
        let mut b: usize = 0;
        while b < m_in.len()
            invariant
                cs.wf(),
                b <= m_in@.len(),
                !str_addrs(m_out@.take(a as int)).contains(s0),
                cs@ == upgrade_apply(ma, txid@, sing(s0), str_addrs(m_in@.take(b as int))),
                dmod == (any_upgrade(m1, txid@, str_addrs(m_out@.take(a as int)), mi_set)
                    || any_upgrade(m1, txid@, sing(s0), str_addrs(m_in@.take(b as int)))),
            decreases m_in@.len() - b,
        {
            let ghost d0 = m_in@[b as int]@;
            let ghost k0 = key3(s0, txid@, d0);
            proof {
                lemma_str_addrs_contains(m_in@.take(b as int));
                assert forall|p: int| 0 <= p < b implies m_in@.take(b as int)[p]@ != d0 by {
                    assert(m_in@[p]@ != m_in@[b as int]@);
                }
                assert(!str_addrs(m_in@.take(b as int)).contains(d0));
                lemma_upgrade_frame(ma, txid@, sing(s0), str_addrs(m_in@.take(b as int)), k0);
                lemma_upgrade_frame(m1, txid@, str_addrs(m_out@.take(a as int)), mi_set, k0);
            }
            let changed = cs.record_directional(&m_out[a], txid, &m_in[b]);
            if changed {
                dmod = true;
            }
            proof {
                assert(m_in@.take(b + 1).drop_last() =~= m_in@.take(b as int));
                assert(m_in@.take(b + 1).last() == m_in@[b as int]);
                lemma_upgrade_step(ma, txid@, s0, str_addrs(m_in@.take(b as int)), d0);
                lemma_any_upgrade_step(m1, txid@, s0, str_addrs(m_in@.take(b as int)), d0);
            }
            b = b + 1;
        }
        proof {
            assert(m_in@.take(m_in@.len() as int) =~= m_in@);
            lemma_upgrade_collapse(m1, txid@, str_addrs(m_out@.take(a as int)), s0, mi_set);
            lemma_any_upgrade_split(m1, txid@, str_addrs(m_out@.take(a as int)), s0, mi_set);
            assert(m_out@.take(a + 1).drop_last() =~= m_out@.take(a as int));
            assert(m_out@.take(a + 1).last() == m_out@[a as int]);
        }
        a = a + 1;
    }
    proof {
        assert(m_out@.take(m_out@.len() as int) =~= m_out@);
    }
    let ghost m2 = upgrade_apply(m1, txid@, mo_set, mi_set);

    // Fallback: nothing was recorded although VM addresses were found.
    if !dmod && dvm_addrs.len() > 0 {
        proof {
            assert(dvm_addrs@[0]@ == dvm_addrs@[0]@);
            assert(m_set.contains(dvm_addrs@[0]@));
            assert(nonempty(m_set));
            assert(tx_in_addrs@.take(0) =~= Seq::<(String, String)>::empty());
            assert(pair_addrs(tx_in_addrs@.take(0)) =~= Set::<Seq<char>>::empty());
            lemma_upgrade_apply_empty(m2, txid@, pair_addrs(tx_in_addrs@.take(0)), mi_set);
        }
        let mut j2: usize = 0;
        while j2 < tx_in_addrs.len()
            invariant
                cs.wf(),
                j2 <= tx_in_addrs@.len(),
                cs@ == upgrade_apply(m2, txid@, pair_addrs(tx_in_addrs@.take(j2 as int)), mi_set),
            decreases tx_in_addrs@.len() - j2,
        {
            let ghost s0 = tx_in_addrs@[j2 as int].0@;
            let ghost mb = upgrade_apply(m2, txid@, pair_addrs(tx_in_addrs@.take(j2 as int)), mi_set);
            proof {
                assert(m_in@.take(0) =~= Seq::<String>::empty());
                assert(str_addrs(m_in@.take(0)) =~= Set::<Seq<char>>::empty());
                lemma_upgrade_apply_empty(mb, txid@, sing(s0), str_addrs(m_in@.take(0)));
            }
            let mut b2: usize = 0;
            while b2 < m_in.len()
                invariant
                    cs.wf(),
                    b2 <= m_in@.len(),
                    cs@ == upgrade_apply(mb, txid@, sing(s0), str_addrs(m_in@.take(b2 as int))),
                decreases m_in@.len() - b2,
            {
                let ghost d0 = m_in@[b2 as int]@;
                let ghost k0 = key3(s0, txid@, d0);
                proof {
                    lemma_str_addrs_contains(m_in@.take(b2 as int));
                    assert forall|p: int| 0 <= p < b2 implies m_in@.take(b2 as int)[p]@ != d0 by {
                        assert(m_in@[p]@ != m_in@[b2 as int]@);
                    }
                    assert(!str_addrs(m_in@.take(b2 as int)).contains(d0));
                    lemma_upgrade_frame(mb, txid@, sing(s0), str_addrs(m_in@.take(b2 as int)), k0);
                }
                let _changed = cs.record_directional(&tx_in_addrs[j2].0, txid, &m_in[b2]);
                proof {
                    assert(m_in@.take(b2 + 1).drop_last() =~= m_in@.take(b2 as int));
                    assert(m_in@.take(b2 + 1).last() == m_in@[b2 as int]);
                    lemma_upgrade_step(mb, txid@, s0, str_addrs(m_in@.take(b2 as int)), d0);
                }
                b2 = b2 + 1;
            }
            proof {
                assert(m_in@.take(m_in@.len() as int) =~= m_in@);
                lemma_upgrade_collapse(m2, txid@, pair_addrs(tx_in_addrs@.take(j2 as int)), s0, mi_set);
                assert(tx_in_addrs@.take(j2 + 1).drop_last() =~= tx_in_addrs@.take(j2 as int));
                assert(tx_in_addrs@.take(j2 + 1).last() == tx_in_addrs@[j2 as int]);
            }
            j2 = j2 + 1;
        }
        proof {
            assert(tx_in_addrs@.take(tx_in_addrs@.len() as int) =~= tx_in_addrs@);
        }
    } else {
        proof {
            if dvm_addrs@.len() == 0 {
                if nonempty(m_set) {
                    lemma_str_addrs_contains(dvm_addrs@);
                    let x = choose|x: Seq<char>| m_set.contains(x);
                    let q = choose|q: int| 0 <= q < dvm_addrs@.len() && #[trigger] dvm_addrs@[q]@ == x;
                    assert(false);
                }
            }
        }
    }
}

/// Runs the edge-inference heuristic for one transaction into a fresh
/// changeset, producing exactly the map `inferred_map` describes.
pub fn infer_edges(
    txid: &String,
    tx_in_addrs: &Vec<(String, String)>,
    tx_out_addrs: &Vec<(String, String)>,
    dvm_addrs: &Vec<String>,
) -> (cs: Changeset)
    requires
        forall|i: int, j: int| 0 <= i < j < dvm_addrs@.len() ==> dvm_addrs@[i]@ != dvm_addrs@[j]@,
    ensures
        cs.wf(),
        cs@ == inferred_map(
            txid@,
            pair_addrs(tx_in_addrs@),
            out_addrs(tx_out_addrs@),
            str_addrs(dvm_addrs@),
        ),
{
    let mut cs = Changeset::new();
    infer_edges_into(&mut cs, txid, tx_in_addrs, tx_out_addrs, dvm_addrs);
    proof {
        lemma_infer_from_empty(
            txid@,
            pair_addrs(tx_in_addrs@),
            out_addrs(tx_out_addrs@),
            str_addrs(dvm_addrs@),
        );
    }
    cs
}

} // verus!
