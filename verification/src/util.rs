use vstd::prelude::*;

verus! {

/// The character-sequence views of a list of strings.
pub open spec fn dv_strs(s: Seq<String>) -> Seq<Seq<char>> {
    s.map_values(|x: String| x@)
}

/// The character-sequence views of a list of string pairs.
pub open spec fn dv_pairs(s: Seq<(String, String)>) -> Seq<(Seq<char>, Seq<char>)> {
    s.map_values(|p: (String, String)| (p.0@, p.1@))
}

pub broadcast proof fn lemma_dv_pairs_push(s: Seq<(String, String)>, p: (String, String))
    ensures
        #[trigger] dv_pairs(s.push(p)) == dv_pairs(s).push((p.0@, p.1@)),
{
    assert(dv_pairs(s.push(p)) =~= dv_pairs(s).push((p.0@, p.1@)));
}

/// Compares a string against a literal by value.
pub fn eq_lit(s: &String, lit: &str) -> (b: bool)
    ensures
        b == (s@ == lit@),
{
    let l = String::from_str(lit);
    *s == l
}

} // verus!
