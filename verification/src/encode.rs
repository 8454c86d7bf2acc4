use vstd::prelude::*;

verus! {

/// The JSON array text that encoding a list of strings produces.
pub uninterp spec fn json_list_str(items: Seq<Seq<char>>) -> Seq<char>;

/// The JSON array-of-pairs text that encoding a list of string pairs
/// produces.
pub uninterp spec fn json_pairs_str(items: Seq<(Seq<char>, Seq<char>)>) -> Seq<char>;

/// The JSON object text that encoding a string-to-string mapping produces.
pub uninterp spec fn json_object_str(m: Map<Seq<char>, Seq<char>>) -> Seq<char>;

/// The mapping a pair list denotes, later entries winning on a repeated key.
pub open spec fn pairs_kv_map(s: Seq<(String, String)>) -> Map<Seq<char>, Seq<char>>
    decreases s.len(),
{
    if s.len() == 0 {
        Map::empty()
    } else {
        pairs_kv_map(s.drop_last()).insert(s.last().0@, s.last().1@)
    }
}

/// Relies on serde_json::to_string on a Vec of strings: the output is a JSON
/// array determined by the strings alone. Writing goes to an in-memory
/// buffer and string serialization has no failing path, so the call cannot
/// return an error and never panics.
#[verifier::external_body]
pub(crate) fn to_json_string_list(v: &Vec<String>) -> (r: String)
    ensures
        r@ == json_list_str(crate::util::dv_strs(v@)),
{
    serde_json::to_string(v).unwrap_or_default()
}

/// Relies on serde_json::to_string on a Vec of string pairs: the output is a
/// JSON array of two-element arrays determined by the pairs alone. As above,
/// the call cannot return an error and never panics.
#[verifier::external_body]
pub(crate) fn to_json_pairs_list(v: &Vec<(String, String)>) -> (r: String)
    ensures
        r@ == json_pairs_str(crate::util::dv_pairs(v@)),
{
    serde_json::to_string(v).unwrap_or_default()
}

/// Relies on serde_json::Map (ordered by key) and serde_json::to_string: for
/// a pair list with pairwise distinct keys, the output is a JSON object
/// determined by the key-to-value mapping alone, the keys sorted. String
/// keys and values have no failing path, so the call cannot return an error
/// and never panics.
#[verifier::external_body]
pub(crate) fn to_json_object(pairs: &Vec<(String, String)>) -> (r: String)
    requires
        forall|p: int, q: int| 0 <= p < q < pairs@.len() ==> pairs@[p].0@ != pairs@[q].0@,
    ensures
        r@ == json_object_str(pairs_kv_map(pairs@)),
{
    let m: serde_json::Map<String, serde_json::Value> = pairs.iter().map(
        |p| (p.0.clone(), serde_json::Value::String(p.1.clone())),
    ).collect();
    serde_json::to_string(&m).unwrap_or_default()
}

} // verus!
