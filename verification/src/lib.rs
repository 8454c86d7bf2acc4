use vstd::prelude::*;

pub mod addresses;
pub mod claims;
pub mod encode;
pub mod graph;
pub mod model;
pub mod pipeline;
pub mod rows;
pub mod swap;
pub mod txtype;
pub mod util;

verus! {

/// The empty string: the default value for row columns that do not apply.
pub fn empty() -> (r: String)
    ensures
        r@ == Seq::<char>::empty(),
{
    String::new()
}

} // verus!
