//! Relations an identity holds to named things.

use vstd::prelude::*;

verus! {

/// A bag of named relations: each pair relates a name to a description.
#[derive(Debug)]
pub struct Relation {
    pub data: Vec<(String, String)>,
}

/// Whether the relation holds anything at all.
pub fn have_relation(b: &Relation) -> (r: bool)
    ensures
        r == (b.data@.len() != 0),
{
    !b.data.is_empty()
}

} // verus!
