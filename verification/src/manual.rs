//! Static help text.

use vstd::prelude::*;

verus! {

/// Help text attached to a verb: a short description and the detailed
/// help lines, both supplied at construction and never mutated.
#[derive(Debug)]
pub struct Manual {
    pub short_description: String,
    pub detailed_help: Vec<String>,
}

impl Manual {
    pub fn new(short_description: &str, detailed_help: Vec<&str>) -> (m: Manual)
        ensures
            m.short_description@ == short_description@,
            m.detailed_help.deep_view() == detailed_help.deep_view(),
    {
        let mut lines: Vec<String> = Vec::new();
        let mut i: usize = 0;
        while i < detailed_help.len()
            invariant
                0 <= i <= detailed_help.len(),
                lines@.len() == i,
                forall|j: int| 0 <= j < i ==> lines@[j]@ == detailed_help@[j]@,
            decreases detailed_help.len() - i,
        {
            lines.push(detailed_help[i].to_owned());
            i += 1;
        }
        proof {
            assert(lines.deep_view() =~= detailed_help.deep_view());
        }
        Manual { short_description: short_description.to_owned(), detailed_help: lines }
    }
}

} // verus!
