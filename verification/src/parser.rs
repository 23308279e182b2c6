//! The entry point: top-level verb lookup.

use crate::action::Action;
use crate::action::Outcome;
use crate::text;
use crate::verb::Verb;
use crate::verb::find_verb;
use crate::verb::find_verb_index;
use crate::verb::lemma_find_verb_range;
use crate::verb::verb_parse_spec;
use vstd::prelude::*;

verus! {

/// Placeholder for host runtime state; the resolution core keeps none.
pub struct Runtime {}

/// The entry point of resolution: the registered top-level verbs.  The
/// tree is assembled once, before any parsing, and read-only afterwards,
/// so parse calls are independent and free of side effects.
pub struct Parser {
    pub verbs: Vec<Verb>,
}

/// One whole resolution step: the first token of the line selects a
/// top-level verb, which resolves the remainder; an unmatched first
/// token is reported as unknown.
pub open spec fn parser_parse_spec(p: Parser, input: Seq<char>) -> Outcome {
    let head = text::first_token(input);
    let rest = text::rest_after_token(input);
    match find_verb(p.verbs@, head) {
        Option::Some(i) => verb_parse_spec(p.verbs@[i], rest),
        Option::None => Outcome::Unknown(head),
    }
}

impl Parser {
    /// Registers the top-level verbs.  A name registered twice resolves
    /// to its latest registration, as in a map filled by repeated
    /// insertion.
    pub fn new(verbs: Vec<Verb>) -> (p: Parser)
        ensures
            p.verbs == verbs,
    {
        Parser { verbs }
    }

    /// Resolves one line of input to an [`Action`].
    pub fn parse(&self, input: String) -> (r: Action)
        ensures
            r@ == parser_parse_spec(*self, input@),
    {
        let (head, rest) = text::split_first(input.as_str());
        let m = find_verb_index(&self.verbs, head);
        match m {
            Some(i) => {
                proof {
                    lemma_find_verb_range(self.verbs@, head@);
                }
                self.verbs[i].parse(rest)
            },
            None => Action::Unknown(head.to_owned()),
        }
    }
}

} // verus!
