//! The resolved outcome of one parse call.

use crate::command::Command;
use crate::parameter::ParameterBinding;
use crate::parameter::ParameterValue;
use crate::verb::Verb;
use vstd::prelude::*;

verus! {

/// The closed set of results a parse call can produce.  Whichever variant
/// comes back carries exactly the context a host needs to act on it
/// without re-parsing: the offending token, the node where resolution
/// stalled, or the collected flag bindings.
#[derive(Debug)]
pub enum Action<'a> {
    /// The first path segment matched no top-level verb; carries that
    /// segment.
    Unknown(String),
    /// A later path segment matched neither a child verb nor a child
    /// command; carries the unconsumed input and the verb where
    /// resolution stalled.
    Incorrect(String, &'a Verb),
    /// A single-dash flag token had more than one character after its
    /// dash was stripped; carries the stripped text and the command that
    /// was tokenizing.
    BadParameter(String, &'a Command),
    /// A full match: the command's flag bindings, in input order, ready
    /// to dispatch.
    Run(Vec<ParameterValue<'a>>),
    /// Reserved for help requests; the core never produces it.
    Help(Vec<ParameterValue<'a>>),
    /// Reserved terminal outcome; the core never produces it.
    Exit,
}

/// The mathematical content of an [`Action`]: the same six variants with
/// their payloads taken as plain values.
pub enum Outcome {
    Unknown(Seq<char>),
    Incorrect(Seq<char>, Verb),
    BadParameter(Seq<char>, Command),
    Run(Seq<ParameterBinding>),
    Help(Seq<ParameterBinding>),
    Exit,
}

impl<'a> View for Action<'a> {
    type V = Outcome;

    open spec fn view(&self) -> Outcome {
        match self {
            Action::Unknown(s) => Outcome::Unknown(s@),
            Action::Incorrect(s, v) => Outcome::Incorrect(s@, **v),
            Action::BadParameter(s, c) => Outcome::BadParameter(s@, **c),
            Action::Run(pvs) => Outcome::Run(pvs.deep_view()),
            Action::Help(pvs) => Outcome::Help(pvs.deep_view()),
            Action::Exit => Outcome::Exit,
        }
    }
}

} // verus!
