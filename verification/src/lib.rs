//! A hierarchical command-line dispatcher.
//!
//! A static, immutable tree of verbs (interior nodes) and commands (leaf
//! nodes) is resolved against one line of input text.  The first
//! whitespace-delimited token selects a top-level verb, later tokens walk
//! down the tree, and the trailing text is tokenized by the matched command
//! into flag/value groups.  Resolution never executes anything: it produces
//! a single action value that tells the host what was matched.
//!
//! Every parse entry point carries a contract proving it equal to a
//! spec-level model of the grammar, stated over sequences of characters;
//! [`laws`] proves from those models that delegation down the tree is
//! lossless and that the flag tokenizer collects, drops and aborts exactly
//! as described.

pub mod action;
pub mod command;
pub mod laws;
pub mod manual;
pub mod parameter;
pub mod parser;
pub mod text;
pub mod verb;

pub use action::Action;
pub use command::Command;
pub use manual::Manual;
pub use parameter::Parameter;
pub use parameter::ParameterValue;
pub use parser::Parser;
pub use parser::Runtime;
pub use verb::Informational;
pub use verb::Verb;
