//! Leaf commands and their flag tokenizer.

use crate::action::Action;
use crate::action::Outcome;
use crate::parameter::Parameter;
use crate::parameter::ParameterBinding;
use crate::parameter::ParameterValue;
use crate::text;
use vstd::prelude::*;
use vstd::string::StrSliceExecFns;

verus! {

/// A leaf node: a named command with its ordered flag declarations.
///
/// Flag lookup scans the declaration list; when short and long names are
/// unique within one command, as the data model asks, the scan finds the
/// one match.  A name declared twice resolves to its latest declaration,
/// as in a map filled by repeated insertion.
#[derive(Debug)]
pub struct Command {
    pub name: String,
    pub parameters: Vec<Parameter>,
}

/// Position of the last parameter of `ps` whose short name is `c`.
pub open spec fn find_short(ps: Seq<Parameter>, c: char) -> Option<int>
    decreases ps.len(),
{
    if ps.len() == 0 {
        Option::None
    } else if ps.last().short_name == c {
        Option::Some(ps.len() - 1)
    } else {
        find_short(ps.drop_last(), c)
    }
}

/// Position of the last parameter of `ps` whose long name is `name`.
pub open spec fn find_long(ps: Seq<Parameter>, name: Seq<char>) -> Option<int>
    decreases ps.len(),
{
    if ps.len() == 0 {
        Option::None
    } else if ps.last().long_name@ == name {
        Option::Some(ps.len() - 1)
    } else {
        find_long(ps.drop_last(), name)
    }
}

/// Position of the last command of `cs` named `name`.
pub open spec fn find_command(cs: Seq<Command>, name: Seq<char>) -> Option<int>
    decreases cs.len(),
{
    if cs.len() == 0 {
        Option::None
    } else if cs.last().name@ == name {
        Option::Some(cs.len() - 1)
    } else {
        find_command(cs.drop_last(), name)
    }
}

pub proof fn lemma_find_short_range(ps: Seq<Parameter>, c: char)
    ensures
        find_short(ps, c) matches Option::Some(i) ==> 0 <= i < ps.len() && ps[i].short_name
            == c,
    decreases ps.len(),
{
    if ps.len() > 0 && ps.last().short_name != c {
        lemma_find_short_range(ps.drop_last(), c);
    }
}

pub proof fn lemma_find_long_range(ps: Seq<Parameter>, name: Seq<char>)
    ensures
        find_long(ps, name) matches Option::Some(i) ==> 0 <= i < ps.len() && ps[i].long_name@
            == name,
    decreases ps.len(),
{
    if ps.len() > 0 && ps.last().long_name@ != name {
        lemma_find_long_range(ps.drop_last(), name);
    }
}

pub proof fn lemma_find_command_range(cs: Seq<Command>, name: Seq<char>)
    ensures
        find_command(cs, name) matches Option::Some(i) ==> 0 <= i < cs.len() && cs[i].name@
            == name,
    decreases cs.len(),
{
    if cs.len() > 0 && cs.last().name@ != name {
        lemma_find_command_range(cs.drop_last(), name);
    }
}

/// A malformed flag token: a single (not double) leading dash whose
/// stripped text has more than one character.
pub open spec fn is_bad_token(t: Seq<char>) -> bool {
    t.len() > 2 && t[0] == '-' && t[1] != '-'
}

/// The flag-tokenizing state machine, one step per token.
///
/// `acc` holds the bindings already collected; the binding opened last is
/// the one still open for value tokens.  A recognized flag opens a fresh
/// binding, an unrecognized flag is dropped, a bare value token joins the
/// open binding or is dropped when none is open, and a malformed short
/// flag aborts with everything collected so far discarded.
pub open spec fn run_tokens(c: Command, toks: Seq<Seq<char>>, acc: Seq<ParameterBinding>) -> Outcome
    decreases toks.len(),
{
    if toks.len() == 0 {
        Outcome::Run(acc)
    } else {
        let t = toks[0];
        let rest = toks.skip(1);
        if t.len() >= 2 && t[0] == '-' && t[1] == '-' {
            match find_long(c.parameters@, t.skip(2)) {
                Option::Some(i) => run_tokens(
                    c,
                    rest,
                    acc.push(
                        (ParameterBinding { parameter: c.parameters@[i], values: Seq::empty() }),
                    ),
                ),
                Option::None => run_tokens(c, rest, acc),
            }
        } else if t.len() >= 1 && t[0] == '-' {
            if t.len() > 2 {
                Outcome::BadParameter(t.skip(1), c)
            } else if t.len() == 2 {
                match find_short(c.parameters@, t[1]) {
                    Option::Some(i) => run_tokens(
                        c,
                        rest,
                        acc.push(
                            (ParameterBinding {
                                parameter: c.parameters@[i],
                                values: Seq::empty(),
                            }),
                        ),
                    ),
                    Option::None => run_tokens(c, rest, acc),
                }
            } else {
                run_tokens(c, rest, acc)
            }
        } else {
            if acc.len() > 0 {
                let open = acc.last();
                run_tokens(
                    c,
                    rest,
                    acc.update(
                        acc.len() - 1,
                        (ParameterBinding {
                            parameter: open.parameter,
                            values: open.values.push(t),
                        }),
                    ),
                )
            } else {
                run_tokens(c, rest, acc)
            }
        }
    }
}

/// The command's whole parse of its trailing argument text.
pub open spec fn command_parse_spec(c: Command, args: Seq<char>) -> Outcome {
    run_tokens(c, text::tokens_of(args), Seq::empty())
}

impl Command {
    pub fn new(name: &str, parameters: Vec<Parameter>) -> (c: Command)
        ensures
            c.name@ == name@,
            c.parameters == parameters,
    {
        Command { name: name.to_owned(), parameters }
    }

    pub fn name(&self) -> (r: &String)
        ensures
            r@ == self.name@,
    {
        &self.name
    }

    /// Position of the last declared parameter whose short name is `c`.
    fn find_short_index(&self, c: char) -> (r: Option<usize>)
        ensures
            (r is Some) == (find_short(self.parameters@, c) is Some),
            r matches Some(i) ==> find_short(self.parameters@, c) == Option::Some(i as int),
    {
        let ghost ps = self.parameters@;
        let mut i: usize = self.parameters.len();
        proof {
            assert(ps.take(ps.len() as int) =~= ps);
        }
        while i > 0
            invariant
                0 <= i <= ps.len(),
                ps == self.parameters@,
                find_short(ps, c) == find_short(ps.take(i as int), c),
            decreases i,
        {
            i -= 1;
            proof {
                assert(ps.take(i as int + 1).last() == ps[i as int]);
                assert(ps.take(i as int + 1).drop_last() =~= ps.take(i as int));
            }
            if self.parameters[i].short_name == c {
                return Some(i);
            }
        }
        proof {
            assert(ps.take(0) =~= Seq::<Parameter>::empty());
        }
        None
    }

    /// Position of the last declared parameter whose long name is `name`.
    fn find_long_index(&self, name: &str) -> (r: Option<usize>)
        ensures
            (r is Some) == (find_long(self.parameters@, name@) is Some),
            r matches Some(i) ==> find_long(self.parameters@, name@) == Option::Some(i as int),
    {
        let ghost ps = self.parameters@;
        let mut i: usize = self.parameters.len();
        proof {
            assert(ps.take(ps.len() as int) =~= ps);
        }
        while i > 0
            invariant
                0 <= i <= ps.len(),
                ps == self.parameters@,
                find_long(ps, name@) == find_long(ps.take(i as int), name@),
            decreases i,
        {
            i -= 1;
            proof {
                assert(ps.take(i as int + 1).last() == ps[i as int]);
                assert(ps.take(i as int + 1).drop_last() =~= ps.take(i as int));
            }
            if text::str_eq(self.parameters[i].long_name.as_str(), name) {
                return Some(i);
            }
        }
        proof {
            assert(ps.take(0) =~= Seq::<Parameter>::empty());
        }
        None
    }

    /// Tokenizes the trailing argument text into flag/value groups.
    ///
    /// Each recognized flag token opens a fresh binding (a repeated flag
    /// opens a second one), bare value tokens join the binding opened
    /// last, unknown flags and orphan values are dropped, and a
    /// malformed short flag aborts the call.
    pub fn parse(&self, parameters: &str) -> (r: Action)
        ensures
            r@ == command_parse_spec(*self, parameters@),
    {
        let toks = text::tokenize(parameters);
        let ghost all = text::tokens_of(parameters@);
        let mut parameter_values: Vec<ParameterValue> = Vec::new();
        proof {
            assert(parameter_values.deep_view() =~= Seq::<ParameterBinding>::empty());
            assert(all.skip(0) =~= all);
        }
        let mut idx: usize = 0;
        while idx < toks.len()
            invariant
                0 <= idx <= toks.len(),
                toks.deep_view() == all,
                toks@.len() == all.len(),
                all == text::tokens_of(parameters@),
                run_tokens(*self, all.skip(idx as int), parameter_values.deep_view())
                    == run_tokens(*self, all, Seq::empty()),
            decreases toks.len() - idx,
        {
            let ghost t = all[idx as int];
            let ghost acc0 = parameter_values.deep_view();
            proof {
                assert(all.skip(idx as int)[0] == all[idx as int]);
                assert(all.skip(idx as int).skip(1) =~= all.skip(idx as int + 1));
            }
            let token = &toks[idx];
            proof {
                assert(toks.deep_view()[idx as int] == token@);
            }
            let tlen = token.unicode_len();
            if tlen >= 2 && token.get_char(0) == '-' && token.get_char(1) == '-' {
                let stripped = token.substring_char(2, tlen);
                proof {
                    assert(stripped@ =~= t.skip(2));
                }
                let m = self.find_long_index(stripped);
                match m {
                    Some(i) => {
                        proof {
                            lemma_find_long_range(self.parameters@, stripped@);
                        }
                        let pv = ParameterValue::new(&self.parameters[i]);
                        parameter_values.push(pv);
                        proof {
                            assert(parameter_values.deep_view() =~= acc0.push(
                                (ParameterBinding {
                                    parameter: self.parameters@[i as int],
                                    values: Seq::empty(),
                                }),
                            ));
                        }
                    },
                    None => {},
                }
            } else if tlen >= 1 && token.get_char(0) == '-' {
                let stripped = token.substring_char(1, tlen);
                proof {
                    assert(stripped@ =~= t.skip(1));
                }
                if tlen > 2 {
                    let r = Action::BadParameter(stripped.to_owned(), self);
                    proof {
                        assert(r@ == run_tokens(*self, all.skip(idx as int), acc0));
                    }
                    return r;
                }
                if tlen == 2 {
                    let c = token.get_char(1);
                    let m = self.find_short_index(c);
                    match m {
                        Some(i) => {
                            proof {
                                lemma_find_short_range(self.parameters@, c);
                            }
                            let pv = ParameterValue::new(&self.parameters[i]);
                            parameter_values.push(pv);
                            proof {
                                assert(parameter_values.deep_view() =~= acc0.push(
                                    (ParameterBinding {
                                        parameter: self.parameters@[i as int],
                                        values: Seq::empty(),
                                    }),
                                ));
                            }
                        },
                        None => {},
                    }
                }
            } else {
                let popped = parameter_values.pop();
                match popped {
                    Some(open_pv) => {
                        let mut open_pv = open_pv;
                        open_pv.values.push(token.clone());
                        parameter_values.push(open_pv);
                        proof {
                            let open = acc0.last();
                            assert(open_pv@.values =~= open.values.push(t));
                            assert(parameter_values.deep_view() =~= acc0.update(
                                acc0.len() - 1,
                                (ParameterBinding {
                                    parameter: open.parameter,
                                    values: open.values.push(t),
                                }),
                            ));
                        }
                    },
                    None => {},
                }
            }
            idx += 1;
        }
        proof {
            assert(all.skip(idx as int) =~= Seq::<Seq<char>>::empty());
        }
        Action::Run(parameter_values)
    }
}

} // verus!
