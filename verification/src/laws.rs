//! The laws of resolution.
//!
//! These proof functions state, over the spec-level models, what holds of
//! every parse call: top-level dispatch delegates losslessly, unmatched
//! first tokens always come back as unknown, and the flag tokenizer
//! collects, drops and aborts exactly as the grammar says.

use crate::action::Outcome;
use crate::command::Command;
use crate::command::command_parse_spec;
use crate::command::find_long;
use crate::command::find_short;
use crate::command::is_bad_token;
use crate::command::run_tokens;
use crate::parameter::ParameterBinding;
use crate::parser::Parser;
use crate::parser::parser_parse_spec;
use crate::text;
use crate::text::is_space;
use crate::verb::find_verb;
use crate::verb::verb_parse_spec;
use vstd::prelude::*;

verus! {

/// Dispatch delegation is lossless: when the name of the registered verb
/// at position `i` arrives as the first token of a line, the parser's
/// answer is exactly that verb's answer on the remainder — whatever path
/// segments and flags the remainder holds.
///
/// The verb's name must be a single token (no whitespace in it, or it
/// could never be matched), and the remainder must not begin with
/// whitespace, since splitting consumes the whole separator run.
pub proof fn lemma_parse_delegates(p: Parser, i: int, rest: Seq<char>)
    requires
        0 <= i < p.verbs@.len(),
        find_verb(p.verbs@, p.verbs@[i].name@) == Option::Some(i),
        forall|j: int| 0 <= j < p.verbs@[i].name@.len() ==> !is_space(p.verbs@[i].name@[j]),
        rest.len() == 0 || !is_space(rest[0]),
    ensures
        parser_parse_spec(p, p.verbs@[i].name@ + seq![' '] + rest) == verb_parse_spec(
            p.verbs@[i],
            rest,
        ),
{
    text::lemma_split_token_line(p.verbs@[i].name@, rest);
}

/// An unregistered first token always resolves to `Unknown` carrying
/// that token, with or without further text on the line.
pub proof fn lemma_parse_unknown(p: Parser, x: Seq<char>, anything: Seq<char>)
    requires
        forall|j: int| 0 <= j < x.len() ==> !is_space(x[j]),
        find_verb(p.verbs@, x) is None,
    ensures
        parser_parse_spec(p, x) == Outcome::Unknown(x),
        parser_parse_spec(p, x + seq![' '] + anything) == Outcome::Unknown(x),
{
    text::lemma_split_single_token(x);
    let line = x + seq![' '] + anything;
    assert forall|j: int| 0 <= j < x.len() implies !is_space(line[j]) by {
        assert(line[j] == x[j]);
    }
    assert(line[x.len() as int] == ' ');
    text::lemma_head_len_is(line, x.len() as int);
    assert(text::first_token(line) =~= x);
}

/// Empty argument text tokenizes to a successful, empty run for every
/// command.
pub proof fn lemma_empty_args_run(c: Command)
    ensures
        command_parse_spec(c, Seq::empty()) == Outcome::Run(Seq::<ParameterBinding>::empty()),
{
    assert(text::tokens_of(Seq::empty()) =~= Seq::<Seq<char>>::empty());
}

/// The first malformed short flag aborts tokenization at once: whatever
/// bindings were collected before it — from `acc` or from the earlier,
/// well-formed tokens — are discarded, and the result carries the
/// stripped text of the offending token.
pub proof fn lemma_bad_token_aborts(
    c: Command,
    toks: Seq<Seq<char>>,
    acc: Seq<ParameterBinding>,
    i: int,
)
    requires
        0 <= i < toks.len(),
        is_bad_token(toks[i]),
        forall|j: int| 0 <= j < i ==> !is_bad_token(toks[j]),
    ensures
        run_tokens(c, toks, acc) == Outcome::BadParameter(toks[i].skip(1), c),
    decreases i,
{
    let t = toks[0];
    let rest = toks.skip(1);
    if i == 0 {
    } else {
        assert(!is_bad_token(t));
        assert(rest[i - 1] == toks[i]);
        assert forall|j: int| 0 <= j < i - 1 implies !is_bad_token(rest[j]) by {
            assert(rest[j] == toks[j + 1]);
        }
        if t.len() >= 2 && t[0] == '-' && t[1] == '-' {
            match find_long(c.parameters@, t.skip(2)) {
                Option::Some(k) => {
                    lemma_bad_token_aborts(
                        c,
                        rest,
                        acc.push(
                            (ParameterBinding {
                                parameter: c.parameters@[k],
                                values: Seq::empty(),
                            }),
                        ),
                        i - 1,
                    );
                },
                Option::None => {
                    lemma_bad_token_aborts(c, rest, acc, i - 1);
                },
            }
        } else if t.len() >= 1 && t[0] == '-' {
            assert(t.len() <= 2);
            if t.len() == 2 {
                match find_short(c.parameters@, t[1]) {
                    Option::Some(k) => {
                        lemma_bad_token_aborts(
                            c,
                            rest,
                            acc.push(
                                (ParameterBinding {
                                    parameter: c.parameters@[k],
                                    values: Seq::empty(),
                                }),
                            ),
                            i - 1,
                        );
                    },
                    Option::None => {
                        lemma_bad_token_aborts(c, rest, acc, i - 1);
                    },
                }
            } else {
                lemma_bad_token_aborts(c, rest, acc, i - 1);
            }
        } else {
            if acc.len() > 0 {
                let open = acc.last();
                lemma_bad_token_aborts(
                    c,
                    rest,
                    acc.update(
                        acc.len() - 1,
                        (ParameterBinding {
                            parameter: open.parameter,
                            values: open.values.push(t),
                        }),
                    ),
                    i - 1,
                );
            } else {
                lemma_bad_token_aborts(c, rest, acc, i - 1);
            }
        }
    }
}

/// A token that opens a binding: a recognized long flag or a recognized
/// short flag.
pub open spec fn is_matched_flag(c: Command, t: Seq<char>) -> bool {
    if t.len() >= 2 && t[0] == '-' && t[1] == '-' {
        find_long(c.parameters@, t.skip(2)) is Some
    } else if t.len() == 2 && t[0] == '-' {
        find_short(c.parameters@, t[1]) is Some
    } else {
        false
    }
}

/// How many tokens of `toks` open a binding against `c`.
pub open spec fn matched_flag_count(c: Command, toks: Seq<Seq<char>>) -> int
    decreases toks.len(),
{
    if toks.len() == 0 {
        0
    } else {
        (if is_matched_flag(c, toks[0]) {
            1int
        } else {
            0int
        }) + matched_flag_count(c, toks.skip(1))
    }
}

/// Bindings are never merged or overwritten: on well-formed tokens the
/// run succeeds and yields exactly one binding per recognized flag
/// occurrence, so the same flag given twice yields two separate
/// bindings.
pub proof fn lemma_one_binding_per_flag(c: Command, toks: Seq<Seq<char>>, acc: Seq<ParameterBinding>)
    requires
        forall|j: int| 0 <= j < toks.len() ==> !is_bad_token(toks[j]),
    ensures
        run_tokens(c, toks, acc) matches Outcome::Run(res) && res.len() == acc.len()
            + matched_flag_count(c, toks),
    decreases toks.len(),
{
    if toks.len() == 0 {
    } else {
        let t = toks[0];
        let rest = toks.skip(1);
        assert forall|j: int| 0 <= j < rest.len() implies !is_bad_token(rest[j]) by {
            assert(rest[j] == toks[j + 1]);
        }
        if t.len() >= 2 && t[0] == '-' && t[1] == '-' {
            match find_long(c.parameters@, t.skip(2)) {
                Option::Some(k) => {
                    lemma_one_binding_per_flag(
                        c,
                        rest,
                        acc.push(
                            (ParameterBinding {
                                parameter: c.parameters@[k],
                                values: Seq::empty(),
                            }),
                        ),
                    );
                },
                Option::None => {
                    lemma_one_binding_per_flag(c, rest, acc);
                },
            }
        } else if t.len() >= 1 && t[0] == '-' {
            assert(t.len() <= 2);
            if t.len() == 2 {
                match find_short(c.parameters@, t[1]) {
                    Option::Some(k) => {
                        lemma_one_binding_per_flag(
                            c,
                            rest,
                            acc.push(
                                (ParameterBinding {
                                    parameter: c.parameters@[k],
                                    values: Seq::empty(),
                                }),
                            ),
                        );
                    },
                    Option::None => {
                        lemma_one_binding_per_flag(c, rest, acc);
                    },
                }
            } else {
                lemma_one_binding_per_flag(c, rest, acc);
            }
        } else {
            if acc.len() > 0 {
                let open = acc.last();
                lemma_one_binding_per_flag(
                    c,
                    rest,
                    acc.update(
                        acc.len() - 1,
                        (ParameterBinding {
                            parameter: open.parameter,
                            values: open.values.push(t),
                        }),
                    ),
                );
            } else {
                lemma_one_binding_per_flag(c, rest, acc);
            }
        }
    }
}

/// When the run succeeds and when it aborts, exactly: `Run` comes back
/// if and only if no token is a malformed short flag.
pub proof fn lemma_run_iff_well_formed(
    c: Command,
    toks: Seq<Seq<char>>,
    acc: Seq<ParameterBinding>,
)
    ensures
        (run_tokens(c, toks, acc) is Run) <==> (forall|j: int|
            0 <= j < toks.len() ==> !is_bad_token(toks[j])),
    decreases toks.len(),
{
    if toks.len() == 0 {
    } else {
        let t = toks[0];
        let rest = toks.skip(1);
        if is_bad_token(t) {
        } else {
            assert forall|jr: int|
                (forall|j: int| 0 <= j < rest.len() ==> !is_bad_token(rest[j])) && 0 <= jr
                    < toks.len() implies !is_bad_token(toks[jr]) by {
                if jr > 0 {
                    assert(rest[jr - 1] == toks[jr]);
                }
            }
            assert forall|j: int| 0 <= j < rest.len() implies rest[j] == toks[j + 1] by {}
            if t.len() >= 2 && t[0] == '-' && t[1] == '-' {
                match find_long(c.parameters@, t.skip(2)) {
                    Option::Some(k) => {
                        lemma_run_iff_well_formed(
                            c,
                            rest,
                            acc.push(
                                (ParameterBinding {
                                    parameter: c.parameters@[k],
                                    values: Seq::empty(),
                                }),
                            ),
                        );
                    },
                    Option::None => {
                        lemma_run_iff_well_formed(c, rest, acc);
                    },
                }
            } else if t.len() >= 1 && t[0] == '-' {
                assert(t.len() <= 2);
                if t.len() == 2 {
                    match find_short(c.parameters@, t[1]) {
                        Option::Some(k) => {
                            lemma_run_iff_well_formed(
                                c,
                                rest,
                                acc.push(
                                    (ParameterBinding {
                                        parameter: c.parameters@[k],
                                        values: Seq::empty(),
                                    }),
                                ),
                            );
                        },
                        Option::None => {
                            lemma_run_iff_well_formed(c, rest, acc);
                        },
                    }
                } else {
                    lemma_run_iff_well_formed(c, rest, acc);
                }
            } else {
                if acc.len() > 0 {
                    let open = acc.last();
                    lemma_run_iff_well_formed(
                        c,
                        rest,
                        acc.update(
                            acc.len() - 1,
                            (ParameterBinding {
                                parameter: open.parameter,
                                values: open.values.push(t),
                            }),
                        ),
                    );
                } else {
                    lemma_run_iff_well_formed(c, rest, acc);
                }
            }
        }
    }
}

/// The success condition of a whole tokenization call, over the raw
/// argument text.
pub proof fn lemma_parse_runs_iff_well_formed(c: Command, args: Seq<char>)
    ensures
        (command_parse_spec(c, args) is Run) <==> (forall|j: int|
            0 <= j < text::tokens_of(args).len() ==> !is_bad_token(text::tokens_of(args)[j])),
{
    lemma_run_iff_well_formed(c, text::tokens_of(args), Seq::empty());
}

/// A bare value token with no binding open yet is dropped: it leaves the
/// run exactly where it started, so it can appear in no binding.
pub proof fn lemma_orphan_value_dropped(c: Command, toks: Seq<Seq<char>>)
    requires
        toks.len() > 0,
        toks[0].len() == 0 || toks[0][0] != '-',
    ensures
        run_tokens(c, toks, Seq::empty()) == run_tokens(c, toks.skip(1), Seq::empty()),
{
}

} // verus!
