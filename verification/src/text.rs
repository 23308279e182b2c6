//! Whitespace tokenization.
//!
//! The dispatcher splits its input on runs of whitespace, both when it
//! peels one path segment off the front of a line and when a command
//! tokenizes its trailing argument text.  The splitting is specified here
//! over `Seq<char>` and implemented by verified scanning loops.

use vstd::prelude::*;
use vstd::string::StrSliceExecFns;

verus! {

/// The characters treated as token separators: the ASCII whitespace set.
pub open spec fn is_space(c: char) -> bool {
    c == ' ' || c == '\t' || c == '\n' || c == '\r'
}

/// Length of the leading run of non-separator characters of `s`.
pub open spec fn head_len(s: Seq<char>) -> int
    decreases s.len(),
{
    if s.len() == 0 || is_space(s[0]) {
        0
    } else {
        1 + head_len(s.skip(1))
    }
}

/// Length of the leading run of separator characters of `s`.
pub open spec fn pad_len(s: Seq<char>) -> int
    decreases s.len(),
{
    if s.len() == 0 || !is_space(s[0]) {
        0
    } else {
        1 + pad_len(s.skip(1))
    }
}

/// The first whitespace-delimited token of `s` (empty when `s` is empty
/// or starts with a separator).
pub open spec fn first_token(s: Seq<char>) -> Seq<char> {
    s.take(head_len(s))
}

/// What remains of `s` after its first token and the separator run that
/// follows it.
pub open spec fn rest_after_token(s: Seq<char>) -> Seq<char> {
    let h = head_len(s);
    s.skip(h + pad_len(s.skip(h)))
}

pub proof fn lemma_head_len_bounds(s: Seq<char>)
    ensures
        0 <= head_len(s) <= s.len(),
        forall|j: int| 0 <= j < head_len(s) ==> !is_space(s[j]),
        head_len(s) < s.len() ==> is_space(s[head_len(s)]),
    decreases s.len(),
{
    if s.len() == 0 || is_space(s[0]) {
    } else {
        lemma_head_len_bounds(s.skip(1));
        assert forall|j: int| 0 <= j < head_len(s) implies !is_space(s[j]) by {
            if j >= 1 {
                assert(s.skip(1)[j - 1] == s[j]);
            }
        }
        if head_len(s) < s.len() {
            assert(s.skip(1)[head_len(s) - 1] == s[head_len(s)]);
        }
    }
}

/// A scan that saw no separator before `i` and a separator (or the end)
/// at `i` has found exactly the head length.
pub proof fn lemma_head_len_is(s: Seq<char>, i: int)
    requires
        0 <= i <= s.len(),
        forall|j: int| 0 <= j < i ==> !is_space(s[j]),
        i < s.len() ==> is_space(s[i]),
    ensures
        head_len(s) == i,
    decreases s.len(),
{
    if s.len() == 0 {
    } else if is_space(s[0]) {
        assert(i == 0);
    } else {
        assert(i >= 1);
        assert forall|j: int| 0 <= j < i - 1 implies !is_space(s.skip(1)[j]) by {
            assert(s.skip(1)[j] == s[j + 1]);
        }
        if i - 1 < s.skip(1).len() {
            assert(s.skip(1)[i - 1] == s[i]);
        }
        lemma_head_len_is(s.skip(1), i - 1);
    }
}

/// The counterpart of [`lemma_head_len_is`] for separator runs.
pub proof fn lemma_pad_len_is(s: Seq<char>, i: int)
    requires
        0 <= i <= s.len(),
        forall|j: int| 0 <= j < i ==> is_space(s[j]),
        i < s.len() ==> !is_space(s[i]),
    ensures
        pad_len(s) == i,
    decreases s.len(),
{
    if s.len() == 0 {
    } else if !is_space(s[0]) {
        assert(i == 0);
    } else {
        assert(i >= 1);
        assert forall|j: int| 0 <= j < i - 1 implies is_space(s.skip(1)[j]) by {
            assert(s.skip(1)[j] == s[j + 1]);
        }
        if i - 1 < s.skip(1).len() {
            assert(s.skip(1)[i - 1] == s[i]);
        }
        lemma_pad_len_is(s.skip(1), i - 1);
    }
}

/// All whitespace-delimited tokens of `s`, in order, each non-empty.
pub open spec fn tokens_of(s: Seq<char>) -> Seq<Seq<char>>
    decreases s.len() via tokens_of_decreases
{
    if s.len() == 0 {
        Seq::empty()
    } else if is_space(s[0]) {
        tokens_of(s.skip(1))
    } else {
        seq![first_token(s)] + tokens_of(s.skip(head_len(s)))
    }
}

#[via_fn]
proof fn tokens_of_decreases(s: Seq<char>) {
    if s.len() != 0 && !is_space(s[0]) {
        lemma_head_len_bounds(s.skip(1));
        assert(head_len(s) == 1 + head_len(s.skip(1)));
        lemma_head_len_bounds(s);
    }
}

/// A line assembled as `token`, one space, `remainder` splits back into
/// exactly those two parts, provided the token has no separator in it
/// and the remainder does not begin with one.
pub proof fn lemma_split_token_line(token: Seq<char>, remainder: Seq<char>)
    requires
        forall|j: int| 0 <= j < token.len() ==> !is_space(token[j]),
        remainder.len() == 0 || !is_space(remainder[0]),
    ensures
        first_token(token + seq![' '] + remainder) == token,
        rest_after_token(token + seq![' '] + remainder) == remainder,
{
    let line = token + seq![' '] + remainder;
    assert forall|j: int| 0 <= j < token.len() implies !is_space(line[j]) by {
        assert(line[j] == token[j]);
    }
    assert(line[token.len() as int] == ' ');
    lemma_head_len_is(line, token.len() as int);
    assert(first_token(line) =~= token);
    let tail = line.skip(token.len() as int);
    assert(tail[0] == ' ');
    if 1 < tail.len() {
        assert(tail[1] == remainder[0]);
    }
    lemma_pad_len_is(tail, 1);
    assert(rest_after_token(line) =~= remainder);
}

/// A line that is a single token (no separator anywhere) splits into
/// itself and an empty remainder.
pub proof fn lemma_split_single_token(token: Seq<char>)
    requires
        forall|j: int| 0 <= j < token.len() ==> !is_space(token[j]),
    ensures
        first_token(token) == token,
        rest_after_token(token) == Seq::<char>::empty(),
{
    lemma_head_len_is(token, token.len() as int);
    assert(first_token(token) =~= token);
    let tail = token.skip(token.len() as int);
    assert(tail =~= Seq::<char>::empty());
    lemma_pad_len_is(tail, 0);
    assert(rest_after_token(token) =~= Seq::<char>::empty());
}

/// Whether `c` is a token separator.
pub fn is_space_char(c: char) -> (r: bool)
    ensures
        r == is_space(c),
{
    c == ' ' || c == '\t' || c == '\n' || c == '\r'
}

/// Whether two string slices hold the same characters.
pub fn str_eq(a: &str, b: &str) -> (r: bool)
    ensures
        r == (a@ == b@),
{
    let na = a.unicode_len();
    let nb = b.unicode_len();
    if na != nb {
        return false;
    }
    let mut i: usize = 0;
    while i < na
        invariant
            0 <= i <= na,
            na == a@.len(),
            na == b@.len(),
            forall|j: int| 0 <= j < i ==> a@[j] == b@[j],
        decreases na - i,
    {
        if a.get_char(i) != b.get_char(i) {
            return false;
        }
        i += 1;
    }
    proof {
        assert(a@ =~= b@);
    }
    true
}

/// Splits `input` into its first token and everything after the separator
/// run that follows that token.
pub fn split_first(input: &str) -> (r: (&str, &str))
    ensures
        r.0@ == first_token(input@),
        r.1@ == rest_after_token(input@),
{
    let ghost s = input@;
    let n = input.unicode_len();
    let mut i: usize = 0;
    while i < n && !is_space_char(input.get_char(i))
        invariant
            0 <= i <= n,
            n == s.len(),
            s == input@,
            forall|j: int| 0 <= j < i ==> !is_space(s[j]),
        decreases n - i,
    {
        i += 1;
    }
    proof {
        lemma_head_len_is(s, i as int);
    }
    let head = input.substring_char(0, i);
    let mut k = i;
    while k < n && is_space_char(input.get_char(k))
        invariant
            i <= k <= n,
            n == s.len(),
            s == input@,
            forall|j: int| i <= j < k ==> is_space(s[j]),
        decreases n - k,
    {
        k += 1;
    }
    let rest = input.substring_char(k, n);
    proof {
        let tail = s.skip(i as int);
        assert forall|j: int| 0 <= j < k - i implies is_space(tail[j]) by {
            assert(tail[j] == s[i + j]);
        }
        if k < n {
            assert(tail[k - i] == s[k as int]);
        }
        lemma_pad_len_is(tail, k - i);
        assert(head@ =~= first_token(s));
        assert(rest@ =~= rest_after_token(s));
    }
    (head, rest)
}

/// Splits `input` into all of its whitespace-delimited tokens, in order.
pub fn tokenize(input: &str) -> (toks: Vec<String>)
    ensures
        toks.deep_view() == tokens_of(input@),
{
    let ghost s = input@;
    let n = input.unicode_len();
    let mut toks: Vec<String> = Vec::new();
    proof {
        assert(toks.deep_view() =~= Seq::<Seq<char>>::empty());
        assert(s.skip(0) =~= s);
        assert(toks.deep_view() + tokens_of(s.skip(0)) =~= tokens_of(s));
    }
    let mut p: usize = 0;
    while p < n
        invariant
            0 <= p <= n,
            n == s.len(),
            s == input@,
            tokens_of(s) == toks.deep_view() + tokens_of(s.skip(p as int)),
        decreases n - p,
    {
        if is_space_char(input.get_char(p)) {
            proof {
                assert(s.skip(p as int)[0] == s[p as int]);
                assert(s.skip(p as int).skip(1) =~= s.skip(p as int + 1));
            }
            p += 1;
        } else {
            let mut q = p + 1;
            while q < n && !is_space_char(input.get_char(q))
                invariant
                    p < q <= n,
                    n == s.len(),
                    s == input@,
                    forall|j: int| p <= j < q ==> !is_space(s[j]),
                decreases n - q,
            {
                q += 1;
            }
            let tok = input.substring_char(p, q);
            let ghost pre = toks.deep_view();
            toks.push(tok.to_owned());
            proof {
                let tail = s.skip(p as int);
                assert forall|j: int| 0 <= j < q - p implies !is_space(tail[j]) by {
                    assert(tail[j] == s[p + j]);
                }
                if q < n {
                    assert(tail[q - p] == s[q as int]);
                }
                lemma_head_len_is(tail, q - p);
                assert(tail[0] == s[p as int]);
                assert(tokens_of(tail) == seq![first_token(tail)] + tokens_of(
                    tail.skip(q - p),
                ));
                assert(first_token(tail) =~= tok@);
                assert(tail.skip(q - p) =~= s.skip(q as int));
                assert(toks.deep_view() =~= pre.push(tok@));
                assert(pre + tokens_of(tail) =~= toks.deep_view() + tokens_of(
                    s.skip(q as int),
                ));
            }
            p = q;
        }
    }
    proof {
        assert(s.skip(n as int) =~= Seq::<char>::empty());
        assert(tokens_of(s) =~= toks.deep_view());
    }
    toks
}

} // verus!
