//! The tokenizer: one input line becomes an ordered list of argument
//! strings.
//!
//! Policy, stated once for the whole crate: a single quote, wherever it
//! stands outside a quote span, opens a verbatim span that runs to the
//! next single quote or to the end of the line; the span's content is one
//! token, taken literally (so the span that begins at a closing quote
//! keeps its spaces, and a quote at the very end of the line yields an
//! empty token). Quote characters themselves never reach a token. Before
//! the first quote the line is one unquoted token: runs of spaces inside
//! it collapse to a single space, a run at the start or the end of the
//! line is dropped, and a line that is empty or all spaces yields no
//! token at all.

use vstd::prelude::*;

use crate::strings::lemma_deep_view_push;
use crate::strings::lemma_first_at_is;
use crate::strings::split_char;
use crate::strings::split_on;

verus! {

/// The number of spaces at the front of `s`.
pub open spec fn leading_spaces(s: Seq<char>) -> nat
    decreases s.len(),
{
    if s.len() > 0 && s[0] == ' ' {
        1 + leading_spaces(s.drop_first())
    } else {
        0
    }
}

/// `leading_spaces` is exactly the position `j` such that everything
/// before `j` is a space and, unless `j` is the end, position `j` is not.
pub proof fn lemma_leading_spaces_is(s: Seq<char>, j: int)
    requires
        0 <= j <= s.len(),
        forall|k: int| 0 <= k < j ==> s[k] == ' ',
        j < s.len() ==> s[j] != ' ',
    ensures
        leading_spaces(s) == j,
    decreases j,
{
    if j == 0 {
        if s.len() > 0 {
            assert(s[0] != ' ');
        }
    } else {
        assert(s[0] == ' ');
        assert forall|k: int| 0 <= k < j - 1 implies s.drop_first()[k] == ' ' by {
            assert(s.drop_first()[k] == s[k + 1]);
        }
        if j - 1 < s.drop_first().len() {
            assert(s.drop_first()[j - 1] == s[j]);
        }
        lemma_leading_spaces_is(s.drop_first(), j - 1);
    }
}

/// The unquoted head of a token: `s` is what follows the token's first
/// character. Returns the rest of the token's content and the remainder
/// of the line, which is empty or starts with a quote. Interior runs of
/// spaces collapse to one space; a run that reaches the end of the line
/// is dropped.
pub open spec fn unquoted_tail(s: Seq<char>) -> (Seq<char>, Seq<char>)
    decreases s.len(),
{
    if s.len() == 0 {
        (Seq::empty(), Seq::empty())
    } else if s[0] == '\'' {
        (Seq::empty(), s)
    } else if s[0] == ' ' {
        let q = leading_spaces(s) as int;
        if q >= s.len() {
            (Seq::empty(), Seq::empty())
        } else if s[q] == '\'' {
            (Seq::empty(), s.skip(q))
        } else {
            let tr = unquoted_tail(s.skip(q));
            (seq![' '] + tr.0, tr.1)
        }
    } else {
        let tr = unquoted_tail(s.skip(1));
        (seq![s[0]] + tr.0, tr.1)
    }
}

/// The tokens of the quote chain that follows an opening quote: the
/// segments of `s` between quote characters, each one a verbatim token.
pub open spec fn quote_chain(s: Seq<char>) -> Seq<Seq<char>> {
    split_char(s, '\'')
}

/// The tokens that follow the unquoted head: nothing if the line is
/// over, else the chain opened by the quote the head stopped at.
pub open spec fn rest_tokens(rest: Seq<char>) -> Seq<Seq<char>> {
    if rest.len() == 0 {
        Seq::empty()
    } else {
        quote_chain(rest.skip(1))
    }
}

/// The token sequence of one input line, under the policy stated at the
/// top of this module.
pub open spec fn tokenize(line: Seq<char>) -> Seq<Seq<char>> {
    let s = line.skip(leading_spaces(line) as int);
    if s.len() == 0 {
        Seq::empty()
    } else if s[0] == '\'' {
        quote_chain(s.skip(1))
    } else {
        let tr = unquoted_tail(s.skip(1));
        seq![seq![s[0]] + tr.0] + rest_tokens(tr.1)
    }
}

/// Appends to `r` the tokens of the quote chain that starts at character
/// index `k` of `args` (the character at `k - 1` is the opening quote).
fn push_chain(r: &mut Vec<String>, args: &str, k: usize)
    requires
        k <= args@.len(),
    ensures
        final(r).deep_view() == old(r).deep_view() + quote_chain(args@.skip(k as int)),
{
    let n = args.unicode_len();
    let sub = args.substring_char(k, n);
    let mut rest = split_on(sub, '\'');
    proof {
        assert(sub@ =~= args@.skip(k as int));
    }
    let ghost r0 = r.deep_view();
    let ghost rest0 = rest.deep_view();
    r.append(&mut rest);
    proof {
        assert forall|i: int| 0 <= i < r.deep_view().len() implies r.deep_view()[i] == (r0
            + rest0)[i] by {
        }
        assert(r.deep_view() =~= r0 + rest0);
    }
}

/// Splits one line into its tokens. The policy is the one stated at the
/// top of this module; the result holds the quote spans verbatim and the
/// unquoted head with its interior space runs collapsed.
pub fn parse_args(args: &str) -> (r: Vec<String>)
    ensures
        r.deep_view() == tokenize(args@),
{
    let n = args.unicode_len();
    let mut i: usize = 0;
    while i < n && args.get_char(i) == ' '
        invariant
            n == args@.len(),
            i <= n,
            forall|k: int| 0 <= k < i ==> args@[k] == ' ',
        decreases n - i,
    {
        i = i + 1;
    }
    proof {
        lemma_leading_spaces_is(args@, i as int);
    }
    let ghost s = args@.skip(i as int);
    let mut r: Vec<String> = Vec::new();
    if i == n {
        proof {
            assert(s.len() == 0);
            assert(tokenize(args@) =~= r.deep_view());
        }
        return r;
    }
    let c0 = args.get_char(i);
    if c0 == '\'' {
        push_chain(&mut r, args, i + 1);
        proof {
            assert(s[0] == '\'');
            assert(s.skip(1) =~= args@.skip(i + 1));
            assert(r.deep_view() =~= quote_chain(args@.skip(i + 1)));
        }
        return r;
    }
    let mut token = String::new();
    token.push(c0);
    let mut p = i + 1;
    proof {
        assert(s[0] == c0 && c0 != ' ' && c0 != '\'');
        assert(s.skip(1) =~= args@.skip(i + 1));
        assert(token@ =~= seq![s[0]]);
    }
    loop
        invariant
            n == args@.len(),
            p <= n,
            r@.len() == 0,
            tokenize(args@) == seq![token@ + unquoted_tail(args@.skip(p as int)).0]
                + rest_tokens(unquoted_tail(args@.skip(p as int)).1),
        decreases n - p,
    {
        let ghost sp = args@.skip(p as int);
        if p == n {
            proof {
                assert(sp.len() == 0);
                assert(unquoted_tail(sp) == (Seq::<char>::empty(), Seq::<char>::empty()));
                assert(token@ + Seq::<char>::empty() =~= token@);
                assert(rest_tokens(Seq::<char>::empty()) =~= Seq::<Seq<char>>::empty());
                assert(seq![token@] + Seq::<Seq<char>>::empty() =~= seq![token@]);
            }
            let ghost r0 = r;
            r.push(token);
            proof {
                lemma_deep_view_push(r0, r, token);
                assert(r.deep_view() =~= seq![r.deep_view()[0]]);
                assert(r.deep_view() =~= tokenize(args@));
            }
            return r;
        }
        let c = args.get_char(p);
        if c == '\'' {
            proof {
                assert(sp[0] == '\'');
                assert(unquoted_tail(sp) == (Seq::<char>::empty(), sp));
                assert(token@ + Seq::<char>::empty() =~= token@);
                assert(sp.skip(1) =~= args@.skip(p + 1));
            }
            let ghost r0 = r;
            let ghost tok0 = token@;
            r.push(token);
            proof {
                lemma_deep_view_push(r0, r, token);
            }
            push_chain(&mut r, args, p + 1);
            proof {
                assert(r.deep_view() =~= seq![tok0] + quote_chain(args@.skip(p + 1)));
            }
            return r;
        } else if c == ' ' {
            let mut j = p;
            while j < n && args.get_char(j) == ' '
                invariant
                    n == args@.len(),
                    p <= j <= n,
                    forall|k: int| p <= k < j ==> args@[k] == ' ',
                decreases n - j,
            {
                j = j + 1;
            }
            proof {
                assert forall|k: int| 0 <= k < j - p implies sp[k] == ' ' by {
                    assert(sp[k] == args@[p + k]);
                }
                if j < n {
                    assert(sp[j - p] == args@[j as int]);
                }
                lemma_leading_spaces_is(sp, j - p);
                assert(sp[0] == ' ');
            }
            if j == n {
                proof {
                    assert(leading_spaces(sp) >= sp.len());
                    assert(unquoted_tail(sp) == (Seq::<char>::empty(), Seq::<char>::empty()));
                    assert(token@ + Seq::<char>::empty() =~= token@);
                    assert(seq![token@] + rest_tokens(Seq::<char>::empty()) =~= seq![token@]);
                }
                let ghost r0 = r;
                r.push(token);
                proof {
                    lemma_deep_view_push(r0, r, token);
                    assert(r.deep_view() =~= seq![r.deep_view()[0]]);
                    assert(r.deep_view() =~= tokenize(args@));
                }
                return r;
            }
            let cj = args.get_char(j);
            if cj == '\'' {
                proof {
                    assert(sp[j - p] == '\'');
                    assert(sp.skip(j - p) =~= args@.skip(j as int));
                    assert(unquoted_tail(sp) == (Seq::<char>::empty(), args@.skip(j as int)));
                    assert(token@ + Seq::<char>::empty() =~= token@);
                    assert(args@.skip(j as int).skip(1) =~= args@.skip(j + 1));
                }
                let ghost r0 = r;
                let ghost tok0 = token@;
                r.push(token);
                proof {
                    lemma_deep_view_push(r0, r, token);
                }
                push_chain(&mut r, args, j + 1);
                proof {
                    assert(r.deep_view() =~= seq![tok0] + quote_chain(args@.skip(j + 1)));
                }
                return r;
            }
            proof {
                assert(sp[j - p] != '\'' && sp[j - p] != ' ');
                assert(sp.skip(j - p) =~= args@.skip(j as int));
                assert(unquoted_tail(sp) == (
                    seq![' '] + unquoted_tail(args@.skip(j as int)).0,
                    unquoted_tail(args@.skip(j as int)).1,
                ));
            }
            let ghost tok0 = token@;
            token.push(' ');
            proof {
                assert(token@ + unquoted_tail(args@.skip(j as int)).0 =~= tok0 + (seq![' ']
                    + unquoted_tail(args@.skip(j as int)).0));
            }
            p = j;
        } else {
            proof {
                assert(sp[0] == c && c != '\'' && c != ' ');
                assert(sp.skip(1) =~= args@.skip(p + 1));
                assert(unquoted_tail(sp) == (
                    seq![c] + unquoted_tail(args@.skip(p + 1)).0,
                    unquoted_tail(args@.skip(p + 1)).1,
                ));
            }
            let ghost tok0 = token@;
            token.push(c);
            proof {
                assert(token@ + unquoted_tail(args@.skip(p + 1)).0 =~= tok0 + (seq![c]
                    + unquoted_tail(args@.skip(p + 1)).0));
            }
            p = p + 1;
        }
    }
}

} // verus!
