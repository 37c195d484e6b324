//! Character-level helpers shared by the tokenizer, the resolver and the
//! dispatcher: string equality, splitting on a separator character, and
//! joining with a separator character.

use vstd::prelude::*;

verus! {

/// Appends one character to a `String`.
/// Relies on std's `String::push`, which appends the given `char` to the
/// end of the string.
pub assume_specification[ String::push ](s: &mut String, c: char)
    ensures
        final(s)@ == old(s)@.push(c),
;

/// Index of the first occurrence of `sep` in `s`, or `s.len()` if there
/// is none.
pub open spec fn first_at(s: Seq<char>, sep: char) -> nat
    decreases s.len(),
{
    if s.len() == 0 {
        0
    } else if s[0] == sep {
        0
    } else {
        1 + first_at(s.drop_first(), sep)
    }
}

/// `first_at` is exactly the position `j` such that `sep` occurs nowhere
/// before `j` and, unless `j` is the end, occurs at `j`.
pub proof fn lemma_first_at_is(s: Seq<char>, sep: char, j: int)
    requires
        0 <= j <= s.len(),
        forall|k: int| 0 <= k < j ==> s[k] != sep,
        j < s.len() ==> s[j] == sep,
    ensures
        first_at(s, sep) == j,
    decreases j,
{
    if j == 0 {
        if s.len() > 0 {
            assert(s[0] == sep);
        }
    } else {
        assert(s[0] != sep);
        assert forall|k: int| 0 <= k < j - 1 implies s.drop_first()[k] != sep by {
            assert(s.drop_first()[k] == s[k + 1]);
        }
        if j - 1 < s.drop_first().len() {
            assert(s.drop_first()[j - 1] == s[j]);
        }
        lemma_first_at_is(s.drop_first(), sep, j - 1);
    }
}

/// The segments of `s` between occurrences of `sep`, in order; delimiters
/// are dropped. The empty sequence yields one empty segment, and a
/// trailing `sep` yields a trailing empty segment, as std's `str::split`
/// on a single character does.
pub open spec fn split_char(s: Seq<char>, sep: char) -> Seq<Seq<char>>
    decreases s.len(),
{
    let j = first_at(s, sep) as int;
    if j >= s.len() {
        seq![s]
    } else {
        seq![s.take(j)] + split_char(s.skip(j + 1), sep)
    }
}

/// Joining `parts` with `sep` between consecutive parts.
pub open spec fn join_char(parts: Seq<Seq<char>>, sep: char) -> Seq<char>
    decreases parts.len(),
{
    if parts.len() == 0 {
        Seq::empty()
    } else if parts.len() == 1 {
        parts[0]
    } else {
        parts[0] + seq![sep] + join_char(parts.drop_first(), sep)
    }
}

pub proof fn lemma_join_push(p: Seq<Seq<char>>, x: Seq<char>, sep: char)
    ensures
        p.len() == 0 ==> join_char(p.push(x), sep) == x,
        p.len() > 0 ==> join_char(p.push(x), sep) == join_char(p, sep) + seq![sep] + x,
    decreases p.len(),
{
    if p.len() == 0 {
        assert(p.push(x)[0] == x);
    } else if p.len() == 1 {
        assert(p.push(x)[0] == p[0]);
        assert(p.push(x).drop_first() =~= seq![x]);
        assert(join_char(seq![x], sep) == x);
        assert(join_char(p, sep) == p[0]);
    } else {
        assert(p.push(x).drop_first() =~= p.drop_first().push(x));
        lemma_join_push(p.drop_first(), x, sep);
        assert(p.push(x)[0] == p[0]);
        assert(join_char(p.push(x), sep) == p[0] + seq![sep] + join_char(
            p.drop_first().push(x),
            sep,
        ));
        assert(p[0] + seq![sep] + (join_char(p.drop_first(), sep) + seq![sep] + x) =~= (p[0]
            + seq![sep] + join_char(p.drop_first(), sep)) + seq![sep] + x);
    }
}

/// Pushing one element onto a `Vec<String>` pushes its view onto the
/// deep view.
pub proof fn lemma_deep_view_push(v: Vec<String>, w: Vec<String>, t: String)
    requires
        w@ == v@.push(t),
    ensures
        w.deep_view() =~= v.deep_view().push(t@),
{
    assert forall|i: int| 0 <= i < w@.len() implies w.deep_view()[i] == v.deep_view().push(t@)[i]
        by {
        if i < v@.len() {
            assert(w@[i] == v@[i]);
        } else {
            assert(w@[i] == t);
        }
    }
}

/// Character-for-character string equality: `r == (a@ == b@)`.
pub fn str_eq(a: &str, b: &str) -> (r: bool)
    ensures
        r == (a@ == b@),
{
    let na = a.unicode_len();
    let nb = b.unicode_len();
    if na != nb {
        proof {
            assert(a@.len() != b@.len());
        }
        return false;
    }
    let mut i: usize = 0;
    while i < na
        invariant
            na == a@.len(),
            na == b@.len(),
            i <= na,
            forall|k: int| 0 <= k < i ==> a@[k] == b@[k],
        decreases na - i,
    {
        if a.get_char(i) != b.get_char(i) {
            return false;
        }
        i = i + 1;
    }
    proof {
        assert(a@ =~= b@);
    }
    true
}

/// Splits `s` into the segments between occurrences of `sep`.
pub fn split_on(s: &str, sep: char) -> (r: Vec<String>)
    ensures
        r.deep_view() == split_char(s@, sep),
{
    let n = s.unicode_len();
    let mut r: Vec<String> = Vec::new();
    let mut i: usize = 0;
    proof {
        assert(s@.skip(0) =~= s@);
    }
    loop
        invariant
            n == s@.len(),
            i <= n,
            split_char(s@, sep) =~= r.deep_view() + split_char(s@.skip(i as int), sep),
        decreases n - i,
    {
        let ghost seg_start = i as int;
        let mut token = String::new();
        let mut j: usize = i;
        while j < n && s.get_char(j) != sep
            invariant
                n == s@.len(),
                0 <= seg_start <= j <= n,
                forall|k: int| seg_start <= k < j ==> s@[k] != sep,
                token@ =~= s@.subrange(seg_start, j as int),
            decreases n - j,
        {
            let c = s.get_char(j);
            token.push(c);
            proof {
                assert(token@ =~= s@.subrange(seg_start, j + 1));
            }
            j = j + 1;
        }
        let ghost tail = s@.skip(seg_start);
        proof {
            assert forall|k: int| 0 <= k < j - seg_start implies tail[k] != sep by {
                assert(tail[k] == s@[seg_start + k]);
            }
            if j < n {
                assert(tail[j - seg_start] == s@[j as int]);
            }
            lemma_first_at_is(tail, sep, j - seg_start);
            assert(token@ =~= tail.take(j - seg_start));
        }
        let ghost old_r = r;
        let ghost tok_view = token@;
        r.push(token);
        proof {
            lemma_deep_view_push(old_r, r, token);
        }
        if j >= n {
            proof {
                assert(split_char(tail, sep) =~= seq![tail.take(j - seg_start)]);
                assert(r.deep_view() =~= old_r.deep_view() + seq![tok_view]);
                assert(split_char(s@, sep) =~= r.deep_view());
            }
            return r;
        }
        proof {
            assert(split_char(tail, sep) =~= seq![tail.take(j - seg_start)] + split_char(
                tail.skip(j - seg_start + 1),
                sep,
            ));
            assert(tail.skip(j - seg_start + 1) =~= s@.skip(j + 1));
            assert(r.deep_view() + split_char(s@.skip(j + 1), sep) =~= old_r.deep_view()
                + split_char(tail, sep));
        }
        i = j + 1;
    }
}

/// Joins the strings of `v` with `sep` between consecutive elements.
pub fn join_on(v: &Vec<String>, sep: char) -> (r: String)
    ensures
        r@ == join_char(v.deep_view(), sep),
{
    let mut out = String::new();
    let mut i: usize = 0;
    proof {
        assert(v.deep_view().take(0) =~= Seq::<Seq<char>>::empty());
    }
    while i < v.len()
        invariant
            i <= v@.len(),
            out@ =~= join_char(v.deep_view().take(i as int), sep),
        decreases v@.len() - i,
    {
        if i > 0 {
            out.push(sep);
        }
        out.append(v[i].as_str());
        proof {
            let p = v.deep_view().take(i as int);
            lemma_join_push(p, v@[i as int]@, sep);
            assert(v.deep_view().take(i + 1) =~= p.push(v.deep_view()[i as int]));
            assert(v.deep_view()[i as int] == v@[i as int]@);
            if i == 0 {
                assert(out@ =~= v@[i as int]@);
            }
        }
        i = i + 1;
    }
    proof {
        assert(v.deep_view().take(v@.len() as int) =~= v.deep_view());
    }
    out
}

} // verus!
