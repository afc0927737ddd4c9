//! Verified helpers over `&str` and `String`: prefix tests, equality,
//! locating spaces, splitting a string into space-delimited words, and
//! joining words back together with single spaces.

use vstd::prelude::*;

verus! {

/// `p` is a prefix of `s`: every character of `p` appears at the same
/// position in `s`.
pub open spec fn is_prefix(p: Seq<char>, s: Seq<char>) -> bool {
    p.len() <= s.len() && forall|i: int| 0 <= i < p.len() ==> s[i] == p[i]
}

/// Character-by-character string equality, verified against the views.
pub fn str_eq(a: &str, b: &str) -> (r: bool)
    ensures
        r == (a@ == b@),
{
    let na = a.unicode_len();
    let nb = b.unicode_len();
    if na != nb {
        proof {
            assert(a@ != b@) by {
                if a@ == b@ {
                    assert(a@.len() == b@.len());
                }
            }
        }
        return false;
    }
    let mut i: usize = 0;
    while i < na
        invariant
            na == a@.len(),
            na == b@.len(),
            i <= na,
            forall|k: int| 0 <= k < i ==> a@[k] == b@[k],
        decreases na - i,
    {
        if a.get_char(i) != b.get_char(i) {
            proof {
                assert(a@ != b@) by {
                    if a@ == b@ {
                        assert(a@[i as int] == b@[i as int]);
                    }
                }
            }
            return false;
        }
        i = i + 1;
    }
    proof {
        assert(a@ =~= b@);
    }
    true
}

/// Does `s` start with `p`? Verified against `is_prefix`.
pub fn has_prefix(s: &str, p: &str) -> (r: bool)
    ensures
        r == is_prefix(p@, s@),
{
    let np = p.unicode_len();
    let ns = s.unicode_len();
    if np > ns {
        return false;
    }
    let mut i: usize = 0;
    while i < np
        invariant
            np == p@.len(),
            ns == s@.len(),
            np <= ns,
            i <= np,
            forall|k: int| 0 <= k < i ==> s@[k] == p@[k],
        decreases np - i,
    {
        if s.get_char(i) != p.get_char(i) {
            proof {
                assert(s@[i as int] != p@[i as int]);
            }
            return false;
        }
        i = i + 1;
    }
    true
}

/// Index of the first space character of `s`, or `s.len()` if there is none.
pub open spec fn first_space(s: Seq<char>) -> int
    decreases s.len(),
{
    if s.len() == 0 {
        0
    } else if s[0] == ' ' {
        0
    } else {
        1 + first_space(s.drop_first())
    }
}

pub proof fn lemma_first_space_bounds(s: Seq<char>)
    ensures
        0 <= first_space(s) <= s.len(),
        forall|k: int| 0 <= k < first_space(s) ==> s[k] != ' ',
        first_space(s) < s.len() ==> s[first_space(s)] == ' ',
    decreases s.len(),
{
    if s.len() == 0 {
    } else if s[0] == ' ' {
    } else {
        lemma_first_space_bounds(s.drop_first());
        assert(forall|k: int|
            0 <= k < first_space(s) ==> #[trigger] s[k] == if k == 0 {
                s[0]
            } else {
                s.drop_first()[k - 1]
            });
    }
}

/// A scan that saw no space before `j`, and a space (or the end) at `j`,
/// has found `first_space`.
pub proof fn lemma_first_space_at(s: Seq<char>, j: int)
    requires
        0 <= j <= s.len(),
        forall|k: int| 0 <= k < j ==> s[k] != ' ',
        j < s.len() ==> s[j] == ' ',
    ensures
        first_space(s) == j,
    decreases j,
{
    if j == 0 {
    } else {
        assert(s[0] != ' ');
        lemma_first_space_at(s.drop_first(), j - 1);
    }
}

/// Index of the first space of `s` at or after `start`, or the length of
/// `s` if there is none.
pub fn find_space_from(s: &str, start: usize) -> (r: usize)
    requires
        start <= s@.len(),
    ensures
        start <= r <= s@.len(),
        forall|k: int| start <= k < r ==> s@[k] != ' ',
        r < s@.len() ==> s@[r as int] == ' ',
{
    let n = s.unicode_len();
    let mut i: usize = start;
    while i < n
        invariant
            n == s@.len(),
            start <= i <= n,
            forall|k: int| start <= k < i ==> s@[k] != ' ',
        decreases n - i,
    {
        if s.get_char(i) == ' ' {
            return i;
        }
        i = i + 1;
    }
    i
}

/// The space-delimited words of `s`, in order. Splitting on every single
/// space: consecutive spaces yield empty words, and the empty string is
/// one empty word.
pub open spec fn split_words(s: Seq<char>) -> Seq<Seq<char>>
    decreases s.len(),
{
    let j = first_space(s);
    if 0 <= j < s.len() {
        seq![s.take(j)] + split_words(s.skip(j + 1))
    } else {
        seq![s]
    }
}

/// Splits `s` on single spaces, yielding exactly `split_words(s@)`.
pub fn split_spaces(s: &str) -> (r: Vec<String>)
    ensures
        r.deep_view() == split_words(s@),
{
    let n = s.unicode_len();
    let mut words: Vec<String> = Vec::new();
    let mut i: usize = 0;
    proof {
        assert(s@.skip(0) =~= s@);
        assert(words.deep_view() + split_words(s@) =~= split_words(s@));
    }
    loop
        invariant_except_break
            split_words(s@) == words.deep_view() + split_words(s@.skip(i as int)),
        invariant
            n == s@.len(),
            i <= n,
        ensures
            words.deep_view() == split_words(s@),
        decreases n - i,
    {
        let ghost old_dv = words.deep_view();
        let ghost i0 = i as int;
        let ghost rest = s@.skip(i0);
        let j = find_space_from(s, i);
        let word = s.substring_char(i, j);
        words.push(word.to_owned());
        proof {
            lemma_first_space_at(rest, j - i0);
            assert(rest.take(j - i0) =~= s@.subrange(i0, j as int));
            assert(words.deep_view() =~= old_dv.push(rest.take(j - i0)));
        }
        if j == n {
            proof {
                assert(rest.take(j - i0) =~= rest);
                assert(split_words(rest) == seq![rest]);
                assert(old_dv + seq![rest] =~= old_dv.push(rest.take(j - i0)));
            }
            break;
        }
        i = j + 1;
        proof {
            assert(rest.skip(j - i0 + 1) =~= s@.skip(j + 1));
            assert(split_words(rest) == seq![rest.take(j - i0)] + split_words(s@.skip(j + 1)));
            assert(old_dv + (seq![rest.take(j - i0)] + split_words(s@.skip(j + 1)))
                =~= words.deep_view() + split_words(s@.skip(j + 1)));
        }
    }
    words
}

/// The words joined with a single space between consecutive words; the
/// empty word sequence joins to the empty string.
pub open spec fn join_words(ws: Seq<Seq<char>>) -> Seq<char>
    decreases ws.len(),
{
    if ws.len() == 0 {
        Seq::empty()
    } else if ws.len() == 1 {
        ws[0]
    } else {
        ws[0] + " "@ + join_words(ws.drop_first())
    }
}

pub proof fn lemma_join_push(ws: Seq<Seq<char>>, w: Seq<char>)
    ensures
        join_words(ws.push(w)) == if ws.len() == 0 {
            w
        } else {
            join_words(ws) + " "@ + w
        },
    decreases ws.len(),
{
    let p = ws.push(w);
    if ws.len() == 0 {
        assert(p[0] == w);
    } else if ws.len() == 1 {
        assert(p.drop_first() =~= seq![w]);
        assert(join_words(seq![w]) == w);
        assert(join_words(p) == p[0] + " "@ + join_words(p.drop_first()));
    } else {
        lemma_join_push(ws.drop_first(), w);
        assert(p.drop_first() =~= ws.drop_first().push(w));
        assert(ws[0] + " "@ + (join_words(ws.drop_first()) + " "@ + w) =~= (ws[0] + " "@
            + join_words(ws.drop_first())) + " "@ + w);
    }
}

/// Joins the fragments with single spaces, yielding exactly
/// `join_words` of their views.
pub fn join_with_spaces(parts: &[String]) -> (r: String)
    ensures
        r@ == join_words(parts.deep_view()),
{
    let mut out = String::new();
    let mut i: usize = 0;
    while i < parts.len()
        invariant
            i <= parts@.len(),
            parts.deep_view().len() == parts@.len(),
            out@ == join_words(parts.deep_view().take(i as int)),
        decreases parts@.len() - i,
    {
        if i > 0 {
            out.append(" ");
        }
        out.append(parts[i].as_str());
        proof {
            let dv = parts.deep_view();
            lemma_join_push(dv.take(i as int), dv[i as int]);
            assert(dv.take(i + 1) =~= dv.take(i as int).push(dv[i as int]));
        }
        i = i + 1;
    }
    proof {
        assert(parts.deep_view().take(parts@.len() as int) =~= parts.deep_view());
    }
    out
}

} // verus!
