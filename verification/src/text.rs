//! Splitting text into lines and lines into whitespace-separated tokens,
//! with the mathematical model both operations are verified against.

use vstd::prelude::*;
use vstd::string::StrSliceExecFns;

verus! {

/// ASCII whitespace, as `char::is_ascii_whitespace` defines it.
pub open spec fn is_ws(c: char) -> bool {
    c == ' ' || c == '\t' || c == '\n' || c == '\u{c}' || c == '\r'
}

fn is_ws_exec(c: char) -> (r: bool)
    ensures
        r == is_ws(c),
{
    c == ' ' || c == '\t' || c == '\n' || c == '\u{c}' || c == '\r'
}

/// Index of the first line feed in `s`, or `s.len()` when `s` has none.
pub open spec fn newline_at(s: Seq<char>) -> nat
    decreases s.len(),
{
    if s.len() == 0 {
        0
    } else if s[0] == '\n' {
        0
    } else {
        1 + newline_at(s.drop_first())
    }
}

proof fn lemma_newline_at_is(s: Seq<char>, p: int)
    requires
        0 <= p <= s.len(),
        forall|i: int| 0 <= i < p ==> s[i] != '\n',
        p < s.len() ==> s[p] == '\n',
    ensures
        newline_at(s) == p,
    decreases p,
{
    if p == 0 {
    } else {
        lemma_newline_at_is(s.drop_first(), p - 1);
    }
}

/// The lines of `s`, split at line feeds. A final line feed closes the last
/// line without opening an empty one, as a line-by-line reader has it.
pub open spec fn lines_of(s: Seq<char>) -> Seq<Seq<char>>
    decreases s.len(),
{
    if s.len() == 0 {
        Seq::empty()
    } else {
        let p = newline_at(s) as int;
        if p >= s.len() {
            seq![s]
        } else {
            seq![s.take(p)] + lines_of(s.skip(p + 1))
        }
    }
}

/// Length of the leading run of non-whitespace characters of `s`.
pub open spec fn token_run(s: Seq<char>) -> nat
    decreases s.len(),
{
    if s.len() == 0 || is_ws(s[0]) {
        0
    } else {
        1 + token_run(s.drop_first())
    }
}

proof fn lemma_token_run_is(s: Seq<char>, p: int)
    requires
        0 <= p <= s.len(),
        forall|i: int| 0 <= i < p ==> !is_ws(s[i]),
        p < s.len() ==> is_ws(s[p]),
    ensures
        token_run(s) == p,
    decreases p,
{
    if p == 0 {
    } else {
        lemma_token_run_is(s.drop_first(), p - 1);
    }
}

/// The whitespace-separated tokens of `s`, in order. Tokens are the maximal
/// runs of non-whitespace characters, so every token is non-empty.
pub open spec fn tokens_of(s: Seq<char>) -> Seq<Seq<char>>
    decreases s.len(),
{
    if s.len() == 0 {
        Seq::empty()
    } else if is_ws(s[0]) {
        tokens_of(s.drop_first())
    } else {
        let t = token_run(s) as int;
        if t >= s.len() {
            seq![s]
        } else {
            seq![s.take(t)] + tokens_of(s.skip(t))
        }
    }
}

/// Tokens are maximal runs of non-whitespace characters, so none is empty.
pub proof fn lemma_tokens_of_nonempty(s: Seq<char>)
    ensures
        forall|i: int| 0 <= i < tokens_of(s).len() ==> tokens_of(s)[i].len() > 0,
    decreases s.len(),
{
    if s.len() == 0 {
    } else if is_ws(s[0]) {
        lemma_tokens_of_nonempty(s.drop_first());
        assert(tokens_of(s) == tokens_of(s.drop_first()));
        assert forall|i: int| 0 <= i < tokens_of(s).len() implies tokens_of(s)[i].len() > 0 by {
            assert(tokens_of(s)[i] == tokens_of(s.drop_first())[i]);
        }
    } else {
        let t = token_run(s) as int;
        if t >= s.len() {
            assert(tokens_of(s) == seq![s]);
            assert(tokens_of(s)[0] == s);
        } else {
            lemma_tokens_of_nonempty(s.skip(t));
            assert forall|i: int| 0 <= i < tokens_of(s).len() implies tokens_of(s)[i].len() > 0 by {
                if i == 0 {
                    assert(tokens_of(s)[0] == s.take(t));
                } else {
                    assert(tokens_of(s)[i] == tokens_of(s.skip(t))[i - 1]);
                }
            }
        }
    }
}

/// The views of a sequence of strings.
pub open spec fn views_of_strings(ss: Seq<String>) -> Seq<Seq<char>> {
    ss.map_values(|s: String| s@)
}

/// The characters of `s`, one by one.
pub fn to_char_vec(s: &str) -> (v: Vec<char>)
    ensures
        v@ == s@,
{
    let n: usize = s.unicode_len();
    let mut v: Vec<char> = Vec::new();
    let mut i: usize = 0;
    while i < n
        invariant
            n == s@.len(),
            i <= n,
            v@ == s@.take(i as int),
        decreases n - i,
    {
        let c = s.get_char(i);
        v.push(c);
        i = i + 1;
        proof {
            assert(v@ =~= s@.take(i as int));
        }
    }
    proof {
        assert(s@.take(n as int) =~= s@);
    }
    v
}

/// Splits `text` into its lines: the pieces between line feeds, with a final
/// line feed closing the last line rather than opening an empty one.
pub fn split_lines(text: &str) -> (r: Vec<String>)
    ensures
        views_of_strings(r@) == lines_of(text@),
{
    let cs = to_char_vec(text);
    let n: usize = cs.len();
    let mut out: Vec<String> = Vec::new();
    let mut i: usize = 0;
    proof {
        assert(text@.skip(0) =~= text@);
        assert(views_of_strings(out@) + lines_of(text@.skip(0)) =~= lines_of(text@));
    }
    while i < n
        invariant
            cs@ == text@,
            n == cs.len(),
            i <= n,
            lines_of(text@) == views_of_strings(out@) + lines_of(text@.skip(i as int)),
        decreases n - i,
    {
        let ghost rest = text@.skip(i as int);
        let mut j: usize = i;
        while j < n && cs[j] != '\n'
            invariant
                cs@ == text@,
                n == cs.len(),
                i <= j <= n,
                forall|k: int| i <= k < j ==> text@[k] != '\n',
            decreases n - j,
        {
            j = j + 1;
        }
        proof {
            assert(forall|k: int| 0 <= k < j - i ==> rest[k] != '\n');
            lemma_newline_at_is(rest, j - i);
        }
        let line = text.substring_char(i, j);
        let ghost pre = out@;
        out.push(line.to_owned());
        proof {
            assert(views_of_strings(out@) =~= views_of_strings(pre).push(line@));
            assert(line@ =~= rest.take(j - i));
        }
        if j < n {
            proof {
                assert(rest.skip(j - i + 1) =~= text@.skip(j + 1));
                assert(lines_of(rest) == seq![rest.take(j - i)] + lines_of(text@.skip(j + 1)));
                assert(views_of_strings(out@) + lines_of(text@.skip(j + 1)) =~= views_of_strings(
                    pre,
                ) + lines_of(rest));
            }
            i = j + 1;
        } else {
            proof {
                assert(rest.take(j - i) =~= rest);
                assert(lines_of(rest) =~= seq![rest]);
                assert(text@.skip(n as int) =~= Seq::<char>::empty());
                assert(views_of_strings(out@) + lines_of(text@.skip(n as int)) =~= views_of_strings(
                    pre,
                ) + lines_of(rest));
            }
            i = n;
        }
    }
    proof {
        assert(text@.skip(n as int) =~= Seq::<char>::empty());
        assert(views_of_strings(out@) + lines_of(text@.skip(n as int)) =~= views_of_strings(out@));
    }
    out
}

/// Splits `line` into its whitespace-separated tokens, in order.
pub fn split_tokens(line: &str) -> (r: Vec<String>)
    ensures
        views_of_strings(r@) == tokens_of(line@),
{
    let cs = to_char_vec(line);
    let n: usize = cs.len();
    let mut out: Vec<String> = Vec::new();
    let mut i: usize = 0;
    proof {
        assert(line@.skip(0) =~= line@);
        assert(views_of_strings(out@) + tokens_of(line@.skip(0)) =~= tokens_of(line@));
    }
    while i < n
        invariant
            cs@ == line@,
            n == cs.len(),
            i <= n,
            tokens_of(line@) == views_of_strings(out@) + tokens_of(line@.skip(i as int)),
        decreases n - i,
    {
        let ghost rest = line@.skip(i as int);
        if is_ws_exec(cs[i]) {
            proof {
                assert(rest.drop_first() =~= line@.skip(i + 1));
            }
            i = i + 1;
        } else {
            let mut j: usize = i + 1;
            while j < n && !is_ws_exec(cs[j])
                invariant
                    cs@ == line@,
                    n == cs.len(),
                    i < j <= n,
                    forall|k: int| i <= k < j ==> !is_ws(line@[k]),
                decreases n - j,
            {
                j = j + 1;
            }
            proof {
                assert(forall|k: int| 0 <= k < j - i ==> !is_ws(rest[k]));
                lemma_token_run_is(rest, j - i);
            }
            let tok = line.substring_char(i, j);
            let ghost pre = out@;
            out.push(tok.to_owned());
            proof {
                assert(views_of_strings(out@) =~= views_of_strings(pre).push(tok@));
                assert(tok@ =~= rest.take(j - i));
            }
            if j < n {
                proof {
                    assert(rest.skip(j - i) =~= line@.skip(j as int));
                    assert(tokens_of(rest) == seq![rest.take(j - i)] + tokens_of(
                        line@.skip(j as int),
                    ));
                    assert(views_of_strings(out@) + tokens_of(line@.skip(j as int))
                        =~= views_of_strings(pre) + tokens_of(rest));
                }
            } else {
                proof {
                    assert(rest.take(j - i) =~= rest);
                    assert(tokens_of(rest) =~= seq![rest]);
                    assert(line@.skip(n as int) =~= Seq::<char>::empty());
                    assert(views_of_strings(out@) + tokens_of(line@.skip(n as int))
                        =~= views_of_strings(pre) + tokens_of(rest));
                }
            }
            i = j;
        }
    }
    proof {
        assert(line@.skip(n as int) =~= Seq::<char>::empty());
        assert(views_of_strings(out@) + tokens_of(line@.skip(n as int)) =~= views_of_strings(out@));
    }
    out
}

} // verus!
