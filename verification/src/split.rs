//! Splitting a line into whitespace-separated tokens, and a path into
//! slash-separated components.
//!
//! Both operations are instances of one verified splitter whose result is
//! pinned to the spec-level [`split_tokens`]: the ordered sequence of
//! non-empty maximal separator-free runs of the input.

use vstd::prelude::*;
use vstd::string::*;

verus! {

/// Whether `c` separates tokens: `/` when splitting a path, whitespace
/// when splitting a command line.
pub open spec fn is_sep(slash: bool, c: char) -> bool {
    if slash {
        c == '/'
    } else {
        c == ' ' || c == '\t' || c == '\n' || c == '\r' || c == '\u{b}' || c == '\u{c}'
    }
}

/// Length of the separator-free run at the head of `s`.
pub open spec fn run_len(slash: bool, s: Seq<char>) -> nat
    decreases s.len(),
{
    if s.len() == 0 || is_sep(slash, s[0]) {
        0
    } else {
        1 + run_len(slash, s.drop_first())
    }
}

pub proof fn lemma_run_len_le(slash: bool, s: Seq<char>)
    ensures
        run_len(slash, s) <= s.len(),
    decreases s.len(),
{
    if s.len() != 0 && !is_sep(slash, s[0]) {
        lemma_run_len_le(slash, s.drop_first());
    }
}

/// The non-empty maximal separator-free runs of `s`, in input order.
pub open spec fn split_tokens(slash: bool, s: Seq<char>) -> Seq<Seq<char>>
    decreases s.len(),
    via split_tokens_dec
{
    if s.len() == 0 {
        Seq::empty()
    } else if is_sep(slash, s[0]) {
        split_tokens(slash, s.drop_first())
    } else {
        let k = run_len(slash, s) as int;
        seq![s.take(k)] + split_tokens(slash, s.skip(k))
    }
}

#[via_fn]
proof fn split_tokens_dec(slash: bool, s: Seq<char>) {
    lemma_run_len_le(slash, s);
}

/// The views of a sequence of owned strings.
pub open spec fn views_of(ts: Seq<String>) -> Seq<Seq<char>> {
    ts.map_values(|t: String| t@)
}

/// The head run has length `k` exactly when the first `k` characters are
/// not separators and the run is ended by a separator or by the end of
/// the input.
proof fn lemma_run_len_is(slash: bool, s: Seq<char>, k: int)
    requires
        0 <= k <= s.len(),
        forall|m: int| 0 <= m < k ==> !is_sep(slash, s[m]),
        k == s.len() || is_sep(slash, s[k]),
    ensures
        run_len(slash, s) == k,
    decreases k,
{
    if k == 0 {
    } else {
        assert(!is_sep(slash, s[0]));
        let t = s.drop_first();
        assert forall|m: int| 0 <= m < k - 1 implies !is_sep(slash, t[m]) by {
            assert(t[m] == s[m + 1]);
        }
        if k < s.len() {
            assert(t[k - 1] == s[k]);
        }
        lemma_run_len_is(slash, t, k - 1);
    }
}

proof fn lemma_run_len_chars(slash: bool, s: Seq<char>)
    ensures
        forall|m: int| 0 <= m < run_len(slash, s) ==> !is_sep(slash, s[m]),
    decreases s.len(),
{
    lemma_run_len_le(slash, s);
    if s.len() != 0 && !is_sep(slash, s[0]) {
        lemma_run_len_chars(slash, s.drop_first());
        lemma_run_len_le(slash, s.drop_first());
        assert forall|m: int| 0 <= m < run_len(slash, s) implies !is_sep(slash, s[m]) by {
            if m > 0 {
                assert(s.drop_first()[m - 1] == s[m]);
            }
        }
    }
}

/// Every token produced by [`split_tokens`] is non-empty and free of
/// separator characters.
pub proof fn lemma_split_tokens_wf(slash: bool, s: Seq<char>)
    ensures
        forall|i: int| 0 <= i < split_tokens(slash, s).len() ==> (#[trigger] split_tokens(
            slash,
            s,
        )[i]).len() > 0,
        forall|i: int, j: int|
            0 <= i < split_tokens(slash, s).len() && 0 <= j < split_tokens(slash, s)[i].len()
                ==> !is_sep(slash, #[trigger] split_tokens(slash, s)[i][j]),
    decreases s.len(),
{
    lemma_run_len_le(slash, s);
    if s.len() == 0 {
        assert(split_tokens(slash, s).len() == 0);
    } else if is_sep(slash, s[0]) {
        lemma_split_tokens_wf(slash, s.drop_first());
        assert(split_tokens(slash, s) == split_tokens(slash, s.drop_first()));
    } else {
        let k = run_len(slash, s) as int;
        assert(k >= 1);
        lemma_run_len_chars(slash, s);
        lemma_split_tokens_wf(slash, s.skip(k));
        let tok = s.take(k);
        assert(forall|j: int| 0 <= j < tok.len() ==> tok[j] == s[j]);
        let rest = split_tokens(slash, s.skip(k));
        assert(split_tokens(slash, s) == seq![tok] + rest);
        assert forall|i: int| 0 <= i < split_tokens(slash, s).len() implies (
        #[trigger] split_tokens(slash, s)[i]).len() > 0 by {
            if i > 0 {
                assert(split_tokens(slash, s)[i] == rest[i - 1]);
            }
        }
        assert forall|i: int, j: int|
            0 <= i < split_tokens(slash, s).len() && 0 <= j < split_tokens(slash, s)[i].len()
            implies !is_sep(slash, #[trigger] split_tokens(slash, s)[i][j]) by {
            if i > 0 {
                assert(split_tokens(slash, s)[i] == rest[i - 1]);
            }
        }
    }
}

fn sep_exec(slash: bool, c: char) -> (r: bool)
    ensures
        r == is_sep(slash, c),
{
    if slash {
        c == '/'
    } else {
        c == ' ' || c == '\t' || c == '\n' || c == '\r' || c == '\u{b}' || c == '\u{c}'
    }
}

/// Splits `s` on the chosen separator class, returning the non-empty
/// tokens in order.
pub fn split_exec(s: &str, slash: bool) -> (toks: Vec<String>)
    ensures
        views_of(toks@) == split_tokens(slash, s@),
{
    let n = s.unicode_len();
    let mut toks: Vec<String> = Vec::new();
    let mut i: usize = 0;
    proof {
        assert(s@.skip(0) =~= s@);
        assert(views_of(toks@) + split_tokens(slash, s@) =~= split_tokens(slash, s@));
    }
    while i < n
        invariant
            i <= n,
            n == s@.len(),
            split_tokens(slash, s@) == views_of(toks@) + split_tokens(slash, s@.skip(i as int)),
        decreases n - i,
    {
        let c = s.get_char(i);
        if sep_exec(slash, c) {
            proof {
                let t = s@.skip(i as int);
                assert(t[0] == s@[i as int]);
                assert(t.drop_first() =~= s@.skip(i as int + 1));
            }
            i += 1;
        } else {
            let start = i;
            let mut j = i + 1;
            while j < n
                invariant
                    start < j <= n,
                    n == s@.len(),
                    forall|m: int| start <= m < j ==> !is_sep(slash, s@[m]),
                ensures
                    start < j <= n,
                    forall|m: int| start <= m < j ==> !is_sep(slash, s@[m]),
                    j == n || is_sep(slash, s@[j as int]),
                decreases n - j,
            {
                if sep_exec(slash, s.get_char(j)) {
                    break ;
                }
                j += 1;
            }
            let tok = String::from_str(s.substring_char(start, j));
            let ghost old_toks = toks@;
            toks.push(tok);
            proof {
                let t = s@.skip(start as int);
                assert forall|m: int| 0 <= m < j - start implies !is_sep(slash, t[m]) by {
                    assert(t[m] == s@[start + m]);
                }
                if (j as int) < t.len() + start {
                    assert(t[j - start] == s@[j as int]);
                }
                lemma_run_len_is(slash, t, j - start);
                assert(t.take(j - start) =~= s@.subrange(start as int, j as int));
                assert(t.skip(j - start) =~= s@.skip(j as int));
                assert(split_tokens(slash, t) == seq![tok@] + split_tokens(slash, s@.skip(j as int)));
                assert(views_of(toks@) =~= views_of(old_toks).push(tok@));
                assert(views_of(old_toks).push(tok@) + split_tokens(slash, s@.skip(j as int)) =~=
                    views_of(old_toks) + (seq![tok@] + split_tokens(slash, s@.skip(j as int))));
            }
            i = j;
        }
    }
    proof {
        assert(s@.skip(n as int).len() == 0);
        assert(views_of(toks@) + split_tokens(slash, s@.skip(n as int)) =~= views_of(toks@));
    }
    toks
}

/// The whitespace tokens of one command line.
pub open spec fn tokens_of(s: Seq<char>) -> Seq<Seq<char>> {
    split_tokens(false, s)
}

/// Splits one input line into the command token and the argument tokens,
/// on runs of whitespace.  An empty or all-whitespace line yields an
/// empty command token and no arguments.
pub fn parse_command(input: &str) -> (r: (String, Vec<String>))
    ensures
        tokens_of(input@).len() == 0 ==> r.0@ == Seq::<char>::empty() && r.1@.len() == 0,
        tokens_of(input@).len() > 0 ==> r.0@ == tokens_of(input@)[0] && views_of(r.1@)
            == tokens_of(input@).drop_first(),
{
    let mut toks = split_exec(input, false);
    if toks.len() == 0 {
        (String::new(), Vec::new())
    } else {
        let cmd = toks.remove(0);
        proof {
            assert(views_of(toks@) =~= tokens_of(input@).drop_first());
        }
        (cmd, toks)
    }
}

} // verus!
