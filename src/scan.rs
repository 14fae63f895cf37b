//! The declaration locator and the clause splitter.
use vstd::prelude::*;
use crate::text::{
    at_ci, find_ws_end, has_ci, lemma_ws_end_bounds, trim, trimmed_slice, ws_end,
};

verus! {

/// Why a section of the declaration could not be read.
#[derive(Debug, Clone, Copy, PartialEq, Eq, Structural)]
pub enum ParseError {
    /// No `entity <name> is` clause was found.
    MissingEntity,
    /// A section's opening parenthesis has no matching closing one.
    Unbalanced,
}

/// Whether the keyword `kw` (lower case, matched ignoring case) stands at `i`,
/// followed by optional white space and an opening parenthesis.
pub open spec fn opens_at(t: Seq<char>, kw: Seq<char>, i: int) -> bool {
    has_ci(t, i, kw) && ws_end(t, i + kw.len()) < t.len() && t[ws_end(t, i + kw.len())] == '('
}

/// The position of the opening parenthesis of the first `kw (` at or after `i`.
pub open spec fn first_open(t: Seq<char>, kw: Seq<char>, i: int) -> Option<int>
    decreases t.len() - i,
{
    if i < 0 || i >= t.len() {
        None
    } else if opens_at(t, kw, i) {
        Some(ws_end(t, i + kw.len()))
    } else {
        first_open(t, kw, i + 1)
    }
}

/// Scanning from `j` with `depth` parentheses open, the position of the
/// parenthesis that closes the outermost one.
pub open spec fn close_from(t: Seq<char>, j: int, depth: nat) -> Option<int>
    decreases t.len() - j,
{
    if j < 0 || j >= t.len() {
        None
    } else if t[j] == '(' {
        close_from(t, j + 1, depth + 1)
    } else if t[j] == ')' {
        if depth <= 1 {
            Some(j)
        } else {
            close_from(t, j + 1, (depth - 1) as nat)
        }
    } else {
        close_from(t, j + 1, depth)
    }
}

/// The section `kw ( ... )` of `t`: `Ok(None)` where there is none,
/// `Ok(Some((a, b)))` where its interior is `t[a..b]`, and an error where its
/// parenthesis is never closed.
pub open spec fn section(t: Seq<char>, kw: Seq<char>) -> Result<Option<(int, int)>, ParseError> {
    match first_open(t, kw, 0) {
        None => Ok(None),
        Some(o) => match close_from(t, o, 0) {
            None => Err(ParseError::Unbalanced),
            Some(c) => Ok(Some((o + 1, c))),
        },
    }
}

proof fn lemma_first_open_bounds(t: Seq<char>, kw: Seq<char>, i: int)
    requires
        0 <= i,
    ensures
        first_open(t, kw, i) matches Some(o) ==> i <= o < t.len() && t[o] == '(',
    decreases t.len() - i,
{
    if i < t.len() {
        if opens_at(t, kw, i) {
            lemma_ws_end_bounds(t, i + kw.len());
        } else {
            lemma_first_open_bounds(t, kw, i + 1);
        }
    }
}

pub proof fn lemma_close_from_bounds(t: Seq<char>, j: int, depth: nat)
    requires
        0 <= j,
    ensures
        close_from(t, j, depth) matches Some(c) ==> j <= c < t.len(),
    decreases t.len() - j,
{
    if 0 <= j < t.len() {
        if t[j] == '(' {
            lemma_close_from_bounds(t, j + 1, depth + 1);
        } else if t[j] == ')' {
            if depth > 1 {
                lemma_close_from_bounds(t, j + 1, (depth - 1) as nat);
            }
        } else {
            lemma_close_from_bounds(t, j + 1, depth);
        }
    }
}

fn find_open(t: &Vec<char>, kw: &str) -> (r: Option<usize>)
    ensures
        r matches Some(o) ==> first_open(t@, kw@, 0) == Some(o as int),
        r is None ==> first_open(t@, kw@, 0) is None,
{
    let n = kw.unicode_len();
    let mut i: usize = 0;
    while i < t.len()
        invariant
            n == kw@.len(),
            i <= t@.len(),
            first_open(t@, kw@, i as int) == first_open(t@, kw@, 0),
        decreases t@.len() - i,
    {
        if at_ci(t, i, kw) {
            let e = find_ws_end(t, i + n);
            if e < t.len() && t[e] == '(' {
                return Some(e);
            }
        }
        i = i + 1;
    }
    None
}

pub fn find_close(t: &Vec<char>, o: usize) -> (r: Option<usize>)
    requires
        o < t@.len(),
    ensures
        r matches Some(c) ==> close_from(t@, o as int, 0) == Some(c as int),
        r is None ==> close_from(t@, o as int, 0) is None,
{
    let mut depth: usize = 0;
    let mut j: usize = o;
    while j < t.len()
        invariant
            o <= j <= t@.len(),
            depth <= j - o,
            close_from(t@, j as int, depth as nat) == close_from(t@, o as int, 0),
        decreases t@.len() - j,
    {
        if t[j] == '(' {
            depth = depth + 1;
        } else if t[j] == ')' {
            if depth <= 1 {
                return Some(j);
            }
            depth = depth - 1;
        }
        j = j + 1;
    }
    None
}

/// Finds the section `kw ( ... )` of `t` and returns the bounds of its interior.
pub fn locate_section(t: &Vec<char>, kw: &str) -> (r: Result<Option<(usize, usize)>, ParseError>)
    ensures
        match (r, section(t@, kw@)) {
            (Ok(None), Ok(None)) => true,
            (Ok(Some((a, b))), Ok(Some((sa, sb)))) => a == sa && b == sb && a <= b <= t@.len(),
            (Err(e), Err(se)) => e == se,
            _ => false,
        },
{
    match find_open(t, kw) {
        None => Ok(None),
        Some(o) => {
            proof {
                lemma_first_open_bounds(t@, kw@, 0);
            }
            match find_close(t, o) {
                None => Err(ParseError::Unbalanced),
                Some(c) => {
                    proof {
                        assert(close_from(t@, o as int, 0) == close_from(t@, o + 1, 1));
                        lemma_close_from_bounds(t@, o + 1, 1);
                    }
                    Ok(Some((o + 1, c)))
                },
            }
        },
    }
}

/// The clauses of `s`, scanned from the left with `depth` parentheses open and
/// `cur` holding the clause read so far: a `;` outside any parenthesis ends a
/// clause, each clause is trimmed, and clauses that are blank are dropped.
pub open spec fn split_from(s: Seq<char>, depth: int, cur: Seq<char>) -> Seq<Seq<char>>
    decreases s.len(),
{
    if s.len() == 0 {
        if trim(cur).len() > 0 {
            seq![trim(cur)]
        } else {
            Seq::empty()
        }
    } else if s[0] == '(' {
        split_from(s.drop_first(), depth + 1, cur.push(s[0]))
    } else if s[0] == ')' {
        split_from(s.drop_first(), depth - 1, cur.push(s[0]))
    } else if s[0] == ';' && depth == 0 {
        if trim(cur).len() > 0 {
            seq![trim(cur)] + split_from(s.drop_first(), 0, Seq::empty())
        } else {
            split_from(s.drop_first(), 0, cur)
        }
    } else {
        split_from(s.drop_first(), depth, cur.push(s[0]))
    }
}

/// The clauses of a list interior, split on `;` outside parentheses.
pub open spec fn split_clauses(s: Seq<char>) -> Seq<Seq<char>> {
    split_from(s, 0, Seq::empty())
}

/// The views of a sequence of character vectors.
pub open spec fn views(v: Seq<Vec<char>>) -> Seq<Seq<char>> {
    v.map_values(|c: Vec<char>| c@)
}

/// Splits `t[a..b]` into its clauses.
pub fn split_range(t: &Vec<char>, a: usize, b: usize) -> (r: Vec<Vec<char>>)
    requires
        a <= b <= t@.len(),
    ensures
        views(r@) == split_clauses(t@.subrange(a as int, b as int)),
{
    let ghost s = t@.subrange(a as int, b as int);
    let mut out: Vec<Vec<char>> = Vec::new();
    let mut cur: Vec<char> = Vec::new();
    let mut opens: usize = 0;
    let mut closes: usize = 0;
    let mut k: usize = a;
    assert(t@.subrange(a as int, b as int) =~= s);
    assert(views(out@) + split_from(s, 0, cur@) =~= split_clauses(s));
    while k < b
        invariant
            a <= k <= b <= t@.len(),
            s == t@.subrange(a as int, b as int),
            opens <= k - a,
            closes <= k - a,
            views(out@) + split_from(t@.subrange(k as int, b as int), opens - closes, cur@)
                == split_clauses(s),
        decreases b - k,
    {
        let ghost rest = t@.subrange(k as int, b as int);
        assert(rest.drop_first() =~= t@.subrange(k + 1, b as int));
        let c = t[k];
        if c == '(' {
            cur.push(c);
            opens = opens + 1;
        } else if c == ')' {
            cur.push(c);
            closes = closes + 1;
        } else if c == ';' && opens == closes {
            let piece = trimmed_slice(&cur, 0, cur.len());
            assert(cur@.subrange(0, cur@.len() as int) =~= cur@);
            if piece.len() > 0 {
                let ghost before = out@;
                out.push(piece);
                assert(views(out@) =~= views(before) + seq![trim(cur@)]);
                cur = Vec::new();
                assert(cur@ =~= Seq::<char>::empty());
            }
        } else {
            cur.push(c);
        }
        k = k + 1;
    }
    let piece = trimmed_slice(&cur, 0, cur.len());
    assert(cur@.subrange(0, cur@.len() as int) =~= cur@);
    assert(t@.subrange(b as int, b as int) =~= Seq::<char>::empty());
    if piece.len() > 0 {
        let ghost before = out@;
        out.push(piece);
        assert(views(out@) =~= views(before) + seq![trim(cur@)]);
    } else {
        assert(views(out@) =~= views(out@) + Seq::<Seq<char>>::empty());
    }
    out
}

} // verus!
