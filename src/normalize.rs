//! The normalizer: line comments removed, white space collapsed.
use vstd::prelude::*;
use crate::text::{chars_of, is_ws, lower_of, lowercase, string_of, ws_char};

verus! {

/// The normalized form of `s`, scanned from the left. `in_comment`: a line
/// comment is open; `started`: a visible character was already written;
/// `gap`: white space (or a line end) was seen since the last visible character.
///
/// Everything from `--` to the end of its line is dropped, runs of white space
/// (line ends included) become one space, and none is left at either end.
pub open spec fn normalize_from(s: Seq<char>, in_comment: bool, started: bool, gap: bool) -> Seq<char>
    decreases s.len(),
{
    if s.len() == 0 {
        Seq::empty()
    } else if in_comment {
        if s[0] == '\n' {
            normalize_from(s.drop_first(), false, started, true)
        } else {
            normalize_from(s.drop_first(), true, started, gap)
        }
    } else if s.len() >= 2 && s[0] == '-' && s[1] == '-' {
        normalize_from(s.skip(2), true, started, gap)
    } else if is_ws(s[0]) {
        normalize_from(s.drop_first(), false, started, true)
    } else if started && gap {
        seq![' ', s[0]] + normalize_from(s.drop_first(), false, true, false)
    } else {
        seq![s[0]] + normalize_from(s.drop_first(), false, true, false)
    }
}

/// The normalized form of a whole text.
pub open spec fn normalized(s: Seq<char>) -> Seq<char> {
    normalize_from(s, false, false, false)
}

/// The characters of a text in normalized form: line comments removed, white
/// space collapsed to single spaces, none at either end.
pub fn normalize_chars(content: &str) -> (r: Vec<char>)
    ensures
        r@ == normalized(content@),
{
    let t = chars_of(content);
    let n = t.len();
    let mut out: Vec<char> = Vec::new();
    let mut in_comment = false;
    let mut started = false;
    let mut gap = false;
    let mut i: usize = 0;
    assert(t@.skip(0) =~= t@);
    assert(out@ + normalize_from(t@, false, false, false) =~= normalize_from(t@, false, false, false));
    while i < n
        invariant
            n == t@.len(),
            t@ == content@,
            i <= n,
            out@ + normalize_from(t@.skip(i as int), in_comment, started, gap) == normalized(t@),
        decreases n - i,
    {
        let ghost rest = t@.skip(i as int);
        let c = t[i];
        if in_comment {
            assert(rest.drop_first() =~= t@.skip(i + 1));
            if c == '\n' {
                in_comment = false;
                gap = true;
            }
            i = i + 1;
        } else if i + 1 < n && c == '-' && t[i + 1] == '-' {
            assert(rest.skip(2) =~= t@.skip(i + 2));
            in_comment = true;
            i = i + 2;
        } else if ws_char(c) {
            assert(rest.drop_first() =~= t@.skip(i + 1));
            gap = true;
            i = i + 1;
        } else {
            assert(rest.drop_first() =~= t@.skip(i + 1));
            let ghost before = out@;
            if started && gap {
                out.push(' ');
                assert(out@ + seq![c] =~= before + seq![' ', c]);
            }
            out.push(c);
            assert(before + normalize_from(rest, false, started, gap) =~= out@ + normalize_from(
                t@.skip(i + 1),
                false,
                true,
                false,
            ));
            started = true;
            gap = false;
            i = i + 1;
        }
    }
    assert(t@.skip(n as int) =~= Seq::<char>::empty());
    assert(out@ =~= normalized(t@));
    out
}

/// A text in cleaned form: normalized, then lower-cased.
pub open spec fn cleaned(s: Seq<char>) -> Seq<char> {
    lower_of(normalized(s))
}

/// A text in cleaned form: line comments removed, white space collapsed to
/// single spaces, none at either end, and lower-cased.
pub fn clean_content(content: &str) -> (r: String)
    ensures
        r@ == cleaned(content@),
{
    let v = normalize_chars(content);
    let s = string_of(&v);
    lowercase(s.as_str())
}

/// The characters of a text in cleaned form.
pub fn clean_chars(content: &str) -> (r: Vec<char>)
    ensures
        r@ == cleaned(content@),
{
    let s = clean_content(content);
    chars_of(s.as_str())
}

} // verus!
