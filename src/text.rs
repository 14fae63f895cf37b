//! Character-level helpers shared by the parser and the harness renderer.
use vstd::prelude::*;

verus! {

/// Whether `c` is an ASCII letter, digit or underscore: the characters of an identifier.
pub open spec fn is_word(c: char) -> bool {
    ('a' <= c && c <= 'z') || ('A' <= c && c <= 'Z') || ('0' <= c && c <= '9') || c == '_'
}

/// Whether `c` is white space: a character of Unicode's White_Space list,
/// as `char::is_whitespace` decides it.
pub open spec fn is_ws(c: char) -> bool {
    ('\u{9}' <= c && c <= '\u{d}') || c == ' ' || c == '\u{85}' || c == '\u{a0}' || c == '\u{1680}'
        || ('\u{2000}' <= c && c <= '\u{200a}') || c == '\u{2028}' || c == '\u{2029}' || c == '\u{202f}'
        || c == '\u{205f}' || c == '\u{3000}'
}

/// Whether `c` is the lower-case letter `k`, or its ASCII capital.
pub open spec fn same_ci(c: char, k: char) -> bool {
    c == k || ('A' <= c && c <= 'Z' && (c as u32) + 32 == (k as u32))
}

pub fn word_char(c: char) -> (r: bool)
    ensures
        r == is_word(c),
{
    ('a' <= c && c <= 'z') || ('A' <= c && c <= 'Z') || ('0' <= c && c <= '9') || c == '_'
}

pub fn ws_char(c: char) -> (r: bool)
    ensures
        r == is_ws(c),
{
    ('\u{9}' <= c && c <= '\u{d}') || c == ' ' || c == '\u{85}' || c == '\u{a0}' || c == '\u{1680}'
        || ('\u{2000}' <= c && c <= '\u{200a}') || c == '\u{2028}' || c == '\u{2029}' || c == '\u{202f}'
        || c == '\u{205f}' || c == '\u{3000}'
}

pub fn eq_ci(c: char, k: char) -> (r: bool)
    ensures
        r == same_ci(c, k),
{
    c == k || ('A' <= c && c <= 'Z' && (c as u32) + 32 == (k as u32))
}

/// The end of the run of identifier characters that starts at `j`.
pub open spec fn word_end(t: Seq<char>, j: int) -> int
    decreases t.len() - j,
{
    if 0 <= j < t.len() && is_word(t[j]) {
        word_end(t, j + 1)
    } else {
        j
    }
}

/// The end of the run of white space that starts at `j`.
pub open spec fn ws_end(t: Seq<char>, j: int) -> int
    decreases t.len() - j,
{
    if 0 <= j < t.len() && is_ws(t[j]) {
        ws_end(t, j + 1)
    } else {
        j
    }
}

pub proof fn lemma_word_end_bounds(t: Seq<char>, j: int)
    requires
        0 <= j <= t.len(),
    ensures
        j <= word_end(t, j) <= t.len(),
        forall|k: int| j <= k < word_end(t, j) ==> is_word(#[trigger] t[k]),
    decreases t.len() - j,
{
    if j < t.len() && is_word(t[j]) {
        lemma_word_end_bounds(t, j + 1);
    }
}

pub proof fn lemma_ws_end_bounds(t: Seq<char>, j: int)
    requires
        0 <= j <= t.len(),
    ensures
        j <= ws_end(t, j) <= t.len(),
        forall|k: int| j <= k < ws_end(t, j) ==> is_ws(#[trigger] t[k]),
    decreases t.len() - j,
{
    if j < t.len() && is_ws(t[j]) {
        lemma_ws_end_bounds(t, j + 1);
    }
}

pub fn find_word_end(t: &Vec<char>, j: usize) -> (r: usize)
    requires
        j <= t@.len(),
    ensures
        r as int == word_end(t@, j as int),
{
    let mut k: usize = j;
    while k < t.len() && word_char(t[k])
        invariant
            j <= k <= t@.len(),
            word_end(t@, k as int) == word_end(t@, j as int),
        decreases t@.len() - k,
    {
        k = k + 1;
    }
    k
}

pub fn find_ws_end(t: &Vec<char>, j: usize) -> (r: usize)
    requires
        j <= t@.len(),
    ensures
        r as int == ws_end(t@, j as int),
{
    let mut k: usize = j;
    while k < t.len() && ws_char(t[k])
        invariant
            j <= k <= t@.len(),
            ws_end(t@, k as int) == ws_end(t@, j as int),
        decreases t@.len() - k,
    {
        k = k + 1;
    }
    k
}

/// Whether `t` holds the lower-case word `kw` at `j`, ignoring ASCII case.
pub open spec fn has_ci(t: Seq<char>, j: int, kw: Seq<char>) -> bool {
    0 <= j && j + kw.len() <= t.len() && forall|k: int|
        0 <= k < kw.len() ==> same_ci(#[trigger] t[j + k], kw[k])
}

pub fn at_ci(t: &Vec<char>, j: usize, kw: &str) -> (r: bool)
    ensures
        r == has_ci(t@, j as int, kw@),
{
    let n = kw.unicode_len();
    if j > t.len() || n > t.len() - j {
        return false;
    }
    let len = t.len();
    let mut k: usize = 0;
    while k < n
        invariant
            len == t@.len(),
            n == kw@.len(),
            j + n <= t@.len(),
            j <= t@.len(),
            k <= n,
            forall|m: int| 0 <= m < k ==> same_ci(#[trigger] t@[j + m], kw@[m]),
        decreases n - k,
    {
        assert(j + k < len);
        if !eq_ci(t[j + k], kw.get_char(k)) {
            return false;
        }
        k = k + 1;
    }
    true
}

/// The characters of `t` from `a` up to `b`.
pub fn slice(t: &Vec<char>, a: usize, b: usize) -> (r: Vec<char>)
    requires
        a <= b <= t@.len(),
    ensures
        r@ == t@.subrange(a as int, b as int),
{
    let mut r: Vec<char> = Vec::new();
    let mut k: usize = a;
    while k < b
        invariant
            a <= k <= b <= t@.len(),
            r@ == t@.subrange(a as int, k as int),
        decreases b - k,
    {
        r.push(t[k]);
        k = k + 1;
        assert(r@ == t@.subrange(a as int, k as int));
    }
    r
}

/// `s` without the white space at its start.
pub open spec fn trim_start(s: Seq<char>) -> Seq<char>
    decreases s.len(),
{
    if s.len() > 0 && is_ws(s[0]) {
        trim_start(s.drop_first())
    } else {
        s
    }
}

/// `s` without the white space at its end.
pub open spec fn trim_end(s: Seq<char>) -> Seq<char>
    decreases s.len(),
{
    if s.len() > 0 && is_ws(s.last()) {
        trim_end(s.drop_last())
    } else {
        s
    }
}

/// `s` without white space at either end.
pub open spec fn trim(s: Seq<char>) -> Seq<char> {
    trim_end(trim_start(s))
}

/// The characters of `t` from `a` up to `b`, without white space at either end.
pub fn trimmed_slice(t: &Vec<char>, a: usize, b: usize) -> (r: Vec<char>)
    requires
        a <= b <= t@.len(),
    ensures
        r@ == trim(t@.subrange(a as int, b as int)),
{
    let ghost s = t@.subrange(a as int, b as int);
    let mut i: usize = a;
    while i < b && ws_char(t[i])
        invariant
            a <= i <= b <= t@.len(),
            s == t@.subrange(a as int, b as int),
            trim_start(s) == trim_start(t@.subrange(i as int, b as int)),
        decreases b - i,
    {
        assert(t@.subrange(i as int, b as int).drop_first() =~= t@.subrange(i + 1, b as int));
        i = i + 1;
    }
    assert(trim_start(s) == t@.subrange(i as int, b as int));
    let mut j: usize = b;
    while j > i && ws_char(t[j - 1])
        invariant
            a <= i <= j <= b <= t@.len(),
            trim(s) == trim_end(t@.subrange(i as int, j as int)),
        decreases j,
    {
        assert(t@.subrange(i as int, j as int).drop_last() =~= t@.subrange(i as int, j - 1));
        j = j - 1;
    }
    slice(t, i, j)
}

/// Relies on `str::chars`, collected into a `Vec`: the string's characters in order.
#[verifier::external_body]
pub(crate) fn chars_of(s: &str) -> (r: Vec<char>)
    ensures
        r@ == s@,
{
    s.chars().collect()
}

/// Relies on `String`'s `FromIterator<&char>`: a string of the given characters in order.
#[verifier::external_body]
pub(crate) fn string_of(v: &Vec<char>) -> (r: String)
    ensures
        r@ == v@,
{
    v.iter().collect()
}

/// What `str::to_lowercase` makes of a string.
pub uninterp spec fn lower_of(s: Seq<char>) -> Seq<char>;

/// Relies on `str::to_lowercase`: the result depends on the characters alone.
#[verifier::external_body]
pub(crate) fn lowercase(s: &str) -> (r: String)
    ensures
        r@ == lower_of(s@),
{
    s.to_lowercase()
}

/// What `str::to_uppercase` makes of a string.
pub uninterp spec fn upper_of(s: Seq<char>) -> Seq<char>;

/// Relies on `str::to_uppercase`: the result depends on the characters alone.
#[verifier::external_body]
pub(crate) fn uppercase(s: &str) -> (r: String)
    ensures
        r@ == upper_of(s@),
{
    s.to_uppercase()
}

/// Whether two strings hold the same characters.
pub fn same_text(a: &str, b: &str) -> (r: bool)
    ensures
        r == (a@ == b@),
{
    let x = chars_of(a);
    let y = chars_of(b);
    if x.len() != y.len() {
        return false;
    }
    let mut i: usize = 0;
    while i < x.len()
        invariant
            x@ == a@,
            y@ == b@,
            x@.len() == y@.len(),
            i <= x@.len(),
            forall|k: int| 0 <= k < i ==> x@[k] == y@[k],
        decreases x@.len() - i,
    {
        if x[i] != y[i] {
            return false;
        }
        i = i + 1;
    }
    assert(x@ =~= y@);
    true
}

/// Whether `p` stands in `s` at `i`.
pub open spec fn occurs_at(s: Seq<char>, i: int, p: Seq<char>) -> bool {
    0 <= i && i + p.len() <= s.len() && s.subrange(i, i + p.len()) == p
}

/// Whether `p` stands anywhere in `s`.
pub open spec fn contains(s: Seq<char>, p: Seq<char>) -> bool {
    exists|i: int| occurs_at(s, i, p)
}

pub fn matches_at(s: &Vec<char>, i: usize, p: &Vec<char>) -> (r: bool)
    ensures
        r == occurs_at(s@, i as int, p@),
{
    if i > s.len() || p.len() > s.len() - i {
        return false;
    }
    let len = s.len();
    let mut k: usize = 0;
    while k < p.len()
        invariant
            len == s@.len(),
            i + p@.len() <= s@.len(),
            k <= p@.len(),
            forall|m: int| 0 <= m < k ==> s@[i + m] == p@[m],
        decreases p@.len() - k,
    {
        if s[i + k] != p[k] {
            assert(s@.subrange(i as int, i + p@.len())[k as int] != p@[k as int]);
            return false;
        }
        k = k + 1;
    }
    assert(s@.subrange(i as int, i + p@.len()) =~= p@);
    true
}

/// Whether `p` stands anywhere in `s`.
pub fn contains_text(s: &str, p: &str) -> (r: bool)
    ensures
        r == contains(s@, p@),
{
    let x = chars_of(s);
    let y = chars_of(p);
    let mut i: usize = 0;
    while i < x.len()
        invariant
            x@ == s@,
            y@ == p@,
            i <= x@.len(),
            forall|k: int| 0 <= k < i ==> !occurs_at(x@, k, y@),
        decreases x@.len() - i,
    {
        if matches_at(&x, i, &y) {
            return true;
        }
        i = i + 1;
    }
    if matches_at(&x, i, &y) {
        return true;
    }
    assert forall|k: int| !occurs_at(x@, k, y@) by {
        if 0 <= k && k + y@.len() <= x@.len() {
            assert(k <= i);
        }
    }
    false
}

/// `s` from `i` on with every occurrence of `p` replaced by `r`, matches taken
/// left to right without overlap; an empty `p` matches before every character
/// and at the end.
pub open spec fn replace_from(s: Seq<char>, i: int, p: Seq<char>, r: Seq<char>) -> Seq<char>
    decreases s.len() - i,
{
    if i < 0 || i > s.len() {
        Seq::empty()
    } else if p.len() == 0 {
        if i == s.len() {
            r
        } else {
            r + seq![s[i]] + replace_from(s, i + 1, p, r)
        }
    } else if i == s.len() {
        Seq::empty()
    } else if occurs_at(s, i, p) {
        r + replace_from(s, i + p.len(), p, r)
    } else {
        seq![s[i]] + replace_from(s, i + 1, p, r)
    }
}

/// `s` with every occurrence of `p` replaced by `r`, as `str::replace` does.
pub open spec fn replace_all(s: Seq<char>, p: Seq<char>, r: Seq<char>) -> Seq<char> {
    replace_from(s, 0, p, r)
}

/// `s` with every occurrence of `p` replaced by `r`.
pub fn replace_text(s: &str, p: &str, r: &str) -> (out: String)
    ensures
        out@ == replace_all(s@, p@, r@),
{
    let x = chars_of(s);
    let y = chars_of(p);
    let z = chars_of(r);
    let n = x.len();
    let mut acc: Vec<char> = Vec::new();
    let mut i: usize = 0;
    assert(acc@ + replace_from(x@, 0, y@, z@) =~= replace_all(x@, y@, z@));
    while i < n
        invariant
            x@ == s@,
            y@ == p@,
            z@ == r@,
            n == x@.len(),
            i <= n,
            acc@ + replace_from(x@, i as int, y@, z@) == replace_all(x@, y@, z@),
        decreases n - i,
    {
        let ghost before = acc@;
        if y.len() > 0 && matches_at(&x, i, &y) {
            let mut k: usize = 0;
            while k < z.len()
                invariant
                    k <= z@.len(),
                    acc@ == before + z@.take(k as int),
                decreases z@.len() - k,
            {
                acc.push(z[k]);
                k = k + 1;
                assert(acc@ =~= before + z@.take(k as int));
            }
            assert(z@.take(k as int) =~= z@);
            assert(acc@ + replace_from(x@, i + y@.len(), y@, z@) =~= before + replace_from(x@, i as int, y@, z@));
            i = i + y.len();
        } else {
            if y.len() == 0 {
                let mut k: usize = 0;
                while k < z.len()
                    invariant
                        k <= z@.len(),
                        acc@ == before + z@.take(k as int),
                    decreases z@.len() - k,
                {
                    acc.push(z[k]);
                    k = k + 1;
                    assert(acc@ =~= before + z@.take(k as int));
                }
                assert(z@.take(k as int) =~= z@);
            }
            let ghost mid = acc@;
            acc.push(x[i]);
            assert(acc@ + replace_from(x@, i + 1, y@, z@) =~= before + replace_from(x@, i as int, y@, z@));
            i = i + 1;
        }
    }
    if y.len() == 0 {
        let ghost before = acc@;
        let mut k: usize = 0;
        while k < z.len()
            invariant
                k <= z@.len(),
                acc@ == before + z@.take(k as int),
            decreases z@.len() - k,
        {
            acc.push(z[k]);
            k = k + 1;
            assert(acc@ =~= before + z@.take(k as int));
        }
        assert(z@.take(k as int) =~= z@);
        assert(acc@ =~= replace_all(x@, y@, z@));
    } else {
        assert(acc@ =~= replace_all(x@, y@, z@));
    }
    string_of(&acc)
}

/// The decimal digit for `d`.
pub open spec fn digit(d: nat) -> char {
    if d == 0 {
        '0'
    } else if d == 1 {
        '1'
    } else if d == 2 {
        '2'
    } else if d == 3 {
        '3'
    } else if d == 4 {
        '4'
    } else if d == 5 {
        '5'
    } else if d == 6 {
        '6'
    } else if d == 7 {
        '7'
    } else if d == 8 {
        '8'
    } else {
        '9'
    }
}

/// The decimal numeral of `n`, without leading zeros.
pub open spec fn decimal_of(n: nat) -> Seq<char>
    decreases n,
{
    if n < 10 {
        seq![digit(n)]
    } else {
        decimal_of(n / 10) + seq![digit(n % 10)]
    }
}

/// Relies on `usize`'s `Display` (through `to_string`): the decimal numeral.
#[verifier::external_body]
pub(crate) fn decimal(n: usize) -> (r: String)
    ensures
        r@ == decimal_of(n as nat),
{
    n.to_string()
}

/// The lines joined, with `sep` between each two.
pub open spec fn join_lines(ls: Seq<Seq<char>>, sep: Seq<char>) -> Seq<char>
    decreases ls.len(),
{
    if ls.len() == 0 {
        Seq::empty()
    } else if ls.len() == 1 {
        ls[0]
    } else {
        join_lines(ls.drop_last(), sep) + sep + ls.last()
    }
}

/// The views of a sequence of strings.
pub open spec fn string_views(v: Seq<String>) -> Seq<Seq<char>> {
    v.map_values(|s: String| s@)
}

/// Joins the lines, with `sep` between each two.
pub fn join_with(lines: &Vec<String>, sep: &str) -> (r: String)
    ensures
        r@ == join_lines(string_views(lines@), sep@),
{
    let mut out = String::new();
    let mut i: usize = 0;
    assert(string_views(lines@).take(0) =~= Seq::<Seq<char>>::empty());
    while i < lines.len()
        invariant
            i <= lines@.len(),
            out@ == join_lines(string_views(lines@).take(i as int), sep@),
        decreases lines@.len() - i,
    {
        let ghost ls = string_views(lines@).take(i + 1);
        assert(ls.drop_last() =~= string_views(lines@).take(i as int));
        assert(ls.last() == lines@[i as int]@);
        if i > 0 {
            out.append(sep);
        } else {
            assert(ls.len() == 1);
            assert(out@ =~= Seq::<char>::empty());
        }
        out.append(lines[i].as_str());
        i = i + 1;
        assert(out@ =~= join_lines(string_views(lines@).take(i as int), sep@));
    }
    assert(string_views(lines@).take(i as int) =~= string_views(lines@));
    out
}

} // verus!
