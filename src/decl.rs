//! The declaration parser: one clause into a port, a generics block into its
//! generics, and the entity's name.
use vstd::prelude::*;
use crate::model::{VhdlGeneric, VhdlPort};
use crate::scan::{close_from, find_close, lemma_close_from_bounds};
use crate::text::{
    at_ci, find_word_end, find_ws_end, has_ci, is_ws, lemma_word_end_bounds, lemma_ws_end_bounds,
    lower_of, lowercase, slice, string_of, trim, trimmed_slice, word_end, ws_char, ws_end,
};

verus! {

/// The length of the direction keyword that stands at `d` followed by white
/// space (`in`, `out` or `inout`, in any case), or 0 where there is none.
pub open spec fn dir_len(c: Seq<char>, d: int) -> int {
    if has_ci(c, d, "in"@) && d + 2 < c.len() && is_ws(c[d + 2]) {
        2
    } else if has_ci(c, d, "out"@) && d + 3 < c.len() && is_ws(c[d + 3]) {
        3
    } else if has_ci(c, d, "inout"@) && d + 5 < c.len() && is_ws(c[d + 5]) {
        5
    } else {
        0
    }
}

/// The direction named by a keyword of length `n`.
pub open spec fn dir_word(n: int) -> Seq<char> {
    if n == 2 {
        "in"@
    } else if n == 3 {
        "out"@
    } else {
        "inout"@
    }
}

/// The parenthesised group that starts at `r0`, up to its balanced closing
/// parenthesis, if there is one.
pub open spec fn range_at(c: Seq<char>, r0: int) -> Option<Seq<char>> {
    if 0 <= r0 < c.len() && c[r0] == '(' {
        match close_from(c, r0, 0) {
            Some(z) => Some(c.subrange(r0, z + 1)),
            None => None,
        }
    } else {
        None
    }
}

/// The port declared by `name : dir type [(range)]` starting at `p`, if that
/// shape stands there: name and type lower-cased, the range as written.
pub open spec fn port_at(c: Seq<char>, p: int) -> Option<
    (Seq<char>, Seq<char>, Seq<char>, Option<Seq<char>>),
> {
    let e1 = word_end(c, p);
    let q = ws_end(c, e1);
    if !(0 <= p < c.len() && e1 > p && q < c.len() && c[q] == ':') {
        None
    } else {
        let d0 = ws_end(c, q + 1);
        let dl = dir_len(c, d0);
        let t0 = ws_end(c, d0 + dl);
        let t1 = word_end(c, t0);
        if dl == 0 || t1 == t0 {
            None
        } else {
            Some(
                (
                    lower_of(c.subrange(p, e1)),
                    dir_word(dl),
                    lower_of(c.subrange(t0, t1)),
                    range_at(c, ws_end(c, t1)),
                ),
            )
        }
    }
}

/// The first port declaration found in `c` at or after `p`.
pub open spec fn first_port(c: Seq<char>, p: int) -> Option<
    (Seq<char>, Seq<char>, Seq<char>, Option<Seq<char>>),
>
    decreases c.len() - p,
{
    if p < 0 || p >= c.len() {
        None
    } else {
        match port_at(c, p) {
            Some(x) => Some(x),
            None => first_port(c, p + 1),
        }
    }
}

/// The port that a clause declares, if it declares one.
pub open spec fn port_of(c: Seq<char>) -> Option<(Seq<char>, Seq<char>, Seq<char>, Option<Seq<char>>)> {
    first_port(c, 0)
}

fn port_at_exec(c: &Vec<char>, p: usize) -> (r: Option<VhdlPort>)
    requires
        p < c@.len(),
    ensures
        match r {
            Some(x) => port_at(c@, p as int) == Some(x@),
            None => port_at(c@, p as int) is None,
        },
{
    let n = c.len();
    let e1 = find_word_end(c, p);
    proof {
        lemma_word_end_bounds(c@, p as int);
    }
    if e1 == p {
        return None;
    }
    let q = find_ws_end(c, e1);
    proof {
        lemma_ws_end_bounds(c@, e1 as int);
    }
    if q >= n || c[q] != ':' {
        return None;
    }
    let d0 = find_ws_end(c, q + 1);
    proof {
        lemma_ws_end_bounds(c@, q + 1);
        reveal_strlit("in");
        reveal_strlit("out");
        reveal_strlit("inout");
    }
    let dl: usize = if at_ci(c, d0, "in") && d0 + 2 < n && ws_char(c[d0 + 2]) {
        2
    } else if at_ci(c, d0, "out") && d0 + 3 < n && ws_char(c[d0 + 3]) {
        3
    } else if at_ci(c, d0, "inout") && d0 + 5 < n && ws_char(c[d0 + 5]) {
        5
    } else {
        0
    };
    if dl == 0 {
        return None;
    }
    let t0 = find_ws_end(c, d0 + dl);
    proof {
        lemma_ws_end_bounds(c@, d0 + dl);
    }
    let t1 = find_word_end(c, t0);
    proof {
        lemma_word_end_bounds(c@, t0 as int);
    }
    if t1 == t0 {
        return None;
    }
    let r0 = find_ws_end(c, t1);
    proof {
        lemma_ws_end_bounds(c@, t1 as int);
    }
    let mut range: Option<String> = None;
    if r0 < n && c[r0] == '(' {
        match find_close(c, r0) {
            Some(z) => {
                proof {
                    lemma_close_from_bounds(c@, r0 as int, 0);
                }
                range = Some(string_of(&slice(c, r0, z + 1)));
            },
            None => {},
        }
    }
    let direction = if dl == 2 {
        String::from_str("in")
    } else if dl == 3 {
        String::from_str("out")
    } else {
        String::from_str("inout")
    };
    let raw_name = string_of(&slice(c, p, e1));
    let raw_type = string_of(&slice(c, t0, t1));
    let port = VhdlPort {
        name: lowercase(raw_name.as_str()),
        direction,
        signal_type: lowercase(raw_type.as_str()),
        range,
    };
    Some(port)
}

/// Parses one clause `name : dir type [(range)]` into a port; the first place
/// in the clause where that shape stands wins.
pub fn parse_port_declaration(c: &Vec<char>) -> (r: Option<VhdlPort>)
    ensures
        match r {
            Some(x) => port_of(c@) == Some(x@),
            None => port_of(c@) is None,
        },
{
    let mut p: usize = 0;
    while p < c.len()
        invariant
            p <= c@.len(),
            first_port(c@, p as int) == port_of(c@),
        decreases c@.len() - p,
    {
        match port_at_exec(c, p) {
            Some(x) => {
                return Some(x);
            },
            None => {},
        }
        p = p + 1;
    }
    None
}

/// Whether `c` may stand in a default expression: anything but `;`, `,` and `)`.
pub open spec fn is_default_char(c: char) -> bool {
    c != ';' && c != ',' && c != ')'
}

/// The end of the run of default-expression characters that starts at `j`.
pub open spec fn default_end(c: Seq<char>, j: int) -> int
    decreases c.len() - j,
{
    if 0 <= j < c.len() && is_default_char(c[j]) {
        default_end(c, j + 1)
    } else {
        j
    }
}

proof fn lemma_default_end_bounds(c: Seq<char>, j: int)
    requires
        0 <= j <= c.len(),
    ensures
        j <= default_end(c, j) <= c.len(),
    decreases c.len() - j,
{
    if j < c.len() && is_default_char(c[j]) {
        lemma_default_end_bounds(c, j + 1);
    }
}

fn find_default_end(c: &Vec<char>, j: usize) -> (r: usize)
    requires
        j <= c@.len(),
    ensures
        r as int == default_end(c@, j as int),
{
    let mut k: usize = j;
    while k < c.len() && c[k] != ';' && c[k] != ',' && c[k] != ')'
        invariant
            j <= k <= c@.len(),
            default_end(c@, k as int) == default_end(c@, j as int),
        decreases c@.len() - k,
    {
        k = k + 1;
    }
    k
}

/// The generic declared by `name : type [:= default]` starting at `p`, if that
/// shape stands there, with the position where the declaration ends. Name and
/// type are lower-cased; the default is the text up to the next `;`, `,` or
/// `)`, trimmed.
pub open spec fn generic_at(c: Seq<char>, p: int) -> Option<
    ((Seq<char>, Seq<char>, Option<Seq<char>>), int),
> {
    let e1 = word_end(c, p);
    let q = ws_end(c, e1);
    let t0 = ws_end(c, q + 1);
    let t1 = word_end(c, t0);
    let k = ws_end(c, t1);
    let m = k + 2;
    let m2 = ws_end(c, m);
    let r = default_end(c, m2);
    if !(0 <= p < c.len() && e1 > p && q < c.len() && c[q] == ':') || t1 == t0 {
        None
    } else {
        let name = lower_of(c.subrange(p, e1));
        let ty = lower_of(c.subrange(t0, t1));
        if k + 1 < c.len() && c[k] == ':' && c[k + 1] == '=' && r > m2 {
            Some(((name, ty, Some(trim(c.subrange(m2, r)))), r))
        } else if k + 1 < c.len() && c[k] == ':' && c[k + 1] == '=' && m2 > m {
            Some(((name, ty, Some(Seq::empty())), m2))
        } else {
            Some(((name, ty, None), t1))
        }
    }
}

/// Every generic declaration in `c` from `p` on, found left to right, each
/// search going on where the last declaration ended.
pub open spec fn generics_from(c: Seq<char>, p: int) -> Seq<(Seq<char>, Seq<char>, Option<Seq<char>>)>
    decreases c.len() - p,
{
    if p < 0 || p >= c.len() {
        Seq::empty()
    } else {
        match generic_at(c, p) {
            Some((g, e)) => if p < e <= c.len() {
                seq![g] + generics_from(c, e)
            } else {
                Seq::empty()
            },
            None => generics_from(c, p + 1),
        }
    }
}

fn generic_at_exec(c: &Vec<char>, p: usize) -> (r: Option<(VhdlGeneric, usize)>)
    requires
        p < c@.len(),
    ensures
        match r {
            Some((g, e)) => generic_at(c@, p as int) == Some((g@, e as int)) && e <= c@.len(),
            None => generic_at(c@, p as int) is None,
        },
{
    let n = c.len();
    let e1 = find_word_end(c, p);
    proof {
        lemma_word_end_bounds(c@, p as int);
    }
    if e1 == p {
        return None;
    }
    let q = find_ws_end(c, e1);
    proof {
        lemma_ws_end_bounds(c@, e1 as int);
    }
    if q >= n || c[q] != ':' {
        return None;
    }
    let t0 = find_ws_end(c, q + 1);
    proof {
        lemma_ws_end_bounds(c@, q + 1);
    }
    let t1 = find_word_end(c, t0);
    proof {
        lemma_word_end_bounds(c@, t0 as int);
    }
    if t1 == t0 {
        return None;
    }
    let k = find_ws_end(c, t1);
    proof {
        lemma_ws_end_bounds(c@, t1 as int);
    }
    let raw_name = string_of(&slice(c, p, e1));
    let raw_type = string_of(&slice(c, t0, t1));
    let name = lowercase(raw_name.as_str());
    let generic_type = lowercase(raw_type.as_str());
    if k < n && k + 1 < n && c[k] == ':' && c[k + 1] == '=' {
        let m = k + 2;
        let m2 = find_ws_end(c, m);
        proof {
            lemma_ws_end_bounds(c@, m as int);
        }
        let r = find_default_end(c, m2);
        proof {
            lemma_default_end_bounds(c@, m2 as int);
        }
        if r > m2 {
            let d = string_of(&trimmed_slice(c, m2, r));
            return Some((VhdlGeneric { name, generic_type, default_value: Some(d) }, r));
        } else if m2 > m {
            let d = String::new();
            assert(d@ =~= Seq::<char>::empty());
            return Some((VhdlGeneric { name, generic_type, default_value: Some(d) }, m2));
        }
    }
    Some((VhdlGeneric { name, generic_type, default_value: None }, t1))
}

/// Every generic declared in a generics block, in order.
pub fn parse_generic_declarations(c: &Vec<char>) -> (r: Vec<VhdlGeneric>)
    ensures
        r@.map_values(|g: VhdlGeneric| g@) == generics_from(c@, 0),
{
    let mut out: Vec<VhdlGeneric> = Vec::new();
    let mut p: usize = 0;
    assert(out@.map_values(|g: VhdlGeneric| g@) + generics_from(c@, 0) =~= generics_from(c@, 0));
    while p < c.len()
        invariant
            p <= c@.len(),
            out@.map_values(|g: VhdlGeneric| g@) + generics_from(c@, p as int) == generics_from(c@, 0),
        decreases c@.len() - p,
    {
        match generic_at_exec(c, p) {
            Some((g, e)) => {
                if e <= p || e > c.len() {
                    assert(generics_from(c@, p as int) =~= Seq::empty());
                    assert(out@.map_values(|g: VhdlGeneric| g@) =~= generics_from(c@, 0));
                    return out;
                }
                let ghost before = out@;
                out.push(g);
                assert(out@.map_values(|g: VhdlGeneric| g@) =~= before.map_values(|g: VhdlGeneric| g@).push(g@));
                assert(out@.map_values(|g: VhdlGeneric| g@) + generics_from(c@, e as int) =~=
                    before.map_values(|g: VhdlGeneric| g@) + generics_from(c@, p as int));
                p = e;
            },
            None => {
                p = p + 1;
            },
        }
    }
    assert(out@.map_values(|g: VhdlGeneric| g@) =~= out@.map_values(|g: VhdlGeneric| g@) + generics_from(c@, p as int));
    out
}

/// The identifier of the `entity <name> is` clause that starts at `i`, if one does.
pub open spec fn entity_at(t: Seq<char>, i: int) -> Option<Seq<char>> {
    let w0 = ws_end(t, i + 6);
    let e = word_end(t, w0);
    let k = ws_end(t, e);
    if has_ci(t, i, "entity"@) && w0 > i + 6 && e > w0 && k > e && has_ci(t, k, "is"@) {
        Some(t.subrange(w0, e))
    } else {
        None
    }
}

/// The identifier of the first `entity <name> is` clause at or after `i`.
pub open spec fn entity_from(t: Seq<char>, i: int) -> Option<Seq<char>>
    decreases t.len() - i,
{
    if i < 0 || i >= t.len() {
        None
    } else {
        match entity_at(t, i) {
            Some(id) => Some(id),
            None => entity_from(t, i + 1),
        }
    }
}

/// The entity's name: the identifier of the first `entity <name> is` clause
/// (keywords in any case), lower-cased.
pub open spec fn entity_name_of(t: Seq<char>) -> Option<Seq<char>> {
    match entity_from(t, 0) {
        Some(id) => Some(lower_of(id)),
        None => None,
    }
}

/// Finds the first `entity <name> is` clause and returns its name, lower-cased.
pub fn extract_entity_name(t: &Vec<char>) -> (r: Option<String>)
    ensures
        match r {
            Some(s) => entity_name_of(t@) == Some(s@),
            None => entity_name_of(t@) is None,
        },
{
    proof {
        reveal_strlit("entity");
        reveal_strlit("is");
    }
    let n = t.len();
    let mut i: usize = 0;
    while i < n
        invariant
            n == t@.len(),
            i <= n,
            entity_from(t@, i as int) == entity_from(t@, 0),
        decreases n - i,
    {
        proof {
            reveal_strlit("entity");
            reveal_strlit("is");
        }
        if at_ci(t, i, "entity") {
            let w0 = find_ws_end(t, i + 6);
            proof {
                lemma_ws_end_bounds(t@, i + 6);
            }
            let e = find_word_end(t, w0);
            proof {
                lemma_word_end_bounds(t@, w0 as int);
            }
            let k = find_ws_end(t, e);
            proof {
                lemma_ws_end_bounds(t@, e as int);
            }
            if w0 > i + 6 && e > w0 && k > e && at_ci(t, k, "is") {
                let id = string_of(&slice(t, w0, e));
                return Some(lowercase(id.as_str()));
            }
        }
        i = i + 1;
    }
    None
}

} // verus!
