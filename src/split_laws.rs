//! The clause splitter read back from its own output.
use vstd::prelude::*;
use crate::scan::{split_clauses, split_from};
use crate::text::{is_ws, trim, trim_end, trim_start};

verus! {

/// The change in parenthesis depth that a character makes.
pub open spec fn delta(c: char) -> int {
    if c == '(' {
        1
    } else if c == ')' {
        -1
    } else {
        0
    }
}

/// The change in parenthesis depth over a text.
pub open spec fn net(s: Seq<char>) -> int
    decreases s.len(),
{
    if s.len() == 0 {
        0
    } else {
        delta(s[0]) + net(s.drop_first())
    }
}

/// Whether every `;` of `s` stands inside parentheses, scanning from depth `d`.
pub open spec fn semis_nested(s: Seq<char>, d: int) -> bool {
    forall|k: int| 0 <= k < s.len() && s[k] == ';' ==> d + net(#[trigger] s.take(k)) != 0
}

/// A clause as the splitter hands it out: not empty, trimmed, and every `;`
/// in it inside parentheses.
pub open spec fn is_clause(c: Seq<char>) -> bool {
    c.len() > 0 && trim(c) == c && semis_nested(c, 0)
}

/// Clauses as the splitter hands them out: each one a clause, and each but the
/// last with its parentheses balanced.
pub open spec fn are_clauses(cl: Seq<Seq<char>>) -> bool {
    forall|i: int| 0 <= i < cl.len() ==> is_clause(#[trigger] cl[i]) && (i + 1 < cl.len() ==> net(cl[i]) == 0)
}

/// The clauses joined into one text, with `sep` between each two.
pub open spec fn joined_with(cl: Seq<Seq<char>>, sep: Seq<char>) -> Seq<char>
    decreases cl.len(),
{
    if cl.len() == 0 {
        Seq::empty()
    } else if cl.len() == 1 {
        cl[0]
    } else {
        cl[0] + sep + joined_with(cl.drop_first(), sep)
    }
}

/// The clauses joined into one text, with `;` between each two.
pub open spec fn joined(cl: Seq<Seq<char>>) -> Seq<char> {
    joined_with(cl, seq![';'])
}

/// Whether every character of `w` is white space.
pub open spec fn all_ws(w: Seq<char>) -> bool {
    forall|k: int| 0 <= k < w.len() ==> is_ws(#[trigger] w[k])
}

proof fn lemma_trim_start_ws(w: Seq<char>, c: Seq<char>)
    requires
        all_ws(w),
    ensures
        trim_start(w + c) == trim_start(c),
    decreases w.len(),
{
    if w.len() == 0 {
        assert(w + c =~= c);
    } else {
        assert((w + c)[0] == w[0]);
        assert((w + c).drop_first() =~= w.drop_first() + c);
        assert forall|k: int| 0 <= k < w.drop_first().len() implies is_ws(#[trigger] w.drop_first()[k]) by {
            assert(w.drop_first()[k] == w[k + 1]);
        }
        lemma_trim_start_ws(w.drop_first(), c);
    }
}

proof fn lemma_semis_ws(w: Seq<char>)
    requires
        all_ws(w),
    ensures
        semis_nested(w, 0),
        net(w) == 0,
{
    lemma_net_ws(w);
    assert forall|k: int| 0 <= k < w.len() && w[k] == ';' implies 0 + net(#[trigger] w.take(k)) != 0 by {
        assert(is_ws(w[k]));
    }
}

pub proof fn lemma_net_concat(x: Seq<char>, y: Seq<char>)
    ensures
        net(x + y) == net(x) + net(y),
    decreases x.len(),
{
    if x.len() == 0 {
        assert(x + y =~= y);
    } else {
        assert((x + y).drop_first() =~= x.drop_first() + y);
        lemma_net_concat(x.drop_first(), y);
    }
}

pub proof fn lemma_net_flat(s: Seq<char>)
    requires
        forall|k: int| 0 <= k < s.len() ==> delta(#[trigger] s[k]) == 0,
    ensures
        net(s) == 0,
    decreases s.len(),
{
    if s.len() > 0 {
        assert forall|k: int| 0 <= k < s.drop_first().len() implies delta(#[trigger] s.drop_first()[k]) == 0 by {
            assert(s.drop_first()[k] == s[k + 1]);
        }
        lemma_net_flat(s.drop_first());
    }
}

proof fn lemma_net_ws(s: Seq<char>)
    requires
        forall|k: int| 0 <= k < s.len() ==> is_ws(#[trigger] s[k]),
    ensures
        net(s) == 0,
    decreases s.len(),
{
    if s.len() > 0 {
        assert forall|k: int| 0 <= k < s.drop_first().len() implies is_ws(#[trigger] s.drop_first()[k]) by {
            assert(s.drop_first()[k] == s[k + 1]);
        }
        lemma_net_ws(s.drop_first());
    }
}

/// Scanning a text whose every `;` is nested only carries it into the clause.
proof fn lemma_run(x: Seq<char>, s2: Seq<char>, d: int, cur: Seq<char>)
    requires
        semis_nested(x, d),
    ensures
        split_from(x + s2, d, cur) == split_from(s2, d + net(x), cur + x),
    decreases x.len(),
{
    if x.len() == 0 {
        assert(x + s2 =~= s2);
        assert(cur + x =~= cur);
    } else {
        let c = x[0];
        let rest = x.drop_first();
        assert((x + s2)[0] == c);
        assert((x + s2).drop_first() =~= rest + s2);
        assert(cur.push(c) + rest =~= cur + x);
        assert forall|k: int| 0 <= k < rest.len() && rest[k] == ';' implies d + delta(c) + net(
            #[trigger] rest.take(k),
        ) != 0 by {
            assert(x.take(k + 1).drop_first() =~= rest.take(k));
            assert(x.take(k + 1)[0] == c);
            assert(x[k + 1] == ';');
            assert(d + net(x.take(k + 1)) != 0);
        }
        if c == ';' {
            assert(x.take(0) =~= Seq::<char>::empty());
            assert(d + net(x.take(0)) != 0);
        }
        lemma_run(rest, s2, d + delta(c), cur.push(c));
    }
}

/// The number of white-space characters that `s` starts with.
pub open spec fn lead(s: Seq<char>) -> nat
    decreases s.len(),
{
    if s.len() > 0 && is_ws(s[0]) {
        1 + lead(s.drop_first())
    } else {
        0
    }
}

/// The number of white-space characters that `s` ends with.
pub open spec fn trail(s: Seq<char>) -> nat
    decreases s.len(),
{
    if s.len() > 0 && is_ws(s.last()) {
        1 + trail(s.drop_last())
    } else {
        0
    }
}

proof fn lemma_trim_start(s: Seq<char>)
    ensures
        lead(s) <= s.len(),
        trim_start(s) == s.skip(lead(s) as int),
        forall|k: int| 0 <= k < lead(s) ==> is_ws(#[trigger] s[k]),
        lead(s) < s.len() ==> !is_ws(s[lead(s) as int]),
    decreases s.len(),
{
    if s.len() > 0 && is_ws(s[0]) {
        lemma_trim_start(s.drop_first());
        assert(s.drop_first().skip(lead(s.drop_first()) as int) =~= s.skip(lead(s) as int));
        assert forall|k: int| 0 <= k < lead(s) implies is_ws(#[trigger] s[k]) by {
            if k > 0 {
                assert(s[k] == s.drop_first()[k - 1]);
            }
        }
    } else {
        assert(s.skip(0) =~= s);
    }
}

proof fn lemma_trim_end(s: Seq<char>)
    ensures
        trail(s) <= s.len(),
        trim_end(s) == s.take(s.len() - trail(s)),
        forall|k: int| s.len() - trail(s) <= k < s.len() ==> is_ws(#[trigger] s[k]),
        trail(s) < s.len() ==> !is_ws(s[s.len() - trail(s) - 1]),
    decreases s.len(),
{
    if s.len() > 0 && is_ws(s.last()) {
        lemma_trim_end(s.drop_last());
        assert(s.drop_last().take(s.drop_last().len() - trail(s.drop_last())) =~= s.take(
            s.len() - trail(s),
        ));
        assert forall|k: int| s.len() - trail(s) <= k < s.len() implies is_ws(#[trigger] s[k]) by {
            if k < s.len() - 1 {
                assert(s[k] == s.drop_last()[k]);
            }
        }
    } else {
        assert(s.take(s.len() as int) =~= s);
    }
}

/// `trim(s)` is the part of `s` from `a` to `b`, with only white space outside.
proof fn lemma_trim_bounds(s: Seq<char>) -> (ab: (int, int))
    ensures
        0 <= ab.0 <= ab.1 <= s.len(),
        trim(s) == s.subrange(ab.0, ab.1),
        forall|k: int| 0 <= k < ab.0 ==> is_ws(#[trigger] s[k]),
        forall|k: int| ab.1 <= k < s.len() ==> is_ws(#[trigger] s[k]),
        ab.0 < ab.1 ==> !is_ws(s[ab.0]) && !is_ws(s[ab.1 - 1]),
{
    lemma_trim_start(s);
    let a = lead(s) as int;
    let u = s.skip(a);
    lemma_trim_end(u);
    let b = a + u.len() - trail(u);
    assert(u.take(u.len() - trail(u)) =~= s.subrange(a, b));
    assert forall|k: int| b <= k < s.len() implies is_ws(#[trigger] s[k]) by {
        assert(s[k] == u[k - a]);
    }
    if a < b {
        assert(s[b - 1] == u[u.len() - trail(u) - 1]);
    }
    (a, b)
}

pub proof fn lemma_trim_fixed(s: Seq<char>)
    requires
        s.len() == 0 || (!is_ws(s[0]) && !is_ws(s.last())),
    ensures
        trim(s) == s,
{
    assert(trim_start(s) == s);
}

/// Trimming keeps every nested `;` nested, keeps the depth change, and trims
/// nothing more a second time.
proof fn lemma_trim_clause(cur: Seq<char>)
    requires
        semis_nested(cur, 0),
        trim(cur).len() > 0,
    ensures
        is_clause(trim(cur)),
        net(trim(cur)) == net(cur),
{
    let (a, b) = lemma_trim_bounds(cur);
    let t = trim(cur);
    assert(t[0] == cur[a]);
    assert(t.last() == cur[b - 1]);
    lemma_trim_fixed(t);
    let pre = cur.take(a);
    let post = cur.skip(b);
    assert(cur =~= pre + t + post);
    lemma_net_ws(pre);
    assert forall|k: int| 0 <= k < post.len() implies is_ws(#[trigger] post[k]) by {
        assert(post[k] == cur[b + k]);
    }
    lemma_net_ws(post);
    lemma_net_concat(pre + t, post);
    lemma_net_concat(pre, t);
    assert forall|k: int| 0 <= k < t.len() && t[k] == ';' implies 0 + net(#[trigger] t.take(k)) != 0 by {
        assert(cur[a + k] == ';');
        assert(cur.take(a + k) =~= pre + t.take(k));
        lemma_net_concat(pre, t.take(k));
        assert(0 + net(cur.take(a + k)) != 0);
    }
}

proof fn lemma_push_nested(cur: Seq<char>, c: char, d: int)
    requires
        semis_nested(cur, 0),
        d == net(cur),
        c == ';' ==> d != 0,
    ensures
        semis_nested(cur.push(c), 0),
        net(cur.push(c)) == d + delta(c),
{
    lemma_net_concat(cur, seq![c]);
    assert(cur + seq![c] =~= cur.push(c));
    assert(net(seq![c].drop_first()) == 0);
    assert forall|k: int| 0 <= k < cur.push(c).len() && cur.push(c)[k] == ';' implies 0 + net(
        #[trigger] cur.push(c).take(k),
    ) != 0 by {
        if k < cur.len() {
            assert(cur.push(c).take(k) =~= cur.take(k));
        } else {
            assert(cur.push(c).take(k) =~= cur);
        }
    }
}

/// Every piece that the splitter hands out is a clause, and each but the last
/// has balanced parentheses.
proof fn lemma_split_clauses(s: Seq<char>, d: int, cur: Seq<char>)
    requires
        d == net(cur),
        semis_nested(cur, 0),
    ensures
        are_clauses(split_from(s, d, cur)),
    decreases s.len(),
{
    let out = split_from(s, d, cur);
    if s.len() == 0 {
        if trim(cur).len() > 0 {
            lemma_trim_clause(cur);
        }
    } else {
        let c = s[0];
        let rest = s.drop_first();
        if c == ';' && d == 0 {
            if trim(cur).len() > 0 {
                lemma_trim_clause(cur);
                lemma_split_clauses(rest, 0, Seq::empty());
                let tail = split_from(rest, 0, Seq::empty());
                assert forall|i: int| 0 <= i < out.len() implies is_clause(#[trigger] out[i]) && (i + 1
                    < out.len() ==> net(out[i]) == 0) by {
                    if i > 0 {
                        assert(out[i] == tail[i - 1]);
                    }
                }
            } else {
                lemma_split_clauses(rest, 0, cur);
            }
        } else {
            lemma_push_nested(cur, c, d);
            lemma_split_clauses(rest, d + delta(c), cur.push(c));
        }
    }
}

/// Split again, clauses joined by `;` and white space `w` give back exactly
/// those clauses, whatever white space `lead` stands before them.
pub proof fn lemma_split_joined_with(cl: Seq<Seq<char>>, w: Seq<char>, lead: Seq<char>)
    requires
        are_clauses(cl),
        all_ws(w),
        all_ws(lead),
    ensures
        split_from(joined_with(cl, seq![';'] + w), 0, lead) == cl,
    decreases cl.len(),
{
    let sep = seq![';'] + w;
    lemma_semis_ws(lead);
    if cl.len() == 0 {
        lemma_trim_start_ws(lead, Seq::empty());
        assert(lead + Seq::<char>::empty() =~= lead);
        assert(trim_start(Seq::<char>::empty()) =~= Seq::<char>::empty());
    } else {
        let c = cl[0];
        assert(is_clause(c));
        lemma_trim_start_ws(lead, c);
        assert(trim_start(c) == c) by {
            lemma_trim_bounds(c);
        }
        assert(trim(lead + c) == c);
        if cl.len() == 1 {
            lemma_run(c, Seq::empty(), 0, lead);
            assert(c + Seq::<char>::empty() =~= c);
            assert(cl =~= seq![c]);
        } else {
            let rest = cl.drop_first();
            assert(net(c) == 0);
            assert forall|i: int| 0 <= i < rest.len() implies is_clause(#[trigger] rest[i]) && (i + 1
                < rest.len() ==> net(rest[i]) == 0) by {
                assert(rest[i] == cl[i + 1]);
            }
            lemma_split_joined_with(rest, w, w);
            let jr = joined_with(rest, sep);
            let s2 = sep + jr;
            assert(joined_with(cl, sep) =~= c + s2);
            lemma_run(c, s2, 0, lead);
            assert(s2[0] == ';');
            assert(s2.drop_first() =~= w + jr);
            lemma_semis_ws(w);
            lemma_run(w, jr, 0, Seq::empty());
            assert(Seq::<char>::empty() + w =~= w);
            assert(cl =~= seq![c] + rest);
        }
    }
}

pub proof fn lemma_split_joined(cl: Seq<Seq<char>>)
    requires
        are_clauses(cl),
    ensures
        split_from(joined(cl), 0, Seq::empty()) == cl,
{
    assert(seq![';'] + Seq::<char>::empty() =~= seq![';']);
    lemma_split_joined_with(cl, Seq::empty(), Seq::empty());
}

/// Splitting is stable: the clauses of a text, joined again with `;`, split
/// into the same clauses.
pub proof fn law_split_rejoin(s: Seq<char>)
    ensures
        split_clauses(joined(split_clauses(s))) == split_clauses(s),
{
    lemma_split_clauses(s, 0, Seq::empty());
    lemma_split_joined(split_clauses(s));
}

/// Splitting is stable under any white space after the separator: the clauses
/// of a text, joined again with `;` followed by white space `w` (`"; "` for
/// one), split into the same clauses.
pub proof fn law_split_rejoin_spaced(s: Seq<char>, w: Seq<char>)
    requires
        all_ws(w),
    ensures
        split_clauses(joined_with(split_clauses(s), seq![';'] + w)) == split_clauses(s),
{
    lemma_split_clauses(s, 0, Seq::empty());
    assert(all_ws(Seq::<char>::empty()));
    lemma_split_joined_with(split_clauses(s), w, Seq::empty());
}

} // verus!
