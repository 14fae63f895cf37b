//! Properties that relate the parser's parts, proved over their specifications.
use vstd::prelude::*;
use crate::baseline::{insert_pair, is_baseline, key_index, sample_value, samples_for};
use crate::config::{pair_views, TestbenchConfig};
use crate::model::{VhdlEntity, VhdlPort};
use crate::decl::{
    default_end, entity_at, entity_from, entity_name_of, generic_at, generics_from, is_default_char, port_of,
};
use crate::scan::{close_from, split_clauses};
use crate::split_laws::{
    delta, is_clause, joined, lemma_net_concat, lemma_net_flat, lemma_split_joined, lemma_trim_fixed, net,
};
use crate::entity::{entity_of, generics_in, ports_in, ports_of};
use crate::normalize::cleaned;
use crate::scan::section;
use crate::text::{has_ci, is_word, is_ws, lower_of, trim, trim_end, trim_start, word_end, ws_end};

verus! {

/// The number of clauses that declare a port.
pub open spec fn count_ports(cl: Seq<Seq<char>>) -> nat
    decreases cl.len(),
{
    if cl.len() == 0 {
        0
    } else {
        count_ports(cl.drop_last()) + if port_of(cl.last()) is Some {
            1nat
        } else {
            0nat
        }
    }
}

/// Every clause that declares a port gives exactly one port.
pub proof fn lemma_ports_of_len(cl: Seq<Seq<char>>)
    ensures
        ports_of(cl).len() == count_ports(cl),
    decreases cl.len(),
{
    if cl.len() > 0 {
        lemma_ports_of_len(cl.drop_last());
    }
}

proof fn lemma_count_all_but_one(cl: Seq<Seq<char>>, j: int)
    requires
        0 <= j < cl.len(),
        port_of(cl[j]) is None,
        forall|i: int| 0 <= i < cl.len() && i != j ==> port_of(#[trigger] cl[i]) is Some,
    ensures
        count_ports(cl) == cl.len() - 1,
    decreases cl.len(),
{
    let init = cl.drop_last();
    if j < cl.len() - 1 {
        assert forall|i: int| 0 <= i < init.len() && i != j implies port_of(#[trigger] init[i]) is Some by {
            assert(init[i] == cl[i]);
        }
        assert(init[j] == cl[j]);
        lemma_count_all_but_one(init, j);
        assert(port_of(cl.last()) is Some);
    } else {
        lemma_count_all(init);
    }
}

proof fn lemma_count_all(cl: Seq<Seq<char>>)
    requires
        forall|i: int| 0 <= i < cl.len() ==> port_of(#[trigger] cl[i]) is Some,
    ensures
        count_ports(cl) == cl.len(),
    decreases cl.len(),
{
    if cl.len() > 0 {
        let init = cl.drop_last();
        assert forall|i: int| 0 <= i < init.len() implies port_of(#[trigger] init[i]) is Some by {
            assert(init[i] == cl[i]);
        }
        lemma_count_all(init);
        assert(port_of(cl[cl.len() - 1]) is Some);
    }
}

/// A clause that declares no port costs only itself: among clauses of which
/// all but one declare a port, exactly one port fewer than clauses is read.
pub proof fn law_one_malformed_clause(cl: Seq<Seq<char>>, j: int)
    requires
        0 <= j < cl.len(),
        port_of(cl[j]) is None,
        forall|i: int| 0 <= i < cl.len() && i != j ==> port_of(#[trigger] cl[i]) is Some,
    ensures
        ports_of(cl).len() == cl.len() - 1,
{
    lemma_ports_of_len(cl);
    lemma_count_all_but_one(cl, j);
}

proof fn lemma_entity_from_skip(t: Seq<char>, i: int, j: int)
    requires
        0 <= i <= j <= t.len(),
        forall|k: int| i <= k < j ==> entity_at(t, k) is None,
    ensures
        entity_from(t, i) == entity_from(t, j),
    decreases j - i,
{
    if i < j {
        lemma_entity_from_skip(t, i + 1, j);
    }
}

proof fn lemma_word_run(t: Seq<char>, a: int, b: int)
    requires
        0 <= a <= b <= t.len(),
        forall|k: int| a <= k < b ==> is_word(#[trigger] t[k]),
        b == t.len() || !is_word(t[b]),
    ensures
        word_end(t, a) == b,
    decreases b - a,
{
    if a < b {
        lemma_word_run(t, a + 1, b);
    }
}

/// The entity's name is the identifier of its first `entity <id> is` clause,
/// lower-cased: in a normalized text `pre + "entity " + id + " is" + post` where
/// no clause starts inside `pre`, the name read is `id` lower-cased.
pub proof fn law_entity_name(pre: Seq<char>, id: Seq<char>, post: Seq<char>)
    requires
        id.len() > 0,
        forall|k: int| 0 <= k < id.len() ==> is_word(#[trigger] id[k]),
        forall|k: int|
            0 <= k < pre.len() ==> entity_at(pre + "entity "@ + id + " is"@ + post, k) is None,
    ensures
        entity_name_of(pre + "entity "@ + id + " is"@ + post) == Some(lower_of(id)),
{
    reveal_strlit("entity ");
    reveal_strlit("entity");
    reveal_strlit(" is");
    reveal_strlit("is");
    let t = pre + "entity "@ + id + " is"@ + post;
    let i = pre.len() as int;
    let n = id.len() as int;
    lemma_entity_from_skip(t, 0, i);
    assert forall|k: int| 0 <= k < 6 implies crate::text::same_ci(#[trigger] t[i + k], "entity"@[k]) by {
        assert(t[i + k] == "entity "@[k]);
    }
    assert(has_ci(t, i, "entity"@));
    assert(t[i + 6] == ' ');
    assert(!is_ws(t[i + 7])) by {
        assert(t[i + 7] == id[0]);
    }
    assert(ws_end(t, i + 7) == i + 7);
    assert(ws_end(t, i + 6) == i + 7);
    assert forall|k: int| i + 7 <= k < i + 7 + n implies is_word(#[trigger] t[k]) by {
        assert(t[k] == id[k - i - 7]);
    }
    assert(t[i + 7 + n] == ' ');
    lemma_word_run(t, i + 7, i + 7 + n);
    assert(t[i + 8 + n] == 'i');
    assert(!is_ws(t[i + 8 + n]));
    assert(ws_end(t, i + 8 + n) == i + 8 + n);
    assert(ws_end(t, i + 7 + n) == i + 8 + n);
    assert forall|k: int| 0 <= k < 2 implies crate::text::same_ci(#[trigger] t[i + 8 + n + k], "is"@[k]) by {
        assert(t[i + 8 + n + k] == " is"@[k + 1]);
    }
    assert(has_ci(t, i + 8 + n, "is"@));
    assert(t.subrange(i + 7, i + 7 + n) =~= id);
    assert(entity_at(t, i) == Some(id));
}

proof fn lemma_close_from_shift(c: Seq<char>, r: Seq<char>, off: int, j: int, d: nat)
    requires
        0 <= off,
        off + r.len() <= c.len(),
        c.subrange(off, off + r.len()) == r,
        0 <= j <= r.len(),
        close_from(r, j, d) is Some,
    ensures
        close_from(c, off + j, d) == Some(close_from(r, j, d)->0 + off),
    decreases r.len() - j,
{
    if j < r.len() {
        assert(c[off + j] == r[j]);
        if r[j] == '(' {
            lemma_close_from_shift(c, r, off, j + 1, d + 1);
        } else if r[j] == ')' {
            if d > 1 {
                lemma_close_from_shift(c, r, off, j + 1, (d - 1) as nat);
            }
        } else {
            lemma_close_from_shift(c, r, off, j + 1, d);
        }
    }
}

/// A range is carried through whole, nested parentheses and all: the clause
/// `name : in type(range...)`, whose range's first parenthesis is closed only at
/// its end, is read as a port with exactly that range.
pub proof fn law_range_kept_whole(name: Seq<char>, ty: Seq<char>, range: Seq<char>)
    requires
        name.len() > 0,
        ty.len() > 0,
        forall|k: int| 0 <= k < name.len() ==> is_word(#[trigger] name[k]),
        forall|k: int| 0 <= k < ty.len() ==> is_word(#[trigger] ty[k]),
        range.len() > 0,
        range[0] == '(',
        close_from(range, 0, 0) == Some(range.len() - 1),
    ensures
        port_of(name + " : in "@ + ty + range) == Some(
            (lower_of(name), "in"@, lower_of(ty), Some(range)),
        ),
{
    reveal_strlit(" : in ");
    reveal_strlit("in");
    reveal_strlit("out");
    reveal_strlit("inout");
    let c = name + " : in "@ + ty + range;
    let n = name.len() as int;
    let m = ty.len() as int;
    assert forall|k: int| 0 <= k < n implies is_word(#[trigger] c[k]) by {
        assert(c[k] == name[k]);
    }
    assert(c[n] == ' ');
    lemma_word_run(c, 0, n);
    assert(c[n + 1] == ':');
    assert(ws_end(c, n + 1) == n + 1);
    assert(ws_end(c, n) == n + 1);
    assert(c[n + 2] == ' ');
    assert(c[n + 3] == 'i');
    assert(ws_end(c, n + 3) == n + 3);
    assert(ws_end(c, n + 2) == n + 3);
    assert forall|k: int| 0 <= k < 2 implies crate::text::same_ci(#[trigger] c[n + 3 + k], "in"@[k]) by {
        assert(c[n + 3 + k] == " : in "@[k + 3]);
    }
    assert(has_ci(c, n + 3, "in"@));
    assert(c[n + 5] == ' ');
    assert(crate::decl::dir_len(c, n + 3) == 2);
    assert(c[n + 6] == ty[0]);
    assert(ws_end(c, n + 6) == n + 6);
    assert(ws_end(c, n + 5) == n + 6);
    assert forall|k: int| n + 6 <= k < n + 6 + m implies is_word(#[trigger] c[k]) by {
        assert(c[k] == ty[k - n - 6]);
    }
    assert(c[n + 6 + m] == '(');
    lemma_word_run(c, n + 6, n + 6 + m);
    assert(ws_end(c, n + 6 + m) == n + 6 + m);
    assert(c.subrange(n + 6 + m, n + 6 + m + range.len()) =~= range);
    lemma_close_from_shift(c, range, n + 6 + m, 0, 0);
    assert(c.subrange(n + 6 + m, n + 6 + m + range.len()) == range);
    assert(c.subrange(0, n) =~= name);
    assert(c.subrange(n + 6, n + 6 + m) =~= ty);
    assert(crate::decl::port_at(c, 0) == Some((lower_of(name), "in"@, lower_of(ty), Some(range))));
}

proof fn lemma_close_char(r: Seq<char>, j: int, d: nat)
    requires
        0 <= j,
        close_from(r, j, d) is Some,
    ensures
        j <= close_from(r, j, d)->0 < r.len(),
        r[close_from(r, j, d)->0] == ')',
    decreases r.len() - j,
{
    if r[j] == '(' {
        lemma_close_char(r, j + 1, d + 1);
    } else if r[j] == ')' {
        if d > 1 {
            lemma_close_char(r, j + 1, (d - 1) as nat);
        }
    } else {
        lemma_close_char(r, j + 1, d);
    }
}

/// Before its closing parenthesis the scan never drops below depth 1.
proof fn lemma_close_depth(r: Seq<char>, j: int, d: nat, k: int)
    requires
        0 <= j <= k,
        d >= 1,
        close_from(r, j, d) is Some,
        k <= close_from(r, j, d)->0,
    ensures
        d + net(r.subrange(j, k)) >= 1,
    decreases k - j,
{
    lemma_close_char(r, j, d);
    if j == k {
        assert(r.subrange(j, k) =~= Seq::<char>::empty());
    } else {
        assert(r.subrange(j, k).drop_first() =~= r.subrange(j + 1, k));
        assert(r.subrange(j, k)[0] == r[j]);
        if r[j] == '(' {
            lemma_close_depth(r, j + 1, d + 1, k);
        } else if r[j] == ')' {
            lemma_close_char(r, j, d);
            assert(d > 1);
            lemma_close_depth(r, j + 1, (d - 1) as nat, k);
        } else {
            lemma_close_depth(r, j + 1, d, k);
        }
    }
}

/// The same clause, read from the interior of a ports section, survives the
/// splitter whole: the one port it gives carries the range unchanged.
pub proof fn law_range_survives_split(name: Seq<char>, ty: Seq<char>, range: Seq<char>)
    requires
        name.len() > 0,
        ty.len() > 0,
        forall|k: int| 0 <= k < name.len() ==> is_word(#[trigger] name[k]),
        forall|k: int| 0 <= k < ty.len() ==> is_word(#[trigger] ty[k]),
        range.len() > 0,
        range[0] == '(',
        close_from(range, 0, 0) == Some(range.len() - 1),
    ensures
        ports_of(split_clauses(name + " : in "@ + ty + range)) == seq![
            (lower_of(name), "in"@, lower_of(ty), Some(range)),
        ],
{
    reveal_strlit(" : in ");
    let c = name + " : in "@ + ty + range;
    let head = name + " : in "@ + ty;
    let off = head.len() as int;
    assert(c =~= head + range);
    law_range_kept_whole(name, ty, range);
    lemma_close_char(range, 0, 0);
    assert(c[0] == name[0]);
    assert(c.last() == range[range.len() - 1]);
    lemma_trim_fixed(c);
    assert forall|k: int| 0 <= k < head.len() implies delta(#[trigger] head[k]) == 0 && head[k] != ';' by {
        if k < name.len() {
            assert(head[k] == name[k]);
        } else if k < name.len() + 6 {
            assert(head[k] == " : in "@[k - name.len()]);
        } else {
            assert(head[k] == ty[k - name.len() - 6]);
        }
    }
    assert forall|k: int| 0 <= k < c.len() && c[k] == ';' implies 0 + net(#[trigger] c.take(k)) != 0 by {
        assert(k >= off) by {
            if k < off {
                assert(c[k] == head[k]);
            }
        }
        let j = k - off;
        assert(range[j] == ';');
        assert(j >= 1);
        assert(c.take(k) =~= head + range.take(j));
        lemma_net_concat(head, range.take(j));
        lemma_net_flat(head);
        assert(range.take(j).drop_first() =~= range.subrange(1, j));
        assert(close_from(range, 0, 0) == close_from(range, 1, 1));
        lemma_close_depth(range, 1, 1, j);
    }
    assert(is_clause(c));
    let cl = seq![c];
    assert(joined(cl) == c);
    lemma_split_joined(cl);
    assert(split_clauses(c) == cl);
    assert(cl.drop_last() =~= Seq::<Seq<char>>::empty());
    assert(cl.last() == c);
    assert(port_of(c) == Some((lower_of(name), "in"@, lower_of(ty), Some(range))));
    assert(ports_of(cl.drop_last()) =~= Seq::empty());
    assert(ports_of(cl) =~= seq![(lower_of(name), "in"@, lower_of(ty), Some(range))]);
}

proof fn lemma_default_run(t: Seq<char>, a: int, b: int)
    requires
        0 <= a <= b < t.len(),
        forall|k: int| a <= k < b ==> is_default_char(#[trigger] t[k]),
        !is_default_char(t[b]),
    ensures
        default_end(t, a) == b,
    decreases b - a,
{
    if a < b {
        lemma_default_run(t, a + 1, b);
    }
}

proof fn lemma_generics_skip(t: Seq<char>, p: int)
    requires
        0 <= p < t.len(),
        !is_word(t[p]),
    ensures
        generics_from(t, p) == generics_from(t, p + 1),
{
    assert(word_end(t, p) == p);
}

#[verifier::rlimit(100)]
proof fn lemma_first_generic(a: Seq<char>, t1: Seq<char>, d1: Seq<char>, b: Seq<char>, t2: Seq<char>)
    requires
        a.len() > 0 && t1.len() > 0 && b.len() > 0 && t2.len() > 0 && d1.len() > 0,
        forall|k: int| 0 <= k < a.len() ==> is_word(#[trigger] a[k]),
        forall|k: int| 0 <= k < t1.len() ==> is_word(#[trigger] t1[k]),
        forall|k: int| 0 <= k < b.len() ==> is_word(#[trigger] b[k]),
        forall|k: int| 0 <= k < t2.len() ==> is_word(#[trigger] t2[k]),
        forall|k: int| 0 <= k < d1.len() ==> is_default_char(#[trigger] d1[k]),
        !is_ws(d1[0]) && !is_ws(d1.last()),
    ensures
        generic_at(" "@ + a + " : "@ + t1 + " := "@ + d1 + " ; "@ + b + " : "@ + t2 + " "@, 1) == Some(
            ((lower_of(a), lower_of(t1), Some(d1)), (1 + a.len() + 3 + t1.len() + 4 + d1.len() + 1) as int),
        ),
        generics_from(" "@ + a + " : "@ + t1 + " := "@ + d1 + " ; "@ + b + " : "@ + t2 + " "@, 0) == generics_from(" "@ + a + " : "@ + t1 + " := "@ + d1 + " ; "@ + b + " : "@ + t2 + " "@, 1),
{
    reveal_strlit(" ");
    reveal_strlit(" : ");
    reveal_strlit(" := ");
    reveal_strlit(" ; ");
    let c = " "@ + a + " : "@ + t1 + " := "@ + d1 + " ; "@ + b + " : "@ + t2 + " "@;
    let na = a.len() as int;
    let n1 = t1.len() as int;
    let nd = d1.len() as int;
    let nb = b.len() as int;
    let n2 = t2.len() as int;
    let e1 = 1 + na;
    let t0 = e1 + 3;
    let t1e = t0 + n1;
    let m2 = t1e + 4;
    let r = m2 + nd + 1;
    let b0 = r + 2;
    let be = b0 + nb;
    let u0 = be + 3;
    let t2e = u0 + n2;
    assert(c.len() == t2e + 1);
    // the first declaration
    assert(c[0] == ' ');
    lemma_generics_skip(c, 0);
    assert forall|k: int| 1 <= k < e1 implies is_word(#[trigger] c[k]) by {
        assert(c[k] == a[k - 1]);
    }
    assert(c[e1] == ' ' && c[e1 + 1] == ':' && c[e1 + 2] == ' ');
    lemma_word_run(c, 1, e1);
    assert(ws_end(c, e1 + 1) == e1 + 1);
    assert(ws_end(c, e1) == e1 + 1);
    assert(c[t0] == t1[0]);
    assert(ws_end(c, t0) == t0);
    assert(ws_end(c, e1 + 2) == t0);
    assert forall|k: int| t0 <= k < t1e implies is_word(#[trigger] c[k]) by {
        assert(c[k] == t1[k - t0]);
    }
    assert(c[t1e] == ' ' && c[t1e + 1] == ':' && c[t1e + 2] == '=' && c[t1e + 3] == ' ');
    lemma_word_run(c, t0, t1e);
    assert(ws_end(c, t1e + 1) == t1e + 1);
    assert(ws_end(c, t1e) == t1e + 1);
    assert(c[m2] == d1[0]);
    assert(ws_end(c, m2) == m2);
    assert(ws_end(c, t1e + 3) == m2);
    assert forall|k: int| m2 <= k < m2 + nd + 1 implies is_default_char(#[trigger] c[k]) by {
        if k < m2 + nd {
            assert(c[k] == d1[k - m2]);
        } else {
            assert(c[k] == ' ');
        }
    }
    assert(c[r] == ';');
    lemma_default_run(c, m2, r);
    assert(c.subrange(m2, r) =~= d1.push(' '));
    assert(trim_start(d1.push(' ')) == d1.push(' '));
    assert(d1.push(' ').drop_last() =~= d1);
    assert(trim_end(d1) == d1);
    assert(trim(c.subrange(m2, r)) == d1);
    assert(c.subrange(1, e1) =~= a);
    assert(c.subrange(t0, t1e) =~= t1);
    assert(generic_at(c, 1) == Some(((lower_of(a), lower_of(t1), Some(d1)), r)));
}

#[verifier::rlimit(100)]
proof fn lemma_second_generic(a: Seq<char>, t1: Seq<char>, d1: Seq<char>, b: Seq<char>, t2: Seq<char>)
    requires
        a.len() > 0 && t1.len() > 0 && b.len() > 0 && t2.len() > 0 && d1.len() > 0,
        forall|k: int| 0 <= k < a.len() ==> is_word(#[trigger] a[k]),
        forall|k: int| 0 <= k < t1.len() ==> is_word(#[trigger] t1[k]),
        forall|k: int| 0 <= k < b.len() ==> is_word(#[trigger] b[k]),
        forall|k: int| 0 <= k < t2.len() ==> is_word(#[trigger] t2[k]),
        forall|k: int| 0 <= k < d1.len() ==> is_default_char(#[trigger] d1[k]),
        !is_ws(d1[0]) && !is_ws(d1.last()),
    ensures
        ({
            let c = " "@ + a + " : "@ + t1 + " := "@ + d1 + " ; "@ + b + " : "@ + t2 + " "@;
            let r = (1 + a.len() + 3 + t1.len() + 4 + d1.len() + 1) as int;
            let b0 = r + 2;
            let t2e = b0 + (b.len() + 3 + t2.len()) as int;
            &&& generics_from(c, r) == generics_from(c, b0)
            &&& generic_at(c, b0) == Some(((lower_of(b), lower_of(t2), None::<Seq<char>>), t2e))
            &&& generics_from(c, t2e) == Seq::<(Seq<char>, Seq<char>, Option<Seq<char>>)>::empty()
        }),
{
    reveal_strlit(" ");
    reveal_strlit(" : ");
    reveal_strlit(" := ");
    reveal_strlit(" ; ");
    let c = " "@ + a + " : "@ + t1 + " := "@ + d1 + " ; "@ + b + " : "@ + t2 + " "@;
    let na = a.len() as int;
    let n1 = t1.len() as int;
    let nd = d1.len() as int;
    let nb = b.len() as int;
    let n2 = t2.len() as int;
    let e1 = 1 + na;
    let t0 = e1 + 3;
    let t1e = t0 + n1;
    let m2 = t1e + 4;
    let r = m2 + nd + 1;
    let b0 = r + 2;
    let be = b0 + nb;
    let u0 = be + 3;
    let t2e = u0 + n2;
    assert(c.len() == t2e + 1);
    // the second declaration
    lemma_generics_skip(c, r);
    assert(c[r + 1] == ' ');
    lemma_generics_skip(c, r + 1);
    assert forall|k: int| b0 <= k < be implies is_word(#[trigger] c[k]) by {
        assert(c[k] == b[k - b0]);
    }
    assert(c[be] == ' ' && c[be + 1] == ':' && c[be + 2] == ' ');
    lemma_word_run(c, b0, be);
    assert(ws_end(c, be + 1) == be + 1);
    assert(ws_end(c, be) == be + 1);
    assert(c[u0] == t2[0]);
    assert(ws_end(c, u0) == u0);
    assert(ws_end(c, be + 2) == u0);
    assert forall|k: int| u0 <= k < t2e implies is_word(#[trigger] c[k]) by {
        assert(c[k] == t2[k - u0]);
    }
    assert(c[t2e] == ' ');
    lemma_word_run(c, u0, t2e);
    assert(ws_end(c, t2e + 1) == t2e + 1);
    assert(ws_end(c, t2e) == t2e + 1);
    assert(c.subrange(b0, be) =~= b);
    assert(c.subrange(u0, t2e) =~= t2);
    assert(generic_at(c, b0) == Some(((lower_of(b), lower_of(t2), None::<Seq<char>>), t2e)));
    lemma_generics_skip(c, t2e);
    assert(generics_from(c, t2e + 1) == Seq::<(Seq<char>, Seq<char>, Option<Seq<char>>)>::empty());
}

/// A generics block of two declarations, the first with a default and the
/// second without, reads as those two generics in order: for the interior
/// ` a : t1 := d1 ; b : t2 `, `a` has default `d1` and `b` none.
#[verifier::rlimit(100)]
pub proof fn law_two_generics(a: Seq<char>, t1: Seq<char>, d1: Seq<char>, b: Seq<char>, t2: Seq<char>)
    requires
        a.len() > 0 && t1.len() > 0 && b.len() > 0 && t2.len() > 0 && d1.len() > 0,
        forall|k: int| 0 <= k < a.len() ==> is_word(#[trigger] a[k]),
        forall|k: int| 0 <= k < t1.len() ==> is_word(#[trigger] t1[k]),
        forall|k: int| 0 <= k < b.len() ==> is_word(#[trigger] b[k]),
        forall|k: int| 0 <= k < t2.len() ==> is_word(#[trigger] t2[k]),
        forall|k: int| 0 <= k < d1.len() ==> is_default_char(#[trigger] d1[k]),
        !is_ws(d1[0]) && !is_ws(d1.last()),
    ensures
        generics_from(" "@ + a + " : "@ + t1 + " := "@ + d1 + " ; "@ + b + " : "@ + t2 + " "@, 0) == seq![(lower_of(a), lower_of(t1), Some(d1)), (lower_of(b), lower_of(t2), None)],
{
    let c = " "@ + a + " : "@ + t1 + " := "@ + d1 + " ; "@ + b + " : "@ + t2 + " "@;
    lemma_first_generic(a, t1, d1, b, t2);
    lemma_second_generic(a, t1, d1, b, t2);
    let r = (1 + a.len() + 3 + t1.len() + 4 + d1.len() + 1) as int;
    let b0 = r + 2;
    let t2e = b0 + (b.len() + 3 + t2.len()) as int;
    reveal_strlit(" ");
    reveal_strlit(" : ");
    reveal_strlit(" := ");
    reveal_strlit(" ; ");
    let g1 = (lower_of(a), lower_of(t1), Some(d1));
    let g2 = (lower_of(b), lower_of(t2), None::<Seq<char>>);
    assert(c.len() == t2e + 1);
    assert(generics_from(c, 1) == seq![g1] + generics_from(c, r));
    assert(generics_from(c, b0) == seq![g2] + generics_from(c, t2e));
    assert(generics_from(c, 0) =~= seq![g1, g2]);
}

/// A baseline for an entity with one bit input and one ranged vector output
/// holds one vector, whose inputs name that input once with the bit literal,
/// and whose expected outputs name that output once with the 8-bit literal.
pub proof fn law_baseline_bit_in_vector_out(e: VhdlEntity, c: TestbenchConfig)
    requires
        is_baseline(e, c),
        e.ports@.len() == 2,
        e.ports@[0].direction@ == "in"@,
        e.ports@[0].signal_type@ == "std_logic"@,
        e.ports@[1].direction@ == "out"@,
        e.ports@[1].signal_type@ == "std_logic_vector"@,
        e.ports@[1].range is Some,
    ensures
        c.test_vectors matches Some(vs) && vs@.len() == 1 && {
            let v = vs@[0];
            &&& pair_views(v.inputs@) == seq![(e.ports@[0].name@, "0"@)]
            &&& v.expected_outputs matches Some(o) && pair_views(o@) == seq![
                (e.ports@[1].name@, "\"00000000\""@),
            ]
        },
{
    reveal_strlit("in");
    reveal_strlit("out");
    reveal_strlit("std_logic");
    reveal_strlit("std_logic_vector");
    let ps = e.ports@;
    let bit_in = ps[0];
    let vec_out = ps[1];
    assert("in"@ != "out"@) by {
        assert("in"@.len() != "out"@.len());
    }
    assert("std_logic_vector"@ != "std_logic"@) by {
        assert("std_logic_vector"@.len() != "std_logic"@.len());
    }
    assert(ps.drop_last() =~= seq![bit_in]);
    assert(seq![bit_in].drop_last() =~= Seq::<VhdlPort>::empty());
    assert(sample_value(bit_in) == "0"@);
    assert(sample_value(vec_out) == "\"00000000\""@);
    let e0 = Seq::<(Seq<char>, Seq<char>)>::empty();
    assert(key_index(e0, bit_in.name@, 0) == 0);
    assert(insert_pair(e0, bit_in.name@, "0"@) =~= seq![(bit_in.name@, "0"@)]);
    assert(seq![bit_in].last() == bit_in);
    assert(samples_for(seq![bit_in].drop_last(), "in"@) == e0);
    assert(samples_for(seq![bit_in].drop_last(), "out"@) == e0);
    assert(samples_for(seq![bit_in], "in"@) == seq![(bit_in.name@, "0"@)]);
    assert(samples_for(ps, "in"@) == seq![(bit_in.name@, "0"@)]);
    assert(key_index(e0, vec_out.name@, 0) == 0);
    assert(insert_pair(e0, vec_out.name@, "\"00000000\""@) =~= seq![(vec_out.name@, "\"00000000\""@)]);
    assert(samples_for(seq![bit_in], "out"@) == e0);
    assert(ps.last() == vec_out);
    assert(samples_for(ps, "out"@) == seq![(vec_out.name@, "\"00000000\""@)]);
}

/// What `parse_content` reads from `content` names the entity after its first
/// `entity <id> is` clause, lower-cased, whenever its sections are balanced:
/// the cleaned text being `pre + "entity " + id + " is" + post` with no clause
/// starting inside `pre`.
pub proof fn law_parse_entity_name(content: Seq<char>, pre: Seq<char>, id: Seq<char>, post: Seq<char>)
    requires
        cleaned(content) == pre + "entity "@ + id + " is"@ + post,
        id.len() > 0,
        forall|k: int| 0 <= k < id.len() ==> is_word(#[trigger] id[k]),
        forall|k: int|
            0 <= k < pre.len() ==> entity_at(pre + "entity "@ + id + " is"@ + post, k) is None,
        section(cleaned(content), "generic"@) is Ok,
        section(cleaned(content), "port"@) is Ok,
    ensures
        entity_of(cleaned(content)) matches Ok((name, _, _)) && name == lower_of(id),
{
    law_entity_name(pre, id, post);
}

/// What `parse_content` reads from `content` whose generics section has the
/// interior ` a : t1 := d1 ; b : t2 ` holds exactly those two generics, in
/// order, `a` with default `d1` and `b` with none.
pub proof fn law_parse_two_generics(
    content: Seq<char>,
    a: Seq<char>,
    t1: Seq<char>,
    d1: Seq<char>,
    b: Seq<char>,
    t2: Seq<char>,
    lo: int,
    hi: int,
)
    requires
        a.len() > 0 && t1.len() > 0 && b.len() > 0 && t2.len() > 0 && d1.len() > 0,
        forall|k: int| 0 <= k < a.len() ==> is_word(#[trigger] a[k]),
        forall|k: int| 0 <= k < t1.len() ==> is_word(#[trigger] t1[k]),
        forall|k: int| 0 <= k < b.len() ==> is_word(#[trigger] b[k]),
        forall|k: int| 0 <= k < t2.len() ==> is_word(#[trigger] t2[k]),
        forall|k: int| 0 <= k < d1.len() ==> is_default_char(#[trigger] d1[k]),
        !is_ws(d1[0]) && !is_ws(d1.last()),
        entity_name_of(cleaned(content)) is Some,
        section(cleaned(content), "generic"@) == Ok::<Option<(int, int)>, crate::scan::ParseError>(Some((lo, hi))),
        cleaned(content).subrange(lo, hi) == " "@ + a + " : "@ + t1 + " := "@ + d1 + " ; "@ + b + " : "@ + t2 + " "@,
        section(cleaned(content), "port"@) is Ok,
    ensures
        entity_of(cleaned(content)) matches Ok((_, gs, _)) && gs == seq![
            (lower_of(a), lower_of(t1), Some(d1)),
            (lower_of(b), lower_of(t2), None),
        ],
{
    law_two_generics(a, t1, d1, b, t2);
    assert(generics_in(cleaned(content), Some((lo, hi))) == generics_from(cleaned(content).subrange(lo, hi), 0));
}

/// What `parse_content` reads from `content` whose ports section splits into
/// clauses of which all but one declare a port has one port fewer than
/// clauses: the parse does not fail on the malformed one.
pub proof fn law_parse_one_malformed_clause(content: Seq<char>, lo: int, hi: int, j: int)
    requires
        entity_name_of(cleaned(content)) is Some,
        section(cleaned(content), "generic"@) is Ok,
        section(cleaned(content), "port"@) == Ok::<Option<(int, int)>, crate::scan::ParseError>(Some((lo, hi))),
        0 <= j < split_clauses(cleaned(content).subrange(lo, hi)).len(),
        port_of(split_clauses(cleaned(content).subrange(lo, hi))[j]) is None,
        forall|i: int|
            0 <= i < split_clauses(cleaned(content).subrange(lo, hi)).len() && i != j ==> port_of(
                #[trigger] split_clauses(cleaned(content).subrange(lo, hi))[i],
            ) is Some,
    ensures
        entity_of(cleaned(content)) matches Ok((_, _, ps)) && ps.len() == split_clauses(
            cleaned(content).subrange(lo, hi),
        ).len() - 1,
{
    law_one_malformed_clause(split_clauses(cleaned(content).subrange(lo, hi)), j);
    assert(ports_in(cleaned(content), Some((lo, hi))) == ports_of(split_clauses(cleaned(content).subrange(lo, hi))));
}

} // verus!
