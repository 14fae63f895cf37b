//! A baseline configuration derived from an entity, and a skeleton declaration.
use vstd::prelude::*;
use crate::config::{distinct_keys, pair_views, TestVector, TestbenchConfig};
use crate::model::{opt_view, VhdlEntity, VhdlGeneric, VhdlPort};
use crate::text::same_text;

verus! {

/// The index of the first pair named `k` at or after `i`, or the length where
/// there is none.
pub open spec fn key_index(m: Seq<(Seq<char>, Seq<char>)>, k: Seq<char>, i: int) -> int
    decreases m.len() - i,
{
    if i < 0 || i >= m.len() {
        m.len() as int
    } else if m[i].0 == k {
        i
    } else {
        key_index(m, k, i + 1)
    }
}

/// The mapping `m` with `k` set to `v`: the value replaced where `k` is
/// present, the pair added at the end where it is not.
pub open spec fn insert_pair(m: Seq<(Seq<char>, Seq<char>)>, k: Seq<char>, v: Seq<char>) -> Seq<(Seq<char>, Seq<char>)> {
    let j = key_index(m, k, 0);
    if 0 <= j < m.len() {
        m.update(j, (k, v))
    } else {
        m.push((k, v))
    }
}

proof fn lemma_key_index(m: Seq<(Seq<char>, Seq<char>)>, k: Seq<char>, i: int)
    requires
        0 <= i <= m.len(),
    ensures
        i <= key_index(m, k, i) <= m.len(),
        key_index(m, k, i) < m.len() ==> m[key_index(m, k, i)].0 == k,
    decreases m.len() - i,
{
    if i < m.len() && m[i].0 != k {
        lemma_key_index(m, k, i + 1);
    }
}

proof fn lemma_key_absent(m: Seq<(Seq<char>, Seq<char>)>, k: Seq<char>, i: int)
    requires
        0 <= i <= m.len(),
        key_index(m, k, i) == m.len(),
    ensures
        forall|j: int| i <= j < m.len() ==> #[trigger] m[j].0 != k,
    decreases m.len() - i,
{
    if i < m.len() {
        lemma_key_absent(m, k, i + 1);
    }
}

/// Setting a name's value keeps the names distinct.
pub proof fn lemma_insert_distinct(m: Seq<(Seq<char>, Seq<char>)>, k: Seq<char>, v: Seq<char>)
    requires
        distinct_keys(m),
    ensures
        distinct_keys(insert_pair(m, k, v)),
{
    lemma_key_index(m, k, 0);
    let r = insert_pair(m, k, v);
    let j = key_index(m, k, 0);
    if j < m.len() {
        assert forall|a: int, b: int| 0 <= a < b < r.len() implies #[trigger] r[a].0 != #[trigger] r[b].0 by {
            assert(r[a].0 == m[a].0);
            assert(r[b].0 == m[b].0);
        }
    } else {
        lemma_key_absent(m, k, 0);
        assert forall|a: int, b: int| 0 <= a < b < r.len() implies #[trigger] r[a].0 != #[trigger] r[b].0 by {
            if b < m.len() {
                assert(r[a] == m[a] && r[b] == m[b]);
            } else {
                assert(r[a] == m[a]);
            }
        }
    }
}

proof fn lemma_samples_distinct(ps: Seq<VhdlPort>, dir: Seq<char>)
    ensures
        distinct_keys(samples_for(ps, dir)),
    decreases ps.len(),
{
    if ps.len() > 0 {
        lemma_samples_distinct(ps.drop_last(), dir);
        if ps.last().direction@ == dir {
            lemma_insert_distinct(samples_for(ps.drop_last(), dir), ps.last().name@, sample_value(ps.last()));
        }
    }
}

proof fn lemma_defaults_distinct(gs: Seq<VhdlGeneric>)
    ensures
        distinct_keys(defaults_of(gs)),
    decreases gs.len(),
{
    if gs.len() > 0 {
        lemma_defaults_distinct(gs.drop_last());
        match gs.last().default_value {
            Some(d) => lemma_insert_distinct(defaults_of(gs.drop_last()), gs.last().name@, d@),
            None => {},
        }
    }
}

/// Sets `k` to `v` in a list of pairs.
pub fn insert_pair_exec(m: &mut Vec<(String, String)>, k: String, v: String)
    ensures
        pair_views(final(m)@) == insert_pair(pair_views(old(m)@), k@, v@),
{
    let ghost pv = pair_views(m@);
    let mut i: usize = 0;
    while i < m.len()
        invariant
            m@ == old(m)@,
            pv == pair_views(m@),
            i <= m@.len(),
            key_index(pv, k@, i as int) == key_index(pv, k@, 0),
        decreases m@.len() - i,
    {
        assert(pv[i as int] == (m@[i as int].0@, m@[i as int].1@));
        if same_text(m[i].0.as_str(), k.as_str()) {
            let ghost kv = k@;
            let ghost vv = v@;
            m.set(i, (k, v));
            assert(pair_views(m@) =~= pv.update(i as int, (kv, vv)));
            return;
        }
        i = i + 1;
    }
    let ghost kv = k@;
    let ghost vv = v@;
    m.push((k, v));
    assert(pair_views(m@) =~= pv.push((kv, vv)));
}

/// The sample value that a baseline gives a port: a bit literal, or for a
/// vector type an 8-bit string literal where it has a range and a 1-bit one
/// where it has none.
pub open spec fn sample_value(p: VhdlPort) -> Seq<char> {
    if p.signal_type@ == "std_logic"@ {
        "0"@
    } else if p.signal_type@ == "std_logic_vector"@ {
        if p.range is Some {
            "\"00000000\""@
        } else {
            "\"0\""@
        }
    } else {
        "0"@
    }
}

/// The sample values of the ports of direction `dir`, by port name.
pub open spec fn samples_for(ps: Seq<VhdlPort>, dir: Seq<char>) -> Seq<(Seq<char>, Seq<char>)>
    decreases ps.len(),
{
    if ps.len() == 0 {
        Seq::empty()
    } else if ps.last().direction@ == dir {
        insert_pair(samples_for(ps.drop_last(), dir), ps.last().name@, sample_value(ps.last()))
    } else {
        samples_for(ps.drop_last(), dir)
    }
}

/// The declared defaults of the generics that have one, by generic name.
pub open spec fn defaults_of(gs: Seq<VhdlGeneric>) -> Seq<(Seq<char>, Seq<char>)>
    decreases gs.len(),
{
    if gs.len() == 0 {
        Seq::empty()
    } else {
        match gs.last().default_value {
            Some(d) => insert_pair(defaults_of(gs.drop_last()), gs.last().name@, d@),
            None => defaults_of(gs.drop_last()),
        }
    }
}

/// The description given to the baseline's sample vector.
pub const SAMPLE_NOTE: &'static str = "Sample test case - modify as needed";

/// The whole baseline configuration of `e`: a 10 ns clock, a 100 ns reset, one
/// vector at 100 ns holding a sample value for each input and an expected
/// value for each output, and the declared defaults of the generics, absent
/// where no generic has one. No mapping names a port or generic twice.
pub open spec fn is_baseline(e: VhdlEntity, c: TestbenchConfig) -> bool {
    &&& c.clock_period_ns == Some(10u32)
    &&& c.reset_duration_ns == Some(100u32)
    &&& c.test_vectors matches Some(vs) && vs@.len() == 1 && {
        let v = vs@[0];
        &&& v.time_ns == 100
        &&& pair_views(v.inputs@) == samples_for(e.ports@, "in"@)
        &&& distinct_keys(pair_views(v.inputs@))
        &&& v.expected_outputs matches Some(o) && pair_views(o@) == samples_for(e.ports@, "out"@)
            && distinct_keys(pair_views(o@))
        &&& opt_view(v.description) == Some(SAMPLE_NOTE@)
    }
    &&& match c.generics {
        Some(g) => pair_views(g@) == defaults_of(e.generics@) && g@.len() > 0 && distinct_keys(pair_views(g@)),
        None => defaults_of(e.generics@).len() == 0,
    }
}

fn sample_for(p: &VhdlPort) -> (r: String)
    ensures
        r@ == sample_value(*p),
{
    if same_text(p.signal_type.as_str(), "std_logic") {
        String::from_str("0")
    } else if same_text(p.signal_type.as_str(), "std_logic_vector") {
        if p.range.is_some() {
            String::from_str("\"00000000\"")
        } else {
            String::from_str("\"0\"")
        }
    } else {
        String::from_str("0")
    }
}

/// A starting configuration for `entity`, for its user to edit.
pub fn generate_baseline_config(entity: &VhdlEntity) -> (r: TestbenchConfig)
    ensures
        is_baseline(*entity, r),
{
    let mut inputs: Vec<(String, String)> = Vec::new();
    let mut outputs: Vec<(String, String)> = Vec::new();
    let ghost ps = entity.ports@;
    let mut i: usize = 0;
    assert(ps.take(0) =~= Seq::<VhdlPort>::empty());
    assert(pair_views(inputs@) =~= Seq::empty());
    assert(pair_views(outputs@) =~= Seq::empty());
    while i < entity.ports.len()
        invariant
            ps == entity.ports@,
            i <= ps.len(),
            pair_views(inputs@) == samples_for(ps.take(i as int), "in"@),
            pair_views(outputs@) == samples_for(ps.take(i as int), "out"@),
        decreases ps.len() - i,
    {
        let p = &entity.ports[i];
        assert(ps.take(i + 1).drop_last() =~= ps.take(i as int));
        assert(ps.take(i + 1).last() == *p);
        if same_text(p.direction.as_str(), "in") {
            proof {
                reveal_strlit("in");
                reveal_strlit("out");
                assert("in"@.len() != "out"@.len());
            }
            insert_pair_exec(&mut inputs, p.name.clone(), sample_for(p));
        } else if same_text(p.direction.as_str(), "out") {
            proof {
                reveal_strlit("in");
                reveal_strlit("out");
                assert("in"@.len() != "out"@.len());
            }
            insert_pair_exec(&mut outputs, p.name.clone(), sample_for(p));
        }
        i = i + 1;
    }
    assert(ps.take(i as int) =~= ps);
    let ghost gs = entity.generics@;
    let mut defaults: Vec<(String, String)> = Vec::new();
    let mut j: usize = 0;
    assert(gs.take(0) =~= Seq::<VhdlGeneric>::empty());
    assert(pair_views(defaults@) =~= Seq::empty());
    while j < entity.generics.len()
        invariant
            gs == entity.generics@,
            j <= gs.len(),
            pair_views(defaults@) == defaults_of(gs.take(j as int)),
        decreases gs.len() - j,
    {
        let g = &entity.generics[j];
        assert(gs.take(j + 1).drop_last() =~= gs.take(j as int));
        assert(gs.take(j + 1).last() == *g);
        match &g.default_value {
            Some(d) => {
                insert_pair_exec(&mut defaults, g.name.clone(), d.clone());
            },
            None => {},
        }
        j = j + 1;
    }
    assert(gs.take(j as int) =~= gs);
    proof {
        lemma_samples_distinct(entity.ports@, "in"@);
        lemma_samples_distinct(entity.ports@, "out"@);
        lemma_defaults_distinct(entity.generics@);
    }
    let vector = TestVector {
        time_ns: 100,
        inputs,
        expected_outputs: Some(outputs),
        description: Some(String::from_str(SAMPLE_NOTE)),
    };
    let generics = if defaults.len() == 0 {
        None
    } else {
        Some(defaults)
    };
    TestbenchConfig {
        clock_period_ns: Some(10),
        reset_duration_ns: Some(100),
        test_vectors: Some(vec![vector]),
        generics,
    }
}

/// The skeleton's text before the first occurrence of the entity's name.
pub const SKELETON_0: &'static str = "-- =============================================================================\n-- VHDL Entity Template\n-- Entity: ";

/// The skeleton's text between the first and second occurrences of the name.
pub const SKELETON_1: &'static str = "\n-- =============================================================================\nlibrary IEEE;\nuse IEEE.STD_LOGIC_1164.ALL;\nuse IEEE.NUMERIC_STD.ALL;\n\n-- =============================================================================\n-- Entity Declaration\n-- =============================================================================\nentity ";

/// The skeleton's text between the second and third occurrences of the name.
pub const SKELETON_2: &'static str = " is\n    Generic (\n        -- Add your generics here\n        -- DATA_WIDTH : INTEGER := 32;\n        -- DEPTH      : INTEGER := 16\n    );\n    Port (\n        -- Clock and Reset\n        clk : in STD_LOGIC;\n        rst : in STD_LOGIC;\n        \n        -- Add your input ports here\n        -- enable     : in  STD_LOGIC;\n        -- data_in    : in  STD_LOGIC_VECTOR(DATA_WIDTH-1 downto 0);\n        \n        -- Add your output ports here\n        -- ready      : out STD_LOGIC;\n        -- data_out   : out STD_LOGIC_VECTOR(DATA_WIDTH-1 downto 0)\n    );\nend entity ";

/// The skeleton's text between the third and fourth occurrences of the name.
pub const SKELETON_3: &'static str = ";\n\n-- =============================================================================\n-- Architecture Declaration\n-- =============================================================================\narchitecture RTL of ";

/// The skeleton's text after the last occurrence of the name.
pub const SKELETON_4: &'static str = " is\n    \n    -- Internal signals\n    -- signal internal_reg : STD_LOGIC_VECTOR(DATA_WIDTH-1 downto 0) := (others => '0');\n    -- signal counter      : UNSIGNED(7 downto 0) := (others => '0');\n    \nbegin\n    \n    -- ==========================================================================\n    -- Main Process\n    -- ==========================================================================\n    main_process : process(clk)\n    begin\n        if rising_edge(clk) then\n            if rst = '1' then\n                -- Reset logic here\n                -- internal_reg <= (others => '0');\n                -- counter <= (others => '0');\n            else\n                -- Main logic here\n                \n            end if;\n        end if;\n    end process main_process;\n    \n    -- ==========================================================================\n    -- Combinatorial Logic\n    -- ==========================================================================\n    -- Add your combinatorial assignments here\n    -- data_out <= internal_reg;\n    -- ready <= '1' when counter = 0 else '0';\n    \nend architecture RTL;\n";

/// The skeleton declaration and architecture of an entity named `n`.
pub open spec fn skeleton(n: Seq<char>) -> Seq<char> {
    SKELETON_0@ + n + SKELETON_1@ + n + SKELETON_2@ + n + SKELETON_3@ + n + SKELETON_4@
}

/// A skeleton declaration and architecture for a new entity named `entity_name`.
pub fn generate_vhdl_template(entity_name: &str) -> (r: String)
    ensures
        r@ == skeleton(entity_name@),
{
    let mut out = String::from_str(SKELETON_0);
    out.append(entity_name);
    out.append(SKELETON_1);
    out.append(entity_name);
    out.append(SKELETON_2);
    out.append(entity_name);
    out.append(SKELETON_3);
    out.append(entity_name);
    out.append(SKELETON_4);
    out
}

} // verus!
