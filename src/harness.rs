//! The harness synthesizer: the six text fragments of a test harness, rendered
//! from an entity and an optional configuration, and their substitution into a
//! template.
use vstd::prelude::*;
use crate::config::{pair_views, TestVector, TestbenchConfig};
use crate::model::{VhdlEntity, VhdlGeneric, VhdlPort};
use crate::resolve::{generic_value, overrides, resolved};
use crate::text::{
    contains, contains_text, decimal, decimal_of, join_lines, join_with, lower_of, lowercase,
    occurs_at, replace_all, replace_text, same_text, string_views, upper_of, uppercase,
};

verus! {

/// The text of the basic stack exercise used when a configuration has no vectors.
pub const STACK_TEST: &'static str = "    -- Basic stack test\n    -- Test push operation\n    tb_push <= '1';\n    tb_pop <= '0';\n    tb_data_in <= x\"DEADBEEF\";\n    wait for 20 ns;\n    tb_push <= '0';\n    wait for 20 ns;\n\n    -- Test pop operation\n    tb_pop <= '1';\n    wait for 20 ns;\n    tb_pop <= '0';\n    wait for 20 ns;\n\n";

/// A port's range with generics resolved, or nothing where it has no range.
pub open spec fn range_text(p: VhdlPort, gs: Seq<VhdlGeneric>, m: Option<Seq<(Seq<char>, Seq<char>)>>) -> Seq<char> {
    match p.range {
        Some(r) => resolved(r@, gs, m),
        None => Seq::empty(),
    }
}

/// A port's line in the component declaration, without its terminator.
pub open spec fn port_decl(p: VhdlPort, gs: Seq<VhdlGeneric>, m: Option<Seq<(Seq<char>, Seq<char>)>>) -> Seq<char> {
    "        "@ + p.name@ + " : "@ + upper_of(p.direction@) + " "@ + upper_of(p.signal_type@)
        + range_text(p, gs, m)
}

/// The port lines, each ended by `;` and a line break.
pub open spec fn ports_semi(ps: Seq<VhdlPort>, gs: Seq<VhdlGeneric>, m: Option<Seq<(Seq<char>, Seq<char>)>>) -> Seq<char>
    decreases ps.len(),
{
    if ps.len() == 0 {
        Seq::empty()
    } else {
        ports_semi(ps.drop_last(), gs, m) + port_decl(ps.last(), gs, m) + ";\n"@
    }
}

/// The component's port block: one line per port, separated by `;`, the last
/// ended by a line break alone.
pub open spec fn ports_block(ps: Seq<VhdlPort>, gs: Seq<VhdlGeneric>, m: Option<Seq<(Seq<char>, Seq<char>)>>) -> Seq<char> {
    if ps.len() == 0 {
        Seq::empty()
    } else {
        ports_semi(ps.drop_last(), gs, m) + port_decl(ps.last(), gs, m) + "\n"@
    }
}

/// The initial value given to a harness signal of the (upper-cased) type `up`.
pub open spec fn init_text(up: Seq<char>) -> Seq<char> {
    if up == "STD_LOGIC"@ {
        " := '0'"@
    } else if up == "STD_LOGIC_VECTOR"@ {
        " := (others => '0')"@
    } else if up == "INTEGER"@ {
        " := 0"@
    } else {
        " := '0'"@
    }
}

/// The harness signal declared for a port.
pub open spec fn signal_decl(p: VhdlPort, gs: Seq<VhdlGeneric>, m: Option<Seq<(Seq<char>, Seq<char>)>>) -> Seq<char> {
    "signal tb_"@ + p.name@ + " : "@ + upper_of(p.signal_type@) + range_text(p, gs, m) + init_text(
        upper_of(p.signal_type@),
    ) + ";"@
}

/// Whether some port's lower-cased name contains `clk`.
pub open spec fn has_clock(ps: Seq<VhdlPort>) -> bool {
    exists|i: int| 0 <= i < ps.len() && contains(lower_of(#[trigger] ps[i].name@), "clk"@)
}

/// The harness's signal declarations: one per port, then a clock signal where
/// no port is a clock.
pub open spec fn signal_lines(ps: Seq<VhdlPort>, gs: Seq<VhdlGeneric>, m: Option<Seq<(Seq<char>, Seq<char>)>>) -> Seq<Seq<char>> {
    ps.map_values(|p: VhdlPort| signal_decl(p, gs, m)) + if has_clock(ps) {
        Seq::empty()
    } else {
        seq!["signal tb_clk : STD_LOGIC := '0';"@]
    }
}

/// The instantiation's connection lines: each port to its harness signal,
/// all but the last followed by a comma.
pub open spec fn connection_lines(ps: Seq<VhdlPort>) -> Seq<Seq<char>> {
    ps.map(
        |i: int, p: VhdlPort|
            "        "@ + p.name@ + " => tb_"@ + p.name@ + if i + 1 < ps.len() {
                ","@
            } else {
                Seq::empty()
            },
    )
}

/// The clock process body for a full period of `period` ns.
pub open spec fn clock_text(period: nat) -> Seq<char> {
    "    tb_clk <= '0';\n    wait for "@ + decimal_of(period / 2) + " ns;\n    tb_clk <= '1';\n    wait for "@
        + decimal_of(period / 2) + " ns;"@
}

/// The reset sequence that opens the stimulus.
pub open spec fn reset_text(duration: nat) -> Seq<char> {
    "    -- Reset sequence\n    tb_rst <= '1';\n    wait for "@ + decimal_of(duration)
        + " ns;\n    tb_rst <= '0';\n    wait for 20 ns;\n\n"@
}

/// The line that closes the stimulus.
pub open spec fn end_text() -> Seq<char> {
    "    -- End of test\n    report \"Test completed\" severity note;\n"@
}

/// The assignments that drive the inputs of a vector.
pub open spec fn inputs_text(m: Seq<(Seq<char>, Seq<char>)>) -> Seq<char>
    decreases m.len(),
{
    if m.len() == 0 {
        Seq::empty()
    } else {
        inputs_text(m.drop_last()) + "    tb_"@ + m.last().0 + " <= "@ + m.last().1 + ";\n"@
    }
}

/// The function that renders a signal whose expected value is `v`: the hex
/// form for vector literals, the bit form otherwise.
pub open spec fn image_fn(v: Seq<char>) -> Seq<char> {
    if occurs_at(v, 0, "x\""@) || contains(v, "downto"@) {
        "to_hstring"@
    } else {
        "std_logic'image"@
    }
}

/// The assertion that signal `s` holds `v`.
pub open spec fn check_line(s: Seq<char>, v: Seq<char>) -> Seq<char> {
    "    assert tb_"@ + s + " = "@ + v + " report \"Expected "@ + s + " = "@ + v + ", got \" & "@
        + image_fn(v) + "(tb_"@ + s + ") severity error;\n"@
}

/// The assertions on the expected outputs of a vector.
pub open spec fn checks_text(m: Seq<(Seq<char>, Seq<char>)>) -> Seq<char>
    decreases m.len(),
{
    if m.len() == 0 {
        Seq::empty()
    } else {
        checks_text(m.drop_last()) + check_line(m.last().0, m.last().1)
    }
}

/// The heading of the vector at 0-based position `i`.
pub open spec fn vector_heading(i: nat, v: TestVector) -> Seq<char> {
    match v.description {
        Some(d) => "    -- Test "@ + decimal_of(i + 1) + ": "@ + d@ + "\n"@,
        None => "    -- Test vector "@ + decimal_of(i + 1) + "\n"@,
    }
}

/// The stimulus of the vector at 0-based position `i`.
pub open spec fn vector_text(i: nat, v: TestVector) -> Seq<char> {
    vector_heading(i, v) + inputs_text(pair_views(v.inputs@)) + "    wait for "@ + decimal_of(
        v.time_ns as nat,
    ) + " ns;\n"@ + match v.expected_outputs {
        Some(e) => checks_text(pair_views(e@)),
        None => Seq::empty(),
    } + "\n"@
}

/// The stimulus of a sequence of vectors, numbered from 1.
pub open spec fn vectors_text(vs: Seq<TestVector>) -> Seq<char>
    decreases vs.len(),
{
    if vs.len() == 0 {
        Seq::empty()
    } else {
        vectors_text(vs.drop_last()) + vector_text((vs.len() - 1) as nat, vs.last())
    }
}

/// The default exercise of one port: inputs other than `clk` and `rst` of a
/// bit or vector type are driven high, then low.
pub open spec fn basic_step(p: VhdlPort) -> Seq<char> {
    let up = upper_of(p.signal_type@);
    if p.direction@ == "in"@ && p.name@ != "clk"@ && p.name@ != "rst"@ {
        if up == "STD_LOGIC"@ {
            "    tb_"@ + p.name@ + " <= '1';\n"@ + "    wait for 20 ns;\n"@ + "    tb_"@ + p.name@
                + " <= '0';\n"@ + "    wait for 20 ns;\n"@
        } else if up == "STD_LOGIC_VECTOR"@ {
            "    tb_"@ + p.name@ + " <= (others => '1');\n"@ + "    wait for 20 ns;\n"@ + "    tb_"@
                + p.name@ + " <= (others => '0');\n"@ + "    wait for 20 ns;\n"@
        } else {
            Seq::empty()
        }
    } else {
        Seq::empty()
    }
}

/// The default exercise of every port, in order.
pub open spec fn basic_steps(ps: Seq<VhdlPort>) -> Seq<char>
    decreases ps.len(),
{
    if ps.len() == 0 {
        Seq::empty()
    } else {
        basic_steps(ps.drop_last()) + basic_step(ps.last())
    }
}

/// The stimulus used when there is no configuration.
pub open spec fn basic_test_text(ps: Seq<VhdlPort>) -> Seq<char> {
    "    -- Basic stimulus\n"@ + basic_steps(ps) + "\n"@
}

/// The whole stimulus: the reset sequence; then the configuration's vectors, or
/// the stack exercise where it has none, or the default exercise where there is
/// no configuration; then the closing line.
pub open spec fn stimulus_text(ps: Seq<VhdlPort>, config: Option<&TestbenchConfig>) -> Seq<char> {
    let rd = match config {
        Some(c) => match c.reset_duration_ns {
            Some(d) => d as nat,
            None => 100,
        },
        None => 100,
    };
    reset_text(rd) + match config {
        Some(c) => match c.test_vectors {
            Some(vs) => "    -- Test vectors\n"@ + vectors_text(vs@),
            None => STACK_TEST@,
        },
        None => basic_test_text(ps),
    } + end_text()
}

/// The clock period of an optional configuration, 10 ns by default.
pub open spec fn clock_period(config: Option<&TestbenchConfig>) -> nat {
    match config {
        Some(c) => match c.clock_period_ns {
            Some(p) => p as nat,
            None => 10,
        },
        None => 10,
    }
}

/// The six rendered fragments of a harness.
#[derive(Debug, Clone)]
pub struct TestbenchData {
    pub component_name: String,
    pub ports: String,
    pub internal_signals: String,
    pub port_connections: String,
    pub clk_gen: String,
    pub stim_proc: String,
}

/// `template` with each of the six placeholders replaced by its fragment.
pub open spec fn filled(template: Seq<char>, d: TestbenchData) -> Seq<char> {
    replace_all(
        replace_all(
            replace_all(
                replace_all(
                    replace_all(
                        replace_all(template, "{component_name}"@, d.component_name@),
                        "{ports}"@,
                        d.ports@,
                    ),
                    "{internal_signals}"@,
                    d.internal_signals@,
                ),
                "{port_connections}"@,
                d.port_connections@,
            ),
            "{clk_gen}"@,
            d.clk_gen@,
        ),
        "{stim_proc}"@,
        d.stim_proc@,
    )
}

impl TestbenchData {
    /// Substitutes the six fragments for their placeholders in `template`.
    pub fn apply_to_template(&self, template: &str) -> (r: String)
        ensures
            r@ == filled(template@, *self),
    {
        let a = replace_text(template, "{component_name}", self.component_name.as_str());
        let b = replace_text(a.as_str(), "{ports}", self.ports.as_str());
        let c = replace_text(b.as_str(), "{internal_signals}", self.internal_signals.as_str());
        let d = replace_text(c.as_str(), "{port_connections}", self.port_connections.as_str());
        let e = replace_text(d.as_str(), "{clk_gen}", self.clk_gen.as_str());
        replace_text(e.as_str(), "{stim_proc}", self.stim_proc.as_str())
    }
}

/// The renderer of harness fragments.
pub struct TestbenchGenerator;

impl TestbenchGenerator {
    /// Renders the six fragments of a harness for `entity`, with the settings of
    /// `config` where one is given.
    pub fn generate_testbench_data(entity: &VhdlEntity, config: Option<&TestbenchConfig>) -> (r: TestbenchData)
        ensures
            r.component_name@ == entity.name@,
            r.ports@ == ports_block(entity.ports@, entity.generics@, overrides(config)),
            r.internal_signals@ == join_lines(
                signal_lines(entity.ports@, entity.generics@, overrides(config)),
                "\n"@,
            ),
            r.port_connections@ == join_lines(connection_lines(entity.ports@), "\n"@),
            r.clk_gen@ == clock_text(clock_period(config)),
            r.stim_proc@ == stimulus_text(entity.ports@, config),
    {
        let ports = Self::generate_ports_string(&entity.ports, &entity.generics, config);
        let internal_signals = Self::generate_internal_signals(&entity.ports, &entity.generics, config);
        let port_connections = Self::generate_port_connections(&entity.ports);
        let clk_gen = Self::generate_clock_generation(config);
        let stim_proc = Self::generate_stimulus_process(&entity.ports, config);
        TestbenchData {
            component_name: entity.name.clone(),
            ports,
            internal_signals,
            port_connections,
            clk_gen,
            stim_proc,
        }
    }

    /// `range` with every generic's name replaced by its value under `config`.
    pub fn resolve_generic_range(
        range: &str,
        generics: &Vec<VhdlGeneric>,
        config: Option<&TestbenchConfig>,
    ) -> (r: String)
        ensures
            r@ == resolved(range@, generics@, overrides(config)),
    {
        let mut out = String::from_str(range);
        let mut k: usize = 0;
        assert(generics@.take(0) =~= Seq::<VhdlGeneric>::empty());
        while k < generics.len()
            invariant
                k <= generics@.len(),
                out@ == resolved(range@, generics@.take(k as int), overrides(config)),
            decreases generics@.len() - k,
        {
            let g = &generics[k];
            assert(generics@.take(k + 1).drop_last() =~= generics@.take(k as int));
            assert(generics@.take(k + 1).last() == *g);
            let value = generic_value(g, config);
            let upper = uppercase(g.name.as_str());
            out = Self::substitute_generic(out.as_str(), upper.as_str(), g.name.as_str(), value.as_str());
            k = k + 1;
        }
        assert(generics@.take(k as int) =~= generics@);
        out
    }

    /// `text` with `upper` (a generic's upper-cased name), then `name` (its
    /// name as written), replaced by `value`.
    pub fn substitute_generic(text: &str, upper: &str, name: &str, value: &str) -> (r: String)
        ensures
            r@ == replace_all(replace_all(text@, upper@, value@), name@, value@),
    {
        let a = replace_text(text, upper, value);
        replace_text(a.as_str(), name, value)
    }

    fn append_range(
        out: &mut String,
        p: &VhdlPort,
        generics: &Vec<VhdlGeneric>,
        config: Option<&TestbenchConfig>,
    )
        ensures
            final(out)@ == old(out)@ + range_text(*p, generics@, overrides(config)),
    {
        match &p.range {
            Some(range) => {
                let resolved = Self::resolve_generic_range(range.as_str(), generics, config);
                out.append(resolved.as_str());
            },
            None => {
                assert(old(out)@ + Seq::<char>::empty() =~= old(out)@);
            },
        }
    }

    fn port_decl_text(p: &VhdlPort, generics: &Vec<VhdlGeneric>, config: Option<&TestbenchConfig>) -> (r: String)
        ensures
            r@ == port_decl(*p, generics@, overrides(config)),
    {
        let mut line = String::new();
        line.append("        ");
        line.append(p.name.as_str());
        line.append(" : ");
        let dir = uppercase(p.direction.as_str());
        line.append(dir.as_str());
        line.append(" ");
        let ty = uppercase(p.signal_type.as_str());
        line.append(ty.as_str());
        Self::append_range(&mut line, p, generics, config);
        assert(line@ =~= port_decl(*p, generics@, overrides(config)));
        line
    }

    /// The component's port block.
    pub fn generate_ports_string(
        ports: &Vec<VhdlPort>,
        generics: &Vec<VhdlGeneric>,
        config: Option<&TestbenchConfig>,
    ) -> (r: String)
        ensures
            r@ == ports_block(ports@, generics@, overrides(config)),
    {
        let mut out = String::new();
        let n = ports.len();
        if n == 0 {
            assert(out@ =~= Seq::<char>::empty());
            return out;
        }
        let mut i: usize = 0;
        assert(ports@.take(0) =~= Seq::<VhdlPort>::empty());
        assert(out@ =~= Seq::<char>::empty());
        while i + 1 < n
            invariant
                n == ports@.len(),
                n > 0,
                i < n,
                out@ == ports_semi(ports@.take(i as int), generics@, overrides(config)),
            decreases n - i,
        {
            assert(ports@.take(i + 1).drop_last() =~= ports@.take(i as int));
            assert(ports@.take(i + 1).last() == ports@[i as int]);
            let line = Self::port_decl_text(&ports[i], generics, config);
            out.append(line.as_str());
            out.append(";\n");
            i = i + 1;
            assert(out@ =~= ports_semi(ports@.take(i as int), generics@, overrides(config)));
        }
        assert(ports@.drop_last() =~= ports@.take(i as int));
        let line = Self::port_decl_text(&ports[i], generics, config);
        out.append(line.as_str());
        out.append("\n");
        assert(out@ =~= ports_block(ports@, generics@, overrides(config)));
        out
    }

    /// The initial value of a harness signal whose upper-cased type is `up`.
    pub fn init_for(up: &str) -> (r: &'static str)
        ensures
            r@ == init_text(up@),
    {
        if same_text(up, "STD_LOGIC") {
            " := '0'"
        } else if same_text(up, "STD_LOGIC_VECTOR") {
            " := (others => '0')"
        } else if same_text(up, "INTEGER") {
            " := 0"
        } else {
            " := '0'"
        }
    }

    /// The harness's signal declarations, one per line.
    pub fn generate_internal_signals(
        ports: &Vec<VhdlPort>,
        generics: &Vec<VhdlGeneric>,
        config: Option<&TestbenchConfig>,
    ) -> (r: String)
        ensures
            r@ == join_lines(signal_lines(ports@, generics@, overrides(config)), "\n"@),
    {
        let ghost m = overrides(config);
        let mut lines: Vec<String> = Vec::new();
        let mut clock = false;
        let mut i: usize = 0;
        while i < ports.len()
            invariant
                m == overrides(config),
                i <= ports@.len(),
                lines@.len() == i,
                string_views(lines@) == ports@.take(i as int).map_values(
                    |p: VhdlPort| signal_decl(p, generics@, m),
                ),
                clock == has_clock(ports@.take(i as int)),
            decreases ports@.len() - i,
        {
            let p = &ports[i];
            let mut decl = String::new();
            decl.append("signal tb_");
            decl.append(p.name.as_str());
            decl.append(" : ");
            let up = uppercase(p.signal_type.as_str());
            decl.append(up.as_str());
            Self::append_range(&mut decl, p, generics, config);
            decl.append(Self::init_for(up.as_str()));
            decl.append(";");
            assert(decl@ =~= signal_decl(*p, generics@, m));
            let low = lowercase(p.name.as_str());
            let c = contains_text(low.as_str(), "clk");
            let ghost before = lines@;
            let ghost dv = decl@;
            lines.push(decl);
            proof {
                let t = ports@.take(i + 1);
                assert(t.drop_last() =~= ports@.take(i as int));
                assert(t[i as int] == *p);
                assert(string_views(lines@) =~= string_views(before).push(dv));
                assert(string_views(lines@) =~= t.map_values(|p: VhdlPort| signal_decl(p, generics@, m)));
                if c {
                    assert(t[i as int] == *p);
                    assert(has_clock(t));
                }
                if has_clock(t) && !clock {
                    let j = choose|j: int| 0 <= j < t.len() && contains(lower_of(#[trigger] t[j].name@), "clk"@);
                    if j < i {
                        assert(ports@.take(i as int)[j] == t[j]);
                    }
                }
                if clock {
                    let j = choose|j: int|
                        0 <= j < ports@.take(i as int).len() && contains(
                            lower_of(#[trigger] ports@.take(i as int)[j].name@),
                            "clk"@,
                        );
                    assert(t[j] == ports@.take(i as int)[j]);
                }
            }
            clock = clock || c;
            i = i + 1;
        }
        assert(ports@.take(i as int) =~= ports@);
        if !clock {
            let ghost before = lines@;
            lines.push(String::from_str("signal tb_clk : STD_LOGIC := '0';"));
            assert(string_views(lines@) =~= string_views(before) + seq!["signal tb_clk : STD_LOGIC := '0';"@]);
        } else {
            assert(string_views(lines@) =~= string_views(lines@) + Seq::<Seq<char>>::empty());
        }
        join_with(&lines, "\n")
    }

    /// The instantiation's connection list, one port per line.
    pub fn generate_port_connections(ports: &Vec<VhdlPort>) -> (r: String)
        ensures
            r@ == join_lines(connection_lines(ports@), "\n"@),
    {
        let mut lines: Vec<String> = Vec::new();
        let n = ports.len();
        let mut i: usize = 0;
        while i < n
            invariant
                n == ports@.len(),
                i <= n,
                lines@.len() == i,
                string_views(lines@) == connection_lines(ports@).take(i as int),
            decreases n - i,
        {
            let p = &ports[i];
            let mut line = String::new();
            line.append("        ");
            line.append(p.name.as_str());
            line.append(" => tb_");
            line.append(p.name.as_str());
            if i + 1 < n {
                line.append(",");
            } else {
                assert(line@ =~= line@ + Seq::<char>::empty());
            }
            assert(line@ =~= connection_lines(ports@)[i as int]);
            let ghost before = lines@;
            let ghost lv = line@;
            lines.push(line);
            assert(string_views(lines@) =~= string_views(before).push(lv));
            i = i + 1;
            assert(string_views(lines@) =~= connection_lines(ports@).take(i as int));
        }
        assert(connection_lines(ports@).take(i as int) =~= connection_lines(ports@));
        join_with(&lines, "\n")
    }

    /// The clock process body: half the period low, half high.
    pub fn generate_clock_generation(config: Option<&TestbenchConfig>) -> (r: String)
        ensures
            r@ == clock_text(clock_period(config)),
    {
        let period: u32 = match config {
            Some(c) => match c.clock_period_ns {
                Some(p) => p,
                None => 10,
            },
            None => 10,
        };
        let half = decimal((period / 2) as usize);
        let mut out = String::new();
        out.append("    tb_clk <= '0';\n    wait for ");
        out.append(half.as_str());
        out.append(" ns;\n    tb_clk <= '1';\n    wait for ");
        out.append(half.as_str());
        out.append(" ns;");
        assert(out@ =~= clock_text(clock_period(config)));
        out
    }

    fn append_inputs(out: &mut String, m: &Vec<(String, String)>)
        ensures
            final(out)@ == old(out)@ + inputs_text(pair_views(m@)),
    {
        let mut i: usize = 0;
        assert(pair_views(m@).take(0) =~= Seq::<(Seq<char>, Seq<char>)>::empty());
        assert(out@ =~= old(out)@ + inputs_text(pair_views(m@).take(0)));
        while i < m.len()
            invariant
                i <= m@.len(),
                out@ == old(out)@ + inputs_text(pair_views(m@).take(i as int)),
            decreases m@.len() - i,
        {
            let ghost t = pair_views(m@).take(i + 1);
            assert(t.drop_last() =~= pair_views(m@).take(i as int));
            assert(t.last() == (m@[i as int].0@, m@[i as int].1@));
            out.append("    tb_");
            out.append(m[i].0.as_str());
            out.append(" <= ");
            out.append(m[i].1.as_str());
            out.append(";\n");
            i = i + 1;
            assert(out@ =~= old(out)@ + inputs_text(pair_views(m@).take(i as int)));
        }
        assert(pair_views(m@).take(i as int) =~= pair_views(m@));
    }

    fn check_line_text(s: &str, v: &str) -> (r: String)
        ensures
            r@ == check_line(s@, v@),
    {
        let mut line = String::new();
        let vc = crate::text::chars_of(v);
        let xq = crate::text::chars_of("x\"");
        let f = if crate::text::matches_at(&vc, 0, &xq) || contains_text(v, "downto") {
            "to_hstring"
        } else {
            "std_logic'image"
        };
        line.append("    assert tb_");
        line.append(s);
        line.append(" = ");
        line.append(v);
        line.append(" report \"Expected ");
        line.append(s);
        line.append(" = ");
        line.append(v);
        line.append(", got \" & ");
        line.append(f);
        line.append("(tb_");
        line.append(s);
        line.append(") severity error;\n");
        assert(line@ =~= check_line(s@, v@));
        line
    }

    fn append_checks(out: &mut String, m: &Vec<(String, String)>)
        ensures
            final(out)@ == old(out)@ + checks_text(pair_views(m@)),
    {
        let mut i: usize = 0;
        assert(pair_views(m@).take(0) =~= Seq::<(Seq<char>, Seq<char>)>::empty());
        assert(out@ =~= old(out)@ + checks_text(pair_views(m@).take(0)));
        while i < m.len()
            invariant
                i <= m@.len(),
                out@ == old(out)@ + checks_text(pair_views(m@).take(i as int)),
            decreases m@.len() - i,
        {
            let ghost t = pair_views(m@).take(i + 1);
            assert(t.drop_last() =~= pair_views(m@).take(i as int));
            assert(t.last() == (m@[i as int].0@, m@[i as int].1@));
            let line = Self::check_line_text(m[i].0.as_str(), m[i].1.as_str());
            out.append(line.as_str());
            i = i + 1;
            assert(out@ =~= old(out)@ + checks_text(pair_views(m@).take(i as int)));
        }
        assert(pair_views(m@).take(i as int) =~= pair_views(m@));
    }

    fn vector_text_of(i: usize, v: &TestVector) -> (r: String)
        requires
            i < usize::MAX,
        ensures
            r@ == vector_text(i as nat, *v),
    {
        let mut out = String::new();
        let num = decimal(i + 1);
        match &v.description {
            Some(d) => {
                out.append("    -- Test ");
                out.append(num.as_str());
                out.append(": ");
                out.append(d.as_str());
                out.append("\n");
            },
            None => {
                out.append("    -- Test vector ");
                out.append(num.as_str());
                out.append("\n");
            },
        }
        assert(out@ =~= vector_heading(i as nat, *v));
        Self::append_inputs(&mut out, &v.inputs);
        let time = decimal(v.time_ns as usize);
        out.append("    wait for ");
        out.append(time.as_str());
        out.append(" ns;\n");
        let ghost mid = out@;
        match &v.expected_outputs {
            Some(e) => {
                Self::append_checks(&mut out, e);
            },
            None => {
                assert(out@ =~= mid + Seq::<char>::empty());
            },
        }
        out.append("\n");
        assert(out@ =~= vector_text(i as nat, *v));
        out
    }

    fn append_vectors(out: &mut String, vs: &Vec<TestVector>)
        ensures
            final(out)@ == old(out)@ + vectors_text(vs@),
    {
        let mut i: usize = 0;
        assert(vs@.take(0) =~= Seq::<TestVector>::empty());
        assert(out@ =~= old(out)@ + vectors_text(vs@.take(0)));
        while i < vs.len()
            invariant
                i <= vs@.len(),
                out@ == old(out)@ + vectors_text(vs@.take(i as int)),
            decreases vs@.len() - i,
        {
            let ghost t = vs@.take(i + 1);
            assert(t.drop_last() =~= vs@.take(i as int));
            assert(t.last() == vs@[i as int]);
            let text = Self::vector_text_of(i, &vs[i]);
            out.append(text.as_str());
            i = i + 1;
            assert(out@ =~= old(out)@ + vectors_text(vs@.take(i as int)));
        }
        assert(vs@.take(i as int) =~= vs@);
    }

    /// The stimulus process body.
    pub fn generate_stimulus_process(ports: &Vec<VhdlPort>, config: Option<&TestbenchConfig>) -> (r: String)
        ensures
            r@ == stimulus_text(ports@, config),
    {
        let reset: u32 = match config {
            Some(c) => match c.reset_duration_ns {
                Some(d) => d,
                None => 100,
            },
            None => 100,
        };
        let mut out = String::new();
        out.append("    -- Reset sequence\n    tb_rst <= '1';\n    wait for ");
        let rd = decimal(reset as usize);
        out.append(rd.as_str());
        out.append(" ns;\n    tb_rst <= '0';\n    wait for 20 ns;\n\n");
        let ghost head = out@;
        match config {
            Some(c) => match &c.test_vectors {
                Some(vs) => {
                    out.append("    -- Test vectors\n");
                    Self::append_vectors(&mut out, vs);
                },
                None => {
                    let t = Self::generate_basic_stack_test(ports);
                    out.append(t.as_str());
                },
            },
            None => {
                let t = Self::generate_basic_test(ports);
                out.append(t.as_str());
            },
        }
        out.append("    -- End of test\n    report \"Test completed\" severity note;\n");
        assert(out@ =~= stimulus_text(ports@, config));
        out
    }

    /// The basic stack exercise: a push of one word, then a pop.
    pub fn generate_basic_stack_test(_ports: &Vec<VhdlPort>) -> (r: String)
        ensures
            r@ == STACK_TEST@,
    {
        String::from_str(STACK_TEST)
    }

    /// The default exercise: each bit or vector input other than `clk` and
    /// `rst` driven high, then low, with a wait after each step.
    pub fn generate_basic_test(ports: &Vec<VhdlPort>) -> (r: String)
        ensures
            r@ == basic_test_text(ports@),
    {
        let mut out = String::new();
        out.append("    -- Basic stimulus\n");
        let ghost head = out@;
        let mut i: usize = 0;
        assert(ports@.take(0) =~= Seq::<VhdlPort>::empty());
        assert(out@ =~= head + basic_steps(ports@.take(0)));
        while i < ports.len()
            invariant
                head == "    -- Basic stimulus\n"@,
                i <= ports@.len(),
                out@ == head + basic_steps(ports@.take(i as int)),
            decreases ports@.len() - i,
        {
            let ghost t = ports@.take(i + 1);
            assert(t.drop_last() =~= ports@.take(i as int));
            assert(t.last() == ports@[i as int]);
            let ghost before = out@;
            let p = &ports[i];
            if same_text(p.direction.as_str(), "in") && !same_text(p.name.as_str(), "clk") && !same_text(
                p.name.as_str(),
                "rst",
            ) {
                let up = uppercase(p.signal_type.as_str());
                if same_text(up.as_str(), "STD_LOGIC") {
                    out.append("    tb_");
                    out.append(p.name.as_str());
                    out.append(" <= '1';\n");
                    out.append("    wait for 20 ns;\n");
                    out.append("    tb_");
                    out.append(p.name.as_str());
                    out.append(" <= '0';\n");
                    out.append("    wait for 20 ns;\n");
                } else if same_text(up.as_str(), "STD_LOGIC_VECTOR") {
                    out.append("    tb_");
                    out.append(p.name.as_str());
                    out.append(" <= (others => '1');\n");
                    out.append("    wait for 20 ns;\n");
                    out.append("    tb_");
                    out.append(p.name.as_str());
                    out.append(" <= (others => '0');\n");
                    out.append("    wait for 20 ns;\n");
                }
            }
            assert(out@ =~= before + basic_step(*p));
            i = i + 1;
            assert(out@ =~= head + basic_steps(ports@.take(i as int)));
        }
        assert(ports@.take(i as int) =~= ports@);
        out.append("\n");
        out
    }
}

} // verus!
