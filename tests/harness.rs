use vhdl_tbgen::baseline::{generate_baseline_config, generate_vhdl_template};
use vhdl_tbgen::config::{TestVector, TestbenchConfig};
use vhdl_tbgen::entity::VhdlParser;
use vhdl_tbgen::harness::{TestbenchData, TestbenchGenerator};
use vhdl_tbgen::model::{VhdlEntity, VhdlGeneric, VhdlPort};

fn port(name: &str, direction: &str, ty: &str, range: Option<&str>) -> VhdlPort {
    VhdlPort {
        name: name.to_string(),
        direction: direction.to_string(),
        signal_type: ty.to_string(),
        range: range.map(|r| r.to_string()),
    }
}

fn generic(name: &str, default: Option<&str>) -> VhdlGeneric {
    VhdlGeneric {
        name: name.to_string(),
        generic_type: "integer".to_string(),
        default_value: default.map(|d| d.to_string()),
    }
}

fn config_with_generics(pairs: Vec<(&str, &str)>) -> TestbenchConfig {
    TestbenchConfig {
        clock_period_ns: None,
        reset_duration_ns: None,
        test_vectors: None,
        generics: Some(pairs.into_iter().map(|(k, v)| (k.to_string(), v.to_string())).collect()),
    }
}

#[test]
fn test_testbench_generation() {
    let entity = VhdlEntity {
        name: "stack".to_string(),
        generics: vec![VhdlGeneric {
            name: "DATA_WIDTH".to_string(),
            generic_type: "INTEGER".to_string(),
            default_value: Some("32".to_string()),
        }],
        ports: vec![
            VhdlPort {
                name: "clk".to_string(),
                direction: "in".to_string(),
                signal_type: "STD_LOGIC".to_string(),
                range: None,
            },
            VhdlPort {
                name: "data_in".to_string(),
                direction: "in".to_string(),
                signal_type: "STD_LOGIC_VECTOR".to_string(),
                range: Some("(DATA_WIDTH-1 downto 0)".to_string()),
            },
            VhdlPort {
                name: "data_out".to_string(),
                direction: "out".to_string(),
                signal_type: "STD_LOGIC_VECTOR".to_string(),
                range: Some("(DATA_WIDTH-1 downto 0)".to_string()),
            },
        ],
    };

    let config = TestbenchConfig {
        clock_period_ns: Some(10),
        reset_duration_ns: Some(100),
        generics: Some(vec![("DATA_WIDTH".to_string(), "32".to_string())]),
        test_vectors: None,
    };

    let testbench_data = TestbenchGenerator::generate_testbench_data(&entity, Some(&config));

    // Ranges are resolved by substitution only: no arithmetic is evaluated.
    assert!(testbench_data.ports.contains("(32-1 downto 0)"));
    assert!(testbench_data.internal_signals.contains("(32-1 downto 0)"));
}

#[test]
fn override_then_default_then_fallback() {
    let range = "(WIDTH-1 downto 0)";
    let with_default = vec![generic("width", Some("8"))];
    let cfg = config_with_generics(vec![("WIDTH", "16")]);
    assert_eq!(
        TestbenchGenerator::resolve_generic_range(range, &with_default, Some(&cfg)),
        "(16-1 downto 0)"
    );
    assert_eq!(TestbenchGenerator::resolve_generic_range(range, &with_default, None), "(8-1 downto 0)");
    let no_default = vec![generic("width", None)];
    assert_eq!(TestbenchGenerator::resolve_generic_range(range, &no_default, None), "(32-1 downto 0)");
}

#[test]
fn override_by_declared_name_comes_first() {
    let gs = vec![generic("width", Some("8"))];
    let cfg = config_with_generics(vec![("WIDTH", "16"), ("width", "12")]);
    assert_eq!(
        TestbenchGenerator::resolve_generic_range("(width-1 downto 0)", &gs, Some(&cfg)),
        "(12-1 downto 0)"
    );
}

#[test]
fn counter_end_to_end_substitutes_without_evaluating() {
    let src = "entity counter is generic (WIDTH:integer:=4); port (clk:in std_logic; q:out std_logic_vector(WIDTH-1 downto 0)); end;";
    let e = VhdlParser::parse_content(src).unwrap();
    assert_eq!(e.generics.len(), 1);
    assert_eq!(e.generics[0].default_value, Some("4".to_string()));
    let data = TestbenchGenerator::generate_testbench_data(&e, None);
    assert!(data.ports.contains("(4-1 downto 0)"));
    assert!(data.internal_signals.contains("(4-1 downto 0)"));
    assert!(!data.ports.contains("(3 downto 0)"));
    let cfg = config_with_generics(vec![("WIDTH", "4")]);
    let data = TestbenchGenerator::generate_testbench_data(&e, Some(&cfg));
    assert!(data.ports.contains("(4-1 downto 0)"));
}

#[test]
fn ports_block_exact() {
    let ports = vec![port("clk", "in", "std_logic", None), port("q", "out", "std_logic_vector", Some("(7 downto 0)"))];
    let s = TestbenchGenerator::generate_ports_string(&ports, &vec![], None);
    assert_eq!(s, "        clk : IN STD_LOGIC;\n        q : OUT STD_LOGIC_VECTOR(7 downto 0)\n");
    assert_eq!(TestbenchGenerator::generate_ports_string(&vec![], &vec![], None), "");
}

#[test]
fn internal_signals_exact() {
    let ports = vec![port("a", "in", "std_logic", None), port("n", "in", "integer", None), port("v", "out", "std_logic_vector", Some("(1 downto 0)"))];
    let s = TestbenchGenerator::generate_internal_signals(&ports, &vec![], None);
    assert_eq!(
        s,
        "signal tb_a : STD_LOGIC := '0';\nsignal tb_n : INTEGER := 0;\nsignal tb_v : STD_LOGIC_VECTOR(1 downto 0) := (others => '0');\nsignal tb_clk : STD_LOGIC := '0';"
    );
    let with_clock = vec![port("sys_clk", "in", "std_logic", None)];
    assert_eq!(
        TestbenchGenerator::generate_internal_signals(&with_clock, &vec![], None),
        "signal tb_sys_clk : STD_LOGIC := '0';"
    );
}

#[test]
fn port_connections_exact() {
    let ports = vec![port("a", "in", "bit", None), port("b", "out", "bit", None)];
    assert_eq!(TestbenchGenerator::generate_port_connections(&ports), "        a => tb_a,\n        b => tb_b");
    assert_eq!(TestbenchGenerator::generate_port_connections(&vec![]), "");
}

#[test]
fn clock_generation_halves_period() {
    let cfg = TestbenchConfig { clock_period_ns: Some(25), reset_duration_ns: None, test_vectors: None, generics: None };
    assert_eq!(
        TestbenchGenerator::generate_clock_generation(Some(&cfg)),
        "    tb_clk <= '0';\n    wait for 12 ns;\n    tb_clk <= '1';\n    wait for 12 ns;"
    );
    assert!(TestbenchGenerator::generate_clock_generation(None).contains("wait for 5 ns;"));
}

#[test]
fn stimulus_from_vectors() {
    let v = TestVector {
        time_ns: 50,
        inputs: vec![("a".to_string(), "'1'".to_string())],
        expected_outputs: Some(vec![
            ("q".to_string(), "x\"FF\"".to_string()),
            ("r".to_string(), "'0'".to_string()),
        ]),
        description: Some("first".to_string()),
    };
    let w = TestVector { time_ns: 5, inputs: vec![], expected_outputs: None, description: None };
    let cfg = TestbenchConfig { clock_period_ns: None, reset_duration_ns: Some(40), test_vectors: Some(vec![v, w]), generics: None };
    let s = TestbenchGenerator::generate_stimulus_process(&vec![], Some(&cfg));
    let expected = "    -- Reset sequence\n    tb_rst <= '1';\n    wait for 40 ns;\n    tb_rst <= '0';\n    wait for 20 ns;\n\n    -- Test vectors\n    -- Test 1: first\n    tb_a <= '1';\n    wait for 50 ns;\n    assert tb_q = x\"FF\" report \"Expected q = x\"FF\", got \" & to_hstring(tb_q) severity error;\n    assert tb_r = '0' report \"Expected r = '0', got \" & std_logic'image(tb_r) severity error;\n\n    -- Test vector 2\n    wait for 5 ns;\n\n    -- End of test\n    report \"Test completed\" severity note;\n";
    assert_eq!(s, expected);
}

#[test]
fn stimulus_defaults() {
    let ports = vec![port("clk", "in", "std_logic", None), port("en", "in", "std_logic", None), port("d", "in", "std_logic_vector", Some("(3 downto 0)")), port("o", "out", "std_logic", None)];
    let s = TestbenchGenerator::generate_stimulus_process(&ports, None);
    assert!(s.starts_with("    -- Reset sequence\n    tb_rst <= '1';\n    wait for 100 ns;"));
    assert!(s.contains("    -- Basic stimulus\n    tb_en <= '1';\n    wait for 20 ns;\n    tb_en <= '0';\n    wait for 20 ns;\n    tb_d <= (others => '1');\n"));
    assert!(!s.contains("tb_clk <="));
    assert!(!s.contains("tb_o <="));
    let cfg = TestbenchConfig { clock_period_ns: None, reset_duration_ns: None, test_vectors: None, generics: None };
    let s = TestbenchGenerator::generate_stimulus_process(&ports, Some(&cfg));
    assert!(s.contains("    -- Basic stack test\n"));
    assert_eq!(TestbenchGenerator::generate_basic_stack_test(&ports).matches("wait for 20 ns;").count(), 4);
}

#[test]
fn template_placeholders_are_filled() {
    let d = TestbenchData {
        component_name: "top".to_string(),
        ports: "P".to_string(),
        internal_signals: "S".to_string(),
        port_connections: "C".to_string(),
        clk_gen: "K".to_string(),
        stim_proc: "T".to_string(),
    };
    let t = "{component_name}_tb {ports}|{internal_signals}|{port_connections}|{clk_gen}|{stim_proc}|{component_name}|{other}";
    assert_eq!(d.apply_to_template(t), "top_tb P|S|C|K|T|top|{other}");
}

#[test]
fn baseline_config_samples() {
    let e = VhdlEntity {
        name: "b".to_string(),
        generics: vec![generic("w", Some("8")), generic("n", None)],
        ports: vec![port("a", "in", "std_logic", None), port("q", "out", "std_logic_vector", Some("(7 downto 0)"))],
    };
    let c = generate_baseline_config(&e);
    assert_eq!(c.clock_period_ns, Some(10));
    assert_eq!(c.reset_duration_ns, Some(100));
    let vs = c.test_vectors.unwrap();
    assert_eq!(vs.len(), 1);
    assert_eq!(vs[0].time_ns, 100);
    assert_eq!(vs[0].inputs, vec![("a".to_string(), "0".to_string())]);
    assert_eq!(vs[0].expected_outputs, Some(vec![("q".to_string(), "\"00000000\"".to_string())]));
    assert_eq!(vs[0].description, Some("Sample test case - modify as needed".to_string()));
    assert_eq!(c.generics, Some(vec![("w".to_string(), "8".to_string())]));
}

#[test]
fn baseline_config_without_defaults() {
    let e = VhdlEntity {
        name: "b".to_string(),
        generics: vec![generic("n", None)],
        ports: vec![port("v", "in", "std_logic_vector", None), port("v", "in", "std_logic", None)],
    };
    let c = generate_baseline_config(&e);
    assert_eq!(c.generics, None);
    assert_eq!(c.test_vectors.unwrap()[0].inputs, vec![("v".to_string(), "0".to_string())]);
}

#[test]
fn skeleton_names_entity() {
    let t = generate_vhdl_template("blinky");
    assert!(t.contains("-- Entity: blinky\n"));
    assert!(t.contains("entity blinky is\n"));
    assert!(t.contains("end entity blinky;"));
    assert!(t.contains("architecture RTL of blinky is"));
    assert!(!t.contains("{entity_name}"));
}

#[test]
fn substitute_generic_replaces_both_spellings() {
    assert_eq!(
        TestbenchGenerator::substitute_generic("(DEPTH*depth-1 downto 0)", "DEPTH", "depth", "4"),
        "(4*4-1 downto 0)"
    );
    assert_eq!(TestbenchGenerator::substitute_generic("(7 downto 0)", "X", "x", "9"), "(7 downto 0)");
    // Substitution is textual: a name that occurs inside a keyword is replaced there too.
    assert_eq!(TestbenchGenerator::substitute_generic("(7 downto 0)", "W", "w", "9"), "(7 do9nto 0)");
}

#[test]
fn initial_values_by_type() {
    assert_eq!(TestbenchGenerator::init_for("STD_LOGIC"), " := '0'");
    assert_eq!(TestbenchGenerator::init_for("STD_LOGIC_VECTOR"), " := (others => '0')");
    assert_eq!(TestbenchGenerator::init_for("INTEGER"), " := 0");
    assert_eq!(TestbenchGenerator::init_for("SIGNED"), " := '0'");
}
