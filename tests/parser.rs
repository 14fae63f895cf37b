use vhdl_tbgen::entity::VhdlParser;
use vhdl_tbgen::normalize::clean_content;
use vhdl_tbgen::scan::ParseError;

#[test]
fn test_parse_stack_entity() {
    let vhdl_content = r#"
        library IEEE;
        use IEEE.std_logic_1164.all;
        entity stack is
          GENERIC (DATA_WIDTH : INTEGER := 32;
                   DEPTH      : INTEGER := 10);
          port (
            clk : in STD_LOGIC;
            rst : in STD_LOGIC;
            push : in STD_LOGIC;
            pop : in STD_LOGIC;
            data_in : in STD_LOGIC_VECTOR(DATA_WIDTH-1 downto 0);
            data_out : out STD_LOGIC_VECTOR(DATA_WIDTH-1 downto 0);
            empty : out STD_LOGIC;
            full : out STD_LOGIC
          );
        end entity stack;
        "#;

    let entity = VhdlParser::parse_content(vhdl_content).unwrap();

    assert_eq!(entity.name, "stack");
    assert_eq!(entity.generics.len(), 2);
    assert_eq!(entity.ports.len(), 8);

    assert_eq!(entity.generics[0].name, "data_width");
    assert_eq!(entity.generics[0].generic_type, "integer");
    assert_eq!(entity.generics[0].default_value, Some("32".to_string()));

    assert_eq!(entity.ports[0].name, "clk");
    assert_eq!(entity.ports[0].direction, "in");
    assert_eq!(entity.ports[0].signal_type, "std_logic");

    let data_in_port = entity.ports.iter().find(|p| p.name == "data_in").unwrap();
    assert_eq!(
        data_in_port.range,
        Some("(data_width-1 downto 0)".to_string())
    );
}

#[test]
fn entity_name_is_lowercased_despite_noise() {
    let src = "-- header comment\n  ENTITY   My_Core\n\t IS -- trailing\n port (a : in bit); end;";
    let e = VhdlParser::parse_content(src).unwrap();
    assert_eq!(e.name, "my_core");
}

#[test]
fn first_entity_clause_wins() {
    let e = VhdlParser::parse_content("entity first is end; entity second is end;").unwrap();
    assert_eq!(e.name, "first");
}

#[test]
fn missing_entity_is_an_error() {
    let r = VhdlParser::parse_content("architecture rtl of x is begin end;");
    assert_eq!(r.unwrap_err(), ParseError::MissingEntity);
}

#[test]
fn unbalanced_port_section_is_an_error() {
    let r = VhdlParser::parse_content("entity e is port (a : in bit; b : out bit_vector(3 downto 0);");
    assert_eq!(r.unwrap_err(), ParseError::Unbalanced);
}

#[test]
fn unbalanced_generic_section_is_an_error() {
    let r = VhdlParser::parse_content("entity e is generic (w : integer := 4; port (a : in bit); end;");
    assert_eq!(r.unwrap_err(), ParseError::Unbalanced);
}

#[test]
fn missing_sections_read_as_empty() {
    let e = VhdlParser::parse_content("entity lonely is end entity;").unwrap();
    assert_eq!(e.name, "lonely");
    assert!(e.generics.is_empty());
    assert!(e.ports.is_empty());
}

#[test]
fn generics_keep_order_and_optional_default() {
    let e = VhdlParser::parse_content("entity g is generic ( a : t1 := d1 ; b : t2 ); end;").unwrap();
    assert_eq!(e.generics.len(), 2);
    assert_eq!(e.generics[0].name, "a");
    assert_eq!(e.generics[0].generic_type, "t1");
    assert_eq!(e.generics[0].default_value, Some("d1".to_string()));
    assert_eq!(e.generics[1].name, "b");
    assert_eq!(e.generics[1].generic_type, "t2");
    assert_eq!(e.generics[1].default_value, None);
}

#[test]
fn nested_range_is_kept_whole() {
    let e = VhdlParser::parse_content(
        "entity n is port ( d : in std_logic_vector(clog2(DEPTH)-1 downto 0); q : out bit ); end;",
    )
    .unwrap();
    assert_eq!(e.ports.len(), 2);
    assert_eq!(e.ports[0].range, Some("(clog2(depth)-1 downto 0)".to_string()));
    assert_eq!(e.ports[1].name, "q");
    assert_eq!(e.ports[1].range, None);
}

#[test]
fn malformed_clause_is_skipped() {
    let e = VhdlParser::parse_content(
        "entity m is port ( a : in bit; this is not a port; b : out bit; c : inout std_logic ); end;",
    )
    .unwrap();
    assert_eq!(e.ports.len(), 3);
    assert_eq!(e.ports[0].name, "a");
    assert_eq!(e.ports[1].name, "b");
    assert_eq!(e.ports[1].direction, "out");
    assert_eq!(e.ports[2].direction, "inout");
}

#[test]
fn direction_keyword_any_case() {
    let e = VhdlParser::parse_content("entity d is port ( X : INOUT Std_Logic ); end;").unwrap();
    assert_eq!(e.ports[0].name, "x");
    assert_eq!(e.ports[0].direction, "inout");
    assert_eq!(e.ports[0].signal_type, "std_logic");
}

#[test]
fn splitter_respects_parentheses() {
    let parts = VhdlParser::split_port_declarations_improved(" a : in t(f(1;2)) ;; b : out u ; ");
    assert_eq!(parts, vec!["a : in t(f(1;2))".to_string(), "b : out u".to_string()]);
}

#[test]
fn splitter_rejoin_is_stable() {
    let first = VhdlParser::split_port_declarations_improved("x : in a; y : out b(3 downto 0);z : in c");
    let joined = first.join(";");
    let second = VhdlParser::split_port_declarations_improved(&joined);
    assert_eq!(first, second);
}

#[test]
fn splitter_on_empty_input() {
    assert!(VhdlParser::split_port_declarations_improved("").is_empty());
    assert!(VhdlParser::split_port_declarations_improved(" ; ;  ").is_empty());
}

#[test]
fn normalizer_strips_comments_and_space() {
    assert_eq!(clean_content("  a  b -- note\n\n c\t--x\r\n d  "), "a b c d");
    assert_eq!(clean_content(""), "");
    assert_eq!(clean_content("-- only a comment"), "");
}

#[test]
fn normalizer_lowercases() {
    assert_eq!(clean_content("Entity  Foo IS -- comment\n  PORT("), "entity foo is port(");
    assert_eq!(clean_content("A"), "a");
}

#[test]
fn unicode_space_is_white_space() {
    assert_eq!(clean_content("a\u{a0}\u{3000}b\u{2028}"), "a b");
    let parts = VhdlParser::split_port_declarations_improved("a\u{a0};\u{2003}b");
    assert_eq!(parts, vec!["a".to_string(), "b".to_string()]);
}

#[test]
fn case_does_not_change_the_parse() {
    let x = VhdlParser::parse_content("entity e is port (a : in t(W)); end;").unwrap();
    let y = VhdlParser::parse_content("ENTITY E IS PORT (A : IN T(w)); END;").unwrap();
    assert_eq!(x.name, y.name);
    assert_eq!(x.ports[0].range, y.ports[0].range);
    assert_eq!(x.ports[0].range, Some("(w)".to_string()));
}

#[test]
fn skipped_clauses_are_reported() {
    let src = "entity m is port ( a : in bit; this is not a port; b : out bit ); end;";
    assert_eq!(VhdlParser::rejected_port_clauses(src).unwrap(), vec!["this is not a port".to_string()]);
    assert!(VhdlParser::rejected_port_clauses("entity m is end;").unwrap().is_empty());
    assert_eq!(VhdlParser::rejected_port_clauses("entity m is port (a : in bit;").unwrap_err(), ParseError::Unbalanced);
}

#[test]
fn splitter_rejoin_with_space_is_stable() {
    let first = VhdlParser::split_port_declarations_improved("x : in a;y : out b(3 downto 0) ; z : in c");
    let second = VhdlParser::split_port_declarations_improved(&first.join("; "));
    assert_eq!(first, second);
}
