use regex::graph::{Condition, Edge, Graph, Node, State};
use regex::parser::{decimal_string, parse, ParseErrorKind, ParserError, Reserved};
use regex::regex::Regex;

fn compile(pattern: &str) -> Regex {
    match Regex::new(pattern) {
        Ok(r) => r,
        Err(e) => panic!("pattern {} refused: {}", pattern, e.message()),
    }
}

fn refusal(pattern: &str) -> ParserError {
    match Regex::new(pattern) {
        Ok(_) => panic!("pattern {} accepted", pattern),
        Err(e) => e,
    }
}

#[test]
fn literal_matching() {
    let r = compile("string");
    assert_eq!(r.test("string"), Some(6));
    assert_eq!(r.test("strong"), None);
}

#[test]
fn literal_matches_a_prefix_only() {
    let r = compile("str");
    assert_eq!(r.test("string"), Some(3));
    assert_eq!(r.test("st"), None);
    assert_eq!(r.test(""), None);
}

#[test]
fn wildcard_matching() {
    let r = compile("str.ng");
    assert_eq!(r.test("string"), Some(6));
    assert_eq!(r.test("strong"), Some(6));
    assert_eq!(r.test("spring"), None);
}

#[test]
fn wildcard_needs_a_character() {
    let r = compile("a.");
    assert_eq!(r.test("a"), None);
    assert_eq!(r.test("ab"), Some(2));
}

#[test]
fn one_or_more() {
    let r = compile("Bana+na");
    assert_eq!(r.test("Banana"), Some(6));
    assert_eq!(r.test("Banaaaana"), Some(9));
    assert_eq!(r.test("Banna"), None);
}

#[test]
fn zero_or_more_preference_order() {
    let r = compile("Bana*na");
    assert_eq!(r.test("Banna"), Some(5));
    assert_eq!(r.test("Banana"), Some(6));
    assert_eq!(r.test("Banaaaana"), Some(9));
}

#[test]
fn alternation() {
    let r = compile("Paris|London");
    assert_eq!(r.test("London"), Some(6));
    assert_eq!(r.test("Paris"), Some(5));
    assert_eq!(r.test("Berlin"), None);
}

#[test]
fn alternation_with_empty_branch() {
    let r = compile("a|");
    // the empty branch's transition is pushed last, so it is tried first
    assert_eq!(r.test("a"), Some(0));
    assert_eq!(r.test("b"), Some(0));
}

#[test]
fn nested_grouping_and_quantifier() {
    let r = compile("P(ar+(is)*)*");
    assert_eq!(r.test("Paris"), Some(5));
}

#[test]
fn empty_pattern_accepts_at_zero() {
    let r = compile("");
    assert_eq!(r.test(""), Some(0));
    assert_eq!(r.test("anything"), Some(0));
}

#[test]
fn empty_group_is_accepted() {
    let r = compile("a()b");
    assert_eq!(r.test("ab"), Some(2));
}

#[test]
fn nested_stars_terminate() {
    let r = compile("(a*)*");
    assert_eq!(r.test("b"), Some(0));
    let s = compile("(a*)*b");
    assert_eq!(s.test("aaab"), Some(4));
    assert_eq!(s.test("aaac"), None);
}

#[test]
fn input_is_read_as_code_points() {
    let r = compile("é+x");
    assert_eq!(r.test("ééx"), Some(3));
    let any = compile("..");
    assert_eq!(any.test("日本"), Some(2));
}

#[test]
fn parse_failure_unclosed_group() {
    let e = refusal("(unclosed");
    assert_eq!(e.kind, ParseErrorKind::MissingClose);
    assert_eq!(e.position, 9);
    assert!(Regex::new("(unclosed").is_err());
}

#[test]
fn parse_failure_stray_close() {
    let e = refusal("a|)");
    assert_eq!(e.kind, ParseErrorKind::UnexpectedSymbol(Reserved::Close));
    assert_eq!(e.position, 2);
    let f = refusal("ab)c");
    assert_eq!(f.kind, ParseErrorKind::UnexpectedSymbol(Reserved::Close));
    assert_eq!(f.position, 2);
}

#[test]
fn parse_failure_reserved_literal() {
    let e = refusal("*a");
    assert_eq!(e.kind, ParseErrorKind::UnexpectedSymbol(Reserved::Star));
    assert_eq!(e.position, 0);
    let f = refusal("a**");
    assert_eq!(f.kind, ParseErrorKind::UnexpectedSymbol(Reserved::Star));
    assert_eq!(f.position, 2);
    let g = refusal("a]");
    assert_eq!(g.kind, ParseErrorKind::UnexpectedSymbol(Reserved::RBracket));
    assert_eq!(g.position, 1);
}

#[test]
fn parse_failure_unsupported_syntax() {
    for (pattern, position) in [
        ("a?", 1usize),
        ("a{2}", 1),
        ("\\d", 0),
        ("[ab]", 0),
        ("^a", 0),
        ("a$", 1),
        ("(?:a)", 0),
    ] {
        let e = refusal(pattern);
        assert_eq!(e.kind, ParseErrorKind::Unsupported, "{}", pattern);
        assert_eq!(e.position, position, "{}", pattern);
    }
}

#[test]
fn error_messages() {
    assert_eq!(refusal("(").message(), "ParsingError: Expected ')'");
    assert_eq!(
        refusal(")").message(),
        "ParsingError: Unexpected symbol ')' (U+41) encountered"
    );
    assert_eq!(
        refusal("a|}").message(),
        "ParsingError: Unexpected symbol '}' (U+125) encountered"
    );
    assert_eq!(refusal("a?").message(), "ParsingError: Unsupported syntax");
    assert_eq!(refusal("(").description(), "Expected ')'");
    let end = ParserError::new(ParseErrorKind::UnexpectedEnd, 3);
    assert_eq!(end.message(), "ParsingError: Pattern ended unexpectedly");
}

#[test]
fn compiling_twice_gives_independent_equal_matchers() {
    let a = compile("Ba(na*)*na|x+");
    let b = compile("Ba(na*)*na|x+");
    for input in ["Banaananaaa", "Banbna", "xxx", "", "Bana"] {
        assert_eq!(a.test(input), b.test(input));
    }
    drop(a);
    assert_eq!(b.test("Bana"), Some(4));
}

#[test]
fn edge_traversal() {
    let data: Vec<u32> = vec![97, 98];
    let at0 = State { node: 0, pos: 0 };
    let at2 = State { node: 0, pos: 2 };
    let eps = Edge::new(3, Condition::Epsilon);
    assert_eq!(eps.try_traverse(&data, &at2), Some(State { node: 3, pos: 2 }));
    let ch = Edge::new(1, Condition::Character(97));
    assert_eq!(ch.try_traverse(&data, &at0), Some(State { node: 1, pos: 1 }));
    assert_eq!(ch.try_traverse(&data, &State { node: 0, pos: 1 }), None);
    assert_eq!(ch.try_traverse(&data, &at2), None);
    let any = Edge::new(2, Condition::AnyCharacter);
    assert_eq!(any.try_traverse(&data, &State { node: 0, pos: 1 }), Some(State { node: 2, pos: 2 }));
    assert_eq!(any.try_traverse(&data, &at2), None);
}

#[test]
fn edge_traversal_past_the_end() {
    let data: Vec<u32> = vec![97];
    let far = State { node: 0, pos: 5 };
    assert_eq!(Edge::new(1, Condition::Epsilon).try_traverse(&data, &far), Some(State { node: 1, pos: 5 }));
    assert_eq!(Edge::new(1, Condition::Character(97)).try_traverse(&data, &far), None);
    assert_eq!(Edge::new(1, Condition::AnyCharacter).try_traverse(&data, &far), None);
}

#[test]
fn decimal_rendering() {
    assert_eq!(decimal_string(0), "0");
    assert_eq!(decimal_string(7), "7");
    assert_eq!(decimal_string(42), "42");
    assert_eq!(decimal_string(1000), "1000");
    assert_eq!(decimal_string(4294967295), "4294967295");
}

#[test]
fn reserved_characters() {
    assert_eq!(Reserved::Pipe.code_point(), 124);
    assert_eq!(Reserved::Pipe.text(), "|");
    assert_eq!(Reserved::Backslash.code_point(), 92);
    assert_eq!(Reserved::Backslash.text(), "\\");
}

#[test]
fn node_edge_order() {
    let mut n = Node::new(4);
    assert!(n.is_empty());
    n.push_edge(Edge::new(1, Condition::Epsilon));
    n.push_edge(Edge::new(2, Condition::Epsilon));
    n.add_edge(0, Edge::new(3, Condition::AnyCharacter));
    let tos: Vec<usize> = n.get_edges().iter().map(|e| e.to).collect();
    assert_eq!(tos, vec![3, 1, 2]);
    assert!(!n.is_empty());
    assert_eq!(n.id, 4);
}

#[test]
fn graph_building() {
    let mut g = Graph::new();
    assert_eq!(g.add_node(), 0);
    assert_eq!(g.add_node(), 1);
    g.push_edge(0, Edge::new(1, Condition::Character(120)));
    g.add_edge(0, 0, Edge::new(1, Condition::Epsilon));
    g.set_start_node(0);
    assert_eq!(g.get_start_node(), 0);
    assert_eq!(g.node_count(), 2);
    let first = g.get_node(0).get_edges()[0];
    assert_eq!(first.condition, Condition::Epsilon);
    assert_eq!(g.get_node(1).id, 1);
}

#[test]
fn parse_builds_star_with_skip_first() {
    let g = parse("a*").unwrap();
    // start node 0: skip to the exit first, then the literal
    let start = g.get_start_node();
    assert_eq!(start, 0);
    let edges = g.get_node(0).get_edges();
    assert_eq!(edges.len(), 2);
    assert_eq!(edges[0].condition, Condition::Epsilon);
    assert_eq!(edges[1].condition, Condition::Character(97));
    assert_eq!(g.node_count(), 4);
}
