use flowgraph::{
    parse_comment, parse_edge, parse_edge_desc, parse_id, parse_line, parse_node, split_lines,
    Builder, ParsedEdge, ParsedLine, ParsedNode,
};

#[test]
fn identifier_is_the_longest_alphanumeric_run() {
    assert_eq!(parse_id("abc123 rest"), Some((" rest", "abc123")));
    assert_eq!(parse_id("21cZ%1"), Some(("%1", "21cZ")));
    assert_eq!(parse_id("a_b"), Some(("_b", "a")));
    assert_eq!(parse_id("whole"), Some(("", "whole")));
    assert_eq!(parse_id(""), None);
    assert_eq!(parse_id("_a"), None);
    assert_eq!(parse_id(" a"), None);
}

#[test]
fn identifier_stops_at_non_ascii_letters() {
    assert_eq!(parse_id("ab\u{e9}c"), Some(("\u{e9}c", "ab")));
    assert_eq!(parse_id("\u{e9}"), None);
}

#[test]
fn node_statement() {
    let (rest, n) = parse_node("a1[some text] tail").unwrap();
    assert_eq!(rest, " tail");
    assert_eq!(n.id, "a1");
    assert_eq!(n.desc, "some text");
    let (rest, n) = parse_node("a[]").unwrap();
    assert_eq!(rest, "");
    assert_eq!((n.id.as_str(), n.desc.as_str()), ("a", ""));
    let (rest, n) = parse_node("a[x]]").unwrap();
    assert_eq!(rest, "]");
    assert_eq!(n.desc, "x");
    let (_, n) = parse_node("a[[x]").unwrap();
    assert_eq!(n.desc, "[x");
}

#[test]
fn node_statement_failures() {
    assert!(parse_node("a [x]").is_none());
    assert!(parse_node("[x]").is_none());
    assert!(parse_node("a[x").is_none());
    assert!(parse_node("a").is_none());
    assert!(parse_node("").is_none());
}

#[test]
fn edge_label() {
    assert_eq!(parse_edge_desc("|go| Y"), Some((" Y", "go")));
    assert_eq!(parse_edge_desc("||"), Some(("", "")));
    assert_eq!(parse_edge_desc("|a|b|"), Some(("b|", "a")));
    assert_eq!(parse_edge_desc("|open"), None);
    assert_eq!(parse_edge_desc("go|"), None);
    assert_eq!(parse_edge_desc(""), None);
}

fn edge_fields(e: &ParsedEdge) -> (&str, &str, bool, &str) {
    (e.src.as_str(), e.dest.as_str(), e.directed, e.desc.as_str())
}

#[test]
fn edge_statement() {
    let (rest, e) = parse_edge("a --> b").unwrap();
    assert_eq!(rest, "");
    assert_eq!(edge_fields(&e), ("a", "b", true, ""));
    let (rest, e) = parse_edge("a<-->b!").unwrap();
    assert_eq!(rest, "!");
    assert_eq!(edge_fields(&e), ("a", "b", false, ""));
    let (_, e) = parse_edge("x1 \t-->\t |l a b e l|  y2").unwrap();
    assert_eq!(edge_fields(&e), ("x1", "y2", true, "l a b e l"));
    let (_, e) = parse_edge("a <--> |d| b").unwrap();
    assert_eq!(edge_fields(&e), ("a", "b", false, "d"));
}

#[test]
fn edge_statement_failures() {
    assert!(parse_edge("a --- b").is_none());
    assert!(parse_edge("a -> b").is_none());
    assert!(parse_edge("a <-- b").is_none());
    assert!(parse_edge("a -->").is_none());
    assert!(parse_edge("--> b").is_none());
    assert!(parse_edge("a --> |open b").is_none());
    assert!(parse_edge("a --> |x| |y| b").is_none());
    assert!(parse_edge("a b").is_none());
    assert!(parse_edge(" a --> b").is_none());
}

#[test]
fn comment_runs_to_the_end_of_the_line() {
    assert_eq!(parse_comment("%% note"), Some(("", " note".to_string())));
    assert_eq!(parse_comment("%%"), Some(("", String::new())));
    assert_eq!(parse_comment("%% one\ntwo"), Some(("\ntwo", " one".to_string())));
    assert_eq!(parse_comment("%%a\rb"), Some(("", "a\rb".to_string())));
    assert_eq!(parse_comment("% note"), None);
    assert_eq!(parse_comment(" %% note"), None);
    assert_eq!(parse_comment(""), None);
}

#[test]
fn line_kinds() {
    assert!(matches!(parse_line(""), ("", ParsedLine::Blank)));
    assert!(matches!(parse_line(" \t "), ("", ParsedLine::Blank)));
    match parse_line("  %% c") {
        ("", ParsedLine::Comment(c)) => assert_eq!(c, " c"),
        _ => panic!("not a comment"),
    }
    match parse_line("\ta[x]y") {
        ("y", ParsedLine::Node(ParsedNode { id, desc })) => {
            assert_eq!(id, "a");
            assert_eq!(desc, "x");
        }
        _ => panic!("not a node"),
    }
    match parse_line(" a --> b") {
        ("", ParsedLine::Edge(e)) => assert_eq!(edge_fields(&e), ("a", "b", true, "")),
        _ => panic!("not an edge"),
    }
    assert!(matches!(parse_line("  ?? "), ("?? ", ParsedLine::Error)));
    assert!(matches!(parse_line("a[unterminated"), ("a[unterminated", ParsedLine::Error)));
}

#[test]
fn node_is_tried_before_edge() {
    match parse_line("a[x] --> b") {
        (" --> b", ParsedLine::Node(n)) => assert_eq!(n.desc, "x"),
        _ => panic!("not a node"),
    }
}

#[test]
fn lines_of_a_text() {
    assert_eq!(split_lines(""), Vec::<&str>::new());
    assert_eq!(split_lines("a"), vec!["a"]);
    assert_eq!(split_lines("a\n"), vec!["a"]);
    assert_eq!(split_lines("a\nb"), vec!["a", "b"]);
    assert_eq!(split_lines("\n"), vec![""]);
    assert_eq!(split_lines("\n\n"), vec!["", ""]);
    assert_eq!(split_lines("a\r\nb\r\n"), vec!["a", "b"]);
    assert_eq!(split_lines("a\rb\r"), vec!["a\rb\r"]);
    assert_eq!(split_lines("a\r\r\nb"), vec!["a\r", "b"]);
    assert_eq!(split_lines("\r\n"), vec![""]);
}

#[test]
fn lines_agree_with_the_standard_library() {
    for text in ["", "a", "a\n", "\n", "a\r\nb", "a\rb\r", "x\n\ny\r\n\r\n", "\r", "\u{e9}\r\n\u{fc}"] {
        assert_eq!(split_lines(text), text.lines().collect::<Vec<_>>());
    }
}

#[test]
fn builder_takes_lines_one_by_one() {
    let mut b = Builder::new();
    assert!(b.add_line(parse_line("a[x]").1));
    assert!(b.add_line(parse_line("").1));
    assert!(b.add_line(parse_line("%% c").1));
    assert!(b.add_line(parse_line("b --> a").1));
    assert!(!b.add_line(parse_line("??").1));
    assert!(b.add_line(parse_line("a[y]").1));
    let g = b.finish();
    assert_eq!(g.nodes, vec!["y".to_string(), String::new()]);
    assert_eq!(g.edges.len(), 1);
    assert_eq!(edge_fields(&g.edges[0]), ("b", "a", true, ""));
}
