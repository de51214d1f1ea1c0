use flowgraph::{parse_graph, Graph, ParsedEdge};
use std::str::FromStr;

fn labels(g: &Graph) -> Vec<&str> {
    g.nodes.iter().map(|s| s.as_str()).collect()
}

fn edge(e: &ParsedEdge) -> (&str, &str, bool, &str) {
    (e.src.as_str(), e.dest.as_str(), e.directed, e.desc.as_str())
}

fn edges(g: &Graph) -> Vec<(&str, &str, bool, &str)> {
    g.edges.iter().map(edge).collect()
}

#[test]
fn two_nodes_and_an_edge() {
    let g = parse_graph("A[Start]\nB[End]\nA --> B\n").unwrap();
    assert_eq!(labels(&g), vec!["Start", "End"]);
    assert_eq!(edges(&g), vec![("A", "B", true, "")]);
}

#[test]
fn edge_creates_its_endpoints() {
    let g = parse_graph("X --> |go| Y\n").unwrap();
    assert_eq!(labels(&g), vec!["", ""]);
    assert_eq!(edges(&g), vec![("X", "Y", true, "go")]);
}

#[test]
fn unparsable_line_is_reported() {
    let e = parse_graph("foo bar\n").unwrap_err();
    assert_eq!(e.line, "foo bar");
    assert_eq!(e.number, 1);
    assert_eq!(e.message(), "Failed to parse line 'foo bar'");
}

#[test]
fn single_node_line() {
    let g = parse_graph("node1[a label, with: punctuation]").unwrap();
    assert_eq!(labels(&g), vec!["a label, with: punctuation"]);
    assert!(g.edges.is_empty());
}

#[test]
fn redeclared_node_keeps_its_index() {
    let g = parse_graph("a[x]\nb[z]\na[y]\n").unwrap();
    assert_eq!(labels(&g), vec!["y", "z"]);
    let g = parse_graph("a[x]\na[y]").unwrap();
    assert_eq!(labels(&g), vec!["y"]);
}

#[test]
fn directed_and_undirected_edges() {
    let g = parse_graph("src --> dest").unwrap();
    assert_eq!(edges(&g), vec![("src", "dest", true, "")]);
    let g = parse_graph("src <--> |d| dest").unwrap();
    assert_eq!(edges(&g), vec![("src", "dest", false, "d")]);
    assert_eq!(labels(&g), vec!["", ""]);
}

#[test]
fn endpoints_are_numbered_source_first() {
    let g = parse_graph("b --> a\na[first]\nb[second]\nc --> b").unwrap();
    assert_eq!(labels(&g), vec!["second", "first", ""]);
    assert_eq!(edges(&g), vec![("b", "a", true, ""), ("c", "b", true, "")]);
}

#[test]
fn self_loop_creates_one_node() {
    let g = parse_graph("a --> a").unwrap();
    assert_eq!(labels(&g), vec![""]);
    assert_eq!(edges(&g), vec![("a", "a", true, "")]);
}

#[test]
fn blank_lines_and_comments_are_skipped() {
    let g = parse_graph("\n   \n\t\n%% a[x]\n  %% ??? --> \n%%\n").unwrap();
    assert!(g.nodes.is_empty());
    assert!(g.edges.is_empty());
    let g = parse_graph("%% header\n\na[x]\n   %% between\na --> b\n\n").unwrap();
    assert_eq!(labels(&g), vec!["x", ""]);
    assert_eq!(edges(&g), vec![("a", "b", true, "")]);
}

#[test]
fn comment_with_a_carriage_return_inside() {
    let g = parse_graph("%% one\rtwo\na[x]").unwrap();
    assert_eq!(labels(&g), vec!["x"]);
}

#[test]
fn empty_input_is_the_empty_graph() {
    let g = parse_graph("").unwrap();
    assert!(g.nodes.is_empty());
    assert!(g.edges.is_empty());
}

#[test]
fn garbage_lines_fail() {
    for bad in ["???", "a --- b", "a[unterminated", "a -->", "--> b", "a --> |open b", "_a[x]"] {
        let e = parse_graph(bad).unwrap_err();
        assert_eq!(e.line, bad);
        assert_eq!(e.number, 1);
    }
}

#[test]
fn first_bad_line_wins() {
    let e = parse_graph("a[x]\n\n  b !! c\nalso bad\n").unwrap_err();
    assert_eq!(e.number, 3);
    assert_eq!(e.line, "  b !! c");
    assert_eq!(e.message(), "Failed to parse line '  b !! c'");
}

#[test]
fn text_after_a_statement_is_ignored() {
    let g = parse_graph("a[x] and more\na --> b ; trailing").unwrap();
    assert_eq!(labels(&g), vec!["x", ""]);
    assert_eq!(edges(&g), vec![("a", "b", true, "")]);
}

#[test]
fn windows_line_endings() {
    let g = parse_graph("a[x]\r\nb[y]\r\na <--> b\r\n").unwrap();
    assert_eq!(labels(&g), vec!["x", "y"]);
    assert_eq!(edges(&g), vec![("a", "b", false, "")]);
    let e = parse_graph("a[x]\r\n??\r\n").unwrap_err();
    assert_eq!(e.number, 2);
    assert_eq!(e.line, "??");
}

#[test]
fn from_str_is_parse_graph() {
    let g = Graph::from_str("A[Start]\nA --> B").unwrap();
    assert_eq!(labels(&g), vec!["Start", ""]);
    assert_eq!(edges(&g), vec![("A", "B", true, "")]);
    let g: Graph = "n[l]".parse().unwrap();
    assert_eq!(labels(&g), vec!["l"]);
    let e = Graph::from_str("a[x]\n!").unwrap_err();
    assert_eq!(e.number, 2);
    assert_eq!(e.line, "!");
}

#[test]
fn edge_label_may_be_empty_or_hold_spaces() {
    let g = parse_graph("a --> || b\na<-->|two words|b").unwrap();
    assert_eq!(
        edges(&g),
        vec![("a", "b", true, ""), ("a", "b", false, "two words")]
    );
}

#[test]
fn writing_a_graph_out_and_parsing_it_again() {
    let first = parse_graph("b --> |x y| a\na[one]\nc[]\nc <--> b\n").unwrap();
    assert_eq!(labels(&first), vec!["", "one", ""]);
    let ids = ["b", "a", "c"];
    let mut text = String::new();
    for (id, label) in ids.iter().zip(first.nodes.iter()) {
        text.push_str(&format!("{}[{}]\n", id, label));
    }
    for e in first.edges.iter() {
        let arrow = if e.directed { "-->" } else { "<-->" };
        text.push_str(&format!("{} {} |{}| {}\n", e.src, arrow, e.desc, e.dest));
    }
    assert_eq!(text, "b[]\na[one]\nc[]\nb --> |x y| a\nc <--> || b\n");
    let second = parse_graph(&text).unwrap();
    assert_eq!(labels(&second), labels(&first));
    assert_eq!(edges(&second), edges(&first));
}

#[test]
fn labels_may_hold_any_other_text() {
    let g = parse_graph("a[h\u{e9}llo w\u{f6}rld \u{1f600}]\na --> |\u{2192} [x] \u{2190}| b\n").unwrap();
    assert_eq!(labels(&g), vec!["h\u{e9}llo w\u{f6}rld \u{1f600}", ""]);
    assert_eq!(edges(&g), vec![("a", "b", true, "\u{2192} [x] \u{2190}")]);
}

#[test]
fn identifiers_are_ascii_and_case_sensitive() {
    let g = parse_graph("a[lower]\nA[upper]\n").unwrap();
    assert_eq!(labels(&g), vec!["lower", "upper"]);
    let e = parse_graph("a[x]\n\u{e9}[y]\n").unwrap_err();
    assert_eq!(e.number, 2);
    assert_eq!(e.line, "\u{e9}[y]");
}

#[test]
fn last_line_keeps_its_carriage_return() {
    let g = parse_graph("a[x]\r").unwrap();
    assert_eq!(labels(&g), vec!["x"]);
    let e = parse_graph("a[x]\n?\r").unwrap_err();
    assert_eq!(e.number, 2);
    assert_eq!(e.line, "?\r");
}

#[test]
fn a_blank_line_put_in_shifts_only_the_line_number() {
    let before = parse_graph("a[x]\n??\n").unwrap_err();
    let after = parse_graph("a[x]\n\t \n??\n").unwrap_err();
    assert_eq!((before.number, before.line.as_str()), (2, "??"));
    assert_eq!((after.number, after.line.as_str()), (3, "??"));
    let later = parse_graph("a[x]\n??\n%% c\n").unwrap_err();
    assert_eq!((later.number, later.line.as_str()), (2, "??"));
}

#[test]
fn many_lines() {
    let mut text = String::new();
    for i in 0..2000 {
        text.push_str(&format!("n{}[label {}]\n", i, i));
    }
    for i in 1..2000 {
        text.push_str(&format!("n{} --> n{}\n", i - 1, i));
    }
    let g = parse_graph(&text).unwrap();
    assert_eq!(g.nodes.len(), 2000);
    assert_eq!(g.edges.len(), 1999);
    assert_eq!(g.nodes[1999], "label 1999");
    assert_eq!(edge(&g.edges[1998]), ("n1998", "n1999", true, ""));
}
