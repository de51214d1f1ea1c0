//! The data the compiler produces, and the mathematical view of each type.

use vstd::prelude::*;
use vstd::string::StringExecFns;

verus! {

/// A node declaration: an identifier and its label.
#[derive(Debug)]
pub struct ParsedNode {
    pub id: String,
    pub desc: String,
}

/// What a [`ParsedNode`] holds, as sequences of characters.
pub struct NodeView {
    pub id: Seq<char>,
    pub desc: Seq<char>,
}

impl View for ParsedNode {
    type V = NodeView;

    open spec fn view(&self) -> NodeView {
        NodeView { id: self.id@, desc: self.desc@ }
    }
}

/// An edge declaration: two identifiers, whether the edge is directed, and a
/// label (empty where the line gives none).
#[derive(Debug)]
pub struct ParsedEdge {
    pub src: String,
    pub dest: String,
    pub directed: bool,
    pub desc: String,
}

/// What a [`ParsedEdge`] holds, as sequences of characters.
pub struct EdgeView {
    pub src: Seq<char>,
    pub dest: Seq<char>,
    pub directed: bool,
    pub desc: Seq<char>,
}

impl View for ParsedEdge {
    type V = EdgeView;

    open spec fn view(&self) -> EdgeView {
        EdgeView { src: self.src@, dest: self.dest@, directed: self.directed, desc: self.desc@ }
    }
}

/// One classified line.
pub enum ParsedLine {
    Node(ParsedNode),
    Edge(ParsedEdge),
    Blank,
    Comment(String),
    Error,
}

/// What a [`ParsedLine`] holds, as sequences of characters.
pub enum LineView {
    Node(NodeView),
    Edge(EdgeView),
    Blank,
    Comment(Seq<char>),
    Error,
}

impl View for ParsedLine {
    type V = LineView;

    open spec fn view(&self) -> LineView {
        match self {
            ParsedLine::Node(n) => LineView::Node(n@),
            ParsedLine::Edge(e) => LineView::Edge(e@),
            ParsedLine::Blank => LineView::Blank,
            ParsedLine::Comment(c) => LineView::Comment(c@),
            ParsedLine::Error => LineView::Error,
        }
    }
}

/// The views of a sequence of strings.
pub open spec fn texts(v: Seq<String>) -> Seq<Seq<char>> {
    Seq::new(v.len(), |i: int| v[i]@)
}

/// The views of a sequence of edges.
pub open spec fn edge_views(v: Seq<ParsedEdge>) -> Seq<EdgeView> {
    Seq::new(v.len(), |i: int| v[i]@)
}

/// The finished graph: the node labels, in the order in which the identifiers
/// were first seen, and the edges in source order.
#[derive(Debug)]
pub struct Graph {
    pub nodes: Vec<String>,
    pub edges: Vec<ParsedEdge>,
}

/// What a [`Graph`] holds, as sequences.
pub struct GraphView {
    pub nodes: Seq<Seq<char>>,
    pub edges: Seq<EdgeView>,
}

impl View for Graph {
    type V = GraphView;

    open spec fn view(&self) -> GraphView {
        GraphView {
            nodes: texts(self.nodes@),
            edges: edge_views(self.edges@),
        }
    }
}

/// The one way a parse fails: a line that is neither blank, a comment, a node
/// nor an edge. `number` counts lines from 1; `line` is the line as it stood
/// in the input, without its line ending.
#[derive(Debug)]
pub struct LineError {
    pub number: usize,
    pub line: String,
}

/// What a [`LineError`] holds.
pub struct LineErrorView {
    pub number: nat,
    pub line: Seq<char>,
}

impl View for LineError {
    type V = LineErrorView;

    open spec fn view(&self) -> LineErrorView {
        LineErrorView { number: self.number as nat, line: self.line@ }
    }
}

impl LineError {
    /// The text of [`LineError::message`] for a given line.
    pub open spec fn message_of(line: Seq<char>) -> Seq<char> {
        "Failed to parse line '"@ + line + "'"@
    }

    /// The error as a sentence that quotes the line.
    pub fn message(&self) -> (m: String)
        ensures
            m@ == Self::message_of(self.line@),
    {
        let mut m = "Failed to parse line '".to_owned();
        m.append(self.line.as_str());
        m.append("'");
        m
    }
}

} // verus!
