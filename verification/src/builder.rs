//! The graph builder: a fold over the classified lines of a text.
//!
//! The builder owns the list of node labels, the list of edges and the
//! identifier table. An identifier gets the next free index when it is first
//! seen, in a node or in an edge, and keeps it.

use vstd::prelude::*;
use rustc_hash::FxHashMap;
use crate::grammar::classify;
use crate::lines::{lines_of, split_lines, texts_of};
use crate::model::{
    edge_views, texts, EdgeView, Graph, GraphView, LineError, LineErrorView, LineView,
    ParsedEdge, ParsedLine,
};
use crate::parse::parse_line;
use crate::table::{table_entries, table_get, table_insert, table_new};

verus! {

/// The state of the fold: the identifiers in the order in which they were
/// first seen, the label of each, and the edges so far.
pub struct BuildState {
    pub ids: Seq<Seq<char>>,
    pub labels: Seq<Seq<char>>,
    pub edges: Seq<EdgeView>,
}

/// The state before the first line.
pub open spec fn initial() -> BuildState {
    BuildState { ids: Seq::empty(), labels: Seq::empty(), edges: Seq::empty() }
}

/// The index of `id`: the position of its first occurrence in `ids`, or
/// `ids.len()` where it does not occur.
pub open spec fn position(ids: Seq<Seq<char>>, id: Seq<char>) -> nat
    decreases ids.len(),
{
    if ids.len() > 0 && ids[0] != id {
        1 + position(ids.skip(1), id)
    } else {
        0
    }
}

/// Whether `id` has an index.
pub open spec fn known(ids: Seq<Seq<char>>, id: Seq<char>) -> bool {
    position(ids, id) < ids.len()
}

/// A node declaration: a known identifier gets the new label at its index; a
/// new one gets the next index and the label.
pub open spec fn declare(st: BuildState, id: Seq<char>, label: Seq<char>) -> BuildState {
    if known(st.ids, id) {
        BuildState { labels: st.labels.update(position(st.ids, id) as int, label), ..st }
    } else {
        BuildState { ids: st.ids.push(id), labels: st.labels.push(label), ..st }
    }
}

/// An identifier named by an edge: a new one gets the next index and an empty
/// label.
pub open spec fn mention(st: BuildState, id: Seq<char>) -> BuildState {
    if known(st.ids, id) {
        st
    } else {
        BuildState { ids: st.ids.push(id), labels: st.labels.push(Seq::empty()), ..st }
    }
}

/// An edge declaration: its source, then its destination, is mentioned, and
/// the edge is appended.
pub open spec fn connect(st: BuildState, e: EdgeView) -> BuildState {
    let named = mention(mention(st, e.src), e.dest);
    BuildState { edges: named.edges.push(e), ..named }
}

/// The state after one more line. Blank lines and comments change nothing,
/// and neither does an error, at which the fold stops.
pub open spec fn step(st: BuildState, l: LineView) -> BuildState {
    match l {
        LineView::Node(n) => declare(st, n.id, n.desc),
        LineView::Edge(e) => connect(st, e),
        _ => st,
    }
}

/// The state after the first `n` of `lines`.
pub open spec fn state_after(lines: Seq<Seq<char>>, n: int) -> BuildState
    decreases n,
{
    if n <= 0 {
        initial()
    } else {
        step(state_after(lines, n - 1), classify(lines[n - 1]))
    }
}

/// The position of the first of `lines` that is an error, or `lines.len()`
/// where none is.
pub open spec fn first_error(lines: Seq<Seq<char>>) -> nat
    decreases lines.len(),
{
    if lines.len() > 0 && !(classify(lines[0]) is Error) {
        1 + first_error(lines.skip(1))
    } else {
        0
    }
}

/// The graph that a state stands for.
pub open spec fn graph_of_state(st: BuildState) -> GraphView {
    GraphView { nodes: st.labels, edges: st.edges }
}

/// What a list of lines compiles to: the first error line, with its number
/// counted from 1, or the graph after all the lines.
pub open spec fn compile_lines(lines: Seq<Seq<char>>) -> Result<GraphView, LineErrorView> {
    let k = first_error(lines) as int;
    if k < lines.len() {
        Err(LineErrorView { number: (k + 1) as nat, line: lines[k] })
    } else {
        Ok(graph_of_state(state_after(lines, lines.len() as int)))
    }
}

/// What a text compiles to.
pub open spec fn compile(text: Seq<char>) -> Result<GraphView, LineErrorView> {
    compile_lines(lines_of(text))
}

/// The view of an outcome of [`parse_graph`].
pub open spec fn outcome(r: Result<Graph, LineError>) -> Result<GraphView, LineErrorView> {
    match r {
        Ok(g) => Ok(g@),
        Err(e) => Err(e@),
    }
}

/// `position(ids, id)` is at most `ids.len()`, `id` does not occur before it,
/// and it is where `id` stands if it is less than `ids.len()`.
pub proof fn lemma_position(ids: Seq<Seq<char>>, id: Seq<char>)
    ensures
        position(ids, id) <= ids.len(),
        forall|i: int| 0 <= i < position(ids, id) ==> #[trigger] ids[i] != id,
        known(ids, id) ==> ids[position(ids, id) as int] == id,
    decreases ids.len(),
{
    if ids.len() > 0 && ids[0] != id {
        let t = ids.skip(1);
        lemma_position(t, id);
        assert forall|i: int| 0 <= i < position(ids, id) implies #[trigger] ids[i] != id by {
            if i > 0 {
                assert(t[i - 1] == ids[i]);
            }
        }
        if known(ids, id) {
            assert(t[position(t, id) as int] == ids[position(t, id) as int + 1]);
        }
    }
}

/// `position(ids, id)` is `n` where `id` does not occur among the first `n`
/// of `ids` and is the next one, if there is a next one.
pub proof fn lemma_position_is(ids: Seq<Seq<char>>, id: Seq<char>, n: int)
    requires
        0 <= n <= ids.len(),
        forall|i: int| 0 <= i < n ==> #[trigger] ids[i] != id,
        n < ids.len() ==> ids[n] == id,
    ensures
        position(ids, id) == n,
    decreases n,
{
    if n > 0 {
        assert(ids[0] != id);
        let t = ids.skip(1);
        assert forall|i: int| 0 <= i < n - 1 implies #[trigger] t[i] != id by {
            assert(t[i] == ids[i + 1]);
        }
        lemma_position_is(t, id, n - 1);
    }
}

/// Appending `new` to `ids` keeps every index, and gives `new` the index
/// `ids.len()` if it had none.
pub proof fn lemma_position_push(ids: Seq<Seq<char>>, new: Seq<char>, id: Seq<char>)
    ensures
        known(ids, id) ==> position(ids.push(new), id) == position(ids, id),
        !known(ids, id) && id == new ==> position(ids.push(new), id) == ids.len(),
        !known(ids, id) && id != new ==> position(ids.push(new), id) == ids.len() + 1,
{
    lemma_position(ids, id);
    let more = ids.push(new);
    let p = position(ids, id) as int;
    if known(ids, id) {
        assert forall|i: int| 0 <= i < p implies #[trigger] more[i] != id by {
            assert(more[i] == ids[i]);
        }
        assert(more[p] == ids[p]);
        lemma_position_is(more, id, p);
    } else if id == new {
        assert forall|i: int| 0 <= i < p implies #[trigger] more[i] != id by {
            assert(more[i] == ids[i]);
        }
        lemma_position_is(more, id, p);
    } else {
        assert forall|i: int| 0 <= i < p + 1 implies #[trigger] more[i] != id by {
            if i < p {
                assert(more[i] == ids[i]);
            }
        }
        lemma_position_is(more, id, p + 1);
    }
}

/// `first_error(lines)` is `n` where none of the first `n` of `lines` is an
/// error and the next one, if any, is.
pub proof fn lemma_first_error_is(lines: Seq<Seq<char>>, n: int)
    requires
        0 <= n <= lines.len(),
        forall|i: int| 0 <= i < n ==> !(classify(#[trigger] lines[i]) is Error),
        n < lines.len() ==> classify(lines[n]) is Error,
    ensures
        first_error(lines) == n,
    decreases n,
{
    if n > 0 {
        assert(!(classify(lines[0]) is Error));
        let t = lines.skip(1);
        assert forall|i: int| 0 <= i < n - 1 implies !(classify(#[trigger] t[i]) is Error) by {
            assert(t[i] == lines[i + 1]);
        }
        lemma_first_error_is(t, n - 1);
    }
}

/// The builder: the labels, the edges and the identifier table of a graph in
/// the making.
pub struct Builder {
    nodes: Vec<String>,
    edges: Vec<ParsedEdge>,
    table: FxHashMap<String, usize>,
    ids: Ghost<Seq<Seq<char>>>,
}

impl View for Builder {
    type V = BuildState;

    closed spec fn view(&self) -> BuildState {
        BuildState { ids: self.ids@, labels: texts(self.nodes@), edges: edge_views(self.edges@) }
    }
}

impl Builder {
    /// The builder's invariant: every identifier has a label, and the table
    /// holds exactly the identifiers, each with its index.
    pub closed spec fn wf(&self) -> bool {
        &&& self.ids@.len() == self.nodes@.len()
        &&& forall|id: Seq<char>| #[trigger]
            table_entries(self.table).contains_key(id) <==> known(self.ids@, id)
        &&& forall|id: Seq<char>| #[trigger]
            table_entries(self.table).contains_key(id) ==> table_entries(self.table)[id]
                == position(self.ids@, id)
    }

    /// A builder that has seen no line.
    pub fn new() -> (b: Builder)
        ensures
            b.wf(),
            b@ == initial(),
    {
        let b = Builder {
            nodes: Vec::new(),
            edges: Vec::new(),
            table: table_new(),
            ids: Ghost(Seq::empty()),
        };
        proof {
            assert(texts(b.nodes@) =~= Seq::<Seq<char>>::empty());
            assert(edge_views(b.edges@) =~= Seq::<EdgeView>::empty());
        }
        b
    }

    /// Gives `id` the next index, with `label`. `id` must be new.
    fn append(&mut self, id: String, label: String)
        requires
            old(self).wf(),
            !known(old(self)@.ids, id@),
        ensures
            final(self).wf(),
            final(self)@ == (BuildState {
                ids: old(self)@.ids.push(id@),
                labels: old(self)@.labels.push(label@),
                ..old(self)@
            }),
    {
        let ghost before = self.ids@;
        let ghost new = id@;
        let index = self.nodes.len();
        table_insert(&mut self.table, id, index);
        self.nodes.push(label);
        self.ids = Ghost(before.push(new));
        proof {
            assert forall|x: Seq<char>|
                #[trigger] table_entries(self.table).contains_key(x) <==> known(
                    self.ids@,
                    x,
                ) by {
                lemma_position_push(before, new, x);
            }
            assert forall|x: Seq<char>| #[trigger]
                table_entries(self.table).contains_key(x) implies table_entries(self.table)[x]
                == position(self.ids@, x) by {
                lemma_position_push(before, new, x);
            }
            assert(texts(self.nodes@) =~= texts(old(self).nodes@).push(label@));
        }
    }

    /// Declares the node `id` with `label`.
    fn declare(&mut self, id: String, label: String)
        requires
            old(self).wf(),
        ensures
            final(self).wf(),
            final(self)@ == declare(old(self)@, id@, label@),
    {
        match table_get(&self.table, &id) {
            Some(index) => {
                self.nodes.set(index, label);
                proof {
                    assert(texts(self.nodes@) =~= texts(old(self).nodes@).update(
                        index as int,
                        label@,
                    ));
                }
            },
            None => {
                self.append(id, label);
            },
        }
    }

    /// Makes sure that `id`, named by an edge, has an index.
    fn mention(&mut self, id: &String)
        requires
            old(self).wf(),
        ensures
            final(self).wf(),
            final(self)@ == mention(old(self)@, id@),
    {
        if table_get(&self.table, id).is_none() {
            self.append(id.clone(), String::new());
        }
    }

    /// Takes in one classified line. Returns `false`, and changes nothing,
    /// where the line is an error.
    pub fn add_line(&mut self, l: ParsedLine) -> (accepted: bool)
        requires
            old(self).wf(),
        ensures
            final(self).wf(),
            final(self)@ == step(old(self)@, l@),
            accepted == !(l@ is Error),
    {
        match l {
            ParsedLine::Node(n) => {
                self.declare(n.id, n.desc);
                true
            },
            ParsedLine::Edge(e) => {
                self.mention(&e.src);
                self.mention(&e.dest);
                let ghost before = self.edges@;
                let ghost added = e@;
                self.edges.push(e);
                proof {
                    assert(edge_views(self.edges@) =~= edge_views(before).push(added));
                }
                true
            },
            ParsedLine::Blank => true,
            ParsedLine::Comment(_) => true,
            ParsedLine::Error => false,
        }
    }

    /// The graph that was built.
    pub fn finish(self) -> (g: Graph)
        requires
            self.wf(),
        ensures
            g@ == graph_of_state(self@),
    {
        Graph { nodes: self.nodes, edges: self.edges }
    }
}

/// Compiles `input` to a graph. The lines are taken in one after the other;
/// the first one that is neither blank, a comment, a node nor an edge ends
/// the parse with an error that holds that line and its number.
pub fn parse_graph(input: &str) -> (r: Result<Graph, LineError>)
    ensures
        outcome(r) == compile(input@),
{
    let lines = split_lines(input);
    let ghost ls = lines_of(input@);
    let mut builder = Builder::new();
    let mut i: usize = 0;
    while i < lines.len()
        invariant
            i <= lines.len(),
            ls == lines_of(input@),
            texts_of(lines@) == ls,
            builder.wf(),
            builder@ == state_after(ls, i as int),
            forall|j: int| 0 <= j < i ==> !(classify(#[trigger] ls[j]) is Error),
        decreases lines.len() - i,
    {
        let text = lines[i];
        proof {
            assert(ls[i as int] == text@);
        }
        let (_, found) = parse_line(text);
        if !builder.add_line(found) {
            proof {
                lemma_first_error_is(ls, i as int);
            }
            return Err(LineError { number: i + 1, line: text.to_owned() });
        }
        i += 1;
    }
    proof {
        lemma_first_error_is(ls, ls.len() as int);
    }
    Ok(builder.finish())
}

impl std::str::FromStr for Graph {
    type Err = LineError;

    /// Compiles `s` to a graph, as [`parse_graph`] does.
    fn from_str(s: &str) -> (r: Result<Graph, LineError>)
        ensures
            outcome(r) == compile(s@),
    {
        parse_graph(s)
    }
}

} // verus!
