//! Writing a graph out and compiling the text again.
//!
//! A graph holds the labels of its nodes, not their identifiers, so a text
//! for it is written with a list of identifiers, one for each node. Written
//! with the identifiers it was compiled from, a graph compiles to itself.

use vstd::prelude::*;
use crate::builder::{
    compile, graph_of_state, known, lemma_first_error_is, lemma_position, lemma_position_is,
    lemma_position_push, mention, position, state_after, step, BuildState,
};
use crate::grammar::{classify, skip_spaces};
use crate::laws::{lemma_edge_text_is_line, lemma_node_text_is_line};
use crate::lines::{
    is_line, join_lines, lemma_lines_are_lines, lemma_lines_of_join, lines_of, strip_cr,
};
use crate::model::{EdgeView, GraphView, LineErrorView, LineView};
use crate::notation::{
    edge_text, free_of, is_identifier, law_edge_line, law_node_line, lemma_edge_read,
    lemma_node_read, lemma_part_is_free, lemma_part_of_part, lemma_skip_spaces_part, node_text,
};

verus! {

/// The lines that stand for a graph: `id[label]` for each node, in order, with
/// the identifier that `ids` gives it, then `src --> |label| dest` or
/// `src <--> |label| dest` for each edge, in order.
pub open spec fn written_lines(ids: Seq<Seq<char>>, g: GraphView) -> Seq<Seq<char>> {
    Seq::new(g.nodes.len(), |i: int| node_text(ids[i], g.nodes[i])) + Seq::new(
        g.edges.len(),
        |j: int| edge_text(g.edges[j]),
    )
}

/// The text that stands for a graph: its lines, each ended by a line feed.
pub open spec fn written(ids: Seq<Seq<char>>, g: GraphView) -> Seq<char> {
    join_lines(written_lines(ids, g))
}

/// Whether an edge can be written: its endpoints are among `ids`, and its
/// label holds neither `|` nor a line feed.
pub open spec fn edge_can_be_written(ids: Seq<Seq<char>>, e: EdgeView) -> bool {
    &&& known(ids, e.src)
    &&& known(ids, e.dest)
    &&& free_of(e.desc, '|')
    &&& is_line(e.desc)
}

/// Whether a graph can be written with the identifiers `ids`: there is one
/// identifier for each node, no two are the same, no node label holds `]` or
/// a line feed, and every edge can be written.
pub open spec fn can_be_written(ids: Seq<Seq<char>>, g: GraphView) -> bool {
    &&& ids.len() == g.nodes.len()
    &&& forall|i: int| 0 <= i < ids.len() ==> is_identifier(#[trigger] ids[i])
    &&& forall|i: int, j: int| 0 <= i < j < ids.len() ==> #[trigger] ids[i] != #[trigger] ids[j]
    &&& forall|i: int|
        0 <= i < g.nodes.len() ==> free_of(#[trigger] g.nodes[i], ']') && is_line(g.nodes[i])
    &&& forall|j: int| 0 <= j < g.edges.len() ==> edge_can_be_written(ids, #[trigger] g.edges[j])
}

/// The identifiers of a text, in the order in which they are first seen.
pub open spec fn identifiers(text: Seq<char>) -> Seq<Seq<char>> {
    state_after(lines_of(text), lines_of(text).len() as int).ids
}

/// The graph that the lines of a text build, where none of them is an error.
pub open spec fn graph(text: Seq<char>) -> GraphView {
    graph_of_state(state_after(lines_of(text), lines_of(text).len() as int))
}

/// After the first `n` node lines of a written graph, the first `n`
/// identifiers have their labels.
proof fn lemma_written_nodes(ids: Seq<Seq<char>>, g: GraphView, n: int)
    requires
        can_be_written(ids, g),
        0 <= n <= g.nodes.len(),
    ensures
        state_after(written_lines(ids, g), n) == (BuildState {
            ids: ids.take(n),
            labels: g.nodes.take(n),
            edges: Seq::empty(),
        }),
    decreases n,
{
    let ls = written_lines(ids, g);
    if n == 0 {
        assert(ids.take(0) =~= Seq::<Seq<char>>::empty());
        assert(g.nodes.take(0) =~= Seq::<Seq<char>>::empty());
    } else {
        lemma_written_nodes(ids, g, n - 1);
        let id = ids[n - 1];
        let label = g.nodes[n - 1];
        assert(ls[n - 1] == node_text(id, label));
        law_node_line(id, label);
        let before = ids.take(n - 1);
        assert forall|i: int| 0 <= i < n - 1 implies #[trigger] before[i] != id by {
            assert(before[i] == ids[i]);
        }
        lemma_position_is(before, id, n - 1);
        assert(before.push(id) =~= ids.take(n));
        assert(g.nodes.take(n - 1).push(label) =~= g.nodes.take(n));
    }
}

/// After the node lines and the first `m` edge lines of a written graph, all
/// the nodes are there, and the first `m` edges.
proof fn lemma_written_edges(ids: Seq<Seq<char>>, g: GraphView, m: int)
    requires
        can_be_written(ids, g),
        0 <= m <= g.edges.len(),
    ensures
        state_after(written_lines(ids, g), g.nodes.len() + m) == (BuildState {
            ids,
            labels: g.nodes,
            edges: g.edges.take(m),
        }),
    decreases m,
{
    let ls = written_lines(ids, g);
    let n = g.nodes.len() as int;
    if m == 0 {
        lemma_written_nodes(ids, g, n);
        assert(ids.take(n) =~= ids);
        assert(g.nodes.take(n) =~= g.nodes);
        assert(g.edges.take(0) =~= Seq::<EdgeView>::empty());
    } else {
        lemma_written_edges(ids, g, m - 1);
        let e = g.edges[m - 1];
        assert(ls[n + m - 1] == edge_text(e));
        lemma_written_edge_line(ids, e);
        assert(g.edges.take(m - 1).push(e) =~= g.edges.take(m));
    }
}

/// An edge that can be written is read back from its line.
proof fn lemma_written_edge_line(ids: Seq<Seq<char>>, e: EdgeView)
    requires
        forall|i: int| 0 <= i < ids.len() ==> is_identifier(#[trigger] ids[i]),
        edge_can_be_written(ids, e),
    ensures
        is_identifier(e.src),
        is_identifier(e.dest),
        classify(edge_text(e)) == LineView::Edge(e),
{
    lemma_position(ids, e.src);
    lemma_position(ids, e.dest);
    law_edge_line(e);
}

/// A graph that can be written with `ids` compiles, from the text written
/// for it, to itself, and the identifiers of that text are `ids`.
pub proof fn law_written_graph_is_read_back(ids: Seq<Seq<char>>, g: GraphView)
    requires
        can_be_written(ids, g),
    ensures
        compile(written(ids, g)) == Ok::<GraphView, LineErrorView>(g),
        identifiers(written(ids, g)) == ids,
{
    let ls = written_lines(ids, g);
    let n = g.nodes.len() as int;
    let m = g.edges.len() as int;
    assert forall|i: int| 0 <= i < ls.len() implies is_line(#[trigger] ls[i]) && strip_cr(ls[i])
        == ls[i] && !(classify(ls[i]) is Error) by {
        if i < n {
            assert(ls[i] == node_text(ids[i], g.nodes[i]));
            lemma_node_text_is_line(ids[i], g.nodes[i]);
            law_node_line(ids[i], g.nodes[i]);
        } else {
            let e = g.edges[i - n];
            assert(ls[i] == edge_text(e));
            lemma_written_edge_line(ids, e);
            lemma_edge_text_is_line(e);
        }
    }
    lemma_lines_of_join(ls);
    lemma_first_error_is(ls, ls.len() as int);
    lemma_written_edges(ids, g, m);
    assert(g.edges.take(m) =~= g.edges);
}

/// Appending a new identifier with a label that can be written keeps a state
/// one that can be written.
proof fn lemma_push_keeps(st: BuildState, id: Seq<char>, label: Seq<char>)
    requires
        can_be_written(st.ids, graph_of_state(st)),
        is_identifier(id),
        !known(st.ids, id),
        free_of(label, ']'),
        is_line(label),
    ensures
        can_be_written(
            st.ids.push(id),
            graph_of_state(
                BuildState { ids: st.ids.push(id), labels: st.labels.push(label), ..st },
            ),
        ),
        forall|x: Seq<char>| known(st.ids, x) ==> #[trigger] known(st.ids.push(id), x),
        known(st.ids.push(id), id),
{
    let ids = st.ids.push(id);
    let labels = st.labels.push(label);
    lemma_position(st.ids, id);
    assert forall|i: int, j: int| 0 <= i < j < ids.len() implies #[trigger] ids[i]
        != #[trigger] ids[j] by {
        assert(ids[i] == st.ids[i]);
        if j < st.ids.len() {
            assert(ids[j] == st.ids[j]);
        }
    }
    assert forall|i: int| 0 <= i < labels.len() implies free_of(#[trigger] labels[i], ']')
        && is_line(labels[i]) by {
        if i < st.labels.len() {
            assert(labels[i] == graph_of_state(st).nodes[i]);
        }
    }
    assert forall|x: Seq<char>| known(st.ids, x) implies #[trigger] known(ids, x) by {
        lemma_position_push(st.ids, id, x);
    }
    lemma_position_push(st.ids, id, id);
    assert forall|j: int| 0 <= j < st.edges.len() implies edge_can_be_written(
        ids,
        #[trigger] st.edges[j],
    ) by {
        assert(edge_can_be_written(st.ids, graph_of_state(st).edges[j]));
    }
}

/// Mentioning an identifier keeps a state one that can be written, keeps what
/// is known, and makes the identifier known.
proof fn lemma_mention_keeps(st: BuildState, id: Seq<char>)
    requires
        can_be_written(st.ids, graph_of_state(st)),
        is_identifier(id),
    ensures
        can_be_written(mention(st, id).ids, graph_of_state(mention(st, id))),
        forall|x: Seq<char>| known(st.ids, x) ==> #[trigger] known(mention(st, id).ids, x),
        known(mention(st, id).ids, id),
{
    if !known(st.ids, id) {
        lemma_push_keeps(st, id, Seq::empty());
    }
}

/// One more line keeps a state one that can be written.
proof fn lemma_step_keeps(st: BuildState, l: Seq<char>)
    requires
        can_be_written(st.ids, graph_of_state(st)),
        is_line(l),
    ensures
        can_be_written(step(st, classify(l)).ids, graph_of_state(step(st, classify(l)))),
{
    let t = skip_spaces(l);
    lemma_skip_spaces_part(l);
    let r = step(st, classify(l));
    let g = graph_of_state(st);
    let h = graph_of_state(r);
    match classify(l) {
        LineView::Node(n) => {
            lemma_node_read(t);
            lemma_part_of_part(n.desc, t, l);
            lemma_part_is_free(n.desc, l, '\n');
            if known(st.ids, n.id) {
                assert forall|i: int| 0 <= i < h.nodes.len() implies free_of(
                    #[trigger] h.nodes[i],
                    ']',
                ) && is_line(h.nodes[i]) by {
                    if i != position(st.ids, n.id) {
                        assert(h.nodes[i] == g.nodes[i]);
                    }
                }
                assert forall|j: int| 0 <= j < h.edges.len() implies edge_can_be_written(
                    r.ids,
                    #[trigger] h.edges[j],
                ) by {
                    assert(edge_can_be_written(st.ids, g.edges[j]));
                }
            } else {
                lemma_push_keeps(st, n.id, n.desc);
            }
        },
        LineView::Edge(e) => {
            lemma_edge_read(t);
            lemma_part_of_part(e.desc, t, l);
            lemma_part_is_free(e.desc, l, '\n');
            let a = mention(st, e.src);
            lemma_mention_keeps(st, e.src);
            let b = mention(a, e.dest);
            lemma_mention_keeps(a, e.dest);
            let gb = graph_of_state(b);
            assert(r.ids == b.ids);
            assert(h.nodes == gb.nodes);
            assert forall|i: int| 0 <= i < h.nodes.len() implies free_of(
                #[trigger] h.nodes[i],
                ']',
            ) && is_line(h.nodes[i]) by {
                assert(h.nodes[i] == gb.nodes[i]);
            }
            assert forall|j: int| 0 <= j < h.edges.len() implies edge_can_be_written(
                r.ids,
                #[trigger] h.edges[j],
            ) by {
                if j < b.edges.len() {
                    assert(h.edges[j] == gb.edges[j]);
                    assert(edge_can_be_written(b.ids, gb.edges[j]));
                }
            }
        },
        _ => {},
    }
}

/// After any number of the lines of a text, the state can be written.
proof fn lemma_state_can_be_written(text: Seq<char>, n: int)
    requires
        0 <= n <= lines_of(text).len(),
    ensures
        can_be_written(
            state_after(lines_of(text), n).ids,
            graph_of_state(state_after(lines_of(text), n)),
        ),
    decreases n,
{
    if n > 0 {
        lemma_state_can_be_written(text, n - 1);
        lemma_lines_are_lines(text);
        lemma_step_keeps(state_after(lines_of(text), n - 1), lines_of(text)[n - 1]);
    }
}

/// The graph that a text compiles to can be written with the identifiers of
/// that text.
pub proof fn law_compiled_graph_can_be_written(text: Seq<char>)
    requires
        compile(text) is Ok,
    ensures
        can_be_written(identifiers(text), graph(text)),
{
    lemma_state_can_be_written(text, lines_of(text).len() as int);
}

/// Compiling is idempotent over writing: the graph that a text compiles to,
/// written out with the identifiers of that text, compiles to the same graph,
/// with the same identifiers.
pub proof fn law_round_trip(text: Seq<char>)
    requires
        compile(text) is Ok,
    ensures
        compile(text) == Ok::<GraphView, LineErrorView>(graph(text)),
        compile(written(identifiers(text), graph(text))) == compile(text),
        identifiers(written(identifiers(text), graph(text))) == identifiers(text),
{
    law_compiled_graph_can_be_written(text);
    law_written_graph_is_read_back(identifiers(text), graph(text));
}

} // verus!
