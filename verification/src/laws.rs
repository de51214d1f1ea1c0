//! What holds of every text: the laws of the compiler, each proved from the
//! spec functions that the contracts of the executable functions use.

use vstd::prelude::*;
use crate::builder::{
    compile, compile_lines, connect, declare, first_error, graph_of_state, initial, known,
    lemma_first_error_is, lemma_position, lemma_position_is, lemma_position_push, mention,
    position, state_after, step, BuildState,
};
use crate::grammar::{classify, comment, edge, node, skip_spaces};
use crate::lines::{is_line, lemma_lines_of_cons, lemma_lines_of_one, lines_of, strip_cr};
use crate::model::{EdgeView, GraphView, LineErrorView};
use crate::notation::{
    arrow_text, edge_text, free_of, is_identifier, law_edge_line, law_node_line,
    law_plain_edge_line, node_text, plain_edge_text,
};

verus! {

/// A line is an error exactly where it is not blank after its leading
/// whitespace and is neither a comment, a node nor an edge.
pub proof fn law_error_line(l: Seq<char>)
    ensures
        classify(l) is Error <==> {
            &&& skip_spaces(l).len() > 0
            &&& comment(skip_spaces(l)) is None
            &&& node(skip_spaces(l)) is None
            &&& edge(skip_spaces(l)) is None
        },
{
}

/// `first_error(lines)` is at most `lines.len()`, no line before it is an
/// error, and the line there is one if there is a line there.
pub proof fn lemma_first_error(lines: Seq<Seq<char>>)
    ensures
        first_error(lines) <= lines.len(),
        forall|i: int| 0 <= i < first_error(lines) ==> !(classify(#[trigger] lines[i]) is Error),
        first_error(lines) < lines.len() ==> classify(lines[first_error(lines) as int]) is Error,
    decreases lines.len(),
{
    if lines.len() > 0 && !(classify(lines[0]) is Error) {
        let t = lines.skip(1);
        lemma_first_error(t);
        assert forall|i: int| 0 <= i < first_error(lines) implies !(classify(
            #[trigger] lines[i],
        ) is Error) by {
            if i > 0 {
                assert(t[i - 1] == lines[i]);
            }
        }
        if first_error(lines) < lines.len() {
            assert(t[first_error(t) as int] == lines[first_error(t) as int + 1]);
        }
    }
}

/// The lines compile to a graph exactly where none of them is an error.
pub proof fn law_success(lines: Seq<Seq<char>>)
    ensures
        compile_lines(lines) is Ok <==> forall|i: int|
            0 <= i < lines.len() ==> !(classify(#[trigger] lines[i]) is Error),
{
    lemma_first_error(lines);
    if forall|i: int| 0 <= i < lines.len() ==> !(classify(#[trigger] lines[i]) is Error) {
        lemma_first_error_is(lines, lines.len() as int);
    }
}

/// Where the line at position `k` is an error and none before it is, the
/// outcome is the error that holds that line and the number `k + 1`, whatever
/// the lines before and after it are.
pub proof fn law_first_error_wins(lines: Seq<Seq<char>>, k: int)
    requires
        0 <= k < lines.len(),
        classify(lines[k]) is Error,
        forall|i: int| 0 <= i < k ==> !(classify(#[trigger] lines[i]) is Error),
    ensures
        compile_lines(lines) == Err::<GraphView, LineErrorView>(
            LineErrorView { number: (k + 1) as nat, line: lines[k] },
        ),
{
    lemma_first_error_is(lines, k);
}

/// The state after `n` lines depends on those `n` lines only.
pub proof fn lemma_state_after_prefix(a: Seq<Seq<char>>, b: Seq<Seq<char>>, n: int)
    requires
        0 <= n <= a.len(),
        n <= b.len(),
        forall|i: int| 0 <= i < n ==> a[i] == b[i],
    ensures
        state_after(a, n) == state_after(b, n),
    decreases n,
{
    if n > 0 {
        lemma_state_after_prefix(a, b, n - 1);
    }
}

/// A text of one line compiles to the error on that line, or to what the
/// line alone makes of the empty graph.
pub proof fn lemma_compile_one_line(l: Seq<char>)
    requires
        is_line(l),
    ensures
        compile(l) == if classify(l) is Error {
            Err(LineErrorView { number: 1, line: l })
        } else {
            Ok(graph_of_state(step(initial(), classify(l))))
        },
{
    lemma_lines_of_one(l);
    let ls = lines_of(l);
    if l.len() == 0 {
        assert(skip_spaces(l) =~= l);
        assert(classify(l) is Blank);
    } else {
        assert(ls[0] == l);
        if classify(l) is Error {
            lemma_first_error_is(ls, 0);
        } else {
            lemma_first_error_is(ls, 1);
            assert(state_after(ls, 0) == initial());
            assert(state_after(ls, 1) == step(state_after(ls, 0), classify(ls[0])));
        }
    }
}

/// The characters of a node line are those of its identifier and its label,
/// and two brackets: it holds a line feed only where the label does.
pub proof fn lemma_node_text_is_line(id: Seq<char>, label: Seq<char>)
    requires
        is_identifier(id),
        is_line(label),
    ensures
        is_line(node_text(id, label)),
        strip_cr(node_text(id, label)) == node_text(id, label),
{
    let s = node_text(id, label);
    assert forall|i: int| 0 <= i < s.len() implies #[trigger] s[i] != '\n' by {
        if i < id.len() {
            assert(s[i] == id[i]);
        } else if i == id.len() {
            assert(s[i] == '[');
        } else if i < id.len() + 1 + label.len() {
            assert(s[i] == label[i - id.len() - 1]);
        } else {
            assert(s[i] == ']');
        }
    }
    assert(s.last() == ']');
}

/// For every identifier `id` and every `label` without `]` and without a line
/// feed, the text `id[label]` compiles to the graph of one node, labelled
/// `label`, and no edge.
pub proof fn law_single_node(id: Seq<char>, label: Seq<char>)
    requires
        is_identifier(id),
        free_of(label, ']'),
        is_line(label),
    ensures
        compile(node_text(id, label)) == Ok::<GraphView, LineErrorView>(
            GraphView { nodes: seq![label], edges: Seq::empty() },
        ),
{
    law_node_line(id, label);
    lemma_node_text_is_line(id, label);
    lemma_compile_one_line(node_text(id, label));
    assert(!known(Seq::<Seq<char>>::empty(), id));
    assert(Seq::<Seq<char>>::empty().push(label) =~= seq![label]);
}

/// Declaring a known identifier again overwrites its label where it stands:
/// the identifiers and their indices stay, no label is added, and the other
/// labels and the edges are as before.
pub proof fn law_redeclaration(st: BuildState, id: Seq<char>, label: Seq<char>)
    requires
        known(st.ids, id),
        st.ids.len() == st.labels.len(),
    ensures
        declare(st, id, label).ids == st.ids,
        declare(st, id, label).edges == st.edges,
        declare(st, id, label).labels.len() == st.labels.len(),
        declare(st, id, label).labels[position(st.ids, id) as int] == label,
        forall|i: int|
            0 <= i < st.labels.len() && i != position(st.ids, id) ==> declare(
                st,
                id,
                label,
            ).labels[i] == st.labels[i],
{
}

/// For every identifier `id` and all labels `x` and `y` without `]` and
/// without a line feed, the two lines `id[x]` and `id[y]` compile to the
/// graph of one node, labelled `y`.
pub proof fn law_redeclared_node(id: Seq<char>, x: Seq<char>, y: Seq<char>)
    requires
        is_identifier(id),
        free_of(x, ']'),
        free_of(y, ']'),
        is_line(x),
        is_line(y),
    ensures
        compile(node_text(id, x) + seq!['\n'] + node_text(id, y)) == Ok::<
            GraphView,
            LineErrorView,
        >(GraphView { nodes: seq![y], edges: Seq::empty() }),
{
    let first = node_text(id, x);
    let second = node_text(id, y);
    law_node_line(id, x);
    law_node_line(id, y);
    lemma_node_text_is_line(id, x);
    lemma_node_text_is_line(id, y);
    lemma_lines_of_cons(first, second);
    lemma_lines_of_one(second);
    let ls = lines_of(first + seq!['\n'] + second);
    assert(ls =~= seq![first, second]);
    lemma_first_error_is(ls, 2);
    assert(state_after(ls, 0) == initial());
    assert(state_after(ls, 1) == step(state_after(ls, 0), classify(ls[0])));
    assert(state_after(ls, 2) == step(state_after(ls, 1), classify(ls[1])));
    let none = Seq::<Seq<char>>::empty();
    assert(!known(none, id));
    let one = state_after(ls, 1);
    assert(one.ids =~= seq![id]);
    assert(one.labels =~= seq![x]);
    lemma_position_is(one.ids, id, 0);
    assert(one.labels.update(0, y) =~= seq![y]);
}

/// An edge whose endpoints are both new, and differ, gives the source the
/// next index and the destination the one after, each with an empty label,
/// and is appended to the edges.
pub proof fn law_new_endpoints(st: BuildState, e: EdgeView)
    requires
        !known(st.ids, e.src),
        !known(st.ids, e.dest),
        e.src != e.dest,
    ensures
        connect(st, e) == (BuildState {
            ids: st.ids.push(e.src).push(e.dest),
            labels: st.labels.push(Seq::empty()).push(Seq::empty()),
            edges: st.edges.push(e),
        }),
{
    lemma_position_push(st.ids, e.src, e.dest);
}

/// An edge adds a node for each endpoint that is new, and for no other
/// identifier: an endpoint that is known keeps its index and its label, and
/// so does every other known identifier.
pub proof fn law_edge_endpoints(st: BuildState, e: EdgeView)
    requires
        st.ids.len() == st.labels.len(),
    ensures
        connect(st, e).edges == st.edges.push(e),
        known(connect(st, e).ids, e.src),
        known(connect(st, e).ids, e.dest),
        connect(st, e).ids.len() == connect(st, e).labels.len(),
        st.ids.len() <= connect(st, e).ids.len() <= st.ids.len() + 2,
        known(st.ids, e.src) && known(st.ids, e.dest) ==> connect(st, e).ids == st.ids && connect(
            st,
            e,
        ).labels == st.labels,
        forall|id: Seq<char>| #[trigger]
            known(st.ids, id) ==> position(connect(st, e).ids, id) == position(st.ids, id)
                && connect(st, e).labels[position(st.ids, id) as int] == st.labels[position(
                st.ids,
                id,
            ) as int],
        forall|i: int|
            st.ids.len() <= i < connect(st, e).ids.len() ==> #[trigger] connect(st, e).labels[i]
                == Seq::<char>::empty(),
{
    let a = mention(st, e.src);
    let b = mention(a, e.dest);
    lemma_position_push(st.ids, e.src, e.src);
    lemma_position_push(st.ids, e.src, e.dest);
    lemma_position_push(a.ids, e.dest, e.dest);
    lemma_position_push(a.ids, e.dest, e.src);
    lemma_position(st.ids, e.src);
    lemma_position(a.ids, e.dest);
    assert forall|id: Seq<char>| #[trigger] known(st.ids, id) implies position(
        connect(st, e).ids,
        id,
    ) == position(st.ids, id) && connect(st, e).labels[position(st.ids, id) as int]
        == st.labels[position(st.ids, id) as int] by {
        lemma_position_push(st.ids, e.src, id);
        lemma_position_push(a.ids, e.dest, id);
    }
}

/// For all identifiers `src` and `dest`, the text `src --> dest` compiles to
/// one directed edge with an empty label, and `src <--> dest` to an
/// undirected one. The nodes are the two endpoints, the source first, with
/// empty labels; where `src` and `dest` are the same identifier there is one
/// node.
pub proof fn law_single_plain_edge(src: Seq<char>, directed: bool, dest: Seq<char>)
    requires
        is_identifier(src),
        is_identifier(dest),
    ensures
        compile(plain_edge_text(src, directed, dest)) == Ok::<GraphView, LineErrorView>(
            GraphView {
                nodes: if src == dest {
                    seq![Seq::<char>::empty()]
                } else {
                    seq![Seq::<char>::empty(), Seq::<char>::empty()]
                },
                edges: seq![EdgeView { src, dest, directed, desc: Seq::empty() }],
            },
        ),
{
    let s = plain_edge_text(src, directed, dest);
    let e = EdgeView { src, dest, directed, desc: Seq::<char>::empty() };
    law_plain_edge_line(src, directed, dest);
    assert forall|i: int| 0 <= i < s.len() implies #[trigger] s[i] != '\n' by {
        lemma_plain_edge_chars(src, directed, dest, i);
    }
    lemma_compile_one_line(s);
    lemma_single_edge_state(e);
}

/// For all identifiers `src` and `dest` and every `label` without `|` and
/// without a line feed, the text `src <--> |label| dest` compiles to one
/// undirected edge with that label, and `src --> |label| dest` to a directed
/// one; the nodes are as for an edge without a label.
pub proof fn law_single_edge(e: EdgeView)
    requires
        is_identifier(e.src),
        is_identifier(e.dest),
        free_of(e.desc, '|'),
        is_line(e.desc),
    ensures
        compile(edge_text(e)) == Ok::<GraphView, LineErrorView>(
            GraphView {
                nodes: if e.src == e.dest {
                    seq![Seq::<char>::empty()]
                } else {
                    seq![Seq::<char>::empty(), Seq::<char>::empty()]
                },
                edges: seq![e],
            },
        ),
{
    law_edge_line(e);
    lemma_edge_text_is_line(e);
    lemma_compile_one_line(edge_text(e));
    lemma_single_edge_state(e);
}

/// What one edge makes of the empty graph.
proof fn lemma_single_edge_state(e: EdgeView)
    ensures
        graph_of_state(connect(initial(), e)) == (GraphView {
            nodes: if e.src == e.dest {
                seq![Seq::<char>::empty()]
            } else {
                seq![Seq::<char>::empty(), Seq::<char>::empty()]
            },
            edges: seq![e],
        }),
{
    let none = Seq::<Seq<char>>::empty();
    let blank = Seq::<char>::empty();
    assert(!known(none, e.src));
    let a = mention(initial(), e.src);
    assert(a.ids =~= seq![e.src]);
    lemma_position_push(none, e.src, e.dest);
    let g = graph_of_state(connect(initial(), e));
    assert(g.edges =~= seq![e]);
    if e.src == e.dest {
        assert(g.nodes =~= seq![blank]);
    } else {
        assert(g.nodes =~= seq![blank, blank]);
    }
}

/// Every character of an edge line without a label is an identifier
/// character, a space, or one of `-`, `<`, `>`.
proof fn lemma_plain_edge_chars(src: Seq<char>, directed: bool, dest: Seq<char>, i: int)
    requires
        is_identifier(src),
        is_identifier(dest),
        0 <= i < plain_edge_text(src, directed, dest).len(),
    ensures
        plain_edge_text(src, directed, dest)[i] != '\n',
{
    let s = plain_edge_text(src, directed, dest);
    let a = arrow_text(directed);
    let n = src.len() as int;
    if i < n {
        assert(s[i] == src[i]);
    } else if i == n {
        assert(s[i] == ' ');
    } else if i < n + 1 + a.len() {
        assert(s[i] == a[i - n - 1]);
    } else if i == n + 1 + a.len() {
        assert(s[i] == ' ');
    } else {
        assert(s[i] == dest[i - n - 2 - a.len()]);
    }
}

/// An edge line holds a line feed only where its label does, and does not
/// end with a carriage return.
pub proof fn lemma_edge_text_is_line(e: EdgeView)
    requires
        is_identifier(e.src),
        is_identifier(e.dest),
        is_line(e.desc),
    ensures
        is_line(edge_text(e)),
        strip_cr(edge_text(e)) == edge_text(e),
{
    let s = edge_text(e);
    let a = arrow_text(e.directed);
    let n = e.src.len() as int;
    let m = n + 1 + a.len();
    let d = e.desc.len() as int;
    assert forall|i: int| 0 <= i < s.len() implies #[trigger] s[i] != '\n' by {
        if i < n {
            assert(s[i] == e.src[i]);
        } else if i == n {
            assert(s[i] == ' ');
        } else if i < m {
            assert(s[i] == a[i - n - 1]);
        } else if i == m {
            assert(s[i] == ' ');
        } else if i == m + 1 {
            assert(s[i] == '|');
        } else if i < m + 2 + d {
            assert(s[i] == e.desc[i - m - 2]);
        } else if i == m + 2 + d {
            assert(s[i] == '|');
        } else if i == m + 3 + d {
            assert(s[i] == ' ');
        } else {
            assert(s[i] == e.dest[i - m - 4 - d]);
        }
    }
    assert(s.last() == e.dest.last());
}

/// A blank line or a comment changes nothing: wherever it is put among the
/// lines, the graph is the same, and so is the error, but for the number of a
/// line that now stands one further down.
pub proof fn law_skipped_line(lines: Seq<Seq<char>>, at: int, l: Seq<char>)
    requires
        0 <= at <= lines.len(),
        classify(l) is Blank || classify(l) is Comment,
    ensures
        compile_lines(lines.insert(at, l)) == match compile_lines(lines) {
            Ok(g) => Ok::<GraphView, LineErrorView>(g),
            Err(e) => Err(
                LineErrorView {
                    number: if e.number > at {
                        e.number + 1
                    } else {
                        e.number
                    },
                    line: e.line,
                },
            ),
        },
{
    let more = lines.insert(at, l);
    let k = first_error(lines) as int;
    lemma_first_error(lines);
    if k < at {
        assert forall|i: int| 0 <= i < k implies !(classify(#[trigger] more[i]) is Error) by {
            assert(more[i] == lines[i]);
        }
        assert(more[k] == lines[k]);
        lemma_first_error_is(more, k);
    } else {
        assert forall|i: int| 0 <= i < k + 1 implies !(classify(#[trigger] more[i]) is Error) by {
            if i < at {
                assert(more[i] == lines[i]);
            } else if i > at {
                assert(more[i] == lines[i - 1]);
            }
        }
        if k < lines.len() {
            assert(more[k + 1] == lines[k]);
        }
        lemma_first_error_is(more, k + 1);
        if k == lines.len() {
            lemma_state_after_insert(lines, at, l, lines.len() as int);
        }
    }
}

/// With a blank line or a comment put in at `at`, the state after `n + 1`
/// lines is the state that was reached after `n`, for every `n` from `at` on.
proof fn lemma_state_after_insert(lines: Seq<Seq<char>>, at: int, l: Seq<char>, n: int)
    requires
        0 <= at <= n <= lines.len(),
        classify(l) is Blank || classify(l) is Comment,
    ensures
        state_after(lines.insert(at, l), n + 1) == state_after(lines, n),
    decreases n,
{
    let more = lines.insert(at, l);
    if n == at {
        assert forall|i: int| 0 <= i < n implies more[i] == lines[i] by {}
        lemma_state_after_prefix(more, lines, n);
        assert(more[n] == l);
    } else {
        lemma_state_after_insert(lines, at, l, n - 1);
        assert(more[n] == lines[n - 1]);
    }
}

} // verus!
