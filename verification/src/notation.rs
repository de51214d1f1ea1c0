//! The notation written out: the text of a node line and of an edge line, and
//! the proof that each is read back as what was written.

use vstd::prelude::*;
use crate::grammar::{
    arrow, classify, comment, comment_marker, delimited, directed_arrow, edge, edge_label,
    first_index, ident_len, identifier, is_ident_char, is_space_char, lemma_first_index,
    lemma_first_index_is, lemma_ident_len, lemma_ident_len_is, lemma_space_len,
    lemma_space_len_is, line, node, skip_spaces, space_len, undirected_arrow, Parsed,
};
use crate::model::{EdgeView, LineView, NodeView};

verus! {

/// Whether `id` is an identifier: not empty, and made of identifier
/// characters only.
pub open spec fn is_identifier(id: Seq<char>) -> bool {
    id.len() > 0 && forall|i: int| 0 <= i < id.len() ==> is_ident_char(#[trigger] id[i])
}

/// Whether `c` does not occur in `s`.
pub open spec fn free_of(s: Seq<char>, c: char) -> bool {
    forall|i: int| 0 <= i < s.len() ==> #[trigger] s[i] != c
}

/// The node line `id[label]`.
pub open spec fn node_text(id: Seq<char>, label: Seq<char>) -> Seq<char> {
    id + seq!['['] + label + seq![']']
}

/// The arrow of a directed or an undirected edge.
pub open spec fn arrow_text(directed: bool) -> Seq<char> {
    if directed {
        directed_arrow()
    } else {
        undirected_arrow()
    }
}

/// The edge line `src --> dest`, or `src <--> dest`, without a label.
pub open spec fn plain_edge_text(src: Seq<char>, directed: bool, dest: Seq<char>) -> Seq<char> {
    src + seq![' '] + arrow_text(directed) + seq![' '] + dest
}

/// The edge line `src --> |label| dest`, or `src <--> |label| dest`.
pub open spec fn edge_text(e: EdgeView) -> Seq<char> {
    e.src + seq![' '] + arrow_text(e.directed) + seq![' ', '|'] + e.desc + seq!['|', ' '] + e.dest
}

/// An identifier followed by a text that does not go on with an identifier
/// character is read as that identifier, and the text is left.
pub proof fn lemma_identifier_then(id: Seq<char>, rest: Seq<char>)
    requires
        is_identifier(id),
        rest.len() > 0 ==> !is_ident_char(rest[0]),
    ensures
        identifier(id + rest) == Some(Parsed { value: id, rest }),
{
    let s = id + rest;
    let n = id.len() as int;
    assert forall|i: int| 0 <= i < n implies is_ident_char(#[trigger] s[i]) by {
        assert(s[i] == id[i]);
    }
    if n < s.len() {
        assert(s[n] == rest[0]);
    }
    lemma_ident_len_is(s, n);
    assert(s.take(n) =~= id);
    assert(s.skip(n) =~= rest);
}

/// A text that does not begin with a space or a tab has no leading
/// whitespace to skip.
pub proof fn lemma_no_leading_space(s: Seq<char>)
    requires
        s.len() > 0 ==> !is_space_char(s[0]),
    ensures
        skip_spaces(s) == s,
{
    assert(space_len(s) == 0);
    assert(s.skip(0) =~= s);
}

/// One space before such a text is skipped.
pub proof fn lemma_one_leading_space(s: Seq<char>)
    requires
        s.len() > 0 ==> !is_space_char(s[0]),
    ensures
        skip_spaces(seq![' '] + s) == s,
{
    let t = seq![' '] + s;
    if s.len() > 0 {
        assert(t[1] == s[0]);
    }
    lemma_space_len_is(t, 1);
    assert(t.skip(1) =~= s);
}

/// A text free of `close`, written between `open` and `close`, is read back.
pub proof fn lemma_delimited_then(open: char, text: Seq<char>, close: char, rest: Seq<char>)
    requires
        free_of(text, close),
    ensures
        delimited(seq![open] + text + seq![close] + rest, open, close) == Some(
            Parsed { value: text, rest },
        ),
{
    let s = seq![open] + text + seq![close] + rest;
    let inner = s.skip(1);
    let n = text.len() as int;
    assert(inner =~= text + seq![close] + rest);
    assert forall|i: int| 0 <= i < n implies #[trigger] inner[i] != close by {
        assert(inner[i] == text[i]);
    }
    assert(inner[n] == close);
    lemma_first_index_is(inner, close, n);
    assert(s.subrange(1, 1 + n) =~= text);
    assert(s.skip(n + 2) =~= rest);
}

/// An arrow followed by any text is read as that arrow.
pub proof fn lemma_arrow_then(directed: bool, rest: Seq<char>)
    ensures
        arrow(arrow_text(directed) + rest) == Some(Parsed { value: directed, rest }),
{
    let s = arrow_text(directed) + rest;
    if directed {
        assert(s.subrange(0, 3) =~= directed_arrow());
        assert(s.skip(3) =~= rest);
    } else {
        assert(s[0] == '<');
        assert(directed_arrow()[0] == '-');
        if directed_arrow().is_prefix_of(s) {
            assert(s.subrange(0, 3)[0] == directed_arrow()[0]);
        }
        assert(s.subrange(0, 4) =~= undirected_arrow());
        assert(s.skip(4) =~= rest);
    }
}

/// A text that begins with an identifier is neither blank nor a comment, and
/// has no leading whitespace.
pub proof fn lemma_statement_start(id: Seq<char>, rest: Seq<char>)
    requires
        is_identifier(id),
    ensures
        skip_spaces(id + rest) == id + rest,
        (id + rest).len() > 0,
        comment(id + rest) is None,
{
    let s = id + rest;
    assert(s[0] == id[0]);
    assert(is_ident_char(id[0]));
    lemma_no_leading_space(s);
    if comment_marker().is_prefix_of(s) {
        assert(s.subrange(0, 2)[0] == comment_marker()[0]);
    }
}

/// For every identifier `id` and every `label` without a `]`, the line
/// `id[label]` is the node `id` with that label, and nothing is left over.
pub proof fn law_node_line(id: Seq<char>, label: Seq<char>)
    requires
        is_identifier(id),
        free_of(label, ']'),
    ensures
        line(node_text(id, label)) == (Parsed {
            value: LineView::Node(NodeView { id, desc: label }),
            rest: Seq::empty(),
        }),
        classify(node_text(id, label)) == LineView::Node(NodeView { id, desc: label }),
{
    let tail = seq!['['] + label + seq![']'] + Seq::<char>::empty();
    let s = node_text(id, label);
    assert(s =~= id + tail);
    assert(tail[0] == '[');
    lemma_statement_start(id, tail);
    lemma_identifier_then(id, tail);
    lemma_delimited_then('[', label, ']', Seq::empty());
}

/// An edge line is not a node: after its first identifier comes a space.
proof fn lemma_edge_is_no_node(src: Seq<char>, tail: Seq<char>)
    requires
        is_identifier(src),
    ensures
        node(src + (seq![' '] + tail)) is None,
{
    let r = seq![' '] + tail;
    assert(r[0] == ' ');
    lemma_identifier_then(src, r);
}

/// For all identifiers `src` and `dest`, the line `src --> dest` is the
/// directed edge from `src` to `dest` with an empty label, and `src <--> dest`
/// the undirected one.
pub proof fn law_plain_edge_line(src: Seq<char>, directed: bool, dest: Seq<char>)
    requires
        is_identifier(src),
        is_identifier(dest),
    ensures
        line(plain_edge_text(src, directed, dest)) == (Parsed {
            value: LineView::Edge(EdgeView { src, dest, directed, desc: Seq::empty() }),
            rest: Seq::empty(),
        }),
        classify(plain_edge_text(src, directed, dest)) == LineView::Edge(
            EdgeView { src, dest, directed, desc: Seq::empty() },
        ),
{
    let none = Seq::<char>::empty();
    let r4 = dest + none;
    let r3 = seq![' '] + r4;
    let r2 = arrow_text(directed) + r3;
    let r1 = seq![' '] + r2;
    let s = plain_edge_text(src, directed, dest);
    assert(s =~= src + r1);
    assert(r1[0] == ' ');
    assert(r2[0] == arrow_text(directed)[0]);
    assert(r4[0] == dest[0]);
    assert(is_ident_char(dest[0]));
    lemma_statement_start(src, r1);
    lemma_edge_is_no_node(src, r2);
    lemma_identifier_then(src, r1);
    lemma_one_leading_space(r2);
    lemma_arrow_then(directed, r3);
    lemma_one_leading_space(r4);
    assert(delimited(r4, '|', '|') is None);
    assert(edge_label(r4) == Parsed { value: none, rest: r4 });
    lemma_no_leading_space(r4);
    lemma_identifier_then(dest, none);
}

/// For all identifiers `src` and `dest` and every `label` without a `|`, the
/// line `src --> |label| dest` is the directed edge from `src` to `dest` with
/// that label, and `src <--> |label| dest` the undirected one.
pub proof fn law_edge_line(e: EdgeView)
    requires
        is_identifier(e.src),
        is_identifier(e.dest),
        free_of(e.desc, '|'),
    ensures
        line(edge_text(e)) == (Parsed { value: LineView::Edge(e), rest: Seq::empty() }),
        classify(edge_text(e)) == LineView::Edge(e),
{
    let none = Seq::<char>::empty();
    let r6 = e.dest + none;
    let r5 = seq![' '] + r6;
    let r4 = seq!['|'] + e.desc + seq!['|'] + r5;
    let r3 = seq![' '] + r4;
    let r2 = arrow_text(e.directed) + r3;
    let r1 = seq![' '] + r2;
    let s = edge_text(e);
    assert(s =~= e.src + r1);
    assert(r1[0] == ' ');
    assert(r2[0] == arrow_text(e.directed)[0]);
    assert(r4[0] == '|');
    assert(r6[0] == e.dest[0]);
    assert(is_ident_char(e.dest[0]));
    lemma_statement_start(e.src, r1);
    lemma_edge_is_no_node(e.src, r2);
    lemma_identifier_then(e.src, r1);
    lemma_one_leading_space(r2);
    lemma_arrow_then(e.directed, r3);
    lemma_one_leading_space(r4);
    lemma_delimited_then('|', e.desc, '|', r5);
    lemma_one_leading_space(r6);
    lemma_identifier_then(e.dest, none);
}

/// A line that is empty after its leading spaces and tabs is blank, and one
/// that goes on with `%%` is a comment, whatever follows the marker.
pub proof fn law_blank_or_comment(l: Seq<char>)
    ensures
        skip_spaces(l).len() == 0 ==> classify(l) is Blank,
        comment_marker().is_prefix_of(skip_spaces(l)) ==> classify(l) is Comment,
        classify(l) is Blank ==> skip_spaces(l).len() == 0,
        classify(l) is Comment ==> comment_marker().is_prefix_of(skip_spaces(l)),
{
}

/// Whether `part` is a piece of `s`: the characters of `s` from some position
/// up to another.
pub open spec fn is_part_of(part: Seq<char>, s: Seq<char>) -> bool {
    exists|from: int, to: int| 0 <= from <= to <= s.len() && part == #[trigger] s.subrange(from, to)
}

/// A piece of a piece of `s` is a piece of `s`.
pub proof fn lemma_part_of_part(a: Seq<char>, b: Seq<char>, s: Seq<char>)
    requires
        is_part_of(a, b),
        is_part_of(b, s),
    ensures
        is_part_of(a, s),
{
    let (f1, t1) = choose|from: int, to: int|
        0 <= from <= to <= b.len() && a == #[trigger] b.subrange(from, to);
    let (f2, t2) = choose|from: int, to: int|
        0 <= from <= to <= s.len() && b == #[trigger] s.subrange(from, to);
    assert(a =~= s.subrange(f2 + f1, f2 + t1));
}

/// A character that `s` is free of does not occur in a piece of `s`.
pub proof fn lemma_part_is_free(part: Seq<char>, s: Seq<char>, c: char)
    requires
        is_part_of(part, s),
        free_of(s, c),
    ensures
        free_of(part, c),
{
    let (from, to) = choose|from: int, to: int|
        0 <= from <= to <= s.len() && part == #[trigger] s.subrange(from, to);
    assert forall|i: int| 0 <= i < part.len() implies #[trigger] part[i] != c by {
        assert(part[i] == s[from + i]);
    }
}

/// What is left after leading whitespace is a piece of the text.
pub proof fn lemma_skip_spaces_part(s: Seq<char>)
    ensures
        is_part_of(skip_spaces(s), s),
{
    lemma_space_len(s);
    assert(skip_spaces(s) == s.subrange(space_len(s) as int, s.len() as int));
}

/// An identifier that was read is an identifier, and it and the text left
/// after it are pieces of the text.
pub proof fn lemma_identifier_read(s: Seq<char>)
    requires
        identifier(s) is Some,
    ensures
        is_identifier(identifier(s).unwrap().value),
        is_part_of(identifier(s).unwrap().value, s),
        is_part_of(identifier(s).unwrap().rest, s),
{
    lemma_ident_len(s);
    let n = ident_len(s) as int;
    assert(s.take(n) == s.subrange(0, n));
    assert(s.skip(n) == s.subrange(n, s.len() as int));
}

/// A delimited text that was read is free of the closing character, and it
/// and the text left after it are pieces of the text.
pub proof fn lemma_delimited_read(s: Seq<char>, open: char, close: char)
    requires
        delimited(s, open, close) is Some,
    ensures
        free_of(delimited(s, open, close).unwrap().value, close),
        is_part_of(delimited(s, open, close).unwrap().value, s),
        is_part_of(delimited(s, open, close).unwrap().rest, s),
{
    let inner = s.skip(1);
    lemma_first_index(inner, close);
    let n = first_index(inner, close) as int;
    let text = s.subrange(1, 1 + n);
    assert forall|i: int| 0 <= i < text.len() implies #[trigger] text[i] != close by {
        assert(text[i] == inner[i]);
    }
    assert(s.skip(n + 2) == s.subrange(n + 2, s.len() as int));
}

/// A node that was read has an identifier for its name and a label free of
/// `]`, both pieces of the text.
pub proof fn lemma_node_read(s: Seq<char>)
    requires
        node(s) is Some,
    ensures
        is_identifier(node(s).unwrap().value.id),
        free_of(node(s).unwrap().value.desc, ']'),
        is_part_of(node(s).unwrap().value.desc, s),
{
    lemma_identifier_read(s);
    let id = identifier(s).unwrap();
    lemma_delimited_read(id.rest, '[', ']');
    lemma_part_of_part(delimited(id.rest, '[', ']').unwrap().value, id.rest, s);
}

/// An edge that was read has identifiers for its endpoints and a label free
/// of `|`, which is a piece of the text or empty.
pub proof fn lemma_edge_read(s: Seq<char>)
    requires
        edge(s) is Some,
    ensures
        is_identifier(edge(s).unwrap().value.src),
        is_identifier(edge(s).unwrap().value.dest),
        free_of(edge(s).unwrap().value.desc, '|'),
        is_part_of(edge(s).unwrap().value.desc, s),
{
    lemma_identifier_read(s);
    let src = identifier(s).unwrap();
    let s1 = skip_spaces(src.rest);
    lemma_skip_spaces_part(src.rest);
    lemma_part_of_part(s1, src.rest, s);
    let dir = arrow(s1).unwrap();
    assert(is_part_of(dir.rest, s1)) by {
        if dir.value {
            assert(dir.rest == s1.subrange(3, s1.len() as int));
        } else {
            assert(dir.rest == s1.subrange(4, s1.len() as int));
        }
    }
    lemma_part_of_part(dir.rest, s1, s);
    let s2 = skip_spaces(dir.rest);
    lemma_skip_spaces_part(dir.rest);
    lemma_part_of_part(s2, dir.rest, s);
    let label = edge_label(s2);
    if delimited(s2, '|', '|') is Some {
        lemma_delimited_read(s2, '|', '|');
        lemma_part_of_part(label.value, s2, s);
    } else {
        assert(label.value == s.subrange(0, 0));
    }
    let s3 = skip_spaces(label.rest);
    lemma_identifier_read(s3);
}

} // verus!
