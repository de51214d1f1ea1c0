//! The grammar of a single line, as spec functions over sequences of characters.

use vstd::prelude::*;
use crate::model::{EdgeView, LineView, NodeView};

verus! {

/// The characters an identifier is made of: ASCII letters and decimal digits.
pub open spec fn is_ident_char(c: char) -> bool {
    ('0' <= c && c <= '9') || ('A' <= c && c <= 'Z') || ('a' <= c && c <= 'z')
}

/// Horizontal whitespace: the space and the tab.
pub open spec fn is_space_char(c: char) -> bool {
    c == ' ' || c == '\t'
}

/// Length of the longest prefix of `s` made of identifier characters.
pub open spec fn ident_len(s: Seq<char>) -> nat
    decreases s.len(),
{
    if s.len() > 0 && is_ident_char(s[0]) {
        1 + ident_len(s.skip(1))
    } else {
        0
    }
}

/// Length of the longest prefix of `s` made of horizontal whitespace.
pub open spec fn space_len(s: Seq<char>) -> nat
    decreases s.len(),
{
    if s.len() > 0 && is_space_char(s[0]) {
        1 + space_len(s.skip(1))
    } else {
        0
    }
}

/// `s` without its leading horizontal whitespace.
pub open spec fn skip_spaces(s: Seq<char>) -> Seq<char> {
    s.skip(space_len(s) as int)
}

/// Position of the first occurrence of `c` in `s`, or `s.len()` where there is none.
pub open spec fn first_index(s: Seq<char>, c: char) -> nat
    decreases s.len(),
{
    if s.len() > 0 && s[0] != c {
        1 + first_index(s.skip(1), c)
    } else {
        0
    }
}

/// The result of a parser on a sequence of characters: the value it read and
/// the text that is left.
pub struct Parsed<T> {
    pub value: T,
    pub rest: Seq<char>,
}

/// A text enclosed between the character `open` and the first following `close`.
pub open spec fn delimited(s: Seq<char>, open: char, close: char) -> Option<Parsed<Seq<char>>> {
    if s.len() > 0 && s[0] == open && first_index(s.skip(1), close) < s.len() - 1 {
        let n = first_index(s.skip(1), close) as int;
        Some(Parsed { value: s.subrange(1, 1 + n), rest: s.skip(n + 2) })
    } else {
        None
    }
}

/// An identifier: the longest non-empty run of identifier characters.
pub open spec fn identifier(s: Seq<char>) -> Option<Parsed<Seq<char>>> {
    if ident_len(s) > 0 {
        Some(Parsed { value: s.take(ident_len(s) as int), rest: s.skip(ident_len(s) as int) })
    } else {
        None
    }
}

/// A node declaration: an identifier directly followed by a label in square
/// brackets. The label ends at the first `]`.
pub open spec fn node(s: Seq<char>) -> Option<Parsed<NodeView>> {
    match identifier(s) {
        Some(id) => match delimited(id.rest, '[', ']') {
            Some(label) => Some(
                Parsed { value: NodeView { id: id.value, desc: label.value }, rest: label.rest },
            ),
            None => None,
        },
        None => None,
    }
}

/// The arrow `-->`.
pub open spec fn directed_arrow() -> Seq<char> {
    seq!['-', '-', '>']
}

/// The arrow `<-->`.
pub open spec fn undirected_arrow() -> Seq<char> {
    seq!['<', '-', '-', '>']
}

/// One of the two arrows; the value says whether the edge is directed.
pub open spec fn arrow(s: Seq<char>) -> Option<Parsed<bool>> {
    if directed_arrow().is_prefix_of(s) {
        Some(Parsed { value: true, rest: s.skip(3) })
    } else if undirected_arrow().is_prefix_of(s) {
        Some(Parsed { value: false, rest: s.skip(4) })
    } else {
        None
    }
}

/// The optional label of an edge, between two `|`; empty where there is none.
pub open spec fn edge_label(s: Seq<char>) -> Parsed<Seq<char>> {
    match delimited(s, '|', '|') {
        Some(label) => label,
        None => Parsed { value: Seq::empty(), rest: s },
    }
}

/// An edge declaration: identifier, arrow, optional label, identifier, with
/// optional horizontal whitespace between them.
pub open spec fn edge(s: Seq<char>) -> Option<Parsed<EdgeView>> {
    match identifier(s) {
        Some(src) => match arrow(skip_spaces(src.rest)) {
            Some(dir) => {
                let label = edge_label(skip_spaces(dir.rest));
                match identifier(skip_spaces(label.rest)) {
                    Some(dest) => Some(
                        Parsed {
                            value: EdgeView {
                                src: src.value,
                                dest: dest.value,
                                directed: dir.value,
                                desc: label.value,
                            },
                            rest: dest.rest,
                        },
                    ),
                    None => None,
                }
            },
            None => None,
        },
        None => None,
    }
}

/// The marker that opens a comment.
pub open spec fn comment_marker() -> Seq<char> {
    seq!['%', '%']
}

/// A comment: the marker `%%`, then everything up to the end of the line.
pub open spec fn comment(s: Seq<char>) -> Option<Parsed<Seq<char>>> {
    if comment_marker().is_prefix_of(s) {
        let body = s.skip(2);
        let n = first_index(body, '\n') as int;
        Some(Parsed { value: body.take(n), rest: body.skip(n) })
    } else {
        None
    }
}

/// What one line is. Leading horizontal whitespace is skipped; then the line
/// is blank, a comment, a node or an edge, tried in this order, or an error.
/// Text that follows a node or an edge is left over in `rest` and not judged.
pub open spec fn line(s: Seq<char>) -> Parsed<LineView> {
    let t = skip_spaces(s);
    if t.len() == 0 {
        Parsed { value: LineView::Blank, rest: t }
    } else if let Some(c) = comment(t) {
        Parsed { value: LineView::Comment(c.value), rest: c.rest }
    } else if let Some(n) = node(t) {
        Parsed { value: LineView::Node(n.value), rest: n.rest }
    } else if let Some(e) = edge(t) {
        Parsed { value: LineView::Edge(e.value), rest: e.rest }
    } else {
        Parsed { value: LineView::Error, rest: t }
    }
}

/// What one line is, without the text left over.
pub open spec fn classify(s: Seq<char>) -> LineView {
    line(s).value
}

/// `ident_len(s)` is `n` where the first `n` characters of `s` are identifier
/// characters and the next one, if any, is not.
pub proof fn lemma_ident_len_is(s: Seq<char>, n: int)
    requires
        0 <= n <= s.len(),
        forall|i: int| 0 <= i < n ==> is_ident_char(#[trigger] s[i]),
        n < s.len() ==> !is_ident_char(s[n]),
    ensures
        ident_len(s) == n,
    decreases n,
{
    if n > 0 {
        assert(is_ident_char(s[0]));
        let t = s.skip(1);
        assert forall|i: int| 0 <= i < n - 1 implies is_ident_char(#[trigger] t[i]) by {
            assert(t[i] == s[i + 1]);
        }
        lemma_ident_len_is(t, n - 1);
    }
}

/// `space_len(s)` is `n` where the first `n` characters of `s` are spaces or
/// tabs and the next one, if any, is not.
pub proof fn lemma_space_len_is(s: Seq<char>, n: int)
    requires
        0 <= n <= s.len(),
        forall|i: int| 0 <= i < n ==> is_space_char(#[trigger] s[i]),
        n < s.len() ==> !is_space_char(s[n]),
    ensures
        space_len(s) == n,
    decreases n,
{
    if n > 0 {
        assert(is_space_char(s[0]));
        let t = s.skip(1);
        assert forall|i: int| 0 <= i < n - 1 implies is_space_char(#[trigger] t[i]) by {
            assert(t[i] == s[i + 1]);
        }
        lemma_space_len_is(t, n - 1);
    }
}

/// `first_index(s, c)` is `n` where `c` is not among the first `n` characters
/// of `s` and is the next one, if there is a next one.
pub proof fn lemma_first_index_is(s: Seq<char>, c: char, n: int)
    requires
        0 <= n <= s.len(),
        forall|i: int| 0 <= i < n ==> #[trigger] s[i] != c,
        n < s.len() ==> s[n] == c,
    ensures
        first_index(s, c) == n,
    decreases n,
{
    if n > 0 {
        assert(s[0] != c);
        let t = s.skip(1);
        assert forall|i: int| 0 <= i < n - 1 implies #[trigger] t[i] != c by {
            assert(t[i] == s[i + 1]);
        }
        lemma_first_index_is(t, c, n - 1);
    }
}

/// `ident_len(s)` is at most `s.len()`, and the characters before it are
/// identifier characters.
pub proof fn lemma_ident_len(s: Seq<char>)
    ensures
        ident_len(s) <= s.len(),
        forall|i: int| 0 <= i < ident_len(s) ==> is_ident_char(#[trigger] s[i]),
    decreases s.len(),
{
    if s.len() > 0 && is_ident_char(s[0]) {
        let t = s.skip(1);
        lemma_ident_len(t);
        assert forall|i: int| 0 <= i < ident_len(s) implies is_ident_char(#[trigger] s[i]) by {
            if i > 0 {
                assert(t[i - 1] == s[i]);
            }
        }
    }
}

/// `space_len(s)` is at most `s.len()`.
pub proof fn lemma_space_len(s: Seq<char>)
    ensures
        space_len(s) <= s.len(),
    decreases s.len(),
{
    if s.len() > 0 && is_space_char(s[0]) {
        lemma_space_len(s.skip(1));
    }
}

/// `first_index(s, c)` is at most `s.len()`, and `c` does not occur before it.
pub proof fn lemma_first_index(s: Seq<char>, c: char)
    ensures
        first_index(s, c) <= s.len(),
        forall|i: int| 0 <= i < first_index(s, c) ==> #[trigger] s[i] != c,
    decreases s.len(),
{
    if s.len() > 0 && s[0] != c {
        let t = s.skip(1);
        lemma_first_index(t, c);
        assert forall|i: int| 0 <= i < first_index(s, c) implies #[trigger] s[i] != c by {
            if i > 0 {
                assert(t[i - 1] == s[i]);
            }
        }
    }
}

} // verus!
