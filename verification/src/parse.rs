//! The parsers of a single line: executable functions on `&str`, each proved
//! to compute the spec function of [`crate::grammar`] that it is named after.

use vstd::prelude::*;
use crate::grammar::{
    classify, comment, comment_marker, delimited, directed_arrow, edge, identifier,
    is_ident_char, is_space_char, lemma_first_index_is, lemma_ident_len_is, lemma_space_len_is,
    line, node, skip_spaces, undirected_arrow, Parsed,
};
use crate::model::{ParsedEdge, ParsedLine, ParsedNode};
use crate::tokens::{alphanumeric1, space0, tag, take_until};

verus! {

/// What a parser returned, as the spec functions of the grammar give it: the
/// view of the value, and the view of the text that is left.
pub open spec fn parsed<T: View>(r: Option<(&str, T)>) -> Option<Parsed<T::V>> {
    match r {
        Some((rest, value)) => Some(Parsed { value: value@, rest: rest@ }),
        None => None,
    }
}

/// Reads an identifier at the start of `input`: the longest run of ASCII
/// letters and digits, which must not be empty. Returns the text that is left
/// and the identifier.
pub fn parse_id<'a>(input: &'a str) -> (r: Option<(&'a str, &'a str)>)
    ensures
        parsed(r) == identifier(input@),
{
    let r = alphanumeric1(input);
    proof {
        match r {
            Some((rest, token)) => {
                let n = token@.len() as int;
                assert forall|i: int| 0 <= i < n implies is_ident_char(#[trigger] input@[i]) by {
                    assert(input@[i] == token@[i]);
                }
                assert(n < input@.len() ==> input@[n] == rest@[0]);
                lemma_ident_len_is(input@, n);
                assert(input@.take(n) =~= token@);
                assert(input@.skip(n) =~= rest@);
            },
            None => {
                lemma_ident_len_is(input@, 0);
            },
        }
    }
    r
}

/// Skips the spaces and tabs at the start of `input`.
fn skip_space<'a>(input: &'a str) -> (rest: &'a str)
    ensures
        rest@ == skip_spaces(input@),
{
    match space0(input) {
        Some((rest, spaces)) => {
            proof {
                let n = spaces@.len() as int;
                assert forall|i: int| 0 <= i < n implies is_space_char(#[trigger] input@[i]) by {
                    assert(input@[i] == spaces@[i]);
                }
                assert(n < input@.len() ==> input@[n] == rest@[0]);
                lemma_space_len_is(input@, n);
                assert(input@.skip(n) =~= rest@);
            }
            rest
        },
        // The token parser never fails: it takes the empty prefix if need be.
        None => input,
    }
}

/// Reads the one-character pattern `open`, then the text up to the first
/// occurrence of the one-character pattern `close`, then `close`.
fn enclosed<'a>(open: &str, close: &str, input: &'a str) -> (r: Option<(&'a str, &'a str)>)
    requires
        open@.len() == 1,
        close@.len() == 1,
    ensures
        parsed(r) == delimited(input@, open@[0], close@[0]),
{
    let ghost o = open@[0];
    let ghost c = close@[0];
    let inner = match tag(open, input) {
        Some(inner) => inner,
        None => {
            proof {
                if input@.len() > 0 && input@[0] == o {
                    assert(input@.subrange(0, 1) =~= open@);
                }
            }
            return None;
        },
    };
    proof {
        assert(input@[0] == (open@ + inner@)[0]);
        assert(input@.skip(1) =~= inner@);
    }
    match take_until(close, inner) {
        Some((rest, text)) => {
            let ghost n = text@.len() as int;
            proof {
                assert(rest@.subrange(0, 1) == close@);
                assert(rest@[0] == rest@.subrange(0, 1)[0]);
                assert(inner@[n] == rest@[0]);
                assert forall|i: int| 0 <= i < n implies #[trigger] inner@[i] != c by {
                    if inner@[i] == c {
                        assert(inner@.skip(i).subrange(0, 1) =~= close@);
                    }
                }
                lemma_first_index_is(inner@, c, n);
            }
            match tag(close, rest) {
                Some(after) => {
                    proof {
                        assert(input@.subrange(1, 1 + n) =~= text@);
                        assert(input@.skip(n + 2) =~= after@);
                    }
                    Some((after, text))
                },
                // `rest` begins with `close`, so this is never reached.
                None => None,
            }
        },
        None => {
            proof {
                let n = inner@.len() as int;
                assert forall|i: int| 0 <= i < n implies #[trigger] inner@[i] != c by {
                    if inner@[i] == c {
                        assert(inner@.skip(i).subrange(0, 1) =~= close@);
                    }
                }
                lemma_first_index_is(inner@, c, n);
            }
            None
        },
    }
}

/// Reads a node declaration, `id[label]`, at the start of `input`. The label
/// ends at the first `]`.
pub fn parse_node<'a>(input: &'a str) -> (r: Option<(&'a str, ParsedNode)>)
    ensures
        parsed(r) == node(input@),
{
    proof {
        reveal_strlit("[");
        reveal_strlit("]");
    }
    match parse_id(input) {
        Some((rest, id)) => match enclosed("[", "]", rest) {
            Some((rest, desc)) => Some((rest, ParsedNode { id: id.to_owned(), desc: desc.to_owned() })),
            None => None,
        },
        None => None,
    }
}

/// Reads the label of an edge, `|label|`, at the start of `input`. The label
/// ends at the first `|` after the opening one.
pub fn parse_edge_desc<'a>(input: &'a str) -> (r: Option<(&'a str, &'a str)>)
    ensures
        parsed(r) == delimited(input@, '|', '|'),
{
    proof {
        reveal_strlit("|");
    }
    enclosed("|", "|", input)
}

/// Reads an edge declaration at the start of `input`: an identifier, `-->`
/// or `<-->`, an optional `|label|`, an identifier, with optional spaces and
/// tabs between them.
pub fn parse_edge<'a>(input: &'a str) -> (r: Option<(&'a str, ParsedEdge)>)
    ensures
        parsed(r) == edge(input@),
{
    let (rest, src) = match parse_id(input) {
        Some(found) => found,
        None => {
            return None;
        },
    };
    let rest = skip_space(rest);
    let ghost at_arrow = rest@;
    proof {
        reveal_strlit("-->");
        reveal_strlit("<-->");
        assert("-->"@ =~= directed_arrow());
        assert("<-->"@ =~= undirected_arrow());
    }
    let (rest, directed) = match tag("-->", rest) {
        Some(after) => {
            proof {
                assert(at_arrow.subrange(0, 3) =~= directed_arrow());
                assert(at_arrow.skip(3) =~= after@);
            }
            (after, true)
        },
        None => match tag("<-->", rest) {
            Some(after) => {
                proof {
                    assert(at_arrow.subrange(0, 4) =~= undirected_arrow());
                    assert(at_arrow.skip(4) =~= after@);
                }
                (after, false)
            },
            None => {
                return None;
            },
        },
    };
    let rest = skip_space(rest);
    let (rest, desc) = match parse_edge_desc(rest) {
        Some((after, text)) => (after, text.to_owned()),
        None => (rest, String::new()),
    };
    let rest = skip_space(rest);
    match parse_id(rest) {
        Some((rest, dest)) => Some(
            (rest, ParsedEdge { src: src.to_owned(), dest: dest.to_owned(), directed, desc }),
        ),
        None => None,
    }
}

/// Reads a comment at the start of `input`: `%%`, then the text up to the end
/// of the line, which is the comment.
pub fn parse_comment<'a>(input: &'a str) -> (r: Option<(&'a str, String)>)
    ensures
        parsed(r) == comment(input@),
{
    proof {
        reveal_strlit("%%");
        reveal_strlit("\n");
        reveal_strlit("");
        assert("%%"@ =~= comment_marker());
    }
    let body = match tag("%%", input) {
        Some(body) => body,
        None => {
            return None;
        },
    };
    proof {
        assert(input@.subrange(0, 2) =~= comment_marker());
        assert(input@.skip(2) =~= body@);
    }
    match take_until("\n", body) {
        Some((rest, text)) => {
            proof {
                let n = text@.len() as int;
                assert(rest@.subrange(0, 1) == "\n"@);
                assert(rest@[0] == rest@.subrange(0, 1)[0]);
                assert(body@[n] == rest@[0]);
                assert forall|i: int| 0 <= i < n implies #[trigger] body@[i] != '\n' by {
                    if body@[i] == '\n' {
                        assert(body@.skip(i).subrange(0, 1) =~= "\n"@);
                    }
                }
                lemma_first_index_is(body@, '\n', n);
                assert(body@.take(n) =~= text@);
                assert(body@.skip(n) =~= rest@);
            }
            Some((rest, text.to_owned()))
        },
        None => {
            proof {
                let n = body@.len() as int;
                assert forall|i: int| 0 <= i < n implies #[trigger] body@[i] != '\n' by {
                    if body@[i] == '\n' {
                        assert(body@.skip(i).subrange(0, 1) =~= "\n"@);
                    }
                }
                lemma_first_index_is(body@, '\n', n);
                assert(body@.take(n) =~= body@);
                assert(body@.skip(n) =~= ""@);
            }
            Some(("", body.to_owned()))
        },
    }
}

/// Classifies one line. Spaces and tabs at its start are skipped; then it is
/// blank, a comment, a node or an edge, tried in this order, or an error.
/// Returns the text that was not read and what the line is.
pub fn parse_line<'a>(input: &'a str) -> (r: (&'a str, ParsedLine))
    ensures
        line(input@) == (Parsed { value: r.1@, rest: r.0@ }),
        r.1@ == classify(input@),
{
    let input = skip_space(input);
    if input.is_empty() {
        return (input, ParsedLine::Blank);
    }
    if let Some((rest, text)) = parse_comment(input) {
        return (rest, ParsedLine::Comment(text));
    }
    if let Some((rest, found)) = parse_node(input) {
        return (rest, ParsedLine::Node(found));
    }
    if let Some((rest, found)) = parse_edge(input) {
        return (rest, ParsedLine::Edge(found));
    }
    (input, ParsedLine::Error)
}

} // verus!
