//! Splitting a text into its lines.
//!
//! A line ends at a line feed; a carriage return directly before that line
//! feed belongs to the line ending. The last line needs no line ending, and a
//! text that ends with one has no empty line after it.

use vstd::prelude::*;
use vstd::string::StrSliceExecFns;
use crate::grammar::{first_index, lemma_first_index, lemma_first_index_is};
use crate::tokens::{tag, take_until};

verus! {

/// `l` without the carriage return at its end, if it has one.
pub open spec fn strip_cr(l: Seq<char>) -> Seq<char> {
    if l.len() > 0 && l.last() == '\r' {
        l.drop_last()
    } else {
        l
    }
}

/// The lines of `s`, in order, each without its line ending.
pub open spec fn lines_of(s: Seq<char>) -> Seq<Seq<char>>
    decreases s.len(),
{
    if s.len() == 0 {
        Seq::empty()
    } else {
        let n = first_index(s, '\n') as int;
        if n < s.len() {
            seq![strip_cr(s.take(n))] + lines_of(s.skip(n + 1))
        } else {
            seq![s]
        }
    }
}

/// The views of a sequence of string slices.
pub open spec fn texts_of(v: Seq<&str>) -> Seq<Seq<char>> {
    Seq::new(v.len(), |i: int| v[i]@)
}

/// Removes the carriage return at the end of `l`, if there is one.
fn trim_cr<'a>(l: &'a str) -> (r: &'a str)
    ensures
        r@ == strip_cr(l@),
{
    let n = l.unicode_len();
    if n > 0 && l.get_char(n - 1) == '\r' {
        let r = l.substring_char(0, n - 1);
        proof {
            assert(l@.subrange(0, n - 1) =~= l@.drop_last());
        }
        r
    } else {
        l
    }
}

/// Splits `input` into its lines.
pub fn split_lines<'a>(input: &'a str) -> (r: Vec<&'a str>)
    ensures
        texts_of(r@) == lines_of(input@),
{
    let mut out: Vec<&'a str> = Vec::new();
    let mut rest = input;
    proof {
        reveal_strlit("\n");
        assert(texts_of(out@) + lines_of(rest@) =~= lines_of(input@));
    }
    while !rest.is_empty()
        invariant
            "\n"@ == seq!['\n'],
            texts_of(out@) + lines_of(rest@) == lines_of(input@),
        decreases rest@.len(),
    {
        let ghost before = out@;
        let ghost s = rest@;
        match take_until("\n", rest) {
            Some((after, text)) => {
                let ghost n = text@.len() as int;
                proof {
                    assert(after@.subrange(0, 1) == "\n"@);
                    assert(after@[0] == after@.subrange(0, 1)[0]);
                    assert(s[n] == after@[0]);
                    assert forall|i: int| 0 <= i < n implies #[trigger] s[i] != '\n' by {
                        if s[i] == '\n' {
                            assert(s.skip(i).subrange(0, 1) =~= "\n"@);
                        }
                    }
                    lemma_first_index_is(s, '\n', n);
                    assert(s.take(n) =~= text@);
                }
                let l = trim_cr(text);
                out.push(l);
                match tag("\n", after) {
                    Some(next) => {
                        proof {
                            assert(s.skip(n + 1) =~= next@);
                            assert(texts_of(out@) =~= texts_of(before) + seq![strip_cr(s.take(n))]);
                            assert(texts_of(out@) + lines_of(next@) =~= texts_of(before) + lines_of(
                                s,
                            ));
                        }
                        rest = next;
                    },
                    // `after` begins with the line feed, so this is never reached.
                    None => {
                        return out;
                    },
                }
            },
            None => {
                proof {
                    let n = s.len() as int;
                    assert forall|i: int| 0 <= i < n implies #[trigger] s[i] != '\n' by {
                        if s[i] == '\n' {
                            assert(s.skip(i).subrange(0, 1) =~= "\n"@);
                        }
                    }
                    lemma_first_index_is(s, '\n', n);
                }
                out.push(rest);
                proof {
                    assert(texts_of(out@) =~= texts_of(before) + lines_of(s));
                }
                return out;
            },
        }
    }
    proof {
        assert(texts_of(out@) + lines_of(rest@) =~= texts_of(out@));
    }
    out
}

/// Whether `l` can stand as a line of its own: it holds no line feed.
pub open spec fn is_line(l: Seq<char>) -> bool {
    forall|i: int| 0 <= i < l.len() ==> #[trigger] l[i] != '\n'
}

/// The text made of `ls`, each followed by a line feed.
pub open spec fn join_lines(ls: Seq<Seq<char>>) -> Seq<char>
    decreases ls.len(),
{
    if ls.len() == 0 {
        Seq::empty()
    } else {
        ls[0] + seq!['\n'] + join_lines(ls.skip(1))
    }
}

/// A line, a line feed and a text split into that line, without the carriage
/// return at its end, and the lines of the text.
pub proof fn lemma_lines_of_cons(l: Seq<char>, rest: Seq<char>)
    requires
        is_line(l),
    ensures
        lines_of(l + seq!['\n'] + rest) == seq![strip_cr(l)] + lines_of(rest),
{
    let s = l + seq!['\n'] + rest;
    let n = l.len() as int;
    assert forall|i: int| 0 <= i < n implies #[trigger] s[i] != '\n' by {
        assert(s[i] == l[i]);
    }
    assert(s[n] == '\n');
    lemma_first_index_is(s, '\n', n);
    assert(s.take(n) =~= l);
    assert(s.skip(n + 1) =~= rest);
}

/// A text without a line feed is its own single line, unless it is empty.
pub proof fn lemma_lines_of_one(l: Seq<char>)
    requires
        is_line(l),
    ensures
        lines_of(l) == if l.len() == 0 {
            Seq::<Seq<char>>::empty()
        } else {
            seq![l]
        },
{
    if l.len() > 0 {
        lemma_first_index_is(l, '\n', l.len() as int);
    }
}

/// Lines that end with no carriage return, joined, split into themselves.
pub proof fn lemma_lines_of_join(ls: Seq<Seq<char>>)
    requires
        forall|i: int| 0 <= i < ls.len() ==> is_line(#[trigger] ls[i]) && strip_cr(ls[i]) == ls[i],
    ensures
        lines_of(join_lines(ls)) == ls,
    decreases ls.len(),
{
    if ls.len() > 0 {
        let tail = ls.skip(1);
        assert forall|i: int| 0 <= i < tail.len() implies is_line(#[trigger] tail[i]) && strip_cr(
            tail[i],
        ) == tail[i] by {
            assert(tail[i] == ls[i + 1]);
        }
        lemma_lines_of_join(tail);
        lemma_lines_of_cons(ls[0], join_lines(tail));
        assert(seq![ls[0]] + tail =~= ls);
    }
}

/// No line of a text holds a line feed.
pub proof fn lemma_lines_are_lines(s: Seq<char>)
    ensures
        forall|i: int| 0 <= i < lines_of(s).len() ==> is_line(#[trigger] lines_of(s)[i]),
    decreases s.len(),
{
    if s.len() > 0 {
        lemma_first_index(s, '\n');
        let n = first_index(s, '\n') as int;
        if n < s.len() {
            let rest = s.skip(n + 1);
            lemma_lines_are_lines(rest);
            let head = strip_cr(s.take(n));
            assert(is_line(head)) by {
                assert forall|i: int| 0 <= i < head.len() implies #[trigger] head[i] != '\n' by {
                    assert(head[i] == s[i]);
                }
            }
            assert forall|i: int| 0 <= i < lines_of(s).len() implies is_line(
                #[trigger] lines_of(s)[i],
            ) by {
                if i > 0 {
                    assert(lines_of(s)[i] == lines_of(rest)[i - 1]);
                }
            }
        }
    }
}

} // verus!
