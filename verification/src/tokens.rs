//! The token-level parsers, which the `nom` crate provides.
//!
//! Each function here makes one call into `nom` on a `&str`. Its contract is
//! not proved: it restates, over the views of the strings, what `nom`
//! documents of the parser it calls.

use vstd::prelude::*;
use crate::grammar::{is_ident_char, is_space_char};

verus! {

/// `nom::character::complete::alphanumeric1`: splits off the longest prefix of
/// ASCII letters and digits, and fails where that prefix is empty. The result
/// is the pair of the text that is left and the prefix.
#[verifier::external_body]
pub(crate) fn alphanumeric1<'a>(input: &'a str) -> (r: Option<(&'a str, &'a str)>)
    ensures
        match r {
            Some((rest, token)) => {
                &&& token@.len() > 0
                &&& token@ + rest@ == input@
                &&& forall|i: int| 0 <= i < token@.len() ==> is_ident_char(#[trigger] token@[i])
                &&& rest@.len() > 0 ==> !is_ident_char(rest@[0])
            },
            None => input@.len() == 0 || !is_ident_char(input@[0]),
        },
{
    match nom::character::complete::alphanumeric1::<&str, nom::error::Error<&str>>(input) {
        Ok((rest, token)) => Some((rest, token)),
        Err(_) => None,
    }
}

/// `nom::character::complete::space0`: splits off the longest prefix of
/// spaces and tabs, which may be empty. The result is the pair of the text
/// that is left and the prefix. `None` stands for the error that the parser's
/// type allows and its code never returns.
#[verifier::external_body]
pub(crate) fn space0<'a>(input: &'a str) -> (r: Option<(&'a str, &'a str)>)
    ensures
        match r {
            Some((rest, spaces)) => {
                &&& spaces@ + rest@ == input@
                &&& forall|i: int| 0 <= i < spaces@.len() ==> is_space_char(#[trigger] spaces@[i])
                &&& rest@.len() > 0 ==> !is_space_char(rest@[0])
            },
            None => false,
        },
{
    match nom::character::complete::space0::<&str, nom::error::Error<&str>>(input) {
        Ok((rest, spaces)) => Some((rest, spaces)),
        Err(_) => None,
    }
}

/// `nom::bytes::complete::tag`: succeeds exactly where `input` begins with
/// `pattern`, and then returns the text after it.
#[verifier::external_body]
pub(crate) fn tag<'a>(pattern: &str, input: &'a str) -> (r: Option<&'a str>)
    ensures
        match r {
            Some(rest) => pattern@ + rest@ == input@,
            None => !pattern@.is_prefix_of(input@),
        },
{
    match nom::bytes::complete::tag::<&str, &str, nom::error::Error<&str>>(pattern)(input) {
        Ok((rest, _)) => Some(rest),
        Err(_) => None,
    }
}

/// `nom::bytes::complete::take_until`: splits `input` before the first
/// occurrence of `pattern`, and fails where `pattern` does not occur. The
/// result is the pair of the text from that occurrence on and the text before
/// it.
#[verifier::external_body]
pub(crate) fn take_until<'a>(pattern: &str, input: &'a str) -> (r: Option<(&'a str, &'a str)>)
    ensures
        match r {
            Some((rest, taken)) => {
                &&& taken@ + rest@ == input@
                &&& pattern@.is_prefix_of(rest@)
                &&& forall|i: int|
                    0 <= i < taken@.len() ==> !pattern@.is_prefix_of(#[trigger] input@.skip(i))
            },
            None => forall|i: int|
                0 <= i <= input@.len() ==> !pattern@.is_prefix_of(#[trigger] input@.skip(i)),
        },
{
    match nom::bytes::complete::take_until::<&str, &str, nom::error::Error<&str>>(pattern)(input) {
        Ok((rest, taken)) => Some((rest, taken)),
        Err(_) => None,
    }
}

} // verus!
