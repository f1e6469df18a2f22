//! How a parse ends.

use vstd::prelude::*;
use vstd::string::StringSliceAdditionalSpecFns;
use crate::text::{cut_point, rest_of_text};

verus! {

/// Why a parse failed.
#[derive(Clone, Copy, Debug, PartialEq, Eq)]
pub enum FailureKind {
    /// The rule does not apply to the input: another rule may.
    NoMatch,
    /// A definition began, with its keyword, and something that must follow
    /// is missing.
    Incomplete,
}

/// A failed parse: why it failed, and the input that it was given.
///
/// A failure consumes nothing: `input` is the whole input of the parse that
/// failed, and the caller's position is where it was.
#[derive(Clone, Copy, Debug, PartialEq, Eq)]
pub struct ParseError<'a> {
    pub kind: FailureKind,
    pub input: &'a str,
}

/// What a parser returns: the input that is left and the node, or a failure.
pub type ParseResult<'a, T> = Result<(&'a str, T), ParseError<'a>>;

/// Whether `rest` is what is left of `input` once its first `end` bytes are
/// consumed.
pub open spec fn is_rest(input: &str, rest: &str, end: int) -> bool {
    &&& 0 <= end <= input.spec_bytes().len()
    &&& rest.spec_bytes() == input.spec_bytes().skip(end)
}

/// How many bytes of `input` are consumed when `rest` is left.
pub open spec fn consumed(input: &str, rest: &str) -> int {
    input.spec_bytes().len() - rest.spec_bytes().len()
}

/// Turns what a rule found at the start of `input` into a result: the node
/// and the rest of the input, or a failure of the given kind.
pub(crate) fn conclude<'a, T>(input: &'a str, found: Option<(T, usize)>, kind: FailureKind) -> (r:
    ParseResult<'a, T>)
    requires
        found matches Some((_, end)) ==> end <= input.spec_bytes().len() && cut_point(
            input.spec_bytes(),
            end as int,
        ),
    ensures
        match r {
            Ok((rest, node)) => found matches Some((n, end)) && n == node && is_rest(
                input,
                rest,
                end as int,
            ) && consumed(input, rest) == end,
            Err(e) => found.is_none() && e.kind == kind && e.input@ == input@,
        },
{
    match found {
        Some((node, end)) => Ok((rest_of_text(input, end), node)),
        None => Err(ParseError { kind, input }),
    }
}

/// Turns what a definition rule found at the start of `input` into a
/// result: the node and the rest of the input, or a failure of the kind that
/// the rule gave.
pub(crate) fn conclude_definition<'a, T>(input: &'a str, found: Result<(T, usize), FailureKind>) -> (r:
    ParseResult<'a, T>)
    requires
        found matches Ok((_, end)) ==> end <= input.spec_bytes().len() && cut_point(
            input.spec_bytes(),
            end as int,
        ),
    ensures
        match r {
            Ok((rest, node)) => found matches Ok((n, end)) && n == node && is_rest(
                input,
                rest,
                end as int,
            ) && consumed(input, rest) == end,
            Err(e) => found matches Err(kind) && e.kind == kind && e.input@ == input@,
        },
{
    match found {
        Ok((node, end)) => Ok((rest_of_text(input, end), node)),
        Err(kind) => Err(ParseError { kind, input }),
    }
}

} // verus!
