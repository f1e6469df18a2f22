//! The functions of a service.

use vstd::prelude::*;
use vstd::std_specs::convert::FromSpecImpl;
use vstd::string::StringSliceAdditionalSpecFns;
use crate::basic::{ends_match, Identifier, IdentifierRef};
use crate::error::{conclude, consumed, is_rest, FailureKind, ParseResult};
use crate::field::{Field, FieldRef};
use crate::grammar;
use crate::lexical::{
    scan_keyword, scan_separator, scan_spaced_keyword, skip_closing_mark, skip_separators,
};
use crate::model::FunctionModel;
use crate::types::{FieldType, FieldTypeRef};

verus! {

/// A function of a service, borrowed from the input.
#[derive(Debug, Clone, PartialEq, Eq)]
pub struct FunctionRef<'a> {
    pub oneway: bool,
    /// `None` for `void`.
    pub returns: Option<FieldTypeRef<'a>>,
    pub name: IdentifierRef<'a>,
    pub parameters: Vec<FieldRef<'a>>,
    pub exceptions: Option<Vec<FieldRef<'a>>>,
}

/// A function of a service.
#[derive(Debug, Clone, PartialEq, Eq)]
pub struct Function {
    pub oneway: bool,
    /// `None` for `void`.
    pub returns: Option<FieldType>,
    pub name: Identifier,
    pub parameters: Vec<Field>,
    pub exceptions: Option<Vec<Field>>,
}

impl<'a> View for FunctionRef<'a> {
    type V = FunctionModel;

    open spec fn view(&self) -> FunctionModel {
        FunctionModel {
            oneway: self.oneway,
            returns: self.returns.deep_view(),
            name: self.name@,
            parameters: self.parameters.deep_view(),
            exceptions: self.exceptions.deep_view(),
        }
    }
}

impl<'a> DeepView for FunctionRef<'a> {
    type V = FunctionModel;

    open spec fn deep_view(&self) -> FunctionModel {
        self@
    }
}

impl View for Function {
    type V = FunctionModel;

    open spec fn view(&self) -> FunctionModel {
        FunctionModel {
            oneway: self.oneway,
            returns: self.returns.deep_view(),
            name: self.name@,
            parameters: self.parameters.deep_view(),
            exceptions: self.exceptions.deep_view(),
        }
    }
}

impl DeepView for Function {
    type V = FunctionModel;

    open spec fn deep_view(&self) -> FunctionModel {
        self@
    }
}

/// Parses what a function returns at the byte position `pos` of `src`.
fn return_type_at<'a>(src: &'a str, pos: usize) -> (r: Option<(Option<FieldTypeRef<'a>>, usize)>)
    ensures
        match r {
            Some((node, end)) => grammar::return_type(src.spec_bytes(), pos as int) == Some(
                (node.deep_view(), end as int),
            ) && pos < end <= src.spec_bytes().len(),
            None => grammar::return_type(src.spec_bytes(), pos as int).is_none(),
        },
{
    proof {
        reveal_strlit("void");
    }
    match scan_keyword(src.as_bytes(), pos, "void") {
        Some(end) => Some((None, end)),
        None => match FieldTypeRef::parse_at(src, pos) {
            Some((t, end)) => Some((Some(t), end)),
            None => None,
        },
    }
}

/// Parses a throws clause at the byte position `pos` of `src`.
fn throws_at<'a>(src: &'a str, pos: usize) -> (r: Option<(Vec<FieldRef<'a>>, usize)>)
    ensures
        match r {
            Some((fields, end)) => grammar::throws(src.spec_bytes(), pos as int) == Some(
                (fields.deep_view(), end as int),
            ) && ends_match(src.spec_bytes(), pos as int, end as int),
            None => grammar::throws(src.spec_bytes(), pos as int).is_none(),
        },
{
    proof {
        reveal_strlit("throws");
    }
    let bytes = src.as_bytes();
    match scan_keyword(bytes, skip_separators(bytes, pos), "throws") {
        Some(after) => match FieldRef::field_list_at(src, after) {
            Some((fields, end)) => if fields.len() > 0 {
                Some((fields, end))
            } else {
                None
            },
            None => None,
        },
        None => None,
    }
}

impl<'a> FunctionRef<'a> {
    /// Parses a function at the byte position `pos` of `src`.
    #[verifier::rlimit(30)]
    pub fn parse_at(src: &'a str, pos: usize) -> (r: Option<(Self, usize)>)
        ensures
            match r {
                Some((node, end)) => grammar::function(src.spec_bytes(), pos as int) == Some(
                    (node@, end as int),
                ) && ends_match(src.spec_bytes(), pos as int, end as int),
                None => grammar::function(src.spec_bytes(), pos as int).is_none(),
            },
    {
        proof {
            reveal_strlit("oneway");
        }
        let bytes = src.as_bytes();
        let (oneway, start) = match scan_spaced_keyword(bytes, pos, "oneway") {
            Some(end) => (true, end),
            None => (false, pos),
        };
        match return_type_at(src, start) {
            Some((returned, returned_end)) => match scan_separator(bytes, returned_end) {
                Some(name_start) => match IdentifierRef::parse_at(src, name_start) {
                    Some((name, name_end)) => match FieldRef::field_list_at(src, name_end) {
                        Some((parameters, parameters_end)) => {
                            let (exceptions, end) = match throws_at(src, parameters_end) {
                                Some((fields, end)) => (Some(fields), end),
                                None => (None, parameters_end),
                            };
                            Some(
                                (
                                    FunctionRef {
                                        oneway,
                                        returns: returned,
                                        name,
                                        parameters,
                                        exceptions,
                                    },
                                    end,
                                ),
                            )
                        },
                        None => None,
                    },
                    None => None,
                },
                None => None,
            },
            None => None,
        }
    }

    /// Parses a function of a service at the byte position `pos` of `src`: a
    /// function, and the comma or semicolon after it where one is written.
    pub fn member_at(src: &'a str, pos: usize) -> (r: Option<(Self, usize)>)
        ensures
            match r {
                Some((node, end)) => grammar::service_member(src.spec_bytes(), pos as int)
                    == Some((node@, end as int)) && ends_match(
                    src.spec_bytes(),
                    pos as int,
                    end as int,
                ),
                None => grammar::service_member(src.spec_bytes(), pos as int).is_none(),
            },
    {
        match Self::parse_at(src, pos) {
            Some((node, end)) => Some((node, skip_closing_mark(src.as_bytes(), end))),
            None => None,
        }
    }

    /// Parses functions parted by separators from the byte position `start`
    /// of `src`, as many as there are.
    pub fn members_at(src: &'a str, start: usize) -> (r: (Vec<Self>, usize))
        ensures
            grammar::list(
                src.spec_bytes().len() as int,
                start as int,
                grammar::separator_rule(src.spec_bytes()),
                grammar::service_member_rule(src.spec_bytes()),
            ) == (r.0.deep_view(), r.1 as int),
            start <= r.1,
            start <= src.spec_bytes().len() ==> r.1 <= src.spec_bytes().len(),
    {
        let bytes = src.as_bytes();
        let ghost s = bytes@;
        let ghost len = s.len() as int;
        let ghost gap = grammar::separator_rule(s);
        let ghost item = grammar::service_member_rule(s);
        let mut items: Vec<FunctionRef<'a>> = Vec::new();
        let mut cur = start;
        proof {
            grammar::lemma_list_first(len, start as int, gap, item);
        }
        match Self::member_at(src, start) {
            Some((first, first_end)) => {
                items.push(first);
                cur = first_end;
                assert(items.deep_view() =~= seq![first@]);
                loop
                    invariant
                        s == src.spec_bytes(),
                        s == bytes@,
                        len == s.len(),
                        gap == grammar::separator_rule(s),
                        item == grammar::service_member_rule(s),
                        start <= cur <= len,
                        grammar::list(len, start as int, gap, item) == grammar::joined(
                            items.deep_view(),
                            grammar::list_tail(len, cur as int, gap, item),
                        ),
                    ensures
                        start <= cur <= len,
                        grammar::list(len, start as int, gap, item) == (
                            items.deep_view(),
                            cur as int,
                        ),
                    decreases len - cur,
                {
                    proof {
                        grammar::lemma_list_next(len, cur as int, gap, item, items.deep_view());
                    }
                    match scan_separator(bytes, cur) {
                        Some(next) => match Self::member_at(src, next) {
                            Some((x, end)) => {
                                let ghost before = items.deep_view();
                                items.push(x);
                                cur = end;
                                assert(items.deep_view() =~= before.push(x@));
                            },
                            None => {
                                break ;
                            },
                        },
                        None => {
                            break ;
                        },
                    }
                }
            },
            None => {
                assert(items.deep_view() =~= Seq::empty());
            },
        }
        (items, cur)
    }

    /// Parses a function at the start of `input`: an optional `oneway`, what
    /// it returns, its name, its parameters and an optional throws clause.
    pub fn parse(input: &'a str) -> (r: ParseResult<'a, Self>)
        ensures
            match r {
                Ok((rest, node)) => grammar::function(input.spec_bytes(), 0) == Some(
                    (node@, consumed(input, rest)),
                ) && is_rest(input, rest, consumed(input, rest)),
                Err(e) => grammar::function(input.spec_bytes(), 0).is_none() && e.kind
                    == FailureKind::NoMatch && e.input@ == input@,
            },
    {
        conclude(input, Self::parse_at(input, 0), FailureKind::NoMatch)
    }
}

impl Function {
    /// Copies a borrowed function into an owned one.
    pub fn copy_of<'a>(r: &FunctionRef<'a>) -> (o: Self)
        ensures
            o@ == r@,
    {
        Function {
            oneway: r.oneway,
            returns: match &r.returns {
                Some(t) => Some(FieldType::copy_of(t)),
                None => None,
            },
            name: Identifier::from(r.name),
            parameters: Field::copies_of(&r.parameters),
            exceptions: match &r.exceptions {
                Some(fields) => Some(Field::copies_of(fields)),
                None => None,
            },
        }
    }

    /// Copies borrowed functions into owned ones, in their order.
    pub fn copies_of<'a>(functions: &Vec<FunctionRef<'a>>) -> (o: Vec<Self>)
        ensures
            o.deep_view() == functions.deep_view(),
    {
        let mut items: Vec<Function> = Vec::new();
        let mut i: usize = 0;
        while i < functions.len()
            invariant
                i <= functions.len(),
                items.len() == i,
                forall|j: int| 0 <= j < i ==> items[j]@ == functions[j]@,
            decreases functions.len() - i,
        {
            items.push(Self::copy_of(&functions[i]));
            i += 1;
        }
        assert(items.deep_view() =~= functions.deep_view());
        items
    }

    /// Parses a function at the start of `input`, and copies it.
    pub fn parse<'a>(input: &'a str) -> (r: ParseResult<'a, Self>)
        ensures
            match r {
                Ok((rest, node)) => grammar::function(input.spec_bytes(), 0) == Some(
                    (node@, consumed(input, rest)),
                ) && is_rest(input, rest, consumed(input, rest)),
                Err(e) => grammar::function(input.spec_bytes(), 0).is_none() && e.kind
                    == FailureKind::NoMatch && e.input@ == input@,
            },
    {
        match FunctionRef::parse(input) {
            Ok((rest, node)) => Ok((rest, Function::from(node))),
            Err(e) => Err(e),
        }
    }
}

impl<'a> From<FunctionRef<'a>> for Function {
    /// The owned function that is what the borrowed one is.
    fn from(r: FunctionRef<'a>) -> (o: Self)
        ensures
            o@ == r@,
    {
        Function::copy_of(&r)
    }
}

impl<'a> FromSpecImpl<FunctionRef<'a>> for Function {
    open spec fn obeys_from_spec() -> bool {
        false
    }

    open spec fn from_spec(r: FunctionRef<'a>) -> Self {
        arbitrary()
    }
}

} // verus!
