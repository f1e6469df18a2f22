//! Fields: the members of structs, unions and exceptions, and the
//! parameters of functions.

use vstd::prelude::*;
use vstd::std_specs::convert::FromSpecImpl;
use vstd::string::StringSliceAdditionalSpecFns;
use crate::basic::{ends_match, Identifier, IdentifierRef};
use crate::constant::{ConstValue, ConstValueRef, IntConstant};
use crate::error::{conclude, consumed, is_rest, FailureKind, ParseResult};
use crate::grammar;
use crate::lexical::{
    scan_list_gap, scan_mark, scan_separator, scan_spaced_keyword, skip_closing_mark, skip_gap,
    skip_separators,
};
use crate::model::FieldModel;
use crate::types::{FieldType, FieldTypeRef};

verus! {

/// A field, borrowed from the input.
#[derive(Debug, Clone, PartialEq, Eq)]
pub struct FieldRef<'a> {
    pub id: Option<IntConstant>,
    /// `Some(true)` for `required`, `Some(false)` for `optional`, `None`
    /// where the source says neither.
    pub required: Option<bool>,
    pub type_: FieldTypeRef<'a>,
    pub name: IdentifierRef<'a>,
    pub default: Option<ConstValueRef<'a>>,
}

/// A field.
#[derive(Debug, Clone, PartialEq, Eq)]
pub struct Field {
    pub id: Option<IntConstant>,
    /// `Some(true)` for `required`, `Some(false)` for `optional`, `None`
    /// where the source says neither.
    pub required: Option<bool>,
    pub type_: FieldType,
    pub name: Identifier,
    pub default: Option<ConstValue>,
}

impl<'a> View for FieldRef<'a> {
    type V = FieldModel;

    open spec fn view(&self) -> FieldModel {
        FieldModel {
            id: self.id.deep_view(),
            required: self.required,
            type_: self.type_@,
            name: self.name@,
            default: self.default.deep_view(),
        }
    }
}

impl<'a> DeepView for FieldRef<'a> {
    type V = FieldModel;

    open spec fn deep_view(&self) -> FieldModel {
        self@
    }
}

impl View for Field {
    type V = FieldModel;

    open spec fn view(&self) -> FieldModel {
        FieldModel {
            id: self.id.deep_view(),
            required: self.required,
            type_: self.type_@,
            name: self.name@,
            default: self.default.deep_view(),
        }
    }
}

impl DeepView for Field {
    type V = FieldModel;

    open spec fn deep_view(&self) -> FieldModel {
        self@
    }
}

/// Parses the id of a field at the byte position `pos` of `input`.
fn field_id_at(input: &[u8], pos: usize) -> (r: Option<(IntConstant, usize)>)
    ensures
        match r {
            Some((id, end)) => grammar::field_id(input@, pos as int) == Some((id@, end as int))
                && pos < end <= input.len(),
            None => grammar::field_id(input@, pos as int).is_none(),
        },
{
    match IntConstant::parse_at(input, pos) {
        Some((id, end)) => match scan_mark(input, end, ':') {
            Some(colon) => Some((id, skip_separators(input, colon))),
            None => None,
        },
        None => None,
    }
}

/// Parses `required` or `optional` and a separator at the byte position
/// `pos` of `input`.
fn requiredness_at(input: &[u8], pos: usize) -> (r: Option<(bool, usize)>)
    ensures
        r == match grammar::requiredness(input@, pos as int) {
            Some((required, end)) => Some((required, end as usize)),
            None => None,
        },
        r matches Some((_, end)) ==> pos < end <= input.len() && grammar::requiredness(
            input@,
            pos as int,
        ).unwrap().1 == end,
{
    proof {
        reveal_strlit("required");
        reveal_strlit("optional");
    }
    if let Some(end) = scan_spaced_keyword(input, pos, "required") {
        Some((true, end))
    } else if let Some(end) = scan_spaced_keyword(input, pos, "optional") {
        Some((false, end))
    } else {
        None
    }
}

/// Parses `=` and a constant at the byte position `pos` of `src`.
pub fn default_value_at<'a>(src: &'a str, pos: usize) -> (r: Option<(ConstValueRef<'a>, usize)>)
    ensures
        match r {
            Some((node, end)) => grammar::default_value(src.spec_bytes(), pos as int) == Some(
                (node@, end as int),
            ) && ends_match(src.spec_bytes(), pos as int, end as int),
            None => grammar::default_value(src.spec_bytes(), pos as int).is_none(),
        },
{
    let bytes = src.as_bytes();
    match scan_mark(bytes, pos, '=') {
        Some(equals) => ConstValueRef::parse_at(src, skip_separators(bytes, equals)),
        None => None,
    }
}

impl<'a> FieldRef<'a> {
    /// Parses a field at the byte position `pos` of `src`.
    #[verifier::rlimit(30)]
    pub fn parse_at(src: &'a str, pos: usize) -> (r: Option<(Self, usize)>)
        ensures
            match r {
                Some((node, end)) => grammar::field(src.spec_bytes(), pos as int) == Some(
                    (node@, end as int),
                ) && ends_match(src.spec_bytes(), pos as int, end as int),
                None => grammar::field(src.spec_bytes(), pos as int).is_none(),
            },
    {
        let bytes = src.as_bytes();
        let (id, after_id) = match field_id_at(bytes, pos) {
            Some((id, end)) => (Some(id), end),
            None => (None, pos),
        };
        let (required, after_required) = match requiredness_at(bytes, after_id) {
            Some((required, end)) => (Some(required), end),
            None => (None, after_id),
        };
        match FieldTypeRef::parse_at(src, after_required) {
            Some((type_, type_end)) => match scan_separator(bytes, type_end) {
                Some(name_start) => match IdentifierRef::parse_at(src, name_start) {
                    Some((name, name_end)) => {
                        let (default, end) = match default_value_at(src, name_end) {
                            Some((value, end)) => (Some(value), end),
                            None => (None, name_end),
                        };
                        Some((FieldRef { id, required, type_, name, default }, end))
                    },
                    None => None,
                },
                None => None,
            },
            None => None,
        }
    }

    /// Parses a field of a struct, union or exception at the byte position
    /// `pos` of `src`: a field, and the comma or semicolon after it where one
    /// is written.
    pub fn member_at(src: &'a str, pos: usize) -> (r: Option<(Self, usize)>)
        ensures
            match r {
                Some((node, end)) => grammar::member(src.spec_bytes(), pos as int) == Some(
                    (node@, end as int),
                ) && ends_match(src.spec_bytes(), pos as int, end as int),
                None => grammar::member(src.spec_bytes(), pos as int).is_none(),
            },
    {
        match Self::parse_at(src, pos) {
            Some((node, end)) => Some((node, skip_closing_mark(src.as_bytes(), end))),
            None => None,
        }
    }

    /// Parses fields parted by list gaps from the byte position `start` of
    /// `src`, as many as there are.
    pub fn fields_at(src: &'a str, start: usize) -> (r: (Vec<Self>, usize))
        ensures
            grammar::list(
                src.spec_bytes().len() as int,
                start as int,
                grammar::list_gap_rule(src.spec_bytes()),
                grammar::field_rule(src.spec_bytes()),
            ) == (r.0.deep_view(), r.1 as int),
            start <= r.1,
            start <= src.spec_bytes().len() ==> r.1 <= src.spec_bytes().len(),
    {
        let bytes = src.as_bytes();
        let ghost s = bytes@;
        let ghost len = s.len() as int;
        let ghost gap = grammar::list_gap_rule(s);
        let ghost item = grammar::field_rule(s);
        let mut items: Vec<FieldRef<'a>> = Vec::new();
        let mut cur = start;
        proof {
            grammar::lemma_list_first(len, start as int, gap, item);
        }
        match Self::parse_at(src, start) {
            Some((first, first_end)) => {
                items.push(first);
                cur = first_end;
                assert(items.deep_view() =~= seq![first@]);
                loop
                    invariant
                        s == src.spec_bytes(),
                        s == bytes@,
                        len == s.len(),
                        gap == grammar::list_gap_rule(s),
                        item == grammar::field_rule(s),
                        start <= cur <= len,
                        grammar::list(len, start as int, gap, item) == grammar::joined(
                            items.deep_view(),
                            grammar::list_tail(len, cur as int, gap, item),
                        ),
                    ensures
                        start <= cur <= len,
                        grammar::list(len, start as int, gap, item) == (
                            items.deep_view(),
                            cur as int,
                        ),
                    decreases len - cur,
                {
                    proof {
                        grammar::lemma_list_next(len, cur as int, gap, item, items.deep_view());
                    }
                    match scan_list_gap(bytes, cur) {
                        Some(next) => match Self::parse_at(src, next) {
                            Some((x, end)) => {
                                let ghost before = items.deep_view();
                                items.push(x);
                                cur = end;
                                assert(items.deep_view() =~= before.push(x@));
                            },
                            None => {
                                break ;
                            },
                        },
                        None => {
                            break ;
                        },
                    }
                }
            },
            None => {
                assert(items.deep_view() =~= Seq::empty());
            },
        }
        (items, cur)
    }

    /// Parses members parted by separators from the byte position `start` of
    /// `src`, as many as there are.
    pub fn members_at(src: &'a str, start: usize) -> (r: (Vec<Self>, usize))
        ensures
            grammar::list(
                src.spec_bytes().len() as int,
                start as int,
                grammar::separator_rule(src.spec_bytes()),
                grammar::member_rule(src.spec_bytes()),
            ) == (r.0.deep_view(), r.1 as int),
            start <= r.1,
            start <= src.spec_bytes().len() ==> r.1 <= src.spec_bytes().len(),
    {
        let bytes = src.as_bytes();
        let ghost s = bytes@;
        let ghost len = s.len() as int;
        let ghost gap = grammar::separator_rule(s);
        let ghost item = grammar::member_rule(s);
        let mut items: Vec<FieldRef<'a>> = Vec::new();
        let mut cur = start;
        proof {
            grammar::lemma_list_first(len, start as int, gap, item);
        }
        match Self::member_at(src, start) {
            Some((first, first_end)) => {
                items.push(first);
                cur = first_end;
                assert(items.deep_view() =~= seq![first@]);
                loop
                    invariant
                        s == src.spec_bytes(),
                        s == bytes@,
                        len == s.len(),
                        gap == grammar::separator_rule(s),
                        item == grammar::member_rule(s),
                        start <= cur <= len,
                        grammar::list(len, start as int, gap, item) == grammar::joined(
                            items.deep_view(),
                            grammar::list_tail(len, cur as int, gap, item),
                        ),
                    ensures
                        start <= cur <= len,
                        grammar::list(len, start as int, gap, item) == (
                            items.deep_view(),
                            cur as int,
                        ),
                    decreases len - cur,
                {
                    proof {
                        grammar::lemma_list_next(len, cur as int, gap, item, items.deep_view());
                    }
                    match scan_separator(bytes, cur) {
                        Some(next) => match Self::member_at(src, next) {
                            Some((x, end)) => {
                                let ghost before = items.deep_view();
                                items.push(x);
                                cur = end;
                                assert(items.deep_view() =~= before.push(x@));
                            },
                            None => {
                                break ;
                            },
                        },
                        None => {
                            break ;
                        },
                    }
                }
            },
            None => {
                assert(items.deep_view() =~= Seq::empty());
            },
        }
        (items, cur)
    }

    /// Parses fields in round brackets at the byte position `pos` of `src`.
    pub fn field_list_at(src: &'a str, pos: usize) -> (r: Option<(Vec<Self>, usize)>)
        ensures
            match r {
                Some((fields, end)) => grammar::field_list(src.spec_bytes(), pos as int) == Some(
                    (fields.deep_view(), end as int),
                ) && ends_match(src.spec_bytes(), pos as int, end as int),
                None => grammar::field_list(src.spec_bytes(), pos as int).is_none(),
            },
    {
        let bytes = src.as_bytes();
        match scan_mark(bytes, pos, '(') {
            Some(open) => {
                let (fields, stop) = Self::fields_at(src, skip_separators(bytes, open));
                match scan_mark(bytes, skip_gap(bytes, stop), ')') {
                    Some(end) => Some((fields, end)),
                    None => None,
                }
            },
            None => None,
        }
    }

    /// Parses a field at the start of `input`: an optional id, an optional
    /// requiredness, a type, a name and an optional default.
    pub fn parse(input: &'a str) -> (r: ParseResult<'a, Self>)
        ensures
            match r {
                Ok((rest, node)) => grammar::field(input.spec_bytes(), 0) == Some(
                    (node@, consumed(input, rest)),
                ) && is_rest(input, rest, consumed(input, rest)),
                Err(e) => grammar::field(input.spec_bytes(), 0).is_none() && e.kind
                    == FailureKind::NoMatch && e.input@ == input@,
            },
    {
        conclude(input, Self::parse_at(input, 0), FailureKind::NoMatch)
    }
}

impl Field {
    /// Copies a borrowed field into an owned one.
    pub fn copy_of<'a>(r: &FieldRef<'a>) -> (o: Self)
        ensures
            o@ == r@,
    {
        Field {
            id: r.id,
            required: r.required,
            type_: FieldType::copy_of(&r.type_),
            name: Identifier::from(r.name),
            default: match &r.default {
                Some(value) => Some(ConstValue::copy_of(value)),
                None => None,
            },
        }
    }

    /// Copies borrowed fields into owned ones, in their order.
    pub fn copies_of<'a>(fields: &Vec<FieldRef<'a>>) -> (o: Vec<Self>)
        ensures
            o.deep_view() == fields.deep_view(),
    {
        let mut items: Vec<Field> = Vec::new();
        let mut i: usize = 0;
        while i < fields.len()
            invariant
                i <= fields.len(),
                items.len() == i,
                forall|j: int| 0 <= j < i ==> items[j]@ == fields[j]@,
            decreases fields.len() - i,
        {
            items.push(Self::copy_of(&fields[i]));
            i += 1;
        }
        assert(items.deep_view() =~= fields.deep_view());
        items
    }

    /// Parses a field at the start of `input`, and copies it.
    pub fn parse<'a>(input: &'a str) -> (r: ParseResult<'a, Self>)
        ensures
            match r {
                Ok((rest, node)) => grammar::field(input.spec_bytes(), 0) == Some(
                    (node@, consumed(input, rest)),
                ) && is_rest(input, rest, consumed(input, rest)),
                Err(e) => grammar::field(input.spec_bytes(), 0).is_none() && e.kind
                    == FailureKind::NoMatch && e.input@ == input@,
            },
    {
        match FieldRef::parse(input) {
            Ok((rest, node)) => Ok((rest, Field::from(node))),
            Err(e) => Err(e),
        }
    }
}

impl<'a> From<FieldRef<'a>> for Field {
    /// The owned field that is what the borrowed one is.
    fn from(r: FieldRef<'a>) -> (o: Self)
        ensures
            o@ == r@,
    {
        Field::copy_of(&r)
    }
}

impl<'a> FromSpecImpl<FieldRef<'a>> for Field {
    open spec fn obeys_from_spec() -> bool {
        false
    }

    open spec fn from_spec(r: FieldRef<'a>) -> Self {
        arbitrary()
    }
}

} // verus!
