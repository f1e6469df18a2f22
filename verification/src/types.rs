//! Type expressions.

use vstd::prelude::*;
use vstd::std_specs::convert::FromSpecImpl;
use vstd::string::StringSliceAdditionalSpecFns;
use crate::basic::{ends_match, Identifier, IdentifierRef};
use crate::error::{conclude, consumed, is_rest, FailureKind, ParseResult};
use crate::grammar;
use crate::lexical::{has_byte, scan_keyword, scan_mark, skip_separators};
use crate::model::TypeModel;

verus! {

/// A type expression, borrowed from the input.
#[derive(Debug, PartialEq, Eq)]
pub enum FieldTypeRef<'a> {
    Bool,
    Byte,
    I8,
    I16,
    I32,
    I64,
    Double,
    String,
    Binary,
    /// A type referred to by its name.
    Identifier(IdentifierRef<'a>),
    List(Box<FieldTypeRef<'a>>),
    SetOf(Box<FieldTypeRef<'a>>),
    MapOf(Box<FieldTypeRef<'a>>, Box<FieldTypeRef<'a>>),
}

/// A type expression.
#[derive(Debug, PartialEq, Eq)]
pub enum FieldType {
    Bool,
    Byte,
    I8,
    I16,
    I32,
    I64,
    Double,
    String,
    Binary,
    /// A type referred to by its name.
    Identifier(Identifier),
    List(Box<FieldType>),
    SetOf(Box<FieldType>),
    MapOf(Box<FieldType>, Box<FieldType>),
}

impl<'a> FieldTypeRef<'a> {
    /// What the type is.
    pub open spec fn model(&self) -> TypeModel
        decreases self,
    {
        match self {
            FieldTypeRef::Bool => TypeModel::Bool,
            FieldTypeRef::Byte => TypeModel::Byte,
            FieldTypeRef::I8 => TypeModel::I8,
            FieldTypeRef::I16 => TypeModel::I16,
            FieldTypeRef::I32 => TypeModel::I32,
            FieldTypeRef::I64 => TypeModel::I64,
            FieldTypeRef::Double => TypeModel::Double,
            FieldTypeRef::String => TypeModel::String,
            FieldTypeRef::Binary => TypeModel::Binary,
            FieldTypeRef::Identifier(name) => TypeModel::Named(name@),
            FieldTypeRef::List(element) => TypeModel::ListOf(Box::new(element.model())),
            FieldTypeRef::SetOf(element) => TypeModel::SetOf(Box::new(element.model())),
            FieldTypeRef::MapOf(key, value) => TypeModel::MapOf(
                Box::new(key.model()),
                Box::new(value.model()),
            ),
        }
    }
}

impl FieldType {
    /// What the type is.
    pub open spec fn model(&self) -> TypeModel
        decreases self,
    {
        match self {
            FieldType::Bool => TypeModel::Bool,
            FieldType::Byte => TypeModel::Byte,
            FieldType::I8 => TypeModel::I8,
            FieldType::I16 => TypeModel::I16,
            FieldType::I32 => TypeModel::I32,
            FieldType::I64 => TypeModel::I64,
            FieldType::Double => TypeModel::Double,
            FieldType::String => TypeModel::String,
            FieldType::Binary => TypeModel::Binary,
            FieldType::Identifier(name) => TypeModel::Named(name@),
            FieldType::List(element) => TypeModel::ListOf(Box::new(element.model())),
            FieldType::SetOf(element) => TypeModel::SetOf(Box::new(element.model())),
            FieldType::MapOf(key, value) => TypeModel::MapOf(
                Box::new(key.model()),
                Box::new(value.model()),
            ),
        }
    }
}

impl<'a> View for FieldTypeRef<'a> {
    type V = TypeModel;

    open spec fn view(&self) -> TypeModel {
        self.model()
    }
}

impl<'a> DeepView for FieldTypeRef<'a> {
    type V = TypeModel;

    open spec fn deep_view(&self) -> TypeModel {
        self.model()
    }
}

impl View for FieldType {
    type V = TypeModel;

    open spec fn view(&self) -> TypeModel {
        self.model()
    }
}

impl DeepView for FieldType {
    type V = TypeModel;

    open spec fn deep_view(&self) -> TypeModel {
        self.model()
    }
}

/// Matches what opens the arguments of the container type `word` at `pos`.
fn open_arguments_at(input: &[u8], pos: usize, word: &str) -> (r: Option<usize>)
    requires
        word.is_ascii(),
        word@.len() > 0,
    ensures
        crate::lexical::widen(r) == grammar::open_arguments(input@, pos as int, word@),
        r matches Some(end) ==> pos < end <= input.len(),
{
    match scan_keyword(input, pos, word) {
        Some(after) => {
            let at = skip_separators(input, after);
            if has_byte(input, at, '<') {
                Some(skip_separators(input, at + 1))
            } else {
                None
            }
        },
        None => None,
    }
}

impl<'a> FieldTypeRef<'a> {
    /// Parses a base type at the byte position `pos` of `input`.
    pub fn base_type_at(input: &[u8], pos: usize) -> (r: Option<(Self, usize)>)
        ensures
            match r {
                Some((node, end)) => grammar::base_type(input@, pos as int) == Some(
                    (node@, end as int),
                ) && ends_match(input@, pos as int, end as int),
                None => grammar::base_type(input@, pos as int).is_none(),
            },
    {
        proof {
            reveal_strlit("bool");
            reveal_strlit("byte");
            reveal_strlit("i8");
            reveal_strlit("i16");
            reveal_strlit("i32");
            reveal_strlit("i64");
            reveal_strlit("double");
            reveal_strlit("string");
            reveal_strlit("binary");
        }
        if let Some(end) = scan_keyword(input, pos, "bool") {
            Some((FieldTypeRef::Bool, end))
        } else if let Some(end) = scan_keyword(input, pos, "byte") {
            Some((FieldTypeRef::Byte, end))
        } else if let Some(end) = scan_keyword(input, pos, "i8") {
            Some((FieldTypeRef::I8, end))
        } else if let Some(end) = scan_keyword(input, pos, "i16") {
            Some((FieldTypeRef::I16, end))
        } else if let Some(end) = scan_keyword(input, pos, "i32") {
            Some((FieldTypeRef::I32, end))
        } else if let Some(end) = scan_keyword(input, pos, "i64") {
            Some((FieldTypeRef::I64, end))
        } else if let Some(end) = scan_keyword(input, pos, "double") {
            Some((FieldTypeRef::Double, end))
        } else if let Some(end) = scan_keyword(input, pos, "string") {
            Some((FieldTypeRef::String, end))
        } else if let Some(end) = scan_keyword(input, pos, "binary") {
            Some((FieldTypeRef::Binary, end))
        } else {
            None
        }
    }

    /// Parses a container type with one argument at the byte position `pos`
    /// of `src`, and gives the argument.
    fn unary_container_at(src: &'a str, pos: usize, word: &str) -> (r: Option<(Self, usize)>)
        requires
            word.is_ascii(),
            word@.len() > 0,
        ensures
            match r {
                Some((node, end)) => grammar::unary_container(
                    src.spec_bytes(),
                    pos as int,
                    word@,
                ) == Some((node@, end as int)) && ends_match(
                    src.spec_bytes(),
                    pos as int,
                    end as int,
                ),
                None => grammar::unary_container(src.spec_bytes(), pos as int, word@).is_none(),
            },
        decreases src.spec_bytes().len() - pos, 0int,
    {
        let bytes = src.as_bytes();
        match open_arguments_at(bytes, pos, word) {
            Some(at) => match Self::parse_at(src, at) {
                Some((element, end)) => match scan_mark(bytes, end, '>') {
                    Some(close) => Some((element, close)),
                    None => None,
                },
                None => None,
            },
            None => None,
        }
    }

    /// Parses a map type at the byte position `pos` of `src`.
    #[verifier::rlimit(30)]
    fn map_container_at(src: &'a str, pos: usize) -> (r: Option<(Self, usize)>)
        ensures
            match r {
                Some((node, end)) => grammar::map_container(src.spec_bytes(), pos as int)
                    == Some((node@, end as int)) && ends_match(
                    src.spec_bytes(),
                    pos as int,
                    end as int,
                ),
                None => grammar::map_container(src.spec_bytes(), pos as int).is_none(),
            },
        decreases src.spec_bytes().len() - pos, 0int,
    {
        proof {
            reveal_strlit("map");
        }
        let bytes = src.as_bytes();
        match open_arguments_at(bytes, pos, "map") {
            Some(at) => match Self::parse_at(src, at) {
                Some((key, key_end)) => match scan_mark(bytes, key_end, ',') {
                    Some(comma) => {
                        let second = skip_separators(bytes, comma);
                        match Self::parse_at(src, second) {
                            Some((value, end)) => match scan_mark(bytes, end, '>') {
                                Some(close) => Some(
                                    (FieldTypeRef::MapOf(Box::new(key), Box::new(value)), close),
                                ),
                                None => None,
                            },
                            None => None,
                        }
                    },
                    None => None,
                },
                None => None,
            },
            None => None,
        }
    }

    /// Parses a container type at the byte position `pos` of `src`.
    pub fn container_type_at(src: &'a str, pos: usize) -> (r: Option<(Self, usize)>)
        ensures
            match r {
                Some((node, end)) => grammar::container_type(src.spec_bytes(), pos as int)
                    == Some((node@, end as int)) && ends_match(
                    src.spec_bytes(),
                    pos as int,
                    end as int,
                ),
                None => grammar::container_type(src.spec_bytes(), pos as int).is_none(),
            },
        decreases src.spec_bytes().len() - pos, 1int,
    {
        proof {
            reveal_strlit("list");
            reveal_strlit("set");
        }
        if let Some((element, end)) = Self::unary_container_at(src, pos, "list") {
            Some((FieldTypeRef::List(Box::new(element)), end))
        } else if let Some((element, end)) = Self::unary_container_at(src, pos, "set") {
            Some((FieldTypeRef::SetOf(Box::new(element)), end))
        } else {
            Self::map_container_at(src, pos)
        }
    }

    /// Parses a type at the byte position `pos` of `src`.
    pub fn parse_at(src: &'a str, pos: usize) -> (r: Option<(Self, usize)>)
        ensures
            match r {
                Some((node, end)) => grammar::field_type(src.spec_bytes(), pos as int) == Some(
                    (node@, end as int),
                ) && ends_match(src.spec_bytes(), pos as int, end as int),
                None => grammar::field_type(src.spec_bytes(), pos as int).is_none(),
            },
        decreases src.spec_bytes().len() - pos, 2int,
    {
        if let Some(found) = Self::base_type_at(src.as_bytes(), pos) {
            Some(found)
        } else if let Some(found) = Self::container_type_at(src, pos) {
            Some(found)
        } else {
            match IdentifierRef::parse_at(src, pos) {
                Some((name, end)) => Some((FieldTypeRef::Identifier(name), end)),
                None => None,
            }
        }
    }

    /// Parses the type that a typedef renames at the byte position `pos` of
    /// `src`: a base type or a container type.
    pub fn definition_type_at(src: &'a str, pos: usize) -> (r: Option<(Self, usize)>)
        ensures
            match r {
                Some((node, end)) => grammar::definition_type(src.spec_bytes(), pos as int)
                    == Some((node@, end as int)) && ends_match(
                    src.spec_bytes(),
                    pos as int,
                    end as int,
                ),
                None => grammar::definition_type(src.spec_bytes(), pos as int).is_none(),
            },
    {
        if let Some(found) = Self::base_type_at(src.as_bytes(), pos) {
            Some(found)
        } else {
            Self::container_type_at(src, pos)
        }
    }

    /// Parses a base type at the start of `input`: one of the nine keywords.
    pub fn parse_base_type(input: &'a str) -> (r: ParseResult<'a, Self>)
        ensures
            match r {
                Ok((rest, node)) => grammar::base_type(input.spec_bytes(), 0) == Some(
                    (node@, consumed(input, rest)),
                ) && is_rest(input, rest, consumed(input, rest)),
                Err(e) => grammar::base_type(input.spec_bytes(), 0).is_none() && e.kind
                    == FailureKind::NoMatch && e.input@ == input@,
            },
    {
        conclude(input, Self::base_type_at(input.as_bytes(), 0), FailureKind::NoMatch)
    }

    /// Parses a container type at the start of `input`: a list, a set or a
    /// map of types.
    pub fn parse_container_type(input: &'a str) -> (r: ParseResult<'a, Self>)
        ensures
            match r {
                Ok((rest, node)) => grammar::container_type(input.spec_bytes(), 0) == Some(
                    (node@, consumed(input, rest)),
                ) && is_rest(input, rest, consumed(input, rest)),
                Err(e) => grammar::container_type(input.spec_bytes(), 0).is_none() && e.kind
                    == FailureKind::NoMatch && e.input@ == input@,
            },
    {
        conclude(input, Self::container_type_at(input, 0), FailureKind::NoMatch)
    }

    /// Parses a type at the start of `input`: a base type, a container type,
    /// or else the name of a type.
    pub fn parse(input: &'a str) -> (r: ParseResult<'a, Self>)
        ensures
            match r {
                Ok((rest, node)) => grammar::field_type(input.spec_bytes(), 0) == Some(
                    (node@, consumed(input, rest)),
                ) && is_rest(input, rest, consumed(input, rest)),
                Err(e) => grammar::field_type(input.spec_bytes(), 0).is_none() && e.kind
                    == FailureKind::NoMatch && e.input@ == input@,
            },
    {
        conclude(input, Self::parse_at(input, 0), FailureKind::NoMatch)
    }
}

impl FieldType {
    /// Copies a borrowed type into an owned one.
    pub fn copy_of<'a>(r: &FieldTypeRef<'a>) -> (o: Self)
        ensures
            o@ == r@,
        decreases r,
    {
        match r {
            FieldTypeRef::Bool => FieldType::Bool,
            FieldTypeRef::Byte => FieldType::Byte,
            FieldTypeRef::I8 => FieldType::I8,
            FieldTypeRef::I16 => FieldType::I16,
            FieldTypeRef::I32 => FieldType::I32,
            FieldTypeRef::I64 => FieldType::I64,
            FieldTypeRef::Double => FieldType::Double,
            FieldTypeRef::String => FieldType::String,
            FieldTypeRef::Binary => FieldType::Binary,
            FieldTypeRef::Identifier(name) => FieldType::Identifier(Identifier::from(*name)),
            FieldTypeRef::List(element) => FieldType::List(Box::new(Self::copy_of(element))),
            FieldTypeRef::SetOf(element) => FieldType::SetOf(Box::new(Self::copy_of(element))),
            FieldTypeRef::MapOf(key, value) => FieldType::MapOf(
                Box::new(Self::copy_of(key)),
                Box::new(Self::copy_of(value)),
            ),
        }
    }

    /// Parses a type at the start of `input`, and copies it.
    pub fn parse<'a>(input: &'a str) -> (r: ParseResult<'a, Self>)
        ensures
            match r {
                Ok((rest, node)) => grammar::field_type(input.spec_bytes(), 0) == Some(
                    (node@, consumed(input, rest)),
                ) && is_rest(input, rest, consumed(input, rest)),
                Err(e) => grammar::field_type(input.spec_bytes(), 0).is_none() && e.kind
                    == FailureKind::NoMatch && e.input@ == input@,
            },
    {
        match FieldTypeRef::parse(input) {
            Ok((rest, node)) => Ok((rest, FieldType::from(node))),
            Err(e) => Err(e),
        }
    }
}

impl<'a> From<FieldTypeRef<'a>> for FieldType {
    /// The owned type that is what the borrowed one is.
    fn from(r: FieldTypeRef<'a>) -> (o: Self)
        ensures
            o@ == r@,
    {
        FieldType::copy_of(&r)
    }
}

impl<'a> FromSpecImpl<FieldTypeRef<'a>> for FieldType {
    open spec fn obeys_from_spec() -> bool {
        false
    }

    open spec fn from_spec(r: FieldTypeRef<'a>) -> Self {
        arbitrary()
    }
}

impl<'a> Clone for FieldTypeRef<'a> {
    fn clone(&self) -> (o: Self)
        ensures
            o@ == self@,
        decreases self,
    {
        match self {
            FieldTypeRef::Bool => FieldTypeRef::Bool,
            FieldTypeRef::Byte => FieldTypeRef::Byte,
            FieldTypeRef::I8 => FieldTypeRef::I8,
            FieldTypeRef::I16 => FieldTypeRef::I16,
            FieldTypeRef::I32 => FieldTypeRef::I32,
            FieldTypeRef::I64 => FieldTypeRef::I64,
            FieldTypeRef::Double => FieldTypeRef::Double,
            FieldTypeRef::String => FieldTypeRef::String,
            FieldTypeRef::Binary => FieldTypeRef::Binary,
            FieldTypeRef::Identifier(name) => FieldTypeRef::Identifier(*name),
            FieldTypeRef::List(element) => FieldTypeRef::List(Box::new((**element).clone())),
            FieldTypeRef::SetOf(element) => FieldTypeRef::SetOf(Box::new((**element).clone())),
            FieldTypeRef::MapOf(key, value) => FieldTypeRef::MapOf(
                Box::new((**key).clone()),
                Box::new((**value).clone()),
            ),
        }
    }
}

impl Clone for FieldType {
    fn clone(&self) -> (o: Self)
        ensures
            o@ == self@,
        decreases self,
    {
        match self {
            FieldType::Bool => FieldType::Bool,
            FieldType::Byte => FieldType::Byte,
            FieldType::I8 => FieldType::I8,
            FieldType::I16 => FieldType::I16,
            FieldType::I32 => FieldType::I32,
            FieldType::I64 => FieldType::I64,
            FieldType::Double => FieldType::Double,
            FieldType::String => FieldType::String,
            FieldType::Binary => FieldType::Binary,
            FieldType::Identifier(name) => FieldType::Identifier(Identifier(name.0.clone())),
            FieldType::List(element) => FieldType::List(Box::new((**element).clone())),
            FieldType::SetOf(element) => FieldType::SetOf(Box::new((**element).clone())),
            FieldType::MapOf(key, value) => FieldType::MapOf(
                Box::new((**key).clone()),
                Box::new((**value).clone()),
            ),
        }
    }
}

} // verus!
