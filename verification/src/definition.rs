//! The definitions: constants, type definitions, enums, structs, unions,
//! exceptions and services.
//!
//! Every definition comes in two forms: one that borrows its text from the
//! input, and one that owns it. Both have the same model, and the owned form
//! is made from the borrowed one without loss.

use vstd::prelude::*;
use vstd::std_specs::convert::FromSpecImpl;
use vstd::string::StringSliceAdditionalSpecFns;
use crate::basic::{ends_match, Comment, CommentRef, Identifier, IdentifierRef};
use crate::constant::{ConstValue, ConstValueRef, IntConstant};
use crate::error::{conclude, conclude_definition, consumed, is_rest, FailureKind, ParseResult};
use crate::field::{default_value_at, Field, FieldRef};
use crate::functions::{Function, FunctionRef};
use crate::grammar;
use crate::grammar::ByteClass;
use crate::lexical::{
    has_byte, scan_linefeed, scan_list_gap, scan_mark, scan_run, scan_separator,
    scan_spaced_keyword, skip_closing_mark, skip_gap, skip_separators,
};
use crate::model::{
    effective_value, ConstModel, EnumModel, EnumValueModel, RecordModel, ServiceModel,
    TypedefModel,
};
use crate::types::{FieldType, FieldTypeRef};

verus! {

/// Parses the comment that documents a definition at the byte position `pos`
/// of `src`.
fn doc_comment_at<'a>(src: &'a str, pos: usize) -> (r: (Option<CommentRef<'a>>, usize))
    ensures
        grammar::doc_comment(src.spec_bytes(), pos as int) == (r.0.deep_view(), r.1 as int),
        pos <= r.1,
        pos <= src.spec_bytes().len() ==> r.1 <= src.spec_bytes().len(),
{
    let bytes = src.as_bytes();
    match CommentRef::parse_at(src, pos) {
        Some((text, end)) => match scan_linefeed(bytes, end) {
            Some(next_line) => (Some(text), scan_run(bytes, next_line, ByteClass::Blank)),
            None => (None, pos),
        },
        None => (None, pos),
    }
}

/// Parses how a definition starts at the byte position `pos` of `src`: an
/// optional documenting comment, the keyword `word` and a separator.
fn definition_head_at<'a>(src: &'a str, pos: usize, word: &str) -> (r: Option<
    (Option<CommentRef<'a>>, usize),
>)
    requires
        word.is_ascii(),
        word@.len() > 0,
    ensures
        match r {
            Some((doc, end)) => grammar::definition_head(src.spec_bytes(), pos as int, word@)
                == Some((doc.deep_view(), end as int)) && pos < end <= src.spec_bytes().len(),
            None => grammar::definition_head(src.spec_bytes(), pos as int, word@).is_none(),
        },
{
    let (doc, start) = doc_comment_at(src, pos);
    match scan_spaced_keyword(src.as_bytes(), start, word) {
        Some(end) => Some((doc, end)),
        None => None,
    }
}

/// Copies an optional borrowed comment into an owned one.
fn copy_of_comment<'a>(doc: &Option<CommentRef<'a>>) -> (o: Option<Comment>)
    ensures
        o.deep_view() == doc.deep_view(),
{
    match doc {
        Some(text) => Some(Comment::from(*text)),
        None => None,
    }
}

/// A constant definition, borrowed from the input.
#[derive(Debug, Clone, PartialEq, Eq)]
pub struct ConstRef<'a> {
    pub doc_comment: Option<CommentRef<'a>>,
    pub name: IdentifierRef<'a>,
    pub type_: FieldTypeRef<'a>,
    pub value: ConstValueRef<'a>,
}

/// A constant definition.
#[derive(Debug, Clone, PartialEq, Eq)]
pub struct Const {
    pub doc_comment: Option<Comment>,
    pub name: Identifier,
    pub type_: FieldType,
    pub value: ConstValue,
}

impl<'a> View for ConstRef<'a> {
    type V = ConstModel;

    open spec fn view(&self) -> ConstModel {
        ConstModel {
            doc_comment: self.doc_comment.deep_view(),
            name: self.name@,
            type_: self.type_@,
            value: self.value@,
        }
    }
}

impl<'a> DeepView for ConstRef<'a> {
    type V = ConstModel;

    open spec fn deep_view(&self) -> ConstModel {
        self@
    }
}

impl View for Const {
    type V = ConstModel;

    open spec fn view(&self) -> ConstModel {
        ConstModel {
            doc_comment: self.doc_comment.deep_view(),
            name: self.name@,
            type_: self.type_@,
            value: self.value@,
        }
    }
}

impl DeepView for Const {
    type V = ConstModel;

    open spec fn deep_view(&self) -> ConstModel {
        self@
    }
}

impl<'a> ConstRef<'a> {
    /// Parses a constant definition at the byte position `pos` of `src`.
    #[verifier::rlimit(30)]
    pub fn parse_at(src: &'a str, pos: usize) -> (r: Result<(Self, usize), FailureKind>)
        ensures
            match r {
                Ok((node, end)) => grammar::const_definition(src.spec_bytes(), pos as int) == Some(
                    (node@, end as int),
                ) && ends_match(src.spec_bytes(), pos as int, end as int),
                Err(kind) => grammar::const_definition(src.spec_bytes(), pos as int).is_none() && kind
                    == grammar::failure_kind(src.spec_bytes(), pos as int, "const"@),
            },
    {
        proof {
            reveal_strlit("const");
        }
        let bytes = src.as_bytes();
        let (doc_comment, start) = match definition_head_at(src, pos, "const") {
            Some(head) => head,
            None => {
                return Err(FailureKind::NoMatch);
            },
        };
        let (type_, type_end) = match FieldTypeRef::parse_at(src, start) {
            Some(found) => found,
            None => {
                return Err(FailureKind::Incomplete);
            },
        };
        let name_start = match scan_separator(bytes, type_end) {
            Some(found) => found,
            None => {
                return Err(FailureKind::Incomplete);
            },
        };
        let (name, name_end) = match IdentifierRef::parse_at(src, name_start) {
            Some(found) => found,
            None => {
                return Err(FailureKind::Incomplete);
            },
        };
        match default_value_at(src, name_end) {
            Some((value, end)) => Ok(
                (ConstRef { doc_comment, name, type_, value }, skip_closing_mark(bytes, end)),
            ),
            None => Err(FailureKind::Incomplete),
        }
    }

    /// Parses a constant definition at the start of `input`: `const`, a type, a
    /// name, `=`, a value, and an optional comma or semicolon.
    ///
    /// What is returned is the node and the input that follows the
    /// definition. A failure consumes nothing; its kind is `NoMatch` where
    /// the input does not start with the keyword of the definition, after an
    /// optional documenting comment, and `Incomplete` where it does.
    pub fn parse(input: &'a str) -> (r: ParseResult<'a, Self>)
        ensures
            match r {
                Ok((rest, node)) => grammar::const_definition(input.spec_bytes(), 0) == Some(
                    (node@, consumed(input, rest)),
                ) && is_rest(input, rest, consumed(input, rest)),
                Err(e) => grammar::const_definition(input.spec_bytes(), 0).is_none() && e.kind
                    == grammar::failure_kind(input.spec_bytes(), 0, "const"@) && e.input@
                    == input@,
            },
    {
        conclude_definition(input, Self::parse_at(input, 0))
    }
}

impl Const {
    /// Copies a borrowed constant definition into an owned one.
    pub fn copy_of<'a>(r: &ConstRef<'a>) -> (o: Self)
        ensures
            o@ == r@,
    {
        Const {
            doc_comment: copy_of_comment(&r.doc_comment),
            name: Identifier::from(r.name),
            type_: FieldType::copy_of(&r.type_),
            value: ConstValue::copy_of(&r.value),
        }
    }

    /// Parses a constant definition at the start of `input`, and copies it: the
    /// result is what the borrowed form parses, made owned.
    pub fn parse<'a>(input: &'a str) -> (r: ParseResult<'a, Self>)
        ensures
            match r {
                Ok((rest, node)) => grammar::const_definition(input.spec_bytes(), 0) == Some(
                    (node@, consumed(input, rest)),
                ) && is_rest(input, rest, consumed(input, rest)),
                Err(e) => grammar::const_definition(input.spec_bytes(), 0).is_none() && e.kind
                    == grammar::failure_kind(input.spec_bytes(), 0, "const"@) && e.input@
                    == input@,
            },
    {
        match ConstRef::parse(input) {
            Ok((rest, node)) => Ok((rest, Const::from(node))),
            Err(e) => Err(e),
        }
    }
}

impl<'a> From<ConstRef<'a>> for Const {
    /// The owned constant definition that is what the borrowed one is.
    fn from(r: ConstRef<'a>) -> (o: Self)
        ensures
            o@ == r@,
    {
        Const::copy_of(&r)
    }
}

impl<'a> FromSpecImpl<ConstRef<'a>> for Const {
    open spec fn obeys_from_spec() -> bool {
        false
    }

    open spec fn from_spec(r: ConstRef<'a>) -> Self {
        arbitrary()
    }
}

/// A type definition, borrowed from the input.
#[derive(Debug, Clone, PartialEq, Eq)]
pub struct TypedefRef<'a> {
    pub doc_comment: Option<CommentRef<'a>>,
    pub old: FieldTypeRef<'a>,
    pub alias: IdentifierRef<'a>,
}

/// A type definition.
#[derive(Debug, Clone, PartialEq, Eq)]
pub struct Typedef {
    pub doc_comment: Option<Comment>,
    pub old: FieldType,
    pub alias: Identifier,
}

impl<'a> View for TypedefRef<'a> {
    type V = TypedefModel;

    open spec fn view(&self) -> TypedefModel {
        TypedefModel {
            doc_comment: self.doc_comment.deep_view(),
            old: self.old@,
            alias: self.alias@,
        }
    }
}

impl<'a> DeepView for TypedefRef<'a> {
    type V = TypedefModel;

    open spec fn deep_view(&self) -> TypedefModel {
        self@
    }
}

impl View for Typedef {
    type V = TypedefModel;

    open spec fn view(&self) -> TypedefModel {
        TypedefModel {
            doc_comment: self.doc_comment.deep_view(),
            old: self.old@,
            alias: self.alias@,
        }
    }
}

impl DeepView for Typedef {
    type V = TypedefModel;

    open spec fn deep_view(&self) -> TypedefModel {
        self@
    }
}

impl<'a> TypedefRef<'a> {
    /// Parses a type definition at the byte position `pos` of `src`.
    #[verifier::rlimit(30)]
    pub fn parse_at(src: &'a str, pos: usize) -> (r: Result<(Self, usize), FailureKind>)
        ensures
            match r {
                Ok((node, end)) => grammar::typedef_definition(src.spec_bytes(), pos as int) == Some(
                    (node@, end as int),
                ) && ends_match(src.spec_bytes(), pos as int, end as int),
                Err(kind) => grammar::typedef_definition(src.spec_bytes(), pos as int).is_none() && kind
                    == grammar::failure_kind(src.spec_bytes(), pos as int, "typedef"@),
            },
    {
        proof {
            reveal_strlit("typedef");
        }
        let bytes = src.as_bytes();
        let (doc_comment, start) = match definition_head_at(src, pos, "typedef") {
            Some(head) => head,
            None => {
                return Err(FailureKind::NoMatch);
            },
        };
        let (old, old_end) = match FieldTypeRef::definition_type_at(src, start) {
            Some(found) => found,
            None => {
                return Err(FailureKind::Incomplete);
            },
        };
        let alias_start = match scan_separator(bytes, old_end) {
            Some(found) => found,
            None => {
                return Err(FailureKind::Incomplete);
            },
        };
        match IdentifierRef::parse_at(src, alias_start) {
            Some((alias, end)) => Ok((TypedefRef { doc_comment, old, alias }, end)),
            None => Err(FailureKind::Incomplete),
        }
    }

    /// Parses a type definition at the start of `input`: `typedef`, a base or
    /// container type, and the new name.
    ///
    /// What is returned is the node and the input that follows the
    /// definition. A failure consumes nothing; its kind is `NoMatch` where
    /// the input does not start with the keyword of the definition, after an
    /// optional documenting comment, and `Incomplete` where it does.
    pub fn parse(input: &'a str) -> (r: ParseResult<'a, Self>)
        ensures
            match r {
                Ok((rest, node)) => grammar::typedef_definition(input.spec_bytes(), 0) == Some(
                    (node@, consumed(input, rest)),
                ) && is_rest(input, rest, consumed(input, rest)),
                Err(e) => grammar::typedef_definition(input.spec_bytes(), 0).is_none() && e.kind
                    == grammar::failure_kind(input.spec_bytes(), 0, "typedef"@) && e.input@
                    == input@,
            },
    {
        conclude_definition(input, Self::parse_at(input, 0))
    }
}

impl Typedef {
    /// Copies a borrowed type definition into an owned one.
    pub fn copy_of<'a>(r: &TypedefRef<'a>) -> (o: Self)
        ensures
            o@ == r@,
    {
        Typedef {
            doc_comment: copy_of_comment(&r.doc_comment),
            old: FieldType::copy_of(&r.old),
            alias: Identifier::from(r.alias),
        }
    }

    /// Parses a type definition at the start of `input`, and copies it: the
    /// result is what the borrowed form parses, made owned.
    pub fn parse<'a>(input: &'a str) -> (r: ParseResult<'a, Self>)
        ensures
            match r {
                Ok((rest, node)) => grammar::typedef_definition(input.spec_bytes(), 0) == Some(
                    (node@, consumed(input, rest)),
                ) && is_rest(input, rest, consumed(input, rest)),
                Err(e) => grammar::typedef_definition(input.spec_bytes(), 0).is_none() && e.kind
                    == grammar::failure_kind(input.spec_bytes(), 0, "typedef"@) && e.input@
                    == input@,
            },
    {
        match TypedefRef::parse(input) {
            Ok((rest, node)) => Ok((rest, Typedef::from(node))),
            Err(e) => Err(e),
        }
    }
}

impl<'a> From<TypedefRef<'a>> for Typedef {
    /// The owned type definition that is what the borrowed one is.
    fn from(r: TypedefRef<'a>) -> (o: Self)
        ensures
            o@ == r@,
    {
        Typedef::copy_of(&r)
    }
}

impl<'a> FromSpecImpl<TypedefRef<'a>> for Typedef {
    open spec fn obeys_from_spec() -> bool {
        false
    }

    open spec fn from_spec(r: TypedefRef<'a>) -> Self {
        arbitrary()
    }
}

/// A member of an enum, borrowed from the input.
#[derive(Debug, Clone, PartialEq, Eq)]
pub struct EnumValueRef<'a> {
    pub name: IdentifierRef<'a>,
    pub value: Option<IntConstant>,
}

/// A member of an enum.
#[derive(Debug, Clone, PartialEq, Eq)]
pub struct EnumValue {
    pub name: Identifier,
    pub value: Option<IntConstant>,
}

impl<'a> View for EnumValueRef<'a> {
    type V = EnumValueModel;

    open spec fn view(&self) -> EnumValueModel {
        EnumValueModel {
            name: self.name@,
            value: self.value.deep_view(),
        }
    }
}

impl<'a> DeepView for EnumValueRef<'a> {
    type V = EnumValueModel;

    open spec fn deep_view(&self) -> EnumValueModel {
        self@
    }
}

impl View for EnumValue {
    type V = EnumValueModel;

    open spec fn view(&self) -> EnumValueModel {
        EnumValueModel {
            name: self.name@,
            value: self.value.deep_view(),
        }
    }
}

impl DeepView for EnumValue {
    type V = EnumValueModel;

    open spec fn deep_view(&self) -> EnumValueModel {
        self@
    }
}

impl<'a> EnumValueRef<'a> {
    /// Parses a member of an enum at the byte position `pos` of `src`.
    pub fn parse_at(src: &'a str, pos: usize) -> (r: Option<(Self, usize)>)
        ensures
            match r {
                Some((node, end)) => grammar::enum_value(src.spec_bytes(), pos as int) == Some(
                    (node@, end as int),
                ) && ends_match(src.spec_bytes(), pos as int, end as int),
                None => grammar::enum_value(src.spec_bytes(), pos as int).is_none(),
            },
    {
        let bytes = src.as_bytes();
        match IdentifierRef::parse_at(src, pos) {
            Some((name, name_end)) => {
                let written = match scan_mark(bytes, name_end, '=') {
                    Some(equals) => IntConstant::parse_at(bytes, skip_separators(bytes, equals)),
                    None => None,
                };
                let (value, end) = match written {
                    Some((value, end)) => (Some(value), end),
                    None => (None, name_end),
                };
                Some((EnumValueRef { name, value }, end))
            },
            None => None,
        }
    }

    /// Parses members of an enum parted by list gaps from the byte position
    /// `start` of `src`, as many as there are.
    pub fn members_at(src: &'a str, start: usize) -> (r: (Vec<Self>, usize))
        ensures
            grammar::list(
                src.spec_bytes().len() as int,
                start as int,
                grammar::list_gap_rule(src.spec_bytes()),
                grammar::enum_value_rule(src.spec_bytes()),
            ) == (r.0.deep_view(), r.1 as int),
            start <= r.1,
            start <= src.spec_bytes().len() ==> r.1 <= src.spec_bytes().len(),
    {
        let bytes = src.as_bytes();
        let ghost s = bytes@;
        let ghost len = s.len() as int;
        let ghost gap = grammar::list_gap_rule(s);
        let ghost item = grammar::enum_value_rule(s);
        let mut items: Vec<EnumValueRef<'a>> = Vec::new();
        let mut cur = start;
        proof {
            grammar::lemma_list_first(len, start as int, gap, item);
        }
        match Self::parse_at(src, start) {
            Some((first, first_end)) => {
                items.push(first);
                cur = first_end;
                assert(items.deep_view() =~= seq![first@]);
                loop
                    invariant
                        s == src.spec_bytes(),
                        s == bytes@,
                        len == s.len(),
                        gap == grammar::list_gap_rule(s),
                        item == grammar::enum_value_rule(s),
                        start <= cur <= len,
                        grammar::list(len, start as int, gap, item) == grammar::joined(
                            items.deep_view(),
                            grammar::list_tail(len, cur as int, gap, item),
                        ),
                    ensures
                        start <= cur <= len,
                        grammar::list(len, start as int, gap, item) == (
                            items.deep_view(),
                            cur as int,
                        ),
                    decreases len - cur,
                {
                    proof {
                        grammar::lemma_list_next(len, cur as int, gap, item, items.deep_view());
                    }
                    match scan_list_gap(bytes, cur) {
                        Some(next) => match Self::parse_at(src, next) {
                            Some((x, end)) => {
                                let ghost before = items.deep_view();
                                items.push(x);
                                cur = end;
                                assert(items.deep_view() =~= before.push(x@));
                            },
                            None => {
                                break ;
                            },
                        },
                        None => {
                            break ;
                        },
                    }
                }
            },
            None => {
                assert(items.deep_view() =~= Seq::empty());
            },
        }
        (items, cur)
    }

    /// Parses a member of an enum at the start of `input`: a name, and
    /// optionally `=` and an integer.
    pub fn parse(input: &'a str) -> (r: ParseResult<'a, Self>)
        ensures
            match r {
                Ok((rest, node)) => grammar::enum_value(input.spec_bytes(), 0) == Some(
                    (node@, consumed(input, rest)),
                ) && is_rest(input, rest, consumed(input, rest)),
                Err(e) => grammar::enum_value(input.spec_bytes(), 0).is_none() && e.kind
                    == FailureKind::NoMatch && e.input@ == input@,
            },
    {
        conclude(input, Self::parse_at(input, 0), FailureKind::NoMatch)
    }
}

impl EnumValue {
    /// Copies a borrowed member of an enum into an owned one.
    pub fn copy_of<'a>(r: &EnumValueRef<'a>) -> (o: Self)
        ensures
            o@ == r@,
    {
        EnumValue { name: Identifier::from(r.name), value: r.value }
    }

    /// Copies borrowed members of an enum into owned ones, in their order.
    pub fn copies_of<'a>(members: &Vec<EnumValueRef<'a>>) -> (o: Vec<Self>)
        ensures
            o.deep_view() == members.deep_view(),
    {
        let mut items: Vec<EnumValue> = Vec::new();
        let mut i: usize = 0;
        while i < members.len()
            invariant
                i <= members.len(),
                items.len() == i,
                forall|j: int| 0 <= j < i ==> items[j]@ == members[j]@,
            decreases members.len() - i,
        {
            items.push(Self::copy_of(&members[i]));
            i += 1;
        }
        assert(items.deep_view() =~= members.deep_view());
        items
    }

    /// Parses a member of an enum at the start of `input`, and copies it.
    pub fn parse<'a>(input: &'a str) -> (r: ParseResult<'a, Self>)
        ensures
            match r {
                Ok((rest, node)) => grammar::enum_value(input.spec_bytes(), 0) == Some(
                    (node@, consumed(input, rest)),
                ) && is_rest(input, rest, consumed(input, rest)),
                Err(e) => grammar::enum_value(input.spec_bytes(), 0).is_none() && e.kind
                    == FailureKind::NoMatch && e.input@ == input@,
            },
    {
        match EnumValueRef::parse(input) {
            Ok((rest, node)) => Ok((rest, EnumValue::from(node))),
            Err(e) => Err(e),
        }
    }
}

impl<'a> From<EnumValueRef<'a>> for EnumValue {
    /// The owned member that is what the borrowed one is.
    fn from(r: EnumValueRef<'a>) -> (o: Self)
        ensures
            o@ == r@,
    {
        EnumValue::copy_of(&r)
    }
}

impl<'a> FromSpecImpl<EnumValueRef<'a>> for EnumValue {
    open spec fn obeys_from_spec() -> bool {
        false
    }

    open spec fn from_spec(r: EnumValueRef<'a>) -> Self {
        arbitrary()
    }
}

/// A enum definition, borrowed from the input.
#[derive(Debug, Clone, PartialEq, Eq)]
pub struct EnumRef<'a> {
    pub doc_comment: Option<CommentRef<'a>>,
    pub name: IdentifierRef<'a>,
    pub children: Vec<EnumValueRef<'a>>,
}

/// A enum definition.
#[derive(Debug, Clone, PartialEq, Eq)]
pub struct Enum {
    pub doc_comment: Option<Comment>,
    pub name: Identifier,
    pub children: Vec<EnumValue>,
}

impl<'a> View for EnumRef<'a> {
    type V = EnumModel;

    open spec fn view(&self) -> EnumModel {
        EnumModel {
            doc_comment: self.doc_comment.deep_view(),
            name: self.name@,
            children: self.children.deep_view(),
        }
    }
}

impl<'a> DeepView for EnumRef<'a> {
    type V = EnumModel;

    open spec fn deep_view(&self) -> EnumModel {
        self@
    }
}

impl View for Enum {
    type V = EnumModel;

    open spec fn view(&self) -> EnumModel {
        EnumModel {
            doc_comment: self.doc_comment.deep_view(),
            name: self.name@,
            children: self.children.deep_view(),
        }
    }
}

impl DeepView for Enum {
    type V = EnumModel;

    open spec fn deep_view(&self) -> EnumModel {
        self@
    }
}

impl<'a> EnumRef<'a> {
    /// Parses a enum definition at the byte position `pos` of `src`.
    #[verifier::rlimit(30)]
    pub fn parse_at(src: &'a str, pos: usize) -> (r: Result<(Self, usize), FailureKind>)
        ensures
            match r {
                Ok((node, end)) => grammar::enum_definition(src.spec_bytes(), pos as int) == Some(
                    (node@, end as int),
                ) && ends_match(src.spec_bytes(), pos as int, end as int),
                Err(kind) => grammar::enum_definition(src.spec_bytes(), pos as int).is_none() && kind
                    == grammar::failure_kind(src.spec_bytes(), pos as int, "enum"@),
            },
    {
        proof {
            reveal_strlit("enum");
        }
        let bytes = src.as_bytes();
        let (doc_comment, name_start) = match definition_head_at(src, pos, "enum") {
            Some(head) => head,
            None => {
                return Err(FailureKind::NoMatch);
            },
        };
        let (name, name_end) = match IdentifierRef::parse_at(src, name_start) {
            Some(found) => found,
            None => {
                return Err(FailureKind::Incomplete);
            },
        };
        let open = match scan_mark(bytes, name_end, '{') {
            Some(found) => found,
            None => {
                return Err(FailureKind::Incomplete);
            },
        };
        let (children, stop) = EnumValueRef::members_at(src, skip_separators(bytes, open));
        match scan_mark(bytes, skip_gap(bytes, stop), '}') {
            Some(end) => Ok((EnumRef { doc_comment, name, children }, end)),
            None => Err(FailureKind::Incomplete),
        }
    }

    /// Parses a enum definition at the start of `input`: `enum`, a name, and in
    /// curly brackets members parted by list gaps, with an optional gap after
    /// the last.
    ///
    /// What is returned is the node and the input that follows the
    /// definition. A failure consumes nothing; its kind is `NoMatch` where
    /// the input does not start with the keyword of the definition, after an
    /// optional documenting comment, and `Incomplete` where it does.
    pub fn parse(input: &'a str) -> (r: ParseResult<'a, Self>)
        ensures
            match r {
                Ok((rest, node)) => grammar::enum_definition(input.spec_bytes(), 0) == Some(
                    (node@, consumed(input, rest)),
                ) && is_rest(input, rest, consumed(input, rest)),
                Err(e) => grammar::enum_definition(input.spec_bytes(), 0).is_none() && e.kind
                    == grammar::failure_kind(input.spec_bytes(), 0, "enum"@) && e.input@
                    == input@,
            },
    {
        conclude_definition(input, Self::parse_at(input, 0))
    }
}

impl Enum {
    /// Copies a borrowed enum definition into an owned one.
    pub fn copy_of<'a>(r: &EnumRef<'a>) -> (o: Self)
        ensures
            o@ == r@,
    {
        Enum {
            doc_comment: copy_of_comment(&r.doc_comment),
            name: Identifier::from(r.name),
            children: EnumValue::copies_of(&r.children),
        }
    }

    /// Parses a enum definition at the start of `input`, and copies it: the
    /// result is what the borrowed form parses, made owned.
    pub fn parse<'a>(input: &'a str) -> (r: ParseResult<'a, Self>)
        ensures
            match r {
                Ok((rest, node)) => grammar::enum_definition(input.spec_bytes(), 0) == Some(
                    (node@, consumed(input, rest)),
                ) && is_rest(input, rest, consumed(input, rest)),
                Err(e) => grammar::enum_definition(input.spec_bytes(), 0).is_none() && e.kind
                    == grammar::failure_kind(input.spec_bytes(), 0, "enum"@) && e.input@
                    == input@,
            },
    {
        match EnumRef::parse(input) {
            Ok((rest, node)) => Ok((rest, Enum::from(node))),
            Err(e) => Err(e),
        }
    }
}

impl<'a> From<EnumRef<'a>> for Enum {
    /// The owned enum definition that is what the borrowed one is.
    fn from(r: EnumRef<'a>) -> (o: Self)
        ensures
            o@ == r@,
    {
        Enum::copy_of(&r)
    }
}

impl<'a> FromSpecImpl<EnumRef<'a>> for Enum {
    open spec fn obeys_from_spec() -> bool {
        false
    }

    open spec fn from_spec(r: EnumRef<'a>) -> Self {
        arbitrary()
    }
}

/// Parses a struct, a union or an exception, whose keyword is `word`, at the
/// byte position `pos` of `src`: the documenting comment, the name and the
/// fields.
#[verifier::rlimit(30)]
fn record_at<'a>(src: &'a str, pos: usize, word: &str) -> (r: Result<
    ((Option<CommentRef<'a>>, IdentifierRef<'a>, Vec<FieldRef<'a>>), usize),
    FailureKind,
>)
    requires
        word.is_ascii(),
        word@.len() > 0,
    ensures
        match r {
            Ok(((doc, name, fields), end)) => grammar::record_definition(
                src.spec_bytes(),
                pos as int,
                word@,
            ) == Some(
                (
                    RecordModel {
                        doc_comment: doc.deep_view(),
                        name: name@,
                        fields: fields.deep_view(),
                    },
                    end as int,
                ),
            ) && ends_match(src.spec_bytes(), pos as int, end as int),
            Err(kind) => grammar::record_definition(src.spec_bytes(), pos as int, word@).is_none()
                && kind == grammar::failure_kind(src.spec_bytes(), pos as int, word@),
        },
{
    let bytes = src.as_bytes();
    let (doc, name_start) = match definition_head_at(src, pos, word) {
        Some(head) => head,
        None => {
            return Err(FailureKind::NoMatch);
        },
    };
    let (name, name_end) = match IdentifierRef::parse_at(src, name_start) {
        Some(found) => found,
        None => {
            return Err(FailureKind::Incomplete);
        },
    };
    let open = match scan_mark(bytes, name_end, '{') {
        Some(found) => found,
        None => {
            return Err(FailureKind::Incomplete);
        },
    };
    let (fields, stop) = FieldRef::members_at(src, skip_separators(bytes, open));
    match scan_mark(bytes, stop, '}') {
        Some(end) => Ok(((doc, name, fields), end)),
        None => Err(FailureKind::Incomplete),
    }
}

/// A struct definition, borrowed from the input.
#[derive(Debug, Clone, PartialEq, Eq)]
pub struct StructRef<'a> {
    pub doc_comment: Option<CommentRef<'a>>,
    pub name: IdentifierRef<'a>,
    pub fields: Vec<FieldRef<'a>>,
}

/// A struct definition.
#[derive(Debug, Clone, PartialEq, Eq)]
pub struct Struct {
    pub doc_comment: Option<Comment>,
    pub name: Identifier,
    pub fields: Vec<Field>,
}

impl<'a> View for StructRef<'a> {
    type V = RecordModel;

    open spec fn view(&self) -> RecordModel {
        RecordModel {
            doc_comment: self.doc_comment.deep_view(),
            name: self.name@,
            fields: self.fields.deep_view(),
        }
    }
}

impl<'a> DeepView for StructRef<'a> {
    type V = RecordModel;

    open spec fn deep_view(&self) -> RecordModel {
        self@
    }
}

impl View for Struct {
    type V = RecordModel;

    open spec fn view(&self) -> RecordModel {
        RecordModel {
            doc_comment: self.doc_comment.deep_view(),
            name: self.name@,
            fields: self.fields.deep_view(),
        }
    }
}

impl DeepView for Struct {
    type V = RecordModel;

    open spec fn deep_view(&self) -> RecordModel {
        self@
    }
}

/// The rule of the struct definition.
pub open spec fn struct_definition(s: Seq<u8>, pos: int) -> Option<(RecordModel, int)> {
    grammar::record_definition(s, pos, "struct"@)
}

impl<'a> StructRef<'a> {
    /// Parses a struct definition at the byte position `pos` of `src`.
    #[verifier::rlimit(30)]
    pub fn parse_at(src: &'a str, pos: usize) -> (r: Result<(Self, usize), FailureKind>)
        ensures
            match r {
                Ok((node, end)) => struct_definition(src.spec_bytes(), pos as int) == Some(
                    (node@, end as int),
                ) && ends_match(src.spec_bytes(), pos as int, end as int),
                Err(kind) => struct_definition(src.spec_bytes(), pos as int).is_none() && kind
                    == grammar::failure_kind(src.spec_bytes(), pos as int, "struct"@),
            },
    {
        proof {
            reveal_strlit("struct");
        }
        match record_at(src, pos, "struct") {
            Ok(((doc_comment, name, fields), end)) => Ok(
                (StructRef { doc_comment, name, fields }, end),
            ),
            Err(kind) => Err(kind),
        }
    }

    /// Parses a struct definition at the start of `input`: `struct`, a name,
    /// and in curly brackets fields parted by separators; a comma or semicolon
    /// may follow each field.
    ///
    /// What is returned is the node and the input that follows the
    /// definition. A failure consumes nothing; its kind is `NoMatch` where
    /// the input does not start with the keyword of the definition, after an
    /// optional documenting comment, and `Incomplete` where it does.
    pub fn parse(input: &'a str) -> (r: ParseResult<'a, Self>)
        ensures
            match r {
                Ok((rest, node)) => struct_definition(input.spec_bytes(), 0) == Some(
                    (node@, consumed(input, rest)),
                ) && is_rest(input, rest, consumed(input, rest)),
                Err(e) => struct_definition(input.spec_bytes(), 0).is_none() && e.kind
                    == grammar::failure_kind(input.spec_bytes(), 0, "struct"@) && e.input@
                    == input@,
            },
    {
        conclude_definition(input, Self::parse_at(input, 0))
    }
}

impl Struct {
    /// Copies a borrowed struct definition into an owned one.
    pub fn copy_of<'a>(r: &StructRef<'a>) -> (o: Self)
        ensures
            o@ == r@,
    {
        Struct {
            doc_comment: copy_of_comment(&r.doc_comment),
            name: Identifier::from(r.name),
            fields: Field::copies_of(&r.fields),
        }
    }

    /// Parses a struct definition at the start of `input`, and copies it: the
    /// result is what the borrowed form parses, made owned.
    pub fn parse<'a>(input: &'a str) -> (r: ParseResult<'a, Self>)
        ensures
            match r {
                Ok((rest, node)) => struct_definition(input.spec_bytes(), 0) == Some(
                    (node@, consumed(input, rest)),
                ) && is_rest(input, rest, consumed(input, rest)),
                Err(e) => struct_definition(input.spec_bytes(), 0).is_none() && e.kind
                    == grammar::failure_kind(input.spec_bytes(), 0, "struct"@) && e.input@
                    == input@,
            },
    {
        match StructRef::parse(input) {
            Ok((rest, node)) => Ok((rest, Struct::from(node))),
            Err(e) => Err(e),
        }
    }
}

impl<'a> From<StructRef<'a>> for Struct {
    /// The owned struct definition that is what the borrowed one is.
    fn from(r: StructRef<'a>) -> (o: Self)
        ensures
            o@ == r@,
    {
        Struct::copy_of(&r)
    }
}

impl<'a> FromSpecImpl<StructRef<'a>> for Struct {
    open spec fn obeys_from_spec() -> bool {
        false
    }

    open spec fn from_spec(r: StructRef<'a>) -> Self {
        arbitrary()
    }
}

/// A union definition, borrowed from the input.
#[derive(Debug, Clone, PartialEq, Eq)]
pub struct UnionRef<'a> {
    pub doc_comment: Option<CommentRef<'a>>,
    pub name: IdentifierRef<'a>,
    pub fields: Vec<FieldRef<'a>>,
}

/// A union definition.
#[derive(Debug, Clone, PartialEq, Eq)]
pub struct Union {
    pub doc_comment: Option<Comment>,
    pub name: Identifier,
    pub fields: Vec<Field>,
}

impl<'a> View for UnionRef<'a> {
    type V = RecordModel;

    open spec fn view(&self) -> RecordModel {
        RecordModel {
            doc_comment: self.doc_comment.deep_view(),
            name: self.name@,
            fields: self.fields.deep_view(),
        }
    }
}

impl<'a> DeepView for UnionRef<'a> {
    type V = RecordModel;

    open spec fn deep_view(&self) -> RecordModel {
        self@
    }
}

impl View for Union {
    type V = RecordModel;

    open spec fn view(&self) -> RecordModel {
        RecordModel {
            doc_comment: self.doc_comment.deep_view(),
            name: self.name@,
            fields: self.fields.deep_view(),
        }
    }
}

impl DeepView for Union {
    type V = RecordModel;

    open spec fn deep_view(&self) -> RecordModel {
        self@
    }
}

/// The rule of the union definition.
pub open spec fn union_definition(s: Seq<u8>, pos: int) -> Option<(RecordModel, int)> {
    grammar::record_definition(s, pos, "union"@)
}

impl<'a> UnionRef<'a> {
    /// Parses a union definition at the byte position `pos` of `src`.
    #[verifier::rlimit(30)]
    pub fn parse_at(src: &'a str, pos: usize) -> (r: Result<(Self, usize), FailureKind>)
        ensures
            match r {
                Ok((node, end)) => union_definition(src.spec_bytes(), pos as int) == Some(
                    (node@, end as int),
                ) && ends_match(src.spec_bytes(), pos as int, end as int),
                Err(kind) => union_definition(src.spec_bytes(), pos as int).is_none() && kind
                    == grammar::failure_kind(src.spec_bytes(), pos as int, "union"@),
            },
    {
        proof {
            reveal_strlit("union");
        }
        match record_at(src, pos, "union") {
            Ok(((doc_comment, name, fields), end)) => Ok(
                (UnionRef { doc_comment, name, fields }, end),
            ),
            Err(kind) => Err(kind),
        }
    }

    /// Parses a union definition at the start of `input`: `union`, a name,
    /// and in curly brackets fields parted by separators; a comma or semicolon
    /// may follow each field.
    ///
    /// What is returned is the node and the input that follows the
    /// definition. A failure consumes nothing; its kind is `NoMatch` where
    /// the input does not start with the keyword of the definition, after an
    /// optional documenting comment, and `Incomplete` where it does.
    pub fn parse(input: &'a str) -> (r: ParseResult<'a, Self>)
        ensures
            match r {
                Ok((rest, node)) => union_definition(input.spec_bytes(), 0) == Some(
                    (node@, consumed(input, rest)),
                ) && is_rest(input, rest, consumed(input, rest)),
                Err(e) => union_definition(input.spec_bytes(), 0).is_none() && e.kind
                    == grammar::failure_kind(input.spec_bytes(), 0, "union"@) && e.input@
                    == input@,
            },
    {
        conclude_definition(input, Self::parse_at(input, 0))
    }
}

impl Union {
    /// Copies a borrowed union definition into an owned one.
    pub fn copy_of<'a>(r: &UnionRef<'a>) -> (o: Self)
        ensures
            o@ == r@,
    {
        Union {
            doc_comment: copy_of_comment(&r.doc_comment),
            name: Identifier::from(r.name),
            fields: Field::copies_of(&r.fields),
        }
    }

    /// Parses a union definition at the start of `input`, and copies it: the
    /// result is what the borrowed form parses, made owned.
    pub fn parse<'a>(input: &'a str) -> (r: ParseResult<'a, Self>)
        ensures
            match r {
                Ok((rest, node)) => union_definition(input.spec_bytes(), 0) == Some(
                    (node@, consumed(input, rest)),
                ) && is_rest(input, rest, consumed(input, rest)),
                Err(e) => union_definition(input.spec_bytes(), 0).is_none() && e.kind
                    == grammar::failure_kind(input.spec_bytes(), 0, "union"@) && e.input@
                    == input@,
            },
    {
        match UnionRef::parse(input) {
            Ok((rest, node)) => Ok((rest, Union::from(node))),
            Err(e) => Err(e),
        }
    }
}

impl<'a> From<UnionRef<'a>> for Union {
    /// The owned union definition that is what the borrowed one is.
    fn from(r: UnionRef<'a>) -> (o: Self)
        ensures
            o@ == r@,
    {
        Union::copy_of(&r)
    }
}

impl<'a> FromSpecImpl<UnionRef<'a>> for Union {
    open spec fn obeys_from_spec() -> bool {
        false
    }

    open spec fn from_spec(r: UnionRef<'a>) -> Self {
        arbitrary()
    }
}

/// A exception definition, borrowed from the input.
#[derive(Debug, Clone, PartialEq, Eq)]
pub struct ExceptionRef<'a> {
    pub doc_comment: Option<CommentRef<'a>>,
    pub name: IdentifierRef<'a>,
    pub fields: Vec<FieldRef<'a>>,
}

/// A exception definition.
#[derive(Debug, Clone, PartialEq, Eq)]
pub struct Exception {
    pub doc_comment: Option<Comment>,
    pub name: Identifier,
    pub fields: Vec<Field>,
}

impl<'a> View for ExceptionRef<'a> {
    type V = RecordModel;

    open spec fn view(&self) -> RecordModel {
        RecordModel {
            doc_comment: self.doc_comment.deep_view(),
            name: self.name@,
            fields: self.fields.deep_view(),
        }
    }
}

impl<'a> DeepView for ExceptionRef<'a> {
    type V = RecordModel;

    open spec fn deep_view(&self) -> RecordModel {
        self@
    }
}

impl View for Exception {
    type V = RecordModel;

    open spec fn view(&self) -> RecordModel {
        RecordModel {
            doc_comment: self.doc_comment.deep_view(),
            name: self.name@,
            fields: self.fields.deep_view(),
        }
    }
}

impl DeepView for Exception {
    type V = RecordModel;

    open spec fn deep_view(&self) -> RecordModel {
        self@
    }
}

/// The rule of the exception definition.
pub open spec fn exception_definition(s: Seq<u8>, pos: int) -> Option<(RecordModel, int)> {
    grammar::record_definition(s, pos, "exception"@)
}

impl<'a> ExceptionRef<'a> {
    /// Parses a exception definition at the byte position `pos` of `src`.
    #[verifier::rlimit(30)]
    pub fn parse_at(src: &'a str, pos: usize) -> (r: Result<(Self, usize), FailureKind>)
        ensures
            match r {
                Ok((node, end)) => exception_definition(src.spec_bytes(), pos as int) == Some(
                    (node@, end as int),
                ) && ends_match(src.spec_bytes(), pos as int, end as int),
                Err(kind) => exception_definition(src.spec_bytes(), pos as int).is_none() && kind
                    == grammar::failure_kind(src.spec_bytes(), pos as int, "exception"@),
            },
    {
        proof {
            reveal_strlit("exception");
        }
        match record_at(src, pos, "exception") {
            Ok(((doc_comment, name, fields), end)) => Ok(
                (ExceptionRef { doc_comment, name, fields }, end),
            ),
            Err(kind) => Err(kind),
        }
    }

    /// Parses a exception definition at the start of `input`: `exception`, a name,
    /// and in curly brackets fields parted by separators; a comma or semicolon
    /// may follow each field.
    ///
    /// What is returned is the node and the input that follows the
    /// definition. A failure consumes nothing; its kind is `NoMatch` where
    /// the input does not start with the keyword of the definition, after an
    /// optional documenting comment, and `Incomplete` where it does.
    pub fn parse(input: &'a str) -> (r: ParseResult<'a, Self>)
        ensures
            match r {
                Ok((rest, node)) => exception_definition(input.spec_bytes(), 0) == Some(
                    (node@, consumed(input, rest)),
                ) && is_rest(input, rest, consumed(input, rest)),
                Err(e) => exception_definition(input.spec_bytes(), 0).is_none() && e.kind
                    == grammar::failure_kind(input.spec_bytes(), 0, "exception"@) && e.input@
                    == input@,
            },
    {
        conclude_definition(input, Self::parse_at(input, 0))
    }
}

impl Exception {
    /// Copies a borrowed exception definition into an owned one.
    pub fn copy_of<'a>(r: &ExceptionRef<'a>) -> (o: Self)
        ensures
            o@ == r@,
    {
        Exception {
            doc_comment: copy_of_comment(&r.doc_comment),
            name: Identifier::from(r.name),
            fields: Field::copies_of(&r.fields),
        }
    }

    /// Parses a exception definition at the start of `input`, and copies it: the
    /// result is what the borrowed form parses, made owned.
    pub fn parse<'a>(input: &'a str) -> (r: ParseResult<'a, Self>)
        ensures
            match r {
                Ok((rest, node)) => exception_definition(input.spec_bytes(), 0) == Some(
                    (node@, consumed(input, rest)),
                ) && is_rest(input, rest, consumed(input, rest)),
                Err(e) => exception_definition(input.spec_bytes(), 0).is_none() && e.kind
                    == grammar::failure_kind(input.spec_bytes(), 0, "exception"@) && e.input@
                    == input@,
            },
    {
        match ExceptionRef::parse(input) {
            Ok((rest, node)) => Ok((rest, Exception::from(node))),
            Err(e) => Err(e),
        }
    }
}

impl<'a> From<ExceptionRef<'a>> for Exception {
    /// The owned exception definition that is what the borrowed one is.
    fn from(r: ExceptionRef<'a>) -> (o: Self)
        ensures
            o@ == r@,
    {
        Exception::copy_of(&r)
    }
}

impl<'a> FromSpecImpl<ExceptionRef<'a>> for Exception {
    open spec fn obeys_from_spec() -> bool {
        false
    }

    open spec fn from_spec(r: ExceptionRef<'a>) -> Self {
        arbitrary()
    }
}

/// A service definition, borrowed from the input.
#[derive(Debug, Clone, PartialEq, Eq)]
pub struct ServiceRef<'a> {
    pub doc_comment: Option<CommentRef<'a>>,
    pub name: IdentifierRef<'a>,
    pub extension: Option<IdentifierRef<'a>>,
    pub functions: Vec<FunctionRef<'a>>,
}

/// A service definition.
#[derive(Debug, Clone, PartialEq, Eq)]
pub struct Service {
    pub doc_comment: Option<Comment>,
    pub name: Identifier,
    pub extension: Option<Identifier>,
    pub functions: Vec<Function>,
}

impl<'a> View for ServiceRef<'a> {
    type V = ServiceModel;

    open spec fn view(&self) -> ServiceModel {
        ServiceModel {
            doc_comment: self.doc_comment.deep_view(),
            name: self.name@,
            extension: self.extension.deep_view(),
            functions: self.functions.deep_view(),
        }
    }
}

impl<'a> DeepView for ServiceRef<'a> {
    type V = ServiceModel;

    open spec fn deep_view(&self) -> ServiceModel {
        self@
    }
}

impl View for Service {
    type V = ServiceModel;

    open spec fn view(&self) -> ServiceModel {
        ServiceModel {
            doc_comment: self.doc_comment.deep_view(),
            name: self.name@,
            extension: self.extension.deep_view(),
            functions: self.functions.deep_view(),
        }
    }
}

impl DeepView for Service {
    type V = ServiceModel;

    open spec fn deep_view(&self) -> ServiceModel {
        self@
    }
}

/// Parses the service that a service extends at the byte position `pos` of
/// `src`.
fn extension_at<'a>(src: &'a str, pos: usize) -> (r: Option<(IdentifierRef<'a>, usize)>)
    ensures
        match r {
            Some((name, end)) => grammar::extension(src.spec_bytes(), pos as int) == Some(
                (name@, end as int),
            ) && pos < end <= src.spec_bytes().len(),
            None => grammar::extension(src.spec_bytes(), pos as int).is_none(),
        },
{
    proof {
        reveal_strlit("extends");
    }
    let bytes = src.as_bytes();
    match scan_spaced_keyword(bytes, pos, "extends") {
        Some(name_start) => match IdentifierRef::parse_at(src, name_start) {
            Some((name, name_end)) => Some((name, skip_separators(bytes, name_end))),
            None => None,
        },
        None => None,
    }
}

impl<'a> ServiceRef<'a> {
    /// Parses a service definition at the byte position `pos` of `src`.
    #[verifier::rlimit(30)]
    pub fn parse_at(src: &'a str, pos: usize) -> (r: Result<(Self, usize), FailureKind>)
        ensures
            match r {
                Ok((node, end)) => grammar::service_definition(src.spec_bytes(), pos as int) == Some(
                    (node@, end as int),
                ) && ends_match(src.spec_bytes(), pos as int, end as int),
                Err(kind) => grammar::service_definition(src.spec_bytes(), pos as int).is_none() && kind
                    == grammar::failure_kind(src.spec_bytes(), pos as int, "service"@),
            },
    {
        proof {
            reveal_strlit("service");
        }
        let bytes = src.as_bytes();
        let (doc_comment, name_start) = match definition_head_at(src, pos, "service") {
            Some(head) => head,
            None => {
                return Err(FailureKind::NoMatch);
            },
        };
        let (name, name_end) = match IdentifierRef::parse_at(src, name_start) {
            Some(found) => found,
            None => {
                return Err(FailureKind::Incomplete);
            },
        };
        let after_name = skip_separators(bytes, name_end);
        let (extension, open) = match extension_at(src, after_name) {
            Some((base, end)) => (Some(base), end),
            None => (None, after_name),
        };
        if !has_byte(bytes, open, '{') {
            return Err(FailureKind::Incomplete);
        }
        let (functions, stop) = FunctionRef::members_at(src, skip_separators(bytes, open + 1));
        match scan_mark(bytes, stop, '}') {
            Some(end) => Ok((ServiceRef { doc_comment, name, extension, functions }, end)),
            None => Err(FailureKind::Incomplete),
        }
    }

    /// Parses a service definition at the start of `input`: `service`, a name,
    /// optionally `extends` and the name of another service, and in curly
    /// brackets functions parted by separators; a comma or semicolon may follow
    /// each function.
    ///
    /// What is returned is the node and the input that follows the
    /// definition. A failure consumes nothing; its kind is `NoMatch` where
    /// the input does not start with the keyword of the definition, after an
    /// optional documenting comment, and `Incomplete` where it does.
    pub fn parse(input: &'a str) -> (r: ParseResult<'a, Self>)
        ensures
            match r {
                Ok((rest, node)) => grammar::service_definition(input.spec_bytes(), 0) == Some(
                    (node@, consumed(input, rest)),
                ) && is_rest(input, rest, consumed(input, rest)),
                Err(e) => grammar::service_definition(input.spec_bytes(), 0).is_none() && e.kind
                    == grammar::failure_kind(input.spec_bytes(), 0, "service"@) && e.input@
                    == input@,
            },
    {
        conclude_definition(input, Self::parse_at(input, 0))
    }
}

impl Service {
    /// Copies a borrowed service definition into an owned one.
    pub fn copy_of<'a>(r: &ServiceRef<'a>) -> (o: Self)
        ensures
            o@ == r@,
    {
        Service {
            doc_comment: copy_of_comment(&r.doc_comment),
            name: Identifier::from(r.name),
            extension: match &r.extension {
                Some(base) => Some(Identifier::from(*base)),
                None => None,
            },
            functions: Function::copies_of(&r.functions),
        }
    }

    /// Parses a service definition at the start of `input`, and copies it: the
    /// result is what the borrowed form parses, made owned.
    pub fn parse<'a>(input: &'a str) -> (r: ParseResult<'a, Self>)
        ensures
            match r {
                Ok((rest, node)) => grammar::service_definition(input.spec_bytes(), 0) == Some(
                    (node@, consumed(input, rest)),
                ) && is_rest(input, rest, consumed(input, rest)),
                Err(e) => grammar::service_definition(input.spec_bytes(), 0).is_none() && e.kind
                    == grammar::failure_kind(input.spec_bytes(), 0, "service"@) && e.input@
                    == input@,
            },
    {
        match ServiceRef::parse(input) {
            Ok((rest, node)) => Ok((rest, Service::from(node))),
            Err(e) => Err(e),
        }
    }
}

impl<'a> From<ServiceRef<'a>> for Service {
    /// The owned service definition that is what the borrowed one is.
    fn from(r: ServiceRef<'a>) -> (o: Self)
        ensures
            o@ == r@,
    {
        Service::copy_of(&r)
    }
}

impl<'a> FromSpecImpl<ServiceRef<'a>> for Service {
    open spec fn obeys_from_spec() -> bool {
        false
    }

    open spec fn from_spec(r: ServiceRef<'a>) -> Self {
        arbitrary()
    }
}

impl Enum {
    /// The number that the member at `index` stands for: the one written for
    /// it, or else one more than the member before it stands for, and zero
    /// for the first. `None` where the enum has no member at `index`, or
    /// where a signed 64-bit integer does not hold the number.
    pub fn effective_value(&self, index: usize) -> (r: Option<i64>)
        ensures
            r == if index < self@.children.len() && i64::MIN <= effective_value(
                self@.children,
                index as int,
            ) <= i64::MAX {
                Some(effective_value(self@.children, index as int) as i64)
            } else {
                None
            },
    {
        if index >= self.children.len() {
            return None;
        }
        let ghost members = self@.children;
        let mut number: i128 = match self.children[0].value {
            Some(written) => written.0 as i128,
            None => 0,
        };
        let mut at: usize = 0;
        assert(members[0] == self.children[0]@);
        while at < index
            invariant
                at <= index < self.children.len(),
                members == self@.children,
                number == effective_value(members, at as int),
                i64::MIN <= number <= i64::MAX + at,
            decreases index - at,
        {
            at += 1;
            assert(members[at as int] == self.children[at as int]@);
            number = match self.children[at].value {
                Some(written) => written.0 as i128,
                None => number + 1,
            };
        }
        if number <= i64::MAX as i128 {
            Some(number as i64)
        } else {
            None
        }
    }
}

} // verus!
