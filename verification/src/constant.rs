//! Constants: integers, floating-point constants, and the values built from
//! them, from string literals and from identifiers.

use vstd::prelude::*;
use vstd::std_specs::convert::FromSpecImpl;
use vstd::string::StringSliceAdditionalSpecFns;
use vstd::utf8::encode_utf8;
use crate::basic::{
    ends_match, lemma_run_members, lemma_run_stops, lemma_separator_ends_at_cut,
};
use crate::error::{conclude, consumed, is_rest, FailureKind, ParseResult};
use crate::grammar;
use crate::grammar::ByteClass;
use crate::basic::{Identifier, IdentifierRef, Literal, LiteralRef};
use crate::lexical::{has_byte, scan_list_gap, scan_run, skip_gap, skip_separators};
use crate::model::ValueModel;
use crate::text::slice_text;

verus! {

/// An integer constant.
#[derive(Debug, Clone, Copy, PartialEq, Eq)]
pub struct IntConstant(pub i64);

impl View for IntConstant {
    type V = int;

    open spec fn view(&self) -> int {
        self.0 as int
    }
}

impl DeepView for IntConstant {
    type V = int;

    open spec fn deep_view(&self) -> int {
        self.0 as int
    }
}

impl From<i64> for IntConstant {
    fn from(value: i64) -> (r: Self) {
        IntConstant(value)
    }
}

impl FromSpecImpl<i64> for IntConstant {
    open spec fn obeys_from_spec() -> bool {
        true
    }

    open spec fn from_spec(value: i64) -> Self {
        IntConstant(value)
    }
}

/// The number that digits write does not shrink when more digits follow.
pub proof fn lemma_digits_grow(s: Seq<u8>, from: int, mid: int, to: int)
    requires
        0 <= from <= mid <= to <= s.len(),
        forall|i: int| from <= i < to ==> grammar::is_digit(#[trigger] s[i]),
    ensures
        0 <= grammar::digits_value(s, from, mid) <= grammar::digits_value(s, from, to),
    decreases to - mid,
{
    if mid < to {
        lemma_digits_grow(s, from, mid, to - 1);
        assert(grammar::is_digit(s[to - 1]));
    } else {
        lemma_digits_nonnegative(s, from, mid);
    }
}

/// Digits write a number that is not negative.
pub proof fn lemma_digits_nonnegative(s: Seq<u8>, from: int, to: int)
    requires
        0 <= from <= to <= s.len(),
        forall|i: int| from <= i < to ==> grammar::is_digit(#[trigger] s[i]),
    ensures
        0 <= grammar::digits_value(s, from, to),
    decreases to - from,
{
    if from < to {
        lemma_digits_nonnegative(s, from, to - 1);
        assert(grammar::is_digit(s[to - 1]));
    }
}

/// Skips a sign at `pos`, where one stands.
pub fn skip_one_sign(input: &[u8], pos: usize) -> (end: usize)
    ensures
        end == grammar::skip_sign(input@, pos as int),
        pos <= end,
        pos <= input.len() ==> end <= input.len(),
{
    if has_byte(input, pos, '+') || has_byte(input, pos, '-') {
        pos + 1
    } else {
        pos
    }
}

impl IntConstant {
    /// The value of the constant.
    pub fn value(&self) -> (r: i64)
        ensures
            r == self.0,
    {
        self.0
    }

    /// Parses an integer constant at the byte position `pos` of `input`.
    pub fn parse_at(input: &[u8], pos: usize) -> (r: Option<(Self, usize)>)
        ensures
            match r {
                Some((node, end)) => grammar::int_constant(input@, pos as int) == Some(
                    (node@, end as int),
                ) && ends_match(input@, pos as int, end as int),
                None => grammar::int_constant(input@, pos as int).is_none(),
            },
    {
        let negative = has_byte(input, pos, '-');
        let first = skip_one_sign(input, pos);
        let end = scan_run(input, first, ByteClass::Digit);
        if end == first {
            return None;
        }
        let ghost s = input@;
        proof {
            assert forall|i: int| first <= i < end implies grammar::is_digit(#[trigger] s[i]) by {
                lemma_run_members(s, first as int, ByteClass::Digit, i);
            }
        }
        let mut magnitude: i128 = 0;
        let mut i: usize = first;
        while i < end
            invariant
                first <= i <= end <= input.len(),
                s == input@,
                first == grammar::skip_sign(s, pos as int),
                end == grammar::run_end(s, first as int, ByteClass::Digit),
                forall|j: int| first <= j < end ==> grammar::is_digit(#[trigger] s[j]),
                magnitude == grammar::digits_value(s, first as int, i as int),
                0 <= magnitude <= 0x8000_0000_0000_0000,
            decreases end - i,
        {
            let digit = input[i] - '0' as u8;
            assert(grammar::is_digit(s[i as int]));
            magnitude = magnitude * 10 + digit as i128;
            i += 1;
            assert(magnitude == grammar::digits_value(s, first as int, i as int));
            if magnitude > 0x8000_0000_0000_0000 {
                proof {
                    lemma_digits_grow(s, first as int, i as int, end as int);
                }
                return None;
            }
        }
        let value = if negative {
            -magnitude
        } else {
            magnitude
        };
        if value > i64::MAX as i128 {
            None
        } else {
            Some((IntConstant(value as i64), end))
        }
    }

    /// Parses an integer constant at the start of `input`: an optional sign
    /// and one or more digits. A number that a signed 64-bit integer cannot
    /// hold is no match.
    pub fn parse<'a>(input: &'a str) -> (r: ParseResult<'a, Self>)
        ensures
            match r {
                Ok((rest, node)) => grammar::int_constant(input.spec_bytes(), 0) == Some(
                    (node@, consumed(input, rest)),
                ) && is_rest(input, rest, consumed(input, rest)),
                Err(e) => grammar::int_constant(input.spec_bytes(), 0).is_none() && e.kind
                    == FailureKind::NoMatch && e.input@ == input@,
            },
    {
        conclude(input, Self::parse_at(input.as_bytes(), 0), FailureKind::NoMatch)
    }
}

/// A floating-point constant, borrowed from the input: its text.
#[derive(Debug, Clone, Copy, PartialEq, Eq)]
pub struct DoubleConstantRef<'a>(pub &'a str);

/// A floating-point constant: its text.
#[derive(Debug, Clone, PartialEq, Eq)]
pub struct DoubleConstant(pub String);

impl<'a> View for DoubleConstantRef<'a> {
    type V = Seq<u8>;

    open spec fn view(&self) -> Seq<u8> {
        self.0.spec_bytes()
    }
}

impl<'a> DeepView for DoubleConstantRef<'a> {
    type V = Seq<u8>;

    open spec fn deep_view(&self) -> Seq<u8> {
        self.0.spec_bytes()
    }
}

impl View for DoubleConstant {
    type V = Seq<u8>;

    open spec fn view(&self) -> Seq<u8> {
        encode_utf8(self.0@)
    }
}

impl DeepView for DoubleConstant {
    type V = Seq<u8>;

    open spec fn deep_view(&self) -> Seq<u8> {
        encode_utf8(self.0@)
    }
}

impl<'a> From<&'a str> for DoubleConstantRef<'a> {
    fn from(text: &'a str) -> (r: Self) {
        DoubleConstantRef(text)
    }
}

impl<'a> FromSpecImpl<&'a str> for DoubleConstantRef<'a> {
    open spec fn obeys_from_spec() -> bool {
        true
    }

    open spec fn from_spec(text: &'a str) -> Self {
        DoubleConstantRef(text)
    }
}

impl<'a> From<DoubleConstantRef<'a>> for DoubleConstant {
    /// The owned constant with the text of the borrowed one.
    fn from(r: DoubleConstantRef<'a>) -> (o: Self)
        ensures
            o@ == r@,
    {
        DoubleConstant(r.0.to_owned())
    }
}

impl<'a> FromSpecImpl<DoubleConstantRef<'a>> for DoubleConstant {
    open spec fn obeys_from_spec() -> bool {
        false
    }

    open spec fn from_spec(r: DoubleConstantRef<'a>) -> Self {
        arbitrary()
    }
}

/// Skips an exponent at `pos`, where one stands.
pub fn skip_one_exponent(input: &[u8], pos: usize) -> (end: usize)
    ensures
        end == grammar::skip_exponent(input@, pos as int),
        pos <= end,
        pos <= input.len() ==> end <= input.len(),
        end > pos ==> grammar::is_digit(input@[end - 1]),
{
    if has_byte(input, pos, 'e') || has_byte(input, pos, 'E') {
        let first = skip_one_sign(input, pos + 1);
        let end = scan_run(input, first, ByteClass::Digit);
        if end > first {
            proof {
                lemma_run_members(input@, first as int, ByteClass::Digit, end - 1);
            }
            end
        } else {
            pos
        }
    } else {
        pos
    }
}

impl<'a> DoubleConstantRef<'a> {
    /// The text of the constant.
    pub fn as_str(&self) -> (r: &'a str)
        ensures
            r == self.0,
    {
        self.0
    }

    /// Parses a floating-point constant at the byte position `pos` of `src`.
    pub fn parse_at(src: &'a str, pos: usize) -> (r: Option<(Self, usize)>)
        ensures
            match r {
                Some((node, end)) => grammar::double_constant(src.spec_bytes(), pos as int)
                    == Some(end as int) && node@ == src.spec_bytes().subrange(
                    pos as int,
                    end as int,
                ) && ends_match(src.spec_bytes(), pos as int, end as int),
                None => grammar::double_constant(src.spec_bytes(), pos as int).is_none(),
            },
    {
        let input = src.as_bytes();
        let first = skip_one_sign(input, pos);
        let point = scan_run(input, first, ByteClass::Digit);
        if point > first && has_byte(input, point, '.') {
            let fraction_end = scan_run(input, point + 1, ByteClass::Digit);
            if fraction_end > point + 1 {
                let end = skip_one_exponent(input, fraction_end);
                proof {
                    lemma_run_members(input@, point + 1, ByteClass::Digit, fraction_end - 1);
                    lemma_run_members(input@, first as int, ByteClass::Digit, first as int);
                }
                return Some((DoubleConstantRef(slice_text(src, pos, end)), end));
            }
        }
        proof {
            if first <= input@.len() {
                lemma_run_stops(input@, first as int, ByteClass::Digit);
            }
        }
        None
    }

    /// Parses a floating-point constant at the start of `input`: an optional
    /// sign, digits, a point, digits, and an optional exponent. The node
    /// holds the text that was matched.
    pub fn parse(input: &'a str) -> (r: ParseResult<'a, Self>)
        ensures
            match r {
                Ok((rest, node)) => grammar::double_constant(input.spec_bytes(), 0) == Some(
                    consumed(input, rest),
                ) && node@ == input.spec_bytes().take(consumed(input, rest)) && is_rest(
                    input,
                    rest,
                    consumed(input, rest),
                ),
                Err(e) => grammar::double_constant(input.spec_bytes(), 0).is_none() && e.kind
                    == FailureKind::NoMatch && e.input@ == input@,
            },
    {
        conclude(input, Self::parse_at(input, 0), FailureKind::NoMatch)
    }
}

impl DoubleConstant {
    /// The text of the constant.
    pub fn as_str(&self) -> (r: &str)
        ensures
            r@ == self.0@,
    {
        self.0.as_str()
    }

    /// Parses a floating-point constant at the start of `input`, and copies
    /// its text.
    pub fn parse<'a>(input: &'a str) -> (r: ParseResult<'a, Self>)
        ensures
            match r {
                Ok((rest, node)) => grammar::double_constant(input.spec_bytes(), 0) == Some(
                    consumed(input, rest),
                ) && node@ == input.spec_bytes().take(consumed(input, rest)) && is_rest(
                    input,
                    rest,
                    consumed(input, rest),
                ),
                Err(e) => grammar::double_constant(input.spec_bytes(), 0).is_none() && e.kind
                    == FailureKind::NoMatch && e.input@ == input@,
            },
    {
        match DoubleConstantRef::parse(input) {
            Ok((rest, node)) => Ok((rest, DoubleConstant::from(node))),
            Err(e) => Err(e),
        }
    }
}

/// A constant value, borrowed from the input.
#[derive(Debug, PartialEq, Eq)]
pub enum ConstValueRef<'a> {
    Int(IntConstant),
    Double(DoubleConstantRef<'a>),
    Literal(LiteralRef<'a>),
    Identifier(IdentifierRef<'a>),
    List(Vec<ConstValueRef<'a>>),
    /// The entries of a map, in the order in which they were written.
    MapOf(Vec<(ConstValueRef<'a>, ConstValueRef<'a>)>),
}

/// A constant value.
#[derive(Debug, PartialEq, Eq)]
pub enum ConstValue {
    Int(IntConstant),
    Double(DoubleConstant),
    Literal(Literal),
    Identifier(Identifier),
    List(Vec<ConstValue>),
    /// The entries of a map, in the order in which they were written.
    MapOf(Vec<(ConstValue, ConstValue)>),
}

impl<'a> ConstValueRef<'a> {
    /// What the value is.
    pub open spec fn model(&self) -> ValueModel
        decreases self,
    {
        match self {
            ConstValueRef::Int(i) => ValueModel::Int(i@),
            ConstValueRef::Double(d) => ValueModel::Double(d@),
            ConstValueRef::Literal(l) => ValueModel::Literal(l@),
            ConstValueRef::Identifier(i) => ValueModel::Identifier(i@),
            ConstValueRef::List(v) => ValueModel::List(
                Seq::new(
                    v.len() as nat,
                    |i: int|
                        if 0 <= i < v.len() {
                            v[i].model()
                        } else {
                            ValueModel::Int(0)
                        },
                ),
            ),
            ConstValueRef::MapOf(v) => ValueModel::MapOf(
                Seq::new(
                    v.len() as nat,
                    |i: int|
                        if 0 <= i < v.len() {
                            (v[i].0.model(), v[i].1.model())
                        } else {
                            (ValueModel::Int(0), ValueModel::Int(0))
                        },
                ),
            ),
        }
    }
}

impl ConstValue {
    /// What the value is.
    pub open spec fn model(&self) -> ValueModel
        decreases self,
    {
        match self {
            ConstValue::Int(i) => ValueModel::Int(i@),
            ConstValue::Double(d) => ValueModel::Double(d@),
            ConstValue::Literal(l) => ValueModel::Literal(l@),
            ConstValue::Identifier(i) => ValueModel::Identifier(i@),
            ConstValue::List(v) => ValueModel::List(
                Seq::new(
                    v.len() as nat,
                    |i: int|
                        if 0 <= i < v.len() {
                            v[i].model()
                        } else {
                            ValueModel::Int(0)
                        },
                ),
            ),
            ConstValue::MapOf(v) => ValueModel::MapOf(
                Seq::new(
                    v.len() as nat,
                    |i: int|
                        if 0 <= i < v.len() {
                            (v[i].0.model(), v[i].1.model())
                        } else {
                            (ValueModel::Int(0), ValueModel::Int(0))
                        },
                ),
            ),
        }
    }
}

impl<'a> View for ConstValueRef<'a> {
    type V = ValueModel;

    open spec fn view(&self) -> ValueModel {
        self.model()
    }
}

impl<'a> DeepView for ConstValueRef<'a> {
    type V = ValueModel;

    open spec fn deep_view(&self) -> ValueModel {
        self.model()
    }
}

impl View for ConstValue {
    type V = ValueModel;

    open spec fn view(&self) -> ValueModel {
        self.model()
    }
}

impl DeepView for ConstValue {
    type V = ValueModel;

    open spec fn deep_view(&self) -> ValueModel {
        self.model()
    }
}

impl<'a> ConstValueRef<'a> {
    /// Parses the values of the list of constants that opens at the byte
    /// position `outer` of `src`; the first of them would start at `start`.
    fn items_at(src: &'a str, outer: usize, start: usize) -> (r: (Vec<Self>, usize))
        requires
            outer < start <= src.spec_bytes().len(),
        ensures
            grammar::list(
                src.spec_bytes().len() as int,
                start as int,
                grammar::list_gap_rule(src.spec_bytes()),
                grammar::value_rule(src.spec_bytes(), outer as int),
            ) == (r.0.deep_view(), r.1 as int),
            start <= r.1,
            start <= src.spec_bytes().len() ==> r.1 <= src.spec_bytes().len(),
        decreases src.spec_bytes().len() - outer - 1, 1int,
    {
        let bytes = src.as_bytes();
        let ghost s = bytes@;
        let ghost len = s.len() as int;
        let ghost gap = grammar::list_gap_rule(s);
        let ghost item = grammar::value_rule(s, outer as int);
        let mut items: Vec<ConstValueRef<'a>> = Vec::new();
        let mut cur = start;
        proof {
            grammar::lemma_list_first(len, start as int, gap, item);
        }
        match Self::parse_at(src, start) {
            Some((first, first_end)) => {
                items.push(first);
                cur = first_end;
                assert(items.deep_view() =~= seq![first@]);
                loop
                    invariant
                        s == src.spec_bytes(),
                        s == bytes@,
                        len == s.len(),
                        gap == grammar::list_gap_rule(s),
                        item == grammar::value_rule(s, outer as int),
                        outer < start <= cur <= len,
                        grammar::list(len, start as int, gap, item) == grammar::joined(
                            items.deep_view(),
                            grammar::list_tail(len, cur as int, gap, item),
                        ),
                    ensures
                        start <= cur <= len,
                        grammar::list(len, start as int, gap, item) == (
                            items.deep_view(),
                            cur as int,
                        ),
                    decreases len - cur,
                {
                    proof {
                        grammar::lemma_list_next(len, cur as int, gap, item, items.deep_view());
                    }
                    match scan_list_gap(bytes, cur) {
                        Some(next) => match Self::parse_at(src, next) {
                            Some((x, end)) => {
                                let ghost before = items.deep_view();
                                items.push(x);
                                cur = end;
                                assert(items.deep_view() =~= before.push(x@));
                            },
                            None => {
                                break ;
                            },
                        },
                        None => {
                            break ;
                        },
                    }
                }
            },
            None => {
                assert(items.deep_view() =~= Seq::empty());
            },
        }
        (items, cur)
    }

    /// Parses a list of constants, which opens at the byte position `pos` of
    /// `src`.
    fn list_at(src: &'a str, pos: usize) -> (r: Option<(Self, usize)>)
        requires
            grammar::byte_is(src.spec_bytes(), pos as int, '['),
        ensures
            match r {
                Some((node, end)) => grammar::const_list(src.spec_bytes(), pos as int) == Some(
                    (node@, end as int),
                ) && ends_match(src.spec_bytes(), pos as int, end as int),
                None => grammar::const_list(src.spec_bytes(), pos as int).is_none(),
            },
        decreases src.spec_bytes().len() - pos - 1, 2int,
    {
        let bytes = src.as_bytes();
        assert(pos < bytes.len());
        let start = skip_separators(bytes, pos + 1);
        let (items, stop) = Self::items_at(src, pos, start);
        let close = skip_separators(bytes, skip_gap(bytes, stop));
        if has_byte(bytes, close, ']') {
            proof {
                assert(ConstValueRef::List(items).model()->List_0 =~= items.deep_view());
            }
            Some((ConstValueRef::List(items), close + 1))
        } else {
            None
        }
    }

    /// Parses one entry of a map of constants at the byte position `pos` of
    /// `src`.
    fn entry_at(src: &'a str, pos: usize) -> (r: Option<((Self, Self), usize)>)
        ensures
            match r {
                Some(((key, value), end)) => grammar::const_entry(src.spec_bytes(), pos as int)
                    == Some(((key@, value@), end as int)) && ends_match(
                    src.spec_bytes(),
                    pos as int,
                    end as int,
                ),
                None => grammar::const_entry(src.spec_bytes(), pos as int).is_none(),
            },
        decreases src.spec_bytes().len() - pos, 1int,
    {
        let bytes = src.as_bytes();
        match Self::parse_at(src, pos) {
            Some((key, key_end)) => {
                let colon = skip_separators(bytes, key_end);
                if has_byte(bytes, colon, ':') {
                    let at = skip_separators(bytes, colon + 1);
                    match Self::parse_at(src, at) {
                        Some((value, end)) => Some(((key, value), end)),
                        None => None,
                    }
                } else {
                    None
                }
            },
            None => None,
        }
    }

    /// Parses the entries of the map of constants that opens at the byte
    /// position `outer` of `src`; the first of them would start at `start`.
    fn entries_at(src: &'a str, outer: usize, start: usize) -> (r: (Vec<(Self, Self)>, usize))
        requires
            outer < start <= src.spec_bytes().len(),
        ensures
            grammar::list(
                src.spec_bytes().len() as int,
                start as int,
                grammar::list_gap_rule(src.spec_bytes()),
                grammar::entry_rule(src.spec_bytes(), outer as int),
            ) == (r.0.deep_view(), r.1 as int),
            start <= r.1,
            start <= src.spec_bytes().len() ==> r.1 <= src.spec_bytes().len(),
        decreases src.spec_bytes().len() - outer - 1, 2int,
    {
        let bytes = src.as_bytes();
        let ghost s = bytes@;
        let ghost len = s.len() as int;
        let ghost gap = grammar::list_gap_rule(s);
        let ghost item = grammar::entry_rule(s, outer as int);
        let mut items: Vec<(ConstValueRef<'a>, ConstValueRef<'a>)> = Vec::new();
        let mut cur = start;
        proof {
            grammar::lemma_list_first(len, start as int, gap, item);
        }
        match Self::entry_at(src, start) {
            Some((first, first_end)) => {
                items.push(first);
                cur = first_end;
                assert(items.deep_view() =~= seq![(first.0@, first.1@)]);
                loop
                    invariant
                        s == src.spec_bytes(),
                        s == bytes@,
                        len == s.len(),
                        gap == grammar::list_gap_rule(s),
                        item == grammar::entry_rule(s, outer as int),
                        outer < start <= cur <= len,
                        grammar::list(len, start as int, gap, item) == grammar::joined(
                            items.deep_view(),
                            grammar::list_tail(len, cur as int, gap, item),
                        ),
                    ensures
                        start <= cur <= len,
                        grammar::list(len, start as int, gap, item) == (
                            items.deep_view(),
                            cur as int,
                        ),
                    decreases len - cur,
                {
                    proof {
                        grammar::lemma_list_next(
                            len,
                            cur as int,
                            gap,
                            item,
                            items.deep_view(),
                        );
                    }
                    match scan_list_gap(bytes, cur) {
                        Some(next) => match Self::entry_at(src, next) {
                            Some((x, end)) => {
                                let ghost before = items.deep_view();
                                items.push(x);
                                cur = end;
                                assert(items.deep_view() =~= before.push((x.0@, x.1@)));
                            },
                            None => {
                                break ;
                            },
                        },
                        None => {
                            break ;
                        },
                    }
                }
            },
            None => {
                assert(items.deep_view() =~= Seq::empty());
            },
        }
        (items, cur)
    }

    /// Parses a map of constants, which opens at the byte position `pos` of
    /// `src`.
    fn map_at(src: &'a str, pos: usize) -> (r: Option<(Self, usize)>)
        requires
            grammar::byte_is(src.spec_bytes(), pos as int, '{'),
        ensures
            match r {
                Some((node, end)) => grammar::const_map(src.spec_bytes(), pos as int) == Some(
                    (node@, end as int),
                ) && ends_match(src.spec_bytes(), pos as int, end as int),
                None => grammar::const_map(src.spec_bytes(), pos as int).is_none(),
            },
        decreases src.spec_bytes().len() - pos - 1, 3int,
    {
        let bytes = src.as_bytes();
        assert(pos < bytes.len());
        let start = skip_separators(bytes, pos + 1);
        let (items, stop) = Self::entries_at(src, pos, start);
        let close = skip_separators(bytes, skip_gap(bytes, stop));
        if has_byte(bytes, close, '}') {
            proof {
                assert(ConstValueRef::MapOf(items).model()->MapOf_0 =~= items.deep_view());
            }
            Some((ConstValueRef::MapOf(items), close + 1))
        } else {
            None
        }
    }

    /// Parses a constant value at the byte position `pos` of `src`.
    #[verifier::rlimit(30)]
    pub fn parse_at(src: &'a str, pos: usize) -> (r: Option<(Self, usize)>)
        ensures
            match r {
                Some((node, end)) => grammar::const_value(src.spec_bytes(), pos as int) == Some(
                    (node@, end as int),
                ) && ends_match(src.spec_bytes(), pos as int, end as int),
                None => grammar::const_value(src.spec_bytes(), pos as int).is_none(),
            },
        decreases src.spec_bytes().len() - pos, 0int,
    {
        let bytes = src.as_bytes();
        if let Some((value, end)) = IntConstant::parse_at(bytes, pos) {
            return Some((ConstValueRef::Int(value), end));
        }
        if let Some((value, end)) = DoubleConstantRef::parse_at(src, pos) {
            return Some((ConstValueRef::Double(value), end));
        }
        if let Some((value, end)) = LiteralRef::parse_at(src, pos) {
            return Some((ConstValueRef::Literal(value), end));
        }
        if has_byte(bytes, pos, '[') {
            return Self::list_at(src, pos);
        }
        if has_byte(bytes, pos, '{') {
            return Self::map_at(src, pos);
        }
        match IdentifierRef::parse_at(src, pos) {
            Some((name, end)) => Some((ConstValueRef::Identifier(name), end)),
            None => None,
        }
    }

    /// Parses a constant value at the start of `input`: an integer, a
    /// floating-point constant, a string literal, a list, a map or an
    /// identifier, tried in this order. The integer comes first: of `1.5`,
    /// `1` is parsed and `.5` is left.
    pub fn parse(input: &'a str) -> (r: ParseResult<'a, Self>)
        ensures
            match r {
                Ok((rest, node)) => grammar::const_value(input.spec_bytes(), 0) == Some(
                    (node@, consumed(input, rest)),
                ) && is_rest(input, rest, consumed(input, rest)),
                Err(e) => grammar::const_value(input.spec_bytes(), 0).is_none() && e.kind
                    == FailureKind::NoMatch && e.input@ == input@,
            },
    {
        conclude(input, Self::parse_at(input, 0), FailureKind::NoMatch)
    }
}

impl ConstValue {
    /// Copies a borrowed value into an owned one.
    pub fn copy_of<'a>(r: &ConstValueRef<'a>) -> (o: Self)
        ensures
            o@ == r@,
        decreases r,
    {
        match r {
            ConstValueRef::Int(i) => ConstValue::Int(*i),
            ConstValueRef::Double(d) => ConstValue::Double(DoubleConstant::from(*d)),
            ConstValueRef::Literal(l) => ConstValue::Literal(Literal::from(*l)),
            ConstValueRef::Identifier(i) => ConstValue::Identifier(Identifier::from(*i)),
            ConstValueRef::List(v) => {
                let mut items: Vec<ConstValue> = Vec::new();
                let mut i: usize = 0;
                while i < v.len()
                    invariant
                        i <= v.len(),
                        items.len() == i,
                        decreases_to!(r => v),
                        forall|j: int| 0 <= j < i ==> items[j].model() == v[j].model(),
                    decreases v.len() - i,
                {
                    proof {
                        vstd::std_specs::vec::axiom_vec_index_decreases(*v, i as int);
                    }
                    items.push(Self::copy_of(&v[i]));
                    i += 1;
                }
                proof {
                    assert(ConstValue::List(items).model()->List_0 =~= r.model()->List_0);
                }
                ConstValue::List(items)
            },
            ConstValueRef::MapOf(v) => {
                let mut items: Vec<(ConstValue, ConstValue)> = Vec::new();
                let mut i: usize = 0;
                while i < v.len()
                    invariant
                        i <= v.len(),
                        items.len() == i,
                        decreases_to!(r => v),
                        forall|j: int|
                            0 <= j < i ==> items[j].0.model() == v[j].0.model()
                                && items[j].1.model() == v[j].1.model(),
                    decreases v.len() - i,
                {
                    proof {
                        vstd::std_specs::vec::axiom_vec_index_decreases(*v, i as int);
                    }
                    let key = Self::copy_of(&v[i].0);
                    let value = Self::copy_of(&v[i].1);
                    items.push((key, value));
                    i += 1;
                }
                proof {
                    assert(ConstValue::MapOf(items).model()->MapOf_0 =~= r.model()->MapOf_0);
                }
                ConstValue::MapOf(items)
            },
        }
    }

    /// Parses a constant value at the start of `input`, and copies it.
    pub fn parse<'a>(input: &'a str) -> (r: ParseResult<'a, Self>)
        ensures
            match r {
                Ok((rest, node)) => grammar::const_value(input.spec_bytes(), 0) == Some(
                    (node@, consumed(input, rest)),
                ) && is_rest(input, rest, consumed(input, rest)),
                Err(e) => grammar::const_value(input.spec_bytes(), 0).is_none() && e.kind
                    == FailureKind::NoMatch && e.input@ == input@,
            },
    {
        match ConstValueRef::parse(input) {
            Ok((rest, node)) => Ok((rest, ConstValue::from(node))),
            Err(e) => Err(e),
        }
    }
}

impl<'a> From<ConstValueRef<'a>> for ConstValue {
    /// The owned value that is what the borrowed one is.
    fn from(r: ConstValueRef<'a>) -> (o: Self)
        ensures
            o@ == r@,
    {
        ConstValue::copy_of(&r)
    }
}

impl<'a> FromSpecImpl<ConstValueRef<'a>> for ConstValue {
    open spec fn obeys_from_spec() -> bool {
        false
    }

    open spec fn from_spec(r: ConstValueRef<'a>) -> Self {
        arbitrary()
    }
}

impl<'a> Clone for ConstValueRef<'a> {
    fn clone(&self) -> (o: Self)
        ensures
            o@ == self@,
        decreases self,
    {
        match self {
            ConstValueRef::Int(i) => ConstValueRef::Int(*i),
            ConstValueRef::Double(d) => ConstValueRef::Double(*d),
            ConstValueRef::Literal(l) => ConstValueRef::Literal(*l),
            ConstValueRef::Identifier(i) => ConstValueRef::Identifier(*i),
            ConstValueRef::List(v) => {
                let mut items: Vec<ConstValueRef<'a>> = Vec::new();
                let mut i: usize = 0;
                while i < v.len()
                    invariant
                        i <= v.len(),
                        items.len() == i,
                        decreases_to!(self => v),
                        forall|j: int| 0 <= j < i ==> items[j].model() == v[j].model(),
                    decreases v.len() - i,
                {
                    proof {
                        vstd::std_specs::vec::axiom_vec_index_decreases(*v, i as int);
                    }
                    items.push(v[i].clone());
                    i += 1;
                }
                proof {
                    assert(ConstValueRef::List(items).model()->List_0 =~= self.model()->List_0);
                }
                ConstValueRef::List(items)
            },
            ConstValueRef::MapOf(v) => {
                let mut items: Vec<(ConstValueRef<'a>, ConstValueRef<'a>)> = Vec::new();
                let mut i: usize = 0;
                while i < v.len()
                    invariant
                        i <= v.len(),
                        items.len() == i,
                        decreases_to!(self => v),
                        forall|j: int|
                            0 <= j < i ==> items[j].0.model() == v[j].0.model()
                                && items[j].1.model() == v[j].1.model(),
                    decreases v.len() - i,
                {
                    proof {
                        vstd::std_specs::vec::axiom_vec_index_decreases(*v, i as int);
                    }
                    let key = v[i].0.clone();
                    let value = v[i].1.clone();
                    items.push((key, value));
                    i += 1;
                }
                proof {
                    assert(ConstValueRef::MapOf(items).model()->MapOf_0 =~= self.model()->MapOf_0);
                }
                ConstValueRef::MapOf(items)
            },
        }
    }
}

impl Clone for ConstValue {
    fn clone(&self) -> (o: Self)
        ensures
            o@ == self@,
        decreases self,
    {
        match self {
            ConstValue::Int(i) => ConstValue::Int(*i),
            ConstValue::Double(d) => ConstValue::Double(DoubleConstant(d.0.clone())),
            ConstValue::Literal(l) => ConstValue::Literal(Literal(l.0.clone())),
            ConstValue::Identifier(i) => ConstValue::Identifier(Identifier(i.0.clone())),
            ConstValue::List(v) => {
                let mut items: Vec<ConstValue> = Vec::new();
                let mut i: usize = 0;
                while i < v.len()
                    invariant
                        i <= v.len(),
                        items.len() == i,
                        decreases_to!(self => v),
                        forall|j: int| 0 <= j < i ==> items[j].model() == v[j].model(),
                    decreases v.len() - i,
                {
                    proof {
                        vstd::std_specs::vec::axiom_vec_index_decreases(*v, i as int);
                    }
                    items.push(v[i].clone());
                    i += 1;
                }
                proof {
                    assert(ConstValue::List(items).model()->List_0 =~= self.model()->List_0);
                }
                ConstValue::List(items)
            },
            ConstValue::MapOf(v) => {
                let mut items: Vec<(ConstValue, ConstValue)> = Vec::new();
                let mut i: usize = 0;
                while i < v.len()
                    invariant
                        i <= v.len(),
                        items.len() == i,
                        decreases_to!(self => v),
                        forall|j: int|
                            0 <= j < i ==> items[j].0.model() == v[j].0.model()
                                && items[j].1.model() == v[j].1.model(),
                    decreases v.len() - i,
                {
                    proof {
                        vstd::std_specs::vec::axiom_vec_index_decreases(*v, i as int);
                    }
                    let key = v[i].0.clone();
                    let value = v[i].1.clone();
                    items.push((key, value));
                    i += 1;
                }
                proof {
                    assert(ConstValue::MapOf(items).model()->MapOf_0 =~= self.model()->MapOf_0);
                }
                ConstValue::MapOf(items)
            },
        }
    }
}

/// Parses what parts two elements of a list at the start of `input`: a
/// comma or a semicolon with optional separators around it, or else a
/// separator alone.
pub fn parse_list_separator<'a>(input: &'a str) -> (r: ParseResult<'a, ()>)
    ensures
        match r {
            Ok((rest, _)) => grammar::list_gap(input.spec_bytes(), 0) == Some(
                consumed(input, rest),
            ) && is_rest(input, rest, consumed(input, rest)),
            Err(e) => grammar::list_gap(input.spec_bytes(), 0).is_none() && e.kind
                == FailureKind::NoMatch && e.input@ == input@,
        },
{
    let found = match scan_list_gap(input.as_bytes(), 0) {
        Some(end) => {
            proof {
                let s = input.spec_bytes();
                lemma_separator_ends_at_cut(s, 0);
                let at = grammar::skip_separator(s, 0);
                if grammar::list_separator(s, at).is_some() {
                    lemma_separator_ends_at_cut(s, at + 1);
                }
            }
            Some(((), end))
        },
        None => None,
    };
    conclude(input, found, FailureKind::NoMatch)
}

} // verus!
