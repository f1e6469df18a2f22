//! The nodes that hold text: identifiers, string literals and comments.

use vstd::prelude::*;
use vstd::std_specs::convert::FromSpecImpl;
use vstd::string::StringSliceAdditionalSpecFns;
use vstd::utf8::encode_utf8;
use crate::error::{conclude, consumed, is_rest, FailureKind, ParseResult};
use crate::grammar;
use crate::lexical::{
    has_byte, scan_comment, scan_identifier, scan_linefeed, scan_list_separator, scan_separator,
    scan_space, scan_to_byte,
};
use crate::text::{cut_point, slice_text};

verus! {

/// Whether the rule's match from `pos` ends at `end`, after an ASCII byte.
pub open spec fn ends_match(s: Seq<u8>, pos: int, end: int) -> bool {
    pos < end <= s.len() && s[end - 1] < 0x80
}

/// For every byte of a run, the class of the run holds.
pub proof fn lemma_run_members(s: Seq<u8>, pos: int, class: grammar::ByteClass, at: int)
    requires
        0 <= pos <= at < grammar::run_end(s, pos, class),
    ensures
        at < s.len(),
        class.holds(s[at]),
    decreases at - pos,
{
    if 0 <= pos < s.len() && class.holds(s[pos]) {
        if at > pos {
            lemma_run_members(s, pos + 1, class, at);
        }
    }
}

/// An identifier, borrowed from the input.
#[derive(Debug, Clone, Copy, PartialEq, Eq)]
pub struct IdentifierRef<'a>(pub &'a str);

/// An identifier.
#[derive(Debug, Clone, PartialEq, Eq)]
pub struct Identifier(pub String);

/// A string literal, borrowed from the input: the text between its quotes.
#[derive(Debug, Clone, Copy, PartialEq, Eq)]
pub struct LiteralRef<'a>(pub &'a str);

/// A string literal: the text between its quotes.
#[derive(Debug, Clone, PartialEq, Eq)]
pub struct Literal(pub String);

/// A comment, borrowed from the input: the text between its delimiters.
#[derive(Debug, Clone, Copy, PartialEq, Eq)]
pub struct CommentRef<'a>(pub &'a str);

/// A comment: the text between its delimiters.
#[derive(Debug, Clone, PartialEq, Eq)]
pub struct Comment(pub String);

impl<'a> View for IdentifierRef<'a> {
    type V = Seq<u8>;

    open spec fn view(&self) -> Seq<u8> {
        self.0.spec_bytes()
    }
}

impl<'a> DeepView for IdentifierRef<'a> {
    type V = Seq<u8>;

    open spec fn deep_view(&self) -> Seq<u8> {
        self.0.spec_bytes()
    }
}

impl View for Identifier {
    type V = Seq<u8>;

    open spec fn view(&self) -> Seq<u8> {
        encode_utf8(self.0@)
    }
}

impl DeepView for Identifier {
    type V = Seq<u8>;

    open spec fn deep_view(&self) -> Seq<u8> {
        encode_utf8(self.0@)
    }
}

impl<'a> View for LiteralRef<'a> {
    type V = Seq<u8>;

    open spec fn view(&self) -> Seq<u8> {
        self.0.spec_bytes()
    }
}

impl<'a> DeepView for LiteralRef<'a> {
    type V = Seq<u8>;

    open spec fn deep_view(&self) -> Seq<u8> {
        self.0.spec_bytes()
    }
}

impl View for Literal {
    type V = Seq<u8>;

    open spec fn view(&self) -> Seq<u8> {
        encode_utf8(self.0@)
    }
}

impl DeepView for Literal {
    type V = Seq<u8>;

    open spec fn deep_view(&self) -> Seq<u8> {
        encode_utf8(self.0@)
    }
}

impl<'a> View for CommentRef<'a> {
    type V = Seq<u8>;

    open spec fn view(&self) -> Seq<u8> {
        self.0.spec_bytes()
    }
}

impl<'a> DeepView for CommentRef<'a> {
    type V = Seq<u8>;

    open spec fn deep_view(&self) -> Seq<u8> {
        self.0.spec_bytes()
    }
}

impl View for Comment {
    type V = Seq<u8>;

    open spec fn view(&self) -> Seq<u8> {
        encode_utf8(self.0@)
    }
}

impl DeepView for Comment {
    type V = Seq<u8>;

    open spec fn deep_view(&self) -> Seq<u8> {
        encode_utf8(self.0@)
    }
}

impl<'a> From<&'a str> for IdentifierRef<'a> {
    fn from(text: &'a str) -> (r: Self) {
        IdentifierRef(text)
    }
}

impl<'a> FromSpecImpl<&'a str> for IdentifierRef<'a> {
    open spec fn obeys_from_spec() -> bool {
        true
    }

    open spec fn from_spec(text: &'a str) -> Self {
        IdentifierRef(text)
    }
}

impl<'a> From<&'a str> for LiteralRef<'a> {
    fn from(text: &'a str) -> (r: Self) {
        LiteralRef(text)
    }
}

impl<'a> FromSpecImpl<&'a str> for LiteralRef<'a> {
    open spec fn obeys_from_spec() -> bool {
        true
    }

    open spec fn from_spec(text: &'a str) -> Self {
        LiteralRef(text)
    }
}

impl<'a> From<&'a str> for CommentRef<'a> {
    fn from(text: &'a str) -> (r: Self) {
        CommentRef(text)
    }
}

impl<'a> FromSpecImpl<&'a str> for CommentRef<'a> {
    open spec fn obeys_from_spec() -> bool {
        true
    }

    open spec fn from_spec(text: &'a str) -> Self {
        CommentRef(text)
    }
}

impl<'a> From<IdentifierRef<'a>> for Identifier {
    /// The owned identifier with the text of the borrowed one.
    fn from(r: IdentifierRef<'a>) -> (o: Self)
        ensures
            o@ == r@,
    {
        Identifier(r.0.to_owned())
    }
}

impl<'a> FromSpecImpl<IdentifierRef<'a>> for Identifier {
    open spec fn obeys_from_spec() -> bool {
        false
    }

    open spec fn from_spec(r: IdentifierRef<'a>) -> Self {
        arbitrary()
    }
}

impl<'a> From<LiteralRef<'a>> for Literal {
    /// The owned literal with the text of the borrowed one.
    fn from(r: LiteralRef<'a>) -> (o: Self)
        ensures
            o@ == r@,
    {
        Literal(r.0.to_owned())
    }
}

impl<'a> FromSpecImpl<LiteralRef<'a>> for Literal {
    open spec fn obeys_from_spec() -> bool {
        false
    }

    open spec fn from_spec(r: LiteralRef<'a>) -> Self {
        arbitrary()
    }
}

impl<'a> From<CommentRef<'a>> for Comment {
    /// The owned comment with the text of the borrowed one.
    fn from(r: CommentRef<'a>) -> (o: Self)
        ensures
            o@ == r@,
    {
        Comment(r.0.to_owned())
    }
}

impl<'a> FromSpecImpl<CommentRef<'a>> for Comment {
    open spec fn obeys_from_spec() -> bool {
        false
    }

    open spec fn from_spec(r: CommentRef<'a>) -> Self {
        arbitrary()
    }
}

impl<'a> IdentifierRef<'a> {
    /// The text of the identifier.
    pub fn as_str(&self) -> (r: &'a str)
        ensures
            r == self.0,
    {
        self.0
    }

    /// Parses an identifier at the byte position `pos` of `src`.
    pub fn parse_at(src: &'a str, pos: usize) -> (r: Option<(Self, usize)>)
        ensures
            match r {
                Some((node, end)) => grammar::identifier(src.spec_bytes(), pos as int) == Some(
                    end as int,
                ) && node@ == src.spec_bytes().subrange(pos as int, end as int) && ends_match(
                    src.spec_bytes(),
                    pos as int,
                    end as int,
                ),
                None => grammar::identifier(src.spec_bytes(), pos as int).is_none(),
            },
    {
        let bytes = src.as_bytes();
        match scan_identifier(bytes, pos) {
            Some(end) => {
                proof {
                    if end > pos + 1 {
                        lemma_run_members(
                            bytes@,
                            pos + 1,
                            grammar::ByteClass::IdentChar,
                            end - 1,
                        );
                    }
                }
                Some((IdentifierRef(slice_text(src, pos, end)), end))
            },
            None => None,
        }
    }

    /// Parses an identifier at the start of `input`: a letter or an
    /// underscore, then letters, digits and underscores, as many as follow.
    pub fn parse(input: &'a str) -> (r: ParseResult<'a, Self>)
        ensures
            match r {
                Ok((rest, node)) => grammar::identifier(input.spec_bytes(), 0) == Some(
                    consumed(input, rest),
                ) && node@ == input.spec_bytes().take(consumed(input, rest)) && is_rest(
                    input,
                    rest,
                    consumed(input, rest),
                ),
                Err(e) => grammar::identifier(input.spec_bytes(), 0).is_none() && e.kind
                    == FailureKind::NoMatch && e.input@ == input@,
            },
    {
        conclude(input, Self::parse_at(input, 0), FailureKind::NoMatch)
    }
}

impl Identifier {
    /// The text of the identifier.
    pub fn as_str(&self) -> (r: &str)
        ensures
            r@ == self.0@,
    {
        self.0.as_str()
    }

    /// Parses an identifier at the start of `input`, and copies its text.
    pub fn parse<'a>(input: &'a str) -> (r: ParseResult<'a, Self>)
        ensures
            match r {
                Ok((rest, node)) => grammar::identifier(input.spec_bytes(), 0) == Some(
                    consumed(input, rest),
                ) && node@ == input.spec_bytes().take(consumed(input, rest)) && is_rest(
                    input,
                    rest,
                    consumed(input, rest),
                ),
                Err(e) => grammar::identifier(input.spec_bytes(), 0).is_none() && e.kind
                    == FailureKind::NoMatch && e.input@ == input@,
            },
    {
        match IdentifierRef::parse(input) {
            Ok((rest, node)) => Ok((rest, Identifier::from(node))),
            Err(e) => Err(e),
        }
    }
}

impl<'a> LiteralRef<'a> {
    /// The text between the quotes.
    pub fn as_str(&self) -> (r: &'a str)
        ensures
            r == self.0,
    {
        self.0
    }

    /// Parses what `quote` opens at `pos` and closes again.
    fn quoted_at(src: &'a str, pos: usize, quote: char) -> (r: Option<(Self, usize)>)
        requires
            quote == '"' || quote == '\'',
        ensures
            match r {
                Some((node, end)) => grammar::quoted_span(src.spec_bytes(), pos as int, quote)
                    == Some((pos + 1, end - 1, end as int)) && node@ == src.spec_bytes().subrange(
                    pos + 1,
                    end - 1,
                ) && ends_match(src.spec_bytes(), pos as int, end as int),
                None => grammar::quoted_span(src.spec_bytes(), pos as int, quote).is_none(),
            },
    {
        let bytes = src.as_bytes();
        if pos < bytes.len() && has_byte(bytes, pos, quote) {
            match scan_to_byte(bytes, pos + 1, quote) {
                Some(close) => {
                    proof {
                        lemma_found_byte(bytes@, pos + 1, quote as u8);
                    }
                    Some((LiteralRef(slice_text(src, pos + 1, close)), close + 1))
                },
                None => None,
            }
        } else {
            None
        }
    }

    /// Parses a string literal at the byte position `pos` of `src`.
    pub fn parse_at(src: &'a str, pos: usize) -> (r: Option<(Self, usize)>)
        ensures
            match r {
                Some((node, end)) => grammar::literal_span(src.spec_bytes(), pos as int) == Some(
                    (pos + 1, end - 1, end as int),
                ) && node@ == src.spec_bytes().subrange(pos + 1, end - 1) && ends_match(
                    src.spec_bytes(),
                    pos as int,
                    end as int,
                ),
                None => grammar::literal_span(src.spec_bytes(), pos as int).is_none(),
            },
    {
        match Self::quoted_at(src, pos, '"') {
            Some(found) => Some(found),
            None => Self::quoted_at(src, pos, '\''),
        }
    }

    /// Parses a string literal at the start of `input`: text in double or in
    /// single quotes. The node holds what stands between the quotes, as it is.
    pub fn parse(input: &'a str) -> (r: ParseResult<'a, Self>)
        ensures
            match r {
                Ok((rest, node)) => grammar::literal_span(input.spec_bytes(), 0) == Some(
                    (1int, consumed(input, rest) - 1, consumed(input, rest)),
                ) && node@ == input.spec_bytes().subrange(1, consumed(input, rest) - 1)
                    && is_rest(input, rest, consumed(input, rest)),
                Err(e) => grammar::literal_span(input.spec_bytes(), 0).is_none() && e.kind
                    == FailureKind::NoMatch && e.input@ == input@,
            },
    {
        conclude(input, Self::parse_at(input, 0), FailureKind::NoMatch)
    }
}

impl Literal {
    /// The text between the quotes.
    pub fn as_str(&self) -> (r: &str)
        ensures
            r@ == self.0@,
    {
        self.0.as_str()
    }

    /// Parses a string literal at the start of `input`, and copies its text.
    pub fn parse<'a>(input: &'a str) -> (r: ParseResult<'a, Self>)
        ensures
            match r {
                Ok((rest, node)) => grammar::literal_span(input.spec_bytes(), 0) == Some(
                    (1int, consumed(input, rest) - 1, consumed(input, rest)),
                ) && node@ == input.spec_bytes().subrange(1, consumed(input, rest) - 1)
                    && is_rest(input, rest, consumed(input, rest)),
                Err(e) => grammar::literal_span(input.spec_bytes(), 0).is_none() && e.kind
                    == FailureKind::NoMatch && e.input@ == input@,
            },
    {
        match LiteralRef::parse(input) {
            Ok((rest, node)) => Ok((rest, Literal::from(node))),
            Err(e) => Err(e),
        }
    }
}

/// Where a byte is found, it stands.
pub proof fn lemma_found_byte(s: Seq<u8>, pos: int, b: u8)
    requires
        grammar::find_byte(s, pos, b).is_some(),
    ensures
        pos <= grammar::find_byte(s, pos, b).unwrap() < s.len(),
        s[grammar::find_byte(s, pos, b).unwrap()] == b,
    decreases s.len() - pos,
{
    if 0 <= pos < s.len() && s[pos] != b {
        lemma_found_byte(s, pos + 1, b);
    }
}

/// Where the end of a block comment is found, it stands.
pub proof fn lemma_found_block_end(s: Seq<u8>, pos: int)
    requires
        grammar::find_block_end(s, pos).is_some(),
    ensures
        pos <= grammar::find_block_end(s, pos).unwrap(),
        grammar::find_block_end(s, pos).unwrap() + 2 <= s.len(),
        s[grammar::find_block_end(s, pos).unwrap()] == '*' as u8,
        s[grammar::find_block_end(s, pos).unwrap() + 1] == '/' as u8,
    decreases s.len() - pos,
{
    if 0 <= pos && pos + 2 <= s.len() && !(s[pos] == '*' as u8 && s[pos + 1] == '/' as u8) {
        lemma_found_block_end(s, pos + 1);
    }
}

/// A run ends at the end of the input or before a byte that is not of its
/// class.
pub proof fn lemma_run_stops(s: Seq<u8>, pos: int, class: grammar::ByteClass)
    requires
        0 <= pos <= s.len(),
    ensures
        pos <= grammar::run_end(s, pos, class) <= s.len(),
        grammar::run_end(s, pos, class) < s.len() ==> !class.holds(
            s[grammar::run_end(s, pos, class)],
        ),
    decreases s.len() - pos,
{
    if pos < s.len() && class.holds(s[pos]) {
        lemma_run_stops(s, pos + 1, class);
    }
}

impl<'a> CommentRef<'a> {
    /// The text between the delimiters.
    pub fn as_str(&self) -> (r: &'a str)
        ensures
            r == self.0,
    {
        self.0
    }

    /// Parses a comment at the byte position `pos` of `src`.
    pub fn parse_at(src: &'a str, pos: usize) -> (r: Option<(Self, usize)>)
        ensures
            match r {
                Some((node, end)) => grammar::comment(src.spec_bytes(), pos as int) == Some(
                    (node@, end as int),
                ) && pos < end <= src.spec_bytes().len() && crate::text::cut_point(
                    src.spec_bytes(),
                    end as int,
                ),
                None => grammar::comment(src.spec_bytes(), pos as int).is_none(),
            },
    {
        let bytes = src.as_bytes();
        match scan_comment(bytes, pos) {
            Some((from, to, end)) => {
                proof {
                    reveal_strlit("//");
                    reveal_strlit("/*");
                    reveal(grammar::text_at);
                    let s = bytes@;
                    let p = pos as int;
                    if grammar::text_at(s, p, "//"@) {
                        assert(s[p + 1] == "//"@[1] as u8);
                        lemma_run_stops(s, p + 2, grammar::ByteClass::LineText);
                    } else if grammar::text_at(s, p, "/*"@) {
                        assert(s[p + 1] == "/*"@[1] as u8);
                        lemma_found_block_end(s, p + 2);
                    } else {
                        lemma_run_stops(s, p + 1, grammar::ByteClass::LineText);
                    }
                }
                Some((CommentRef(slice_text(src, from, to)), end))
            },
            None => None,
        }
    }

    /// Parses a comment at the start of `input`: a line comment, which `//`
    /// or `#` starts and which leaves the end of its line in the input, or a
    /// block comment from `/*` to the first `*/`. The node holds what stands
    /// between the delimiters.
    pub fn parse(input: &'a str) -> (r: ParseResult<'a, Self>)
        ensures
            match r {
                Ok((rest, node)) => grammar::comment(input.spec_bytes(), 0) == Some(
                    (node@, consumed(input, rest)),
                ) && is_rest(input, rest, consumed(input, rest)),
                Err(e) => grammar::comment(input.spec_bytes(), 0).is_none() && e.kind
                    == FailureKind::NoMatch && e.input@ == input@,
            },
    {
        conclude(input, Self::parse_at(input, 0), FailureKind::NoMatch)
    }
}

impl Comment {
    /// The text between the delimiters.
    pub fn as_str(&self) -> (r: &str)
        ensures
            r@ == self.0@,
    {
        self.0.as_str()
    }

    /// Parses a comment at the start of `input`, and copies its text.
    pub fn parse<'a>(input: &'a str) -> (r: ParseResult<'a, Self>)
        ensures
            match r {
                Ok((rest, node)) => grammar::comment(input.spec_bytes(), 0) == Some(
                    (node@, consumed(input, rest)),
                ) && is_rest(input, rest, consumed(input, rest)),
                Err(e) => grammar::comment(input.spec_bytes(), 0).is_none() && e.kind
                    == FailureKind::NoMatch && e.input@ == input@,
            },
    {
        match CommentRef::parse(input) {
            Ok((rest, node)) => Ok((rest, Comment::from(node))),
            Err(e) => Err(e),
        }
    }
}

/// A comment ends at the end of the input, before the end of its line, or
/// after its closing delimiter.
pub proof fn lemma_comment_ends_at_cut(s: Seq<u8>, pos: int)
    requires
        0 <= pos <= s.len(),
        grammar::comment_span(s, pos).is_some(),
    ensures
        pos < grammar::comment_span(s, pos).unwrap().2 <= s.len(),
        cut_point(s, grammar::comment_span(s, pos).unwrap().2),
{
    reveal(grammar::text_at);
    reveal_strlit("//");
    reveal_strlit("/*");
    if grammar::text_at(s, pos, "//"@) {
        lemma_run_stops(s, pos + 2, grammar::ByteClass::LineText);
    } else if grammar::text_at(s, pos, "/*"@) {
        lemma_found_block_end(s, pos + 2);
    } else {
        lemma_run_stops(s, pos + 1, grammar::ByteClass::LineText);
    }
}

/// The optional separator ends where a string slice may be cut, if it starts
/// at such a place.
pub proof fn lemma_separator_ends_at_cut(s: Seq<u8>, pos: int)
    requires
        0 <= pos <= s.len(),
        cut_point(s, pos),
    ensures
        pos <= grammar::skip_separator(s, pos) <= s.len(),
        cut_point(s, grammar::skip_separator(s, pos)),
    decreases s.len() - pos,
{
    match grammar::separator_unit(s, pos) {
        Some(end) => {
            if !(pos < s.len() && grammar::is_whitespace(s[pos])) {
                lemma_comment_ends_at_cut(s, pos);
            }
            if pos < end <= s.len() {
                lemma_separator_ends_at_cut(s, end);
            }
        },
        None => {},
    }
}

/// One or more blanks.
#[derive(Debug, Clone, Copy, PartialEq, Eq)]
pub struct Space;

/// One end of line.
#[derive(Debug, Clone, Copy, PartialEq, Eq)]
pub struct Linefeed;

/// A run of whitespace and comments.
#[derive(Debug, Clone, Copy, PartialEq, Eq)]
pub struct Separator;

/// A comma or a semicolon.
#[derive(Debug, Clone, Copy, PartialEq, Eq)]
pub struct ListSeparator;

impl Space {
    /// Parses blanks at the start of `input`: spaces and tabs, one or more,
    /// as many as there are.
    pub fn parse<'a>(input: &'a str) -> (r: ParseResult<'a, Self>)
        ensures
            match r {
                Ok((rest, _)) => grammar::space(input.spec_bytes(), 0) == Some(
                    consumed(input, rest),
                ) && is_rest(input, rest, consumed(input, rest)),
                Err(e) => grammar::space(input.spec_bytes(), 0).is_none() && e.kind
                    == FailureKind::NoMatch && e.input@ == input@,
            },
    {
        let found = match scan_space(input.as_bytes(), 0) {
            Some(end) => {
                proof {
                    lemma_run_members(
                        input.spec_bytes(),
                        0,
                        grammar::ByteClass::Blank,
                        end - 1,
                    );
                }
                Some((Space, end))
            },
            None => None,
        };
        conclude(input, found, FailureKind::NoMatch)
    }
}

impl Linefeed {
    /// Parses one end of line at the start of `input`: a line feed, alone or
    /// after a carriage return.
    pub fn parse<'a>(input: &'a str) -> (r: ParseResult<'a, Self>)
        ensures
            match r {
                Ok((rest, _)) => grammar::linefeed(input.spec_bytes(), 0) == Some(
                    consumed(input, rest),
                ) && is_rest(input, rest, consumed(input, rest)),
                Err(e) => grammar::linefeed(input.spec_bytes(), 0).is_none() && e.kind
                    == FailureKind::NoMatch && e.input@ == input@,
            },
    {
        let found = match scan_linefeed(input.as_bytes(), 0) {
            Some(end) => Some((Linefeed, end)),
            None => None,
        };
        conclude(input, found, FailureKind::NoMatch)
    }
}

impl Separator {
    /// Parses a separator at the start of `input`: whitespace and comments,
    /// one unit or more, as many as there are.
    pub fn parse<'a>(input: &'a str) -> (r: ParseResult<'a, Self>)
        ensures
            match r {
                Ok((rest, _)) => grammar::separator(input.spec_bytes(), 0) == Some(
                    consumed(input, rest),
                ) && is_rest(input, rest, consumed(input, rest)),
                Err(e) => grammar::separator(input.spec_bytes(), 0).is_none() && e.kind
                    == FailureKind::NoMatch && e.input@ == input@,
            },
    {
        let found = match scan_separator(input.as_bytes(), 0) {
            Some(end) => {
                proof {
                    lemma_separator_ends_at_cut(input.spec_bytes(), 0);
                }
                Some((Separator, end))
            },
            None => None,
        };
        conclude(input, found, FailureKind::NoMatch)
    }
}

impl ListSeparator {
    /// Parses a comma or a semicolon at the start of `input`.
    pub fn parse<'a>(input: &'a str) -> (r: ParseResult<'a, Self>)
        ensures
            match r {
                Ok((rest, _)) => grammar::list_separator(input.spec_bytes(), 0) == Some(
                    consumed(input, rest),
                ) && is_rest(input, rest, consumed(input, rest)),
                Err(e) => grammar::list_separator(input.spec_bytes(), 0).is_none() && e.kind
                    == FailureKind::NoMatch && e.input@ == input@,
            },
    {
        let found = match scan_list_separator(input.as_bytes(), 0) {
            Some(end) => Some((ListSeparator, end)),
            None => None,
        };
        conclude(input, found, FailureKind::NoMatch)
    }
}

} // verus!
