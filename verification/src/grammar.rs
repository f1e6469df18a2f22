//! The grammar of the interface-definition language, as mathematics.
//!
//! Every rule is a function of the whole input, taken as its UTF-8 bytes, and
//! of a position in it. A rule that recognises text answers with the position
//! just past what it matched; a rule that builds a node answers with the
//! node's model and that position. `None` means that the rule does not match
//! at the position. Choice is ordered and repetition is greedy: a rule never
//! reconsiders a choice that matched.
//!
//! Where a rule applies itself again, it does so only further on in the
//! input, and says so: every match consumes at least one byte, so the
//! condition always holds, and it makes the definitions well-founded.

use vstd::prelude::*;
use crate::error::FailureKind;
use crate::model::{
    ConstModel, EnumModel, EnumValueModel, FieldModel, FunctionModel, RecordModel, ServiceModel,
    TypeModel, TypedefModel, ValueModel,
};

verus! {

/// The classes of bytes that the scanning rules repeat over.
#[derive(Clone, Copy, Debug, PartialEq, Eq)]
pub enum ByteClass {
    /// A letter, a digit or an underscore: what continues an identifier.
    IdentChar,
    /// A decimal digit.
    Digit,
    /// A space or a tab: whitespace that does not end a line.
    Blank,
    /// Anything but a line feed or a carriage return.
    LineText,
}

/// Whether a byte is an ASCII letter.
pub open spec fn is_letter(b: u8) -> bool {
    ('a' as u8 <= b && b <= 'z' as u8) || ('A' as u8 <= b && b <= 'Z' as u8)
}

/// Whether a byte is a decimal digit.
pub open spec fn is_digit(b: u8) -> bool {
    '0' as u8 <= b && b <= '9' as u8
}

/// Whether a byte can start an identifier.
pub open spec fn is_ident_start(b: u8) -> bool {
    is_letter(b) || b == '_' as u8
}

/// Whether a byte can continue an identifier.
pub open spec fn is_ident_char(b: u8) -> bool {
    is_letter(b) || is_digit(b) || b == '_' as u8
}

/// Whether a byte is a space or a tab.
pub open spec fn is_blank(b: u8) -> bool {
    b == ' ' as u8 || b == '\t' as u8
}

/// Whether a byte is a line feed or a carriage return.
pub open spec fn is_line_end(b: u8) -> bool {
    b == '\n' as u8 || b == '\r' as u8
}

/// Whether a byte is whitespace.
pub open spec fn is_whitespace(b: u8) -> bool {
    is_blank(b) || is_line_end(b)
}

impl ByteClass {
    /// Whether `b` belongs to the class.
    pub open spec fn holds(self, b: u8) -> bool {
        match self {
            ByteClass::IdentChar => is_ident_char(b),
            ByteClass::Digit => is_digit(b),
            ByteClass::Blank => is_blank(b),
            ByteClass::LineText => !is_line_end(b),
        }
    }
}

/// Whether the byte at `pos` exists and is the ASCII character `c`.
pub open spec fn byte_is(s: Seq<u8>, pos: int, c: char) -> bool {
    0 <= pos < s.len() && s[pos] == c as u8
}

/// Whether the ASCII text `lit` stands in `s` at `pos`.
#[verifier::opaque]
pub open spec fn text_at(s: Seq<u8>, pos: int, lit: Seq<char>) -> bool {
    &&& 0 <= pos
    &&& pos + lit.len() <= s.len()
    &&& forall|i: int| 0 <= i < lit.len() ==> s[pos + i] == #[trigger] lit[i] as u8
}

/// A keyword: its text, not followed by a byte that would continue an
/// identifier.
pub open spec fn keyword(s: Seq<u8>, pos: int, word: Seq<char>) -> Option<int> {
    let end = pos + word.len();
    if text_at(s, pos, word) && !(end < s.len() && is_ident_char(s[end])) {
        Some(end)
    } else {
        None
    }
}

/// The end of the longest run of bytes of `class` that starts at `pos`.
pub open spec fn run_end(s: Seq<u8>, pos: int, class: ByteClass) -> int
    decreases s.len() - pos,
{
    if 0 <= pos < s.len() && class.holds(s[pos]) {
        run_end(s, pos + 1, class)
    } else {
        pos
    }
}

/// Identifier: a letter or an underscore, then letters, digits and underscores.
pub open spec fn identifier(s: Seq<u8>, pos: int) -> Option<int> {
    if 0 <= pos < s.len() && is_ident_start(s[pos]) {
        Some(run_end(s, pos + 1, ByteClass::IdentChar))
    } else {
        None
    }
}

/// Space: one or more blanks, as many as there are.
pub open spec fn space(s: Seq<u8>, pos: int) -> Option<int> {
    let end = run_end(s, pos, ByteClass::Blank);
    if end > pos {
        Some(end)
    } else {
        None
    }
}

/// Linefeed: one line feed, alone or after a carriage return.
pub open spec fn linefeed(s: Seq<u8>, pos: int) -> Option<int> {
    if byte_is(s, pos, '\n') {
        Some(pos + 1)
    } else if byte_is(s, pos, '\r') && byte_is(s, pos + 1, '\n') {
        Some(pos + 2)
    } else {
        None
    }
}

/// The first position at or after `pos` where `b` stands, if there is one.
pub open spec fn find_byte(s: Seq<u8>, pos: int, b: u8) -> Option<int>
    decreases s.len() - pos,
{
    if 0 <= pos < s.len() {
        if s[pos] == b {
            Some(pos)
        } else {
            find_byte(s, pos + 1, b)
        }
    } else {
        None
    }
}

/// The first position at or after `pos` where a block comment's closing
/// delimiter stands, if there is one.
pub open spec fn find_block_end(s: Seq<u8>, pos: int) -> Option<int>
    decreases s.len() - pos,
{
    if 0 <= pos && pos + 2 <= s.len() {
        if s[pos] == '*' as u8 && s[pos + 1] == '/' as u8 {
            Some(pos)
        } else {
            find_block_end(s, pos + 1)
        }
    } else {
        None
    }
}

/// Comment: where its text starts, where its text ends, and where the comment
/// ends.
///
/// A line comment starts with `//` or `#` and runs up to the end of the line,
/// which it leaves in the input. A block comment runs from `/*` to the first
/// `*/`. The text is what stands between the delimiters.
pub open spec fn comment_span(s: Seq<u8>, pos: int) -> Option<(int, int, int)> {
    if text_at(s, pos, "//"@) {
        let end = run_end(s, pos + 2, ByteClass::LineText);
        Some((pos + 2, end, end))
    } else if text_at(s, pos, "/*"@) {
        match find_block_end(s, pos + 2) {
            Some(close) => Some((pos + 2, close, close + 2)),
            None => None,
        }
    } else if byte_is(s, pos, '#') {
        let end = run_end(s, pos + 1, ByteClass::LineText);
        Some((pos + 1, end, end))
    } else {
        None
    }
}

/// Comment: its text and where it ends.
pub open spec fn comment(s: Seq<u8>, pos: int) -> Option<(Seq<u8>, int)> {
    match comment_span(s, pos) {
        Some((from, to, end)) => Some((s.subrange(from, to), end)),
        None => None,
    }
}

/// One unit of a separator: a whitespace byte or a comment.
pub open spec fn separator_unit(s: Seq<u8>, pos: int) -> Option<int> {
    if 0 <= pos < s.len() && is_whitespace(s[pos]) {
        Some(pos + 1)
    } else {
        match comment_span(s, pos) {
            Some((_, _, end)) => Some(end),
            None => None,
        }
    }
}

/// The end of the longest run of separator units that starts at `pos`; `pos`
/// itself where none starts there. This is the optional separator.
pub open spec fn skip_separator(s: Seq<u8>, pos: int) -> int
    decreases s.len() - pos,
{
    match separator_unit(s, pos) {
        Some(end) => if pos < end <= s.len() {
            skip_separator(s, end)
        } else {
            pos
        },
        None => pos,
    }
}

/// Separator: one or more units of whitespace and comments, as many as there
/// are.
pub open spec fn separator(s: Seq<u8>, pos: int) -> Option<int> {
    let end = skip_separator(s, pos);
    if end > pos {
        Some(end)
    } else {
        None
    }
}

/// ListSeparator: one comma or semicolon.
pub open spec fn list_separator(s: Seq<u8>, pos: int) -> Option<int> {
    if byte_is(s, pos, ',') || byte_is(s, pos, ';') {
        Some(pos + 1)
    } else {
        None
    }
}

/// What parts two elements of a list: a comma or semicolon with optional
/// separators around it, or else a separator alone.
pub open spec fn list_gap(s: Seq<u8>, pos: int) -> Option<int> {
    let mark = skip_separator(s, pos);
    match list_separator(s, mark) {
        Some(after) => Some(skip_separator(s, after)),
        None => if mark > pos {
            Some(mark)
        } else {
            None
        },
    }
}

/// The optional list gap: where it ends, or `pos` where there is none.
pub open spec fn skip_list_gap(s: Seq<u8>, pos: int) -> int {
    match list_gap(s, pos) {
        Some(end) => end,
        None => pos,
    }
}

/// An optional separator and a comma or semicolon after it: where they end,
/// or `pos` where no comma or semicolon follows.
pub open spec fn skip_terminator(s: Seq<u8>, pos: int) -> int {
    match list_separator(s, skip_separator(s, pos)) {
        Some(end) => end,
        None => pos,
    }
}

/// The list gap, as a rule of a position.
pub open spec fn list_gap_rule(s: Seq<u8>) -> spec_fn(int) -> Option<int> {
    |p: int| list_gap(s, p)
}

/// The separator, as a rule of a position.
pub open spec fn separator_rule(s: Seq<u8>) -> spec_fn(int) -> Option<int> {
    |p: int| separator(s, p)
}

/// A punctuation mark, after an optional separator.
pub open spec fn mark(s: Seq<u8>, pos: int, c: char) -> Option<int> {
    let at = skip_separator(s, pos);
    if byte_is(s, at, c) {
        Some(at + 1)
    } else {
        None
    }
}

/// An optional rule: what it gave, or nothing and the position unchanged.
pub open spec fn optional<T>(found: Option<(T, int)>, pos: int) -> (Option<T>, int) {
    match found {
        Some((x, end)) => (Some(x), end),
        None => (None, pos),
    }
}

/// The elements of a list after its first one: each is preceded by a gap. The
/// list ends before a gap that no element follows.
pub open spec fn list_tail<T>(
    len: int,
    pos: int,
    gap: spec_fn(int) -> Option<int>,
    item: spec_fn(int) -> Option<(T, int)>,
) -> (Seq<T>, int)
    decreases len - pos,
{
    match gap(pos) {
        Some(start) => match item(start) {
            Some((x, end)) => if pos < end <= len {
                let (rest, stop) = list_tail(len, end, gap, item);
                (seq![x] + rest, stop)
            } else {
                (seq![], pos)
            },
            None => (seq![], pos),
        },
        None => (seq![], pos),
    }
}

/// Zero or more elements parted by gaps, and where the last of them ends.
pub open spec fn list<T>(
    len: int,
    pos: int,
    gap: spec_fn(int) -> Option<int>,
    item: spec_fn(int) -> Option<(T, int)>,
) -> (Seq<T>, int) {
    match item(pos) {
        Some((x, end)) => {
            let (rest, stop) = list_tail(len, end, gap, item);
            (seq![x] + rest, stop)
        },
        None => (seq![], pos),
    }
}

/// The elements already taken from a list, and what the rest of the list
/// adds to them.
pub open spec fn joined<T>(done: Seq<T>, tail: (Seq<T>, int)) -> (Seq<T>, int) {
    (done + tail.0, tail.1)
}

/// A list whose first element is taken goes on with its tail.
pub proof fn lemma_list_first<T>(
    len: int,
    pos: int,
    gap: spec_fn(int) -> Option<int>,
    item: spec_fn(int) -> Option<(T, int)>,
)
    ensures
        item(pos) matches Some((x, end)) ==> list(len, pos, gap, item) == joined(
            seq![x],
            list_tail(len, end, gap, item),
        ),
        item(pos).is_none() ==> list(len, pos, gap, item) == (Seq::<T>::empty(), pos),
{
}

/// A list that takes one more element goes on behind it.
pub proof fn lemma_list_next<T>(
    len: int,
    pos: int,
    gap: spec_fn(int) -> Option<int>,
    item: spec_fn(int) -> Option<(T, int)>,
    done: Seq<T>,
)
    ensures
        gap(pos) matches Some(start) ==> (item(start) matches Some((x, end)) ==> pos < end <= len
            ==> joined(done, list_tail(len, pos, gap, item)) == joined(
            done.push(x),
            list_tail(len, end, gap, item),
        )),
        (gap(pos).is_none() || item(gap(pos).unwrap()).is_none()) ==> joined(
            done,
            list_tail(len, pos, gap, item),
        ) == (done, pos),
{
    match gap(pos) {
        Some(start) => match item(start) {
            Some((x, end)) => {
                if pos < end <= len {
                    let tail = list_tail(len, end, gap, item);
                    assert(done + (seq![x] + tail.0) =~= done.push(x) + tail.0);
                }
            },
            None => {
                assert(done + Seq::<T>::empty() =~= done);
            },
        },
        None => {
            assert(done + Seq::<T>::empty() =~= done);
        },
    }
}

/// The position after an optional sign.
pub open spec fn skip_sign(s: Seq<u8>, pos: int) -> int {
    if byte_is(s, pos, '+') || byte_is(s, pos, '-') {
        pos + 1
    } else {
        pos
    }
}

/// The number that the decimal digits from `from` up to `to` write.
pub open spec fn digits_value(s: Seq<u8>, from: int, to: int) -> int
    decreases to - from,
{
    if from < to {
        10 * digits_value(s, from, to - 1) + (s[to - 1] - '0' as u8)
    } else {
        0
    }
}

/// IntConstant: an optional sign and one or more digits, which write a number
/// that a signed 64-bit integer holds.
pub open spec fn int_constant(s: Seq<u8>, pos: int) -> Option<(int, int)> {
    let first = skip_sign(s, pos);
    let end = run_end(s, first, ByteClass::Digit);
    let magnitude = digits_value(s, first, end);
    let value = if byte_is(s, pos, '-') {
        -magnitude
    } else {
        magnitude
    };
    if end > first && i64::MIN <= value <= i64::MAX {
        Some((value, end))
    } else {
        None
    }
}

/// The position after an optional exponent: `e` or `E`, an optional sign and
/// one or more digits.
pub open spec fn skip_exponent(s: Seq<u8>, pos: int) -> int {
    let first = skip_sign(s, pos + 1);
    let end = run_end(s, first, ByteClass::Digit);
    if (byte_is(s, pos, 'e') || byte_is(s, pos, 'E')) && end > first {
        end
    } else {
        pos
    }
}

/// A floating-point constant: an optional sign, digits, a point, digits, and
/// an optional exponent.
pub open spec fn double_constant(s: Seq<u8>, pos: int) -> Option<int> {
    let first = skip_sign(s, pos);
    let point = run_end(s, first, ByteClass::Digit);
    let end = run_end(s, point + 1, ByteClass::Digit);
    if point > first && byte_is(s, point, '.') && end > point + 1 {
        Some(skip_exponent(s, end))
    } else {
        None
    }
}

/// What `quote` opens at `pos` and closes again: where the text between the
/// two starts and ends, and where the literal ends.
pub open spec fn quoted_span(s: Seq<u8>, pos: int, quote: char) -> Option<(int, int, int)> {
    if byte_is(s, pos, quote) {
        match find_byte(s, pos + 1, quote as u8) {
            Some(close) => Some((pos + 1, close, close + 1)),
            None => None,
        }
    } else {
        None
    }
}

/// A string literal, in double or in single quotes. The quote that opens it
/// closes it; nothing between the two is interpreted.
pub open spec fn literal_span(s: Seq<u8>, pos: int) -> Option<(int, int, int)> {
    match quoted_span(s, pos, '"') {
        Some(span) => Some(span),
        None => quoted_span(s, pos, '\''),
    }
}

/// ConstValue: an integer, a floating-point constant, a string literal, a
/// list, a map or an identifier, tried in this order.
///
/// The integer comes first: digits before a point are an integer, and the
/// point is left in the input, unless a signed 64-bit integer does not hold
/// them.
pub open spec fn const_value(s: Seq<u8>, pos: int) -> Option<(ValueModel, int)>
    decreases s.len() - pos, 0int,
{
    match int_constant(s, pos) {
        Some((v, end)) => Some((ValueModel::Int(v), end)),
        None => match double_constant(s, pos) {
            Some(end) => Some((ValueModel::Double(s.subrange(pos, end)), end)),
            None => match literal_span(s, pos) {
                Some((from, to, end)) => Some((ValueModel::Literal(s.subrange(from, to)), end)),
                None => if byte_is(s, pos, '[') {
                    const_list(s, pos)
                } else if byte_is(s, pos, '{') {
                    const_map(s, pos)
                } else {
                    match identifier(s, pos) {
                        Some(end) => Some((ValueModel::Identifier(s.subrange(pos, end)), end)),
                        None => None,
                    }
                },
            },
        },
    }
}

/// The rule for a value inside the list or map that opens at `outer`.
pub open spec fn value_rule(s: Seq<u8>, outer: int) -> spec_fn(int) -> Option<(ValueModel, int)>
    decreases s.len() - outer - 1, 1int,
{
    |p: int|
        if outer < p <= s.len() {
            const_value(s, p)
        } else {
            None
        }
}

/// The rule for an entry inside the map that opens at `outer`.
pub open spec fn entry_rule(s: Seq<u8>, outer: int) -> spec_fn(int) -> Option<
    ((ValueModel, ValueModel), int),
>
    decreases s.len() - outer - 1, 2int,
{
    |p: int|
        if outer < p <= s.len() {
            const_entry(s, p)
        } else {
            None
        }
}

/// A list of constants: `[`, values parted by list gaps, an optional gap
/// after the last, and `]`.
pub open spec fn const_list(s: Seq<u8>, pos: int) -> Option<(ValueModel, int)>
    decreases s.len() - pos - 1, 2int,
{
    if byte_is(s, pos, '[') {
        let (items, stop) = list(
            s.len() as int,
            skip_separator(s, pos + 1),
            list_gap_rule(s),
            value_rule(s, pos),
        );
        match mark(s, skip_list_gap(s, stop), ']') {
            Some(end) => Some((ValueModel::List(items), end)),
            None => None,
        }
    } else {
        None
    }
}

/// One entry of a map of constants: a key, a colon and a value.
pub open spec fn const_entry(s: Seq<u8>, pos: int) -> Option<((ValueModel, ValueModel), int)>
    decreases s.len() - pos, 1int,
{
    match const_value(s, pos) {
        Some((key, key_end)) => match mark(s, key_end, ':') {
            Some(colon) => {
                let at = skip_separator(s, colon);
                if pos < at <= s.len() {
                    match const_value(s, at) {
                        Some((value, end)) => Some(((key, value), end)),
                        None => None,
                    }
                } else {
                    None
                }
            },
            None => None,
        },
        None => None,
    }
}

/// A map of constants: `{`, entries parted by list gaps, an optional gap
/// after the last, and `}`.
pub open spec fn const_map(s: Seq<u8>, pos: int) -> Option<(ValueModel, int)>
    decreases s.len() - pos - 1, 3int,
{
    if byte_is(s, pos, '{') {
        let (entries, stop) = list(
            s.len() as int,
            skip_separator(s, pos + 1),
            list_gap_rule(s),
            entry_rule(s, pos),
        );
        match mark(s, skip_list_gap(s, stop), '}') {
            Some(end) => Some((ValueModel::MapOf(entries), end)),
            None => None,
        }
    } else {
        None
    }
}

/// One of the nine base types, by its keyword.
pub open spec fn base_type(s: Seq<u8>, pos: int) -> Option<(TypeModel, int)> {
    if keyword(s, pos, "bool"@) is Some {
        Some((TypeModel::Bool, keyword(s, pos, "bool"@)->0))
    } else if keyword(s, pos, "byte"@) is Some {
        Some((TypeModel::Byte, keyword(s, pos, "byte"@)->0))
    } else if keyword(s, pos, "i8"@) is Some {
        Some((TypeModel::I8, keyword(s, pos, "i8"@)->0))
    } else if keyword(s, pos, "i16"@) is Some {
        Some((TypeModel::I16, keyword(s, pos, "i16"@)->0))
    } else if keyword(s, pos, "i32"@) is Some {
        Some((TypeModel::I32, keyword(s, pos, "i32"@)->0))
    } else if keyword(s, pos, "i64"@) is Some {
        Some((TypeModel::I64, keyword(s, pos, "i64"@)->0))
    } else if keyword(s, pos, "double"@) is Some {
        Some((TypeModel::Double, keyword(s, pos, "double"@)->0))
    } else if keyword(s, pos, "string"@) is Some {
        Some((TypeModel::String, keyword(s, pos, "string"@)->0))
    } else if keyword(s, pos, "binary"@) is Some {
        Some((TypeModel::Binary, keyword(s, pos, "binary"@)->0))
    } else {
        None
    }
}

/// What opens the arguments of a container type after its keyword: `<`, with
/// optional separators around it.
pub open spec fn open_arguments(s: Seq<u8>, pos: int, word: Seq<char>) -> Option<int> {
    match keyword(s, pos, word) {
        Some(after) => match mark(s, after, '<') {
            Some(open) => Some(skip_separator(s, open)),
            None => None,
        },
        None => None,
    }
}

/// A container type with one argument: the keyword, `<`, a type and `>`.
pub open spec fn unary_container(s: Seq<u8>, pos: int, word: Seq<char>) -> Option<(TypeModel, int)>
    decreases s.len() - pos, 0int,
{
    match open_arguments(s, pos, word) {
        Some(at) => if pos < at <= s.len() {
            match field_type(s, at) {
                Some((element, end)) => match mark(s, end, '>') {
                    Some(close) => Some((element, close)),
                    None => None,
                },
                None => None,
            }
        } else {
            None
        },
        None => None,
    }
}

/// The map type: `map`, `<`, a type, a comma, a type and `>`.
pub open spec fn map_container(s: Seq<u8>, pos: int) -> Option<(TypeModel, int)>
    decreases s.len() - pos, 0int,
{
    match open_arguments(s, pos, "map"@) {
        Some(at) => if pos < at <= s.len() {
            match field_type(s, at) {
                Some((key, key_end)) => match mark(s, key_end, ',') {
                    Some(comma) => {
                        let second = skip_separator(s, comma);
                        if pos < second <= s.len() {
                            match field_type(s, second) {
                                Some((value, end)) => match mark(s, end, '>') {
                                    Some(close) => Some(
                                        (TypeModel::MapOf(Box::new(key), Box::new(value)), close),
                                    ),
                                    None => None,
                                },
                                None => None,
                            }
                        } else {
                            None
                        }
                    },
                    None => None,
                },
                None => None,
            }
        } else {
            None
        },
        None => None,
    }
}

/// A container type: a list, a set or a map of types.
pub open spec fn container_type(s: Seq<u8>, pos: int) -> Option<(TypeModel, int)>
    decreases s.len() - pos, 1int,
{
    match unary_container(s, pos, "list"@) {
        Some((element, end)) => Some((TypeModel::ListOf(Box::new(element)), end)),
        None => match unary_container(s, pos, "set"@) {
            Some((element, end)) => Some((TypeModel::SetOf(Box::new(element)), end)),
            None => map_container(s, pos),
        },
    }
}

/// FieldType: a base type, a container type, or else the name of a type.
pub open spec fn field_type(s: Seq<u8>, pos: int) -> Option<(TypeModel, int)>
    decreases s.len() - pos, 2int,
{
    match base_type(s, pos) {
        Some(found) => Some(found),
        None => match container_type(s, pos) {
            Some(found) => Some(found),
            None => match identifier(s, pos) {
                Some(end) => Some((TypeModel::Named(s.subrange(pos, end)), end)),
                None => None,
            },
        },
    }
}

/// The type that a typedef renames: a base type or a container type.
pub open spec fn definition_type(s: Seq<u8>, pos: int) -> Option<(TypeModel, int)> {
    match base_type(s, pos) {
        Some(found) => Some(found),
        None => container_type(s, pos),
    }
}

/// The id of a field: an integer and a colon, with optional separators
/// around the colon.
pub open spec fn field_id(s: Seq<u8>, pos: int) -> Option<(int, int)> {
    match int_constant(s, pos) {
        Some((id, end)) => match mark(s, end, ':') {
            Some(colon) => Some((id, skip_separator(s, colon))),
            None => None,
        },
        None => None,
    }
}

/// A keyword and the separator that must follow it.
pub open spec fn spaced_keyword(s: Seq<u8>, pos: int, word: Seq<char>) -> Option<int> {
    match keyword(s, pos, word) {
        Some(after) => separator(s, after),
        None => None,
    }
}

/// `required` or `optional`, and a separator.
pub open spec fn requiredness(s: Seq<u8>, pos: int) -> Option<(bool, int)> {
    match spaced_keyword(s, pos, "required"@) {
        Some(end) => Some((true, end)),
        None => match spaced_keyword(s, pos, "optional"@) {
            Some(end) => Some((false, end)),
            None => None,
        },
    }
}

/// The default of a field: `=` and a constant, with optional separators
/// around the `=`.
pub open spec fn default_value(s: Seq<u8>, pos: int) -> Option<(ValueModel, int)> {
    match mark(s, pos, '=') {
        Some(equals) => const_value(s, skip_separator(s, equals)),
        None => None,
    }
}

/// Field: an optional id, an optional requiredness, a type, a separator, a
/// name and an optional default.
pub open spec fn field(s: Seq<u8>, pos: int) -> Option<(FieldModel, int)> {
    let (id, after_id) = optional(field_id(s, pos), pos);
    let (required, after_required) = optional(requiredness(s, after_id), after_id);
    match field_type(s, after_required) {
        Some((type_, type_end)) => match separator(s, type_end) {
            Some(name_start) => match identifier(s, name_start) {
                Some(name_end) => {
                    let (default, end) = optional(default_value(s, name_end), name_end);
                    Some(
                        (
                            FieldModel {
                                id,
                                required,
                                type_,
                                name: s.subrange(name_start, name_end),
                                default,
                            },
                            end,
                        ),
                    )
                },
                None => None,
            },
            None => None,
        },
        None => None,
    }
}

/// The field, as a rule of a position.
pub open spec fn field_rule(s: Seq<u8>) -> spec_fn(int) -> Option<(FieldModel, int)> {
    |p: int| field(s, p)
}

/// A field of a struct, union or exception: a field, and a comma or
/// semicolon after it where one is written.
pub open spec fn member(s: Seq<u8>, pos: int) -> Option<(FieldModel, int)> {
    match field(s, pos) {
        Some((f, end)) => Some((f, skip_terminator(s, end))),
        None => None,
    }
}

/// The member, as a rule of a position.
pub open spec fn member_rule(s: Seq<u8>) -> spec_fn(int) -> Option<(FieldModel, int)> {
    |p: int| member(s, p)
}

/// Fields in round brackets, parted by list gaps.
pub open spec fn field_list(s: Seq<u8>, pos: int) -> Option<(Seq<FieldModel>, int)> {
    match mark(s, pos, '(') {
        Some(open) => {
            let (fields, stop) = list(
                s.len() as int,
                skip_separator(s, open),
                list_gap_rule(s),
                field_rule(s),
            );
            match mark(s, skip_list_gap(s, stop), ')') {
                Some(end) => Some((fields, end)),
                None => None,
            }
        },
        None => None,
    }
}

/// The throws clause of a function: `throws` and one or more fields in round
/// brackets.
pub open spec fn throws(s: Seq<u8>, pos: int) -> Option<(Seq<FieldModel>, int)> {
    match keyword(s, skip_separator(s, pos), "throws"@) {
        Some(after) => match field_list(s, after) {
            Some((fields, end)) => if fields.len() > 0 {
                Some((fields, end))
            } else {
                None
            },
            None => None,
        },
        None => None,
    }
}

/// What a function returns: `void`, which is no type, or a type.
pub open spec fn return_type(s: Seq<u8>, pos: int) -> Option<(Option<TypeModel>, int)> {
    match keyword(s, pos, "void"@) {
        Some(end) => Some((None, end)),
        None => match field_type(s, pos) {
            Some((t, end)) => Some((Some(t), end)),
            None => None,
        },
    }
}

/// Function: an optional `oneway`, what it returns, a separator, its name,
/// its parameters and an optional throws clause.
pub open spec fn function(s: Seq<u8>, pos: int) -> Option<(FunctionModel, int)> {
    let (oneway, start) = optional(
        match spaced_keyword(s, pos, "oneway"@) {
            Some(end) => Some(((), end)),
            None => None,
        },
        pos,
    );
    match return_type(s, start) {
        Some((returned, returned_end)) => match separator(s, returned_end) {
            Some(name_start) => match identifier(s, name_start) {
                Some(name_end) => match field_list(s, name_end) {
                    Some((parameters, parameters_end)) => {
                        let (exceptions, end) = optional(
                            throws(s, parameters_end),
                            parameters_end,
                        );
                        Some(
                            (
                                FunctionModel {
                                    oneway: oneway is Some,
                                    returns: returned,
                                    name: s.subrange(name_start, name_end),
                                    parameters,
                                    exceptions,
                                },
                                end,
                            ),
                        )
                    },
                    None => None,
                },
                None => None,
            },
            None => None,
        },
        None => None,
    }
}

/// A function of a service: a function, and a comma or semicolon after it
/// where one is written.
pub open spec fn service_member(s: Seq<u8>, pos: int) -> Option<(FunctionModel, int)> {
    match function(s, pos) {
        Some((f, end)) => Some((f, skip_terminator(s, end))),
        None => None,
    }
}

/// The function of a service, as a rule of a position.
pub open spec fn service_member_rule(s: Seq<u8>) -> spec_fn(int) -> Option<(FunctionModel, int)> {
    |p: int| service_member(s, p)
}

/// The comment that documents a definition: a comment, the end of its line,
/// and optional blanks. A comment that nothing of this follows documents
/// nothing, and nothing is consumed.
pub open spec fn doc_comment(s: Seq<u8>, pos: int) -> (Option<Seq<u8>>, int) {
    match comment(s, pos) {
        Some((text, end)) => match linefeed(s, end) {
            Some(next_line) => (Some(text), run_end(s, next_line, ByteClass::Blank)),
            None => (None, pos),
        },
        None => (None, pos),
    }
}

/// How every definition starts: an optional documenting comment, the keyword
/// of the definition and a separator. Where this does not match, the input
/// holds no such definition at `pos`.
pub open spec fn definition_head(s: Seq<u8>, pos: int, word: Seq<char>) -> Option<
    (Option<Seq<u8>>, int),
> {
    let (doc, start) = doc_comment(s, pos);
    match spaced_keyword(s, start, word) {
        Some(end) => Some((doc, end)),
        None => None,
    }
}

/// Why a definition with the keyword `word` fails at `pos`, where it fails:
/// the input holds no such definition there, or it holds the start of one
/// that does not go on as it must.
pub open spec fn failure_kind(s: Seq<u8>, pos: int, word: Seq<char>) -> FailureKind {
    if definition_head(s, pos, word).is_none() {
        FailureKind::NoMatch
    } else {
        FailureKind::Incomplete
    }
}

/// Const: `const`, a type, a name, `=`, a value, and an optional comma or
/// semicolon.
pub open spec fn const_definition(s: Seq<u8>, pos: int) -> Option<(ConstModel, int)> {
    match definition_head(s, pos, "const"@) {
        Some((doc_comment, start)) => match field_type(s, start) {
            Some((type_, type_end)) => match separator(s, type_end) {
                Some(name_start) => match identifier(s, name_start) {
                    Some(name_end) => match default_value(s, name_end) {
                        Some((value, end)) => Some(
                            (
                                ConstModel {
                                    doc_comment,
                                    name: s.subrange(name_start, name_end),
                                    type_,
                                    value,
                                },
                                skip_terminator(s, end),
                            ),
                        ),
                        None => None,
                    },
                    None => None,
                },
                None => None,
            },
            None => None,
        },
        None => None,
    }
}

/// Typedef: `typedef`, a base or container type, and the new name.
pub open spec fn typedef_definition(s: Seq<u8>, pos: int) -> Option<(TypedefModel, int)> {
    match definition_head(s, pos, "typedef"@) {
        Some((doc_comment, start)) => match definition_type(s, start) {
            Some((old, old_end)) => match separator(s, old_end) {
                Some(alias_start) => match identifier(s, alias_start) {
                    Some(end) => Some(
                        (
                            TypedefModel {
                                doc_comment,
                                old,
                                alias: s.subrange(alias_start, end),
                            },
                            end,
                        ),
                    ),
                    None => None,
                },
                None => None,
            },
            None => None,
        },
        None => None,
    }
}

/// A member of an enum: a name, and optionally `=` and an integer.
pub open spec fn enum_value(s: Seq<u8>, pos: int) -> Option<(EnumValueModel, int)> {
    match identifier(s, pos) {
        Some(name_end) => {
            let (value, end) = optional(
                match mark(s, name_end, '=') {
                    Some(equals) => int_constant(s, skip_separator(s, equals)),
                    None => None,
                },
                name_end,
            );
            Some((EnumValueModel { name: s.subrange(pos, name_end), value }, end))
        },
        None => None,
    }
}

/// The member of an enum, as a rule of a position.
pub open spec fn enum_value_rule(s: Seq<u8>) -> spec_fn(int) -> Option<(EnumValueModel, int)> {
    |p: int| enum_value(s, p)
}

/// Enum: `enum`, a name, and in curly brackets members parted by list gaps,
/// with an optional gap after the last.
pub open spec fn enum_definition(s: Seq<u8>, pos: int) -> Option<(EnumModel, int)> {
    match definition_head(s, pos, "enum"@) {
        Some((doc_comment, name_start)) => match identifier(s, name_start) {
            Some(name_end) => match mark(s, name_end, '{') {
                Some(open) => {
                    let (children, stop) = list(
                        s.len() as int,
                        skip_separator(s, open),
                        list_gap_rule(s),
                        enum_value_rule(s),
                    );
                    match mark(s, skip_list_gap(s, stop), '}') {
                        Some(end) => Some(
                            (
                                EnumModel {
                                    doc_comment,
                                    name: s.subrange(name_start, name_end),
                                    children,
                                },
                                end,
                            ),
                        ),
                        None => None,
                    }
                },
                None => None,
            },
            None => None,
        },
        None => None,
    }
}

/// A struct, a union or an exception: the keyword, a name, and in curly
/// brackets fields parted by separators.
pub open spec fn record_definition(s: Seq<u8>, pos: int, word: Seq<char>) -> Option<
    (RecordModel, int),
> {
    match definition_head(s, pos, word) {
        Some((doc_comment, name_start)) => match identifier(s, name_start) {
            Some(name_end) => match mark(s, name_end, '{') {
                Some(open) => {
                    let (fields, stop) = list(
                        s.len() as int,
                        skip_separator(s, open),
                        separator_rule(s),
                        member_rule(s),
                    );
                    match mark(s, stop, '}') {
                        Some(end) => Some(
                            (
                                RecordModel {
                                    doc_comment,
                                    name: s.subrange(name_start, name_end),
                                    fields,
                                },
                                end,
                            ),
                        ),
                        None => None,
                    }
                },
                None => None,
            },
            None => None,
        },
        None => None,
    }
}

/// The service that a service extends: `extends`, a separator, a name and an
/// optional separator.
pub open spec fn extension(s: Seq<u8>, pos: int) -> Option<(Seq<u8>, int)> {
    match spaced_keyword(s, pos, "extends"@) {
        Some(name_start) => match identifier(s, name_start) {
            Some(name_end) => Some(
                (s.subrange(name_start, name_end), skip_separator(s, name_end)),
            ),
            None => None,
        },
        None => None,
    }
}

/// Service: `service`, a name, optionally the service that it extends, and in
/// curly brackets functions parted by separators.
pub open spec fn service_definition(s: Seq<u8>, pos: int) -> Option<(ServiceModel, int)> {
    match definition_head(s, pos, "service"@) {
        Some((doc_comment, name_start)) => match identifier(s, name_start) {
            Some(name_end) => {
                let after_name = skip_separator(s, name_end);
                let (extension, open) = optional(extension(s, after_name), after_name);
                if byte_is(s, open, '{') {
                    let (functions, stop) = list(
                        s.len() as int,
                        skip_separator(s, open + 1),
                        separator_rule(s),
                        service_member_rule(s),
                    );
                    match mark(s, stop, '}') {
                        Some(end) => Some(
                            (
                                ServiceModel {
                                    doc_comment,
                                    name: s.subrange(name_start, name_end),
                                    extension,
                                    functions,
                                },
                                end,
                            ),
                        ),
                        None => None,
                    }
                } else {
                    None
                }
            },
            None => None,
        },
        None => None,
    }
}

} // verus!
