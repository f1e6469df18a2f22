//! Scanners for the lexical rules, on the bytes of the input.

use vstd::prelude::*;
use crate::grammar::ByteClass;
use crate::grammar::{
    byte_is, comment_span, mark, find_block_end, find_byte, identifier, keyword, linefeed, list_gap,
    list_separator, run_end, separator, separator_unit, skip_list_gap, skip_separator,
    skip_terminator, space, spaced_keyword, text_at,
};

verus! {

impl ByteClass {
    /// Whether `b` belongs to the class.
    pub fn contains(&self, b: u8) -> (r: bool)
        ensures
            r == self.holds(b),
    {
        match self {
            ByteClass::IdentChar => ('a' as u8 <= b && b <= 'z' as u8) || ('A' as u8 <= b && b <= 'Z' as u8) || ('0' as u8 <= b && b <= '9' as u8) || b == '_' as u8,
            ByteClass::Digit => '0' as u8 <= b && b <= '9' as u8,
            ByteClass::Blank => b == ' ' as u8 || b == '\t' as u8,
            ByteClass::LineText => b != '\n' as u8 && b != '\r' as u8,
        }
    }
}

/// A position that a scanner found, as the grammar counts positions.
pub open spec fn widen(r: Option<usize>) -> Option<int> {
    match r {
        Some(end) => Some(end as int),
        None => None,
    }
}

/// Whether the byte at `pos` exists and is the ASCII character `c`.
pub fn has_byte(input: &[u8], pos: usize, c: char) -> (r: bool)
    ensures
        r == byte_is(input@, pos as int, c),
        r ==> pos < input.len() && pos < usize::MAX,
{
    pos < input.len() && input[pos] == c as u8
}

/// Scans the longest run of bytes of `class` from `pos`.
pub fn scan_run(input: &[u8], pos: usize, class: ByteClass) -> (end: usize)
    ensures
        end == run_end(input@, pos as int, class),
        pos <= end,
        pos <= input.len() ==> end <= input.len(),
{
    if pos > input.len() {
        return pos;
    }
    let mut i: usize = pos;
    while i < input.len() && class.contains(input[i])
        invariant
            pos <= i <= input.len(),
            run_end(input@, pos as int, class) == run_end(input@, i as int, class),
        decreases input.len() - i,
    {
        i += 1;
    }
    i
}

/// Matches the ASCII text `lit` at `pos`, and gives the position after it.
pub fn scan_text(input: &[u8], pos: usize, lit: &str) -> (r: Option<usize>)
    requires
        lit.is_ascii(),
    ensures
        r.is_some() == text_at(input@, pos as int, lit@),
        r matches Some(end) ==> end == pos + lit@.len() && end <= input.len(),
{
    broadcast use vstd::string::is_ascii_spec_bytes;
    reveal(text_at);
    let bytes = lit.as_bytes();
    let n = bytes.len();
    if pos > input.len() || n > input.len() - pos {
        return None;
    }
    let mut i: usize = 0;
    while i < n
        invariant
            i <= n,
            n == bytes.len(),
            n == lit@.len(),
            pos + n <= input.len(),
            forall|j: int| 0 <= j < n ==> bytes[j] == lit@[j] as u8,
            forall|j: int| 0 <= j < i ==> input[pos + j] == #[trigger] lit@[j] as u8,
        decreases n - i,
    {
        if input[pos + i] != bytes[i] {
            proof {
                reveal(text_at);
            }
            return None;
        }
        i += 1;
    }
    proof {
        reveal(text_at);
    }
    Some(pos + n)
}

/// Matches the keyword `word` at `pos`, and gives the position after it.
pub fn scan_keyword(input: &[u8], pos: usize, word: &str) -> (r: Option<usize>)
    requires
        word.is_ascii(),
        word@.len() > 0,
    ensures
        widen(r) == keyword(input@, pos as int, word@),
        r matches Some(end) ==> pos < end <= input.len() && input@[end - 1] < 0x80,
{
    match scan_text(input, pos, word) {
        Some(end) => {
            if end < input.len() && ByteClass::IdentChar.contains(input[end]) {
                None
            } else {
                proof {
                    reveal(text_at);
                    let last = word@.len() - 1;
                    assert(input@[pos + last] == word@[last] as u8);
                    assert(word@[last] <= '\u{7f}');
                }
                Some(end)
            }
        },
        None => None,
    }
}

/// Matches an identifier at `pos`, and gives the position after it.
pub fn scan_identifier(input: &[u8], pos: usize) -> (r: Option<usize>)
    ensures
        widen(r) == identifier(input@, pos as int),
        r matches Some(end) ==> pos < end <= input.len(),
{
    if pos < input.len() {
        let b = input[pos];
        if ('a' as u8 <= b && b <= 'z' as u8) || ('A' as u8 <= b && b <= 'Z' as u8) || b
            == '_' as u8 {
            return Some(scan_run(input, pos + 1, ByteClass::IdentChar));
        }
    }
    None
}

/// Matches one or more blanks at `pos`.
pub fn scan_space(input: &[u8], pos: usize) -> (r: Option<usize>)
    ensures
        widen(r) == space(input@, pos as int),
        r matches Some(end) ==> pos < end <= input.len(),
{
    let end = scan_run(input, pos, ByteClass::Blank);
    if end > pos {
        Some(end)
    } else {
        None
    }
}

/// Matches one end of line at `pos`.
pub fn scan_linefeed(input: &[u8], pos: usize) -> (r: Option<usize>)
    ensures
        widen(r) == linefeed(input@, pos as int),
        r matches Some(end) ==> pos < end <= input.len(),
{
    if has_byte(input, pos, '\n') {
        Some(pos + 1)
    } else if has_byte(input, pos, '\r') && has_byte(input, pos + 1, '\n') {
        Some(pos + 2)
    } else {
        None
    }
}

/// Finds the first `c` at or after `pos`.
pub fn scan_to_byte(input: &[u8], pos: usize, c: char) -> (r: Option<usize>)
    ensures
        widen(r) == find_byte(input@, pos as int, c as u8),
        r matches Some(at) ==> pos <= at < input.len(),
{
    if pos > input.len() {
        return None;
    }
    let mut i: usize = pos;
    while i < input.len()
        invariant
            pos <= i <= input.len(),
            find_byte(input@, pos as int, c as u8) == find_byte(input@, i as int, c as u8),
        decreases input.len() - i,
    {
        if input[i] == c as u8 {
            return Some(i);
        }
        i += 1;
    }
    None
}

/// Finds the first closing delimiter of a block comment at or after `pos`.
pub fn scan_to_block_end(input: &[u8], pos: usize) -> (r: Option<usize>)
    ensures
        widen(r) == find_block_end(input@, pos as int),
        r matches Some(at) ==> pos <= at && at + 2 <= input.len(),
{
    if pos > input.len() {
        return None;
    }
    let mut i: usize = pos;
    while i < input.len() && i + 1 < input.len()
        invariant
            pos <= i <= input.len(),
            find_block_end(input@, pos as int) == find_block_end(input@, i as int),
        decreases input.len() - i,
    {
        if input[i] == '*' as u8 && input[i + 1] == '/' as u8 {
            return Some(i);
        }
        i += 1;
    }
    None
}

/// Matches a comment at `pos`: where its text starts and ends, and where the
/// comment ends.
pub fn scan_comment(input: &[u8], pos: usize) -> (r: Option<(usize, usize, usize)>)
    ensures
        match r {
            Some((from, to, end)) => comment_span(input@, pos as int) == Some(
                (from as int, to as int, end as int),
            ) && pos < from <= to <= end <= input.len(),
            None => comment_span(input@, pos as int).is_none(),
        },
{
    proof {
        reveal_strlit("//");
        reveal_strlit("/*");
    }
    if scan_text(input, pos, "//").is_some() {
        let end = scan_run(input, pos + 2, ByteClass::LineText);
        Some((pos + 2, end, end))
    } else if scan_text(input, pos, "/*").is_some() {
        match scan_to_block_end(input, pos + 2) {
            Some(close) => Some((pos + 2, close, close + 2)),
            None => None,
        }
    } else if has_byte(input, pos, '#') {
        let end = scan_run(input, pos + 1, ByteClass::LineText);
        Some((pos + 1, end, end))
    } else {
        None
    }
}

/// Matches one unit of a separator at `pos`.
pub fn scan_separator_unit(input: &[u8], pos: usize) -> (r: Option<usize>)
    ensures
        widen(r) == separator_unit(input@, pos as int),
        r matches Some(end) ==> pos < end <= input.len(),
{
    if pos < input.len() && (input[pos] == ' ' as u8 || input[pos] == '\t' as u8 || input[pos]
        == '\n' as u8 || input[pos] == '\r' as u8) {
        Some(pos + 1)
    } else {
        match scan_comment(input, pos) {
            Some((_, _, end)) => Some(end),
            None => None,
        }
    }
}

/// Skips whitespace and comments from `pos`, as far as they go.
pub fn skip_separators(input: &[u8], pos: usize) -> (end: usize)
    ensures
        end == skip_separator(input@, pos as int),
        pos <= end,
        pos <= input.len() ==> end <= input.len(),
{
    if pos > input.len() {
        return pos;
    }
    let mut i: usize = pos;
    loop
        invariant
            pos <= i <= input.len(),
            skip_separator(input@, pos as int) == skip_separator(input@, i as int),
        ensures
            pos <= i <= input.len(),
            i == skip_separator(input@, pos as int),
        decreases input.len() - i,
    {
        match scan_separator_unit(input, i) {
            Some(end) => {
                i = end;
            },
            None => {
                break ;
            },
        }
    }
    i
}

/// Matches a separator at `pos`.
pub fn scan_separator(input: &[u8], pos: usize) -> (r: Option<usize>)
    ensures
        widen(r) == separator(input@, pos as int),
        r matches Some(end) ==> pos < end <= input.len(),
{
    let end = skip_separators(input, pos);
    if end > pos {
        Some(end)
    } else {
        None
    }
}

/// Matches a comma or a semicolon at `pos`.
pub fn scan_list_separator(input: &[u8], pos: usize) -> (r: Option<usize>)
    ensures
        widen(r) == list_separator(input@, pos as int),
        r matches Some(end) ==> end == pos + 1 && end <= input.len(),
{
    if has_byte(input, pos, ',') || has_byte(input, pos, ';') {
        Some(pos + 1)
    } else {
        None
    }
}

/// Matches what parts two elements of a list at `pos`.
pub fn scan_list_gap(input: &[u8], pos: usize) -> (r: Option<usize>)
    ensures
        widen(r) == list_gap(input@, pos as int),
        r matches Some(end) ==> pos < end <= input.len(),
{
    let mark = skip_separators(input, pos);
    match scan_list_separator(input, mark) {
        Some(after) => Some(skip_separators(input, after)),
        None => if mark > pos {
            Some(mark)
        } else {
            None
        },
    }
}

/// Skips what parts two elements of a list, where it stands at `pos`.
pub fn skip_gap(input: &[u8], pos: usize) -> (end: usize)
    ensures
        end == skip_list_gap(input@, pos as int),
        pos <= end,
        pos <= input.len() ==> end <= input.len(),
{
    match scan_list_gap(input, pos) {
        Some(end) => end,
        None => pos,
    }
}

/// Skips an optional separator and the comma or semicolon after it; stays at
/// `pos` where no comma or semicolon follows.
pub fn skip_closing_mark(input: &[u8], pos: usize) -> (end: usize)
    ensures
        end == skip_terminator(input@, pos as int),
        pos <= end,
        pos <= input.len() ==> end <= input.len(),
{
    match scan_list_separator(input, skip_separators(input, pos)) {
        Some(end) => end,
        None => pos,
    }
}

/// Matches the keyword `word` and the separator that must follow it.
pub fn scan_spaced_keyword(input: &[u8], pos: usize, word: &str) -> (r: Option<usize>)
    requires
        word.is_ascii(),
        word@.len() > 0,
    ensures
        widen(r) == spaced_keyword(input@, pos as int, word@),
        r matches Some(end) ==> pos < end <= input.len(),
{
    match scan_keyword(input, pos, word) {
        Some(after) => scan_separator(input, after),
        None => None,
    }
}

/// Matches the punctuation mark `c` at `pos`, after an optional separator.
pub fn scan_mark(input: &[u8], pos: usize, c: char) -> (r: Option<usize>)
    requires
        c <= '\u{7f}',
    ensures
        widen(r) == mark(input@, pos as int, c),
        r matches Some(end) ==> pos < end <= input.len() && input@[end - 1] < 0x80,
{
    let at = skip_separators(input, pos);
    if has_byte(input, at, c) {
        Some(at + 1)
    } else {
        None
    }
}

} // verus!
