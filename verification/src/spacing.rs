//! What stands in a separator is immaterial.
//!
//! Take an input and a place in it where a separator stands, between two
//! tokens. Replace the whitespace and comments there by any other whitespace
//! and comments. Then every rule of the grammar gives what it gave: the same
//! node or the same failure, and positions behind the separator move by what
//! the separator is longer.

use vstd::prelude::*;
use crate::grammar::{
    base_type, byte_is, comment, comment_span, const_definition, const_entry, const_list,
    const_map, const_value, container_type, default_value, definition_head, definition_type,
    digits_value, doc_comment, double_constant, entry_rule, enum_definition, enum_value,
    enum_value_rule, extension, field, field_id, field_list, field_rule, field_type,
    find_block_end, find_byte, function, identifier, int_constant, is_ident_char, is_letter,
    is_whitespace, keyword, linefeed, list, list_gap, list_gap_rule, list_separator, list_tail,
    literal_span, map_container, mark, member, member_rule, open_arguments, optional, quoted_span,
    record_definition, requiredness, return_type, run_end, separator, separator_rule,
    separator_unit, service_definition, service_member, service_member_rule, skip_exponent,
    skip_list_gap, skip_separator, skip_sign, skip_terminator, spaced_keyword, text_at, throws,
    typedef_definition, unary_container, value_rule, ByteClass,
};
use crate::locality::aligned;

verus! {

/// Whether `word` is made of letters, as every keyword is.
pub open spec fn is_word(word: Seq<char>) -> bool {
    &&& word.len() > 0
    &&& forall|i: int| 0 <= i < word.len() ==> is_letter(#[trigger] word[i] as u8)
}

/// Where the keyword of a definition that starts at the start of `s` ends.
pub open spec fn keyword_end(s: Seq<u8>, word: Seq<char>) -> int {
    doc_comment(s, 0).1 + word.len()
}

/// Whether `a` and `b` hold the same first `k` bytes.
pub open spec fn same_start(a: Seq<u8>, b: Seq<u8>, k: int) -> bool {
    &&& 0 <= k <= a.len()
    &&& k <= b.len()
    &&& forall|i: int| 0 <= i < k ==> #[trigger] a[i] == b[i]
}

/// A run that ends before the inputs part ends in the same place in both.
#[verifier::rlimit(30)]
pub proof fn lemma_run_end_agrees(a: Seq<u8>, b: Seq<u8>, k: int, at: int, class: ByteClass)
    requires
        same_start(a, b, k),
        0 <= at,
        run_end(a, at, class) < k,
    ensures
        run_end(b, at, class) == run_end(a, at, class),
    decreases k - at,
{
    if at < k {
        assert(a[at] == b[at]);
        if class.holds(a[at]) {
            lemma_run_end_agrees(a, b, k, at + 1, class);
        }
    } else {
        crate::locality::lemma_run_end_local(a, a, 0, if at <= a.len() {
            at
        } else {
            a.len() as int
        }, class);
    }
}

/// A block comment that closes before the inputs part closes in the same
/// place in both.
#[verifier::rlimit(30)]
pub proof fn lemma_block_end_agrees(a: Seq<u8>, b: Seq<u8>, k: int, at: int)
    requires
        same_start(a, b, k),
        0 <= at,
        find_block_end(a, at) matches Some(close) && close + 2 <= k,
    ensures
        find_block_end(b, at) == find_block_end(a, at),
    decreases k - at,
{
    if at + 2 <= a.len() {
        if at + 2 <= k {
            assert(a[at] == b[at]);
            assert(a[at + 1] == b[at + 1]);
            if !(a[at] == '*' as u8 && a[at + 1] == '/' as u8) {
                lemma_block_end_agrees(a, b, k, at + 1);
            }
        } else {
            crate::locality::lemma_find_block_end_local(a, a, 0, at);
        }
    }
}

/// A comment that ends, with its line, before the inputs part is the same
/// comment in both.
#[verifier::rlimit(30)]
pub proof fn lemma_comment_span_agrees(a: Seq<u8>, b: Seq<u8>, k: int)
    requires
        same_start(a, b, k),
        comment_span(a, 0) matches Some((_, _, end)) && end < k && linefeed(a, end).is_some(),
    ensures
        comment_span(b, 0) == comment_span(a, 0),
        comment(b, 0) == comment(a, 0),
{
    reveal(text_at);
    reveal_strlit("//");
    reveal_strlit("/*");
    let (from, to, end) = comment_span(a, 0).unwrap();
    crate::locality::lemma_comment_span_local(a, a, 0, 0);
    assert(a[0] == b[0]);
    assert(a[end] == b[end]);
    if text_at(a, 0, "//"@) {
        assert(a[1] == "//"@[1] as u8);
        assert(a[1] == b[1]);
        assert(text_at(b, 0, "//"@));
        lemma_run_end_agrees(a, b, k, 2, ByteClass::LineText);
    } else if text_at(a, 0, "/*"@) {
        assert(a[1] == "/*"@[1] as u8);
        assert(a[1] == b[1]);
        assert(text_at(b, 0, "/*"@));
        assert(!text_at(b, 0, "//"@)) by {
            assert(text_at(b, 0, "//"@) ==> b[1] == "//"@[1] as u8);
        }
        lemma_block_end_agrees(a, b, k, 2);
    } else {
        assert(!text_at(b, 0, "//"@)) by {
            assert(text_at(b, 0, "//"@) ==> b[0] == "//"@[0] as u8);
        }
        assert(!text_at(b, 0, "/*"@)) by {
            assert(text_at(b, 0, "/*"@) ==> b[0] == "/*"@[0] as u8);
        }
        lemma_run_end_agrees(a, b, k, 1, ByteClass::LineText);
    }
    assert(a.subrange(from, to) =~= b.subrange(from, to));
}

/// Where a letter stands, no comment starts.
pub proof fn lemma_no_comment_agrees(a: Seq<u8>, b: Seq<u8>, k: int)
    requires
        same_start(a, b, k),
        k > 0,
        is_letter(a[0]),
    ensures
        comment_span(a, 0).is_none(),
        comment_span(b, 0).is_none(),
{
    reveal(text_at);
    reveal_strlit("//");
    reveal_strlit("/*");
    assert(a[0] == b[0]);
    assert(text_at(b, 0, "//"@) ==> b[0] == "//"@[0] as u8);
    assert(text_at(b, 0, "/*"@) ==> b[0] == "/*"@[0] as u8);
    assert(text_at(a, 0, "//"@) ==> a[0] == "//"@[0] as u8);
    assert(text_at(a, 0, "/*"@) ==> a[0] == "/*"@[0] as u8);
}

/// Inputs that agree up to the end of the keyword of a definition agree on
/// the comment that documents it.
#[verifier::rlimit(30)]
pub proof fn lemma_doc_comment_agrees(a: Seq<u8>, b: Seq<u8>, k: int, word: Seq<char>)
    requires
        same_start(a, b, k),
        is_word(word),
        keyword(a, doc_comment(a, 0).1, word) == Some(k),
    ensures
        doc_comment(b, 0) == doc_comment(a, 0),
        0 <= doc_comment(a, 0).1 < k,
{
    let start = doc_comment(a, 0).1;
    crate::locality::lemma_doc_comment_local(a, a, 0, 0);
    assert(a[start] == word[0] as u8 && start + word.len() == k) by {
        reveal(text_at);
    }
    assert(is_letter(word[0] as u8));
    if comment_span(a, 0).is_some() && linefeed(a, comment_span(a, 0).unwrap().2).is_some() {
        let (from, to, end) = comment_span(a, 0).unwrap();
        let next_line = linefeed(a, end).unwrap();
        crate::locality::lemma_run_end_local(a, a, 0, next_line, ByteClass::Blank);
        lemma_comment_span_agrees(a, b, k);
        assert(a[end] == b[end]);
        if end + 1 < k {
            assert(a[end + 1] == b[end + 1]);
        }
        lemma_run_end_agrees(a, b, k, next_line, ByteClass::Blank);
    } else {
        assert(start == 0);
        lemma_no_comment_agrees(a, b, k);
    }
}

/// A keyword that stands before the inputs part, with nothing behind it
/// that continues it, is matched in both.
pub proof fn lemma_keyword_agrees(a: Seq<u8>, b: Seq<u8>, k: int, start: int, word: Seq<char>)
    requires
        same_start(a, b, k),
        keyword(a, start, word) == Some(k),
        k < b.len() && !is_ident_char(b[k]),
    ensures
        keyword(b, start, word) == Some(k),
{
    reveal(text_at);
    assert forall|i: int| 0 <= i < word.len() implies b[start + i] == #[trigger] word[i]
        as u8 by {
        assert(a[start + i] == b[start + i]);
    }
}

/// The keywords of the definitions are made of letters.
pub proof fn lemma_keywords_are_words()
    ensures
        is_word("const"@),
        is_word("typedef"@),
        is_word("enum"@),
        is_word("struct"@),
        is_word("union"@),
        is_word("exception"@),
        is_word("service"@),
{
    reveal_strlit("const");
    reveal_strlit("typedef");
    reveal_strlit("enum");
    reveal_strlit("struct");
    reveal_strlit("union");
    reveal_strlit("exception");
    reveal_strlit("service");
}

/// Whether `b` is `a` with the separator that starts at `g` replaced by
/// another one.
pub open spec fn replaced(a: Seq<u8>, b: Seq<u8>, g: int) -> bool {
    &&& same_start(a, b, g)
    &&& skip_separator(a, g) > g
    &&& skip_separator(b, g) > g
    &&& a.skip(skip_separator(a, g)) == b.skip(skip_separator(b, g))
}

/// By how much the separator at `g` is longer in `b` than in `a`.
pub open spec fn longer(a: Seq<u8>, b: Seq<u8>, g: int) -> int {
    skip_separator(b, g) - skip_separator(a, g)
}

/// Where a position of `a` is found in `b`: where it was, up to `g`, and
/// further on by what the separator is longer, behind it.
pub open spec fn carried(a: Seq<u8>, b: Seq<u8>, g: int, pos: int) -> int {
    if pos <= g {
        pos
    } else {
        pos + longer(a, b, g)
    }
}

/// A position that a rule gave, carried over to `b`.
pub open spec fn carried_end(a: Seq<u8>, b: Seq<u8>, g: int, found: Option<int>) -> Option<int> {
    match found {
        Some(end) => Some(carried(a, b, g, end)),
        None => None,
    }
}

/// A node that a rule gave, with its end carried over to `b`.
pub open spec fn carried_node<T>(a: Seq<u8>, b: Seq<u8>, g: int, found: Option<(T, int)>) -> Option<
    (T, int),
> {
    match found {
        Some((node, end)) => Some((node, carried(a, b, g, end))),
        None => None,
    }
}

/// Whether a byte can start a separator.
pub open spec fn starts_separator(byte: u8) -> bool {
    is_whitespace(byte) || byte == '/' as u8 || byte == '#' as u8
}

/// The end of the piece of text that starts at `pos`: a whitespace byte, a
/// comment, a string literal, or any other single byte. There is none where a
/// comment or a literal is opened and never closed, or a slash stands alone.
pub open spec fn piece_end(s: Seq<u8>, pos: int) -> Option<int> {
    if is_whitespace(s[pos]) {
        Some(pos + 1)
    } else if s[pos] == '/' as u8 || s[pos] == '#' as u8 {
        match comment_span(s, pos) {
            Some((_, _, end)) => Some(end),
            None => None,
        }
    } else if s[pos] == '"' as u8 {
        match quoted_span(s, pos, '"') {
            Some((_, _, end)) => Some(end),
            None => None,
        }
    } else if s[pos] == '\'' as u8 {
        match quoted_span(s, pos, '\'') {
            Some((_, _, end)) => Some(end),
            None => None,
        }
    } else {
        Some(pos + 1)
    }
}

/// Whether the piece at `pos` is a line comment.
pub open spec fn is_line_comment(s: Seq<u8>, pos: int) -> bool {
    (s[pos] == '#' as u8 || (s[pos] == '/' as u8 && byte_is(s, pos + 1, '/')))
}

/// Whether `g` lies between two pieces of the text that starts at `pos`: it
/// is reached from `pos` piece by piece, and is not the end of the line of a
/// line comment.
pub open spec fn reaches(s: Seq<u8>, pos: int, g: int) -> bool
    decreases g - pos,
{
    if pos == g {
        0 <= g <= s.len()
    } else if 0 <= pos < g <= s.len() {
        match piece_end(s, pos) {
            Some(end) => pos < end <= g && (is_line_comment(s, pos) ==> end < g) && reaches(
                s,
                end,
                g,
            ),
            None => false,
        }
    } else {
        false
    }
}

/// Whether `pos` is a place from which a rule can be applied to both inputs:
/// between two pieces before the separator at `g`, or behind that separator.
pub open spec fn placed(a: Seq<u8>, g: int, pos: int) -> bool {
    reaches(a, pos, g) || skip_separator(a, g) <= pos <= a.len()
}

/// Whether the position that a rule gave from `pos` is such a place again.
pub open spec fn settled(a: Seq<u8>, g: int, pos: int, found: Option<int>) -> bool {
    found matches Some(end) ==> pos <= end && placed(a, g, end)
}

/// Whether the node that a rule gave from `pos` ends at such a place again.
pub open spec fn node_settled<T>(a: Seq<u8>, g: int, pos: int, found: Option<(T, int)>) -> bool {
    found matches Some((_, end)) ==> pos <= end && placed(a, g, end)
}

/// Behind the separator, the two inputs are aligned.
#[verifier::rlimit(30)]
pub proof fn lemma_aligned_behind(a: Seq<u8>, b: Seq<u8>, g: int)
    requires
        replaced(a, b, g),
    ensures
        aligned(a, b, longer(a, b, g), skip_separator(a, g)),
        g < skip_separator(a, g) <= a.len(),
        g < skip_separator(b, g) <= b.len(),
        0 <= g < a.len(),
        g < b.len(),
        starts_separator(a[g]),
        starts_separator(b[g]),
{
    let r = skip_separator(a, g);
    let r2 = skip_separator(b, g);
    let d = longer(a, b, g);
    crate::locality::lemma_skip_separator_local(a, a, 0, g);
    if g <= b.len() {
        assert(aligned(b, b, 0, g));
        crate::locality::lemma_skip_separator_local(b, b, 0, g);
    }
    assert(a.skip(r).len() == b.skip(r2).len());
    assert forall|i: int| r <= i < a.len() implies #[trigger] a[i] == b[i + d] by {
        assert(a.skip(r)[i - r] == b.skip(r2)[i - r]);
    }
    lemma_unit_starts_separator(a, g);
    lemma_unit_starts_separator(b, g);
}

/// Where a unit of a separator starts, a byte stands that can start one.
#[verifier::rlimit(30)]
pub proof fn lemma_unit_starts_separator(s: Seq<u8>, pos: int)
    requires
        separator_unit(s, pos).is_some(),
    ensures
        0 <= pos < s.len(),
        starts_separator(s[pos]),
{
    reveal(text_at);
    reveal_strlit("//");
    reveal_strlit("/*");
    if !(0 <= pos < s.len() && is_whitespace(s[pos])) {
        assert(comment_span(s, pos).is_some());
        if text_at(s, pos, "//"@) {
            assert(s[pos] == "//"@[0] as u8);
        } else if text_at(s, pos, "/*"@) {
            assert(s[pos] == "/*"@[0] as u8);
        }
    }
}

/// Whether a byte is none of those that start a separator or a literal.
pub open spec fn is_plain(byte: u8) -> bool {
    !starts_separator(byte) && byte != '"' as u8 && byte != '\'' as u8
}

/// Whether a character is an ASCII character whose byte is plain.
pub open spec fn is_plain_char(c: char) -> bool {
    c <= '\u{7f}' && is_plain(c as u8)
}

/// Behind a plain byte, a place is a place again.
pub proof fn lemma_step_over_plain(a: Seq<u8>, g: int, pos: int)
    requires
        placed(a, g, pos),
        0 <= pos < a.len(),
        is_plain(a[pos]),
        0 <= g < a.len(),
        starts_separator(a[g]),
        g < skip_separator(a, g),
    ensures
        placed(a, g, pos + 1),
        pos != g,
{
}

/// A single plain byte is tested alike in both inputs.
#[verifier::rlimit(30)]
pub proof fn lemma_byte_replaced(a: Seq<u8>, b: Seq<u8>, g: int, pos: int, c: char)
    requires
        replaced(a, b, g),
        placed(a, g, pos),
        is_plain_char(c),
    ensures
        byte_is(b, carried(a, b, g, pos), c) == byte_is(a, pos, c),
        byte_is(a, pos, c) ==> placed(a, g, pos + 1) && (pos < g ==> pos + 1 <= g) && carried(
            a,
            b,
            g,
            pos + 1,
        ) == carried(a, b, g, pos) + 1,
{
    lemma_aligned_behind(a, b, g);
    if pos <= g {
        if pos < g {
            assert(a[pos] == b[pos]);
            if byte_is(a, pos, c) {
                lemma_step_over_plain(a, g, pos);
            }
        }
    } else {
        crate::locality::lemma_byte_is_local(a, b, longer(a, b, g), pos, c);
    }
}

/// Whether every byte of the class is plain.
pub open spec fn is_plain_class(class: ByteClass) -> bool {
    class == ByteClass::IdentChar || class == ByteClass::Digit
}

/// A run of letters and digits ends alike in both inputs, and on the side of
/// the separator on which it started.
pub proof fn lemma_run_replaced(a: Seq<u8>, b: Seq<u8>, g: int, pos: int, class: ByteClass)
    requires
        replaced(a, b, g),
        placed(a, g, pos),
        is_plain_class(class),
    ensures
        run_end(b, carried(a, b, g, pos), class) == carried(a, b, g, run_end(a, pos, class)),
        placed(a, g, run_end(a, pos, class)),
        pos <= run_end(a, pos, class) <= a.len(),
        pos <= g ==> run_end(a, pos, class) <= g,
    decreases g - pos,
{
    lemma_aligned_behind(a, b, g);
    if pos > g {
        crate::locality::lemma_run_end_local(a, b, longer(a, b, g), pos, class);
    } else if pos < g {
        assert(a[pos] == b[pos]);
        if class.holds(a[pos]) {
            lemma_step_over_plain(a, g, pos);
            lemma_run_replaced(a, b, g, pos + 1, class);
        }
    }
}

/// Whether `word` is made of letters, digits and underscores.
pub open spec fn is_plain_word(word: Seq<char>) -> bool {
    forall|i: int| 0 <= i < word.len() ==> is_ident_char(#[trigger] word[i] as u8)
}

/// Behind plain bytes, a place is a place again.
pub proof fn lemma_step_over_word(a: Seq<u8>, g: int, pos: int, n: int)
    requires
        placed(a, g, pos),
        0 <= n,
        pos + n <= a.len(),
        forall|i: int| pos <= i < pos + n ==> is_plain(#[trigger] a[i]),
        0 <= g < a.len(),
        starts_separator(a[g]),
        g < skip_separator(a, g),
    ensures
        placed(a, g, pos + n),
        pos <= g ==> pos + n <= g,
    decreases n,
{
    if n > 0 {
        assert(is_plain(a[pos]));
        lemma_step_over_plain(a, g, pos);
        lemma_step_over_word(a, g, pos + 1, n - 1);
    }
}

/// A word of letters and digits is matched alike in both inputs.
#[verifier::rlimit(30)]
pub proof fn lemma_text_replaced(a: Seq<u8>, b: Seq<u8>, g: int, pos: int, word: Seq<char>)
    requires
        replaced(a, b, g),
        placed(a, g, pos),
        is_plain_word(word),
    ensures
        text_at(b, carried(a, b, g, pos), word) == text_at(a, pos, word),
        text_at(a, pos, word) ==> placed(a, g, pos + word.len()) && (pos <= g ==> pos
            + word.len() <= g),
{
    reveal(text_at);
    lemma_aligned_behind(a, b, g);
    if pos > g {
        crate::locality::lemma_text_at_local(a, b, longer(a, b, g), pos, word);
        if text_at(a, pos, word) {
            assert forall|i: int| pos <= i < pos + word.len() implies is_plain(#[trigger] a[i]) by {
                assert(a[pos + (i - pos)] == word[i - pos] as u8);
            }
            lemma_step_over_word(a, g, pos, word.len() as int);
        }
    } else {
        if pos + word.len() <= g {
            if text_at(a, pos, word) {
                assert forall|i: int| 0 <= i < word.len() implies b[pos + i] == #[trigger] word[i]
                    as u8 by {
                    assert(a[pos + i] == b[pos + i]);
                }
                assert forall|i: int| pos <= i < pos + word.len() implies is_plain(
                    #[trigger] a[i],
                ) by {
                    assert(a[pos + (i - pos)] == word[i - pos] as u8);
                }
                lemma_step_over_word(a, g, pos, word.len() as int);
            }
            if text_at(b, pos, word) {
                assert forall|i: int| 0 <= i < word.len() implies a[pos + i] == #[trigger] word[i]
                    as u8 by {
                    assert(a[pos + i] == b[pos + i]);
                }
            }
        } else {
            let i = g - pos;
            assert(is_ident_char(word[i] as u8));
            assert(text_at(a, pos, word) ==> a[pos + i] == word[i] as u8);
            assert(text_at(b, pos, word) ==> b[pos + i] == word[i] as u8);
        }
    }
}

/// A comment before the separator is the same comment in both inputs.
#[verifier::rlimit(30)]
pub proof fn lemma_comment_replaced(a: Seq<u8>, b: Seq<u8>, g: int, pos: int)
    requires
        replaced(a, b, g),
        reaches(a, pos, g),
        pos < g,
    ensures
        comment_span(b, pos) == comment_span(a, pos),
        comment_span(a, pos) matches Some((_, _, end)) ==> pos < end <= g && reaches(a, end, g),
{
    reveal(text_at);
    reveal_strlit("//");
    reveal_strlit("/*");
    lemma_aligned_behind(a, b, g);
    assert(a[pos] == b[pos]);
    if a[pos] == '/' as u8 || a[pos] == '#' as u8 {
        let (from, to, end) = comment_span(a, pos).unwrap();
        assert(pos + 1 < g || a[pos] == '#' as u8) by {
            if text_at(a, pos, "//"@) {
                assert(a[pos + 1] == "//"@[1] as u8);
            }
            if text_at(a, pos, "/*"@) {
                assert(a[pos + 1] == "/*"@[1] as u8);
                crate::locality::lemma_find_block_end_local(a, a, 0, pos + 2);
            }
        }
        if text_at(a, pos, "//"@) {
            assert(a[pos + 1] == "//"@[1] as u8);
            assert(a[pos + 1] == b[pos + 1]);
            assert(text_at(b, pos, "//"@));
            lemma_run_end_agrees(a, b, g, pos + 2, ByteClass::LineText);
        } else if text_at(a, pos, "/*"@) {
            assert(a[pos + 1] == "/*"@[1] as u8);
            assert(a[pos + 1] == b[pos + 1]);
            assert(text_at(b, pos, "/*"@));
            assert(!text_at(b, pos, "//"@)) by {
                assert(text_at(b, pos, "//"@) ==> b[pos + 1] == "//"@[1] as u8);
            }
            lemma_block_end_agrees(a, b, g, pos + 2);
        } else {
            assert(a[pos] == '#' as u8) by {
                if a[pos] == '/' as u8 {
                    assert(comment_span(a, pos).is_some());
                }
            }
            assert(!text_at(b, pos, "//"@)) by {
                assert(text_at(b, pos, "//"@) ==> b[pos] == "//"@[0] as u8);
            }
            assert(!text_at(b, pos, "/*"@)) by {
                assert(text_at(b, pos, "/*"@) ==> b[pos] == "/*"@[0] as u8);
            }
            lemma_run_end_agrees(a, b, g, pos + 1, ByteClass::LineText);
        }
    } else {
        assert(text_at(a, pos, "//"@) ==> a[pos] == "//"@[0] as u8);
        assert(text_at(a, pos, "/*"@) ==> a[pos] == "/*"@[0] as u8);
        assert(text_at(b, pos, "//"@) ==> b[pos] == "//"@[0] as u8);
        assert(text_at(b, pos, "/*"@) ==> b[pos] == "/*"@[0] as u8);
    }
}

/// The optional separator ends alike in both inputs: where it ended, or
/// behind the separator that was replaced.
#[verifier::rlimit(30)]
pub proof fn lemma_skip_replaced(a: Seq<u8>, b: Seq<u8>, g: int, pos: int)
    requires
        replaced(a, b, g),
        placed(a, g, pos),
    ensures
        skip_separator(b, carried(a, b, g, pos)) == carried(a, b, g, skip_separator(a, pos)),
        placed(a, g, skip_separator(a, pos)),
        pos <= skip_separator(a, pos) <= a.len(),
    decreases g - pos,
{
    lemma_aligned_behind(a, b, g);
    if pos > g {
        crate::locality::lemma_skip_separator_local(a, b, longer(a, b, g), pos);
    } else if pos < g {
        assert(a[pos] == b[pos]);
        lemma_comment_replaced(a, b, g, pos);
        if is_whitespace(a[pos]) {
            lemma_skip_replaced(a, b, g, pos + 1);
        } else if comment_span(a, pos).is_some() {
            lemma_skip_replaced(a, b, g, comment_span(a, pos).unwrap().2);
        }
    }
}

/// A byte that is found before the inputs part is found in the same place in
/// both.
pub proof fn lemma_find_byte_agrees(a: Seq<u8>, b: Seq<u8>, k: int, at: int, c: u8)
    requires
        same_start(a, b, k),
        0 <= at,
        find_byte(a, at, c) matches Some(found) && found < k,
    ensures
        find_byte(b, at, c) == find_byte(a, at, c),
    decreases k - at,
{
    if at < a.len() {
        if at < k {
            assert(a[at] == b[at]);
            if a[at] != c {
                lemma_find_byte_agrees(a, b, k, at + 1, c);
            }
        } else {
            crate::locality::lemma_find_byte_local(a, a, 0, at, c);
        }
    }
}

/// Text on one side of the separator is the same text in both inputs.
#[verifier::rlimit(30)]
pub proof fn lemma_text_carried(a: Seq<u8>, b: Seq<u8>, g: int, lo: int, hi: int)
    requires
        replaced(a, b, g),
        0 <= lo <= hi <= a.len(),
        hi <= g || skip_separator(a, g) <= lo,
    ensures
        a.subrange(lo, hi) == b.subrange(carried(a, b, g, lo), carried(a, b, g, hi)),
{
    lemma_aligned_behind(a, b, g);
    if hi <= g {
        assert(a.subrange(lo, hi) =~= b.subrange(lo, hi));
    } else {
        crate::locality::lemma_subrange_local(
            a,
            b,
            longer(a, b, g),
            skip_separator(a, g),
            lo,
            hi,
        );
    }
}

/// What a quote opens and closes is the same literal in both inputs.
#[verifier::rlimit(30)]
pub proof fn lemma_quoted_span_replaced(a: Seq<u8>, b: Seq<u8>, g: int, pos: int, quote: char)
    requires
        replaced(a, b, g),
        placed(a, g, pos),
        quote == '"' || quote == '\'',
    ensures
        quoted_span(b, carried(a, b, g, pos), quote) == match quoted_span(a, pos, quote) {
            Some((from, to, end)) => Some(
                (carried(a, b, g, from), carried(a, b, g, to), carried(a, b, g, end)),
            ),
            None => None,
        },
        quoted_span(a, pos, quote) matches Some((from, to, end)) ==> pos < from <= to < end
            <= a.len() && placed(a, g, end) && (to <= g || skip_separator(a, g) <= from),
{
    lemma_aligned_behind(a, b, g);
    if pos > g {
        crate::locality::lemma_quoted_span_local(a, b, longer(a, b, g), pos, quote);
    } else if pos < g {
        assert(a[pos] == b[pos]);
        if byte_is(a, pos, quote) {
            crate::locality::lemma_quoted_span_local(a, a, 0, pos, quote);
            let (from, to, end) = quoted_span(a, pos, quote).unwrap();
            lemma_find_byte_agrees(a, b, g, pos + 1, quote as u8);
        }
    }
}

/// A string literal is the same literal in both inputs.
pub proof fn lemma_literal_span_replaced(a: Seq<u8>, b: Seq<u8>, g: int, pos: int)
    requires
        replaced(a, b, g),
        placed(a, g, pos),
    ensures
        literal_span(b, carried(a, b, g, pos)) == match literal_span(a, pos) {
            Some((from, to, end)) => Some(
                (carried(a, b, g, from), carried(a, b, g, to), carried(a, b, g, end)),
            ),
            None => None,
        },
        literal_span(a, pos) matches Some((from, to, end)) ==> pos < from <= to < end
            <= a.len() && placed(a, g, end) && (to <= g || skip_separator(a, g) <= from),
{
    lemma_quoted_span_replaced(a, b, g, pos, '"');
    lemma_quoted_span_replaced(a, b, g, pos, '\'');
}

/// An identifier is the same identifier in both inputs, and lies on one side
/// of the separator.
#[verifier::rlimit(30)]
pub proof fn lemma_identifier_replaced(a: Seq<u8>, b: Seq<u8>, g: int, pos: int)
    requires
        replaced(a, b, g),
        placed(a, g, pos),
    ensures
        identifier(b, carried(a, b, g, pos)) == carried_end(a, b, g, identifier(a, pos)),
        settled(a, g, pos, identifier(a, pos)),
        identifier(a, pos) matches Some(end) ==> 0 <= pos < end <= a.len() && (end <= g
            || skip_separator(a, g) <= pos),
{
    lemma_aligned_behind(a, b, g);
    if pos > g {
        crate::locality::lemma_identifier_local(a, b, longer(a, b, g), pos);
        if identifier(a, pos).is_some() {
            lemma_step_over_plain(a, g, pos);
            lemma_run_replaced(a, b, g, pos + 1, ByteClass::IdentChar);
        }
    } else if pos < g {
        assert(a[pos] == b[pos]);
        if identifier(a, pos).is_some() {
            lemma_step_over_plain(a, g, pos);
            lemma_run_replaced(a, b, g, pos + 1, ByteClass::IdentChar);
        }
    }
}

/// A keyword is matched alike in both inputs.
pub proof fn lemma_keyword_replaced(a: Seq<u8>, b: Seq<u8>, g: int, pos: int, word: Seq<char>)
    requires
        replaced(a, b, g),
        placed(a, g, pos),
        is_plain_word(word),
    ensures
        keyword(b, carried(a, b, g, pos), word) == carried_end(a, b, g, keyword(a, pos, word)),
        settled(a, g, pos, keyword(a, pos, word)),
{
    lemma_aligned_behind(a, b, g);
    lemma_text_replaced(a, b, g, pos, word);
    if pos > g {
        crate::locality::lemma_keyword_local(a, b, longer(a, b, g), pos, word);
    } else if text_at(a, pos, word) {
        let end = pos + word.len();
        if end < g {
            assert(a[end] == b[end]);
        }
    }
}

/// A separator that must be there is there alike in both inputs.
pub proof fn lemma_separator_replaced(a: Seq<u8>, b: Seq<u8>, g: int, pos: int)
    requires
        replaced(a, b, g),
        placed(a, g, pos),
    ensures
        separator(b, carried(a, b, g, pos)) == carried_end(a, b, g, separator(a, pos)),
        settled(a, g, pos, separator(a, pos)),
        separator(a, pos) matches Some(end) ==> pos < end,
{
    lemma_aligned_behind(a, b, g);
    lemma_skip_replaced(a, b, g, pos);
}

/// A keyword and the separator behind it are matched alike in both inputs.
pub proof fn lemma_spaced_keyword_replaced(
    a: Seq<u8>,
    b: Seq<u8>,
    g: int,
    pos: int,
    word: Seq<char>,
)
    requires
        replaced(a, b, g),
        placed(a, g, pos),
        is_plain_word(word),
    ensures
        spaced_keyword(b, carried(a, b, g, pos), word) == carried_end(
            a,
            b,
            g,
            spaced_keyword(a, pos, word),
        ),
        settled(a, g, pos, spaced_keyword(a, pos, word)),
{
    lemma_keyword_replaced(a, b, g, pos, word);
    match keyword(a, pos, word) {
        Some(after) => {
            lemma_separator_replaced(a, b, g, after);
        },
        None => {},
    }
}

/// A punctuation mark behind an optional separator is matched alike in both
/// inputs.
pub proof fn lemma_mark_replaced(a: Seq<u8>, b: Seq<u8>, g: int, pos: int, c: char)
    requires
        replaced(a, b, g),
        placed(a, g, pos),
        is_plain_char(c),
    ensures
        mark(b, carried(a, b, g, pos), c) == carried_end(a, b, g, mark(a, pos, c)),
        settled(a, g, pos, mark(a, pos, c)),
        mark(a, pos, c) matches Some(end) ==> pos < end <= a.len(),
{
    lemma_aligned_behind(a, b, g);
    lemma_skip_replaced(a, b, g, pos);
    lemma_byte_replaced(a, b, g, skip_separator(a, pos), c);
}

/// A comma or semicolon is matched alike in both inputs.
pub proof fn lemma_list_separator_replaced(a: Seq<u8>, b: Seq<u8>, g: int, pos: int)
    requires
        replaced(a, b, g),
        placed(a, g, pos),
    ensures
        list_separator(b, carried(a, b, g, pos)) == carried_end(a, b, g, list_separator(a, pos)),
        settled(a, g, pos, list_separator(a, pos)),
        list_separator(a, pos) matches Some(end) ==> pos < end <= a.len(),
{
    lemma_aligned_behind(a, b, g);
    lemma_byte_replaced(a, b, g, pos, ',');
    lemma_byte_replaced(a, b, g, pos, ';');
}

/// What parts two elements of a list is matched alike in both inputs.
pub proof fn lemma_list_gap_replaced(a: Seq<u8>, b: Seq<u8>, g: int, pos: int)
    requires
        replaced(a, b, g),
        placed(a, g, pos),
    ensures
        list_gap(b, carried(a, b, g, pos)) == carried_end(a, b, g, list_gap(a, pos)),
        settled(a, g, pos, list_gap(a, pos)),
        list_gap(a, pos) matches Some(end) ==> pos < end <= a.len(),
        skip_list_gap(b, carried(a, b, g, pos)) == carried(a, b, g, skip_list_gap(a, pos)),
        placed(a, g, skip_list_gap(a, pos)),
        pos <= skip_list_gap(a, pos) <= a.len(),
{
    lemma_aligned_behind(a, b, g);
    lemma_skip_replaced(a, b, g, pos);
    let at = skip_separator(a, pos);
    lemma_list_separator_replaced(a, b, g, at);
    match list_separator(a, at) {
        Some(after) => {
            lemma_skip_replaced(a, b, g, after);
        },
        None => {},
    }
}

/// An optional separator and comma or semicolon are matched alike in both
/// inputs.
pub proof fn lemma_skip_terminator_replaced(a: Seq<u8>, b: Seq<u8>, g: int, pos: int)
    requires
        replaced(a, b, g),
        placed(a, g, pos),
    ensures
        skip_terminator(b, carried(a, b, g, pos)) == carried(a, b, g, skip_terminator(a, pos)),
        placed(a, g, skip_terminator(a, pos)),
        pos <= skip_terminator(a, pos) <= a.len(),
{
    lemma_aligned_behind(a, b, g);
    lemma_skip_replaced(a, b, g, pos);
    lemma_list_separator_replaced(a, b, g, skip_separator(a, pos));
}

/// An optional sign is matched alike in both inputs.
pub proof fn lemma_skip_sign_replaced(a: Seq<u8>, b: Seq<u8>, g: int, pos: int)
    requires
        replaced(a, b, g),
        placed(a, g, pos),
    ensures
        skip_sign(b, carried(a, b, g, pos)) == carried(a, b, g, skip_sign(a, pos)),
        placed(a, g, skip_sign(a, pos)),
        pos <= skip_sign(a, pos) <= a.len(),
        pos <= g ==> skip_sign(a, pos) <= g,
        0 <= pos,
{
    lemma_aligned_behind(a, b, g);
    lemma_byte_replaced(a, b, g, pos, '+');
    lemma_byte_replaced(a, b, g, pos, '-');
}

/// Digits on one side of the separator write the same number in both
/// inputs.
pub proof fn lemma_digits_value_carried(a: Seq<u8>, b: Seq<u8>, g: int, from: int, to: int)
    requires
        replaced(a, b, g),
        0 <= from <= to <= a.len(),
        to <= g || skip_separator(a, g) <= from,
    ensures
        digits_value(b, carried(a, b, g, from), carried(a, b, g, to)) == digits_value(
            a,
            from,
            to,
        ),
    decreases to - from,
{
    lemma_aligned_behind(a, b, g);
    if from < to {
        if to <= g {
            assert(a[to - 1] == b[to - 1]);
            lemma_digits_value_carried(a, b, g, from, to - 1);
        } else {
            assert(aligned(a, b, longer(a, b, g), from));
            crate::locality::lemma_digits_value_local(a, b, longer(a, b, g), from, to);
        }
    }
}

/// An integer constant is the same in both inputs.
pub proof fn lemma_int_constant_replaced(a: Seq<u8>, b: Seq<u8>, g: int, pos: int)
    requires
        replaced(a, b, g),
        placed(a, g, pos),
    ensures
        int_constant(b, carried(a, b, g, pos)) == carried_node(a, b, g, int_constant(a, pos)),
        node_settled(a, g, pos, int_constant(a, pos)),
{
    lemma_aligned_behind(a, b, g);
    lemma_skip_sign_replaced(a, b, g, pos);
    lemma_byte_replaced(a, b, g, pos, '-');
    let first = skip_sign(a, pos);
    lemma_run_replaced(a, b, g, first, ByteClass::Digit);
    let end = run_end(a, first, ByteClass::Digit);
    if end > first {
        lemma_digits_value_carried(a, b, g, first, end);
    }
}

/// An optional exponent is matched alike in both inputs.
pub proof fn lemma_skip_exponent_replaced(a: Seq<u8>, b: Seq<u8>, g: int, pos: int)
    requires
        replaced(a, b, g),
        placed(a, g, pos),
    ensures
        skip_exponent(b, carried(a, b, g, pos)) == carried(a, b, g, skip_exponent(a, pos)),
        placed(a, g, skip_exponent(a, pos)),
        pos <= skip_exponent(a, pos) <= a.len(),
        pos <= g ==> skip_exponent(a, pos) <= g,
{
    lemma_aligned_behind(a, b, g);
    lemma_byte_replaced(a, b, g, pos, 'e');
    lemma_byte_replaced(a, b, g, pos, 'E');
    if byte_is(a, pos, 'e') || byte_is(a, pos, 'E') {
        lemma_skip_sign_replaced(a, b, g, pos + 1);
        lemma_run_replaced(a, b, g, skip_sign(a, pos + 1), ByteClass::Digit);
    }
}

/// A floating-point constant is the same in both inputs, and lies on one
/// side of the separator.
pub proof fn lemma_double_constant_replaced(a: Seq<u8>, b: Seq<u8>, g: int, pos: int)
    requires
        replaced(a, b, g),
        placed(a, g, pos),
    ensures
        double_constant(b, carried(a, b, g, pos)) == carried_end(
            a,
            b,
            g,
            double_constant(a, pos),
        ),
        settled(a, g, pos, double_constant(a, pos)),
        double_constant(a, pos) matches Some(end) ==> 0 <= pos <= end <= a.len() && (end <= g
            || skip_separator(a, g) <= pos),
{
    lemma_aligned_behind(a, b, g);
    lemma_skip_sign_replaced(a, b, g, pos);
    let first = skip_sign(a, pos);
    lemma_run_replaced(a, b, g, first, ByteClass::Digit);
    let point = run_end(a, first, ByteClass::Digit);
    lemma_byte_replaced(a, b, g, point, '.');
    if byte_is(a, point, '.') {
        lemma_run_replaced(a, b, g, point + 1, ByteClass::Digit);
        lemma_skip_exponent_replaced(a, b, g, run_end(a, point + 1, ByteClass::Digit));
    }
}

/// A list and its end, carried over to `b`.
pub open spec fn carried_list<T>(a: Seq<u8>, b: Seq<u8>, g: int, found: (Seq<T>, int)) -> (
    Seq<T>,
    int,
) {
    (found.0, carried(a, b, g, found.1))
}

/// Whether two rules give the same from every place.
pub open spec fn rules_carry<T>(
    a: Seq<u8>,
    b: Seq<u8>,
    g: int,
    one: spec_fn(int) -> Option<(T, int)>,
    other: spec_fn(int) -> Option<(T, int)>,
) -> bool {
    forall|p: int|
        placed(a, g, p) ==> other(carried(a, b, g, p)) == carried_node(a, b, g, #[trigger] one(p))
            && node_settled(a, g, p, one(p))
}

/// Whether two gaps give the same from every place.
pub open spec fn gaps_carry(
    a: Seq<u8>,
    b: Seq<u8>,
    g: int,
    one: spec_fn(int) -> Option<int>,
    other: spec_fn(int) -> Option<int>,
) -> bool {
    forall|p: int|
        placed(a, g, p) ==> other(carried(a, b, g, p)) == carried_end(a, b, g, #[trigger] one(p))
            && settled(a, g, p, one(p))
}

/// The tail of a list is the same in both inputs.
#[verifier::rlimit(30)]
pub proof fn lemma_list_tail_replaced<T>(
    a: Seq<u8>,
    b: Seq<u8>,
    g: int,
    pos: int,
    gap: spec_fn(int) -> Option<int>,
    item: spec_fn(int) -> Option<(T, int)>,
    gap2: spec_fn(int) -> Option<int>,
    item2: spec_fn(int) -> Option<(T, int)>,
)
    requires
        replaced(a, b, g),
        placed(a, g, pos),
        gaps_carry(a, b, g, gap, gap2),
        rules_carry(a, b, g, item, item2),
    ensures
        list_tail(b.len() as int, carried(a, b, g, pos), gap2, item2) == carried_list(
            a,
            b,
            g,
            list_tail(a.len() as int, pos, gap, item),
        ),
        placed(a, g, list_tail(a.len() as int, pos, gap, item).1),
        pos <= list_tail(a.len() as int, pos, gap, item).1 <= a.len(),
    decreases a.len() - pos,
{
    lemma_aligned_behind(a, b, g);
    lemma_carried_grows(a, b, g, pos, pos);
    assert(gap2(carried(a, b, g, pos)) == carried_end(a, b, g, gap(pos)));
    match gap(pos) {
        Some(start) => {
            assert(item2(carried(a, b, g, start)) == carried_node(a, b, g, item(start)));
            match item(start) {
                Some((x, end)) => {
                    lemma_carried_grows(a, b, g, pos, end);
                    if pos < end <= a.len() {
                        lemma_list_tail_replaced(a, b, g, end, gap, item, gap2, item2);
                    }
                },
                None => {},
            }
        },
        None => {},
    }
}

/// Carrying positions over keeps their order, and keeps them in the input.
pub proof fn lemma_carried_grows(a: Seq<u8>, b: Seq<u8>, g: int, p: int, q: int)
    requires
        replaced(a, b, g),
        placed(a, g, p),
        placed(a, g, q),
    ensures
        p < q <==> carried(a, b, g, p) < carried(a, b, g, q),
        p <= a.len() <==> carried(a, b, g, p) <= b.len(),
        0 <= p <= a.len(),
{
    lemma_aligned_behind(a, b, g);
}

/// A list is the same in both inputs.
pub proof fn lemma_list_replaced<T>(
    a: Seq<u8>,
    b: Seq<u8>,
    g: int,
    pos: int,
    gap: spec_fn(int) -> Option<int>,
    item: spec_fn(int) -> Option<(T, int)>,
    gap2: spec_fn(int) -> Option<int>,
    item2: spec_fn(int) -> Option<(T, int)>,
)
    requires
        replaced(a, b, g),
        placed(a, g, pos),
        gaps_carry(a, b, g, gap, gap2),
        rules_carry(a, b, g, item, item2),
    ensures
        list(b.len() as int, carried(a, b, g, pos), gap2, item2) == carried_list(
            a,
            b,
            g,
            list(a.len() as int, pos, gap, item),
        ),
        placed(a, g, list(a.len() as int, pos, gap, item).1),
        pos <= list(a.len() as int, pos, gap, item).1 <= a.len(),
{
    lemma_carried_grows(a, b, g, pos, pos);
    assert(item2(carried(a, b, g, pos)) == carried_node(a, b, g, item(pos)));
    match item(pos) {
        Some((x, end)) => {
            lemma_list_tail_replaced(a, b, g, end, gap, item, gap2, item2);
        },
        None => {},
    }
}

/// The list gap gives the same from every place.
pub proof fn lemma_list_gap_rule_replaced(a: Seq<u8>, b: Seq<u8>, g: int)
    requires
        replaced(a, b, g),
    ensures
        gaps_carry(a, b, g, list_gap_rule(a), list_gap_rule(b)),
{
    assert forall|p: int| placed(a, g, p) implies list_gap_rule(b)(carried(a, b, g, p))
        == carried_end(a, b, g, #[trigger] list_gap_rule(a)(p)) && settled(
        a,
        g,
        p,
        list_gap_rule(a)(p),
    ) by {
        lemma_list_gap_replaced(a, b, g, p);
    }
}

/// The separator gives the same from every place.
pub proof fn lemma_separator_rule_replaced(a: Seq<u8>, b: Seq<u8>, g: int)
    requires
        replaced(a, b, g),
    ensures
        gaps_carry(a, b, g, separator_rule(a), separator_rule(b)),
{
    assert forall|p: int| placed(a, g, p) implies separator_rule(b)(carried(a, b, g, p))
        == carried_end(a, b, g, #[trigger] separator_rule(a)(p)) && settled(
        a,
        g,
        p,
        separator_rule(a)(p),
    ) by {
        lemma_separator_replaced(a, b, g, p);
    }
}

/// The keywords are made of letters and digits.
#[verifier::rlimit(30)]
pub proof fn lemma_plain_words()
    ensures
        is_plain_word("bool"@),
        is_plain_word("byte"@),
        is_plain_word("i8"@),
        is_plain_word("i16"@),
        is_plain_word("i32"@),
        is_plain_word("i64"@),
        is_plain_word("double"@),
        is_plain_word("string"@),
        is_plain_word("binary"@),
        is_plain_word("list"@),
        is_plain_word("set"@),
        is_plain_word("map"@),
        is_plain_word("required"@),
        is_plain_word("optional"@),
        is_plain_word("void"@),
        is_plain_word("oneway"@),
        is_plain_word("throws"@),
        is_plain_word("extends"@),
        is_plain_word("const"@),
        is_plain_word("typedef"@),
        is_plain_word("enum"@),
        is_plain_word("struct"@),
        is_plain_word("union"@),
        is_plain_word("exception"@),
        is_plain_word("service"@),
{
    reveal_strlit("bool");
    reveal_strlit("byte");
    reveal_strlit("i8");
    reveal_strlit("i16");
    reveal_strlit("i32");
    reveal_strlit("i64");
    reveal_strlit("double");
    reveal_strlit("string");
    reveal_strlit("binary");
    reveal_strlit("list");
    reveal_strlit("set");
    reveal_strlit("map");
    reveal_strlit("required");
    reveal_strlit("optional");
    reveal_strlit("void");
    reveal_strlit("oneway");
    reveal_strlit("throws");
    reveal_strlit("extends");
    reveal_strlit("const");
    reveal_strlit("typedef");
    reveal_strlit("enum");
    reveal_strlit("struct");
    reveal_strlit("union");
    reveal_strlit("exception");
    reveal_strlit("service");
}

/// The rule `const_value` gives the same in both inputs.
#[verifier::rlimit(30)]
pub proof fn lemma_const_value_replaced(a: Seq<u8>, b: Seq<u8>, g: int, pos: int)
    requires
        replaced(a, b, g),
        placed(a, g, pos),
    ensures
        const_value(b, carried(a, b, g, pos)) == carried_node(a, b, g, const_value(a, pos)),
        node_settled(a, g, pos, const_value(a, pos)),
    decreases a.len() - pos, 0int,
{
    lemma_int_constant_replaced(a, b, g, pos);
    lemma_double_constant_replaced(a, b, g, pos);
    lemma_literal_span_replaced(a, b, g, pos);
    lemma_byte_replaced(a, b, g, pos, '[');
    lemma_byte_replaced(a, b, g, pos, '{');
    lemma_identifier_replaced(a, b, g, pos);
    if int_constant(a, pos).is_some() {
    } else if double_constant(a, pos).is_some() {
        lemma_text_carried(a, b, g, pos, double_constant(a, pos).unwrap());
    } else if literal_span(a, pos).is_some() {
        let (from, to, end) = literal_span(a, pos).unwrap();
        lemma_text_carried(a, b, g, from, to);
    } else if byte_is(a, pos, '[') {
        lemma_const_list_replaced(a, b, g, pos);
    } else if byte_is(a, pos, '{') {
        lemma_const_map_replaced(a, b, g, pos);
    } else if identifier(a, pos).is_some() {
        lemma_text_carried(a, b, g, pos, identifier(a, pos).unwrap());
    }
}

/// The rule `value_rule` gives the same from every place.
#[verifier::rlimit(30)]
pub proof fn lemma_value_rule_replaced(a: Seq<u8>, b: Seq<u8>, g: int, outer: int)
    requires
        replaced(a, b, g),
        placed(a, g, outer),
    ensures
        rules_carry(a, b, g, value_rule(a, outer), value_rule(b, carried(a, b, g, outer))),
    decreases a.len() - outer - 1, 1int,
{
    let item = value_rule(a, outer);
    let item2 = value_rule(b, carried(a, b, g, outer));
    assert forall|p: int| placed(a, g, p) implies item2(carried(a, b, g, p)) == carried_node(
        a,
        b,
        g,
        #[trigger] item(p),
    ) && node_settled(a, g, p, item(p)) by {
        lemma_carried_grows(a, b, g, outer, p);
        if outer < p <= a.len() {
            lemma_const_value_replaced(a, b, g, p);
        }
    }
}

/// The rule `const_list` gives the same in both inputs.
#[verifier::rlimit(50)]
pub proof fn lemma_const_list_replaced(a: Seq<u8>, b: Seq<u8>, g: int, pos: int)
    requires
        replaced(a, b, g),
        placed(a, g, pos),
        byte_is(a, pos, '['),
    ensures
        const_list(b, carried(a, b, g, pos)) == carried_node(a, b, g, const_list(a, pos)),
        node_settled(a, g, pos, const_list(a, pos)),
    decreases a.len() - pos - 1, 2int,
{
    lemma_byte_replaced(a, b, g, pos, '[');
    lemma_skip_replaced(a, b, g, pos + 1);
    let start = skip_separator(a, pos + 1);
    lemma_list_gap_rule_replaced(a, b, g);
    let item = value_rule(a, pos);
    let item2 = value_rule(b, carried(a, b, g, pos));
    lemma_value_rule_replaced(a, b, g, pos);
    lemma_list_replaced(
        a,
        b,
        g,
        start,
        list_gap_rule(a),
        item,
        list_gap_rule(b),
        item2,
    );
    let stop = list(a.len() as int, start, list_gap_rule(a), item).1;
    lemma_list_gap_replaced(a, b, g, stop);
    lemma_mark_replaced(a, b, g, skip_list_gap(a, stop), ']');
}

/// The rule `const_entry` gives the same in both inputs.
#[verifier::rlimit(30)]
pub proof fn lemma_const_entry_replaced(a: Seq<u8>, b: Seq<u8>, g: int, pos: int)
    requires
        replaced(a, b, g),
        placed(a, g, pos),
    ensures
        const_entry(b, carried(a, b, g, pos)) == carried_node(a, b, g, const_entry(a, pos)),
        node_settled(a, g, pos, const_entry(a, pos)),
    decreases a.len() - pos, 1int,
{
    lemma_const_value_replaced(a, b, g, pos);
    match const_value(a, pos) {
        Some((key, key_end)) => {
            lemma_mark_replaced(a, b, g, key_end, ':');
            match mark(a, key_end, ':') {
                Some(colon) => {
                    lemma_skip_replaced(a, b, g, colon);
                    lemma_const_value_replaced(a, b, g, skip_separator(a, colon));
                },
                None => {},
            }
        },
        None => {},
    }
}

/// The rule `entry_rule` gives the same from every place.
#[verifier::rlimit(30)]
pub proof fn lemma_entry_rule_replaced(a: Seq<u8>, b: Seq<u8>, g: int, outer: int)
    requires
        replaced(a, b, g),
        placed(a, g, outer),
    ensures
        rules_carry(a, b, g, entry_rule(a, outer), entry_rule(b, carried(a, b, g, outer))),
    decreases a.len() - outer - 1, 2int,
{
    let item = entry_rule(a, outer);
    let item2 = entry_rule(b, carried(a, b, g, outer));
    assert forall|p: int| placed(a, g, p) implies item2(carried(a, b, g, p)) == carried_node(
        a,
        b,
        g,
        #[trigger] item(p),
    ) && node_settled(a, g, p, item(p)) by {
        lemma_carried_grows(a, b, g, outer, p);
        if outer < p <= a.len() {
            lemma_const_entry_replaced(a, b, g, p);
        }
    }
}

/// The rule `const_map` gives the same in both inputs.
#[verifier::rlimit(50)]
pub proof fn lemma_const_map_replaced(a: Seq<u8>, b: Seq<u8>, g: int, pos: int)
    requires
        replaced(a, b, g),
        placed(a, g, pos),
        byte_is(a, pos, '{'),
    ensures
        const_map(b, carried(a, b, g, pos)) == carried_node(a, b, g, const_map(a, pos)),
        node_settled(a, g, pos, const_map(a, pos)),
    decreases a.len() - pos - 1, 3int,
{
    lemma_byte_replaced(a, b, g, pos, '{');
    lemma_skip_replaced(a, b, g, pos + 1);
    let start = skip_separator(a, pos + 1);
    lemma_list_gap_rule_replaced(a, b, g);
    let item = entry_rule(a, pos);
    let item2 = entry_rule(b, carried(a, b, g, pos));
    lemma_entry_rule_replaced(a, b, g, pos);
    lemma_list_replaced(
        a,
        b,
        g,
        start,
        list_gap_rule(a),
        item,
        list_gap_rule(b),
        item2,
    );
    let stop = list(a.len() as int, start, list_gap_rule(a), item).1;
    lemma_list_gap_replaced(a, b, g, stop);
    lemma_mark_replaced(a, b, g, skip_list_gap(a, stop), '}');
}

/// The rule `base_type` gives the same in both inputs.
#[verifier::rlimit(30)]
pub proof fn lemma_base_type_replaced(a: Seq<u8>, b: Seq<u8>, g: int, pos: int)
    requires
        replaced(a, b, g),
        placed(a, g, pos),
    ensures
        base_type(b, carried(a, b, g, pos)) == carried_node(a, b, g, base_type(a, pos)),
        node_settled(a, g, pos, base_type(a, pos)),
{
    lemma_plain_words();
    lemma_keyword_replaced(a, b, g, pos, "bool"@);
    lemma_keyword_replaced(a, b, g, pos, "byte"@);
    lemma_keyword_replaced(a, b, g, pos, "i8"@);
    lemma_keyword_replaced(a, b, g, pos, "i16"@);
    lemma_keyword_replaced(a, b, g, pos, "i32"@);
    lemma_keyword_replaced(a, b, g, pos, "i64"@);
    lemma_keyword_replaced(a, b, g, pos, "double"@);
    lemma_keyword_replaced(a, b, g, pos, "string"@);
    lemma_keyword_replaced(a, b, g, pos, "binary"@);
}

/// The rule `open_arguments` gives the same in both inputs.
#[verifier::rlimit(30)]
pub proof fn lemma_open_arguments_replaced(
    a: Seq<u8>,
    b: Seq<u8>,
    g: int,
    pos: int,
    word: Seq<char>,
)
    requires
        replaced(a, b, g),
        is_plain_word(word),
        placed(a, g, pos),
    ensures
        open_arguments(b, carried(a, b, g, pos), word) == carried_end(a, b, g, open_arguments(a, pos, word)),
        settled(a, g, pos, open_arguments(a, pos, word)),
{
    lemma_keyword_replaced(a, b, g, pos, word);
    match keyword(a, pos, word) {
        Some(after) => {
            lemma_mark_replaced(a, b, g, after, '<');
            match mark(a, after, '<') {
                Some(open) => {
                    lemma_skip_replaced(a, b, g, open);
                },
                None => {},
            }
        },
        None => {},
    }
}

/// The rule `unary_container` gives the same in both inputs.
#[verifier::rlimit(30)]
pub proof fn lemma_unary_container_replaced(
    a: Seq<u8>,
    b: Seq<u8>,
    g: int,
    pos: int,
    word: Seq<char>,
)
    requires
        replaced(a, b, g),
        is_plain_word(word),
        placed(a, g, pos),
    ensures
        unary_container(b, carried(a, b, g, pos), word) == carried_node(a, b, g, unary_container(a, pos, word)),
        node_settled(a, g, pos, unary_container(a, pos, word)),
    decreases a.len() - pos, 0int,
{
    lemma_open_arguments_replaced(a, b, g, pos, word);
    match open_arguments(a, pos, word) {
        Some(at) => {
            if pos < at <= a.len() {
                lemma_field_type_replaced(a, b, g, at);
                match field_type(a, at) {
                    Some((element, end)) => {
                        lemma_mark_replaced(a, b, g, end, '>');
                    },
                    None => {},
                }
            }
        },
        None => {},
    }
}

/// The rule `map_container` gives the same in both inputs.
#[verifier::rlimit(30)]
pub proof fn lemma_map_container_replaced(a: Seq<u8>, b: Seq<u8>, g: int, pos: int)
    requires
        replaced(a, b, g),
        placed(a, g, pos),
    ensures
        map_container(b, carried(a, b, g, pos)) == carried_node(a, b, g, map_container(a, pos)),
        node_settled(a, g, pos, map_container(a, pos)),
    decreases a.len() - pos, 0int,
{
    lemma_plain_words();
    lemma_open_arguments_replaced(a, b, g, pos, "map"@);
    match open_arguments(a, pos, "map"@) {
        Some(at) => {
            if pos < at <= a.len() {
                lemma_field_type_replaced(a, b, g, at);
                match field_type(a, at) {
                    Some((key, key_end)) => {
                        lemma_mark_replaced(a, b, g, key_end, ',');
                        match mark(a, key_end, ',') {
                            Some(comma) => {
                                lemma_skip_replaced(a, b, g, comma);
                                let second = skip_separator(a, comma);
                                lemma_field_type_replaced(a, b, g, second);
                                match field_type(a, second) {
                                    Some((value, end)) => {
                                        lemma_mark_replaced(a, b, g, end, '>');
                                    },
                                    None => {},
                                }
                            },
                            None => {},
                        }
                    },
                    None => {},
                }
            }
        },
        None => {},
    }
}

/// The rule `container_type` gives the same in both inputs.
pub proof fn lemma_container_type_replaced(a: Seq<u8>, b: Seq<u8>, g: int, pos: int)
    requires
        replaced(a, b, g),
        placed(a, g, pos),
    ensures
        container_type(b, carried(a, b, g, pos)) == carried_node(a, b, g, container_type(a, pos)),
        node_settled(a, g, pos, container_type(a, pos)),
    decreases a.len() - pos, 1int,
{
    lemma_plain_words();
    lemma_unary_container_replaced(a, b, g, pos, "list"@);
    lemma_unary_container_replaced(a, b, g, pos, "set"@);
    lemma_map_container_replaced(a, b, g, pos);
}

/// The rule `field_type` gives the same in both inputs.
pub proof fn lemma_field_type_replaced(a: Seq<u8>, b: Seq<u8>, g: int, pos: int)
    requires
        replaced(a, b, g),
        placed(a, g, pos),
    ensures
        field_type(b, carried(a, b, g, pos)) == carried_node(a, b, g, field_type(a, pos)),
        node_settled(a, g, pos, field_type(a, pos)),
    decreases a.len() - pos, 2int,
{
    lemma_base_type_replaced(a, b, g, pos);
    lemma_container_type_replaced(a, b, g, pos);
    lemma_identifier_replaced(a, b, g, pos);
    if base_type(a, pos).is_none() && container_type(a, pos).is_none() && identifier(
        a,
        pos,
    ).is_some() {
        lemma_text_carried(a, b, g, pos, identifier(a, pos).unwrap());
    }
}

/// The rule `definition_type` gives the same in both inputs.
pub proof fn lemma_definition_type_replaced(a: Seq<u8>, b: Seq<u8>, g: int, pos: int)
    requires
        replaced(a, b, g),
        placed(a, g, pos),
    ensures
        definition_type(b, carried(a, b, g, pos)) == carried_node(a, b, g, definition_type(a, pos)),
        node_settled(a, g, pos, definition_type(a, pos)),
{
    lemma_base_type_replaced(a, b, g, pos);
    lemma_container_type_replaced(a, b, g, pos);
}

/// The rule `field_id` gives the same in both inputs.
#[verifier::rlimit(30)]
pub proof fn lemma_field_id_replaced(a: Seq<u8>, b: Seq<u8>, g: int, pos: int)
    requires
        replaced(a, b, g),
        placed(a, g, pos),
    ensures
        field_id(b, carried(a, b, g, pos)) == carried_node(a, b, g, field_id(a, pos)),
        node_settled(a, g, pos, field_id(a, pos)),
{
    lemma_int_constant_replaced(a, b, g, pos);
    match int_constant(a, pos) {
        Some((id, end)) => {
            lemma_mark_replaced(a, b, g, end, ':');
            match mark(a, end, ':') {
                Some(colon) => {
                    lemma_skip_replaced(a, b, g, colon);
                },
                None => {},
            }
        },
        None => {},
    }
}

/// The rule `requiredness` gives the same in both inputs.
pub proof fn lemma_requiredness_replaced(a: Seq<u8>, b: Seq<u8>, g: int, pos: int)
    requires
        replaced(a, b, g),
        placed(a, g, pos),
    ensures
        requiredness(b, carried(a, b, g, pos)) == carried_node(a, b, g, requiredness(a, pos)),
        node_settled(a, g, pos, requiredness(a, pos)),
{
    lemma_plain_words();
    lemma_spaced_keyword_replaced(a, b, g, pos, "required"@);
    lemma_spaced_keyword_replaced(a, b, g, pos, "optional"@);
}

/// The rule `default_value` gives the same in both inputs.
pub proof fn lemma_default_value_replaced(a: Seq<u8>, b: Seq<u8>, g: int, pos: int)
    requires
        replaced(a, b, g),
        placed(a, g, pos),
    ensures
        default_value(b, carried(a, b, g, pos)) == carried_node(a, b, g, default_value(a, pos)),
        node_settled(a, g, pos, default_value(a, pos)),
{
    lemma_mark_replaced(a, b, g, pos, '=');
    match mark(a, pos, '=') {
        Some(equals) => {
            lemma_skip_replaced(a, b, g, equals);
            lemma_const_value_replaced(a, b, g, skip_separator(a, equals));
        },
        None => {},
    }
}

/// The rule `field` gives the same in both inputs.
#[verifier::rlimit(30)]
pub proof fn lemma_field_replaced(a: Seq<u8>, b: Seq<u8>, g: int, pos: int)
    requires
        replaced(a, b, g),
        placed(a, g, pos),
    ensures
        field(b, carried(a, b, g, pos)) == carried_node(a, b, g, field(a, pos)),
        node_settled(a, g, pos, field(a, pos)),
{
    lemma_field_id_replaced(a, b, g, pos);
    let (id, after_id) = optional(field_id(a, pos), pos);
    lemma_requiredness_replaced(a, b, g, after_id);
    let (required, after_required) = optional(requiredness(a, after_id), after_id);
    lemma_field_type_replaced(a, b, g, after_required);
    match field_type(a, after_required) {
        Some((type_, type_end)) => {
            lemma_separator_replaced(a, b, g, type_end);
            match separator(a, type_end) {
                Some(name_start) => {
                    lemma_identifier_replaced(a, b, g, name_start);
                    match identifier(a, name_start) {
                        Some(name_end) => {
                            lemma_text_carried(a, b, g, name_start, name_end);
                            lemma_default_value_replaced(a, b, g, name_end);
                        },
                        None => {},
                    }
                },
                None => {},
            }
        },
        None => {},
    }
}

/// The rule `member` gives the same in both inputs.
pub proof fn lemma_member_replaced(a: Seq<u8>, b: Seq<u8>, g: int, pos: int)
    requires
        replaced(a, b, g),
        placed(a, g, pos),
    ensures
        member(b, carried(a, b, g, pos)) == carried_node(a, b, g, member(a, pos)),
        node_settled(a, g, pos, member(a, pos)),
{
    lemma_field_replaced(a, b, g, pos);
    match field(a, pos) {
        Some((f, end)) => {
            lemma_skip_terminator_replaced(a, b, g, end);
        },
        None => {},
    }
}

/// The rule `field_rule` gives the same from every place.
pub proof fn lemma_field_rule_replaced(a: Seq<u8>, b: Seq<u8>, g: int)
    requires
        replaced(a, b, g),
    ensures
        rules_carry(a, b, g, field_rule(a), field_rule(b)),
{
    assert forall|p: int| placed(a, g, p) implies field_rule(b)(carried(a, b, g, p)) == carried_node(
        a,
        b,
        g,
        #[trigger] field_rule(a)(p),
    ) && node_settled(a, g, p, field_rule(a)(p)) by {
        lemma_field_replaced(a, b, g, p);
    }
}

/// The rule `member_rule` gives the same from every place.
pub proof fn lemma_member_rule_replaced(a: Seq<u8>, b: Seq<u8>, g: int)
    requires
        replaced(a, b, g),
    ensures
        rules_carry(a, b, g, member_rule(a), member_rule(b)),
{
    assert forall|p: int| placed(a, g, p) implies member_rule(b)(carried(a, b, g, p)) == carried_node(
        a,
        b,
        g,
        #[trigger] member_rule(a)(p),
    ) && node_settled(a, g, p, member_rule(a)(p)) by {
        lemma_member_replaced(a, b, g, p);
    }
}

/// The rule `field_list` gives the same in both inputs.
#[verifier::rlimit(30)]
pub proof fn lemma_field_list_replaced(a: Seq<u8>, b: Seq<u8>, g: int, pos: int)
    requires
        replaced(a, b, g),
        placed(a, g, pos),
    ensures
        field_list(b, carried(a, b, g, pos)) == carried_node(a, b, g, field_list(a, pos)),
        node_settled(a, g, pos, field_list(a, pos)),
{
    lemma_mark_replaced(a, b, g, pos, '(');
    match mark(a, pos, '(') {
        Some(open) => {
            lemma_skip_replaced(a, b, g, open);
            let start = skip_separator(a, open);
            lemma_list_gap_rule_replaced(a, b, g);
            lemma_field_rule_replaced(a, b, g);
            lemma_list_replaced(
                a,
                b,
                g,
                start,
                list_gap_rule(a),
                field_rule(a),
                list_gap_rule(b),
                field_rule(b),
            );
            let stop = list(a.len() as int, start, list_gap_rule(a), field_rule(a)).1;
            lemma_list_gap_replaced(a, b, g, stop);
            lemma_mark_replaced(a, b, g, skip_list_gap(a, stop), ')');
        },
        None => {},
    }
}

/// The rule `throws` gives the same in both inputs.
pub proof fn lemma_throws_replaced(a: Seq<u8>, b: Seq<u8>, g: int, pos: int)
    requires
        replaced(a, b, g),
        placed(a, g, pos),
    ensures
        throws(b, carried(a, b, g, pos)) == carried_node(a, b, g, throws(a, pos)),
        node_settled(a, g, pos, throws(a, pos)),
{
    lemma_plain_words();
    lemma_skip_replaced(a, b, g, pos);
    let at = skip_separator(a, pos);
    lemma_keyword_replaced(a, b, g, at, "throws"@);
    match keyword(a, at, "throws"@) {
        Some(after) => {
            lemma_field_list_replaced(a, b, g, after);
        },
        None => {},
    }
}

/// The rule `return_type` gives the same in both inputs.
pub proof fn lemma_return_type_replaced(a: Seq<u8>, b: Seq<u8>, g: int, pos: int)
    requires
        replaced(a, b, g),
        placed(a, g, pos),
    ensures
        return_type(b, carried(a, b, g, pos)) == carried_node(a, b, g, return_type(a, pos)),
        node_settled(a, g, pos, return_type(a, pos)),
{
    lemma_plain_words();
    lemma_keyword_replaced(a, b, g, pos, "void"@);
    lemma_field_type_replaced(a, b, g, pos);
}

/// The rule `function` gives the same in both inputs.
#[verifier::rlimit(30)]
pub proof fn lemma_function_replaced(a: Seq<u8>, b: Seq<u8>, g: int, pos: int)
    requires
        replaced(a, b, g),
        placed(a, g, pos),
    ensures
        function(b, carried(a, b, g, pos)) == carried_node(a, b, g, function(a, pos)),
        node_settled(a, g, pos, function(a, pos)),
{
    lemma_plain_words();
    lemma_spaced_keyword_replaced(a, b, g, pos, "oneway"@);
    let start = match spaced_keyword(a, pos, "oneway"@) {
        Some(end) => end,
        None => pos,
    };
    lemma_return_type_replaced(a, b, g, start);
    match return_type(a, start) {
        Some((returned, returned_end)) => {
            lemma_separator_replaced(a, b, g, returned_end);
            match separator(a, returned_end) {
                Some(name_start) => {
                    lemma_identifier_replaced(a, b, g, name_start);
                    match identifier(a, name_start) {
                        Some(name_end) => {
                            lemma_text_carried(a, b, g, name_start, name_end);
                            lemma_field_list_replaced(a, b, g, name_end);
                            match field_list(a, name_end) {
                                Some((parameters, parameters_end)) => {
                                    lemma_throws_replaced(a, b, g, parameters_end);
                                },
                                None => {},
                            }
                        },
                        None => {},
                    }
                },
                None => {},
            }
        },
        None => {},
    }
}

/// The rule `service_member` gives the same in both inputs.
pub proof fn lemma_service_member_replaced(a: Seq<u8>, b: Seq<u8>, g: int, pos: int)
    requires
        replaced(a, b, g),
        placed(a, g, pos),
    ensures
        service_member(b, carried(a, b, g, pos)) == carried_node(a, b, g, service_member(a, pos)),
        node_settled(a, g, pos, service_member(a, pos)),
{
    lemma_function_replaced(a, b, g, pos);
    match function(a, pos) {
        Some((f, end)) => {
            lemma_skip_terminator_replaced(a, b, g, end);
        },
        None => {},
    }
}

/// The rule `service_member_rule` gives the same from every place.
pub proof fn lemma_service_member_rule_replaced(a: Seq<u8>, b: Seq<u8>, g: int)
    requires
        replaced(a, b, g),
    ensures
        rules_carry(a, b, g, service_member_rule(a), service_member_rule(b)),
{
    assert forall|p: int| placed(a, g, p) implies service_member_rule(b)(carried(a, b, g, p)) == carried_node(
        a,
        b,
        g,
        #[trigger] service_member_rule(a)(p),
    ) && node_settled(a, g, p, service_member_rule(a)(p)) by {
        lemma_service_member_replaced(a, b, g, p);
    }
}

/// The rule `enum_value` gives the same in both inputs.
#[verifier::rlimit(30)]
pub proof fn lemma_enum_value_replaced(a: Seq<u8>, b: Seq<u8>, g: int, pos: int)
    requires
        replaced(a, b, g),
        placed(a, g, pos),
    ensures
        enum_value(b, carried(a, b, g, pos)) == carried_node(a, b, g, enum_value(a, pos)),
        node_settled(a, g, pos, enum_value(a, pos)),
{
    lemma_identifier_replaced(a, b, g, pos);
    match identifier(a, pos) {
        Some(name_end) => {
            lemma_text_carried(a, b, g, pos, name_end);
            lemma_mark_replaced(a, b, g, name_end, '=');
            match mark(a, name_end, '=') {
                Some(equals) => {
                    lemma_skip_replaced(a, b, g, equals);
                    lemma_int_constant_replaced(a, b, g, skip_separator(a, equals));
                },
                None => {},
            }
        },
        None => {},
    }
}

/// The rule `enum_value_rule` gives the same from every place.
pub proof fn lemma_enum_value_rule_replaced(a: Seq<u8>, b: Seq<u8>, g: int)
    requires
        replaced(a, b, g),
    ensures
        rules_carry(a, b, g, enum_value_rule(a), enum_value_rule(b)),
{
    assert forall|p: int| placed(a, g, p) implies enum_value_rule(b)(carried(a, b, g, p)) == carried_node(
        a,
        b,
        g,
        #[trigger] enum_value_rule(a)(p),
    ) && node_settled(a, g, p, enum_value_rule(a)(p)) by {
        lemma_enum_value_replaced(a, b, g, p);
    }
}

/// The rule `extension` gives the same in both inputs.
#[verifier::rlimit(30)]
pub proof fn lemma_extension_replaced(a: Seq<u8>, b: Seq<u8>, g: int, pos: int)
    requires
        replaced(a, b, g),
        placed(a, g, pos),
    ensures
        extension(b, carried(a, b, g, pos)) == carried_node(a, b, g, extension(a, pos)),
        node_settled(a, g, pos, extension(a, pos)),
{
    lemma_plain_words();
    lemma_spaced_keyword_replaced(a, b, g, pos, "extends"@);
    match spaced_keyword(a, pos, "extends"@) {
        Some(name_start) => {
            lemma_identifier_replaced(a, b, g, name_start);
            match identifier(a, name_start) {
                Some(name_end) => {
                    lemma_text_carried(a, b, g, name_start, name_end);
                    lemma_skip_replaced(a, b, g, name_end);
                },
                None => {},
            }
        },
        None => {},
    }
}

/// What follows the head of `const_definition` gives the same in both inputs.
#[verifier::rlimit(60)]
pub proof fn lemma_const_definition_behind_head(
    a: Seq<u8>,
    b: Seq<u8>,
    g: int,
    from: int,
    to: int,
)
    requires
        replaced(a, b, g),
        definition_head(b, to, "const"@) == carried_node(a, b, g, definition_head(a, from, "const"@)),
        definition_head(a, from, "const"@) matches Some((_, start)) ==> placed(a, g, start),
    ensures
        const_definition(b, to) == carried_node(a, b, g, const_definition(a, from)),
{
    lemma_plain_words();
    match definition_head(a, from, "const"@) {
        Some((doc, start)) => {
            lemma_field_type_replaced(a, b, g, start);
            match field_type(a, start) {
                Some((type_, type_end)) => {
                    lemma_separator_replaced(a, b, g, type_end);
                    match separator(a, type_end) {
                        Some(name_start) => {
                            lemma_identifier_replaced(a, b, g, name_start);
                            match identifier(a, name_start) {
                                Some(name_end) => {
                                    lemma_text_carried(a, b, g, name_start, name_end);
                                    lemma_default_value_replaced(a, b, g, name_end);
                                    match default_value(a, name_end) {
                                        Some((value, end)) => {
                                            lemma_skip_terminator_replaced(a, b, g, end);
                                        },
                                        None => {},
                                    }
                                },
                                None => {},
                            }
                        },
                        None => {},
                    }
                },
                None => {},
            }
        },
        None => {},
    }
}

/// What follows the head of `typedef_definition` gives the same in both inputs.
#[verifier::rlimit(60)]
pub proof fn lemma_typedef_definition_behind_head(
    a: Seq<u8>,
    b: Seq<u8>,
    g: int,
    from: int,
    to: int,
)
    requires
        replaced(a, b, g),
        definition_head(b, to, "typedef"@) == carried_node(a, b, g, definition_head(a, from, "typedef"@)),
        definition_head(a, from, "typedef"@) matches Some((_, start)) ==> placed(a, g, start),
    ensures
        typedef_definition(b, to) == carried_node(a, b, g, typedef_definition(a, from)),
{
    lemma_plain_words();
    match definition_head(a, from, "typedef"@) {
        Some((doc, start)) => {
            lemma_definition_type_replaced(a, b, g, start);
            match definition_type(a, start) {
                Some((old, old_end)) => {
                    lemma_separator_replaced(a, b, g, old_end);
                    match separator(a, old_end) {
                        Some(alias_start) => {
                            lemma_identifier_replaced(a, b, g, alias_start);
                            match identifier(a, alias_start) {
                                Some(end) => {
                                    lemma_text_carried(a, b, g, alias_start, end);
                                },
                                None => {},
                            }
                        },
                        None => {},
                    }
                },
                None => {},
            }
        },
        None => {},
    }
}

/// What follows the head of `enum_definition` gives the same in both inputs.
#[verifier::rlimit(60)]
pub proof fn lemma_enum_definition_behind_head(
    a: Seq<u8>,
    b: Seq<u8>,
    g: int,
    from: int,
    to: int,
)
    requires
        replaced(a, b, g),
        definition_head(b, to, "enum"@) == carried_node(a, b, g, definition_head(a, from, "enum"@)),
        definition_head(a, from, "enum"@) matches Some((_, start)) ==> placed(a, g, start),
    ensures
        enum_definition(b, to) == carried_node(a, b, g, enum_definition(a, from)),
{
    lemma_plain_words();
    match definition_head(a, from, "enum"@) {
        Some((doc, name_start)) => {
            lemma_identifier_replaced(a, b, g, name_start);
            match identifier(a, name_start) {
                Some(name_end) => {
                    lemma_text_carried(a, b, g, name_start, name_end);
                    lemma_mark_replaced(a, b, g, name_end, '{');
                    match mark(a, name_end, '{') {
                        Some(open) => {
                            lemma_skip_replaced(a, b, g, open);
                            let start = skip_separator(a, open);
                            lemma_list_gap_rule_replaced(a, b, g);
                            lemma_enum_value_rule_replaced(a, b, g);
                            lemma_list_replaced(
                                a,
                                b,
                                g,
                                start,
                                list_gap_rule(a),
                                enum_value_rule(a),
                                list_gap_rule(b),
                                enum_value_rule(b),
                            );
                            let stop = list(
                                a.len() as int,
                                start,
                                list_gap_rule(a),
                                enum_value_rule(a),
                            ).1;
                            lemma_list_gap_replaced(a, b, g, stop);
                            lemma_mark_replaced(a, b, g, skip_list_gap(a, stop), '}');
                        },
                        None => {},
                    }
                },
                None => {},
            }
        },
        None => {},
    }
}

/// What follows the head of `record_definition` gives the same in both inputs.
#[verifier::rlimit(60)]
pub proof fn lemma_record_definition_behind_head(
    a: Seq<u8>,
    b: Seq<u8>,
    g: int,
    from: int,
    to: int,
    word: Seq<char>,
)
    requires
        replaced(a, b, g),
        is_plain_word(word),
        definition_head(b, to, word) == carried_node(a, b, g, definition_head(a, from, word)),
        definition_head(a, from, word) matches Some((_, start)) ==> placed(a, g, start),
    ensures
        record_definition(b, to, word) == carried_node(a, b, g, record_definition(a, from, word)),
{
    match definition_head(a, from, word) {
        Some((doc, name_start)) => {
            lemma_identifier_replaced(a, b, g, name_start);
            match identifier(a, name_start) {
                Some(name_end) => {
                    lemma_text_carried(a, b, g, name_start, name_end);
                    lemma_mark_replaced(a, b, g, name_end, '{');
                    match mark(a, name_end, '{') {
                        Some(open) => {
                            lemma_skip_replaced(a, b, g, open);
                            let start = skip_separator(a, open);
                            lemma_separator_rule_replaced(a, b, g);
                            lemma_member_rule_replaced(a, b, g);
                            lemma_list_replaced(
                                a,
                                b,
                                g,
                                start,
                                separator_rule(a),
                                member_rule(a),
                                separator_rule(b),
                                member_rule(b),
                            );
                            let stop = list(
                                a.len() as int,
                                start,
                                separator_rule(a),
                                member_rule(a),
                            ).1;
                            lemma_mark_replaced(a, b, g, stop, '}');
                        },
                        None => {},
                    }
                },
                None => {},
            }
        },
        None => {},
    }
}

/// What follows the head of `service_definition` gives the same in both inputs.
#[verifier::rlimit(60)]
pub proof fn lemma_service_definition_behind_head(
    a: Seq<u8>,
    b: Seq<u8>,
    g: int,
    from: int,
    to: int,
)
    requires
        replaced(a, b, g),
        definition_head(b, to, "service"@) == carried_node(a, b, g, definition_head(a, from, "service"@)),
        definition_head(a, from, "service"@) matches Some((_, start)) ==> placed(a, g, start),
    ensures
        service_definition(b, to) == carried_node(a, b, g, service_definition(a, from)),
{
    lemma_plain_words();
    match definition_head(a, from, "service"@) {
        Some((doc, name_start)) => {
            lemma_identifier_replaced(a, b, g, name_start);
            match identifier(a, name_start) {
                Some(name_end) => {
                    lemma_text_carried(a, b, g, name_start, name_end);
                    lemma_skip_replaced(a, b, g, name_end);
                    let after_name = skip_separator(a, name_end);
                    lemma_extension_replaced(a, b, g, after_name);
                    let (base, open) = optional(extension(a, after_name), after_name);
                    lemma_byte_replaced(a, b, g, open, '{');
                    if byte_is(a, open, '{') {
                        lemma_skip_replaced(a, b, g, open + 1);
                        let start = skip_separator(a, open + 1);
                        lemma_separator_rule_replaced(a, b, g);
                        lemma_service_member_rule_replaced(a, b, g);
                        lemma_list_replaced(
                            a,
                            b,
                            g,
                            start,
                            separator_rule(a),
                            service_member_rule(a),
                            separator_rule(b),
                            service_member_rule(b),
                        );
                        let stop = list(
                            a.len() as int,
                            start,
                            separator_rule(a),
                            service_member_rule(a),
                        ).1;
                        lemma_mark_replaced(a, b, g, stop, '}');
                    }
                },
                None => {},
            }
        },
        None => {},
    }
}

} // verus!
