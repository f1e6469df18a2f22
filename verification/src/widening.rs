//! Where no separator stands between two pieces of a definition, one may be
//! put in.
//!
//! Take an input with a separator between two pieces of text, and take the
//! separator out, so that the two pieces touch. Where they do not run
//! together, every rule that has no need of a separator gives the same on
//! both inputs; and a rule that succeeds on the input without the separator
//! succeeds on the input with it, and gives the same node.

use vstd::prelude::*;
use crate::grammar::{
    base_type, byte_is, comment_span, const_definition, const_entry, const_list, const_map,
    const_value, container_type, default_value, definition_head, definition_type, digits_value,
    doc_comment, double_constant, entry_rule, enum_definition, enum_value, enum_value_rule,
    extension, field, field_id, field_list, field_rule, field_type, function, identifier,
    int_constant, is_digit, is_ident_char, is_letter, is_whitespace, keyword, list, list_gap,
    list_gap_rule, list_separator, list_tail, literal_span, map_container, mark, member,
    member_rule, open_arguments, optional, quoted_span, record_definition, requiredness,
    return_type, run_end, separator, separator_rule, separator_unit, service_definition,
    service_member, service_member_rule, skip_exponent, skip_list_gap, skip_separator, skip_sign,
    skip_terminator, spaced_keyword, text_at, throws, typedef_definition, unary_container,
    value_rule, ByteClass,
};
use crate::laws::{inserted, law_inserted_separator_is_skipped, separator_text};
use crate::locality::aligned;
use crate::model::TypeModel;
use crate::spacing::{
    carried, carried_end, carried_list, carried_node, is_plain_char, is_plain_class,
    is_plain_word, is_word, keyword_end, lemma_block_end_agrees, lemma_doc_comment_agrees,
    lemma_find_byte_agrees, lemma_keyword_agrees, lemma_plain_words, lemma_run_end_agrees,
    lemma_step_over_plain, lemma_step_over_word, lemma_unit_starts_separator, longer,
    node_settled, piece_end, placed, reaches, same_start, settled, starts_separator,
};

verus! {

/// Whether the pieces of text before and behind `g` do not run together when
/// they touch: not two bytes of one word, and not parts of one number.
pub open spec fn apart(s: Seq<u8>, g: int) -> bool {
    0 < g < s.len() ==> {
        let before = s[g - 1];
        let behind = s[g];
        &&& !(is_ident_char(before) && is_ident_char(behind))
        &&& before != '.' as u8
        &&& behind != '.' as u8
        &&& !((before == '+' as u8 || before == '-' as u8) && is_digit(behind))
        &&& !((behind == '+' as u8 || behind == '-' as u8) && (before == 'e' as u8 || before
            == 'E' as u8))
    }
}

/// Whether `b` is `a` with the separator that starts at `g` taken out, so
/// that the pieces before and behind it touch, and do not run together.
pub open spec fn narrowed(a: Seq<u8>, b: Seq<u8>, g: int) -> bool {
    &&& same_start(a, b, g)
    &&& 0 < g
    &&& skip_separator(a, g) > g
    &&& skip_separator(b, g) == g
    &&& a.skip(skip_separator(a, g)) == b.skip(g)
    &&& apart(b, g)
}

/// Behind the separator, the two inputs are aligned; before it, they are the
/// same.
#[verifier::rlimit(30)]
pub proof fn lemma_narrowed(a: Seq<u8>, b: Seq<u8>, g: int)
    requires
        narrowed(a, b, g),
    ensures
        aligned(a, b, longer(a, b, g), skip_separator(a, g)),
        longer(a, b, g) == g - skip_separator(a, g),
        g < skip_separator(a, g) <= a.len(),
        0 < g < a.len(),
        g <= b.len(),
        b.len() == a.len() + longer(a, b, g),
        starts_separator(a[g]),
        g < b.len() ==> !starts_separator(b[g]) || b[g] == '/' as u8,
        separator_unit(b, g).is_none(),
        a[g - 1] == b[g - 1],
{
    let r = skip_separator(a, g);
    let d = longer(a, b, g);
    crate::locality::lemma_skip_separator_local(a, a, 0, g);
    assert(a.skip(r).len() == b.skip(g).len());
    assert forall|i: int| r <= i < a.len() implies #[trigger] a[i] == b[i + d] by {
        assert(a.skip(r)[i - r] == b.skip(g)[i - r]);
    }
    lemma_unit_starts_separator(a, g);
    assert(aligned(b, b, 0, g));
    crate::locality::lemma_separator_unit_local(b, b, 0, g);
    match separator_unit(b, g) {
        Some(end) => {
            crate::locality::lemma_skip_separator_local(b, b, 0, end);
        },
        None => {},
    }
    if g < b.len() && b[g] == '#' as u8 {
        reveal(text_at);
        reveal_strlit("//");
        reveal_strlit("/*");
        assert(text_at(b, g, "//"@) ==> b[g] == "//"@[0] as u8);
        assert(text_at(b, g, "/*"@) ==> b[g] == "/*"@[0] as u8);
        assert(comment_span(b, g).is_some());
    }
}

/// A single plain byte is tested alike in both inputs, wherever a rule can
/// test one.
#[verifier::rlimit(30)]
pub proof fn lemma_byte_narrowed(a: Seq<u8>, b: Seq<u8>, g: int, pos: int, c: char)
    requires
        narrowed(a, b, g),
        placed(a, g, pos),
        is_plain_char(c),
        pos == g ==> !byte_is(b, g, c),
    ensures
        byte_is(b, carried(a, b, g, pos), c) == byte_is(a, pos, c),
        byte_is(a, pos, c) ==> placed(a, g, pos + 1) && (pos < g ==> pos + 1 <= g) && carried(
            a,
            b,
            g,
            pos + 1,
        ) == carried(a, b, g, pos) + 1 && pos != g,
{
    lemma_narrowed(a, b, g);
    if pos <= g {
        if pos < g {
            assert(a[pos] == b[pos]);
            if byte_is(a, pos, c) {
                lemma_step_over_plain(a, g, pos);
            }
        }
    } else {
        crate::locality::lemma_byte_is_local(a, b, longer(a, b, g), pos, c);
    }
}

/// A run of letters and digits ends alike in both inputs, where it does not
/// start behind the separator with a byte of its class.
pub proof fn lemma_run_narrowed(a: Seq<u8>, b: Seq<u8>, g: int, pos: int, class: ByteClass)
    requires
        narrowed(a, b, g),
        placed(a, g, pos),
        is_plain_class(class),
        pos == g ==> !(g < b.len() && class.holds(b[g])),
    ensures
        run_end(b, carried(a, b, g, pos), class) == carried(a, b, g, run_end(a, pos, class)),
        placed(a, g, run_end(a, pos, class)),
        pos <= run_end(a, pos, class) <= a.len(),
        pos <= g ==> run_end(a, pos, class) <= g,
    decreases g - pos,
{
    lemma_narrowed(a, b, g);
    if pos > g {
        crate::locality::lemma_run_end_local(a, b, longer(a, b, g), pos, class);
    } else if pos < g {
        assert(a[pos] == b[pos]);
        if class.holds(a[pos]) {
            lemma_step_over_plain(a, g, pos);
            lemma_run_narrowed(a, b, g, pos + 1, class);
        }
    }
}

/// A word of letters and digits is matched alike in both inputs, from every
/// place but the one behind the separator.
#[verifier::rlimit(30)]
pub proof fn lemma_text_narrowed(a: Seq<u8>, b: Seq<u8>, g: int, pos: int, word: Seq<char>)
    requires
        narrowed(a, b, g),
        placed(a, g, pos),
        is_plain_word(word),
        pos != g,
    ensures
        text_at(b, carried(a, b, g, pos), word) == text_at(a, pos, word),
        text_at(a, pos, word) ==> placed(a, g, pos + word.len()) && (pos <= g ==> pos
            + word.len() <= g),
{
    reveal(text_at);
    lemma_narrowed(a, b, g);
    if pos > g {
        crate::locality::lemma_text_at_local(a, b, longer(a, b, g), pos, word);
        if text_at(a, pos, word) {
            assert forall|i: int| pos <= i < pos + word.len() implies crate::spacing::is_plain(
                #[trigger] a[i],
            ) by {
                assert(a[pos + (i - pos)] == word[i - pos] as u8);
            }
            lemma_step_over_word(a, g, pos, word.len() as int);
        }
    } else {
        if pos + word.len() <= g {
            if text_at(a, pos, word) {
                assert forall|i: int| 0 <= i < word.len() implies b[pos + i] == #[trigger] word[i]
                    as u8 by {
                    assert(a[pos + i] == b[pos + i]);
                }
                assert forall|i: int| pos <= i < pos + word.len() implies crate::spacing::is_plain(
                    #[trigger] a[i],
                ) by {
                    assert(a[pos + (i - pos)] == word[i - pos] as u8);
                }
                lemma_step_over_word(a, g, pos, word.len() as int);
            }
            if text_at(b, pos, word) {
                assert forall|i: int| 0 <= i < word.len() implies a[pos + i] == #[trigger] word[i]
                    as u8 by {
                    assert(a[pos + i] == b[pos + i]);
                }
            }
        } else {
            let i = g - pos;
            assert(is_ident_char(word[i] as u8));
            assert(is_ident_char(word[i - 1] as u8));
            assert(text_at(a, pos, word) ==> a[pos + i] == word[i] as u8);
            assert(text_at(b, pos, word) ==> b[pos + i] == word[i] as u8 && b[pos + i - 1]
                == word[i - 1] as u8);
        }
    }
}

/// A comment before the separator is the same comment in both inputs.
#[verifier::rlimit(30)]
pub proof fn lemma_comment_narrowed(a: Seq<u8>, b: Seq<u8>, g: int, pos: int)
    requires
        narrowed(a, b, g),
        reaches(a, pos, g),
        pos < g,
    ensures
        comment_span(b, pos) == comment_span(a, pos),
        comment_span(a, pos) matches Some((_, _, end)) ==> pos < end <= g && reaches(a, end, g),
{
    reveal(text_at);
    reveal_strlit("//");
    reveal_strlit("/*");
    lemma_narrowed(a, b, g);
    assert(a[pos] == b[pos]);
    if a[pos] == '/' as u8 || a[pos] == '#' as u8 {
        let (from, to, end) = comment_span(a, pos).unwrap();
        assert(pos + 1 < g || a[pos] == '#' as u8) by {
            if text_at(a, pos, "//"@) {
                assert(a[pos + 1] == "//"@[1] as u8);
            }
            if text_at(a, pos, "/*"@) {
                assert(a[pos + 1] == "/*"@[1] as u8);
                crate::locality::lemma_find_block_end_local(a, a, 0, pos + 2);
            }
        }
        if text_at(a, pos, "//"@) {
            assert(a[pos + 1] == "//"@[1] as u8);
            assert(a[pos + 1] == b[pos + 1]);
            assert(text_at(b, pos, "//"@));
            lemma_run_end_agrees(a, b, g, pos + 2, ByteClass::LineText);
        } else if text_at(a, pos, "/*"@) {
            assert(a[pos + 1] == "/*"@[1] as u8);
            assert(a[pos + 1] == b[pos + 1]);
            assert(text_at(b, pos, "/*"@));
            assert(!text_at(b, pos, "//"@)) by {
                assert(text_at(b, pos, "//"@) ==> b[pos + 1] == "//"@[1] as u8);
            }
            lemma_block_end_agrees(a, b, g, pos + 2);
        } else {
            assert(a[pos] == '#' as u8) by {
                if a[pos] == '/' as u8 {
                    assert(comment_span(a, pos).is_some());
                }
            }
            assert(!text_at(b, pos, "//"@)) by {
                assert(text_at(b, pos, "//"@) ==> b[pos] == "//"@[0] as u8);
            }
            assert(!text_at(b, pos, "/*"@)) by {
                assert(text_at(b, pos, "/*"@) ==> b[pos] == "/*"@[0] as u8);
            }
            lemma_run_end_agrees(a, b, g, pos + 1, ByteClass::LineText);
        }
    } else {
        assert(text_at(a, pos, "//"@) ==> a[pos] == "//"@[0] as u8);
        assert(text_at(a, pos, "/*"@) ==> a[pos] == "/*"@[0] as u8);
        assert(text_at(b, pos, "//"@) ==> b[pos] == "//"@[0] as u8);
        assert(text_at(b, pos, "/*"@) ==> b[pos] == "/*"@[0] as u8);
    }
}

/// The optional separator ends alike in both inputs: where it ended, or,
/// where it runs into the separator that was taken out, where that one
/// started. It never ends where that one starts.
#[verifier::rlimit(30)]
pub proof fn lemma_skip_narrowed(a: Seq<u8>, b: Seq<u8>, g: int, pos: int)
    requires
        narrowed(a, b, g),
        placed(a, g, pos),
    ensures
        skip_separator(b, carried(a, b, g, pos)) == carried(a, b, g, skip_separator(a, pos)),
        placed(a, g, skip_separator(a, pos)),
        pos <= skip_separator(a, pos) <= a.len(),
        skip_separator(a, pos) != g,
        pos <= g < skip_separator(a, pos) ==> skip_separator(a, pos) == skip_separator(a, g),
    decreases g - pos,
{
    lemma_narrowed(a, b, g);
    if pos > g {
        crate::locality::lemma_skip_separator_local(a, b, longer(a, b, g), pos);
    } else if pos < g {
        assert(a[pos] == b[pos]);
        lemma_comment_narrowed(a, b, g, pos);
        if is_whitespace(a[pos]) {
            lemma_skip_narrowed(a, b, g, pos + 1);
        } else if comment_span(a, pos).is_some() {
            lemma_skip_narrowed(a, b, g, comment_span(a, pos).unwrap().2);
        }
    }
}

/// A punctuation mark behind an optional separator is matched alike in both
/// inputs.
pub proof fn lemma_mark_narrowed(a: Seq<u8>, b: Seq<u8>, g: int, pos: int, c: char)
    requires
        narrowed(a, b, g),
        placed(a, g, pos),
        is_plain_char(c),
    ensures
        mark(b, carried(a, b, g, pos), c) == carried_end(a, b, g, mark(a, pos, c)),
        settled(a, g, pos, mark(a, pos, c)),
        mark(a, pos, c) matches Some(end) ==> pos < end <= a.len(),
{
    lemma_narrowed(a, b, g);
    lemma_skip_narrowed(a, b, g, pos);
    lemma_byte_narrowed(a, b, g, skip_separator(a, pos), c);
}

/// A comma or semicolon is matched alike in both inputs, from every place
/// but the one behind the separator.
pub proof fn lemma_list_separator_narrowed(a: Seq<u8>, b: Seq<u8>, g: int, pos: int)
    requires
        narrowed(a, b, g),
        placed(a, g, pos),
        pos != g,
    ensures
        list_separator(b, carried(a, b, g, pos)) == carried_end(a, b, g, list_separator(a, pos)),
        settled(a, g, pos, list_separator(a, pos)),
        list_separator(a, pos) matches Some(end) ==> pos < end <= a.len(),
{
    lemma_narrowed(a, b, g);
    lemma_byte_narrowed(a, b, g, pos, ',');
    lemma_byte_narrowed(a, b, g, pos, ';');
}

/// An optional separator and comma or semicolon are matched alike in both
/// inputs.
pub proof fn lemma_skip_terminator_narrowed(a: Seq<u8>, b: Seq<u8>, g: int, pos: int)
    requires
        narrowed(a, b, g),
        placed(a, g, pos),
    ensures
        skip_terminator(b, carried(a, b, g, pos)) == carried(a, b, g, skip_terminator(a, pos)),
        placed(a, g, skip_terminator(a, pos)),
        pos <= skip_terminator(a, pos) <= a.len(),
{
    lemma_narrowed(a, b, g);
    lemma_skip_narrowed(a, b, g, pos);
    lemma_list_separator_narrowed(a, b, g, skip_separator(a, pos));
}

/// What a quote opens and closes is the same literal in both inputs.
#[verifier::rlimit(30)]
pub proof fn lemma_quoted_span_narrowed(a: Seq<u8>, b: Seq<u8>, g: int, pos: int, quote: char)
    requires
        narrowed(a, b, g),
        placed(a, g, pos),
        quote == '"' || quote == '\'',
        pos != g,
    ensures
        quoted_span(b, carried(a, b, g, pos), quote) == match quoted_span(a, pos, quote) {
            Some((from, to, end)) => Some(
                (carried(a, b, g, from), carried(a, b, g, to), carried(a, b, g, end)),
            ),
            None => None,
        },
        quoted_span(a, pos, quote) matches Some((from, to, end)) ==> pos < from <= to < end
            <= a.len() && placed(a, g, end) && (to <= g || skip_separator(a, g) <= from),
{
    lemma_narrowed(a, b, g);
    if pos > g {
        crate::locality::lemma_quoted_span_local(a, b, longer(a, b, g), pos, quote);
    } else if pos < g {
        assert(a[pos] == b[pos]);
        if byte_is(a, pos, quote) {
            crate::locality::lemma_quoted_span_local(a, a, 0, pos, quote);
            let (from, to, end) = quoted_span(a, pos, quote).unwrap();
            lemma_find_byte_agrees(a, b, g, pos + 1, quote as u8);
        }
    }
}

/// A string literal is the same literal in both inputs.
pub proof fn lemma_literal_span_narrowed(a: Seq<u8>, b: Seq<u8>, g: int, pos: int)
    requires
        narrowed(a, b, g),
        placed(a, g, pos),
        pos != g,
    ensures
        literal_span(b, carried(a, b, g, pos)) == match literal_span(a, pos) {
            Some((from, to, end)) => Some(
                (carried(a, b, g, from), carried(a, b, g, to), carried(a, b, g, end)),
            ),
            None => None,
        },
        literal_span(a, pos) matches Some((from, to, end)) ==> pos < from <= to < end
            <= a.len() && placed(a, g, end) && (to <= g || skip_separator(a, g) <= from),
{
    lemma_quoted_span_narrowed(a, b, g, pos, '"');
    lemma_quoted_span_narrowed(a, b, g, pos, '\'');
}

/// An identifier is the same identifier in both inputs, and lies on one side
/// of the separator.
#[verifier::rlimit(30)]
pub proof fn lemma_identifier_narrowed(a: Seq<u8>, b: Seq<u8>, g: int, pos: int)
    requires
        narrowed(a, b, g),
        placed(a, g, pos),
        pos != g,
    ensures
        identifier(b, carried(a, b, g, pos)) == carried_end(a, b, g, identifier(a, pos)),
        settled(a, g, pos, identifier(a, pos)),
        identifier(a, pos) matches Some(end) ==> 0 <= pos < end <= a.len() && (end <= g
            || skip_separator(a, g) <= pos),
{
    lemma_narrowed(a, b, g);
    if pos > g {
        crate::locality::lemma_identifier_local(a, b, longer(a, b, g), pos);
        if identifier(a, pos).is_some() {
            lemma_step_over_plain(a, g, pos);
            lemma_run_narrowed(a, b, g, pos + 1, ByteClass::IdentChar);
        }
    } else if pos < g {
        assert(a[pos] == b[pos]);
        if identifier(a, pos).is_some() {
            lemma_step_over_plain(a, g, pos);
            lemma_run_narrowed(a, b, g, pos + 1, ByteClass::IdentChar);
        }
    }
}

/// A keyword is matched alike in both inputs, from every place but the one
/// behind the separator.
#[verifier::rlimit(30)]
pub proof fn lemma_keyword_narrowed(a: Seq<u8>, b: Seq<u8>, g: int, pos: int, word: Seq<char>)
    requires
        narrowed(a, b, g),
        placed(a, g, pos),
        is_plain_word(word),
        pos != g,
    ensures
        keyword(b, carried(a, b, g, pos), word) == carried_end(a, b, g, keyword(a, pos, word)),
        settled(a, g, pos, keyword(a, pos, word)),
        keyword(a, pos, word) matches Some(end) ==> end <= g || skip_separator(a, g) <= pos,
{
    reveal(text_at);
    lemma_narrowed(a, b, g);
    lemma_text_narrowed(a, b, g, pos, word);
    if pos > g {
        crate::locality::lemma_keyword_local(a, b, longer(a, b, g), pos, word);
    } else if text_at(a, pos, word) {
        let end = pos + word.len();
        if end < g {
            assert(a[end] == b[end]);
        } else {
            let last = word.len() - 1;
            assert(a[pos + last] == word[last] as u8);
            assert(is_ident_char(word[last] as u8));
        }
    }
}

/// An optional sign is matched alike in both inputs, where it is not looked
/// for behind the separator in front of a sign.
pub proof fn lemma_skip_sign_narrowed(a: Seq<u8>, b: Seq<u8>, g: int, pos: int)
    requires
        narrowed(a, b, g),
        placed(a, g, pos),
        pos == g ==> !byte_is(b, g, '+') && !byte_is(b, g, '-'),
    ensures
        skip_sign(b, carried(a, b, g, pos)) == carried(a, b, g, skip_sign(a, pos)),
        placed(a, g, skip_sign(a, pos)),
        pos <= skip_sign(a, pos) <= a.len(),
        pos <= g ==> skip_sign(a, pos) <= g,
        0 <= pos,
        skip_sign(a, pos) == g && pos < g ==> !(g < b.len() && is_digit(b[g])),
{
    lemma_narrowed(a, b, g);
    lemma_byte_narrowed(a, b, g, pos, '+');
    lemma_byte_narrowed(a, b, g, pos, '-');
}

/// Digits on one side of the separator write the same number in both
/// inputs.
pub proof fn lemma_digits_value_narrowed(a: Seq<u8>, b: Seq<u8>, g: int, from: int, to: int)
    requires
        narrowed(a, b, g),
        0 <= from <= to <= a.len(),
        to <= g || skip_separator(a, g) <= from,
    ensures
        digits_value(b, carried(a, b, g, from), carried(a, b, g, to)) == digits_value(
            a,
            from,
            to,
        ),
    decreases to - from,
{
    lemma_narrowed(a, b, g);
    if from < to {
        if to <= g {
            assert(a[to - 1] == b[to - 1]);
            lemma_digits_value_narrowed(a, b, g, from, to - 1);
        } else {
            assert(aligned(a, b, longer(a, b, g), from));
            crate::locality::lemma_digits_value_local(a, b, longer(a, b, g), from, to);
        }
    }
}

/// Text on one side of the separator is the same text in both inputs.
#[verifier::rlimit(30)]
pub proof fn lemma_text_carried_narrowed(a: Seq<u8>, b: Seq<u8>, g: int, lo: int, hi: int)
    requires
        narrowed(a, b, g),
        0 <= lo <= hi <= a.len(),
        hi <= g || skip_separator(a, g) <= lo,
    ensures
        a.subrange(lo, hi) == b.subrange(carried(a, b, g, lo), carried(a, b, g, hi)),
{
    lemma_narrowed(a, b, g);
    if hi <= g {
        assert(a.subrange(lo, hi) =~= b.subrange(lo, hi));
    } else {
        crate::locality::lemma_subrange_local(
            a,
            b,
            longer(a, b, g),
            skip_separator(a, g),
            lo,
            hi,
        );
    }
}

/// An integer constant is the same in both inputs.
pub proof fn lemma_int_constant_narrowed(a: Seq<u8>, b: Seq<u8>, g: int, pos: int)
    requires
        narrowed(a, b, g),
        placed(a, g, pos),
        pos != g,
    ensures
        int_constant(b, carried(a, b, g, pos)) == carried_node(a, b, g, int_constant(a, pos)),
        node_settled(a, g, pos, int_constant(a, pos)),
        int_constant(a, pos) matches Some((_, end)) ==> pos < end,
{
    lemma_narrowed(a, b, g);
    lemma_skip_sign_narrowed(a, b, g, pos);
    lemma_byte_narrowed(a, b, g, pos, '-');
    let first = skip_sign(a, pos);
    lemma_run_narrowed(a, b, g, first, ByteClass::Digit);
    let end = run_end(a, first, ByteClass::Digit);
    if end > first {
        lemma_digits_value_narrowed(a, b, g, first, end);
    }
}

/// An optional exponent is matched alike in both inputs, where it is not
/// looked for behind the separator in front of the letter that starts one.
pub proof fn lemma_skip_exponent_narrowed(a: Seq<u8>, b: Seq<u8>, g: int, pos: int)
    requires
        narrowed(a, b, g),
        placed(a, g, pos),
        pos == g ==> !byte_is(b, g, 'e') && !byte_is(b, g, 'E'),
    ensures
        skip_exponent(b, carried(a, b, g, pos)) == carried(a, b, g, skip_exponent(a, pos)),
        placed(a, g, skip_exponent(a, pos)),
        pos <= skip_exponent(a, pos) <= a.len(),
        pos <= g ==> skip_exponent(a, pos) <= g,
{
    lemma_narrowed(a, b, g);
    lemma_byte_narrowed(a, b, g, pos, 'e');
    lemma_byte_narrowed(a, b, g, pos, 'E');
    if byte_is(a, pos, 'e') || byte_is(a, pos, 'E') {
        lemma_skip_sign_narrowed(a, b, g, pos + 1);
        lemma_run_narrowed(a, b, g, skip_sign(a, pos + 1), ByteClass::Digit);
    }
}

/// A floating-point constant is the same in both inputs, and lies on one
/// side of the separator.
#[verifier::rlimit(30)]
pub proof fn lemma_double_constant_narrowed(a: Seq<u8>, b: Seq<u8>, g: int, pos: int)
    requires
        narrowed(a, b, g),
        placed(a, g, pos),
        pos != g,
    ensures
        double_constant(b, carried(a, b, g, pos)) == carried_end(
            a,
            b,
            g,
            double_constant(a, pos),
        ),
        settled(a, g, pos, double_constant(a, pos)),
        double_constant(a, pos) matches Some(end) ==> 0 <= pos < end <= a.len() && (end <= g
            || skip_separator(a, g) <= pos),
{
    lemma_narrowed(a, b, g);
    lemma_skip_sign_narrowed(a, b, g, pos);
    let first = skip_sign(a, pos);
    lemma_run_narrowed(a, b, g, first, ByteClass::Digit);
    let point = run_end(a, first, ByteClass::Digit);
    lemma_byte_narrowed(a, b, g, point, '.');
    if byte_is(a, point, '.') {
        lemma_run_narrowed(a, b, g, point + 1, ByteClass::Digit);
        let end = run_end(a, point + 1, ByteClass::Digit);
        if end > point + 1 {
            crate::basic::lemma_run_members(a, point + 1, ByteClass::Digit, end - 1);
        }
        lemma_skip_exponent_narrowed(a, b, g, end);
    }
}

/// The rule `base_type` gives the same in both inputs.
pub proof fn lemma_base_type_narrowed(a: Seq<u8>, b: Seq<u8>, g: int, pos: int)
    requires
        narrowed(a, b, g),
        placed(a, g, pos),
        pos != g,
    ensures
        base_type(b, carried(a, b, g, pos)) == carried_node(a, b, g, base_type(a, pos)),
        node_settled(a, g, pos, base_type(a, pos)),
{
    lemma_plain_words();
    lemma_keyword_narrowed(a, b, g, pos, "bool"@);
    lemma_keyword_narrowed(a, b, g, pos, "byte"@);
    lemma_keyword_narrowed(a, b, g, pos, "i8"@);
    lemma_keyword_narrowed(a, b, g, pos, "i16"@);
    lemma_keyword_narrowed(a, b, g, pos, "i32"@);
    lemma_keyword_narrowed(a, b, g, pos, "i64"@);
    lemma_keyword_narrowed(a, b, g, pos, "double"@);
    lemma_keyword_narrowed(a, b, g, pos, "string"@);
    lemma_keyword_narrowed(a, b, g, pos, "binary"@);
}

/// The rule `open_arguments` gives the same in both inputs.
#[verifier::rlimit(30)]
pub proof fn lemma_open_arguments_narrowed(
    a: Seq<u8>,
    b: Seq<u8>,
    g: int,
    pos: int,
    word: Seq<char>,
)
    requires
        narrowed(a, b, g),
        is_plain_word(word),
        placed(a, g, pos),
        pos != g,
    ensures
        open_arguments(b, carried(a, b, g, pos), word) == carried_end(a, b, g, open_arguments(a, pos, word)),
        settled(a, g, pos, open_arguments(a, pos, word)),
        open_arguments(a, pos, word) matches Some(end) ==> end != g,
{
    lemma_keyword_narrowed(a, b, g, pos, word);
    match keyword(a, pos, word) {
        Some(after) => {
            lemma_mark_narrowed(a, b, g, after, '<');
            match mark(a, after, '<') {
                Some(open) => {
                    lemma_skip_narrowed(a, b, g, open);
                },
                None => {},
            }
        },
        None => {},
    }
}

/// The rule `unary_container` gives the same in both inputs.
#[verifier::rlimit(30)]
pub proof fn lemma_unary_container_narrowed(
    a: Seq<u8>,
    b: Seq<u8>,
    g: int,
    pos: int,
    word: Seq<char>,
)
    requires
        narrowed(a, b, g),
        is_plain_word(word),
        placed(a, g, pos),
        pos != g,
    ensures
        unary_container(b, carried(a, b, g, pos), word) == carried_node(a, b, g, unary_container(a, pos, word)),
        node_settled(a, g, pos, unary_container(a, pos, word)),
    decreases a.len() - pos, 0int,
{
    lemma_open_arguments_narrowed(a, b, g, pos, word);
    match open_arguments(a, pos, word) {
        Some(at) => {
            if pos < at <= a.len() {
                lemma_field_type_narrowed(a, b, g, at);
                match field_type(a, at) {
                    Some((element, end)) => {
                        lemma_mark_narrowed(a, b, g, end, '>');
                    },
                    None => {},
                }
            }
        },
        None => {},
    }
}

/// The rule `map_container` gives the same in both inputs.
#[verifier::rlimit(30)]
pub proof fn lemma_map_container_narrowed(a: Seq<u8>, b: Seq<u8>, g: int, pos: int)
    requires
        narrowed(a, b, g),
        placed(a, g, pos),
        pos != g,
    ensures
        map_container(b, carried(a, b, g, pos)) == carried_node(a, b, g, map_container(a, pos)),
        node_settled(a, g, pos, map_container(a, pos)),
    decreases a.len() - pos, 0int,
{
    lemma_plain_words();
    lemma_open_arguments_narrowed(a, b, g, pos, "map"@);
    match open_arguments(a, pos, "map"@) {
        Some(at) => {
            if pos < at <= a.len() {
                lemma_field_type_narrowed(a, b, g, at);
                match field_type(a, at) {
                    Some((key, key_end)) => {
                        lemma_mark_narrowed(a, b, g, key_end, ',');
                        match mark(a, key_end, ',') {
                            Some(comma) => {
                                lemma_skip_narrowed(a, b, g, comma);
                                let second = skip_separator(a, comma);
                                lemma_field_type_narrowed(a, b, g, second);
                                match field_type(a, second) {
                                    Some((value, end)) => {
                                        lemma_mark_narrowed(a, b, g, end, '>');
                                    },
                                    None => {},
                                }
                            },
                            None => {},
                        }
                    },
                    None => {},
                }
            }
        },
        None => {},
    }
}

/// The rule `container_type` gives the same in both inputs.
pub proof fn lemma_container_type_narrowed(a: Seq<u8>, b: Seq<u8>, g: int, pos: int)
    requires
        narrowed(a, b, g),
        placed(a, g, pos),
        pos != g,
    ensures
        container_type(b, carried(a, b, g, pos)) == carried_node(a, b, g, container_type(a, pos)),
        node_settled(a, g, pos, container_type(a, pos)),
    decreases a.len() - pos, 1int,
{
    lemma_plain_words();
    lemma_unary_container_narrowed(a, b, g, pos, "list"@);
    lemma_unary_container_narrowed(a, b, g, pos, "set"@);
    lemma_map_container_narrowed(a, b, g, pos);
}

/// The rule `field_type` gives the same in both inputs.
pub proof fn lemma_field_type_narrowed(a: Seq<u8>, b: Seq<u8>, g: int, pos: int)
    requires
        narrowed(a, b, g),
        placed(a, g, pos),
        pos != g,
    ensures
        field_type(b, carried(a, b, g, pos)) == carried_node(a, b, g, field_type(a, pos)),
        node_settled(a, g, pos, field_type(a, pos)),
    decreases a.len() - pos, 2int,
{
    lemma_base_type_narrowed(a, b, g, pos);
    lemma_container_type_narrowed(a, b, g, pos);
    lemma_identifier_narrowed(a, b, g, pos);
    if base_type(a, pos).is_none() && container_type(a, pos).is_none() && identifier(
        a,
        pos,
    ).is_some() {
        lemma_text_carried_narrowed(a, b, g, pos, identifier(a, pos).unwrap());
    }
}

/// The rule `definition_type` gives the same in both inputs.
pub proof fn lemma_definition_type_narrowed(a: Seq<u8>, b: Seq<u8>, g: int, pos: int)
    requires
        narrowed(a, b, g),
        placed(a, g, pos),
        pos != g,
    ensures
        definition_type(b, carried(a, b, g, pos)) == carried_node(a, b, g, definition_type(a, pos)),
        node_settled(a, g, pos, definition_type(a, pos)),
{
    lemma_base_type_narrowed(a, b, g, pos);
    lemma_container_type_narrowed(a, b, g, pos);
}

/// The rule `return_type` gives the same in both inputs.
pub proof fn lemma_return_type_narrowed(a: Seq<u8>, b: Seq<u8>, g: int, pos: int)
    requires
        narrowed(a, b, g),
        placed(a, g, pos),
        pos != g,
    ensures
        return_type(b, carried(a, b, g, pos)) == carried_node(a, b, g, return_type(a, pos)),
        node_settled(a, g, pos, return_type(a, pos)),
{
    lemma_plain_words();
    lemma_keyword_narrowed(a, b, g, pos, "void"@);
    lemma_field_type_narrowed(a, b, g, pos);
}

/// The rule `field_id` gives the same in both inputs.
#[verifier::rlimit(30)]
pub proof fn lemma_field_id_narrowed(a: Seq<u8>, b: Seq<u8>, g: int, pos: int)
    requires
        narrowed(a, b, g),
        placed(a, g, pos),
        pos != g,
    ensures
        field_id(b, carried(a, b, g, pos)) == carried_node(a, b, g, field_id(a, pos)),
        node_settled(a, g, pos, field_id(a, pos)),
        field_id(a, pos) matches Some((_, end)) ==> end != g && pos < end,
{
    lemma_int_constant_narrowed(a, b, g, pos);
    match int_constant(a, pos) {
        Some((id, end)) => {
            lemma_mark_narrowed(a, b, g, end, ':');
            match mark(a, end, ':') {
                Some(colon) => {
                    lemma_skip_narrowed(a, b, g, colon);
                },
                None => {},
            }
        },
        None => {},
    }
}

/// The rule `enum_value` gives the same in both inputs.
#[verifier::rlimit(30)]
pub proof fn lemma_enum_value_narrowed(a: Seq<u8>, b: Seq<u8>, g: int, pos: int)
    requires
        narrowed(a, b, g),
        placed(a, g, pos),
        pos != g,
    ensures
        enum_value(b, carried(a, b, g, pos)) == carried_node(a, b, g, enum_value(a, pos)),
        node_settled(a, g, pos, enum_value(a, pos)),
{
    lemma_identifier_narrowed(a, b, g, pos);
    match identifier(a, pos) {
        Some(name_end) => {
            lemma_text_carried_narrowed(a, b, g, pos, name_end);
            lemma_mark_narrowed(a, b, g, name_end, '=');
            match mark(a, name_end, '=') {
                Some(equals) => {
                    lemma_skip_narrowed(a, b, g, equals);
                    lemma_int_constant_narrowed(a, b, g, skip_separator(a, equals));
                },
                None => {},
            }
        },
        None => {},
    }
}

/// The byte at a place is the same in both inputs, but at the place where
/// the separator was.
pub proof fn lemma_same_byte(a: Seq<u8>, b: Seq<u8>, g: int, pos: int)
    requires
        narrowed(a, b, g),
        placed(a, g, pos),
        pos != g,
        pos < a.len(),
    ensures
        0 <= carried(a, b, g, pos) < b.len(),
        b[carried(a, b, g, pos)] == a[pos],
        carried(a, b, g, pos) != g || pos > g,
{
    lemma_narrowed(a, b, g);
    if pos < g {
        assert(a[pos] == b[pos]);
    }
}

/// Carrying positions over keeps their order, and keeps them in the input.
pub proof fn lemma_carried_narrowed(a: Seq<u8>, b: Seq<u8>, g: int, p: int, q: int)
    requires
        narrowed(a, b, g),
        placed(a, g, p),
        placed(a, g, q),
    ensures
        p <= q ==> carried(a, b, g, p) <= carried(a, b, g, q),
        p != g && q != g ==> (p < q <==> carried(a, b, g, p) < carried(a, b, g, q)),
        0 <= p <= a.len(),
        0 <= carried(a, b, g, p) <= b.len(),
        carried(a, b, g, p) == g ==> p == g || p == skip_separator(a, g),
{
    lemma_narrowed(a, b, g);
}

/// A separator that must be there is there alike in both inputs, from every
/// place but the one where the separator was taken out.
pub proof fn lemma_separator_narrowed(a: Seq<u8>, b: Seq<u8>, g: int, pos: int)
    requires
        narrowed(a, b, g),
        placed(a, g, pos),
        pos != g,
    ensures
        separator(b, carried(a, b, g, pos)) == carried_end(a, b, g, separator(a, pos)),
        settled(a, g, pos, separator(a, pos)),
        separator(a, pos) matches Some(end) ==> pos < end && end != g,
{
    lemma_narrowed(a, b, g);
    lemma_skip_narrowed(a, b, g, pos);
}

/// A separator that is there in the input without the separator at `g` is
/// there in the input with it.
pub proof fn lemma_separator_widened(a: Seq<u8>, b: Seq<u8>, g: int, pos: int)
    requires
        narrowed(a, b, g),
        placed(a, g, pos),
        separator(b, carried(a, b, g, pos)).is_some(),
    ensures
        separator(b, carried(a, b, g, pos)) == carried_end(a, b, g, separator(a, pos)),
        settled(a, g, pos, separator(a, pos)),
        separator(a, pos) matches Some(end) && pos < end && end != g,
{
    lemma_narrowed(a, b, g);
    lemma_skip_narrowed(a, b, g, pos);
}

/// What parts two elements of a list is matched alike in both inputs, but
/// where the separator that was taken out was all that parted them.
pub proof fn lemma_list_gap_narrowed(a: Seq<u8>, b: Seq<u8>, g: int, pos: int)
    requires
        narrowed(a, b, g),
        placed(a, g, pos),
        pos == g ==> list_gap(b, g).is_some(),
    ensures
        list_gap(b, carried(a, b, g, pos)) == carried_end(a, b, g, list_gap(a, pos)),
        settled(a, g, pos, list_gap(a, pos)),
        list_gap(a, pos) matches Some(end) ==> pos < end <= a.len() && end != g,
{
    lemma_narrowed(a, b, g);
    lemma_skip_narrowed(a, b, g, pos);
    let at = skip_separator(a, pos);
    lemma_list_separator_narrowed(a, b, g, at);
    match list_separator(a, at) {
        Some(after) => {
            lemma_skip_narrowed(a, b, g, after);
        },
        None => {},
    }
}

/// The optional list gap ends alike in both inputs.
pub proof fn lemma_skip_list_gap_narrowed(a: Seq<u8>, b: Seq<u8>, g: int, pos: int)
    requires
        narrowed(a, b, g),
        placed(a, g, pos),
    ensures
        skip_list_gap(b, carried(a, b, g, pos)) == carried(a, b, g, skip_list_gap(a, pos)),
        placed(a, g, skip_list_gap(a, pos)),
        pos <= skip_list_gap(a, pos) <= a.len(),
{
    lemma_narrowed(a, b, g);
    lemma_skip_narrowed(a, b, g, pos);
    let at = skip_separator(a, pos);
    lemma_list_separator_narrowed(a, b, g, at);
    match list_separator(a, at) {
        Some(after) => {
            lemma_skip_narrowed(a, b, g, after);
        },
        None => {},
    }
}

/// A keyword and the separator behind it are matched alike in both inputs,
/// but where the separator that was taken out stood behind the keyword.
pub proof fn lemma_spaced_keyword_narrowed(
    a: Seq<u8>,
    b: Seq<u8>,
    g: int,
    pos: int,
    word: Seq<char>,
)
    requires
        narrowed(a, b, g),
        placed(a, g, pos),
        is_plain_word(word),
        pos != g,
        keyword(a, pos, word) != Some(g),
    ensures
        spaced_keyword(b, carried(a, b, g, pos), word) == carried_end(
            a,
            b,
            g,
            spaced_keyword(a, pos, word),
        ),
        settled(a, g, pos, spaced_keyword(a, pos, word)),
        spaced_keyword(a, pos, word) matches Some(end) ==> pos < end && end != g,
{
    lemma_keyword_narrowed(a, b, g, pos, word);
    match keyword(a, pos, word) {
        Some(after) => {
            lemma_separator_narrowed(a, b, g, after);
        },
        None => {},
    }
}

/// Whether, behind an element of a list that ends at `at`, the list goes on
/// with another element, or the mark `c` that closes the list stands.
pub open spec fn goes_on<T>(
    s: Seq<u8>,
    at: int,
    gap: spec_fn(int) -> Option<int>,
    item: spec_fn(int) -> Option<(T, int)>,
    c: char,
) -> bool {
    match gap(at) {
        Some(next) => item(next).is_some() || byte_is(s, next, c),
        None => byte_is(s, at, c),
    }
}

/// Whether the mark `c` that closes a list stands behind the elements that
/// follow the one that ends at `pos`.
pub open spec fn closes<T>(
    s: Seq<u8>,
    pos: int,
    gap: spec_fn(int) -> Option<int>,
    item: spec_fn(int) -> Option<(T, int)>,
    c: char,
) -> bool {
    let stop = list_tail(s.len() as int, pos, gap, item).1;
    byte_is(
        s,
        match gap(stop) {
            Some(next) => next,
            None => stop,
        },
        c,
    )
}

/// Whether a rule fails wherever the byte `c` stands.
pub open spec fn fails_at<T>(s: Seq<u8>, item: spec_fn(int) -> Option<(T, int)>, c: char) -> bool {
    forall|p: int| byte_is(s, p, c) ==> (#[trigger] item(p)).is_none()
}

/// Whether two gaps give the same from every place, but from the one where
/// the separator was taken out if that separator was all the gap.
pub open spec fn gaps_widen(
    a: Seq<u8>,
    b: Seq<u8>,
    g: int,
    one: spec_fn(int) -> Option<int>,
    other: spec_fn(int) -> Option<int>,
) -> bool {
    &&& forall|p: int|
        placed(a, g, p) && (p != g || other(g).is_some()) ==> other(carried(a, b, g, p))
            == carried_end(a, b, g, #[trigger] one(p)) && settled(a, g, p, one(p)) && (one(
            p,
        ) matches Some(end) ==> p < end && end != g)
    &&& other(g).is_none() ==> (one(g) matches Some(end) ==> end == skip_separator(a, g))
}

/// Whether an element that the input without the separator holds, with the
/// list going on or closing behind it, is held by the input with the
/// separator too.
pub open spec fn items_widen<T>(
    a: Seq<u8>,
    b: Seq<u8>,
    g: int,
    one: spec_fn(int) -> Option<(T, int)>,
    other: spec_fn(int) -> Option<(T, int)>,
    gap: spec_fn(int) -> Option<int>,
    c: char,
) -> bool {
    forall|p: int|
        placed(a, g, p) && p != g && other(carried(a, b, g, p)).is_some() && goes_on(
            b,
            other(carried(a, b, g, p)).unwrap().1,
            gap,
            other,
            c,
        ) ==> other(carried(a, b, g, p)) == carried_node(a, b, g, #[trigger] one(p))
            && node_settled(a, g, p, one(p)) && (one(p) matches Some((_, end)) ==> p < end)
}

/// The elements of a closed list that follow one of them are the same in
/// both inputs.
#[verifier::rlimit(30)]
pub proof fn lemma_list_tail_widened<T>(
    a: Seq<u8>,
    b: Seq<u8>,
    g: int,
    pos: int,
    gap: spec_fn(int) -> Option<int>,
    item: spec_fn(int) -> Option<(T, int)>,
    gap2: spec_fn(int) -> Option<int>,
    item2: spec_fn(int) -> Option<(T, int)>,
    c: char,
)
    requires
        narrowed(a, b, g),
        placed(a, g, pos),
        is_plain_char(c),
        gaps_widen(a, b, g, gap, gap2),
        items_widen(a, b, g, item, item2, gap2, c),
        fails_at(a, item, c),
        closes(b, carried(a, b, g, pos), gap2, item2, c),
    ensures
        list_tail(b.len() as int, carried(a, b, g, pos), gap2, item2) == carried_list(
            a,
            b,
            g,
            list_tail(a.len() as int, pos, gap, item),
        ),
        placed(a, g, list_tail(a.len() as int, pos, gap, item).1),
        pos <= list_tail(a.len() as int, pos, gap, item).1 <= a.len(),
    decreases a.len() - pos,
{
    lemma_narrowed(a, b, g);
    lemma_carried_narrowed(a, b, g, pos, pos);
    let at = carried(a, b, g, pos);
    let goes = match gap2(at) {
        Some(next) => match item2(next) {
            Some((x, end)) => at < end <= b.len(),
            None => false,
        },
        None => false,
    };
    if goes {
        let next2 = gap2(at).unwrap();
        let (x, end2) = item2(next2).unwrap();
        assert(gap2(at) == carried_end(a, b, g, gap(pos)));
        let next = gap(pos).unwrap();
        assert(closes(b, end2, gap2, item2, c));
        assert(goes_on(b, end2, gap2, item2, c));
        assert(item2(carried(a, b, g, next)) == carried_node(a, b, g, item(next)));
        let end = item(next).unwrap().1;
        lemma_carried_narrowed(a, b, g, pos, end);
        lemma_list_tail_widened(a, b, g, end, gap, item, gap2, item2, c);
    } else {
        match gap2(at) {
            Some(next2) => {
                assert(gap2(at) == carried_end(a, b, g, gap(pos)));
                let next = gap(pos).unwrap();
                assert(byte_is(b, next2, c));
                lemma_same_byte(a, b, g, next);
                assert(byte_is(a, next, c));
                assert(item(next).is_none());
            },
            None => {
                assert(byte_is(b, at, c));
                if pos != g {
                    assert(gap2(at) == carried_end(a, b, g, gap(pos)));
                } else {
                    match gap(pos) {
                        Some(next) => {
                            assert(byte_is(a, next, c));
                            assert(item(next).is_none());
                        },
                        None => {},
                    }
                }
            },
        }
    }
}

/// A closed list is the same in both inputs.
#[verifier::rlimit(30)]
pub proof fn lemma_list_widened<T>(
    a: Seq<u8>,
    b: Seq<u8>,
    g: int,
    pos: int,
    gap: spec_fn(int) -> Option<int>,
    item: spec_fn(int) -> Option<(T, int)>,
    gap2: spec_fn(int) -> Option<int>,
    item2: spec_fn(int) -> Option<(T, int)>,
    c: char,
)
    requires
        narrowed(a, b, g),
        placed(a, g, pos),
        pos != g,
        is_plain_char(c),
        gaps_widen(a, b, g, gap, gap2),
        items_widen(a, b, g, item, item2, gap2, c),
        fails_at(a, item, c),
        item2(carried(a, b, g, pos)).is_none() ==> item(pos).is_none(),
        ({
            let stop = list(b.len() as int, carried(a, b, g, pos), gap2, item2).1;
            byte_is(
                b,
                match gap2(stop) {
                    Some(next) => next,
                    None => stop,
                },
                c,
            )
        }),
    ensures
        list(b.len() as int, carried(a, b, g, pos), gap2, item2) == carried_list(
            a,
            b,
            g,
            list(a.len() as int, pos, gap, item),
        ),
        placed(a, g, list(a.len() as int, pos, gap, item).1),
        pos <= list(a.len() as int, pos, gap, item).1 <= a.len(),
{
    lemma_narrowed(a, b, g);
    lemma_carried_narrowed(a, b, g, pos, pos);
    let at = carried(a, b, g, pos);
    match item2(at) {
        Some((x, end2)) => {
            assert(closes(b, end2, gap2, item2, c));
            assert(goes_on(b, end2, gap2, item2, c));
            assert(item2(at) == carried_node(a, b, g, item(pos)));
            let end = item(pos).unwrap().1;
            lemma_list_tail_widened(a, b, g, end, gap, item, gap2, item2, c);
        },
        None => {},
    }
}

/// The list gap gives the same from every place, in the sense of
/// `gaps_widen`.
#[verifier::rlimit(30)]
pub proof fn lemma_list_gaps_widen(a: Seq<u8>, b: Seq<u8>, g: int)
    requires
        narrowed(a, b, g),
    ensures
        gaps_widen(a, b, g, list_gap_rule(a), list_gap_rule(b)),
{
    lemma_narrowed(a, b, g);
    let one = list_gap_rule(a);
    let other = list_gap_rule(b);
    assert forall|p: int| placed(a, g, p) && (p != g || other(g).is_some()) implies other(
        carried(a, b, g, p),
    ) == carried_end(a, b, g, #[trigger] one(p)) && settled(a, g, p, one(p)) && (one(
        p,
    ) matches Some(end) ==> p < end && end != g) by {
        lemma_list_gap_narrowed(a, b, g, p);
    }
    if other(g).is_none() {
        lemma_skip_narrowed(a, b, g, g);
        let at = skip_separator(a, g);
        lemma_list_separator_narrowed(a, b, g, at);
    }
}

/// The separator gives the same from every place, in the sense of
/// `gaps_widen`.
pub proof fn lemma_separators_widen(a: Seq<u8>, b: Seq<u8>, g: int)
    requires
        narrowed(a, b, g),
    ensures
        gaps_widen(a, b, g, separator_rule(a), separator_rule(b)),
{
    lemma_narrowed(a, b, g);
    let one = separator_rule(a);
    let other = separator_rule(b);
    assert forall|p: int| placed(a, g, p) && (p != g || other(g).is_some()) implies other(
        carried(a, b, g, p),
    ) == carried_end(a, b, g, #[trigger] one(p)) && settled(a, g, p, one(p)) && (one(
        p,
    ) matches Some(end) ==> p < end && end != g) by {
        lemma_separator_narrowed(a, b, g, p);
    }
}

/// Where the mark that closes a list stands behind the optional list gap, it
/// stands behind the list gap if there is one, and where the gap was looked
/// for if there is none.
#[verifier::rlimit(30)]
pub proof fn lemma_closer_behind_gap(s: Seq<u8>, stop: int, c: char)
    requires
        mark(s, skip_list_gap(s, stop), c).is_some(),
        c != ',' && c != ';',
    ensures
        byte_is(
            s,
            match list_gap_rule(s)(stop) {
                Some(next) => next,
                None => stop,
            },
            c,
        ),
{
    reveal(text_at);
    if 0 <= stop <= s.len() {
        crate::laws::law_separator_is_maximal(s, stop);
        crate::locality::lemma_skip_separator_local(s, s, 0, stop);
        let at = skip_separator(s, stop);
        match list_separator(s, at) {
            Some(after) => {
                crate::laws::law_separator_is_maximal(s, after);
            },
            None => {},
        }
    }
}

/// Where the mark that closes a list stands behind an optional separator, it
/// stands behind the separator if there is one, and where the separator was
/// looked for if there is none.
pub proof fn lemma_closer_behind_separator(s: Seq<u8>, stop: int, c: char)
    requires
        mark(s, stop, c).is_some(),
    ensures
        byte_is(
            s,
            match separator_rule(s)(stop) {
                Some(next) => next,
                None => stop,
            },
            c,
        ),
{
    reveal(text_at);
    if 0 <= stop <= s.len() {
        crate::locality::lemma_skip_separator_local(s, s, 0, stop);
    }
}

/// Whether a byte is one that closes a list or parts its elements.
pub open spec fn is_closing(c: char) -> bool {
    c == ']' || c == '}' || c == ')' || c == ',' || c == ';' || c == '=' || c == ':'
}

/// No constant starts with a byte that closes a list or parts its elements.
pub proof fn lemma_const_value_fails_at(s: Seq<u8>, pos: int, c: char)
    requires
        byte_is(s, pos, c),
        is_closing(c),
    ensures
        const_value(s, pos).is_none(),
        const_entry(s, pos).is_none(),
{
    assert(run_end(s, skip_sign(s, pos), ByteClass::Digit) == pos);
}

/// Where a list starts behind an optional separator, a list gap can only be
/// a comma or a semicolon.
pub proof fn lemma_gap_at_start(s: Seq<u8>, pos: int)
    requires
        0 <= pos <= s.len(),
        skip_separator(s, pos) == pos,
        list_gap(s, pos).is_some(),
    ensures
        byte_is(s, pos, ',') || byte_is(s, pos, ';'),
{
}

/// A constant that the input without the separator holds is held by the
/// input with the separator too, and is the same.
#[verifier::rlimit(30)]
pub proof fn lemma_const_value_widened(a: Seq<u8>, b: Seq<u8>, g: int, pos: int)
    requires
        narrowed(a, b, g),
        placed(a, g, pos),
        pos != g,
        const_value(b, carried(a, b, g, pos)).is_some(),
    ensures
        const_value(b, carried(a, b, g, pos)) == carried_node(a, b, g, const_value(a, pos)),
        node_settled(a, g, pos, const_value(a, pos)),
        const_value(a, pos) matches Some((_, end)) && pos < end,
    decreases a.len() - pos, 0int,
{
    lemma_narrowed(a, b, g);
    lemma_int_constant_narrowed(a, b, g, pos);
    lemma_double_constant_narrowed(a, b, g, pos);
    lemma_literal_span_narrowed(a, b, g, pos);
    lemma_byte_narrowed(a, b, g, pos, '[');
    lemma_byte_narrowed(a, b, g, pos, '{');
    lemma_identifier_narrowed(a, b, g, pos);
    if int_constant(a, pos).is_some() {
    } else if double_constant(a, pos).is_some() {
        lemma_text_carried_narrowed(a, b, g, pos, double_constant(a, pos).unwrap());
    } else if literal_span(a, pos).is_some() {
        let (from, to, end) = literal_span(a, pos).unwrap();
        lemma_text_carried_narrowed(a, b, g, from, to);
    } else if byte_is(a, pos, '[') {
        lemma_const_list_widened(a, b, g, pos);
    } else if byte_is(a, pos, '{') {
        lemma_const_map_widened(a, b, g, pos);
    } else if identifier(a, pos).is_some() {
        lemma_text_carried_narrowed(a, b, g, pos, identifier(a, pos).unwrap());
    }
}

/// What the values of a list give, in the sense of `items_widen`.
#[verifier::rlimit(30)]
pub proof fn lemma_value_rule_widened(a: Seq<u8>, b: Seq<u8>, g: int, outer: int)
    requires
        narrowed(a, b, g),
        placed(a, g, outer),
        outer != g,
    ensures
        items_widen(
            a,
            b,
            g,
            value_rule(a, outer),
            value_rule(b, carried(a, b, g, outer)),
            list_gap_rule(b),
            ']',
        ),
        fails_at(a, value_rule(a, outer), ']'),
        fails_at(a, value_rule(a, outer), ','),
        fails_at(a, value_rule(a, outer), ';'),
    decreases a.len() - outer - 1, 1int,
{
    let item = value_rule(a, outer);
    let item2 = value_rule(b, carried(a, b, g, outer));
    assert forall|p: int|
        placed(a, g, p) && p != g && item2(carried(a, b, g, p)).is_some() implies item2(
        carried(a, b, g, p),
    ) == carried_node(a, b, g, #[trigger] item(p)) && node_settled(a, g, p, item(p)) && (item(
        p,
    ) matches Some((_, end)) ==> p < end) by {
        lemma_carried_narrowed(a, b, g, outer, p);
        if outer < p <= a.len() {
            lemma_const_value_widened(a, b, g, p);
        }
    }
    assert forall|p: int| byte_is(a, p, ']') implies (#[trigger] item(p)).is_none() by {
        lemma_const_value_fails_at(a, p, ']');
    }
    assert forall|p: int| byte_is(a, p, ',') implies (#[trigger] item(p)).is_none() by {
        lemma_const_value_fails_at(a, p, ',');
    }
    assert forall|p: int| byte_is(a, p, ';') implies (#[trigger] item(p)).is_none() by {
        lemma_const_value_fails_at(a, p, ';');
    }
}

/// A list of constants that the input without the separator holds is held by
/// the input with the separator too, and is the same.
#[verifier::rlimit(50)]
pub proof fn lemma_const_list_widened(a: Seq<u8>, b: Seq<u8>, g: int, pos: int)
    requires
        narrowed(a, b, g),
        placed(a, g, pos),
        pos != g,
        byte_is(a, pos, '['),
        const_list(b, carried(a, b, g, pos)).is_some(),
    ensures
        const_list(b, carried(a, b, g, pos)) == carried_node(a, b, g, const_list(a, pos)),
        node_settled(a, g, pos, const_list(a, pos)),
        const_list(a, pos) matches Some((_, end)) && pos < end,
    decreases a.len() - pos - 1, 2int,
{
    lemma_narrowed(a, b, g);
    lemma_byte_narrowed(a, b, g, pos, '[');
    lemma_skip_narrowed(a, b, g, pos + 1);
    let start = skip_separator(a, pos + 1);
    let start2 = carried(a, b, g, start);
    lemma_list_gaps_widen(a, b, g);
    lemma_value_rule_widened(a, b, g, pos);
    let item = value_rule(a, pos);
    let item2 = value_rule(b, carried(a, b, g, pos));
    let gap = list_gap_rule(a);
    let gap2 = list_gap_rule(b);
    let stop2 = list(b.len() as int, start2, gap2, item2).1;
    lemma_carried_narrowed(a, b, g, start, start);
    lemma_closer_behind_gap(b, stop2, ']');
    if item2(start2).is_none() {
        crate::laws::law_separator_is_maximal(b, carried(a, b, g, pos + 1));
        if gap2(start2).is_some() {
            lemma_gap_at_start(b, start2);
        }
        lemma_same_byte_back(a, b, g, start);
        assert(item(start).is_none());
    }
    lemma_list_widened(a, b, g, start, gap, item, gap2, item2, ']');
    let stop = list(a.len() as int, start, gap, item).1;
    lemma_skip_list_gap_narrowed(a, b, g, stop);
    lemma_mark_narrowed(a, b, g, skip_list_gap(a, stop), ']');
}

/// An entry of a map that the input without the separator holds is held by
/// the input with the separator too, and is the same.
pub proof fn lemma_const_entry_widened(a: Seq<u8>, b: Seq<u8>, g: int, pos: int)
    requires
        narrowed(a, b, g),
        placed(a, g, pos),
        pos != g,
        const_entry(b, carried(a, b, g, pos)).is_some(),
    ensures
        const_entry(b, carried(a, b, g, pos)) == carried_node(a, b, g, const_entry(a, pos)),
        node_settled(a, g, pos, const_entry(a, pos)),
        const_entry(a, pos) matches Some((_, end)) && pos < end,
    decreases a.len() - pos, 1int,
{
    lemma_narrowed(a, b, g);
    lemma_const_value_widened(a, b, g, pos);
    let key_end = const_value(a, pos).unwrap().1;
    lemma_mark_narrowed(a, b, g, key_end, ':');
    let colon = mark(a, key_end, ':').unwrap();
    lemma_skip_narrowed(a, b, g, colon);
    let at = skip_separator(a, colon);
    lemma_carried_narrowed(a, b, g, pos, at);
    lemma_const_value_widened(a, b, g, at);
}

/// What the entries of a map give, in the sense of `items_widen`.
#[verifier::rlimit(30)]
pub proof fn lemma_entry_rule_widened(a: Seq<u8>, b: Seq<u8>, g: int, outer: int)
    requires
        narrowed(a, b, g),
        placed(a, g, outer),
        outer != g,
    ensures
        items_widen(
            a,
            b,
            g,
            entry_rule(a, outer),
            entry_rule(b, carried(a, b, g, outer)),
            list_gap_rule(b),
            '}',
        ),
        fails_at(a, entry_rule(a, outer), '}'),
        fails_at(a, entry_rule(a, outer), ','),
        fails_at(a, entry_rule(a, outer), ';'),
    decreases a.len() - outer - 1, 2int,
{
    let item = entry_rule(a, outer);
    let item2 = entry_rule(b, carried(a, b, g, outer));
    assert forall|p: int|
        placed(a, g, p) && p != g && item2(carried(a, b, g, p)).is_some() implies item2(
        carried(a, b, g, p),
    ) == carried_node(a, b, g, #[trigger] item(p)) && node_settled(a, g, p, item(p)) && (item(
        p,
    ) matches Some((_, end)) ==> p < end) by {
        lemma_carried_narrowed(a, b, g, outer, p);
        if outer < p <= a.len() {
            lemma_const_entry_widened(a, b, g, p);
        }
    }
    assert forall|p: int| byte_is(a, p, '}') implies (#[trigger] item(p)).is_none() by {
        lemma_const_value_fails_at(a, p, '}');
    }
    assert forall|p: int| byte_is(a, p, ',') implies (#[trigger] item(p)).is_none() by {
        lemma_const_value_fails_at(a, p, ',');
    }
    assert forall|p: int| byte_is(a, p, ';') implies (#[trigger] item(p)).is_none() by {
        lemma_const_value_fails_at(a, p, ';');
    }
}

/// A map of constants that the input without the separator holds is held by
/// the input with the separator too, and is the same.
#[verifier::rlimit(50)]
pub proof fn lemma_const_map_widened(a: Seq<u8>, b: Seq<u8>, g: int, pos: int)
    requires
        narrowed(a, b, g),
        placed(a, g, pos),
        pos != g,
        byte_is(a, pos, '{'),
        const_map(b, carried(a, b, g, pos)).is_some(),
    ensures
        const_map(b, carried(a, b, g, pos)) == carried_node(a, b, g, const_map(a, pos)),
        node_settled(a, g, pos, const_map(a, pos)),
        const_map(a, pos) matches Some((_, end)) && pos < end,
    decreases a.len() - pos - 1, 3int,
{
    lemma_narrowed(a, b, g);
    lemma_byte_narrowed(a, b, g, pos, '{');
    lemma_skip_narrowed(a, b, g, pos + 1);
    let start = skip_separator(a, pos + 1);
    let start2 = carried(a, b, g, start);
    lemma_list_gaps_widen(a, b, g);
    lemma_entry_rule_widened(a, b, g, pos);
    let item = entry_rule(a, pos);
    let item2 = entry_rule(b, carried(a, b, g, pos));
    let gap = list_gap_rule(a);
    let gap2 = list_gap_rule(b);
    let stop2 = list(b.len() as int, start2, gap2, item2).1;
    lemma_carried_narrowed(a, b, g, start, start);
    lemma_closer_behind_gap(b, stop2, '}');
    if item2(start2).is_none() {
        crate::laws::law_separator_is_maximal(b, carried(a, b, g, pos + 1));
        if gap2(start2).is_some() {
            lemma_gap_at_start(b, start2);
        }
        lemma_same_byte_back(a, b, g, start);
        assert(item(start).is_none());
    }
    lemma_list_widened(a, b, g, start, gap, item, gap2, item2, '}');
    let stop = list(a.len() as int, start, gap, item).1;
    lemma_skip_list_gap_narrowed(a, b, g, stop);
    lemma_mark_narrowed(a, b, g, skip_list_gap(a, stop), '}');
}

/// The byte at a place of the input without the separator stands at the
/// place in the input with it.
pub proof fn lemma_same_byte_back(a: Seq<u8>, b: Seq<u8>, g: int, pos: int)
    requires
        narrowed(a, b, g),
        placed(a, g, pos),
        pos != g,
    ensures
        forall|c: char| byte_is(b, carried(a, b, g, pos), c) == byte_is(a, pos, c),
{
    lemma_narrowed(a, b, g);
    if pos < g {
        assert(a[pos] == b[pos]);
    }
}

/// The default of a field is the same in both inputs, where the input
/// without the separator holds one or has no `=` where one would start.
pub proof fn lemma_default_value_widened(a: Seq<u8>, b: Seq<u8>, g: int, pos: int)
    requires
        narrowed(a, b, g),
        placed(a, g, pos),
        default_value(b, carried(a, b, g, pos)).is_some() || mark(
            b,
            carried(a, b, g, pos),
            '=',
        ).is_none(),
    ensures
        default_value(b, carried(a, b, g, pos)) == carried_node(a, b, g, default_value(a, pos)),
        node_settled(a, g, pos, default_value(a, pos)),
        default_value(a, pos) matches Some((_, end)) ==> pos < end,
{
    lemma_mark_narrowed(a, b, g, pos, '=');
    match mark(a, pos, '=') {
        Some(equals) => {
            lemma_skip_narrowed(a, b, g, equals);
            lemma_const_value_widened(a, b, g, skip_separator(a, equals));
        },
        None => {},
    }
}

/// A word that stands as a keyword is a run of letters and digits.
pub proof fn lemma_run_over_word(s: Seq<u8>, pos: int, word: Seq<char>, done: int)
    requires
        keyword(s, pos, word).is_some(),
        is_plain_word(word),
        0 <= done <= word.len(),
    ensures
        run_end(s, pos + done, ByteClass::IdentChar) == pos + word.len(),
    decreases word.len() - done,
{
    reveal(text_at);
    if done < word.len() {
        assert(s[pos + done] == word[done] as u8);
        lemma_run_over_word(s, pos, word, done + 1);
    }
}

/// Whether `word` is a word of letters that starts like none of the words
/// that name a type.
pub open spec fn names_no_type(word: Seq<char>) -> bool {
    &&& is_word(word)
    &&& {
        let first = word[0] as u8;
        first != 'b' as u8 && first != 'i' as u8 && first != 'd' as u8 && first != 's' as u8
            && first != 'l' as u8 && first != 'm' as u8 && first != 'v' as u8
    }
}

/// Where such a word stands as a keyword, a type is read that is the word
/// taken as a name.
#[verifier::rlimit(50)]
pub proof fn lemma_keyword_read_as_type(s: Seq<u8>, pos: int, word: Seq<char>)
    requires
        names_no_type(word),
        keyword(s, pos, word).is_some(),
    ensures
        crate::grammar::field_type(s, pos) == Some(
            (TypeModel::Named(s.subrange(pos, pos + word.len())), pos + word.len()),
        ),
        crate::grammar::return_type(s, pos) == Some(
            (Some(TypeModel::Named(s.subrange(pos, pos + word.len()))), pos + word.len()),
        ),
{
    reveal(text_at);
    reveal_strlit("bool");
    reveal_strlit("byte");
    reveal_strlit("i8");
    reveal_strlit("i16");
    reveal_strlit("i32");
    reveal_strlit("i64");
    reveal_strlit("double");
    reveal_strlit("string");
    reveal_strlit("binary");
    reveal_strlit("list");
    reveal_strlit("set");
    reveal_strlit("map");
    reveal_strlit("void");
    assert(s[pos] == word[0] as u8);
    assert(is_letter(word[0] as u8));
    assert(text_at(s, pos, "bool"@) ==> s[pos] == "bool"@[0] as u8);
    assert(text_at(s, pos, "byte"@) ==> s[pos] == "byte"@[0] as u8);
    assert(text_at(s, pos, "i8"@) ==> s[pos] == "i8"@[0] as u8);
    assert(text_at(s, pos, "i16"@) ==> s[pos] == "i16"@[0] as u8);
    assert(text_at(s, pos, "i32"@) ==> s[pos] == "i32"@[0] as u8);
    assert(text_at(s, pos, "i64"@) ==> s[pos] == "i64"@[0] as u8);
    assert(text_at(s, pos, "double"@) ==> s[pos] == "double"@[0] as u8);
    assert(text_at(s, pos, "string"@) ==> s[pos] == "string"@[0] as u8);
    assert(text_at(s, pos, "binary"@) ==> s[pos] == "binary"@[0] as u8);
    assert(text_at(s, pos, "list"@) ==> s[pos] == "list"@[0] as u8);
    assert(text_at(s, pos, "set"@) ==> s[pos] == "set"@[0] as u8);
    assert(text_at(s, pos, "map"@) ==> s[pos] == "map"@[0] as u8);
    assert(text_at(s, pos, "void"@) ==> s[pos] == "void"@[0] as u8);
    lemma_run_over_word(s, pos, word, 1);
    assert(crate::grammar::base_type(s, pos).is_none());
    assert(crate::grammar::container_type(s, pos).is_none());
    assert(crate::grammar::identifier(s, pos) == Some(pos + word.len()));
}

/// No field, function or member of an enum starts with a byte that closes a
/// list or parts its elements.
#[verifier::rlimit(50)]
pub proof fn lemma_items_fail_at(s: Seq<u8>, pos: int, c: char)
    requires
        byte_is(s, pos, c),
        is_closing(c),
    ensures
        field(s, pos).is_none(),
        member(s, pos).is_none(),
        function(s, pos).is_none(),
        service_member(s, pos).is_none(),
        crate::grammar::enum_value(s, pos).is_none(),
        crate::grammar::field_type(s, pos).is_none(),
{
    reveal(text_at);
    reveal_strlit("bool");
    reveal_strlit("byte");
    reveal_strlit("i8");
    reveal_strlit("i16");
    reveal_strlit("i32");
    reveal_strlit("i64");
    reveal_strlit("double");
    reveal_strlit("string");
    reveal_strlit("binary");
    reveal_strlit("list");
    reveal_strlit("set");
    reveal_strlit("map");
    reveal_strlit("void");
    reveal_strlit("required");
    reveal_strlit("optional");
    reveal_strlit("oneway");
    assert(text_at(s, pos, "bool"@) ==> s[pos] == "bool"@[0] as u8);
    assert(text_at(s, pos, "byte"@) ==> s[pos] == "byte"@[0] as u8);
    assert(text_at(s, pos, "i8"@) ==> s[pos] == "i8"@[0] as u8);
    assert(text_at(s, pos, "i16"@) ==> s[pos] == "i16"@[0] as u8);
    assert(text_at(s, pos, "i32"@) ==> s[pos] == "i32"@[0] as u8);
    assert(text_at(s, pos, "i64"@) ==> s[pos] == "i64"@[0] as u8);
    assert(text_at(s, pos, "double"@) ==> s[pos] == "double"@[0] as u8);
    assert(text_at(s, pos, "string"@) ==> s[pos] == "string"@[0] as u8);
    assert(text_at(s, pos, "binary"@) ==> s[pos] == "binary"@[0] as u8);
    assert(text_at(s, pos, "list"@) ==> s[pos] == "list"@[0] as u8);
    assert(text_at(s, pos, "set"@) ==> s[pos] == "set"@[0] as u8);
    assert(text_at(s, pos, "map"@) ==> s[pos] == "map"@[0] as u8);
    assert(text_at(s, pos, "void"@) ==> s[pos] == "void"@[0] as u8);
    assert(text_at(s, pos, "required"@) ==> s[pos] == "required"@[0] as u8);
    assert(text_at(s, pos, "optional"@) ==> s[pos] == "optional"@[0] as u8);
    assert(text_at(s, pos, "oneway"@) ==> s[pos] == "oneway"@[0] as u8);
    assert(run_end(s, skip_sign(s, pos), ByteClass::Digit) == pos);
    assert(crate::grammar::field_type(s, pos).is_none());
    assert(crate::grammar::int_constant(s, pos).is_none());
}

/// The keywords that a type could be taken for start like none of the words
/// that name a type.
pub proof fn lemma_words_name_no_type()
    ensures
        names_no_type("required"@),
        names_no_type("optional"@),
        names_no_type("oneway"@),
        names_no_type("throws"@),
        names_no_type("extends"@),
{
    reveal_strlit("required");
    reveal_strlit("optional");
    reveal_strlit("oneway");
    reveal_strlit("throws");
    reveal_strlit("extends");
}

/// Of `required` and `optional`, only one stands at a place.
pub proof fn lemma_one_requiredness(s: Seq<u8>, pos: int)
    ensures
        !(keyword(s, pos, "required"@).is_some() && keyword(s, pos, "optional"@).is_some()),
{
    reveal(text_at);
    reveal_strlit("required");
    reveal_strlit("optional");
    assert(text_at(s, pos, "required"@) ==> s[pos] == "required"@[0] as u8);
    assert(text_at(s, pos, "optional"@) ==> s[pos] == "optional"@[0] as u8);
}

/// A field that the input without the separator holds, with no `=` behind
/// it, is held by the input with the separator too, and is the same.
#[verifier::rlimit(80)]
pub proof fn lemma_field_widened(a: Seq<u8>, b: Seq<u8>, g: int, pos: int)
    requires
        narrowed(a, b, g),
        placed(a, g, pos),
        pos != g,
        field(b, carried(a, b, g, pos)) matches Some((_, end)) && mark(b, end, '=').is_none(),
    ensures
        field(b, carried(a, b, g, pos)) == carried_node(a, b, g, field(a, pos)),
        node_settled(a, g, pos, field(a, pos)),
        field(a, pos) matches Some((_, end)) && pos < end,
{
    lemma_narrowed(a, b, g);
    lemma_plain_words();
    lemma_words_name_no_type();
    lemma_field_id_narrowed(a, b, g, pos);
    let (id, after_id) = optional(crate::grammar::field_id(a, pos), pos);
    lemma_keyword_narrowed(a, b, g, after_id, "required"@);
    lemma_keyword_narrowed(a, b, g, after_id, "optional"@);
    lemma_one_requiredness(b, carried(a, b, g, after_id));
    if keyword(a, after_id, "required"@) == Some(g) {
        lemma_keyword_read_as_type(b, carried(a, b, g, after_id), "required"@);
        assert(false);
    } else if keyword(a, after_id, "optional"@) == Some(g) {
        lemma_keyword_read_as_type(b, carried(a, b, g, after_id), "optional"@);
        assert(false);
    } else {
        lemma_spaced_keyword_narrowed(a, b, g, after_id, "required"@);
        lemma_spaced_keyword_narrowed(a, b, g, after_id, "optional"@);
        let (required, after_required) = optional(requiredness(a, after_id), after_id);
        lemma_field_type_narrowed(a, b, g, after_required);
        let type_end = crate::grammar::field_type(a, after_required).unwrap().1;
        lemma_separator_widened(a, b, g, type_end);
        let name_start = separator(a, type_end).unwrap();
        lemma_identifier_narrowed(a, b, g, name_start);
        let name_end = identifier(a, name_start).unwrap();
        lemma_text_carried_narrowed(a, b, g, name_start, name_end);
        lemma_default_value_widened(a, b, g, name_end);
    }
}

/// Where a list of fields goes on or closes behind a field, no `=` stands
/// behind the field.
#[verifier::rlimit(30)]
pub proof fn lemma_no_default_behind_field(s: Seq<u8>, at: int)
    requires
        goes_on(s, at, list_gap_rule(s), field_rule(s), ')'),
    ensures
        mark(s, at, '=').is_none(),
{
    reveal(text_at);
    let q = skip_separator(s, at);
    if 0 <= at <= s.len() {
        crate::locality::lemma_skip_separator_local(s, s, 0, at);
    }
    if byte_is(s, q, '=') {
        lemma_items_fail_at(s, q, '=');
        assert(list_separator(s, q).is_none());
        assert(list_gap_rule(s)(at) == list_gap(s, at));
        assert(field_rule(s)(q) == field(s, q));
        assert(false);
    }
}

/// Where the fields of a struct go on or close behind a field, no `=` stands
/// behind the field.
#[verifier::rlimit(30)]
pub proof fn lemma_no_default_behind_member(s: Seq<u8>, field_end: int)
    requires
        goes_on(s, skip_terminator(s, field_end), separator_rule(s), member_rule(s), '}'),
    ensures
        mark(s, field_end, '=').is_none(),
{
    reveal(text_at);
    let q = skip_separator(s, field_end);
    if 0 <= field_end <= s.len() {
        crate::locality::lemma_skip_separator_local(s, s, 0, field_end);
    }
    if byte_is(s, q, '=') {
        lemma_items_fail_at(s, q, '=');
        assert(list_separator(s, q).is_none());
        assert(skip_terminator(s, field_end) == field_end);
        assert(separator_rule(s)(field_end) == separator(s, field_end));
        assert(member_rule(s)(q) == member(s, q));
        assert(false);
    }
}

/// A field of a struct that the input without the separator holds, with no
/// `=` behind it, is held by the input with the separator too.
pub proof fn lemma_member_widened(a: Seq<u8>, b: Seq<u8>, g: int, pos: int)
    requires
        narrowed(a, b, g),
        placed(a, g, pos),
        pos != g,
        field(b, carried(a, b, g, pos)) matches Some((_, end)) && mark(b, end, '=').is_none(),
    ensures
        member(b, carried(a, b, g, pos)) == carried_node(a, b, g, member(a, pos)),
        node_settled(a, g, pos, member(a, pos)),
        member(a, pos) matches Some((_, end)) && pos < end,
{
    lemma_field_widened(a, b, g, pos);
    lemma_skip_terminator_narrowed(a, b, g, field(a, pos).unwrap().1);
}

/// What the fields in round brackets give, in the sense of `items_widen`.
#[verifier::rlimit(30)]
pub proof fn lemma_field_rule_widened(a: Seq<u8>, b: Seq<u8>, g: int)
    requires
        narrowed(a, b, g),
    ensures
        items_widen(a, b, g, field_rule(a), field_rule(b), list_gap_rule(b), ')'),
        fails_at(a, field_rule(a), ')'),
        fails_at(a, field_rule(a), ','),
        fails_at(a, field_rule(a), ';'),
{
    let item = field_rule(a);
    let item2 = field_rule(b);
    assert forall|p: int|
        placed(a, g, p) && p != g && item2(carried(a, b, g, p)).is_some() && goes_on(
            b,
            item2(carried(a, b, g, p)).unwrap().1,
            list_gap_rule(b),
            item2,
            ')',
        ) implies item2(carried(a, b, g, p)) == carried_node(a, b, g, #[trigger] item(p))
        && node_settled(a, g, p, item(p)) && (item(p) matches Some((_, end)) ==> p < end) by {
        lemma_no_default_behind_field(b, item2(carried(a, b, g, p)).unwrap().1);
        lemma_field_widened(a, b, g, p);
    }
    assert forall|p: int| byte_is(a, p, ')') implies (#[trigger] item(p)).is_none() by {
        lemma_items_fail_at(a, p, ')');
    }
    assert forall|p: int| byte_is(a, p, ',') implies (#[trigger] item(p)).is_none() by {
        lemma_items_fail_at(a, p, ',');
    }
    assert forall|p: int| byte_is(a, p, ';') implies (#[trigger] item(p)).is_none() by {
        lemma_items_fail_at(a, p, ';');
    }
}

/// What the fields of a struct give, in the sense of `items_widen`.
#[verifier::rlimit(30)]
pub proof fn lemma_member_rule_widened(a: Seq<u8>, b: Seq<u8>, g: int)
    requires
        narrowed(a, b, g),
    ensures
        items_widen(a, b, g, member_rule(a), member_rule(b), separator_rule(b), '}'),
        fails_at(a, member_rule(a), '}'),
{
    let item = member_rule(a);
    let item2 = member_rule(b);
    assert forall|p: int|
        placed(a, g, p) && p != g && item2(carried(a, b, g, p)).is_some() && goes_on(
            b,
            item2(carried(a, b, g, p)).unwrap().1,
            separator_rule(b),
            item2,
            '}',
        ) implies item2(carried(a, b, g, p)) == carried_node(a, b, g, #[trigger] item(p))
        && node_settled(a, g, p, item(p)) && (item(p) matches Some((_, end)) ==> p < end) by {
        let field_end = field(b, carried(a, b, g, p)).unwrap().1;
        lemma_no_default_behind_member(b, field_end);
        lemma_member_widened(a, b, g, p);
    }
    assert forall|p: int| byte_is(a, p, '}') implies (#[trigger] item(p)).is_none() by {
        lemma_items_fail_at(a, p, '}');
    }
}

/// Fields in round brackets that the input without the separator holds are
/// held by the input with the separator too, and are the same.
#[verifier::rlimit(50)]
pub proof fn lemma_field_list_widened(a: Seq<u8>, b: Seq<u8>, g: int, pos: int)
    requires
        narrowed(a, b, g),
        placed(a, g, pos),
        field_list(b, carried(a, b, g, pos)).is_some(),
    ensures
        field_list(b, carried(a, b, g, pos)) == carried_node(a, b, g, field_list(a, pos)),
        node_settled(a, g, pos, field_list(a, pos)),
        field_list(a, pos) matches Some((_, end)) && pos < end,
{
    lemma_narrowed(a, b, g);
    lemma_mark_narrowed(a, b, g, pos, '(');
    let open = mark(a, pos, '(').unwrap();
    lemma_skip_narrowed(a, b, g, open);
    let start = skip_separator(a, open);
    let start2 = carried(a, b, g, start);
    lemma_list_gaps_widen(a, b, g);
    lemma_field_rule_widened(a, b, g);
    let item = field_rule(a);
    let item2 = field_rule(b);
    let gap = list_gap_rule(a);
    let gap2 = list_gap_rule(b);
    let stop2 = list(b.len() as int, start2, gap2, item2).1;
    lemma_carried_narrowed(a, b, g, start, start);
    lemma_closer_behind_gap(b, stop2, ')');
    if item2(start2).is_none() {
        crate::laws::law_separator_is_maximal(b, carried(a, b, g, open));
        if gap2(start2).is_some() {
            lemma_gap_at_start(b, start2);
        }
        lemma_same_byte_back(a, b, g, start);
        assert(item(start).is_none());
    }
    lemma_list_widened(a, b, g, start, gap, item, gap2, item2, ')');
    let stop = list(a.len() as int, start, gap, item).1;
    lemma_skip_list_gap_narrowed(a, b, g, stop);
    lemma_mark_narrowed(a, b, g, skip_list_gap(a, stop), ')');
}

/// Whether `throws` and an opening bracket stand behind `at`, as a throws
/// clause would start.
pub open spec fn throws_opens(s: Seq<u8>, at: int) -> bool {
    keyword(s, skip_separator(s, at), "throws"@) matches Some(after) && mark(
        s,
        after,
        '(',
    ).is_some()
}

/// The throws clause is the same in both inputs, where the input without the
/// separator holds one or holds no start of one.
#[verifier::rlimit(30)]
pub proof fn lemma_throws_widened(a: Seq<u8>, b: Seq<u8>, g: int, pos: int)
    requires
        narrowed(a, b, g),
        placed(a, g, pos),
        throws(b, carried(a, b, g, pos)).is_some() || !throws_opens(b, carried(a, b, g, pos)),
    ensures
        throws(b, carried(a, b, g, pos)) == carried_node(a, b, g, throws(a, pos)),
        node_settled(a, g, pos, throws(a, pos)),
{
    lemma_narrowed(a, b, g);
    lemma_plain_words();
    lemma_skip_narrowed(a, b, g, pos);
    let at = skip_separator(a, pos);
    lemma_keyword_narrowed(a, b, g, at, "throws"@);
    match keyword(a, at, "throws"@) {
        Some(after) => {
            lemma_mark_narrowed(a, b, g, after, '(');
            if throws(b, carried(a, b, g, pos)).is_some() {
                lemma_field_list_widened(a, b, g, after);
            }
        },
        None => {},
    }
}

/// A function that the input without the separator holds, with no start of
/// a throws clause behind it, is held by the input with the separator too,
/// and is the same.
#[verifier::rlimit(80)]
pub proof fn lemma_function_widened(a: Seq<u8>, b: Seq<u8>, g: int, pos: int)
    requires
        narrowed(a, b, g),
        placed(a, g, pos),
        pos != g,
        function(b, carried(a, b, g, pos)) matches Some((_, end)) && !throws_opens(b, end),
    ensures
        function(b, carried(a, b, g, pos)) == carried_node(a, b, g, function(a, pos)),
        node_settled(a, g, pos, function(a, pos)),
        function(a, pos) matches Some((_, end)) && pos < end,
{
    lemma_narrowed(a, b, g);
    lemma_plain_words();
    lemma_words_name_no_type();
    lemma_keyword_narrowed(a, b, g, pos, "oneway"@);
    if keyword(a, pos, "oneway"@) == Some(g) {
        lemma_keyword_read_as_type(b, carried(a, b, g, pos), "oneway"@);
        assert(false);
    } else {
        lemma_spaced_keyword_narrowed(a, b, g, pos, "oneway"@);
        let start = match spaced_keyword(a, pos, "oneway"@) {
            Some(end) => end,
            None => pos,
        };
        lemma_return_type_narrowed(a, b, g, start);
        let returned_end = return_type(a, start).unwrap().1;
        lemma_separator_widened(a, b, g, returned_end);
        let name_start = separator(a, returned_end).unwrap();
        lemma_identifier_narrowed(a, b, g, name_start);
        let name_end = identifier(a, name_start).unwrap();
        lemma_text_carried_narrowed(a, b, g, name_start, name_end);
        lemma_field_list_widened(a, b, g, name_end);
        let parameters_end = field_list(a, name_end).unwrap().1;
        lemma_throws_widened(a, b, g, parameters_end);
    }
}

/// A function of a service that the input without the separator holds, with
/// no start of a throws clause behind it, is held by the input with the
/// separator too.
pub proof fn lemma_service_member_widened(a: Seq<u8>, b: Seq<u8>, g: int, pos: int)
    requires
        narrowed(a, b, g),
        placed(a, g, pos),
        pos != g,
        function(b, carried(a, b, g, pos)) matches Some((_, end)) && !throws_opens(b, end),
    ensures
        service_member(b, carried(a, b, g, pos)) == carried_node(
            a,
            b,
            g,
            service_member(a, pos),
        ),
        node_settled(a, g, pos, service_member(a, pos)),
        service_member(a, pos) matches Some((_, end)) && pos < end,
{
    lemma_function_widened(a, b, g, pos);
    lemma_skip_terminator_narrowed(a, b, g, function(a, pos).unwrap().1);
}

/// Where the functions of a service go on or close behind a function, no
/// throws clause starts behind the function.
#[verifier::rlimit(50)]
pub proof fn lemma_no_throws_behind(s: Seq<u8>, function_end: int)
    requires
        goes_on(
            s,
            skip_terminator(s, function_end),
            separator_rule(s),
            service_member_rule(s),
            '}',
        ),
    ensures
        !throws_opens(s, function_end),
{
    reveal(text_at);
    reveal_strlit("throws");
    reveal_strlit("oneway");
    lemma_words_name_no_type();
    let q = skip_separator(s, function_end);
    if 0 <= function_end <= s.len() {
        crate::locality::lemma_skip_separator_local(s, s, 0, function_end);
    }
    if throws_opens(s, function_end) {
        let after = keyword(s, q, "throws"@).unwrap();
        assert(s[q] == "throws"@[0] as u8);
        assert(text_at(s, q, "oneway"@) ==> s[q] == "oneway"@[0] as u8);
        assert(list_separator(s, q).is_none());
        assert(skip_terminator(s, function_end) == function_end);
        assert(separator_rule(s)(function_end) == separator(s, function_end));
        assert(service_member_rule(s)(q) == service_member(s, q));
        lemma_keyword_read_as_type(s, q, "throws"@);
        assert(spaced_keyword(s, q, "oneway"@).is_none());
        let n = skip_separator(s, after);
        assert(byte_is(s, n, '('));
        assert(identifier(s, n).is_none());
        assert(function(s, q).is_none());
        assert(false);
    }
}

/// What the functions of a service give, in the sense of `items_widen`.
#[verifier::rlimit(30)]
pub proof fn lemma_service_member_rule_widened(a: Seq<u8>, b: Seq<u8>, g: int)
    requires
        narrowed(a, b, g),
    ensures
        items_widen(
            a,
            b,
            g,
            service_member_rule(a),
            service_member_rule(b),
            separator_rule(b),
            '}',
        ),
        fails_at(a, service_member_rule(a), '}'),
{
    let item = service_member_rule(a);
    let item2 = service_member_rule(b);
    assert forall|p: int|
        placed(a, g, p) && p != g && item2(carried(a, b, g, p)).is_some() && goes_on(
            b,
            item2(carried(a, b, g, p)).unwrap().1,
            separator_rule(b),
            item2,
            '}',
        ) implies item2(carried(a, b, g, p)) == carried_node(a, b, g, #[trigger] item(p))
        && node_settled(a, g, p, item(p)) && (item(p) matches Some((_, end)) ==> p < end) by {
        let function_end = function(b, carried(a, b, g, p)).unwrap().1;
        lemma_no_throws_behind(b, function_end);
        lemma_service_member_widened(a, b, g, p);
    }
    assert forall|p: int| byte_is(a, p, '}') implies (#[trigger] item(p)).is_none() by {
        lemma_items_fail_at(a, p, '}');
    }
}

/// What the members of an enum give, in the sense of `items_widen`.
#[verifier::rlimit(30)]
pub proof fn lemma_enum_value_rule_widened(a: Seq<u8>, b: Seq<u8>, g: int)
    requires
        narrowed(a, b, g),
    ensures
        items_widen(a, b, g, enum_value_rule(a), enum_value_rule(b), list_gap_rule(b), '}'),
        fails_at(a, enum_value_rule(a), '}'),
        fails_at(a, enum_value_rule(a), ','),
        fails_at(a, enum_value_rule(a), ';'),
{
    let item = enum_value_rule(a);
    let item2 = enum_value_rule(b);
    assert forall|p: int|
        placed(a, g, p) && p != g && item2(carried(a, b, g, p)).is_some() implies item2(
        carried(a, b, g, p),
    ) == carried_node(a, b, g, #[trigger] item(p)) && node_settled(a, g, p, item(p)) && (item(
        p,
    ) matches Some((_, end)) ==> p < end) by {
        lemma_enum_value_narrowed(a, b, g, p);
        lemma_identifier_narrowed(a, b, g, p);
        assert(item(p) == crate::grammar::enum_value(a, p));
        assert(item2(carried(a, b, g, p)) == crate::grammar::enum_value(
            b,
            carried(a, b, g, p),
        ));
        match identifier(a, p) {
            Some(name_end) => {
                lemma_mark_narrowed(a, b, g, name_end, '=');
                match mark(a, name_end, '=') {
                    Some(equals) => {
                        lemma_skip_narrowed(a, b, g, equals);
                        lemma_int_constant_narrowed(a, b, g, skip_separator(a, equals));
                    },
                    None => {},
                }
            },
            None => {},
        }
    }
    assert forall|p: int| byte_is(a, p, '}') implies (#[trigger] item(p)).is_none() by {
        lemma_items_fail_at(a, p, '}');
    }
    assert forall|p: int| byte_is(a, p, ',') implies (#[trigger] item(p)).is_none() by {
        lemma_items_fail_at(a, p, ',');
    }
    assert forall|p: int| byte_is(a, p, ';') implies (#[trigger] item(p)).is_none() by {
        lemma_items_fail_at(a, p, ';');
    }
}

/// The service that a service extends is the same in both inputs.
#[verifier::rlimit(30)]
pub proof fn lemma_extension_narrowed(a: Seq<u8>, b: Seq<u8>, g: int, pos: int)
    requires
        narrowed(a, b, g),
        placed(a, g, pos),
        pos != g,
    ensures
        extension(b, carried(a, b, g, pos)) == carried_node(a, b, g, extension(a, pos)),
        node_settled(a, g, pos, extension(a, pos)),
        extension(a, pos) matches Some((_, end)) ==> end != g && pos < end,
{
    lemma_narrowed(a, b, g);
    lemma_plain_words();
    lemma_keyword_narrowed(a, b, g, pos, "extends"@);
    if keyword(a, pos, "extends"@) == Some(g) {
        let after = skip_separator(a, g);
        crate::locality::lemma_identifier_local(a, b, longer(a, b, g), after);
        reveal(text_at);
        reveal_strlit("extends");
        let last = "extends"@.len() - 1;
        assert(a[pos + last] == "extends"@[last] as u8);
        assert(is_ident_char(b[g - 1]));
    } else {
        lemma_spaced_keyword_narrowed(a, b, g, pos, "extends"@);
        match spaced_keyword(a, pos, "extends"@) {
            Some(name_start) => {
                lemma_identifier_narrowed(a, b, g, name_start);
                match identifier(a, name_start) {
                    Some(name_end) => {
                        lemma_text_carried_narrowed(a, b, g, name_start, name_end);
                        lemma_skip_narrowed(a, b, g, name_end);
                    },
                    None => {},
                }
            },
            None => {},
        }
    }
}

/// What follows the head of a constant definition that the input without
/// the separator holds is held by the input with the separator too.
#[verifier::rlimit(80)]
pub proof fn lemma_const_definition_widened(a: Seq<u8>, b: Seq<u8>, g: int)
    requires
        narrowed(a, b, g),
        definition_head(b, 0, "const"@) == carried_node(a, b, g, definition_head(a, 0, "const"@)),
        definition_head(a, 0, "const"@) matches Some((_, start)) ==> placed(a, g, start) && start
            != g,
        const_definition(b, 0).is_some(),
    ensures
        const_definition(b, 0) == carried_node(a, b, g, const_definition(a, 0)),
        const_definition(a, 0).is_some(),
{
    lemma_narrowed(a, b, g);
    let start = definition_head(a, 0, "const"@).unwrap().1;
    lemma_field_type_narrowed(a, b, g, start);
    let type_end = field_type(a, start).unwrap().1;
    lemma_separator_widened(a, b, g, type_end);
    let name_start = separator(a, type_end).unwrap();
    lemma_identifier_narrowed(a, b, g, name_start);
    let name_end = identifier(a, name_start).unwrap();
    lemma_text_carried_narrowed(a, b, g, name_start, name_end);
    lemma_default_value_widened(a, b, g, name_end);
    lemma_skip_terminator_narrowed(a, b, g, default_value(a, name_end).unwrap().1);
}

/// What follows the head of a type definition that the input without the
/// separator holds is held by the input with the separator too.
#[verifier::rlimit(80)]
pub proof fn lemma_typedef_definition_widened(a: Seq<u8>, b: Seq<u8>, g: int)
    requires
        narrowed(a, b, g),
        definition_head(b, 0, "typedef"@) == carried_node(
            a,
            b,
            g,
            definition_head(a, 0, "typedef"@),
        ),
        definition_head(a, 0, "typedef"@) matches Some((_, start)) ==> placed(a, g, start)
            && start != g,
        typedef_definition(b, 0).is_some(),
    ensures
        typedef_definition(b, 0) == carried_node(a, b, g, typedef_definition(a, 0)),
        typedef_definition(a, 0).is_some(),
{
    lemma_narrowed(a, b, g);
    let start = definition_head(a, 0, "typedef"@).unwrap().1;
    lemma_definition_type_narrowed(a, b, g, start);
    let old_end = definition_type(a, start).unwrap().1;
    lemma_separator_widened(a, b, g, old_end);
    let alias_start = separator(a, old_end).unwrap();
    lemma_identifier_narrowed(a, b, g, alias_start);
    let end = identifier(a, alias_start).unwrap();
    lemma_text_carried_narrowed(a, b, g, alias_start, end);
}

/// What follows the head of an enum that the input without the separator
/// holds is held by the input with the separator too.
#[verifier::rlimit(80)]
pub proof fn lemma_enum_definition_widened(a: Seq<u8>, b: Seq<u8>, g: int)
    requires
        narrowed(a, b, g),
        definition_head(b, 0, "enum"@) == carried_node(a, b, g, definition_head(a, 0, "enum"@)),
        definition_head(a, 0, "enum"@) matches Some((_, start)) ==> placed(a, g, start) && start
            != g,
        enum_definition(b, 0).is_some(),
    ensures
        enum_definition(b, 0) == carried_node(a, b, g, enum_definition(a, 0)),
        enum_definition(a, 0).is_some(),
{
    lemma_narrowed(a, b, g);
    let name_start = definition_head(a, 0, "enum"@).unwrap().1;
    lemma_identifier_narrowed(a, b, g, name_start);
    let name_end = identifier(a, name_start).unwrap();
    lemma_text_carried_narrowed(a, b, g, name_start, name_end);
    lemma_mark_narrowed(a, b, g, name_end, '{');
    let open = mark(a, name_end, '{').unwrap();
    lemma_skip_narrowed(a, b, g, open);
    let start = skip_separator(a, open);
    let start2 = carried(a, b, g, start);
    lemma_list_gaps_widen(a, b, g);
    lemma_enum_value_rule_widened(a, b, g);
    let item = enum_value_rule(a);
    let item2 = enum_value_rule(b);
    let gap = list_gap_rule(a);
    let gap2 = list_gap_rule(b);
    let stop2 = list(b.len() as int, start2, gap2, item2).1;
    lemma_carried_narrowed(a, b, g, start, start);
    lemma_closer_behind_gap(b, stop2, '}');
    if item2(start2).is_none() {
        crate::laws::law_separator_is_maximal(b, carried(a, b, g, open));
        if gap2(start2).is_some() {
            lemma_gap_at_start(b, start2);
        }
        lemma_same_byte_back(a, b, g, start);
        assert(item(start).is_none());
    }
    lemma_list_widened(a, b, g, start, gap, item, gap2, item2, '}');
    let stop = list(a.len() as int, start, gap, item).1;
    lemma_skip_list_gap_narrowed(a, b, g, stop);
    lemma_mark_narrowed(a, b, g, skip_list_gap(a, stop), '}');
}

/// What follows the head of a struct, union or exception that the input
/// without the separator holds is held by the input with the separator too.
#[verifier::rlimit(80)]
pub proof fn lemma_record_definition_widened(a: Seq<u8>, b: Seq<u8>, g: int, word: Seq<char>)
    requires
        narrowed(a, b, g),
        definition_head(b, 0, word) == carried_node(a, b, g, definition_head(a, 0, word)),
        definition_head(a, 0, word) matches Some((_, start)) ==> placed(a, g, start) && start
            != g,
        record_definition(b, 0, word).is_some(),
    ensures
        record_definition(b, 0, word) == carried_node(a, b, g, record_definition(a, 0, word)),
        record_definition(a, 0, word).is_some(),
{
    lemma_narrowed(a, b, g);
    let name_start = definition_head(a, 0, word).unwrap().1;
    lemma_identifier_narrowed(a, b, g, name_start);
    let name_end = identifier(a, name_start).unwrap();
    lemma_text_carried_narrowed(a, b, g, name_start, name_end);
    lemma_mark_narrowed(a, b, g, name_end, '{');
    let open = mark(a, name_end, '{').unwrap();
    lemma_skip_narrowed(a, b, g, open);
    let start = skip_separator(a, open);
    let start2 = carried(a, b, g, start);
    lemma_separators_widen(a, b, g);
    lemma_member_rule_widened(a, b, g);
    let item = member_rule(a);
    let item2 = member_rule(b);
    let gap = separator_rule(a);
    let gap2 = separator_rule(b);
    let stop2 = list(b.len() as int, start2, gap2, item2).1;
    lemma_carried_narrowed(a, b, g, start, start);
    lemma_closer_behind_separator(b, stop2, '}');
    if item2(start2).is_none() {
        crate::laws::law_separator_is_maximal(b, carried(a, b, g, open));
        lemma_same_byte_back(a, b, g, start);
        assert(item(start).is_none());
    }
    lemma_list_widened(a, b, g, start, gap, item, gap2, item2, '}');
    let stop = list(a.len() as int, start, gap, item).1;
    lemma_mark_narrowed(a, b, g, stop, '}');
}

/// What follows the head of a service that the input without the separator
/// holds is held by the input with the separator too.
#[verifier::rlimit(80)]
pub proof fn lemma_service_definition_widened(a: Seq<u8>, b: Seq<u8>, g: int)
    requires
        narrowed(a, b, g),
        definition_head(b, 0, "service"@) == carried_node(
            a,
            b,
            g,
            definition_head(a, 0, "service"@),
        ),
        definition_head(a, 0, "service"@) matches Some((_, start)) ==> placed(a, g, start)
            && start != g,
        service_definition(b, 0).is_some(),
    ensures
        service_definition(b, 0) == carried_node(a, b, g, service_definition(a, 0)),
        service_definition(a, 0).is_some(),
{
    lemma_narrowed(a, b, g);
    let name_start = definition_head(a, 0, "service"@).unwrap().1;
    lemma_identifier_narrowed(a, b, g, name_start);
    let name_end = identifier(a, name_start).unwrap();
    lemma_text_carried_narrowed(a, b, g, name_start, name_end);
    lemma_skip_narrowed(a, b, g, name_end);
    let after_name = skip_separator(a, name_end);
    lemma_extension_narrowed(a, b, g, after_name);
    let (base, open) = optional(extension(a, after_name), after_name);
    lemma_byte_narrowed(a, b, g, open, '{');
    lemma_skip_narrowed(a, b, g, open + 1);
    let start = skip_separator(a, open + 1);
    let start2 = carried(a, b, g, start);
    lemma_separators_widen(a, b, g);
    lemma_service_member_rule_widened(a, b, g);
    let item = service_member_rule(a);
    let item2 = service_member_rule(b);
    let gap = separator_rule(a);
    let gap2 = separator_rule(b);
    let stop2 = list(b.len() as int, start2, gap2, item2).1;
    lemma_carried_narrowed(a, b, g, start, start);
    lemma_closer_behind_separator(b, stop2, '}');
    if item2(start2).is_none() {
        crate::laws::law_separator_is_maximal(b, carried(a, b, g, open + 1));
        lemma_same_byte_back(a, b, g, start);
        assert(item(start).is_none());
    }
    lemma_list_widened(a, b, g, start, gap, item, gap2, item2, '}');
    let stop = list(a.len() as int, start, gap, item).1;
    lemma_mark_narrowed(a, b, g, stop, '}');
}

/// A place that is reached piece by piece in one input is reached in every
/// input that starts alike up to the place.
#[verifier::rlimit(50)]
pub proof fn lemma_reaches_agrees(n: Seq<u8>, x: Seq<u8>, g: int, pos: int)
    requires
        same_start(n, x, g),
        reaches(n, pos, g),
    ensures
        reaches(x, pos, g),
    decreases g - pos,
{
    if pos < g {
        reveal(text_at);
        reveal_strlit("//");
        reveal_strlit("/*");
        assert(n[pos] == x[pos]);
        let end = piece_end(n, pos).unwrap();
        if is_whitespace(n[pos]) {
        } else if n[pos] == '/' as u8 || n[pos] == '#' as u8 {
            crate::locality::lemma_comment_span_local(n, n, 0, pos);
            if text_at(n, pos, "//"@) {
                assert(n[pos + 1] == "//"@[1] as u8);
                assert(n[pos + 1] == x[pos + 1]);
                assert(text_at(x, pos, "//"@));
                lemma_run_end_agrees(n, x, g, pos + 2, ByteClass::LineText);
            } else if text_at(n, pos, "/*"@) {
                assert(n[pos + 1] == "/*"@[1] as u8);
                crate::locality::lemma_find_block_end_local(n, n, 0, pos + 2);
                assert(n[pos + 1] == x[pos + 1]);
                assert(text_at(x, pos, "/*"@));
                assert(!text_at(x, pos, "//"@)) by {
                    assert(text_at(x, pos, "//"@) ==> x[pos + 1] == "//"@[1] as u8);
                }
                lemma_block_end_agrees(n, x, g, pos + 2);
            } else {
                assert(!text_at(x, pos, "//"@)) by {
                    assert(text_at(x, pos, "//"@) ==> x[pos] == "//"@[0] as u8);
                }
                assert(!text_at(x, pos, "/*"@)) by {
                    assert(text_at(x, pos, "/*"@) ==> x[pos] == "/*"@[0] as u8);
                }
                lemma_run_end_agrees(n, x, g, pos + 1, ByteClass::LineText);
            }
            assert(comment_span(x, pos) == comment_span(n, pos));
        } else if n[pos] == '"' as u8 {
            crate::locality::lemma_quoted_span_local(n, n, 0, pos, '"');
            lemma_find_byte_agrees(n, x, g, pos + 1, '"' as u8);
        } else if n[pos] == '\'' as u8 {
            crate::locality::lemma_quoted_span_local(n, n, 0, pos, '\'');
            lemma_find_byte_agrees(n, x, g, pos + 1, '\'' as u8);
        }
        assert(piece_end(x, pos) == Some(end));
        lemma_reaches_agrees(n, x, g, end);
    }
}

/// Whether a separator may be put in at `g` into the definition with the
/// keyword `word` that starts `n`: `g` lies behind the keyword, between two
/// pieces of the text that touch and do not run together.
pub open spec fn may_be_parted(n: Seq<u8>, g: int, word: Seq<char>) -> bool {
    &&& is_word(word)
    &&& keyword(n, doc_comment(n, 0).1, word).is_some()
    &&& reaches(n, keyword_end(n, word), g)
    &&& skip_separator(n, g) == g
    &&& apart(n, g)
}

/// An input with whitespace and comments put in at such a place is the
/// input with a separator of which it is the input without, and the head of
/// the definition is the same.
#[verifier::rlimit(50)]
pub proof fn lemma_parted(n: Seq<u8>, g: int, sep: Seq<u8>, word: Seq<char>)
    requires
        may_be_parted(n, g, word),
        separator_text(sep, 0),
        sep.len() > 0,
        definition_head(n, 0, word).is_some(),
    ensures
        narrowed(inserted(n, g, sep), n, g),
        longer(inserted(n, g, sep), n, g) == -sep.len(),
        definition_head(n, 0, word) == carried_node(
            inserted(n, g, sep),
            n,
            g,
            definition_head(inserted(n, g, sep), 0, word),
        ),
        definition_head(inserted(n, g, sep), 0, word) matches Some((_, start)) && placed(
            inserted(n, g, sep),
            g,
            start,
        ) && start != g,
{
    let x = inserted(n, g, sep);
    let k = keyword_end(n, word);
    let start = doc_comment(n, 0).1;
    assert(keyword(n, start, word) == Some(k)) by {
        reveal(text_at);
    }
    crate::locality::lemma_doc_comment_local(n, n, 0, 0);
    crate::locality::lemma_keyword_local(n, n, 0, start, word);
    crate::locality::lemma_separator_local(n, n, 0, k);
    assert(0 < k < g);
    law_inserted_separator_is_skipped(n, g, sep, ' ');
    assert(x.len() == n.len() + sep.len());
    assert forall|i: int| 0 <= i < g implies #[trigger] n[i] == x[i] by {}
    assert(x.skip(g + sep.len()) =~= n.skip(g));
    assert(same_start(x, n, g));
    assert(narrowed(x, n, g));
    lemma_reaches_agrees(n, x, g, k);
    lemma_doc_comment_agrees(n, x, k, word);
    assert(n[k] == x[k]);
    lemma_keyword_agrees(n, x, k, start, word);
    lemma_separator_widened(x, n, g, k);
}

} // verus!
