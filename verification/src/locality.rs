//! What a rule gives depends on nothing but the input from its position on.
//!
//! Two inputs that hold the same bytes from some position on, each at its own
//! offset, are parsed alike from there on: the nodes are the same and the
//! positions differ by the difference of the offsets. So a caller may parse
//! what a definition left of the input on its own, and what comes before a
//! definition, however long it is, has no part in what the definition is.

use vstd::prelude::*;
use crate::grammar::{
    base_type, byte_is, comment, comment_span, const_definition, const_entry, const_list,
    const_map, const_value, container_type, default_value, definition_head, definition_type,
    digits_value, doc_comment, double_constant, entry_rule, enum_definition, enum_value,
    enum_value_rule, extension, failure_kind, field, field_id, field_list, field_rule, field_type,
    find_block_end, find_byte, function, identifier, int_constant, keyword, linefeed, list,
    list_gap, list_gap_rule, list_separator, list_tail, literal_span, map_container, mark, member,
    member_rule, open_arguments, optional, quoted_span, record_definition, requiredness,
    return_type, run_end, separator, separator_rule, separator_unit, service_definition,
    service_member, service_member_rule, skip_exponent, skip_list_gap, skip_separator, skip_sign,
    skip_terminator, space, spaced_keyword, text_at, throws, typedef_definition, unary_container,
    value_rule, ByteClass,
};

verus! {

/// Whether `b` holds, `d` bytes further on, what `a` holds from `from` on.
pub open spec fn aligned(a: Seq<u8>, b: Seq<u8>, d: int, from: int) -> bool {
    &&& 0 <= from <= a.len()
    &&& 0 <= from + d
    &&& b.len() == a.len() + d
    &&& forall|i: int| from <= i < a.len() ==> #[trigger] a[i] == b[i + d]
}

/// A position that a rule gave, `d` bytes further on.
pub open spec fn moved(found: Option<int>, d: int) -> Option<int> {
    match found {
        Some(end) => Some(end + d),
        None => None,
    }
}

/// A node that a rule gave, with its end `d` bytes further on.
pub open spec fn moved_node<T>(found: Option<(T, int)>, d: int) -> Option<(T, int)> {
    match found {
        Some((node, end)) => Some((node, end + d)),
        None => None,
    }
}

/// Whether the position that a rule gave from `pos` lies between `pos` and
/// the end of the input.
pub open spec fn within(found: Option<int>, pos: int, len: nat) -> bool {
    found matches Some(end) ==> pos <= end <= len
}

/// Whether the node that a rule gave from `pos` ends between `pos` and the
/// end of the input.
pub open spec fn node_within<T>(found: Option<(T, int)>, pos: int, len: nat) -> bool {
    found matches Some((_, end)) ==> pos <= end <= len
}

/// Aligned inputs hold the same text in aligned places.
pub proof fn lemma_subrange_local(a: Seq<u8>, b: Seq<u8>, d: int, from: int, lo: int, hi: int)
    requires
        aligned(a, b, d, from),
        from <= lo <= hi <= a.len(),
    ensures
        a.subrange(lo, hi) == b.subrange(lo + d, hi + d),
{
    assert(a.subrange(lo, hi) =~= b.subrange(lo + d, hi + d)) by {
        assert forall|i: int| 0 <= i < hi - lo implies a.subrange(lo, hi)[i] == b.subrange(
            lo + d,
            hi + d,
        )[i] by {
            assert(a[lo + i] == b[lo + i + d]);
        }
    }
}

/// The rule `byte_is` gives the same on aligned inputs, `d` bytes further on.
pub proof fn lemma_byte_is_local(a: Seq<u8>, b: Seq<u8>, d: int, pos: int, c: char)
    requires
        aligned(a, b, d, pos),
    ensures
        byte_is(b, pos + d, c) == byte_is(a, pos, c),
{
    if pos < a.len() {
        assert(a[pos] == b[pos + d]);
    }
}

/// The rule `text_at` gives the same on aligned inputs, `d` bytes further on.
pub proof fn lemma_text_at_local(a: Seq<u8>, b: Seq<u8>, d: int, pos: int, lit: Seq<char>)
    requires
        aligned(a, b, d, pos),
    ensures
        text_at(b, pos + d, lit) == text_at(a, pos, lit),
{
    reveal(text_at);
    if pos + lit.len() <= a.len() {
        assert forall|i: int| 0 <= i < lit.len() implies a[pos + i] == #[trigger] b[pos + d
            + i] by {
            assert(a[pos + i] == b[pos + i + d]);
        }
    }
}

/// The rule `keyword` gives the same on aligned inputs, `d` bytes further on.
pub proof fn lemma_keyword_local(a: Seq<u8>, b: Seq<u8>, d: int, pos: int, word: Seq<char>)
    requires
        aligned(a, b, d, pos),
    ensures
        keyword(b, pos + d, word) == moved(keyword(a, pos, word), d),
        within(keyword(a, pos, word), pos, a.len()),
{
    reveal(text_at);
    lemma_text_at_local(a, b, d, pos, word);
    let end = pos + word.len();
    if end < a.len() {
        assert(a[end] == b[end + d]);
    }
}

/// The rule `run_end` gives the same on aligned inputs, `d` bytes further on.
pub proof fn lemma_run_end_local(a: Seq<u8>, b: Seq<u8>, d: int, pos: int, class: ByteClass)
    requires
        aligned(a, b, d, pos),
    ensures
        run_end(b, pos + d, class) == run_end(a, pos, class) + d,
        pos <= run_end(a, pos, class) <= a.len(),
    decreases a.len() - pos,
{
    if pos < a.len() {
        assert(a[pos] == b[pos + d]);
        if class.holds(a[pos]) {
            lemma_run_end_local(a, b, d, pos + 1, class);
        }
    }
}

/// The rule `find_byte` gives the same on aligned inputs, `d` bytes further
/// on.
pub proof fn lemma_find_byte_local(a: Seq<u8>, b: Seq<u8>, d: int, pos: int, c: u8)
    requires
        aligned(a, b, d, pos),
    ensures
        find_byte(b, pos + d, c) == moved(find_byte(a, pos, c), d),
        find_byte(a, pos, c) matches Some(at) ==> pos <= at < a.len(),
    decreases a.len() - pos,
{
    if pos < a.len() {
        assert(a[pos] == b[pos + d]);
        if a[pos] != c {
            lemma_find_byte_local(a, b, d, pos + 1, c);
        }
    }
}

/// The rule `find_block_end` gives the same on aligned inputs, `d` bytes
/// further on.
pub proof fn lemma_find_block_end_local(a: Seq<u8>, b: Seq<u8>, d: int, pos: int)
    requires
        aligned(a, b, d, pos),
    ensures
        find_block_end(b, pos + d) == moved(find_block_end(a, pos), d),
        find_block_end(a, pos) matches Some(at) ==> pos <= at && at + 2 <= a.len(),
    decreases a.len() - pos,
{
    if pos + 2 <= a.len() {
        assert(a[pos] == b[pos + d]);
        assert(a[pos + 1] == b[pos + 1 + d]);
        if !(a[pos] == '*' as u8 && a[pos + 1] == '/' as u8) {
            lemma_find_block_end_local(a, b, d, pos + 1);
        }
    }
}

/// The rule `identifier` gives the same on aligned inputs, `d` bytes further
/// on.
pub proof fn lemma_identifier_local(a: Seq<u8>, b: Seq<u8>, d: int, pos: int)
    requires
        aligned(a, b, d, pos),
    ensures
        identifier(b, pos + d) == moved(identifier(a, pos), d),
        within(identifier(a, pos), pos, a.len()),
{
    if pos < a.len() {
        assert(a[pos] == b[pos + d]);
        lemma_run_end_local(a, b, d, pos + 1, ByteClass::IdentChar);
    }
}

/// The rule `linefeed` gives the same on aligned inputs, `d` bytes further on.
pub proof fn lemma_linefeed_local(a: Seq<u8>, b: Seq<u8>, d: int, pos: int)
    requires
        aligned(a, b, d, pos),
    ensures
        linefeed(b, pos + d) == moved(linefeed(a, pos), d),
        within(linefeed(a, pos), pos, a.len()),
{
    lemma_byte_is_local(a, b, d, pos, '\n');
    lemma_byte_is_local(a, b, d, pos, '\r');
    if pos < a.len() {
        lemma_byte_is_local(a, b, d, pos + 1, '\n');
    }
}

/// The rule `comment_span` gives the same on aligned inputs, `d` bytes further
/// on.
#[verifier::rlimit(30)]
pub proof fn lemma_comment_span_local(a: Seq<u8>, b: Seq<u8>, d: int, pos: int)
    requires
        aligned(a, b, d, pos),
    ensures
        comment_span(b, pos + d) == match comment_span(a, pos) {
            Some((from, to, end)) => Some((from + d, to + d, end + d)),
            None => None,
        },
        comment_span(a, pos) matches Some((from, to, end)) ==> pos < from <= to <= end
            <= a.len(),
{
    reveal(text_at);
    reveal_strlit("//");
    reveal_strlit("/*");
    lemma_text_at_local(a, b, d, pos, "//"@);
    lemma_text_at_local(a, b, d, pos, "/*"@);
    lemma_byte_is_local(a, b, d, pos, '#');
    if text_at(a, pos, "//"@) {
        lemma_run_end_local(a, b, d, pos + 2, ByteClass::LineText);
    } else if text_at(a, pos, "/*"@) {
        lemma_find_block_end_local(a, b, d, pos + 2);
    } else if byte_is(a, pos, '#') {
        lemma_run_end_local(a, b, d, pos + 1, ByteClass::LineText);
    }
}

/// The rule `comment` gives the same on aligned inputs, `d` bytes further on.
pub proof fn lemma_comment_local(a: Seq<u8>, b: Seq<u8>, d: int, pos: int)
    requires
        aligned(a, b, d, pos),
    ensures
        comment(b, pos + d) == moved_node(comment(a, pos), d),
        node_within(comment(a, pos), pos, a.len()),
{
    lemma_comment_span_local(a, b, d, pos);
    match comment_span(a, pos) {
        Some((from, to, end)) => {
            lemma_subrange_local(a, b, d, pos, from, to);
        },
        None => {},
    }
}

/// The rule `separator_unit` gives the same on aligned inputs, `d` bytes
/// further on.
pub proof fn lemma_separator_unit_local(a: Seq<u8>, b: Seq<u8>, d: int, pos: int)
    requires
        aligned(a, b, d, pos),
    ensures
        separator_unit(b, pos + d) == moved(separator_unit(a, pos), d),
        separator_unit(a, pos) matches Some(end) ==> pos < end <= a.len(),
{
    if pos < a.len() {
        assert(a[pos] == b[pos + d]);
    }
    lemma_comment_span_local(a, b, d, pos);
}

/// The rule `skip_separator` gives the same on aligned inputs, `d` bytes
/// further on.
pub proof fn lemma_skip_separator_local(a: Seq<u8>, b: Seq<u8>, d: int, pos: int)
    requires
        aligned(a, b, d, pos),
    ensures
        skip_separator(b, pos + d) == skip_separator(a, pos) + d,
        pos <= skip_separator(a, pos) <= a.len(),
    decreases a.len() - pos,
{
    lemma_separator_unit_local(a, b, d, pos);
    match separator_unit(a, pos) {
        Some(end) => {
            lemma_skip_separator_local(a, b, d, end);
        },
        None => {},
    }
}

/// The rule `separator` gives the same on aligned inputs, `d` bytes further
/// on.
pub proof fn lemma_separator_local(a: Seq<u8>, b: Seq<u8>, d: int, pos: int)
    requires
        aligned(a, b, d, pos),
    ensures
        separator(b, pos + d) == moved(separator(a, pos), d),
        separator(a, pos) matches Some(end) ==> pos < end <= a.len(),
{
    lemma_skip_separator_local(a, b, d, pos);
}

/// The rule `space` gives the same on aligned inputs, `d` bytes further on.
pub proof fn lemma_space_local(a: Seq<u8>, b: Seq<u8>, d: int, pos: int)
    requires
        aligned(a, b, d, pos),
    ensures
        space(b, pos + d) == moved(space(a, pos), d),
        within(space(a, pos), pos, a.len()),
{
    lemma_run_end_local(a, b, d, pos, ByteClass::Blank);
}

/// The rule `list_separator` gives the same on aligned inputs, `d` bytes
/// further on.
pub proof fn lemma_list_separator_local(a: Seq<u8>, b: Seq<u8>, d: int, pos: int)
    requires
        aligned(a, b, d, pos),
    ensures
        list_separator(b, pos + d) == moved(list_separator(a, pos), d),
        list_separator(a, pos) matches Some(end) ==> pos < end <= a.len(),
{
    lemma_byte_is_local(a, b, d, pos, ',');
    lemma_byte_is_local(a, b, d, pos, ';');
}

/// The rule `list_gap` gives the same on aligned inputs, `d` bytes further on.
pub proof fn lemma_list_gap_local(a: Seq<u8>, b: Seq<u8>, d: int, pos: int)
    requires
        aligned(a, b, d, pos),
    ensures
        list_gap(b, pos + d) == moved(list_gap(a, pos), d),
        list_gap(a, pos) matches Some(end) ==> pos < end <= a.len(),
        skip_list_gap(b, pos + d) == skip_list_gap(a, pos) + d,
        pos <= skip_list_gap(a, pos) <= a.len(),
{
    lemma_skip_separator_local(a, b, d, pos);
    let at = skip_separator(a, pos);
    lemma_list_separator_local(a, b, d, at);
    match list_separator(a, at) {
        Some(after) => {
            lemma_skip_separator_local(a, b, d, after);
        },
        None => {},
    }
}

/// The rule `skip_terminator` gives the same on aligned inputs, `d` bytes
/// further on.
pub proof fn lemma_skip_terminator_local(a: Seq<u8>, b: Seq<u8>, d: int, pos: int)
    requires
        aligned(a, b, d, pos),
    ensures
        skip_terminator(b, pos + d) == skip_terminator(a, pos) + d,
        pos <= skip_terminator(a, pos) <= a.len(),
{
    lemma_skip_separator_local(a, b, d, pos);
    lemma_list_separator_local(a, b, d, skip_separator(a, pos));
}

/// The rule `mark` gives the same on aligned inputs, `d` bytes further on.
pub proof fn lemma_mark_local(a: Seq<u8>, b: Seq<u8>, d: int, pos: int, c: char)
    requires
        aligned(a, b, d, pos),
    ensures
        mark(b, pos + d, c) == moved(mark(a, pos, c), d),
        mark(a, pos, c) matches Some(end) ==> pos < end <= a.len(),
{
    lemma_skip_separator_local(a, b, d, pos);
    lemma_byte_is_local(a, b, d, skip_separator(a, pos), c);
}

/// The rule `spaced_keyword` gives the same on aligned inputs, `d` bytes
/// further on.
pub proof fn lemma_spaced_keyword_local(
    a: Seq<u8>,
    b: Seq<u8>,
    d: int,
    pos: int,
    word: Seq<char>,
)
    requires
        aligned(a, b, d, pos),
    ensures
        spaced_keyword(b, pos + d, word) == moved(spaced_keyword(a, pos, word), d),
        within(spaced_keyword(a, pos, word), pos, a.len()),
{
    lemma_keyword_local(a, b, d, pos, word);
    match keyword(a, pos, word) {
        Some(after) => {
            lemma_separator_local(a, b, d, after);
        },
        None => {},
    }
}

/// A list and its end, `d` bytes further on.
pub open spec fn moved_list<T>(found: (Seq<T>, int), d: int) -> (Seq<T>, int) {
    (found.0, found.1 + d)
}

/// Whether two rules give the same from aligned positions, from `from` on.
pub open spec fn rules_agree<T>(
    one: spec_fn(int) -> Option<(T, int)>,
    other: spec_fn(int) -> Option<(T, int)>,
    d: int,
    from: int,
    len: nat,
) -> bool {
    forall|p: int|
        from <= p <= len ==> #[trigger] other(p + d) == moved_node(one(p), d) && node_within(
            one(p),
            p,
            len,
        )
}

/// Whether two gaps give the same from aligned positions, from `from` on.
pub open spec fn gaps_agree(
    one: spec_fn(int) -> Option<int>,
    other: spec_fn(int) -> Option<int>,
    d: int,
    from: int,
    len: nat,
) -> bool {
    forall|p: int|
        from <= p <= len ==> #[trigger] other(p + d) == moved(one(p), d) && within(
            one(p),
            p,
            len,
        )
}

#[verifier::rlimit(30)]
pub proof fn lemma_list_tail_local<T>(
    len: nat,
    d: int,
    from: int,
    pos: int,
    gap: spec_fn(int) -> Option<int>,
    item: spec_fn(int) -> Option<(T, int)>,
    gap2: spec_fn(int) -> Option<int>,
    item2: spec_fn(int) -> Option<(T, int)>,
)
    requires
        from <= pos <= len,
        gaps_agree(gap, gap2, d, from, len),
        rules_agree(item, item2, d, from, len),
    ensures
        list_tail(len + d, pos + d, gap2, item2) == moved_list(
            list_tail(len as int, pos, gap, item),
            d,
        ),
        pos <= list_tail(len as int, pos, gap, item).1 <= len,
    decreases len - pos,
{
    assert(gap2(pos + d) == moved(gap(pos), d));
    match gap(pos) {
        Some(start) => {
            assert(item2(start + d) == moved_node(item(start), d));
            match item(start) {
                Some((x, end)) => {
                    if pos < end <= len {
                        lemma_list_tail_local(len, d, from, end, gap, item, gap2, item2);
                    }
                },
                None => {},
            }
        },
        None => {},
    }
}

pub proof fn lemma_list_local<T>(
    len: nat,
    d: int,
    from: int,
    pos: int,
    gap: spec_fn(int) -> Option<int>,
    item: spec_fn(int) -> Option<(T, int)>,
    gap2: spec_fn(int) -> Option<int>,
    item2: spec_fn(int) -> Option<(T, int)>,
)
    requires
        from <= pos <= len,
        gaps_agree(gap, gap2, d, from, len),
        rules_agree(item, item2, d, from, len),
    ensures
        list(len + d, pos + d, gap2, item2) == moved_list(list(len as int, pos, gap, item), d),
        pos <= list(len as int, pos, gap, item).1 <= len,
{
    assert(item2(pos + d) == moved_node(item(pos), d));
    match item(pos) {
        Some((x, end)) => {
            lemma_list_tail_local(len, d, from, end, gap, item, gap2, item2);
        },
        None => {},
    }
}

/// The rule `list_gap_rule` gives the same on aligned inputs, at every aligned
/// position.
pub proof fn lemma_list_gap_rule_local(a: Seq<u8>, b: Seq<u8>, d: int, from: int)
    requires
        aligned(a, b, d, from),
    ensures
        gaps_agree(list_gap_rule(a), list_gap_rule(b), d, from, a.len()),
{
    assert forall|p: int| from <= p <= a.len() implies #[trigger] list_gap_rule(b)(p + d)
        == moved(list_gap_rule(a)(p), d) && within(list_gap_rule(a)(p), p, a.len()) by {
        lemma_list_gap_local(a, b, d, p);
    }
}

/// The rule `separator_rule` gives the same on aligned inputs, at every
/// aligned position.
pub proof fn lemma_separator_rule_local(a: Seq<u8>, b: Seq<u8>, d: int, from: int)
    requires
        aligned(a, b, d, from),
    ensures
        gaps_agree(separator_rule(a), separator_rule(b), d, from, a.len()),
{
    assert forall|p: int| from <= p <= a.len() implies #[trigger] separator_rule(b)(p + d)
        == moved(separator_rule(a)(p), d) && within(separator_rule(a)(p), p, a.len()) by {
        lemma_separator_local(a, b, d, p);
    }
}

/// The rule `skip_sign` gives the same on aligned inputs, `d` bytes further
/// on.
pub proof fn lemma_skip_sign_local(a: Seq<u8>, b: Seq<u8>, d: int, pos: int)
    requires
        aligned(a, b, d, pos),
    ensures
        skip_sign(b, pos + d) == skip_sign(a, pos) + d,
        pos <= skip_sign(a, pos) <= a.len(),
{
    lemma_byte_is_local(a, b, d, pos, '+');
    lemma_byte_is_local(a, b, d, pos, '-');
}

/// The rule `digits_value` gives the same on aligned inputs, `d` bytes further
/// on.
pub proof fn lemma_digits_value_local(a: Seq<u8>, b: Seq<u8>, d: int, from: int, to: int)
    requires
        aligned(a, b, d, from),
        to <= a.len(),
    ensures
        digits_value(b, from + d, to + d) == digits_value(a, from, to),
    decreases to - from,
{
    if from < to {
        assert(a[to - 1] == b[to - 1 + d]);
        lemma_digits_value_local(a, b, d, from, to - 1);
    }
}

/// The rule `int_constant` gives the same on aligned inputs, `d` bytes further
/// on.
pub proof fn lemma_int_constant_local(a: Seq<u8>, b: Seq<u8>, d: int, pos: int)
    requires
        aligned(a, b, d, pos),
    ensures
        int_constant(b, pos + d) == moved_node(int_constant(a, pos), d),
        node_within(int_constant(a, pos), pos, a.len()),
{
    lemma_skip_sign_local(a, b, d, pos);
    lemma_byte_is_local(a, b, d, pos, '-');
    let first = skip_sign(a, pos);
    lemma_run_end_local(a, b, d, first, ByteClass::Digit);
    lemma_digits_value_local(a, b, d, first, run_end(a, first, ByteClass::Digit));
}

/// The rule `skip_exponent` gives the same on aligned inputs, `d` bytes
/// further on.
pub proof fn lemma_skip_exponent_local(a: Seq<u8>, b: Seq<u8>, d: int, pos: int)
    requires
        aligned(a, b, d, pos),
    ensures
        skip_exponent(b, pos + d) == skip_exponent(a, pos) + d,
        pos <= skip_exponent(a, pos) <= a.len(),
{
    lemma_byte_is_local(a, b, d, pos, 'e');
    lemma_byte_is_local(a, b, d, pos, 'E');
    if pos < a.len() {
        lemma_skip_sign_local(a, b, d, pos + 1);
        lemma_run_end_local(a, b, d, skip_sign(a, pos + 1), ByteClass::Digit);
    }
}

/// The rule `double_constant` gives the same on aligned inputs, `d` bytes
/// further on.
pub proof fn lemma_double_constant_local(a: Seq<u8>, b: Seq<u8>, d: int, pos: int)
    requires
        aligned(a, b, d, pos),
    ensures
        double_constant(b, pos + d) == moved(double_constant(a, pos), d),
        within(double_constant(a, pos), pos, a.len()),
{
    lemma_skip_sign_local(a, b, d, pos);
    let first = skip_sign(a, pos);
    lemma_run_end_local(a, b, d, first, ByteClass::Digit);
    let point = run_end(a, first, ByteClass::Digit);
    lemma_byte_is_local(a, b, d, point, '.');
    if point < a.len() {
        lemma_run_end_local(a, b, d, point + 1, ByteClass::Digit);
        lemma_skip_exponent_local(a, b, d, run_end(a, point + 1, ByteClass::Digit));
    }
}

/// The rule `quoted_span` gives the same on aligned inputs, `d` bytes further
/// on.
pub proof fn lemma_quoted_span_local(a: Seq<u8>, b: Seq<u8>, d: int, pos: int, quote: char)
    requires
        aligned(a, b, d, pos),
    ensures
        quoted_span(b, pos + d, quote) == match quoted_span(a, pos, quote) {
            Some((from, to, end)) => Some((from + d, to + d, end + d)),
            None => None,
        },
        quoted_span(a, pos, quote) matches Some((from, to, end)) ==> pos < from <= to < end
            <= a.len(),
{
    lemma_byte_is_local(a, b, d, pos, quote);
    if pos < a.len() {
        lemma_find_byte_local(a, b, d, pos + 1, quote as u8);
    }
}

/// The rule `literal_span` gives the same on aligned inputs, `d` bytes further
/// on.
pub proof fn lemma_literal_span_local(a: Seq<u8>, b: Seq<u8>, d: int, pos: int)
    requires
        aligned(a, b, d, pos),
    ensures
        literal_span(b, pos + d) == match literal_span(a, pos) {
            Some((from, to, end)) => Some((from + d, to + d, end + d)),
            None => None,
        },
        literal_span(a, pos) matches Some((from, to, end)) ==> pos < from <= to < end
            <= a.len(),
{
    lemma_quoted_span_local(a, b, d, pos, '"');
    lemma_quoted_span_local(a, b, d, pos, '\'');
}

/// The rule `const_value` gives the same on aligned inputs, `d` bytes further
/// on.
#[verifier::rlimit(30)]
pub proof fn lemma_const_value_local(a: Seq<u8>, b: Seq<u8>, d: int, pos: int)
    requires
        aligned(a, b, d, pos),
    ensures
        const_value(b, pos + d) == moved_node(const_value(a, pos), d),
        node_within(const_value(a, pos), pos, a.len()),
    decreases a.len() - pos, 0int,
{
    lemma_int_constant_local(a, b, d, pos);
    lemma_double_constant_local(a, b, d, pos);
    lemma_literal_span_local(a, b, d, pos);
    lemma_byte_is_local(a, b, d, pos, '[');
    lemma_byte_is_local(a, b, d, pos, '{');
    lemma_identifier_local(a, b, d, pos);
    if int_constant(a, pos).is_some() {
    } else if double_constant(a, pos).is_some() {
        lemma_subrange_local(a, b, d, pos, pos, double_constant(a, pos).unwrap());
    } else if literal_span(a, pos).is_some() {
        let (from, to, end) = literal_span(a, pos).unwrap();
        lemma_subrange_local(a, b, d, pos, from, to);
    } else if byte_is(a, pos, '[') {
        lemma_const_list_local(a, b, d, pos);
    } else if byte_is(a, pos, '{') {
        lemma_const_map_local(a, b, d, pos);
    } else if identifier(a, pos).is_some() {
        lemma_subrange_local(a, b, d, pos, pos, identifier(a, pos).unwrap());
    }
}

/// The rule `const_list` gives the same on aligned inputs, `d` bytes further
/// on.
#[verifier::rlimit(30)]
pub proof fn lemma_const_list_local(a: Seq<u8>, b: Seq<u8>, d: int, pos: int)
    requires
        aligned(a, b, d, pos),
        byte_is(a, pos, '['),
    ensures
        const_list(b, pos + d) == moved_node(const_list(a, pos), d),
        node_within(const_list(a, pos), pos, a.len()),
    decreases a.len() - pos - 1, 2int,
{
    lemma_byte_is_local(a, b, d, pos, '[');
    lemma_skip_separator_local(a, b, d, pos + 1);
    let start = skip_separator(a, pos + 1);
    lemma_list_gap_rule_local(a, b, d, pos + 1);
    let item = value_rule(a, pos);
    let item2 = value_rule(b, pos + d);
    assert forall|p: int| pos + 1 <= p <= a.len() implies #[trigger] item2(p + d) == moved_node(
        item(p),
        d,
    ) && node_within(item(p), p, a.len()) by {
        lemma_const_value_local(a, b, d, p);
    }
    lemma_list_local(
        a.len(),
        d,
        pos + 1,
        start,
        list_gap_rule(a),
        item,
        list_gap_rule(b),
        item2,
    );
    let stop = list(a.len() as int, start, list_gap_rule(a), item).1;
    lemma_list_gap_local(a, b, d, stop);
    lemma_mark_local(a, b, d, skip_list_gap(a, stop), ']');
}

/// The rule `const_entry` gives the same on aligned inputs, `d` bytes further
/// on.
#[verifier::rlimit(30)]
pub proof fn lemma_const_entry_local(a: Seq<u8>, b: Seq<u8>, d: int, pos: int)
    requires
        aligned(a, b, d, pos),
    ensures
        const_entry(b, pos + d) == moved_node(const_entry(a, pos), d),
        node_within(const_entry(a, pos), pos, a.len()),
    decreases a.len() - pos, 1int,
{
    lemma_const_value_local(a, b, d, pos);
    match const_value(a, pos) {
        Some((key, key_end)) => {
            lemma_mark_local(a, b, d, key_end, ':');
            match mark(a, key_end, ':') {
                Some(colon) => {
                    lemma_skip_separator_local(a, b, d, colon);
                    lemma_const_value_local(a, b, d, skip_separator(a, colon));
                },
                None => {},
            }
        },
        None => {},
    }
}

/// The rule `const_map` gives the same on aligned inputs, `d` bytes further
/// on.
#[verifier::rlimit(30)]
pub proof fn lemma_const_map_local(a: Seq<u8>, b: Seq<u8>, d: int, pos: int)
    requires
        aligned(a, b, d, pos),
        byte_is(a, pos, '{'),
    ensures
        const_map(b, pos + d) == moved_node(const_map(a, pos), d),
        node_within(const_map(a, pos), pos, a.len()),
    decreases a.len() - pos - 1, 3int,
{
    lemma_byte_is_local(a, b, d, pos, '{');
    lemma_skip_separator_local(a, b, d, pos + 1);
    let start = skip_separator(a, pos + 1);
    lemma_list_gap_rule_local(a, b, d, pos + 1);
    let item = entry_rule(a, pos);
    let item2 = entry_rule(b, pos + d);
    assert forall|p: int| pos + 1 <= p <= a.len() implies #[trigger] item2(p + d) == moved_node(
        item(p),
        d,
    ) && node_within(item(p), p, a.len()) by {
        lemma_const_entry_local(a, b, d, p);
    }
    lemma_list_local(
        a.len(),
        d,
        pos + 1,
        start,
        list_gap_rule(a),
        item,
        list_gap_rule(b),
        item2,
    );
    let stop = list(a.len() as int, start, list_gap_rule(a), item).1;
    lemma_list_gap_local(a, b, d, stop);
    lemma_mark_local(a, b, d, skip_list_gap(a, stop), '}');
}

/// The rule `base_type` gives the same on aligned inputs, `d` bytes further
/// on.
pub proof fn lemma_base_type_local(a: Seq<u8>, b: Seq<u8>, d: int, pos: int)
    requires
        aligned(a, b, d, pos),
    ensures
        base_type(b, pos + d) == moved_node(base_type(a, pos), d),
        node_within(base_type(a, pos), pos, a.len()),
{
    lemma_keyword_local(a, b, d, pos, "bool"@);
    lemma_keyword_local(a, b, d, pos, "byte"@);
    lemma_keyword_local(a, b, d, pos, "i8"@);
    lemma_keyword_local(a, b, d, pos, "i16"@);
    lemma_keyword_local(a, b, d, pos, "i32"@);
    lemma_keyword_local(a, b, d, pos, "i64"@);
    lemma_keyword_local(a, b, d, pos, "double"@);
    lemma_keyword_local(a, b, d, pos, "string"@);
    lemma_keyword_local(a, b, d, pos, "binary"@);
}

/// The rule `open_arguments` gives the same on aligned inputs, `d` bytes
/// further on.
#[verifier::rlimit(30)]
pub proof fn lemma_open_arguments_local(
    a: Seq<u8>,
    b: Seq<u8>,
    d: int,
    pos: int,
    word: Seq<char>,
)
    requires
        aligned(a, b, d, pos),
    ensures
        open_arguments(b, pos + d, word) == moved(open_arguments(a, pos, word), d),
        within(open_arguments(a, pos, word), pos, a.len()),
{
    lemma_keyword_local(a, b, d, pos, word);
    match keyword(a, pos, word) {
        Some(after) => {
            lemma_mark_local(a, b, d, after, '<');
            match mark(a, after, '<') {
                Some(open) => {
                    lemma_skip_separator_local(a, b, d, open);
                },
                None => {},
            }
        },
        None => {},
    }
}

/// The rule `unary_container` gives the same on aligned inputs, `d` bytes
/// further on.
#[verifier::rlimit(30)]
pub proof fn lemma_unary_container_local(
    a: Seq<u8>,
    b: Seq<u8>,
    d: int,
    pos: int,
    word: Seq<char>,
)
    requires
        aligned(a, b, d, pos),
    ensures
        unary_container(b, pos + d, word) == moved_node(unary_container(a, pos, word), d),
        node_within(unary_container(a, pos, word), pos, a.len()),
    decreases a.len() - pos, 0int,
{
    lemma_open_arguments_local(a, b, d, pos, word);
    match open_arguments(a, pos, word) {
        Some(at) => {
            if pos < at <= a.len() {
                lemma_field_type_local(a, b, d, at);
                match field_type(a, at) {
                    Some((element, end)) => {
                        lemma_mark_local(a, b, d, end, '>');
                    },
                    None => {},
                }
            }
        },
        None => {},
    }
}

/// The rule `map_container` gives the same on aligned inputs, `d` bytes
/// further on.
#[verifier::rlimit(30)]
pub proof fn lemma_map_container_local(a: Seq<u8>, b: Seq<u8>, d: int, pos: int)
    requires
        aligned(a, b, d, pos),
    ensures
        map_container(b, pos + d) == moved_node(map_container(a, pos), d),
        node_within(map_container(a, pos), pos, a.len()),
    decreases a.len() - pos, 0int,
{
    lemma_open_arguments_local(a, b, d, pos, "map"@);
    match open_arguments(a, pos, "map"@) {
        Some(at) => {
            if pos < at <= a.len() {
                lemma_field_type_local(a, b, d, at);
                match field_type(a, at) {
                    Some((key, key_end)) => {
                        lemma_mark_local(a, b, d, key_end, ',');
                        match mark(a, key_end, ',') {
                            Some(comma) => {
                                lemma_skip_separator_local(a, b, d, comma);
                                let second = skip_separator(a, comma);
                                lemma_field_type_local(a, b, d, second);
                                match field_type(a, second) {
                                    Some((value, end)) => {
                                        lemma_mark_local(a, b, d, end, '>');
                                    },
                                    None => {},
                                }
                            },
                            None => {},
                        }
                    },
                    None => {},
                }
            }
        },
        None => {},
    }
}

/// The rule `container_type` gives the same on aligned inputs, `d` bytes
/// further on.
pub proof fn lemma_container_type_local(a: Seq<u8>, b: Seq<u8>, d: int, pos: int)
    requires
        aligned(a, b, d, pos),
    ensures
        container_type(b, pos + d) == moved_node(container_type(a, pos), d),
        node_within(container_type(a, pos), pos, a.len()),
    decreases a.len() - pos, 1int,
{
    lemma_unary_container_local(a, b, d, pos, "list"@);
    lemma_unary_container_local(a, b, d, pos, "set"@);
    lemma_map_container_local(a, b, d, pos);
}

/// The rule `field_type` gives the same on aligned inputs, `d` bytes further
/// on.
pub proof fn lemma_field_type_local(a: Seq<u8>, b: Seq<u8>, d: int, pos: int)
    requires
        aligned(a, b, d, pos),
    ensures
        field_type(b, pos + d) == moved_node(field_type(a, pos), d),
        node_within(field_type(a, pos), pos, a.len()),
    decreases a.len() - pos, 2int,
{
    lemma_base_type_local(a, b, d, pos);
    lemma_container_type_local(a, b, d, pos);
    lemma_identifier_local(a, b, d, pos);
    if base_type(a, pos).is_none() && container_type(a, pos).is_none() && identifier(
        a,
        pos,
    ).is_some() {
        lemma_subrange_local(a, b, d, pos, pos, identifier(a, pos).unwrap());
    }
}

/// The rule `definition_type` gives the same on aligned inputs, `d` bytes
/// further on.
pub proof fn lemma_definition_type_local(a: Seq<u8>, b: Seq<u8>, d: int, pos: int)
    requires
        aligned(a, b, d, pos),
    ensures
        definition_type(b, pos + d) == moved_node(definition_type(a, pos), d),
        node_within(definition_type(a, pos), pos, a.len()),
{
    lemma_base_type_local(a, b, d, pos);
    lemma_container_type_local(a, b, d, pos);
}

/// The rule `field_id` gives the same on aligned inputs, `d` bytes further on.
#[verifier::rlimit(30)]
pub proof fn lemma_field_id_local(a: Seq<u8>, b: Seq<u8>, d: int, pos: int)
    requires
        aligned(a, b, d, pos),
    ensures
        field_id(b, pos + d) == moved_node(field_id(a, pos), d),
        node_within(field_id(a, pos), pos, a.len()),
{
    lemma_int_constant_local(a, b, d, pos);
    match int_constant(a, pos) {
        Some((id, end)) => {
            lemma_mark_local(a, b, d, end, ':');
            match mark(a, end, ':') {
                Some(colon) => {
                    lemma_skip_separator_local(a, b, d, colon);
                },
                None => {},
            }
        },
        None => {},
    }
}

/// The rule `requiredness` gives the same on aligned inputs, `d` bytes further
/// on.
pub proof fn lemma_requiredness_local(a: Seq<u8>, b: Seq<u8>, d: int, pos: int)
    requires
        aligned(a, b, d, pos),
    ensures
        requiredness(b, pos + d) == moved_node(requiredness(a, pos), d),
        node_within(requiredness(a, pos), pos, a.len()),
{
    lemma_spaced_keyword_local(a, b, d, pos, "required"@);
    lemma_spaced_keyword_local(a, b, d, pos, "optional"@);
}

/// The rule `default_value` gives the same on aligned inputs, `d` bytes
/// further on.
pub proof fn lemma_default_value_local(a: Seq<u8>, b: Seq<u8>, d: int, pos: int)
    requires
        aligned(a, b, d, pos),
    ensures
        default_value(b, pos + d) == moved_node(default_value(a, pos), d),
        node_within(default_value(a, pos), pos, a.len()),
{
    lemma_mark_local(a, b, d, pos, '=');
    match mark(a, pos, '=') {
        Some(equals) => {
            lemma_skip_separator_local(a, b, d, equals);
            lemma_const_value_local(a, b, d, skip_separator(a, equals));
        },
        None => {},
    }
}

/// The rule `field` gives the same on aligned inputs, `d` bytes further on.
#[verifier::rlimit(30)]
pub proof fn lemma_field_local(a: Seq<u8>, b: Seq<u8>, d: int, pos: int)
    requires
        aligned(a, b, d, pos),
    ensures
        field(b, pos + d) == moved_node(field(a, pos), d),
        node_within(field(a, pos), pos, a.len()),
{
    lemma_field_id_local(a, b, d, pos);
    let (id, after_id) = optional(field_id(a, pos), pos);
    lemma_requiredness_local(a, b, d, after_id);
    let (required, after_required) = optional(requiredness(a, after_id), after_id);
    lemma_field_type_local(a, b, d, after_required);
    match field_type(a, after_required) {
        Some((type_, type_end)) => {
            lemma_separator_local(a, b, d, type_end);
            match separator(a, type_end) {
                Some(name_start) => {
                    lemma_identifier_local(a, b, d, name_start);
                    match identifier(a, name_start) {
                        Some(name_end) => {
                            lemma_subrange_local(a, b, d, pos, name_start, name_end);
                            lemma_default_value_local(a, b, d, name_end);
                        },
                        None => {},
                    }
                },
                None => {},
            }
        },
        None => {},
    }
}

/// The rule `member` gives the same on aligned inputs, `d` bytes further on.
pub proof fn lemma_member_local(a: Seq<u8>, b: Seq<u8>, d: int, pos: int)
    requires
        aligned(a, b, d, pos),
    ensures
        member(b, pos + d) == moved_node(member(a, pos), d),
        node_within(member(a, pos), pos, a.len()),
{
    lemma_field_local(a, b, d, pos);
    match field(a, pos) {
        Some((f, end)) => {
            lemma_skip_terminator_local(a, b, d, end);
        },
        None => {},
    }
}

/// The rule `field_rule` gives the same on aligned inputs, at every aligned
/// position.
pub proof fn lemma_field_rule_local(a: Seq<u8>, b: Seq<u8>, d: int, from: int)
    requires
        aligned(a, b, d, from),
    ensures
        rules_agree(field_rule(a), field_rule(b), d, from, a.len()),
{
    assert forall|p: int| from <= p <= a.len() implies #[trigger] field_rule(b)(p + d)
        == moved_node(field_rule(a)(p), d) && node_within(field_rule(a)(p), p, a.len()) by {
        lemma_field_local(a, b, d, p);
    }
}

/// The rule `member_rule` gives the same on aligned inputs, at every aligned
/// position.
pub proof fn lemma_member_rule_local(a: Seq<u8>, b: Seq<u8>, d: int, from: int)
    requires
        aligned(a, b, d, from),
    ensures
        rules_agree(member_rule(a), member_rule(b), d, from, a.len()),
{
    assert forall|p: int| from <= p <= a.len() implies #[trigger] member_rule(b)(p + d)
        == moved_node(member_rule(a)(p), d) && node_within(member_rule(a)(p), p, a.len()) by {
        lemma_member_local(a, b, d, p);
    }
}

/// The rule `field_list` gives the same on aligned inputs, `d` bytes further
/// on.
#[verifier::rlimit(30)]
pub proof fn lemma_field_list_local(a: Seq<u8>, b: Seq<u8>, d: int, pos: int)
    requires
        aligned(a, b, d, pos),
    ensures
        field_list(b, pos + d) == moved_node(field_list(a, pos), d),
        node_within(field_list(a, pos), pos, a.len()),
{
    lemma_mark_local(a, b, d, pos, '(');
    match mark(a, pos, '(') {
        Some(open) => {
            lemma_skip_separator_local(a, b, d, open);
            let start = skip_separator(a, open);
            lemma_list_gap_rule_local(a, b, d, pos);
            lemma_field_rule_local(a, b, d, pos);
            lemma_list_local(
                a.len(),
                d,
                pos,
                start,
                list_gap_rule(a),
                field_rule(a),
                list_gap_rule(b),
                field_rule(b),
            );
            let stop = list(a.len() as int, start, list_gap_rule(a), field_rule(a)).1;
            lemma_list_gap_local(a, b, d, stop);
            lemma_mark_local(a, b, d, skip_list_gap(a, stop), ')');
        },
        None => {},
    }
}

/// The rule `throws` gives the same on aligned inputs, `d` bytes further on.
pub proof fn lemma_throws_local(a: Seq<u8>, b: Seq<u8>, d: int, pos: int)
    requires
        aligned(a, b, d, pos),
    ensures
        throws(b, pos + d) == moved_node(throws(a, pos), d),
        node_within(throws(a, pos), pos, a.len()),
{
    lemma_skip_separator_local(a, b, d, pos);
    let at = skip_separator(a, pos);
    lemma_keyword_local(a, b, d, at, "throws"@);
    match keyword(a, at, "throws"@) {
        Some(after) => {
            lemma_field_list_local(a, b, d, after);
        },
        None => {},
    }
}

/// The rule `return_type` gives the same on aligned inputs, `d` bytes further
/// on.
pub proof fn lemma_return_type_local(a: Seq<u8>, b: Seq<u8>, d: int, pos: int)
    requires
        aligned(a, b, d, pos),
    ensures
        return_type(b, pos + d) == moved_node(return_type(a, pos), d),
        node_within(return_type(a, pos), pos, a.len()),
{
    lemma_keyword_local(a, b, d, pos, "void"@);
    lemma_field_type_local(a, b, d, pos);
}

/// The rule `function` gives the same on aligned inputs, `d` bytes further on.
#[verifier::rlimit(30)]
pub proof fn lemma_function_local(a: Seq<u8>, b: Seq<u8>, d: int, pos: int)
    requires
        aligned(a, b, d, pos),
    ensures
        function(b, pos + d) == moved_node(function(a, pos), d),
        node_within(function(a, pos), pos, a.len()),
{
    lemma_spaced_keyword_local(a, b, d, pos, "oneway"@);
    let start = match spaced_keyword(a, pos, "oneway"@) {
        Some(end) => end,
        None => pos,
    };
    lemma_return_type_local(a, b, d, start);
    match return_type(a, start) {
        Some((returned, returned_end)) => {
            lemma_separator_local(a, b, d, returned_end);
            match separator(a, returned_end) {
                Some(name_start) => {
                    lemma_identifier_local(a, b, d, name_start);
                    match identifier(a, name_start) {
                        Some(name_end) => {
                            lemma_subrange_local(a, b, d, pos, name_start, name_end);
                            lemma_field_list_local(a, b, d, name_end);
                            match field_list(a, name_end) {
                                Some((parameters, parameters_end)) => {
                                    lemma_throws_local(a, b, d, parameters_end);
                                },
                                None => {},
                            }
                        },
                        None => {},
                    }
                },
                None => {},
            }
        },
        None => {},
    }
}

/// The rule `service_member` gives the same on aligned inputs, `d` bytes
/// further on.
pub proof fn lemma_service_member_local(a: Seq<u8>, b: Seq<u8>, d: int, pos: int)
    requires
        aligned(a, b, d, pos),
    ensures
        service_member(b, pos + d) == moved_node(service_member(a, pos), d),
        node_within(service_member(a, pos), pos, a.len()),
{
    lemma_function_local(a, b, d, pos);
    match function(a, pos) {
        Some((f, end)) => {
            lemma_skip_terminator_local(a, b, d, end);
        },
        None => {},
    }
}

/// The rule `service_member_rule` gives the same on aligned inputs, at every
/// aligned position.
pub proof fn lemma_service_member_rule_local(a: Seq<u8>, b: Seq<u8>, d: int, from: int)
    requires
        aligned(a, b, d, from),
    ensures
        rules_agree(service_member_rule(a), service_member_rule(b), d, from, a.len()),
{
    assert forall|p: int| from <= p <= a.len() implies #[trigger] service_member_rule(b)(p + d)
        == moved_node(service_member_rule(a)(p), d) && node_within(
        service_member_rule(a)(p),
        p,
        a.len(),
    ) by {
        lemma_service_member_local(a, b, d, p);
    }
}

/// The rule `enum_value` gives the same on aligned inputs, `d` bytes further
/// on.
#[verifier::rlimit(30)]
pub proof fn lemma_enum_value_local(a: Seq<u8>, b: Seq<u8>, d: int, pos: int)
    requires
        aligned(a, b, d, pos),
    ensures
        enum_value(b, pos + d) == moved_node(enum_value(a, pos), d),
        node_within(enum_value(a, pos), pos, a.len()),
{
    lemma_identifier_local(a, b, d, pos);
    match identifier(a, pos) {
        Some(name_end) => {
            lemma_subrange_local(a, b, d, pos, pos, name_end);
            lemma_mark_local(a, b, d, name_end, '=');
            match mark(a, name_end, '=') {
                Some(equals) => {
                    lemma_skip_separator_local(a, b, d, equals);
                    lemma_int_constant_local(a, b, d, skip_separator(a, equals));
                },
                None => {},
            }
        },
        None => {},
    }
}

/// The rule `enum_value_rule` gives the same on aligned inputs, at every
/// aligned position.
pub proof fn lemma_enum_value_rule_local(a: Seq<u8>, b: Seq<u8>, d: int, from: int)
    requires
        aligned(a, b, d, from),
    ensures
        rules_agree(enum_value_rule(a), enum_value_rule(b), d, from, a.len()),
{
    assert forall|p: int| from <= p <= a.len() implies #[trigger] enum_value_rule(b)(p + d)
        == moved_node(enum_value_rule(a)(p), d) && node_within(
        enum_value_rule(a)(p),
        p,
        a.len(),
    ) by {
        lemma_enum_value_local(a, b, d, p);
    }
}

/// The rule `doc_comment` gives the same on aligned inputs, `d` bytes further
/// on.
#[verifier::rlimit(30)]
pub proof fn lemma_doc_comment_local(a: Seq<u8>, b: Seq<u8>, d: int, pos: int)
    requires
        aligned(a, b, d, pos),
    ensures
        doc_comment(b, pos + d) == (doc_comment(a, pos).0, doc_comment(a, pos).1 + d),
        pos <= doc_comment(a, pos).1 <= a.len(),
{
    lemma_comment_local(a, b, d, pos);
    match comment(a, pos) {
        Some((text, end)) => {
            lemma_linefeed_local(a, b, d, end);
            match linefeed(a, end) {
                Some(next_line) => {
                    lemma_run_end_local(a, b, d, next_line, ByteClass::Blank);
                },
                None => {},
            }
        },
        None => {},
    }
}

/// The rule `definition_head` gives the same on aligned inputs, `d` bytes
/// further on.
pub proof fn lemma_definition_head_local(
    a: Seq<u8>,
    b: Seq<u8>,
    d: int,
    pos: int,
    word: Seq<char>,
)
    requires
        aligned(a, b, d, pos),
    ensures
        definition_head(b, pos + d, word) == moved_node(definition_head(a, pos, word), d),
        node_within(definition_head(a, pos, word), pos, a.len()),
        failure_kind(b, pos + d, word) == failure_kind(a, pos, word),
{
    lemma_doc_comment_local(a, b, d, pos);
    lemma_spaced_keyword_local(a, b, d, doc_comment(a, pos).1, word);
}

/// What follows the head of `const_definition` gives the same on inputs that are
/// aligned from the end of the head on.
#[verifier::rlimit(30)]
pub proof fn lemma_const_definition_after_head(
    a: Seq<u8>,
    b: Seq<u8>,
    d: int,
    from: int,
    to: int,
)
    requires
        definition_head(b, to, "const"@) == moved_node(definition_head(a, from, "const"@), d),
        definition_head(a, from, "const"@) matches Some((_, start)) ==> aligned(a, b, d, start),
    ensures
        const_definition(b, to) == moved_node(const_definition(a, from), d),
        const_definition(a, from) matches Some((_, end)) ==> end <= a.len() && (definition_head(
            a,
            from,
            "const"@,
        ) matches Some((_, start)) && start <= end),
{
    match definition_head(a, from, "const"@) {
        Some((doc, start)) => {
            lemma_field_type_local(a, b, d, start);
            match field_type(a, start) {
                Some((type_, type_end)) => {
                    lemma_separator_local(a, b, d, type_end);
                    match separator(a, type_end) {
                        Some(name_start) => {
                            lemma_identifier_local(a, b, d, name_start);
                            match identifier(a, name_start) {
                                Some(name_end) => {
                                    lemma_subrange_local(a, b, d, start, name_start, name_end);
                                    lemma_default_value_local(a, b, d, name_end);
                                    match default_value(a, name_end) {
                                        Some((value, end)) => {
                                            lemma_skip_terminator_local(a, b, d, end);
                                        },
                                        None => {},
                                    }
                                },
                                None => {},
                            }
                        },
                        None => {},
                    }
                },
                None => {},
            }
        },
        None => {},
    }
}


/// The rule `const_definition` gives the same on aligned inputs, `d` bytes
/// further on.
pub proof fn lemma_const_definition_local(a: Seq<u8>, b: Seq<u8>, d: int, pos: int)
    requires
        aligned(a, b, d, pos),
    ensures
        const_definition(b, pos + d) == moved_node(const_definition(a, pos), d),
        node_within(const_definition(a, pos), pos, a.len()),
{
    lemma_definition_head_local(a, b, d, pos, "const"@);
    lemma_const_definition_after_head(a, b, d, pos, pos + d);
}

/// What follows the head of `typedef_definition` gives the same on inputs that are
/// aligned from the end of the head on.
#[verifier::rlimit(30)]
pub proof fn lemma_typedef_definition_after_head(
    a: Seq<u8>,
    b: Seq<u8>,
    d: int,
    from: int,
    to: int,
)
    requires
        definition_head(b, to, "typedef"@) == moved_node(definition_head(a, from, "typedef"@), d),
        definition_head(a, from, "typedef"@) matches Some((_, start)) ==> aligned(a, b, d, start),
    ensures
        typedef_definition(b, to) == moved_node(typedef_definition(a, from), d),
        typedef_definition(a, from) matches Some((_, end)) ==> end <= a.len() && (definition_head(
            a,
            from,
            "typedef"@,
        ) matches Some((_, start)) && start <= end),
{
    match definition_head(a, from, "typedef"@) {
        Some((doc, start)) => {
            lemma_definition_type_local(a, b, d, start);
            match definition_type(a, start) {
                Some((old, old_end)) => {
                    lemma_separator_local(a, b, d, old_end);
                    match separator(a, old_end) {
                        Some(alias_start) => {
                            lemma_identifier_local(a, b, d, alias_start);
                            match identifier(a, alias_start) {
                                Some(end) => {
                                    lemma_subrange_local(a, b, d, start, alias_start, end);
                                },
                                None => {},
                            }
                        },
                        None => {},
                    }
                },
                None => {},
            }
        },
        None => {},
    }
}


/// The rule `typedef_definition` gives the same on aligned inputs, `d` bytes
/// further on.
pub proof fn lemma_typedef_definition_local(a: Seq<u8>, b: Seq<u8>, d: int, pos: int)
    requires
        aligned(a, b, d, pos),
    ensures
        typedef_definition(b, pos + d) == moved_node(typedef_definition(a, pos), d),
        node_within(typedef_definition(a, pos), pos, a.len()),
{
    lemma_definition_head_local(a, b, d, pos, "typedef"@);
    lemma_typedef_definition_after_head(a, b, d, pos, pos + d);
}

/// What follows the head of `enum_definition` gives the same on inputs that are
/// aligned from the end of the head on.
#[verifier::rlimit(30)]
pub proof fn lemma_enum_definition_after_head(
    a: Seq<u8>,
    b: Seq<u8>,
    d: int,
    from: int,
    to: int,
)
    requires
        definition_head(b, to, "enum"@) == moved_node(definition_head(a, from, "enum"@), d),
        definition_head(a, from, "enum"@) matches Some((_, start)) ==> aligned(a, b, d, start),
    ensures
        enum_definition(b, to) == moved_node(enum_definition(a, from), d),
        enum_definition(a, from) matches Some((_, end)) ==> end <= a.len() && (definition_head(
            a,
            from,
            "enum"@,
        ) matches Some((_, start)) && start <= end),
{
    match definition_head(a, from, "enum"@) {
        Some((doc, name_start)) => {
            lemma_identifier_local(a, b, d, name_start);
            match identifier(a, name_start) {
                Some(name_end) => {
                    lemma_subrange_local(a, b, d, name_start, name_start, name_end);
                    lemma_mark_local(a, b, d, name_end, '{');
                    match mark(a, name_end, '{') {
                        Some(open) => {
                            lemma_skip_separator_local(a, b, d, open);
                            let start = skip_separator(a, open);
                            lemma_list_gap_rule_local(a, b, d, name_start);
                            lemma_enum_value_rule_local(a, b, d, name_start);
                            lemma_list_local(
                                a.len(),
                                d,
                                name_start,
                                start,
                                list_gap_rule(a),
                                enum_value_rule(a),
                                list_gap_rule(b),
                                enum_value_rule(b),
                            );
                            let stop = list(
                                a.len() as int,
                                start,
                                list_gap_rule(a),
                                enum_value_rule(a),
                            ).1;
                            lemma_list_gap_local(a, b, d, stop);
                            lemma_mark_local(a, b, d, skip_list_gap(a, stop), '}');
                        },
                        None => {},
                    }
                },
                None => {},
            }
        },
        None => {},
    }
}


/// The rule `enum_definition` gives the same on aligned inputs, `d` bytes
/// further on.
pub proof fn lemma_enum_definition_local(a: Seq<u8>, b: Seq<u8>, d: int, pos: int)
    requires
        aligned(a, b, d, pos),
    ensures
        enum_definition(b, pos + d) == moved_node(enum_definition(a, pos), d),
        node_within(enum_definition(a, pos), pos, a.len()),
{
    lemma_definition_head_local(a, b, d, pos, "enum"@);
    lemma_enum_definition_after_head(a, b, d, pos, pos + d);
}

/// What follows the head of `record_definition` gives the same on inputs that are
/// aligned from the end of the head on.
#[verifier::rlimit(30)]
pub proof fn lemma_record_definition_after_head(
    a: Seq<u8>,
    b: Seq<u8>,
    d: int,
    from: int,
    to: int,
    word: Seq<char>,
)
    requires
        definition_head(b, to, word) == moved_node(definition_head(a, from, word), d),
        definition_head(a, from, word) matches Some((_, start)) ==> aligned(a, b, d, start),
    ensures
        record_definition(b, to, word) == moved_node(record_definition(a, from, word), d),
        record_definition(a, from, word) matches Some((_, end)) ==> end <= a.len() && (definition_head(
            a,
            from,
            word,
        ) matches Some((_, start)) && start <= end),
{
    match definition_head(a, from, word) {
        Some((doc, name_start)) => {
            lemma_identifier_local(a, b, d, name_start);
            match identifier(a, name_start) {
                Some(name_end) => {
                    lemma_subrange_local(a, b, d, name_start, name_start, name_end);
                    lemma_mark_local(a, b, d, name_end, '{');
                    match mark(a, name_end, '{') {
                        Some(open) => {
                            lemma_skip_separator_local(a, b, d, open);
                            let start = skip_separator(a, open);
                            lemma_separator_rule_local(a, b, d, name_start);
                            lemma_member_rule_local(a, b, d, name_start);
                            lemma_list_local(
                                a.len(),
                                d,
                                name_start,
                                start,
                                separator_rule(a),
                                member_rule(a),
                                separator_rule(b),
                                member_rule(b),
                            );
                            let stop = list(
                                a.len() as int,
                                start,
                                separator_rule(a),
                                member_rule(a),
                            ).1;
                            lemma_mark_local(a, b, d, stop, '}');
                        },
                        None => {},
                    }
                },
                None => {},
            }
        },
        None => {},
    }
}


/// The rule `record_definition` gives the same on aligned inputs, `d` bytes
/// further on.
pub proof fn lemma_record_definition_local(
    a: Seq<u8>,
    b: Seq<u8>,
    d: int,
    pos: int,
    word: Seq<char>,
)
    requires
        aligned(a, b, d, pos),
    ensures
        record_definition(b, pos + d, word) == moved_node(record_definition(a, pos, word), d),
        node_within(record_definition(a, pos, word), pos, a.len()),
{
    lemma_definition_head_local(a, b, d, pos, word);
    lemma_record_definition_after_head(a, b, d, pos, pos + d, word);
}

/// The rule `extension` gives the same on aligned inputs, `d` bytes further
/// on.
#[verifier::rlimit(30)]
pub proof fn lemma_extension_local(a: Seq<u8>, b: Seq<u8>, d: int, pos: int)
    requires
        aligned(a, b, d, pos),
    ensures
        extension(b, pos + d) == moved_node(extension(a, pos), d),
        node_within(extension(a, pos), pos, a.len()),
{
    lemma_spaced_keyword_local(a, b, d, pos, "extends"@);
    match spaced_keyword(a, pos, "extends"@) {
        Some(name_start) => {
            lemma_identifier_local(a, b, d, name_start);
            match identifier(a, name_start) {
                Some(name_end) => {
                    lemma_subrange_local(a, b, d, pos, name_start, name_end);
                    lemma_skip_separator_local(a, b, d, name_end);
                },
                None => {},
            }
        },
        None => {},
    }
}

/// What follows the head of `service_definition` gives the same on inputs that are
/// aligned from the end of the head on.
#[verifier::rlimit(30)]
pub proof fn lemma_service_definition_after_head(
    a: Seq<u8>,
    b: Seq<u8>,
    d: int,
    from: int,
    to: int,
)
    requires
        definition_head(b, to, "service"@) == moved_node(definition_head(a, from, "service"@), d),
        definition_head(a, from, "service"@) matches Some((_, start)) ==> aligned(a, b, d, start),
    ensures
        service_definition(b, to) == moved_node(service_definition(a, from), d),
        service_definition(a, from) matches Some((_, end)) ==> end <= a.len() && (definition_head(
            a,
            from,
            "service"@,
        ) matches Some((_, start)) && start <= end),
{
    match definition_head(a, from, "service"@) {
        Some((doc, name_start)) => {
            lemma_identifier_local(a, b, d, name_start);
            match identifier(a, name_start) {
                Some(name_end) => {
                    lemma_subrange_local(a, b, d, name_start, name_start, name_end);
                    lemma_skip_separator_local(a, b, d, name_end);
                    let after_name = skip_separator(a, name_end);
                    lemma_extension_local(a, b, d, after_name);
                    let (base, open) = optional(extension(a, after_name), after_name);
                    lemma_byte_is_local(a, b, d, open, '{');
                    if byte_is(a, open, '{') {
                        lemma_skip_separator_local(a, b, d, open + 1);
                        let start = skip_separator(a, open + 1);
                        lemma_separator_rule_local(a, b, d, name_start);
                        lemma_service_member_rule_local(a, b, d, name_start);
                        lemma_list_local(
                            a.len(),
                            d,
                            name_start,
                            start,
                            separator_rule(a),
                            service_member_rule(a),
                            separator_rule(b),
                            service_member_rule(b),
                        );
                        let stop = list(
                            a.len() as int,
                            start,
                            separator_rule(a),
                            service_member_rule(a),
                        ).1;
                        lemma_mark_local(a, b, d, stop, '}');
                    }
                },
                None => {},
            }
        },
        None => {},
    }
}


/// The rule `service_definition` gives the same on aligned inputs, `d` bytes
/// further on.
pub proof fn lemma_service_definition_local(a: Seq<u8>, b: Seq<u8>, d: int, pos: int)
    requires
        aligned(a, b, d, pos),
    ensures
        service_definition(b, pos + d) == moved_node(service_definition(a, pos), d),
        node_within(service_definition(a, pos), pos, a.len()),
{
    lemma_definition_head_local(a, b, d, pos, "service"@);
    lemma_service_definition_after_head(a, b, d, pos, pos + d);
}

} // verus!
