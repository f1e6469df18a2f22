//! Laws of the parser, each proved from the grammar.
//!
//! - The owned form of a definition is the borrowed form, converted: the
//!   `law_*_round_trip` laws.
//! - What a definition is depends on nothing but the input from its start
//!   on: `law_rest_alone_counts`.
//! - Whitespace and comments between the pieces of a definition are
//!   immaterial. A separator may be replaced by any other separator
//!   (`law_separator_is_immaterial`), and one may be put in where two pieces
//!   touch (the `law_*_may_be_parted` laws); the definition is the same, and
//!   only its end moves.

use vstd::prelude::*;
use crate::definition::{
    exception_definition, struct_definition, union_definition, Const, ConstRef, Enum, EnumRef,
    Exception, ExceptionRef, Service, ServiceRef, Struct, StructRef, Typedef, TypedefRef, Union,
    UnionRef,
};
use crate::grammar::{
    comment_span, const_definition, definition_head, doc_comment, enum_definition, failure_kind,
    find_block_end, is_whitespace, keyword, list_gap, mark, record_definition, run_end, separator,
    separator_unit, service_definition, skip_separator, text_at, typedef_definition, ByteClass,
};
use crate::locality::{
    aligned, lemma_const_definition_local, lemma_enum_definition_local, lemma_list_gap_local,
    lemma_mark_local, lemma_record_definition_local, lemma_service_definition_local,
    lemma_skip_separator_local, lemma_typedef_definition_local, moved, moved_node,
};
use crate::spacing::{
    carried_node, is_word, keyword_end, lemma_aligned_behind, lemma_const_definition_behind_head,
    lemma_doc_comment_agrees, lemma_enum_definition_behind_head, lemma_keyword_agrees,
    lemma_record_definition_behind_head, lemma_separator_replaced,
    lemma_service_definition_behind_head, lemma_typedef_definition_behind_head, longer, placed,
    reaches, replaced,
};
use crate::widening::{
    lemma_const_definition_widened, lemma_enum_definition_widened, lemma_parted,
    lemma_record_definition_widened, lemma_service_definition_widened,
    lemma_typedef_definition_widened, may_be_parted,
};

verus! {

/// Converting the constant that the borrowing parser gave yields what the
/// owning parser gives: the two results are the same, and so is the end.
pub proof fn law_const_round_trip(
    s: Seq<u8>,
    borrowed: ConstRef,
    borrowed_end: int,
    converted: Const,
    owned: Const,
    owned_end: int,
)
    requires
        const_definition(s, 0) == Some((borrowed@, borrowed_end)),
        converted@ == borrowed@,
        const_definition(s, 0) == Some((owned@, owned_end)),
    ensures
        converted@ == owned@,
        borrowed_end == owned_end,
{
}

/// Converting the type definition that the borrowing parser gave yields what
/// the owning parser gives.
pub proof fn law_typedef_round_trip(
    s: Seq<u8>,
    borrowed: TypedefRef,
    borrowed_end: int,
    converted: Typedef,
    owned: Typedef,
    owned_end: int,
)
    requires
        typedef_definition(s, 0) == Some((borrowed@, borrowed_end)),
        converted@ == borrowed@,
        typedef_definition(s, 0) == Some((owned@, owned_end)),
    ensures
        converted@ == owned@,
        borrowed_end == owned_end,
{
}

/// Converting the enum that the borrowing parser gave yields what the owning
/// parser gives.
pub proof fn law_enum_round_trip(
    s: Seq<u8>,
    borrowed: EnumRef,
    borrowed_end: int,
    converted: Enum,
    owned: Enum,
    owned_end: int,
)
    requires
        enum_definition(s, 0) == Some((borrowed@, borrowed_end)),
        converted@ == borrowed@,
        enum_definition(s, 0) == Some((owned@, owned_end)),
    ensures
        converted@ == owned@,
        borrowed_end == owned_end,
{
}

/// Converting the struct that the borrowing parser gave yields what the
/// owning parser gives.
pub proof fn law_struct_round_trip(
    s: Seq<u8>,
    borrowed: StructRef,
    borrowed_end: int,
    converted: Struct,
    owned: Struct,
    owned_end: int,
)
    requires
        struct_definition(s, 0) == Some((borrowed@, borrowed_end)),
        converted@ == borrowed@,
        struct_definition(s, 0) == Some((owned@, owned_end)),
    ensures
        converted@ == owned@,
        borrowed_end == owned_end,
{
}

/// Converting the union that the borrowing parser gave yields what the owning
/// parser gives.
pub proof fn law_union_round_trip(
    s: Seq<u8>,
    borrowed: UnionRef,
    borrowed_end: int,
    converted: Union,
    owned: Union,
    owned_end: int,
)
    requires
        union_definition(s, 0) == Some((borrowed@, borrowed_end)),
        converted@ == borrowed@,
        union_definition(s, 0) == Some((owned@, owned_end)),
    ensures
        converted@ == owned@,
        borrowed_end == owned_end,
{
}

/// Converting the exception that the borrowing parser gave yields what the
/// owning parser gives.
pub proof fn law_exception_round_trip(
    s: Seq<u8>,
    borrowed: ExceptionRef,
    borrowed_end: int,
    converted: Exception,
    owned: Exception,
    owned_end: int,
)
    requires
        exception_definition(s, 0) == Some((borrowed@, borrowed_end)),
        converted@ == borrowed@,
        exception_definition(s, 0) == Some((owned@, owned_end)),
    ensures
        converted@ == owned@,
        borrowed_end == owned_end,
{
}

/// Converting the service that the borrowing parser gave yields what the
/// owning parser gives.
pub proof fn law_service_round_trip(
    s: Seq<u8>,
    borrowed: ServiceRef,
    borrowed_end: int,
    converted: Service,
    owned: Service,
    owned_end: int,
)
    requires
        service_definition(s, 0) == Some((borrowed@, borrowed_end)),
        converted@ == borrowed@,
        service_definition(s, 0) == Some((owned@, owned_end)),
    ensures
        converted@ == owned@,
        borrowed_end == owned_end,
{
}

/// A type definition renames a base type or a container type, never a type
/// that is only referred to by its name.
pub proof fn law_typedef_renames_no_name(s: Seq<u8>, pos: int)
    ensures
        typedef_definition(s, pos) matches Some((node, _)) ==> !(node.old is Named),
{
}

/// What is left of an input is all that counts: a definition parsed at `pos`
/// of the whole input is the definition parsed at the start of the input
/// from `pos` on, and it ends `pos` bytes further on.
pub proof fn law_rest_alone_counts(s: Seq<u8>, pos: int)
    requires
        0 <= pos <= s.len(),
    ensures
        const_definition(s, pos) == moved_node(const_definition(s.skip(pos), 0), pos),
        typedef_definition(s, pos) == moved_node(typedef_definition(s.skip(pos), 0), pos),
        enum_definition(s, pos) == moved_node(enum_definition(s.skip(pos), 0), pos),
        struct_definition(s, pos) == moved_node(struct_definition(s.skip(pos), 0), pos),
        union_definition(s, pos) == moved_node(union_definition(s.skip(pos), 0), pos),
        exception_definition(s, pos) == moved_node(exception_definition(s.skip(pos), 0), pos),
        service_definition(s, pos) == moved_node(service_definition(s.skip(pos), 0), pos),
{
    let rest = s.skip(pos);
    assert(aligned(rest, s, pos, 0));
    lemma_const_definition_local(rest, s, pos, 0);
    lemma_typedef_definition_local(rest, s, pos, 0);
    lemma_enum_definition_local(rest, s, pos, 0);
    lemma_record_definition_local(rest, s, pos, 0, "struct"@);
    lemma_record_definition_local(rest, s, pos, 0, "union"@);
    lemma_record_definition_local(rest, s, pos, 0, "exception"@);
    lemma_service_definition_local(rest, s, pos, 0);
}

/// A separator is as long as it can be: where the optional separator ends,
/// none starts.
pub proof fn law_separator_is_maximal(s: Seq<u8>, pos: int)
    requires
        0 <= pos <= s.len(),
    ensures
        skip_separator(s, skip_separator(s, pos)) == skip_separator(s, pos),
        separator(s, skip_separator(s, pos)).is_none(),
    decreases s.len() - pos,
{
    match separator_unit(s, pos) {
        Some(end) => {
            if pos < end <= s.len() {
                law_separator_is_maximal(s, end);
            }
        },
        None => {},
    }
}

/// Whether `w` from `pos` on is whitespace and comments and nothing else,
/// with every line comment ended by the end of its line inside `w`.
pub open spec fn separator_text(w: Seq<u8>, pos: int) -> bool
    decreases w.len() - pos,
{
    if 0 <= pos < w.len() {
        match separator_unit(w, pos) {
            Some(end) => pos < end <= w.len() && (is_whitespace(w[pos]) || text_at(
                w,
                pos,
                "/*"@,
            ) || end < w.len()) && separator_text(w, end),
            None => false,
        }
    } else {
        pos == w.len()
    }
}

/// `s` with `w` put in at `pos`.
pub open spec fn inserted(s: Seq<u8>, pos: int, w: Seq<u8>) -> Seq<u8> {
    s.take(pos) + w + s.skip(pos)
}

proof fn lemma_run_ends_inside(w: Seq<u8>, b: Seq<u8>, p: int, at: int, class: ByteClass)
    requires
        0 <= p,
        0 <= at <= w.len(),
        p + w.len() <= b.len(),
        forall|i: int| 0 <= i < w.len() ==> #[trigger] w[i] == b[p + i],
        run_end(w, at, class) < w.len(),
    ensures
        run_end(b, p + at, class) == p + run_end(w, at, class),
    decreases w.len() - at,
{
    if at < w.len() {
        assert(w[at] == b[p + at]);
        if class.holds(w[at]) {
            lemma_run_ends_inside(w, b, p, at + 1, class);
        }
    }
}

proof fn lemma_block_ends_inside(w: Seq<u8>, b: Seq<u8>, p: int, at: int)
    requires
        0 <= p,
        0 <= at <= w.len(),
        p + w.len() <= b.len(),
        forall|i: int| 0 <= i < w.len() ==> #[trigger] w[i] == b[p + i],
        find_block_end(w, at).is_some(),
    ensures
        find_block_end(b, p + at) == Some(p + find_block_end(w, at).unwrap()),
    decreases w.len() - at,
{
    if at + 2 <= w.len() {
        assert(w[at] == b[p + at]);
        assert(w[at + 1] == b[p + at + 1]);
        if !(w[at] == '*' as u8 && w[at + 1] == '/' as u8) {
            lemma_block_ends_inside(w, b, p, at + 1);
        }
    }
}

#[verifier::rlimit(30)]
proof fn lemma_separator_text_is_skipped(w: Seq<u8>, b: Seq<u8>, p: int, at: int)
    requires
        0 <= p,
        0 <= at <= w.len(),
        p + w.len() <= b.len(),
        forall|i: int| 0 <= i < w.len() ==> #[trigger] w[i] == b[p + i],
        separator_text(w, at),
    ensures
        skip_separator(b, p + at) == skip_separator(b, p + w.len()),
    decreases w.len() - at,
{
    if at < w.len() {
        reveal(text_at);
        reveal_strlit("//");
        reveal_strlit("/*");
        let end = separator_unit(w, at).unwrap();
        assert(w[at] == b[p + at]);
        if !is_whitespace(w[at]) {
            assert(comment_span(w, at).is_some());
            if text_at(w, at, "//"@) {
                assert(w[at + 1] == b[p + at + 1]);
                assert(w[at + 1] == "//"@[1] as u8);
                assert(text_at(w, at, "/*"@) ==> w[at + 1] == "/*"@[1] as u8);
                assert(!text_at(w, at, "/*"@));
                assert(end == run_end(w, at + 2, ByteClass::LineText));
                lemma_run_ends_inside(w, b, p, at + 2, ByteClass::LineText);
            } else if text_at(w, at, "/*"@) {
                assert(w[at + 1] == b[p + at + 1]);
                lemma_block_ends_inside(w, b, p, at + 2);
            } else {
                assert(end == run_end(w, at + 1, ByteClass::LineText));
                lemma_run_ends_inside(w, b, p, at + 1, ByteClass::LineText);
            }
        }
        assert(separator_unit(b, p + at) == Some(p + end));
        lemma_separator_text_is_skipped(w, b, p, end);
    }
}

/// Whitespace and comments that are put in where an optional separator is
/// read are read with it: the separator ends where it ended, further on by
/// what was put in. So does every rule that starts with an optional
/// separator, and where something was put in, a separator is there.
#[verifier::rlimit(30)]
pub proof fn law_inserted_separator_is_skipped(s: Seq<u8>, pos: int, w: Seq<u8>, c: char)
    requires
        0 <= pos <= s.len(),
        separator_text(w, 0),
    ensures
        skip_separator(inserted(s, pos, w), pos) == skip_separator(s, pos) + w.len(),
        mark(inserted(s, pos, w), pos, c) == moved(mark(s, pos, c), w.len() as int),
        w.len() > 0 ==> separator(inserted(s, pos, w), pos) == Some(
            skip_separator(s, pos) + w.len(),
        ),
        list_gap(s, pos).is_some() ==> list_gap(inserted(s, pos, w), pos) == moved(
            list_gap(s, pos),
            w.len() as int,
        ),
{
    let b = inserted(s, pos, w);
    let d = w.len() as int;
    assert(b.len() == s.len() + d);
    assert forall|i: int| 0 <= i < w.len() implies #[trigger] w[i] == b[pos + i] by {}
    assert(aligned(s, b, d, pos)) by {
        assert forall|i: int| pos <= i < s.len() implies #[trigger] s[i] == b[i + d] by {}
    }
    lemma_separator_text_is_skipped(w, b, pos, 0);
    lemma_skip_separator_local(s, b, d, pos);
    let at = skip_separator(s, pos);
    assert(aligned(s, b, d, at));
    lemma_mark_local(s, b, d, at, c);
    law_separator_is_maximal(s, pos);
    law_separator_is_maximal(b, pos);
    lemma_list_gap_local(s, b, d, at);
    crate::locality::lemma_list_separator_local(s, b, d, at);
    match crate::grammar::list_separator(s, at) {
        Some(after) => {
            lemma_skip_separator_local(s, b, d, after);
        },
        None => {},
    }
}

/// Whether a separator of the definition with the keyword `word`, which
/// starts `a`, starts at `g`: the keyword stands at the start of `a`, after
/// the comment that documents the definition if there is one, and `g` lies
/// behind the keyword, between two pieces of the text, with whitespace or a
/// comment behind it.
pub open spec fn separates(a: Seq<u8>, g: int, word: Seq<char>) -> bool {
    &&& is_word(word)
    &&& keyword(a, doc_comment(a, 0).1, word).is_some()
    &&& reaches(a, keyword_end(a, word), g)
    &&& skip_separator(a, g) > g
}

#[verifier::rlimit(30)]
proof fn lemma_head_replaced(a: Seq<u8>, b: Seq<u8>, g: int, word: Seq<char>)
    requires
        separates(a, g, word),
        replaced(a, b, g),
    ensures
        definition_head(b, 0, word) == carried_node(a, b, g, definition_head(a, 0, word)),
        definition_head(a, 0, word) matches Some((_, start)) ==> placed(a, g, start),
        failure_kind(b, 0, word) == failure_kind(a, 0, word),
{
    let start = doc_comment(a, 0).1;
    let k = keyword_end(a, word);
    assert(keyword(a, start, word) == Some(k)) by {
        reveal(text_at);
    }
    lemma_aligned_behind(a, b, g);
    crate::locality::lemma_doc_comment_local(a, a, 0, 0);
    crate::locality::lemma_keyword_local(a, a, 0, start, word);
    assert(k <= g);
    lemma_doc_comment_agrees(a, b, k, word);
    if k < g {
        assert(a[k] == b[k]);
    }
    lemma_keyword_agrees(a, b, k, start, word);
    lemma_separator_replaced(a, b, g, k);
}

/// What stands in a separator of a definition is immaterial: where the
/// whitespace and comments of one separator are replaced by any other
/// whitespace and comments, the definition is the same. The node is the same
/// or the failure is, and the definition ends where it ended, or further on by
/// what the separator is longer if it ends behind it.
#[verifier::rlimit(30)]
pub proof fn law_separator_is_immaterial(a: Seq<u8>, b: Seq<u8>, g: int, word: Seq<char>)
    requires
        separates(a, g, word),
        replaced(a, b, g),
    ensures
        failure_kind(b, 0, word) == failure_kind(a, 0, word),
        word == "const"@ ==> const_definition(b, 0) == carried_node(
            a,
            b,
            g,
            const_definition(a, 0),
        ),
        word == "typedef"@ ==> typedef_definition(b, 0) == carried_node(
            a,
            b,
            g,
            typedef_definition(a, 0),
        ),
        word == "enum"@ ==> enum_definition(b, 0) == carried_node(
            a,
            b,
            g,
            enum_definition(a, 0),
        ),
        record_definition(b, 0, word) == carried_node(a, b, g, record_definition(a, 0, word)),
        word == "service"@ ==> service_definition(b, 0) == carried_node(
            a,
            b,
            g,
            service_definition(a, 0),
        ),
{
    lemma_head_replaced(a, b, g, word);
    if word == "const"@ {
        lemma_const_definition_behind_head(a, b, g, 0, 0);
    }
    if word == "typedef"@ {
        lemma_typedef_definition_behind_head(a, b, g, 0, 0);
    }
    if word == "enum"@ {
        lemma_enum_definition_behind_head(a, b, g, 0, 0);
    }
    lemma_record_definition_behind_head(a, b, g, 0, 0, word);
    if word == "service"@ {
        lemma_service_definition_behind_head(a, b, g, 0, 0);
    }
}

/// Whitespace and comments that are put in where a separator of a
/// definition starts make the separator longer, and nothing else.
pub proof fn law_inserted_separator_is_a_replacement(a: Seq<u8>, g: int, w: Seq<u8>)
    requires
        0 <= g <= a.len(),
        skip_separator(a, g) > g,
        separator_text(w, 0),
    ensures
        replaced(a, inserted(a, g, w), g),
        longer(a, inserted(a, g, w), g) == w.len(),
{
    let b = inserted(a, g, w);
    law_inserted_separator_is_skipped(a, g, w, ' ');
    crate::locality::lemma_skip_separator_local(a, a, 0, g);
    let r = skip_separator(a, g);
    assert(a.skip(r) =~= b.skip(r + w.len()));
    assert forall|i: int| 0 <= i < g implies #[trigger] a[i] == b[i] by {}
}

/// Which whitespace and comments are put in at a place is immaterial:
/// whatever is put in, the one input is the other with a separator replaced,
/// and so holds the same definition.
pub proof fn law_inserted_separators_replace_each_other(
    a: Seq<u8>,
    g: int,
    one: Seq<u8>,
    other: Seq<u8>,
)
    requires
        0 <= g <= a.len(),
        separator_text(one, 0),
        separator_text(other, 0),
        one.len() > 0,
        other.len() > 0,
    ensures
        replaced(inserted(a, g, one), inserted(a, g, other), g),
        longer(inserted(a, g, one), inserted(a, g, other), g) == other.len() - one.len(),
{
    let x = inserted(a, g, one);
    let y = inserted(a, g, other);
    law_inserted_separator_is_skipped(a, g, one, ' ');
    law_inserted_separator_is_skipped(a, g, other, ' ');
    crate::locality::lemma_skip_separator_local(a, a, 0, g);
    let r = skip_separator(a, g);
    assert(x.skip(r + one.len()) =~= a.skip(r));
    assert(y.skip(r + other.len()) =~= a.skip(r));
    assert forall|i: int| 0 <= i < g implies #[trigger] x[i] == y[i] by {}
}

/// Where two pieces of a definition touch, a separator may be put in
/// between them: with whitespace and comments put in there, the input holds
/// the same constant definition, and it ends further on by what was put in
/// if it ends behind it.
pub proof fn law_const_may_be_parted(n: Seq<u8>, g: int, sep: Seq<u8>)
    requires
        may_be_parted(n, g, "const"@),
        separator_text(sep, 0),
        sep.len() > 0,
        const_definition(n, 0).is_some(),
    ensures
        const_definition(inserted(n, g, sep), 0).is_some(),
        const_definition(n, 0) == carried_node(
            inserted(n, g, sep),
            n,
            g,
            const_definition(inserted(n, g, sep), 0),
        ),
        longer(inserted(n, g, sep), n, g) == -sep.len(),
{
    lemma_parted(n, g, sep, "const"@);
    lemma_const_definition_widened(inserted(n, g, sep), n, g);
}

/// Where two pieces of a type definition touch, a separator may be put in
/// between them.
pub proof fn law_typedef_may_be_parted(n: Seq<u8>, g: int, sep: Seq<u8>)
    requires
        may_be_parted(n, g, "typedef"@),
        separator_text(sep, 0),
        sep.len() > 0,
        typedef_definition(n, 0).is_some(),
    ensures
        typedef_definition(inserted(n, g, sep), 0).is_some(),
        typedef_definition(n, 0) == carried_node(
            inserted(n, g, sep),
            n,
            g,
            typedef_definition(inserted(n, g, sep), 0),
        ),
        longer(inserted(n, g, sep), n, g) == -sep.len(),
{
    lemma_parted(n, g, sep, "typedef"@);
    lemma_typedef_definition_widened(inserted(n, g, sep), n, g);
}

/// Where two pieces of an enum touch, a separator may be put in between
/// them.
pub proof fn law_enum_may_be_parted(n: Seq<u8>, g: int, sep: Seq<u8>)
    requires
        may_be_parted(n, g, "enum"@),
        separator_text(sep, 0),
        sep.len() > 0,
        enum_definition(n, 0).is_some(),
    ensures
        enum_definition(inserted(n, g, sep), 0).is_some(),
        enum_definition(n, 0) == carried_node(
            inserted(n, g, sep),
            n,
            g,
            enum_definition(inserted(n, g, sep), 0),
        ),
        longer(inserted(n, g, sep), n, g) == -sep.len(),
{
    lemma_parted(n, g, sep, "enum"@);
    lemma_enum_definition_widened(inserted(n, g, sep), n, g);
}

/// Where two pieces of a struct, a union or an exception touch, a separator
/// may be put in between them.
pub proof fn law_record_may_be_parted(n: Seq<u8>, g: int, sep: Seq<u8>, word: Seq<char>)
    requires
        may_be_parted(n, g, word),
        separator_text(sep, 0),
        sep.len() > 0,
        record_definition(n, 0, word).is_some(),
    ensures
        record_definition(inserted(n, g, sep), 0, word).is_some(),
        record_definition(n, 0, word) == carried_node(
            inserted(n, g, sep),
            n,
            g,
            record_definition(inserted(n, g, sep), 0, word),
        ),
        longer(inserted(n, g, sep), n, g) == -sep.len(),
{
    lemma_parted(n, g, sep, word);
    lemma_record_definition_widened(inserted(n, g, sep), n, g, word);
}

/// Where two pieces of a service touch, a separator may be put in between
/// them.
pub proof fn law_service_may_be_parted(n: Seq<u8>, g: int, sep: Seq<u8>)
    requires
        may_be_parted(n, g, "service"@),
        separator_text(sep, 0),
        sep.len() > 0,
        service_definition(n, 0).is_some(),
    ensures
        service_definition(inserted(n, g, sep), 0).is_some(),
        service_definition(n, 0) == carried_node(
            inserted(n, g, sep),
            n,
            g,
            service_definition(inserted(n, g, sep), 0),
        ),
        longer(inserted(n, g, sep), n, g) == -sep.len(),
{
    lemma_parted(n, g, sep, "service"@);
    lemma_service_definition_widened(inserted(n, g, sep), n, g);
}

} // verus!
