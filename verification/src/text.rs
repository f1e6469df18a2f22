//! Cutting text out of the input.
//!
//! The grammar works on bytes, the nodes hold string slices. A slice may only
//! be cut where one character ends and the next begins; every cut that the
//! parsers make stands next to an ASCII byte, and that is enough.

use vstd::prelude::*;
use vstd::string::StringSliceAdditionalSpecFns;
use vstd::utf8::{
    is_char_boundary, is_char_boundary_iff_not_is_continuation_byte,
    is_char_boundary_start_end_of_seq, pop_first_scalar, valid_utf8, valid_utf8_split,
};

verus! {

/// Whether a string slice may be cut at `pos`: the position is the end of the
/// bytes, or has an ASCII byte before it or at it.
pub open spec fn cut_point(s: Seq<u8>, pos: int) -> bool {
    ||| pos == 0
    ||| pos == s.len()
    ||| (0 <= pos < s.len() && s[pos] < 0x80)
    ||| (0 < pos <= s.len() && s[pos - 1] < 0x80)
}

/// In well-formed UTF-8, a character starts at every ASCII byte and directly
/// after it.
pub proof fn lemma_ascii_is_boundary(s: Seq<u8>, at: int)
    requires
        valid_utf8(s),
        0 <= at < s.len(),
        s[at] < 0x80,
    ensures
        is_char_boundary(s, at),
        is_char_boundary(s, at + 1),
{
    is_char_boundary_iff_not_is_continuation_byte(s, at);
    valid_utf8_split(s, at);
    let tail = s.subrange(at, s.len() as int);
    assert(tail[0] == s[at]);
    assert(valid_utf8(tail));
    assert(valid_utf8(pop_first_scalar(tail)));
    assert(pop_first_scalar(tail) == tail.subrange(1, tail.len() as int));
    if at + 1 < s.len() {
        let rest = pop_first_scalar(tail);
        assert(rest.len() > 0);
        assert(rest[0] == s[at + 1]);
        assert(vstd::utf8::valid_first_scalar(rest));
        is_char_boundary_iff_not_is_continuation_byte(s, at + 1);
    } else {
        is_char_boundary_start_end_of_seq(s);
    }
}

/// Every cut point of well-formed UTF-8 is a character boundary.
pub proof fn lemma_cut_point_is_boundary(s: Seq<u8>, pos: int)
    requires
        valid_utf8(s),
        cut_point(s, pos),
    ensures
        is_char_boundary(s, pos),
{
    is_char_boundary_start_end_of_seq(s);
    if pos == 0 || pos == s.len() {
    } else if 0 <= pos < s.len() && s[pos] < 0x80 {
        lemma_ascii_is_boundary(s, pos);
    } else {
        lemma_ascii_is_boundary(s, pos - 1);
    }
}

/// The text of `src` between the byte positions `from` and `to`.
pub(crate) fn slice_text<'a>(src: &'a str, from: usize, to: usize) -> (r: &'a str)
    requires
        from <= to <= src.spec_bytes().len(),
        cut_point(src.spec_bytes(), from as int),
        cut_point(src.spec_bytes(), to as int),
    ensures
        r.spec_bytes() == src.spec_bytes().subrange(from as int, to as int),
{
    broadcast use vstd::utf8::encode_utf8_valid_utf8;
    let ghost bytes = src.spec_bytes();
    proof {
        lemma_cut_point_is_boundary(bytes, from as int);
        lemma_cut_point_is_boundary(bytes, to as int);
    }
    let (head, _) = src.split_at(to);
    proof {
        let h = head.spec_bytes();
        assert(h =~= bytes.subrange(0, to as int));
        valid_utf8_split(bytes, to as int);
        is_char_boundary_start_end_of_seq(h);
        if from < to {
            is_char_boundary_iff_not_is_continuation_byte(bytes, from as int);
            is_char_boundary_iff_not_is_continuation_byte(h, from as int);
        }
    }
    let (_, r) = head.split_at(from);
    proof {
        assert(r.spec_bytes() =~= bytes.subrange(from as int, to as int));
    }
    r
}

/// The text of `src` from the byte position `from` on.
pub(crate) fn rest_of_text<'a>(src: &'a str, from: usize) -> (r: &'a str)
    requires
        from <= src.spec_bytes().len(),
        cut_point(src.spec_bytes(), from as int),
    ensures
        r.spec_bytes() == src.spec_bytes().skip(from as int),
{
    broadcast use vstd::utf8::encode_utf8_valid_utf8;
    proof {
        lemma_cut_point_is_boundary(src.spec_bytes(), from as int);
    }
    let (_, r) = src.split_at(from);
    r
}

} // verus!
