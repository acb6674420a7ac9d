use vstd::prelude::*;

use crate::text::{boundary, line_body, line_count, line_start, splice, visible_lines};
use vstd::string::StringSliceAdditionalSpecFns;
use vstd::utf8::encode_utf8;
use xi_rope::Rope;

verus! {

// The stored text lives in xi_rope's persistent rope.  The rope is opaque to
// the verifier; `rope_bytes` names the byte sequence it holds, and each
// wrapper below states, over that name, what one rope operation does.

/// The persistent rope that stores the text.  `xi_rope::Rope` is an alias of
/// a generic node type bounded by an outside trait, which cannot be declared
/// here, so the rope sits in a hidden field instead.
#[verifier::external_body]
pub struct TextRope {
    rope: Rope,
}

/// The bytes held by a rope (its text, in UTF-8).
pub uninterp spec fn rope_bytes(r: TextRope) -> Seq<u8>;

/// Relies on xi_rope's `Rope::from` (via `FromStr`): the rope holds exactly
/// the bytes of the given string.
#[verifier::external_body]
pub fn rope_from_str(s: &str) -> (r: TextRope)
    ensures
        rope_bytes(r) == s.spec_bytes(),
        rope_bytes(r).len() <= usize::MAX,
{
    TextRope { rope: Rope::from(s) }
}

/// Relies on `Clone` for `Node`: a clone shares structure and holds the same
/// bytes.
#[verifier::external_body]
pub fn rope_clone(r: &TextRope) -> (res: TextRope)
    ensures
        rope_bytes(res) == rope_bytes(*r),
{
    TextRope { rope: r.rope.clone() }
}

/// Relies on `Node::len`: the length of the rope in bytes.
#[verifier::external_body]
pub fn rope_len(r: &TextRope) -> (res: usize)
    ensures
        res == rope_bytes(*r).len(),
{
    r.rope.len()
}

/// Relies on `Rope::offset_of_line`: the byte offset where the given line
/// begins.  Within the line count it never reaches the function's panic.
#[verifier::external_body]
pub fn rope_offset_of_line(r: &TextRope, line: usize) -> (res: usize)
    requires
        line < line_count(rope_bytes(*r)),
    ensures
        res == line_start(rope_bytes(*r), line as nat),
{
    r.rope.offset_of_line(line)
}

/// Relies on `Node::edit`: replaces the byte range `[start, end)` with the
/// given string.  The offsets must lie on character boundaries, which the
/// rope's internal slicing requires.
#[verifier::external_body]
pub fn rope_edit(r: &mut TextRope, start: usize, end: usize, ins: &str)
    requires
        start <= end <= rope_bytes(*old(r)).len(),
        boundary(rope_bytes(*old(r)), start as int),
        boundary(rope_bytes(*old(r)), end as int),
    ensures
        rope_bytes(*final(r)) == splice(
            rope_bytes(*old(r)),
            start as int,
            end as int,
            ins.spec_bytes(),
        ),
{
    r.rope.edit(start..end, ins)
}

/// Relies on `Rope::lines` over the whole rope: one string per line, in
/// order, with `\n` (and a `\r` before it) stripped, and no final empty
/// segment after a trailing newline.
#[verifier::external_body]
pub fn rope_lines(r: &TextRope) -> (res: Vec<String>)
    ensures
        res@.len() == visible_lines(rope_bytes(*r)),
        forall|i: int|
            0 <= i < res@.len() ==> encode_utf8(#[trigger] res@[i]@) == line_body(
                rope_bytes(*r),
                i as nat,
            ),
{
    r.rope.lines(..).map(|c| c.into_owned()).collect()
}

/// Relies on `From<&Rope> for String`: the whole text as one string.
#[verifier::external_body]
pub fn rope_to_string(r: &TextRope) -> (res: String)
    ensures
        encode_utf8(res@) == rope_bytes(*r),
{
    String::from(&r.rope)
}

} // verus!
