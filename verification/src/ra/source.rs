//! Places in source text: offsets, lines and columns, and the ids of spans.

use crate::host::{deterministic_stable_id, derived_id, SpanCoord, SpanId, SpanKey, SpanKeyView};
use crate::ra::file_id::EditionedFileId;
use crate::text::{decimal, decimal_of, owned};
use ra_ap_ide::{LineIndex, TextSize};
use vstd::prelude::*;
use vstd::utf8::{encode_utf8, is_char_boundary};

verus! {

/// The length of a text in bytes.
pub open spec fn byte_len(text: Seq<char>) -> nat {
    encode_utf8(text).len()
}

/// A text whose offsets fit the positions of the source model.
pub open spec fn indexable(text: Seq<char>) -> bool {
    byte_len(text) < u32::MAX
}

/// How many lines end in the bytes.
pub open spec fn line_breaks(bytes: Seq<u8>) -> nat
    decreases bytes.len(),
{
    if bytes.len() == 0 {
        0
    } else {
        line_breaks(bytes.drop_last()) + if bytes.last() == 0x0a {
            1nat
        } else {
            0nat
        }
    }
}

/// How many bytes follow the last line break.
pub open spec fn after_break(bytes: Seq<u8>) -> nat
    decreases bytes.len(),
{
    if bytes.len() == 0 || bytes.last() == 0x0a {
        0
    } else {
        after_break(bytes.drop_last()) + 1
    }
}

/// The line and the byte column of an offset, where a character starts or the
/// text ends.
pub open spec fn coord_at(text: Seq<char>, offset: u32) -> Option<(u32, u32)> {
    let bytes = encode_utf8(text);
    if offset <= bytes.len() && is_char_boundary(bytes, offset as int) {
        let before = bytes.take(offset as int);
        Some((line_breaks(before) as u32, after_break(before) as u32))
    } else {
        None
    }
}

/// `LineIndex::new` and `LineIndex::try_line_col` of `ra_ap_ide`: the zero-based
/// line and byte column of an offset, nothing for an offset past the end or
/// inside a character. Building the index panics on a text of `u32::MAX` bytes
/// or more.
#[verifier::external_body]
fn line_col(text: &str, offset: u32) -> (r: Option<(u32, u32)>)
    requires
        indexable(text@),
    ensures
        r == coord_at(text@, offset),
{
    let place = LineIndex::new(text).try_line_col(TextSize::from(offset))?;
    Some((place.line, place.col))
}

/// The key of a range of a file's text.
pub open spec fn key_in_text(
    rel_path: Seq<char>,
    text: Seq<char>,
    start: u32,
    end: u32,
) -> Option<SpanKeyView> {
    match (coord_at(text, start), coord_at(text, end)) {
        (Some(from), Some(to)) => Some(SpanKeyView { rel_path, start: from, end: to }),
        _ => None,
    }
}

/// The key of a range of a file's text.
pub fn lookup_span_key_from_text(
    rel_path: &str,
    source_text: &str,
    start: u32,
    end: u32,
) -> (r: Option<SpanKey>)
    requires
        indexable(source_text@),
    ensures
        match r {
            Some(key) => key_in_text(rel_path@, source_text@, start, end) == Some(key@),
            None => key_in_text(rel_path@, source_text@, start, end) is None,
        },
{
    match (line_col(source_text, start), line_col(source_text, end)) {
        (Some((l0, c0)), Some((l1, c1))) => Some(
            SpanKey::new(rel_path, SpanCoord::new(l0, c0), SpanCoord::new(l1, c1)),
        ),
        _ => None,
    }
}

/// A range as text.
pub open spec fn range_text(start: u32, end: u32) -> Seq<char> {
    decimal(start as nat) + ".."@ + decimal(end as nat)
}

/// A range as text.
pub fn range_to_text(start: u32, end: u32) -> (r: String)
    ensures
        r@ == range_text(start, end),
{
    let mut out = decimal_of(start as u64);
    out.append("..");
    out.append(decimal_of(end as u64).as_str());
    out
}

/// A place in a file as text.
pub open spec fn place_text(rel_path: Seq<char>, start: u32, end: u32) -> Seq<char> {
    rel_path + ":"@ + range_text(start, end)
}

/// A place in a file as text.
pub fn place_to_text(rel_path: &str, start: u32, end: u32) -> (r: String)
    ensures
        r@ == place_text(rel_path@, start, end),
{
    let mut out = owned(rel_path);
    out.append(":");
    out.append(range_to_text(start, end).as_str());
    out
}

/// The id of the span of a place in a file: the file's number and the range.
pub open spec fn span_id_of(file_id: EditionedFileId, start: u32, end: u32) -> u64 {
    derived_id("span"@, place_text(decimal(file_id.number() as nat), start, end))
}

/// The id of the span of a place in a file.
pub fn span_of_place(file_id: EditionedFileId, start: u32, end: u32) -> (r: SpanId)
    ensures
        r@ == span_id_of(file_id, start, end),
{
    let number = decimal_of(file_id.as_u32() as u64);
    SpanId::new(
        deterministic_stable_id("span", place_to_text(number.as_str(), start, end).as_str()),
    )
}

/// The line and the byte column at which the characters before `i` end.
pub open spec fn char_coord(text: Seq<char>, i: int) -> (u32, u32)
    decreases i,
{
    if i <= 0 || i > text.len() {
        (0, 0)
    } else {
        let (line, column) = char_coord(text, i - 1);
        if text[i - 1] == '\n' {
            (if line < u32::MAX { (line + 1) as u32 } else { line }, 0)
        } else {
            let wide = column + byte_len(seq![text[i - 1]]);
            (line, if wide <= u32::MAX { wide as u32 } else { u32::MAX })
        }
    }
}

/// The first character, or the end, from `i` on that stands at the coordinate.
pub open spec fn char_at_coord(text: Seq<char>, coord: (u32, u32), i: int) -> Option<int>
    decreases text.len() + 1 - i,
{
    if i < 0 || i > text.len() {
        None
    } else if char_coord(text, i) == coord {
        Some(i)
    } else {
        char_at_coord(text, coord, i + 1)
    }
}

/// The byte offset of the first place at the coordinate.
pub open spec fn offset_at(text: Seq<char>, coord: (u32, u32)) -> Option<nat> {
    match char_at_coord(text, coord, 0) {
        Some(i) => Some(byte_len(text.take(i))),
        None => None,
    }
}

/// How many bytes the encoding of a character takes.
fn char_bytes(c: char) -> (r: usize)
    ensures
        r == encode_utf8(seq![c]).len(),
        1 <= r <= 4,
{
    let code: u32 = c as u32;
    proof {
        vstd::utf8::char_is_scalar(c);
        assert(seq![c].drop_first() =~= Seq::<char>::empty());
        assert(encode_utf8(Seq::<char>::empty()) =~= Seq::<u8>::empty());
        assert(seq![c][0] == c);
    }
    if code <= 0x7f {
        1
    } else if code <= 0x7ff {
        2
    } else if code <= 0xffff {
        3
    } else {
        4
    }
}

/// Encoding one text after the other is encoding the two together.
pub proof fn lemma_encode_concat(a: Seq<char>, b: Seq<char>)
    ensures
        encode_utf8(a + b) == encode_utf8(a) + encode_utf8(b),
    decreases a.len(),
{
    if a.len() == 0 {
        assert(a + b =~= b);
        assert(encode_utf8(a) + encode_utf8(b) =~= encode_utf8(b));
    } else {
        assert((a + b).drop_first() =~= a.drop_first() + b);
        lemma_encode_concat(a.drop_first(), b);
        assert(encode_utf8(a + b) =~= encode_utf8(a) + encode_utf8(b));
    }
}

/// The byte offset of the first place at the coordinate.
pub fn offset_for_coord(source_text: &str, coord: SpanCoord) -> (r: Option<usize>)
    requires
        indexable(source_text@),
    ensures
        match r {
            Some(offset) => offset_at(source_text@, coord@) == Some(offset as nat),
            None => offset_at(source_text@, coord@) is None,
        },
{
    let chars = crate::text::chars_of(source_text);
    let mut line: u32 = 0;
    let mut column: u32 = 0;
    let mut offset: usize = 0;
    let mut i: usize = 0;
    proof {
        assert(source_text@.take(0) =~= Seq::<char>::empty());
        assert(encode_utf8(source_text@.take(0)) =~= Seq::<u8>::empty());
    }
    while i < chars.len()
        invariant
            chars@ == source_text@,
            indexable(source_text@),
            i <= chars@.len(),
            (line, column) == char_coord(source_text@, i as int),
            offset == byte_len(source_text@.take(i as int)),
            offset < u32::MAX,
            char_at_coord(source_text@, coord@, 0) == char_at_coord(
                source_text@,
                coord@,
                i as int,
            ),
        decreases chars.len() - i,
    {
        if line == coord.line() && column == coord.column() {
            return Some(offset);
        }
        let c: char = chars[i];
        if c == '\n' {
            line = line.saturating_add(1);
            column = 0;
        } else {
            column = column.saturating_add(char_bytes(c) as u32);
        }
        proof {
            let taken = source_text@.take(i + 1);
            assert(taken =~= source_text@.take(i as int) + seq![c]);
            lemma_encode_concat(source_text@.take(i as int), seq![c]);
            assert(source_text@ =~= taken + source_text@.skip(i + 1));
            lemma_encode_concat(taken, source_text@.skip(i + 1));
        }
        offset = offset + char_bytes(c);
        i += 1;
    }
    proof {
        assert(source_text@.take(i as int) =~= source_text@);
    }
    if line == coord.line() && column == coord.column() {
        Some(offset)
    } else {
        assert(char_at_coord(source_text@, coord@, i + 1) is None);
        None
    }
}

} // verus!
