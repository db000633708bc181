//! Places that are rendered as lines and columns read back to their offsets.

use crate::ra::source::{
    after_break, byte_len, char_at_coord, char_coord, coord_at, indexable, lemma_encode_concat,
    line_breaks, offset_at,
};
use vstd::prelude::*;
use vstd::utf8::{
    char_is_scalar, encode_scalar, encode_utf8, encode_utf8_first_scalar, encode_utf8_valid_utf8,
    is_char_boundary, is_char_boundary_iff_is_leading_byte, is_char_boundary_start_end_of_seq,
    length_of_first_scalar, pop_first_scalar,
};

verus! {

/// A line feed is encoded as itself, and no other character has its byte.
proof fn lemma_scalar_bytes(c: char)
    ensures
        c == '\n' ==> encode_scalar(c as u32) == seq![0x0au8],
        c != '\n' ==> forall|i: int|
            0 <= i < encode_scalar(c as u32).len() ==> #[trigger] encode_scalar(c as u32)[i] != 0x0a,
        encode_scalar(c as u32).len() >= 1,
{
    char_is_scalar(c);
    let v: u32 = c as u32;
    assert(v <= 0x7f ==> (v & 0x7f) as u8 == v as u8) by (bit_vector);
    assert(forall|x: u8| (0x80u8 | x) != 0x0a) by (bit_vector);
    assert(forall|x: u8| (0xc0u8 | x) != 0x0a) by (bit_vector);
    assert(forall|x: u8| (0xe0u8 | x) != 0x0a) by (bit_vector);
    assert(forall|x: u8| (0xf0u8 | x) != 0x0a) by (bit_vector);
    if c == '\n' {
        assert(encode_scalar(v) =~= seq![0x0au8]);
    }
}

/// Bytes without a line feed end no line and widen the last one.
proof fn lemma_same_line(a: Seq<u8>, b: Seq<u8>)
    requires
        forall|i: int| 0 <= i < b.len() ==> #[trigger] b[i] != 0x0a,
    ensures
        line_breaks(a + b) == line_breaks(a),
        after_break(a + b) == after_break(a) + b.len(),
    decreases b.len(),
{
    if b.len() == 0 {
        assert(a + b =~= a);
    } else {
        let rest = b.drop_last();
        assert((a + b).drop_last() =~= a + rest);
        assert forall|i: int| 0 <= i < rest.len() implies #[trigger] rest[i] != 0x0a by {
            assert(rest[i] == b[i]);
        }
        lemma_same_line(a, rest);
        assert((a + b).last() == b[b.len() - 1]);
    }
}

/// The encoding of a text of one character.
proof fn lemma_encode_one(c: char)
    ensures
        encode_utf8(seq![c]) == encode_scalar(c as u32),
{
    assert(seq![c].drop_first() =~= Seq::<char>::empty());
    assert(encode_utf8(Seq::<char>::empty()) =~= Seq::<u8>::empty());
    assert(encode_utf8(seq![c]) =~= encode_scalar(c as u32));
}

/// The encoding of a text with one more character.
proof fn lemma_encode_next(text: Seq<char>, k: int)
    requires
        0 <= k < text.len(),
    ensures
        encode_utf8(text.take(k + 1)) == encode_utf8(text.take(k)) + encode_scalar(text[k] as u32),
        byte_len(text.take(k + 1)) <= byte_len(text),
{
    let c = text[k];
    assert(text.take(k + 1) =~= text.take(k) + seq![c]);
    lemma_encode_concat(text.take(k), seq![c]);
    lemma_encode_one(c);
    assert(text =~= text.take(k + 1) + text.skip(k + 1));
    lemma_encode_concat(text.take(k + 1), text.skip(k + 1));
}

/// Lines and columns count alike over the bytes and over the characters.
proof fn lemma_coords_agree(text: Seq<char>, k: int)
    requires
        indexable(text),
        0 <= k <= text.len(),
    ensures
        char_coord(text, k).0 as nat == line_breaks(encode_utf8(text.take(k))),
        char_coord(text, k).1 as nat == after_break(encode_utf8(text.take(k))),
        char_coord(text, k).0 + char_coord(text, k).1 <= byte_len(text.take(k)),
        byte_len(text.take(k)) <= byte_len(text),
    decreases k,
{
    if k == 0 {
        assert(text.take(0) =~= Seq::<char>::empty());
        assert(encode_utf8(text.take(0)) =~= Seq::<u8>::empty());
    } else {
        let c = text[k - 1];
        lemma_coords_agree(text, k - 1);
        lemma_encode_next(text, k - 1);
        lemma_scalar_bytes(c);
        lemma_encode_one(c);
        let before = encode_utf8(text.take(k - 1));
        let here = encode_utf8(text.take(k));
        if c == '\n' {
            assert(here =~= before.push(0x0a));
            assert(here.drop_last() =~= before);
        } else {
            lemma_same_line(before, encode_scalar(c as u32));
        }
    }
}

/// Places go on: a later place stands at a later coordinate.
proof fn lemma_coords_ascend(text: Seq<char>, i: int, k: int)
    requires
        indexable(text),
        0 <= i < k <= text.len(),
    ensures
        char_coord(text, i).0 < char_coord(text, k).0 || (char_coord(text, i).0 == char_coord(
            text,
            k,
        ).0 && char_coord(text, i).1 < char_coord(text, k).1),
    decreases k,
{
    lemma_coords_agree(text, k - 1);
    lemma_coords_agree(text, k);
    lemma_encode_next(text, k - 1);
    lemma_scalar_bytes(text[k - 1]);
    lemma_encode_one(text[k - 1]);
    if i < k - 1 {
        lemma_coords_ascend(text, i, k - 1);
    }
}

/// Searching finds a place by its coordinate.
proof fn lemma_place_found(text: Seq<char>, k: int, from: int)
    requires
        indexable(text),
        0 <= from <= k <= text.len(),
    ensures
        char_at_coord(text, char_coord(text, k), from) == Some(k),
    decreases k - from,
{
    if from < k {
        lemma_coords_ascend(text, from, k);
        lemma_place_found(text, k, from + 1);
    }
}

/// What a search finds stands at the coordinate.
proof fn lemma_found_place(text: Seq<char>, coord: (u32, u32), from: int)
    requires
        0 <= from,
    ensures
        match char_at_coord(text, coord, from) {
            Some(k) => from <= k <= text.len() && char_coord(text, k) == coord,
            None => true,
        },
    decreases text.len() + 1 - from,
{
    if from <= text.len() && char_coord(text, from) != coord {
        lemma_found_place(text, coord, from + 1);
    }
}

/// The start of a character, or the end of the text, is a place, at the
/// coordinate that its characters count.
proof fn lemma_character_place(text: Seq<char>, k: int)
    requires
        indexable(text),
        0 <= k <= text.len(),
    ensures
        byte_len(text.take(k)) < u32::MAX,
        coord_at(text, byte_len(text.take(k)) as u32) == Some(char_coord(text, k)),
{
    let bytes = encode_utf8(text);
    let offset = byte_len(text.take(k)) as int;
    lemma_coords_agree(text, k);
    assert(text =~= text.take(k) + text.skip(k));
    lemma_encode_concat(text.take(k), text.skip(k));
    assert(bytes.take(offset) =~= encode_utf8(text.take(k)));
    encode_utf8_valid_utf8(text);
    if k == text.len() {
        assert(text.take(k) =~= text);
        is_char_boundary_start_end_of_seq(bytes);
    } else {
        let rest = text.skip(k);
        encode_utf8_first_scalar(rest);
        lemma_scalar_bytes(rest[0]);
        assert(bytes[offset] == encode_utf8(rest)[0]);
        is_char_boundary_iff_is_leading_byte(bytes, offset);
    }
}

/// A boundary between characters is where one of them starts, or the end.
proof fn lemma_boundary_place(text: Seq<char>, offset: int) -> (k: int)
    requires
        is_char_boundary(encode_utf8(text), offset),
    ensures
        0 <= k <= text.len(),
        byte_len(text.take(k)) == offset,
    decreases text.len(),
{
    let bytes = encode_utf8(text);
    encode_utf8_valid_utf8(text);
    if offset == 0 || text.len() == 0 {
        assert(text.take(0) =~= Seq::<char>::empty());
        assert(encode_utf8(text.take(0)) =~= Seq::<u8>::empty());
        0
    } else {
        let rest = text.drop_first();
        encode_utf8_first_scalar(text);
        assert(pop_first_scalar(bytes) =~= encode_utf8(rest));
        let k = lemma_boundary_place(rest, offset - length_of_first_scalar(bytes));
        assert(text.take(k + 1) =~= seq![text[0]] + rest.take(k));
        lemma_encode_concat(seq![text[0]], rest.take(k));
        lemma_encode_one(text[0]);
        k + 1
    }
}

/// A place in a text reads back from its coordinate: the offset that has the
/// coordinate is the one that is found for it.
pub proof fn law_places_read_back(text: Seq<char>, offset: u32)
    requires
        indexable(text),
        coord_at(text, offset) is Some,
    ensures
        offset_at(text, coord_at(text, offset)->0) == Some(offset as nat),
{
    let k = lemma_boundary_place(text, offset as int);
    lemma_character_place(text, k);
    lemma_place_found(text, k, 0);
}

/// What is found for a coordinate is a place that has it.
pub proof fn law_found_places_have_their_coordinate(text: Seq<char>, coord: (u32, u32))
    requires
        indexable(text),
        offset_at(text, coord) is Some,
    ensures
        offset_at(text, coord)->0 < u32::MAX,
        coord_at(text, (offset_at(text, coord)->0) as u32) == Some(coord),
{
    lemma_found_place(text, coord, 0);
    lemma_character_place(text, char_at_coord(text, coord, 0)->0);
}

} // verus!
