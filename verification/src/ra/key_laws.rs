//! Keys tell apart what they stand for.

use crate::ra::snapshot_text::{counted, encoded_parts};
use crate::ra::source::{byte_len, lemma_encode_concat};
use crate::ra::world::{
    file_inputs, files_ordered, law_files_are_sorted, sorted_files, stamp_on, world_input_views,
    HashInputView, WorldFileView,
};
use crate::search::lemma_joined_head;
use crate::text::{decimal, digit_char, joined, lemma_text_total, text_before};
use vstd::prelude::*;
use vstd::utf8::{encode_utf8, encode_utf8_decode_utf8};

verus! {

/// A decimal rendering holds digits only.
proof fn lemma_decimal_digits(value: nat)
    ensures
        decimal(value).len() > 0,
        forall|i: int| 0 <= i < decimal(value).len() ==> (#[trigger] decimal(value)[i]) != '#',
    decreases value,
{
    if value >= 10 {
        lemma_decimal_digits(value / 10);
        let front = decimal(value / 10);
        assert forall|i: int| 0 <= i < decimal(value).len() implies (#[trigger] decimal(value)[i])
            != '#' by {
            if i < front.len() {
                assert(decimal(value)[i] == front[i]);
            }
        }
    }
}

/// The digit that a character is.
spec fn digit_of(c: char) -> nat {
    if c == '0' {
        0
    } else if c == '1' {
        1
    } else if c == '2' {
        2
    } else if c == '3' {
        3
    } else if c == '4' {
        4
    } else if c == '5' {
        5
    } else if c == '6' {
        6
    } else if c == '7' {
        7
    } else if c == '8' {
        8
    } else {
        9
    }
}

proof fn lemma_digit_of(digit: nat)
    requires
        digit < 10,
    ensures
        digit_of(digit_char(digit)) == digit,
{
}

/// A number's decimal rendering tells it.
proof fn lemma_decimal_injective(a: nat, b: nat)
    requires
        decimal(a) == decimal(b),
    ensures
        a == b,
    decreases a,
{
    if a < 10 && b < 10 {
        assert(decimal(a)[0] == digit_char(a));
        assert(decimal(b)[0] == digit_char(b));
        lemma_digit_of(a);
        lemma_digit_of(b);
    } else if a < 10 {
        lemma_decimal_digits(b / 10);
        assert(decimal(b).len() > 1);
    } else if b < 10 {
        lemma_decimal_digits(a / 10);
        assert(decimal(a).len() > 1);
    } else {
        assert(decimal(a).drop_last() =~= decimal(a / 10));
        assert(decimal(b).drop_last() =~= decimal(b / 10));
        assert(decimal(a).last() == decimal(b).last());
        lemma_decimal_injective(a / 10, b / 10);
        assert(decimal(a).last() == digit_char(a % 10));
        assert(decimal(b).last() == digit_char(b % 10));
        lemma_digit_of(a % 10);
        lemma_digit_of(b % 10);
        assert(a % 10 == b % 10);
    }
}

/// Texts of the same length in bytes that start the same text are the same.
proof fn lemma_prefix_by_bytes(a: Seq<char>, b: Seq<char>, c: Seq<char>, d: Seq<char>)
    requires
        a + c == b + d,
        byte_len(a) == byte_len(b),
    ensures
        a == b,
        c == d,
{
    let whole = a + c;
    if a.len() <= b.len() {
        let extra = b.skip(a.len() as int);
        assert(b =~= a + extra) by {
            assert forall|i: int| 0 <= i < a.len() implies a[i] == b[i] by {
                assert(whole[i] == (b + d)[i]);
            }
        }
        lemma_encode_concat(a, extra);
        lemma_bytes_positive(extra);
        assert(extra.len() == 0);
        assert(a =~= b);
    } else {
        let extra = a.skip(b.len() as int);
        assert(a =~= b + extra) by {
            assert forall|i: int| 0 <= i < b.len() implies a[i] == b[i] by {
                assert(whole[i] == (b + d)[i]);
            }
        }
        lemma_encode_concat(b, extra);
        lemma_bytes_positive(extra);
        assert(a =~= b);
    }
    assert(c =~= whole.skip(a.len() as int));
    assert(d =~= (b + d).skip(b.len() as int));
}

/// A text with characters has bytes.
proof fn lemma_bytes_positive(text: Seq<char>)
    ensures
        byte_len(text) == 0 ==> text.len() == 0,
{
    if text.len() > 0 {
        vstd::utf8::encode_utf8_decode_utf8(text);
        if byte_len(text) == 0 {
            assert(encode_utf8(text) =~= Seq::<u8>::empty());
            assert(vstd::utf8::decode_utf8(Seq::<u8>::empty()) =~= Seq::<char>::empty());
        }
    }
}

/// A part with its length in front is told by what it starts.
proof fn lemma_counted_prefix(a: Seq<char>, b: Seq<char>, c: Seq<char>, d: Seq<char>)
    requires
        counted(a) + c == counted(b) + d,
    ensures
        a == b,
        c == d,
{
    reveal_strlit("#");
    let x = decimal(byte_len(a));
    let y = decimal(byte_len(b));
    lemma_decimal_digits(byte_len(a));
    lemma_decimal_digits(byte_len(b));
    let whole = counted(a) + c;
    let other = counted(b) + d;
    assert(whole[x.len() as int] == '#');
    assert(other[y.len() as int] == '#');
    if x.len() < y.len() {
        assert(other[x.len() as int] == y[x.len() as int]);
    } else if y.len() < x.len() {
        assert(whole[y.len() as int] == x[y.len() as int]);
    }
    assert(x =~= y) by {
        assert forall|i: int| 0 <= i < x.len() implies x[i] == y[i] by {
            assert(whole[i] == x[i]);
            assert(other[i] == y[i]);
        }
    }
    lemma_decimal_injective(byte_len(a), byte_len(b));
    let rest = whole.skip(x.len() as int + 1);
    assert(rest =~= a + c);
    assert(other.skip(y.len() as int + 1) =~= b + d);
    lemma_prefix_by_bytes(a, b, c, d);
}

/// Parts with their lengths in front.
spec fn all_counted(parts: Seq<Seq<char>>) -> Seq<Seq<char>> {
    Seq::new(parts.len(), |i: int| counted(parts[i]))
}

/// What follows the first part of an encoding.
spec fn encoded_rest(parts: Seq<Seq<char>>) -> Seq<char> {
    if parts.len() <= 1 {
        Seq::empty()
    } else {
        ";"@ + encoded_parts(parts.drop_first())
    }
}

proof fn lemma_encoding_splits(parts: Seq<Seq<char>>)
    requires
        parts.len() > 0,
    ensures
        encoded_parts(parts) == counted(parts[0]) + encoded_rest(parts),
{
    let all = all_counted(parts);
    assert(all =~= Seq::new(parts.len(), |i: int| counted(parts[i])));
    if parts.len() == 1 {
        assert(joined(all, ";"@) == all[0]);
        assert(counted(parts[0]) + Seq::<char>::empty() =~= counted(parts[0]));
    } else {
        let rest = parts.drop_first();
        let tail = all_counted(rest);
        assert(tail =~= Seq::new(rest.len(), |i: int| counted(rest[i])));
        assert(all =~= seq![counted(parts[0])] + tail);
        lemma_joined_head(counted(parts[0]), tail, ";"@);
        assert(counted(parts[0]) + ";"@ + joined(tail, ";"@) =~= counted(parts[0]) + (";"@
            + joined(tail, ";"@)));
    }
}

/// Only no parts are encoded as nothing.
proof fn lemma_encoding_empty(parts: Seq<Seq<char>>)
    ensures
        parts.len() == 0 <==> encoded_parts(parts).len() == 0,
{
    if parts.len() > 0 {
        lemma_encoding_splits(parts);
        lemma_decimal_digits(byte_len(parts[0]));
    }
}

/// What follows the first part is nothing, or the encoding of the others.
proof fn lemma_rest(parts: Seq<Seq<char>>)
    requires
        parts.len() > 0,
    ensures
        encoded_rest(parts).len() == 0 <==> parts.len() == 1,
        parts.len() > 1 ==> encoded_rest(parts).skip(1) == encoded_parts(parts.drop_first()),
{
    reveal_strlit(";");
    if parts.len() > 1 {
        assert(encoded_rest(parts).skip(1) =~= encoded_parts(parts.drop_first()));
    }
}

/// Parts are told by their encoding: lists of parts that are encoded the same
/// are the same.
#[verifier::spinoff_prover]
pub proof fn law_encoded_parts_are_unambiguous(a: Seq<Seq<char>>, b: Seq<Seq<char>>)
    requires
        encoded_parts(a) == encoded_parts(b),
    ensures
        a == b,
    decreases a.len(),
{
    lemma_encoding_empty(a);
    lemma_encoding_empty(b);
    if a.len() == 0 {
        assert(a =~= b);
    } else {
        lemma_encoding_splits(a);
        lemma_encoding_splits(b);
        lemma_counted_prefix(a[0], b[0], encoded_rest(a), encoded_rest(b));
        lemma_rest(a);
        lemma_rest(b);
        if a.len() > 1 {
            law_encoded_parts_are_unambiguous(a.drop_first(), b.drop_first());
            assert(a =~= seq![a[0]] + a.drop_first());
            assert(b =~= seq![b[0]] + b.drop_first());
        } else {
            assert(a =~= b);
        }
    }
}

/// The inputs that a file gives, by their places.
proof fn lemma_file_inputs(files: Seq<WorldFileView>, count: nat)
    requires
        count <= files.len(),
    ensures
        file_inputs(files, count).len() == 4 * count,
        forall|k: int|
            0 <= k < count ==> #[trigger] file_inputs(files, count)[4 * k] == HashInputView::Text(
                files[k].rel_path,
            ) && file_inputs(files, count)[4 * k + 2] == HashInputView::Bytes(
                encode_utf8(files[k].text),
            ),
    decreases count,
{
    if count > 0 {
        lemma_file_inputs(files, (count - 1) as nat);
        let before = file_inputs(files, (count - 1) as nat);
        let all = file_inputs(files, count);
        assert forall|k: int| 0 <= k < count implies #[trigger] all[4 * k] == HashInputView::Text(
            files[k].rel_path,
        ) && all[4 * k + 2] == HashInputView::Bytes(encode_utf8(files[k].text)) by {
            if k < count - 1 {
                assert(all[4 * k] == before[4 * k]);
                assert(all[4 * k + 2] == before[4 * k + 2]);
            }
        }
    }
}

/// A world is told by what its hash is made of: worlds with the same inputs have
/// the same files, each as often, and the same identity.
pub proof fn law_world_inputs_tell_worlds_apart(
    a: Seq<WorldFileView>,
    a_identity: Seq<char>,
    b: Seq<WorldFileView>,
    b_identity: Seq<char>,
)
    requires
        world_input_views(a, a_identity) == world_input_views(b, b_identity),
    ensures
        a.to_multiset() == b.to_multiset(),
        a_identity == b_identity,
{
    law_files_are_sorted(a, a.len());
    law_files_are_sorted(b, b.len());
    let x = sorted_files(a, a.len());
    let y = sorted_files(b, b.len());
    lemma_file_inputs(x, x.len());
    lemma_file_inputs(y, y.len());
    let whole = world_input_views(a, a_identity);
    let other = world_input_views(b, b_identity);
    assert(whole.len() == 4 * x.len() + 2);
    assert(other.len() == 4 * y.len() + 2);
    assert(whole[4 * x.len() as int] == HashInputView::Text(a_identity));
    assert(other[4 * y.len() as int] == HashInputView::Text(b_identity));
    assert forall|k: int| 0 <= k < x.len() implies x[k] == y[k] by {
        assert(whole[4 * k] == file_inputs(x, x.len())[4 * k]);
        assert(other[4 * k] == file_inputs(y, y.len())[4 * k]);
        assert(whole[4 * k + 2] == file_inputs(x, x.len())[4 * k + 2]);
        assert(other[4 * k + 2] == file_inputs(y, y.len())[4 * k + 2]);
        encode_utf8_decode_utf8(x[k].text);
        encode_utf8_decode_utf8(y[k].text);
    }
    assert(x =~= y);
    assert(a.take(a.len() as int) =~= a);
    assert(b.take(b.len() as int) =~= b);
}

/// No path stands for two different files.
pub open spec fn paths_tell_files(files: Seq<WorldFileView>) -> bool {
    forall|f: WorldFileView, g: WorldFileView|
        files.contains(f) && files.contains(g) && f.rel_path == g.rel_path ==> f == g
}

/// Ordered files are told by how often each is there.
proof fn lemma_order_is_unique(x: Seq<WorldFileView>, y: Seq<WorldFileView>)
    requires
        files_ordered(x),
        files_ordered(y),
        x.to_multiset() == y.to_multiset(),
        paths_tell_files(x),
    ensures
        x == y,
    decreases x.len(),
{
    x.to_multiset_ensures();
    y.to_multiset_ensures();
    assert(x.len() == y.len());
    if x.len() > 0 {
        let a = x.last();
        let b = y.last();
        assert(x.contains(a));
        assert(y.contains(b));
        assert(x.to_multiset().count(a) > 0 && y.to_multiset().count(b) > 0);
        assert(y.contains(a) && x.contains(b));
        let j = choose|j: int| 0 <= j < y.len() && y[j] == a;
        let i = choose|i: int| 0 <= i < x.len() && x[i] == b;
        if i < x.len() - 1 && j < y.len() - 1 {
            assert(!text_before(a.rel_path, b.rel_path));
            assert(!text_before(b.rel_path, a.rel_path));
            lemma_text_total(a.rel_path, b.rel_path);
        }
        assert(a == b);
        let p = x.drop_last();
        let q = y.drop_last();
        p.to_multiset_ensures();
        q.to_multiset_ensures();
        assert(x =~= p.push(a));
        assert(y =~= q.push(a));
        assert(p.to_multiset() =~= x.to_multiset().remove(a));
        assert(q.to_multiset() =~= y.to_multiset().remove(a));
        assert forall|f: WorldFileView| #[trigger] p.contains(f) implies x.contains(f) by {
            let k = choose|k: int| 0 <= k < p.len() && p[k] == f;
            assert(x[k] == f);
        }
        lemma_order_is_unique(p, q);
        assert(x =~= y);
    }
}

/// A world that has not changed keeps its stamp: on machines of a sort the stamp
/// depends on the files and not on the order in which they are told.
pub proof fn law_unchanged_worlds_keep_their_stamp(
    machine: nat,
    workspace_root: Seq<char>,
    a: Seq<WorldFileView>,
    b: Seq<WorldFileView>,
    semantic_identity: Seq<char>,
)
    requires
        a.to_multiset() == b.to_multiset(),
        paths_tell_files(a),
    ensures
        stamp_on(machine, workspace_root, a, semantic_identity) == stamp_on(
            machine,
            workspace_root,
            b,
            semantic_identity,
        ),
{
    law_files_are_sorted(a, a.len());
    law_files_are_sorted(b, b.len());
    assert(a.take(a.len() as int) =~= a);
    assert(b.take(b.len() as int) =~= b);
    let x = sorted_files(a, a.len());
    let y = sorted_files(b, b.len());
    a.to_multiset_ensures();
    x.to_multiset_ensures();
    assert forall|f: WorldFileView| #[trigger] x.contains(f) implies a.contains(f) by {
        assert(x.to_multiset().count(f) > 0);
    }
    lemma_order_is_unique(x, y);
}

} // verus!
