//! Searching and cutting text.

use crate::text::{chars_of, joined, string_of, texts};
use vstd::prelude::*;

verus! {

/// The pattern stands in the text at `i`.
pub open spec fn occurs_at(text: Seq<char>, pattern: Seq<char>, i: int) -> bool {
    0 <= i && i + pattern.len() <= text.len() && text.subrange(i, i + pattern.len()) == pattern
}

/// The pattern stands somewhere in the text.
pub open spec fn occurs(text: Seq<char>, pattern: Seq<char>) -> bool {
    exists|i: int| #[trigger] occurs_at(text, pattern, i)
}

/// The first place from `from` on at which the pattern stands.
pub open spec fn first_from(text: Seq<char>, pattern: Seq<char>, from: int) -> Option<int>
    decreases text.len() + 1 - from,
{
    if from < 0 || from + pattern.len() > text.len() {
        None
    } else if occurs_at(text, pattern, from) {
        Some(from)
    } else {
        first_from(text, pattern, from + 1)
    }
}

/// The last place not above `from` at which the pattern stands.
pub open spec fn last_until(text: Seq<char>, pattern: Seq<char>, from: int) -> Option<int>
    decreases from + 1,
{
    if from < 0 {
        None
    } else if occurs_at(text, pattern, from) {
        Some(from)
    } else {
        last_until(text, pattern, from - 1)
    }
}

/// What stands before and after the last `::`.
pub open spec fn path_split(text: Seq<char>) -> Option<(Seq<char>, Seq<char>)> {
    match last_until(text, "::"@, text.len() as int) {
        Some(i) => Some((text.subrange(0, i), text.subrange(i + 2, text.len() as int))),
        None => None,
    }
}

/// The last segment of a path.
pub open spec fn path_tail(text: Seq<char>) -> Seq<char> {
    match path_split(text) {
        Some((_, tail)) => tail,
        None => text,
    }
}

/// The text cut at each separator, from the left.
pub open spec fn cut(text: Seq<char>, separator: Seq<char>) -> Seq<Seq<char>>
    decreases text.len(),
{
    match first_from(text, separator, 0) {
        Some(i) => if 0 < separator.len() && 0 <= i && i + separator.len() <= text.len() {
            seq![text.subrange(0, i)] + cut(
                text.subrange(i + separator.len(), text.len() as int),
                separator,
            )
        } else {
            seq![text]
        },
        None => seq![text],
    }
}

/// The text starts with the prefix.
pub open spec fn has_prefix(text: Seq<char>, prefix: Seq<char>) -> bool {
    occurs_at(text, prefix, 0)
}

/// The text ends with the suffix.
pub open spec fn has_suffix(text: Seq<char>, suffix: Seq<char>) -> bool {
    occurs_at(text, suffix, text.len() - suffix.len())
}

/// The text without the prefix it has.
pub open spec fn without_prefix(text: Seq<char>, prefix: Seq<char>) -> Option<Seq<char>> {
    if has_prefix(text, prefix) {
        Some(text.subrange(prefix.len() as int, text.len() as int))
    } else {
        None
    }
}

/// The text with each `from` written as `to`.
pub open spec fn replaced(text: Seq<char>, from: char, to: char) -> Seq<char> {
    Seq::new(text.len(), |i: int| if text[i] == from { to } else { text[i] })
}

/// What [`first_from`] finds.
pub proof fn lemma_first_from(text: Seq<char>, pattern: Seq<char>, from: int)
    requires
        0 <= from,
    ensures
        match first_from(text, pattern, from) {
            Some(i) => from <= i && occurs_at(text, pattern, i) && forall|k: int|
                from <= k < i ==> !occurs_at(text, pattern, k),
            None => forall|k: int| from <= k ==> !occurs_at(text, pattern, k),
        },
    decreases text.len() + 1 - from,
{
    if from + pattern.len() <= text.len() && !occurs_at(text, pattern, from) {
        lemma_first_from(text, pattern, from + 1);
    }
}

/// What [`last_until`] finds.
pub proof fn lemma_last_until(text: Seq<char>, pattern: Seq<char>, from: int)
    ensures
        match last_until(text, pattern, from) {
            Some(i) => i <= from && occurs_at(text, pattern, i) && forall|k: int|
                i < k <= from ==> !occurs_at(text, pattern, k),
            None => forall|k: int| k <= from ==> !occurs_at(text, pattern, k),
        },
    decreases from + 1,
{
    if from >= 0 && !occurs_at(text, pattern, from) {
        lemma_last_until(text, pattern, from - 1);
    }
}

/// Cutting at a separator and joining with it gives the text back.
pub proof fn law_cut_joins_back(text: Seq<char>, separator: Seq<char>)
    requires
        separator.len() > 0,
    ensures
        joined(cut(text, separator), separator) == text,
    decreases text.len(),
{
    lemma_first_from(text, separator, 0);
    match first_from(text, separator, 0) {
        Some(i) => {
            let rest = text.subrange(i + separator.len(), text.len() as int);
            law_cut_joins_back(rest, separator);
            let parts = cut(text, separator);
            assert(cut(rest, separator).len() > 0);
            lemma_joined_head(text.subrange(0, i), cut(rest, separator), separator);
            assert(text =~= text.subrange(0, i) + separator + rest) by {
                assert(separator =~= text.subrange(i, i + separator.len()));
            }
            assert(parts =~= seq![text.subrange(0, i)] + cut(rest, separator));
        },
        None => {
            assert(cut(text, separator) =~= seq![text]);
            lemma_joined_one(text, separator);
        },
    }
}

/// One part joined is the part.
proof fn lemma_joined_one(part: Seq<char>, separator: Seq<char>)
    ensures
        joined(seq![part], separator) == part,
{
    assert(joined(seq![part], separator) =~= part);
}

/// Joining a first part to the rest.
pub proof fn lemma_joined_head(head: Seq<char>, rest: Seq<Seq<char>>, separator: Seq<char>)
    requires
        rest.len() > 0,
    ensures
        joined(seq![head] + rest, separator) == head + separator + joined(rest, separator),
    decreases rest.len(),
{
    let all = seq![head] + rest;
    assert(all.drop_last() =~= seq![head] + rest.drop_last());
    assert(all.last() == rest.last());
    if rest.len() == 1 {
        assert(rest.drop_last() =~= Seq::<Seq<char>>::empty());
        assert(all.drop_last() =~= seq![head]);
        lemma_joined_one(head, separator);
        assert(rest =~= seq![rest[0]]);
        lemma_joined_one(rest[0], separator);
        assert(joined(all, separator) =~= head + separator + joined(rest, separator));
    } else {
        lemma_joined_head(head, rest.drop_last(), separator);
        assert(joined(all, separator) =~= head + separator + joined(rest, separator));
    }
}

/// Whether the pattern stands at a place.
pub fn stands_at(text: &Vec<char>, pattern: &Vec<char>, i: usize) -> (r: bool)
    ensures
        r == occurs_at(text@, pattern@, i as int),
{
    if i > text.len() || pattern.len() > text.len() - i {
        return false;
    }
    let mut k: usize = 0;
    while k < pattern.len()
        invariant
            k <= pattern@.len(),
            i + pattern.len() <= text.len(),
            forall|j: int| 0 <= j < k ==> text@[i + j] == #[trigger] pattern@[j],
        decreases pattern.len() - k,
    {
        if text[i + k] != pattern[k] {
            proof {
                assert(text@.subrange(i as int, i + pattern@.len())[k as int] != pattern@[k as int]);
            }
            return false;
        }
        k += 1;
    }
    assert(text@.subrange(i as int, i + pattern@.len()) =~= pattern@);
    true
}

/// The first place from `from` on at which the pattern stands.
pub fn find_from(text: &Vec<char>, pattern: &Vec<char>, from: usize) -> (r: Option<usize>)
    ensures
        match r {
            Some(i) => first_from(text@, pattern@, from as int) == Some(i as int),
            None => first_from(text@, pattern@, from as int) is None,
        },
{
    let mut i: usize = from;
    while i <= text.len() && pattern.len() <= text.len() - i
        invariant
            from <= i,
            i <= text@.len() + 1 || i == from,
            first_from(text@, pattern@, from as int) == first_from(text@, pattern@, i as int),
        decreases text.len() + 1 - i,
    {
        if stands_at(text, pattern, i) {
            return Some(i);
        }
        if i == text.len() {
            assert(first_from(text@, pattern@, i + 1) is None);
            return None;
        }
        i += 1;
    }
    None
}

/// The last place at which the pattern stands.
pub fn find_last(text: &Vec<char>, pattern: &Vec<char>) -> (r: Option<usize>)
    ensures
        match r {
            Some(i) => last_until(text@, pattern@, text@.len() as int) == Some(i as int),
            None => last_until(text@, pattern@, text@.len() as int) is None,
        },
{
    let mut i: usize = text.len();
    while i > 0
        invariant
            i <= text@.len(),
            last_until(text@, pattern@, text@.len() as int) == last_until(
                text@,
                pattern@,
                i as int,
            ),
        decreases i,
    {
        if stands_at(text, pattern, i) {
            return Some(i);
        }
        i -= 1;
    }
    if stands_at(text, pattern, 0) {
        Some(0)
    } else {
        proof {
            assert(last_until(text@, pattern@, -1) is None);
        }
        None
    }
}

/// Whether the pattern stands somewhere in the text.
pub fn contains_text(text: &str, pattern: &str) -> (r: bool)
    ensures
        r == occurs(text@, pattern@),
{
    proof {
        lemma_first_from(text@, pattern@, 0);
    }
    find_from(&chars_of(text), &chars_of(pattern), 0).is_some()
}

pub fn starts_with(text: &str, prefix: &str) -> (r: bool)
    ensures
        r == has_prefix(text@, prefix@),
{
    stands_at(&chars_of(text), &chars_of(prefix), 0)
}

pub fn ends_with(text: &str, suffix: &str) -> (r: bool)
    ensures
        r == has_suffix(text@, suffix@),
{
    let text = chars_of(text);
    let suffix = chars_of(suffix);
    suffix.len() <= text.len() && stands_at(&text, &suffix, text.len() - suffix.len())
}

/// The text without the prefix it has.
pub fn strip_prefix(text: &str, prefix: &str) -> (r: Option<String>)
    ensures
        match r {
            Some(rest) => without_prefix(text@, prefix@) == Some(rest@),
            None => without_prefix(text@, prefix@) is None,
        },
{
    let text = chars_of(text);
    let prefix = chars_of(prefix);
    if stands_at(&text, &prefix, 0) {
        Some(string_of(&text, prefix.len(), text.len()))
    } else {
        None
    }
}

/// What stands before and after the last `::`.
pub fn split_path(text: &str) -> (r: Option<(String, String)>)
    ensures
        match r {
            Some((head, tail)) => path_split(text@) == Some((head@, tail@)),
            None => path_split(text@) is None,
        },
{
    let chars = chars_of(text);
    let mark = chars_of("::");
    proof {
        reveal_strlit("::");
        lemma_last_until(text@, "::"@, text@.len() as int);
    }
    match find_last(&chars, &mark) {
        Some(i) => {
            let end = chars.len();
            Some((string_of(&chars, 0, i), string_of(&chars, i + 2, end)))
        },
        None => None,
    }
}

/// The last segment of a path.
pub fn tail_of_path(text: &str) -> (r: String)
    ensures
        r@ == path_tail(text@),
{
    match split_path(text) {
        Some((_, tail)) => tail,
        None => crate::text::owned(text),
    }
}

/// The text cut at each separator, from the left.
pub fn split_at_each(text: &str, separator: &str) -> (r: Vec<String>)
    requires
        separator@.len() > 0,
    ensures
        texts(r@) == cut(text@, separator@),
{
    let chars = chars_of(text);
    let mark = chars_of(separator);
    let mut out: Vec<String> = Vec::new();
    let mut from: usize = 0;
    let ghost whole = cut(text@, separator@);
    proof {
        assert(text@.subrange(0, text@.len() as int) =~= text@);
        assert(texts(out@) =~= Seq::<Seq<char>>::empty());
        assert(texts(out@) + cut(text@.subrange(0, text@.len() as int), separator@) =~= whole);
    }
    loop
        invariant_except_break
            from <= text@.len(),
            texts(out@) + cut(text@.subrange(from as int, text@.len() as int), separator@)
                == whole,
        invariant
            chars@ == text@,
            mark@ == separator@,
            separator@.len() > 0,
        ensures
            texts(out@) == whole,
        decreases text@.len() - from,
    {
        let ghost rest = text@.subrange(from as int, text@.len() as int);
        proof {
            lemma_first_from(rest, separator@, 0);
            lemma_first_from(text@, separator@, from as int);
            assert forall|k: int| 0 <= k implies occurs_at(rest, separator@, k) == occurs_at(
                text@,
                separator@,
                from + k,
            ) by {
                if k + separator@.len() <= rest.len() {
                    assert(rest.subrange(k, k + separator@.len()) =~= text@.subrange(
                        from + k,
                        from + k + separator@.len(),
                    ));
                }
            }
        }
        match find_from(&chars, &mark, from) {
            Some(i) => {
                proof {
                    assert(occurs_at(text@, separator@, from + (i - from)));
                    assert(occurs_at(rest, separator@, i - from));
                    let found = first_from(rest, separator@, 0);
                    assert(found is Some);
                    assert(occurs_at(text@, separator@, from + found->0));
                    assert(found == Some(i - from));
                }
                let part = string_of(&chars, from, i);
                let ghost before = texts(out@);
                out.push(part);
                proof {
                    assert(texts(out@) =~= before.push(part@));
                    assert(part@ =~= rest.subrange(0, i - from));
                    let next = rest.subrange(i - from + separator@.len(), rest.len() as int);
                    assert(next =~= text@.subrange(i + separator@.len(), text@.len() as int));
                    assert(before + (seq![part@] + cut(next, separator@)) =~= texts(out@) + cut(
                        next,
                        separator@,
                    ));
                }
                assert(i + mark.len() <= chars.len());
                from = i + mark.len();
            },
            None => {
                proof {
                    if first_from(rest, separator@, 0) is Some {
                        let found = first_from(rest, separator@, 0)->0;
                        assert(occurs_at(text@, separator@, from + found));
                    }
                }
                let part = string_of(&chars, from, chars.len());
                let ghost before = texts(out@);
                out.push(part);
                proof {
                    assert(texts(out@) =~= before.push(part@));
                    assert(before + seq![rest] =~= texts(out@));
                }
                break;
            },
        }
    }
    out
}

/// The text with each `from` written as `to`.
pub fn replace_char(text: &str, from: char, to: char) -> (r: String)
    ensures
        r@ == replaced(text@, from, to),
{
    let chars = chars_of(text);
    let mut out = String::new();
    let mut i: usize = 0;
    while i < chars.len()
        invariant
            chars@ == text@,
            i <= chars@.len(),
            out@ == replaced(text@, from, to).take(i as int),
        decreases chars.len() - i,
    {
        let ghost before = out@;
        let c: char = if chars[i] == from {
            to
        } else {
            chars[i]
        };
        out.push(c);
        i += 1;
        assert(out@ =~= replaced(text@, from, to).take(i as int));
    }
    assert(replaced(text@, from, to).take(i as int) =~= replaced(text@, from, to));
    out
}

} // verus!
