//! The texts that a snapshot of a workspace is described and keyed by.

use crate::ra::core_index::opt_str;
use crate::ra::rows::opt_text;
use crate::ra::source::byte_len;
use crate::search::{
    cut, find_from, first_from, has_prefix, lemma_first_from, replace_char, replaced,
    split_at_each, starts_with,
};
use crate::text::{
    cat2, cat3, chars_of, decimal, decimal_of_size, hex16, hex_digits, joined, join_strings, owned,
    str_eq, string_of, texts,
};
use vstd::prelude::*;

verus! {

/// The character has the Unicode property `White_Space`.
pub open spec fn is_white(c: char) -> bool {
    let code = c as u32;
    ||| 0x09 <= code <= 0x0d
    ||| code == 0x20
    ||| code == 0x85
    ||| code == 0xa0
    ||| code == 0x1680
    ||| 0x2000 <= code <= 0x200a
    ||| code == 0x2028
    ||| code == 0x2029
    ||| code == 0x202f
    ||| code == 0x205f
    ||| code == 0x3000
}

/// `char::is_whitespace` of the standard library: whether the character has the
/// Unicode property `White_Space`, which is that of the listed code points.
pub assume_specification[ char::is_whitespace ](c: char) -> (r: bool)
    ensures
        r == is_white(c),
;

/// The text without the white space it starts with.
pub open spec fn trim_front(text: Seq<char>) -> Seq<char>
    decreases text.len(),
{
    if text.len() > 0 && is_white(text[0]) {
        trim_front(text.drop_first())
    } else {
        text
    }
}

/// The text without the white space it ends with.
pub open spec fn trim_back(text: Seq<char>) -> Seq<char>
    decreases text.len(),
{
    if text.len() > 0 && is_white(text.last()) {
        trim_back(text.drop_last())
    } else {
        text
    }
}

/// The text without the white space around it.
pub open spec fn trimmed(text: Seq<char>) -> Seq<char> {
    trim_back(trim_front(text))
}

/// The text without the white space around it.
pub fn trim(text: &str) -> (r: String)
    ensures
        r@ == trimmed(text@),
{
    let chars = chars_of(text);
    let mut from: usize = 0;
    assert(text@.subrange(0, text@.len() as int) =~= text@);
    while from < chars.len() && chars[from].is_whitespace()
        invariant
            chars@ == text@,
            from <= chars@.len(),
            trim_front(text@) == trim_front(text@.subrange(from as int, text@.len() as int)),
        decreases chars.len() - from,
    {
        assert(text@.subrange(from as int, text@.len() as int).drop_first() =~= text@.subrange(
            from + 1,
            text@.len() as int,
        ));
        from += 1;
    }
    let ghost front = text@.subrange(from as int, text@.len() as int);
    assert(trim_front(text@) == front);
    let mut to: usize = chars.len();
    while to > from && chars[to - 1].is_whitespace()
        invariant
            chars@ == text@,
            from <= to <= chars@.len(),
            trim_back(front) == trim_back(text@.subrange(from as int, to as int)),
        decreases to,
    {
        assert(text@.subrange(from as int, to as int).drop_last() =~= text@.subrange(
            from as int,
            to - 1,
        ));
        to -= 1;
    }
    string_of(&chars, from, to)
}

/// The path with its crate written as `crate`.
pub open spec fn crate_path(path: Seq<char>) -> Seq<char> {
    if has_prefix(path, "crate::"@) {
        path
    } else {
        match first_from(path, "::"@, 0) {
            Some(i) => "crate::"@ + path.subrange(i + 2, path.len() as int),
            None => "crate::"@ + path,
        }
    }
}

/// The path with its crate written as `crate`.
pub fn normalize_canonical_path(path: &str) -> (r: String)
    ensures
        r@ == crate_path(path@),
{
    if starts_with(path, "crate::") {
        return owned(path);
    }
    let chars = chars_of(path);
    proof {
        reveal_strlit("::");
        lemma_first_from(path@, "::"@, 0);
    }
    match find_from(&chars, &chars_of("::"), 0) {
        Some(i) => {
            let end = chars.len();
            cat2("crate::", string_of(&chars, i + 2, end).as_str())
        },
        None => cat2("crate::", path),
    }
}

/// A path with its crate written as `crate` starts so.
pub proof fn law_crate_paths_start_with_crate(path: Seq<char>)
    ensures
        has_prefix(crate_path(path), "crate::"@),
        crate_path(crate_path(path)) == crate_path(path),
{
    let shown = crate_path(path);
    if !has_prefix(path, "crate::"@) {
        assert(shown.subrange(0, "crate::"@.len() as int) =~= "crate::"@);
    }
}

/// Where the second argument of a generic list starts and ends, searched from
/// `i` on: at `depth` inner lists, with the first comma that has been met.
pub open spec fn second_argument(
    text: Seq<char>,
    i: int,
    depth: nat,
    comma: Option<int>,
) -> Option<(int, int)>
    decreases text.len() - i,
{
    if i < 0 || i >= text.len() {
        None
    } else if text[i] == '<' {
        second_argument(text, i + 1, depth + 1, comma)
    } else if text[i] == '>' {
        if depth == 0 {
            match comma {
                Some(comma) => Some((comma + 1, i)),
                None => None,
            }
        } else {
            second_argument(text, i + 1, (depth - 1) as nat, comma)
        }
    } else if text[i] == ',' && depth == 0 && comma is None {
        second_argument(text, i + 1, depth, Some(i))
    } else {
        second_argument(text, i + 1, depth, comma)
    }
}

/// The second argument of the first result type in a text.
pub open spec fn result_error_name(text: Seq<char>) -> Option<Seq<char>> {
    match first_from(text, "Result<"@, 0) {
        Some(i) => {
            match second_argument(text, i + 7, 0, None) {
                Some((from, to)) => {
                    let name = trimmed(text.subrange(from, to));
                    if name.len() == 0 {
                        None
                    } else {
                        Some(name)
                    }
                },
                None => None,
            }
        },
        None => None,
    }
}

/// The second argument of the first result type in a text.
pub fn extract_result_error_name_from_text(ret_text: &str) -> (r: Option<String>)
    ensures
        opt_text(r) == result_error_name(ret_text@),
{
    let chars = chars_of(ret_text);
    proof {
        reveal_strlit("Result<");
        lemma_first_from(ret_text@, "Result<"@, 0);
    }
    let marker = match find_from(&chars, &chars_of("Result<"), 0) {
        Some(marker) => marker,
        None => {
            return None;
        },
    };
    assert(marker + 7 <= chars.len());
    let start: usize = marker + 7;
    let mut depth: usize = 0;
    let mut comma: Option<usize> = None;
    let mut i: usize = start;
    while i < chars.len()
        invariant
            chars@ == ret_text@,
            first_from(ret_text@, "Result<"@, 0) == Some(marker as int),
            start == marker + 7,
            start <= i <= chars@.len(),
            depth <= i,
            comma is Some ==> start <= comma->0 < i,
            second_argument(ret_text@, start as int, 0, None) == second_argument(
                ret_text@,
                i as int,
                depth as nat,
                match comma {
                    Some(comma) => Some(comma as int),
                    None => None,
                },
            ),
        decreases chars.len() - i,
    {
        let c: char = chars[i];
        if c == '<' {
            depth += 1;
        } else if c == '>' {
            if depth == 0 {
                match comma {
                    Some(comma) => {
                        let name = trim(string_of(&chars, comma + 1, i).as_str());
                        proof {
                            reveal_strlit("");
                            if name@.len() == 0 {
                                assert(name@ =~= ""@);
                            }
                        }
                        if str_eq(name.as_str(), "") {
                            return None;
                        }
                        return Some(name);
                    },
                    None => {
                        return None;
                    },
                }
            }
            depth -= 1;
        } else if c == ',' && depth == 0 && comma.is_none() {
            comma = Some(i);
        }
        i += 1;
    }
    None
}

/// A part with its length in front.
pub open spec fn counted(part: Seq<char>) -> Seq<char> {
    decimal(byte_len(part)) + "#"@ + part
}

/// Parts with their lengths in front, one after the other.
pub open spec fn encoded_parts(parts: Seq<Seq<char>>) -> Seq<char> {
    joined(Seq::new(parts.len(), |i: int| counted(parts[i])), ";"@)
}

/// Parts with their lengths in front, one after the other.
pub fn encode_fingerprint_parts(parts: &Vec<String>) -> (r: String)
    ensures
        r@ == encoded_parts(texts(parts@)),
{
    let mut items: Vec<String> = Vec::new();
    let mut i: usize = 0;
    while i < parts.len()
        invariant
            i <= parts@.len(),
            items@.len() == i,
            forall|k: int| 0 <= k < i ==> (#[trigger] items@[k])@ == counted(parts@[k]@),
        decreases parts.len() - i,
    {
        let part = parts[i].as_str();
        let len: usize = part.as_bytes().len();
        items.push(cat3(decimal_of_size(len).as_str(), "#", part));
        i += 1;
    }
    proof {
        let parts_view = texts(parts@);
        assert(texts(items@) =~= Seq::new(parts_view.len(), |k: int| counted(parts_view[k])));
    }
    join_strings(&items, ";")
}

/// A path of a workspace file, with `/` between its parts.
pub open spec fn slashed(path: Seq<char>) -> Seq<char> {
    replaced(path, '\\', '/')
}

/// The path of a file of the workspace below its root; `.` for the root.
pub open spec fn rel_path_text(path: Seq<char>) -> Seq<char> {
    if path.len() == 0 {
        "."@
    } else {
        slashed(path)
    }
}

/// The path of a file of the workspace. `path` is the path below the workspace's
/// root, or the whole path of a file that is not below it.
pub fn normalize_rel_path(path: &str) -> (r: String)
    ensures
        r@ == rel_path_text(path@),
{
    proof {
        reveal_strlit("");
        if path@.len() == 0 {
            assert(path@ =~= ""@);
        }
    }
    if str_eq(path, "") {
        owned(".")
    } else {
        replace_char(path, '\\', '/')
    }
}

/// Where a file lies.
pub struct PathFacts {
    /// The whole path.
    pub full: String,
    /// The path below the workspace's root, if it lies there.
    pub in_workspace: Option<String>,
    /// The path below the home of cargo, if it lies there.
    pub in_cargo_home: Option<String>,
    /// The path below the home of rustup, if it lies there.
    pub in_rustup_home: Option<String>,
    pub file_name: Option<String>,
}

/// The text after the first place of a pattern.
pub open spec fn after_first(text: Seq<char>, pattern: Seq<char>) -> Option<Seq<char>> {
    match first_from(text, pattern, 0) {
        Some(i) => Some(text.subrange(i + pattern.len(), text.len() as int)),
        None => None,
    }
}

/// The text after the first place of a pattern.
fn text_after_first(text: &str, pattern: &str) -> (r: Option<String>)
    ensures
        opt_text(r) == after_first(text@, pattern@),
{
    let chars = chars_of(text);
    let mark = chars_of(pattern);
    proof {
        lemma_first_from(text@, pattern@, 0);
    }
    match find_from(&chars, &mark, 0) {
        Some(i) => {
            let end = chars.len();
            assert(i + mark.len() <= chars.len());
            Some(string_of(&chars, i + mark.len(), end))
        },
        None => None,
    }
}

/// The name that a snapshot gives a file: its path below the workspace for a
/// file of the workspace, and for a library's file a path that does not depend
/// on where the machine keeps libraries. `hash` is a hash of the whole path.
pub open spec fn snapshot_path(facts: PathFacts, is_library: bool, hash: u64) -> Seq<char> {
    if !is_library {
        match facts.in_workspace {
            Some(rel) => rel_path_text(rel@),
            None => rel_path_text(facts.full@),
        }
    } else {
        match facts.in_workspace {
            Some(rel) => "workspace-dep/"@ + slashed(rel@),
            None => match facts.in_cargo_home {
                Some(rel) => "<cargo-home>/"@ + slashed(rel@),
                None => match facts.in_rustup_home {
                    Some(rel) => "<rustup-home>/"@ + slashed(rel@),
                    None => external_path(facts, hash),
                },
            },
        }
    }
}

/// The name of a library's file that lies in no known home.
pub open spec fn external_path(facts: PathFacts, hash: u64) -> Seq<char> {
    match after_first(slashed(facts.full@), "/registry/src/"@) {
        Some(tail) => "<cargo-registry>/"@ + tail,
        None => match after_first(slashed(facts.full@), "/git/checkouts/"@) {
            Some(tail) => "<cargo-git>/"@ + tail,
            None => "<external>/"@ + hex_digits(hash as nat, 16) + "/"@ + match facts.file_name {
                Some(name) => name@,
                None => "unknown"@,
            },
        },
    }
}

/// The name of a library's file that lies in no known home.
fn external_path_text(facts: &PathFacts, hash: u64) -> (r: String)
    ensures
        r@ == external_path(*facts, hash),
{
    let normalized = replace_char(facts.full.as_str(), '\\', '/');
    match text_after_first(normalized.as_str(), "/registry/src/") {
        Some(tail) => {
            return cat2("<cargo-registry>/", tail.as_str());
        },
        None => {},
    }
    match text_after_first(normalized.as_str(), "/git/checkouts/") {
        Some(tail) => {
            return cat2("<cargo-git>/", tail.as_str());
        },
        None => {},
    }
    let mut out = cat2("<external>/", hex16(hash).as_str());
    out.append("/");
    match &facts.file_name {
        Some(name) => {
            out.append(name.as_str());
        },
        None => {
            out.append("unknown");
        },
    }
    out
}

/// The name that a snapshot gives a file, given a hash of the whole path.
pub fn snapshot_path_with_hash(facts: &PathFacts, is_library: bool, hash: u64) -> (r: String)
    ensures
        r@ == snapshot_path(*facts, is_library, hash),
{
    if !is_library {
        return match &facts.in_workspace {
            Some(rel) => normalize_rel_path(rel.as_str()),
            None => normalize_rel_path(facts.full.as_str()),
        };
    }
    match &facts.in_workspace {
        Some(rel) => {
            return cat2("workspace-dep/", replace_char(rel.as_str(), '\\', '/').as_str());
        },
        None => {},
    }
    match &facts.in_cargo_home {
        Some(rel) => {
            return cat2("<cargo-home>/", replace_char(rel.as_str(), '\\', '/').as_str());
        },
        None => {},
    }
    match &facts.in_rustup_home {
        Some(rel) => {
            return cat2("<rustup-home>/", replace_char(rel.as_str(), '\\', '/').as_str());
        },
        None => {},
    }
    external_path_text(facts, hash)
}

/// The lines of a text: what stands before each line end, a carriage return
/// before it left out, and what follows the last one, if anything does.
pub open spec fn line_texts(text: Seq<char>) -> Seq<Seq<char>> {
    let parts = cut(text, "\n"@);
    let ended = Seq::new(
        (parts.len() - 1) as nat,
        |i: int|
            if parts[i].len() > 0 && parts[i].last() == '\r' {
                parts[i].drop_last()
            } else {
                parts[i]
            },
    );
    if parts.last().len() == 0 {
        ended
    } else {
        ended.push(parts.last())
    }
}

/// A cut text has a part.
proof fn lemma_cut_nonempty(text: Seq<char>, separator: Seq<char>)
    ensures
        cut(text, separator).len() > 0,
{
}

/// The lines of a text.
pub fn lines_of(text: &str) -> (r: Vec<String>)
    ensures
        texts(r@) == line_texts(text@),
{
    proof {
        reveal_strlit("\n");
        lemma_cut_nonempty(text@, "\n"@);
    }
    let parts = split_at_each(text, "\n");
    let ghost all = texts(parts@);
    assert(all.len() == parts@.len());
    let last = parts.len() - 1;
    let mut out: Vec<String> = Vec::new();
    let mut i: usize = 0;
    while i < last
        invariant
            last == parts@.len() - 1,
            all == texts(parts@),
            i <= last,
            out@.len() == i,
            forall|k: int|
                0 <= k < i ==> (#[trigger] out@[k])@ == if all[k].len() > 0 && all[k].last()
                    == '\r' {
                    all[k].drop_last()
                } else {
                    all[k]
                },
        decreases last - i,
    {
        let chars = chars_of(parts[i].as_str());
        assert(all[i as int] == chars@);
        if chars.len() > 0 && chars[chars.len() - 1] == '\r' {
            out.push(string_of(&chars, 0, chars.len() - 1));
            assert(all[i as int].drop_last() =~= all[i as int].subrange(
                0,
                all[i as int].len() - 1,
            ));
        } else {
            out.push(owned(parts[i].as_str()));
        }
        i += 1;
    }
    let rest = parts[last].as_str();
    proof {
        assert(all.last() == rest@);
        reveal_strlit("");
        if rest@.len() == 0 {
            assert(rest@ =~= ""@);
        }
        let ended = Seq::new(
            (all.len() - 1) as nat,
            |k: int|
                if all[k].len() > 0 && all[k].last() == '\r' {
                    all[k].drop_last()
                } else {
                    all[k]
                },
        );
        assert(texts(out@) =~= ended);
    }
    if !str_eq(rest, "") {
        let ghost before = texts(out@);
        out.push(owned(rest));
        assert(texts(out@) =~= before.push(rest@));
    }
    out
}

/// Where the path of a path dependency stands in a line of a lock file.
pub open spec fn lock_path_range(line: Seq<char>) -> Option<(int, int)> {
    let prefix = "source = \"path+file://"@;
    match first_from(line, prefix, 0) {
        Some(start) => match first_from(line, "\""@, start + prefix.len()) {
            Some(end) => Some((start + prefix.len(), end)),
            None => None,
        },
        None => None,
    }
}

/// The path of a path dependency as it is written in a snapshot: below the
/// workspace's root, if it lies there.
pub open spec fn lock_source(in_workspace: Option<Seq<char>>) -> Seq<char> {
    match in_workspace {
        Some(rel) => "<workspace>/"@ + slashed(rel),
        None => "<external-path>"@,
    }
}

/// A line of a lock file with the path of a path dependency rewritten.
pub open spec fn lock_line(line: Seq<char>, in_workspace: Option<Seq<char>>) -> Seq<char> {
    match lock_path_range(line) {
        Some((from, to)) => line.take(from) + lock_source(in_workspace) + line.skip(to),
        None => line,
    }
}

/// The path of a path dependency as it is written in a snapshot.
pub fn normalize_lock_source_path(in_workspace: Option<&str>) -> (r: String)
    ensures
        r@ == lock_source(opt_str(in_workspace)),
{
    match in_workspace {
        Some(rel) => cat2("<workspace>/", replace_char(rel, '\\', '/').as_str()),
        None => owned("<external-path>"),
    }
}

/// The path of the path dependency that a line of a lock file names.
pub fn lock_line_path(line: &str) -> (r: Option<String>)
    ensures
        match r {
            Some(path) => match lock_path_range(line@) {
                Some((from, to)) => path@ == line@.subrange(from, to),
                None => false,
            },
            None => lock_path_range(line@) is None,
        },
{
    let chars = chars_of(line);
    match find_lock_path(&chars) {
        Some((from, to)) => Some(string_of(&chars, from, to)),
        None => None,
    }
}

/// Where the path of a path dependency stands in a line of a lock file.
fn find_lock_path(chars: &Vec<char>) -> (r: Option<(usize, usize)>)
    ensures
        match r {
            Some((from, to)) => lock_path_range(chars@) == Some((from as int, to as int)) && from
                <= to <= chars@.len(),
            None => lock_path_range(chars@) is None,
        },
{
    let prefix = chars_of("source = \"path+file://");
    proof {
        lemma_first_from(chars@, prefix@, 0);
    }
    match find_from(chars, &prefix, 0) {
        Some(start) => {
            assert(start + prefix.len() <= chars.len());
            let from: usize = start + prefix.len();
            proof {
                lemma_first_from(chars@, "\""@, from as int);
            }
            match find_from(chars, &chars_of("\""), from) {
                Some(to) => Some((from, to)),
                None => None,
            }
        },
        None => None,
    }
}

/// A line of a lock file with the path of a path dependency rewritten.
/// `in_workspace` is that path below the workspace's root, if it lies there.
pub fn rewrite_lock_line(line: &str, in_workspace: Option<&str>) -> (r: String)
    ensures
        r@ == lock_line(line@, opt_str(in_workspace)),
{
    let chars = chars_of(line);
    match find_lock_path(&chars) {
        Some((from, to)) => {
            let end = chars.len();
            let mut out = string_of(&chars, 0, from);
            out.append(normalize_lock_source_path(in_workspace).as_str());
            out.append(string_of(&chars, to, end).as_str());
            proof {
                assert(line@.take(from as int) =~= line@.subrange(0, from as int));
                assert(line@.skip(to as int) =~= line@.subrange(to as int, end as int));
            }
            out
        },
        None => owned(line),
    }
}

/// The lines of a lock file with the paths of path dependencies rewritten.
pub open spec fn lock_lines(
    lines: Seq<Seq<char>>,
    in_workspace: Seq<Option<Seq<char>>>,
) -> Seq<Seq<char>> {
    Seq::new(lines.len(), |i: int| lock_line(lines[i], in_workspace[i]))
}

/// What optional texts say.
pub open spec fn opt_texts(items: Seq<Option<String>>) -> Seq<Option<Seq<char>>> {
    items.map_values(|item: Option<String>| opt_text(item))
}

/// A lock file with the paths of path dependencies rewritten. `in_workspace`
/// holds for each line the path it names below the workspace's root, if it lies
/// there.
pub fn normalize_cargo_lock_sources(lock_text: &str, in_workspace: &Vec<Option<String>>) -> (r:
    String)
    requires
        in_workspace@.len() == line_texts(lock_text@).len(),
    ensures
        r@ == joined(lock_lines(line_texts(lock_text@), opt_texts(in_workspace@)), "\n"@),
{
    let lines = lines_of(lock_text);
    let ghost all = line_texts(lock_text@);
    assert(all.len() == lines@.len());
    let mut out: Vec<String> = Vec::new();
    let mut i: usize = 0;
    while i < lines.len()
        invariant
            all == texts(lines@),
            in_workspace@.len() == lines@.len(),
            i <= lines@.len(),
            out@.len() == i,
            forall|k: int|
                0 <= k < i ==> (#[trigger] out@[k])@ == lock_line(
                    all[k],
                    opt_text(in_workspace@[k]),
                ),
        decreases lines.len() - i,
    {
        assert(all[i as int] == lines@[i as int]@);
        let known = match &in_workspace[i] {
            Some(path) => Some(path.as_str()),
            None => None,
        };
        out.push(rewrite_lock_line(lines[i].as_str(), known));
        i += 1;
    }
    assert(texts(out@) =~= lock_lines(all, opt_texts(in_workspace@)));
    join_strings(&out, "\n")
}

} // verus!
