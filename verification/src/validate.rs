//! Validation of launcher-descriptor text.
//!
//! A descriptor is accepted when it opens with the `[Desktop Entry]` group
//! header, every further line is blank, a comment, a group header or a
//! well-formed key/value pair, and the opening group carries the required
//! `Type` and `Name` keys.  The application id it is registered under must
//! be a portable file-name stem.

use vstd::prelude::*;

use crate::errors::ValidationError;
use crate::textutil::str_eq;

verus! {

/// The index of the first occurrence of `c` in `s` at or after `from`,
/// or `s.len()` if there is none.
pub open spec fn find_char(s: Seq<char>, c: char, from: int) -> int
    decreases s.len() - from
        when 0 <= from <= s.len()
{
    if from >= s.len() {
        s.len() as int
    } else if s[from] == c {
        from
    } else {
        find_char(s, c, from + 1)
    }
}

/// What `find_char` returns: the first occurrence, within bounds.
pub proof fn lemma_find_char(s: Seq<char>, c: char, from: int)
    requires
        0 <= from <= s.len(),
    ensures
        from <= find_char(s, c, from) <= s.len(),
        find_char(s, c, from) < s.len() ==> s[find_char(s, c, from)] == c,
        forall|j: int| from <= j < find_char(s, c, from) ==> s[j] != c,
    decreases s.len() - from,
{
    if from < s.len() && s[from] != c {
        lemma_find_char(s, c, from + 1);
    }
}

/// A position with no occurrence before it and one at it (or the end) is
/// what `find_char` returns.
pub proof fn lemma_find_char_is(s: Seq<char>, c: char, from: int, r: int)
    requires
        0 <= from <= r <= s.len(),
        forall|j: int| from <= j < r ==> s[j] != c,
        r < s.len() ==> s[r] == c,
    ensures
        find_char(s, c, from) == r,
    decreases r - from,
{
    if from < r {
        lemma_find_char_is(s, c, from + 1, r);
    }
}

/// The lines of `s` from position `from` on, split at `'\n'`.
pub open spec fn split_from(s: Seq<char>, from: int) -> Seq<Seq<char>>
    decreases s.len() - from
        when 0 <= from <= s.len()
        via split_from_decreases
{
    let i = find_char(s, '\n', from);
    if i >= s.len() {
        seq![s.subrange(from, s.len() as int)]
    } else {
        seq![s.subrange(from, i)] + split_from(s, i + 1)
    }
}

#[via_fn]
proof fn split_from_decreases(s: Seq<char>, from: int) {
    lemma_find_char(s, '\n', from);
}

/// The lines of `s`, split at `'\n'`.
pub open spec fn line_split(s: Seq<char>) -> Seq<Seq<char>> {
    split_from(s, 0)
}

/// A character allowed in a key name.
pub open spec fn key_char(c: char) -> bool {
    ('A' as u32) <= (c as u32) <= ('Z' as u32) || ('a' as u32) <= (c as u32) <= ('z' as u32) || (
    '0' as u32) <= (c as u32) <= ('9' as u32) || c == '-'
}

/// A character allowed in an application id.
pub open spec fn id_char(c: char) -> bool {
    key_char(c) || c == '.' || c == '_'
}

pub open spec fn is_blank(l: Seq<char>) -> bool {
    l.len() == 0
}

pub open spec fn is_comment(l: Seq<char>) -> bool {
    l.len() > 0 && l[0] == '#'
}

/// A `[Group Name]` line.
pub open spec fn is_group_header(l: Seq<char>) -> bool {
    l.len() >= 2 && l[0] == '[' && l[l.len() - 1] == ']' && forall|i: int|
        1 <= i < l.len() - 1 ==> l[i] != '[' && l[i] != ']'
}

/// The length of the key part of a `Key=Value` line.
pub open spec fn key_len(l: Seq<char>) -> int {
    find_char(l, '=', 0)
}

/// A `Key=Value` line: a non-empty key of key characters, then `'='`.
pub open spec fn is_key_value(l: Seq<char>) -> bool {
    0 < key_len(l) < l.len() && forall|i: int| 0 <= i < key_len(l) ==> key_char(l[i])
}

/// The key of a `Key=Value` line.
pub open spec fn line_key(l: Seq<char>) -> Seq<char> {
    l.subrange(0, key_len(l))
}

pub open spec fn line_ok(l: Seq<char>) -> bool {
    is_blank(l) || is_comment(l) || is_group_header(l) || is_key_value(l)
}

/// The text opens with the `[Desktop Entry]` group header.
pub open spec fn header_ok(lines: Seq<Seq<char>>) -> bool {
    lines.len() >= 1 && lines[0] == "[Desktop Entry]"@
}

/// Every line after the header is well formed.
pub open spec fn body_ok(lines: Seq<Seq<char>>) -> bool {
    forall|i: int| 1 <= i < lines.len() ==> line_ok(#[trigger] lines[i])
}

/// Line `i` belongs to the opening group: no later group header stands at
/// or before it.
pub open spec fn in_first_group(lines: Seq<Seq<char>>, i: int) -> bool {
    1 <= i < lines.len() && forall|j: int| 1 <= j <= i ==> !is_group_header(#[trigger] lines[j])
}

/// The opening group carries a `Key=Value` line with the given key.
pub open spec fn first_group_has_key(lines: Seq<Seq<char>>, k: Seq<char>) -> bool {
    exists|i: int|
        in_first_group(lines, i) && is_key_value(#[trigger] lines[i]) && line_key(lines[i]) == k
}

/// A valid launcher descriptor.
pub open spec fn valid_entry_text(s: Seq<char>) -> bool {
    let lines = line_split(s);
    header_ok(lines) && body_ok(lines) && first_group_has_key(lines, "Type"@)
        && first_group_has_key(lines, "Name"@)
}

/// A valid application id: a non-empty portable file-name stem.
pub open spec fn valid_app_id(id: Seq<char>) -> bool {
    id.len() > 0 && forall|i: int| 0 <= i < id.len() ==> id_char(#[trigger] id[i])
}

/// A descriptor the registrar accepts for the given application id.
pub open spec fn valid_entry(text: Seq<char>, id: Seq<char>) -> bool {
    valid_app_id(id) && valid_entry_text(text)
}

fn find_char_from(s: &str, c: char, from: usize) -> (r: usize)
    requires
        from <= s@.len(),
    ensures
        r == find_char(s@, c, from as int),
        from <= r <= s@.len(),
{
    let n = s.unicode_len();
    let mut i: usize = from;
    while i < n
        invariant
            from <= i <= n,
            n == s@.len(),
            forall|j: int| from <= j < i ==> s@[j] != c,
        decreases n - i,
    {
        if s.get_char(i) == c {
            proof {
                lemma_find_char_is(s@, c, from as int, i as int);
            }
            return i;
        }
        i += 1;
    }
    proof {
        lemma_find_char_is(s@, c, from as int, n as int);
    }
    n
}

/// Splits text into its lines.
fn split_lines<'a>(s: &'a str) -> (r: Vec<&'a str>)
    ensures
        r@.map_values(|t: &str| t@) == line_split(s@),
        r@.len() >= 1,
{
    let n = s.unicode_len();
    let mut lines: Vec<&'a str> = Vec::new();
    let mut pos: usize = 0;
    loop
        invariant
            0 <= pos <= n,
            n == s@.len(),
            line_split(s@) == lines@.map_values(|t: &str| t@) + split_from(s@, pos as int),
        decreases n - pos,
    {
        let nl = find_char_from(s, '\n', pos);
        let line = s.substring_char(pos, nl);
        let ghost done: Seq<Seq<char>> = lines@.map_values(|t: &str| t@);
        lines.push(line);
        proof {
            assert(lines@.map_values(|t: &str| t@) =~= done.push(line@));
        }
        if nl == n {
            proof {
                assert(split_from(s@, pos as int) =~= seq![line@]);
                assert(done + seq![line@] =~= done.push(line@));
                assert(line_split(s@) =~= lines@.map_values(|t: &str| t@));
            }
            return lines;
        }
        proof {
            assert(split_from(s@, pos as int) =~= seq![line@] + split_from(s@, nl + 1));
            assert(done + (seq![line@] + split_from(s@, nl + 1)) =~= done.push(line@) + split_from(
                s@,
                nl + 1,
            ));
        }
        pos = nl + 1;
    }
}

fn is_key_char(c: char) -> (r: bool)
    ensures
        r == key_char(c),
{
    let v = c as u32;
    (65 <= v && v <= 90) || (97 <= v && v <= 122) || (48 <= v && v <= 57) || c == '-'
}

fn is_id_char(c: char) -> (r: bool)
    ensures
        r == id_char(c),
{
    is_key_char(c) || c == '.' || c == '_'
}

/// Whether the id is acceptable as an application id.
pub fn check_app_id(id: &str) -> (r: bool)
    ensures
        r == valid_app_id(id@),
{
    let n = id.unicode_len();
    if n == 0 {
        return false;
    }
    let mut i: usize = 0;
    while i < n
        invariant
            0 <= i <= n,
            n == id@.len(),
            forall|j: int| 0 <= j < i ==> id_char(#[trigger] id@[j]),
        decreases n - i,
    {
        if !is_id_char(id.get_char(i)) {
            return false;
        }
        i += 1;
    }
    true
}

fn check_group_header(l: &str) -> (r: bool)
    ensures
        r == is_group_header(l@),
{
    let n = l.unicode_len();
    if n < 2 || l.get_char(0) != '[' || l.get_char(n - 1) != ']' {
        return false;
    }
    let mut i: usize = 1;
    while i < n - 1
        invariant
            1 <= i <= n - 1,
            2 <= n == l@.len(),
            l@[0] == '[',
            l@[n - 1] == ']',
            forall|j: int| 1 <= j < i ==> l@[j] != '[' && l@[j] != ']',
        decreases n - i,
    {
        let c = l.get_char(i);
        if c == '[' || c == ']' {
            return false;
        }
        i += 1;
    }
    true
}

/// The key of a `Key=Value` line, or `None` if the line is no such pair.
fn try_line_key<'a>(l: &'a str) -> (r: Option<&'a str>)
    ensures
        match r {
            Some(k) => is_key_value(l@) && k@ == line_key(l@),
            None => !is_key_value(l@),
        },
{
    let n = l.unicode_len();
    let e = find_char_from(l, '=', 0);
    if e == 0 || e >= n {
        return None;
    }
    let mut i: usize = 0;
    while i < e
        invariant
            0 <= i <= e,
            0 < e < n == l@.len(),
            e == key_len(l@),
            forall|j: int| 0 <= j < i ==> key_char(#[trigger] l@[j]),
        decreases e - i,
    {
        if !is_key_char(l.get_char(i)) {
            return None;
        }
        i += 1;
    }
    Some(l.substring_char(0, e))
}

fn check_line(l: &str) -> (r: bool)
    ensures
        r == line_ok(l@),
{
    if l.unicode_len() == 0 {
        return true;
    }
    if l.get_char(0) == '#' {
        return true;
    }
    if check_group_header(l) {
        return true;
    }
    match try_line_key(l) {
        Some(_) => true,
        None => false,
    }
}

/// The rule an invalid submission breaks first.
pub open spec fn validation_code(text: Seq<char>, id: Seq<char>) -> ValidationError {
    if !valid_app_id(id) {
        ValidationError::InvalidAppId
    } else if !header_ok(line_split(text)) {
        ValidationError::MissingHeader
    } else if !body_ok(line_split(text)) {
        ValidationError::MalformedLine
    } else {
        ValidationError::MissingRequiredKey
    }
}

/// Validates descriptor text against the application id it is to be
/// registered under.  Accepts exactly the valid descriptors, and names
/// the first rule the text breaks otherwise.
pub fn validate_desktop_entry(entry: &str, appid: &str) -> (r: Result<(), ValidationError>)
    ensures
        r is Ok <==> valid_entry(entry@, appid@),
        r matches Err(e) ==> !valid_entry(entry@, appid@) && e == validation_code(entry@, appid@),
        r == Result::<(), ValidationError>::Err(ValidationError::InvalidAppId) <==> !valid_app_id(
            appid@,
        ),
        r == Result::<(), ValidationError>::Err(ValidationError::MissingHeader) <==> valid_app_id(
            appid@,
        ) && !header_ok(line_split(entry@)),
        r == Result::<(), ValidationError>::Err(ValidationError::MalformedLine) <==> valid_app_id(
            appid@,
        ) && header_ok(line_split(entry@)) && !body_ok(line_split(entry@)),
        r == Result::<(), ValidationError>::Err(ValidationError::MissingRequiredKey)
            <==> valid_app_id(appid@) && header_ok(line_split(entry@)) && body_ok(
            line_split(entry@),
        ) && !(first_group_has_key(line_split(entry@), "Type"@) && first_group_has_key(
            line_split(entry@),
            "Name"@,
        )),
{
    if !check_app_id(appid) {
        return Err(ValidationError::InvalidAppId);
    }
    let lines = split_lines(entry);
    let ghost ls: Seq<Seq<char>> = line_split(entry@);
    proof {
        assert(ls[0] == lines@.map_values(|t: &str| t@)[0]);
    }
    if !str_eq(lines[0], "[Desktop Entry]") {
        return Err(ValidationError::MissingHeader);
    }
    let n = lines.len();
    let mut i: usize = 1;
    while i < n
        invariant
            1 <= i <= n,
            n == ls.len(),
            ls == line_split(entry@),
            ls == lines@.map_values(|t: &str| t@),
            valid_app_id(appid@),
            header_ok(ls),
            forall|j: int| 1 <= j < i ==> line_ok(#[trigger] ls[j]),
        decreases n - i,
    {
        proof {
            assert(ls[i as int] == lines@.map_values(|t: &str| t@)[i as int]);
        }
        if !check_line(lines[i]) {
            proof {
                assert(!line_ok(ls[i as int]));
                assert(!body_ok(ls));
            }
            return Err(ValidationError::MalformedLine);
        }
        i += 1;
    }
    let (saw_type, saw_name) = scan_first_group(&lines);
    if saw_type && saw_name {
        Ok(())
    } else {
        Err(ValidationError::MissingRequiredKey)
    }
}

/// Whether the opening group carries the `Type` and the `Name` key.
fn scan_first_group(lines: &Vec<&str>) -> (r: (bool, bool))
    requires
        lines@.len() >= 1,
    ensures
        r.0 == first_group_has_key(lines@.map_values(|t: &str| t@), "Type"@),
        r.1 == first_group_has_key(lines@.map_values(|t: &str| t@), "Name"@),
{
    let ghost ls: Seq<Seq<char>> = lines@.map_values(|t: &str| t@);
    let n = lines.len();
    let mut saw_type = false;
    let mut saw_name = false;
    let mut i: usize = 1;
    while i < n
        invariant
            1 <= i <= n,
            n == ls.len(),
            ls == lines@.map_values(|t: &str| t@),
            forall|j: int| 1 <= j < i ==> !is_group_header(#[trigger] ls[j]),
            saw_type <==> exists|j: int|
                1 <= j < i && is_key_value(#[trigger] ls[j]) && line_key(ls[j]) == "Type"@,
            saw_name <==> exists|j: int|
                1 <= j < i && is_key_value(#[trigger] ls[j]) && line_key(ls[j]) == "Name"@,
        decreases n - i,
    {
        proof {
            assert(ls[i as int] == lines@.map_values(|t: &str| t@)[i as int]);
        }
        let line = lines[i];
        proof {
            reveal_strlit("Type");
            reveal_strlit("Name");
            assert("Type"@ != "Name"@) by {
                assert("Type"@[0] == 'T' && "Name"@[0] == 'N');
            }
        }
        if check_group_header(line) {
            proof {
                lemma_group_scan_stop(ls, i as int, "Type"@);
                lemma_group_scan_stop(ls, i as int, "Name"@);
            }
            return (saw_type, saw_name);
        }
        match try_line_key(line) {
            Some(k) => {
                if str_eq(k, "Type") {
                    saw_type = true;
                    proof {
                        assert(is_key_value(ls[i as int]) && line_key(ls[i as int]) == "Type"@);
                    }
                } else if str_eq(k, "Name") {
                    saw_name = true;
                    proof {
                        assert(is_key_value(ls[i as int]) && line_key(ls[i as int]) == "Name"@);
                    }
                }
            },
            None => {},
        }
        i += 1;
    }
    proof {
        lemma_group_scan_end(ls, "Type"@);
        lemma_group_scan_end(ls, "Name"@);
    }
    (saw_type, saw_name)
}

/// When the scan stops at a group header, the keys seen so far are exactly
/// those of the opening group.
proof fn lemma_group_scan_stop(ls: Seq<Seq<char>>, h: int, k: Seq<char>)
    requires
        1 <= h < ls.len(),
        is_group_header(ls[h]),
        forall|j: int| 1 <= j < h ==> !is_group_header(#[trigger] ls[j]),
    ensures
        first_group_has_key(ls, k) <==> exists|j: int|
            1 <= j < h && is_key_value(#[trigger] ls[j]) && line_key(ls[j]) == k,
{
    if first_group_has_key(ls, k) {
        let j = choose|j: int|
            in_first_group(ls, j) && is_key_value(#[trigger] ls[j]) && line_key(ls[j]) == k;
        assert(j < h) by {
            if j >= h {
                assert(!is_group_header(ls[h]));
            }
        }
    }
    if exists|j: int| 1 <= j < h && is_key_value(#[trigger] ls[j]) && line_key(ls[j]) == k {
        let j = choose|j: int| 1 <= j < h && is_key_value(#[trigger] ls[j]) && line_key(ls[j]) == k;
        assert(in_first_group(ls, j));
    }
}

/// When the scan ran through every line without meeting a group header,
/// the keys seen are exactly those of the opening group.
proof fn lemma_group_scan_end(ls: Seq<Seq<char>>, k: Seq<char>)
    requires
        forall|j: int| 1 <= j < ls.len() ==> !is_group_header(#[trigger] ls[j]),
    ensures
        first_group_has_key(ls, k) <==> exists|j: int|
            1 <= j < ls.len() && is_key_value(#[trigger] ls[j]) && line_key(ls[j]) == k,
{
    if exists|j: int| 1 <= j < ls.len() && is_key_value(#[trigger] ls[j]) && line_key(ls[j]) == k {
        let j = choose|j: int|
            1 <= j < ls.len() && is_key_value(#[trigger] ls[j]) && line_key(ls[j]) == k;
        assert(in_first_group(ls, j));
    }
}

} // verus!
