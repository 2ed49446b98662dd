//! Resolving an import specifier to the root package it names.
use vstd::prelude::*;

verus! {

/// The position of the first `/` in `s` at or after `from`, or `s.len()`.
pub open spec fn slash_from(s: Seq<char>, from: int) -> int
    decreases s.len() - from,
{
    if from >= s.len() {
        s.len() as int
    } else if from >= 0 && s[from] == '/' {
        from
    } else {
        slash_from(s, from + 1)
    }
}

pub proof fn lemma_slash_from_bounds(s: Seq<char>, from: int)
    requires
        0 <= from <= s.len(),
    ensures
        from <= slash_from(s, from) <= s.len(),
        slash_from(s, from) < s.len() ==> s[slash_from(s, from)] == '/',
        forall|i: int| from <= i < slash_from(s, from) ==> s[i] != '/',
    decreases s.len() - from,
{
    if from < s.len() && s[from] != '/' {
        lemma_slash_from_bounds(s, from + 1);
    }
}

/// A specifier that names a project-local file: relative (`./x`, `../x`)
/// or absolute (`/x`).
pub open spec fn is_local_specifier(s: Seq<char>) -> bool {
    s.len() > 0 && (s[0] == '.' || s[0] == '/')
}

/// A character allowed in a package name: an ASCII letter or digit, `-`,
/// `.`, `_` or `~`.
pub open spec fn is_name_char(c: char) -> bool {
    let n = c as int;
    (97 <= n <= 122) || (65 <= n <= 90) || (48 <= n <= 57) || c == '-' || c == '.' || c == '_' || c == '~'
}

/// A well-formed name segment (a package name, or a scope without its
/// `@`): not empty, not starting with `.` or `_`, of name characters only.
pub open spec fn is_name_segment(seg: Seq<char>) -> bool {
    &&& seg.len() > 0
    &&& seg[0] != '.'
    &&& seg[0] != '_'
    &&& forall|i: int| 0 <= i < seg.len() ==> is_name_char(#[trigger] seg[i])
}

/// The root package name that a specifier refers to.
///
/// `lodash/fp` names `lodash`; a scoped specifier `@scope/pkg/sub` names
/// `@scope/pkg`. Local specifiers name no package, and neither does a
/// specifier whose name (or scope and name) is not a well-formed name
/// segment: `@scope`, `node:fs`, `https://x`, `_private`.
pub open spec fn package_name_of(s: Seq<char>) -> Option<Seq<char>> {
    if s.len() == 0 || is_local_specifier(s) {
        None
    } else if s[0] == '@' {
        let e1 = slash_from(s, 0);
        if e1 >= s.len() || !is_name_segment(s.subrange(1, e1)) {
            None
        } else {
            let e2 = slash_from(s, e1 + 1);
            if is_name_segment(s.subrange(e1 + 1, e2)) {
                Some(s.subrange(0, e2))
            } else {
                None
            }
        }
    } else {
        let e1 = slash_from(s, 0);
        if is_name_segment(s.subrange(0, e1)) {
            Some(s.subrange(0, e1))
        } else {
            None
        }
    }
}

fn name_segment_at(s: &str, from: usize, to: usize) -> (r: bool)
    requires
        from <= to <= s@.len(),
    ensures
        r == is_name_segment(s@.subrange(from as int, to as int)),
{
    let ghost seg = s@.subrange(from as int, to as int);
    if from == to {
        return false;
    }
    let c0 = s.get_char(from);
    if c0 == '.' || c0 == '_' {
        return false;
    }
    let mut i: usize = from;
    while i < to
        invariant
            from <= i <= to <= s@.len(),
            seg == s@.subrange(from as int, to as int),
            forall|k: int| 0 <= k < i - from ==> is_name_char(#[trigger] seg[k]),
        decreases to - i,
    {
        let c = s.get_char(i);
        let n = c as u32;
        let ok = (97 <= n && n <= 122) || (65 <= n && n <= 90) || (48 <= n && n <= 57) || c == '-'
            || c == '.' || c == '_' || c == '~';
        assert(seg[i - from] == c);
        if !ok {
            return false;
        }
        i = i + 1;
    }
    true
}

fn find_slash(s: &str, from: usize, len: usize) -> (r: usize)
    requires
        len == s@.len(),
        from <= len,
    ensures
        r == slash_from(s@, from as int),
{
    let mut i: usize = from;
    while i < len
        invariant
            len == s@.len(),
            from <= i <= len,
            slash_from(s@, from as int) == slash_from(s@, i as int),
        decreases len - i,
    {
        if s.get_char(i) == '/' {
            return i;
        }
        i = i + 1;
    }
    i
}

/// Maps an import specifier to the root package it names, if any.
pub fn resolve_package_name(specifier: &str) -> (r: Option<String>)
    ensures
        r matches Some(n) ==> package_name_of(specifier@) == Some(n@),
        r is None ==> package_name_of(specifier@) is None,
{
    let len = specifier.unicode_len();
    if len == 0 {
        return None;
    }
    let c0 = specifier.get_char(0);
    if c0 == '.' || c0 == '/' {
        return None;
    }
    let e1 = find_slash(specifier, 0, len);
    proof {
        lemma_slash_from_bounds(specifier@, 0);
    }
    if c0 == '@' {
        if e1 >= len || !name_segment_at(specifier, 1, e1) {
            return None;
        }
        let e2 = find_slash(specifier, e1 + 1, len);
        proof {
            lemma_slash_from_bounds(specifier@, e1 + 1);
        }
        if !name_segment_at(specifier, e1 + 1, e2) {
            return None;
        }
        Some(String::from_str(specifier.substring_char(0, e2)))
    } else {
        if !name_segment_at(specifier, 0, e1) {
            return None;
        }
        Some(String::from_str(specifier.substring_char(0, e1)))
    }
}

} // verus!
