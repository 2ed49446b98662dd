//! Which files of a project tree are analysed. Paths here are relative to
//! the project root, with `/` between segments.
use crate::extract::Dialect;
use vstd::prelude::*;

verus! {

/// Whether `p` holds `name` as a directory segment: at its start or after
/// a `/`, and followed by a `/`.
pub open spec fn has_dir_segment(p: Seq<char>, name: Seq<char>) -> bool {
    exists|i: int|
        0 <= i && i + name.len() < p.len() && (i == 0 || p[i - 1] == '/') && #[trigger] p.subrange(
            i,
            i + name.len(),
        ) == name && p[i + name.len()] == '/'
}

/// Whether the file at `p` lies under a dependency-install (`node_modules`)
/// or build-output (`dist`) directory.
pub open spec fn in_excluded_dir(p: Seq<char>) -> bool {
    has_dir_segment(p, "node_modules"@) || has_dir_segment(p, "dist"@)
}

/// Whether `p` ends in `.` followed by `ext`, with a file name before the
/// dot.
pub open spec fn has_extension(p: Seq<char>, ext: Seq<char>) -> bool {
    p.len() > ext.len() + 1 && p[p.len() - ext.len() - 1] == '.' && p.subrange(
        p.len() - ext.len(),
        p.len() as int,
    ) == ext && p[p.len() - ext.len() - 2] != '/'
}

/// The dialect of the file at `p`, from its extension; `None` for a file
/// that is not a source file.
pub open spec fn dialect_of(p: Seq<char>) -> Option<Dialect> {
    if has_extension(p, "ts"@) {
        Some(Dialect::Ts)
    } else if has_extension(p, "tsx"@) {
        Some(Dialect::Tsx)
    } else {
        None
    }
}

fn segment_at(p: &str, len: usize, i: usize, name: &String) -> (r: bool)
    requires
        len == p@.len(),
        i <= len,
    ensures
        r == ((i == 0 || p@[i - 1] == '/') && i + name@.len() < len && p@.subrange(
            i as int,
            i + name@.len(),
        ) == name@ && p@[i + name@.len()] == '/'),
{
    let n = name.unicode_len();
    if i > 0 && p.get_char(i - 1) != '/' {
        return false;
    }
    if n >= len - i {
        return false;
    }
    if p.get_char(i + n) != '/' {
        return false;
    }
    String::from_str(p.substring_char(i, i + n)) == *name
}

fn contains_dir_segment(p: &str, name: &String) -> (r: bool)
    ensures
        r == has_dir_segment(p@, name@),
{
    let len = p.unicode_len();
    let mut i: usize = 0;
    while i < len
        invariant
            len == p@.len(),
            i <= len,
            forall|k: int|
                0 <= k < i ==> !((k == 0 || p@[k - 1] == '/') && k + name@.len() < len
                    && #[trigger] p@.subrange(k, k + name@.len()) == name@ && p@[k + name@.len()]
                    == '/'),
        decreases len - i,
    {
        if segment_at(p, len, i, name) {
            return true;
        }
        i = i + 1;
    }
    false
}

/// Whether the file at `path` lies under a `node_modules` or `dist`
/// directory.
pub fn is_in_excluded_dir(path: &str) -> (r: bool)
    ensures
        r == in_excluded_dir(path@),
{
    proof {
        reveal_strlit("node_modules");
        reveal_strlit("dist");
    }
    contains_dir_segment(path, &String::from_str("node_modules"))
        || contains_dir_segment(path, &String::from_str("dist"))
}

fn ends_with_extension(p: &str, ext: &String) -> (r: bool)
    ensures
        r == has_extension(p@, ext@),
{
    let len = p.unicode_len();
    let n = ext.unicode_len();
    if len < 2 || len - 2 < n {
        return false;
    }
    p.get_char(len - n - 1) == '.' && p.get_char(len - n - 2) != '/' && String::from_str(
        p.substring_char(len - n, len),
    ) == *ext
}

/// The dialect of the file at `path`, or `None` when it is not a `.ts` or
/// `.tsx` file.
pub fn source_dialect(path: &str) -> (r: Option<Dialect>)
    ensures
        r == dialect_of(path@),
{
    proof {
        reveal_strlit("ts");
        reveal_strlit("tsx");
    }
    if ends_with_extension(path, &String::from_str("ts")) {
        Some(Dialect::Ts)
    } else if ends_with_extension(path, &String::from_str("tsx")) {
        Some(Dialect::Tsx)
    } else {
        None
    }
}

/// The position of the first `]` in `pat` at or after `k`, or `pat.len()`.
pub open spec fn close_from(pat: Seq<char>, k: int) -> int
    decreases pat.len() - k,
{
    if k >= pat.len() {
        pat.len() as int
    } else if k >= 0 && pat[k] == ']' {
        k
    } else {
        close_from(pat, k + 1)
    }
}

proof fn lemma_close_from_bounds(pat: Seq<char>, k: int)
    requires
        0 <= k,
    ensures
        k <= close_from(pat, k) || close_from(pat, k) == pat.len(),
        close_from(pat, k) <= pat.len() || k > pat.len(),
    decreases pat.len() - k,
{
    if k < pat.len() && pat[k] != ']' {
        lemma_close_from_bounds(pat, k + 1);
    }
}

/// Whether `c` is among the class members `pat[k..end]`: single characters,
/// and ranges `a-z` (inclusive, by code point).
pub open spec fn in_members(pat: Seq<char>, k: int, end: int, c: char) -> bool
    decreases end - k,
{
    if k >= end || k < 0 {
        false
    } else if k + 2 < end && pat[k + 1] == '-' {
        (pat[k] <= c && c <= pat[k + 2]) || in_members(pat, k + 3, end, c)
    } else {
        pat[k] == c || in_members(pat, k + 1, end, c)
    }
}

/// Whether `c` matches the class that opens with `[` at `i` and closes with
/// the `]` at `close`; a class whose members start with `!` or `^` matches
/// what is not among them. No class matches `/`.
pub open spec fn class_matches(pat: Seq<char>, i: int, close: int, c: char) -> bool {
    let neg = i + 1 < close && (pat[i + 1] == '!' || pat[i + 1] == '^');
    let start = if neg { i + 2 } else { i + 1 };
    c != '/' && (in_members(pat, start, close, c) != neg)
}

/// Glob matching of `pat[i..]` against the whole of `s`, within one path:
/// `**` stands for any run of characters, `/` included, and `**/` also for
/// none; `*` stands for any run of characters other than `/`, `?` for any one
/// character other than `/`, `[...]` for one character of a class (a `]`
/// right after the `[` or `[!` is a member; a `[` with no `]` after it
/// stands for itself), and any other character for itself.
pub open spec fn glob_at(pat: Seq<char>, i: int, s: Seq<char>) -> bool
    decreases pat.len() - i + s.len(),
    when 0 <= i
    via glob_at_decreases
{
    if i >= pat.len() {
        s.len() == 0
    } else if pat[i] == '*' && i + 1 < pat.len() && pat[i + 1] == '*' {
        (i + 2 < pat.len() && pat[i + 2] == '/' && glob_at(pat, i + 3, s)) || glob_at(pat, i + 2, s) || (
        s.len() > 0 && glob_at(pat, i, s.drop_first()))
    } else if pat[i] == '*' {
        glob_at(pat, i + 1, s) || (s.len() > 0 && s[0] != '/' && glob_at(pat, i, s.drop_first()))
    } else if s.len() == 0 {
        false
    } else if pat[i] == '[' && close_from(pat, i + 2) < pat.len() {
        class_matches(pat, i, close_from(pat, i + 2), s[0]) && glob_at(
            pat,
            close_from(pat, i + 2) + 1,
            s.drop_first(),
        )
    } else if (pat[i] == '?' && s[0] != '/') || pat[i] == s[0] {
        glob_at(pat, i + 1, s.drop_first())
    } else {
        false
    }
}

#[via_fn]
proof fn glob_at_decreases(pat: Seq<char>, i: int, s: Seq<char>) {
    lemma_close_from_bounds(pat, i + 2);
}

/// Glob matching of a whole text within one path: see `glob_at`.
pub open spec fn glob_matches(pat: Seq<char>, s: Seq<char>) -> bool {
    glob_at(pat, 0, s)
}

/// Whether an ignore pattern re-includes what it matches (`!` first).
pub open spec fn is_negated(pat: Seq<char>) -> bool {
    pat.len() > 0 && pat[0] == '!'
}

/// The pattern without a leading `!`.
pub open spec fn unnegated(pat: Seq<char>) -> Seq<char> {
    if is_negated(pat) {
        pat.drop_first()
    } else {
        pat
    }
}

/// Whether the pattern matches directories only (a trailing `/`).
pub open spec fn is_dir_only(pat: Seq<char>) -> bool {
    let u = unnegated(pat);
    u.len() > 0 && u[u.len() - 1] == '/'
}

/// The pattern without a leading `!` and a trailing `/`.
pub open spec fn trimmed(pat: Seq<char>) -> Seq<char> {
    if is_dir_only(pat) {
        unnegated(pat).drop_last()
    } else {
        unnegated(pat)
    }
}

/// A pattern that holds a `/` (a trailing one aside) is taken relative to
/// the root; any other matches at any depth.
pub open spec fn is_anchored(pat: Seq<char>) -> bool {
    exists|i: int| 0 <= i < trimmed(pat).len() && trimmed(pat)[i] == '/'
}

/// The glob that is matched against paths: the trimmed pattern without a
/// leading `/`.
pub open spec fn glob_of(pat: Seq<char>) -> Seq<char> {
    let t = trimmed(pat);
    if t.len() > 0 && t[0] == '/' {
        t.drop_first()
    } else {
        t
    }
}

/// Whether the run of whole segments `p[i..k]` is one that the pattern can
/// match: it starts at the root (anchored) or at any segment, and it is the
/// whole path or a directory holding the file (a directory only, for a
/// pattern with a trailing `/`).
pub open spec fn run_fits(pat: Seq<char>, p: Seq<char>, i: int, k: int) -> bool {
    &&& 0 <= i <= k <= p.len()
    &&& if is_anchored(pat) {
        i == 0
    } else {
        i == 0 || p[i - 1] == '/'
    }
    &&& (k < p.len() && p[k] == '/') || (k == p.len() && !is_dir_only(pat))
}

/// Whether the pattern `pat` (its `!` aside) matches the file at `p` or a
/// directory holding it, following the ignore-file convention: see
/// `run_fits` and `glob_matches`.
pub open spec fn pattern_covers(pat: Seq<char>, p: Seq<char>) -> bool {
    exists|i: int, k: int| run_fits(pat, p, i, k) && glob_matches(glob_of(pat), #[trigger] p.subrange(i, k))
}

/// Whether the patterns `pats` ignore the file at `p`: the last pattern
/// that matches it decides, and a negated one re-includes it.
pub open spec fn ignored_by(pats: Seq<Seq<char>>, p: Seq<char>) -> bool
    decreases pats.len(),
{
    if pats.len() == 0 {
        false
    } else if pattern_covers(pats.last(), p) {
        !is_negated(pats.last())
    } else {
        ignored_by(pats.drop_last(), p)
    }
}

fn chars_of(s: &str) -> (r: Vec<char>)
    ensures
        r@ == s@,
{
    let len = s.unicode_len();
    let mut r: Vec<char> = Vec::new();
    let mut i: usize = 0;
    while i < len
        invariant
            len == s@.len(),
            i <= len,
            r@ == s@.subrange(0, i as int),
        decreases len - i,
    {
        r.push(s.get_char(i));
        i = i + 1;
        assert(r@ =~= s@.subrange(0, i as int));
    }
    r
}

fn sub_chars(v: &Vec<char>, from: usize, to: usize) -> (r: Vec<char>)
    requires
        from <= to <= v@.len(),
    ensures
        r@ == v@.subrange(from as int, to as int),
{
    let mut r: Vec<char> = Vec::new();
    let mut i: usize = from;
    while i < to
        invariant
            from <= i <= to <= v@.len(),
            r@ == v@.subrange(from as int, i as int),
        decreases to - i,
    {
        r.push(v[i]);
        i = i + 1;
        assert(r@ =~= v@.subrange(from as int, i as int));
    }
    r
}

fn find_close(pat: &Vec<char>, k: usize) -> (r: usize)
    requires
        k <= pat@.len(),
    ensures
        r == close_from(pat@, k as int),
{
    let mut m: usize = k;
    while m < pat.len()
        invariant
            k <= m <= pat@.len(),
            close_from(pat@, k as int) == close_from(pat@, m as int),
        decreases pat@.len() - m,
    {
        if pat[m] == ']' {
            return m;
        }
        m = m + 1;
    }
    m
}

fn member_from(pat: &Vec<char>, k: usize, end: usize, c: char) -> (r: bool)
    requires
        k <= end <= pat@.len(),
    ensures
        r == in_members(pat@, k as int, end as int, c),
    decreases end - k,
{
    if k >= end {
        return false;
    }
    if end - k > 2 && pat[k + 1] == '-' {
        let lo = pat[k];
        let hi = pat[k + 2];
        if lo <= c && c <= hi {
            return true;
        }
        return member_from(pat, k + 3, end, c);
    }
    if pat[k] == c {
        return true;
    }
    member_from(pat, k + 1, end, c)
}

fn glob_from(pat: &Vec<char>, i: usize, s: &Vec<char>, j: usize, end: usize) -> (r: bool)
    requires
        i <= pat@.len(),
        j <= end <= s@.len(),
    ensures
        r == glob_at(pat@, i as int, s@.subrange(j as int, end as int)),
    decreases pat@.len() - i + end - j,
{
    let ghost ss = s@.subrange(j as int, end as int);
    if i == pat.len() {
        return j == end;
    }
    if pat[i] == '*' && pat.len() - i > 1 && pat[i + 1] == '*' {
        if pat.len() - i > 2 && pat[i + 2] == '/' && glob_from(pat, i + 3, s, j, end) {
            return true;
        }
        if glob_from(pat, i + 2, s, j, end) {
            return true;
        }
        if j == end {
            return false;
        }
        assert(ss.drop_first() =~= s@.subrange(j + 1, end as int));
        return glob_from(pat, i, s, j + 1, end);
    }
    if pat[i] == '*' {
        if glob_from(pat, i + 1, s, j, end) {
            return true;
        }
        if j == end || s[j] == '/' {
            return false;
        }
        assert(ss.drop_first() =~= s@.subrange(j + 1, end as int));
        return glob_from(pat, i, s, j + 1, end);
    }
    if j == end {
        return false;
    }
    assert(ss.drop_first() =~= s@.subrange(j + 1, end as int));
    if pat[i] == '[' && pat.len() - i > 2 {
        let close = find_close(pat, i + 2);
        proof {
            lemma_close_from_bounds(pat@, i + 2);
        }
        if close < pat.len() {
            let c = s[j];
            let neg = i + 1 < close && (pat[i + 1] == '!' || pat[i + 1] == '^');
            let start = if neg { i + 2 } else { i + 1 };
            let member = member_from(pat, start, close, c);
            if c == '/' || member == neg {
                return false;
            }
            return glob_from(pat, close + 1, s, j + 1, end);
        }
    }
    proof {
        if pat@.len() - i <= 2 {
            assert(close_from(pat@, i + 2) == pat@.len());
        }
    }
    if (pat[i] == '?' && s[j] != '/') || pat[i] == s[j] {
        glob_from(pat, i + 1, s, j + 1, end)
    } else {
        false
    }
}

/// Whether `pattern`, its `!` aside, matches the file at `path`.
pub fn pattern_matches(pattern: &str, path: &str) -> (r: bool)
    ensures
        r == pattern_covers(pattern@, path@),
{
    let pc = chars_of(pattern);
    let s = chars_of(path);
    let ghost pv = pattern@;
    let mut start: usize = 0;
    let mut end: usize = pc.len();
    if end > 0 && pc[0] == '!' {
        start = 1;
    }
    assert(unnegated(pv) =~= pc@.subrange(start as int, end as int));
    let dir_only = end > start && pc[end - 1] == '/';
    if dir_only {
        end = end - 1;
    }
    assert(dir_only == is_dir_only(pv));
    assert(trimmed(pv) =~= pc@.subrange(start as int, end as int));
    let mut anchored = false;
    let mut m: usize = start;
    while m < end
        invariant
            start <= m <= end <= pc@.len(),
            trimmed(pv) == pc@.subrange(start as int, end as int),
            anchored == exists|q: int| 0 <= q < m - start && trimmed(pv)[q] == '/',
        decreases end - m,
    {
        if pc[m] == '/' {
            assert(trimmed(pv)[m - start] == '/');
            anchored = true;
        }
        m = m + 1;
    }
    assert(anchored == is_anchored(pv));
    if end > start && pc[start] == '/' {
        start = start + 1;
    }
    let body = sub_chars(&pc, start, end);
    assert(body@ =~= glob_of(pv));
    let n = s.len();
    let mut i: usize = 0;
    while i <= n
        invariant
            pv == pattern@,
            s@ == path@,
            n == s@.len(),
            body@ == glob_of(pv),
            dir_only == is_dir_only(pv),
            anchored == is_anchored(pv),
            forall|a: int, k: int| 0 <= a < i && run_fits(pv, path@, a, k) ==> !glob_matches(glob_of(pv), #[trigger] path@.subrange(a, k)),
        decreases n + 1 - i,
    {
        if (i == 0 || s[i - 1] == '/') && (i == 0 || !anchored) {
            let mut k: usize = i;
            while k < n
                invariant
                    pv == pattern@,
                    s@ == path@,
                    n == s@.len(),
                    i <= k <= n,
                    body@ == glob_of(pv),
                    dir_only == is_dir_only(pv),
                    anchored == is_anchored(pv),
                    (i == 0 || s@[i - 1] == '/') && (i == 0 || !anchored),
                    forall|k2: int| i <= k2 < k && run_fits(pv, path@, i as int, k2) ==> !glob_matches(glob_of(pv), #[trigger] path@.subrange(i as int, k2)),
                decreases n - k,
            {
                if s[k] == '/' && glob_from(&body, 0, &s, i, k) {
                    assert(run_fits(pv, path@, i as int, k as int));
                    assert(glob_matches(glob_of(pv), path@.subrange(i as int, k as int)));
                    assert(pattern_covers(pv, path@));
                    return true;
                }
                k = k + 1;
            }
            if !dir_only && glob_from(&body, 0, &s, i, n) {
                assert(run_fits(pv, path@, i as int, n as int));
                assert(glob_matches(glob_of(pv), path@.subrange(i as int, n as int)));
                assert(pattern_covers(pv, path@));
                return true;
            }
        }
        assert forall|k2: int| run_fits(pv, path@, i as int, k2) implies !glob_matches(glob_of(pv), #[trigger] path@.subrange(i as int, k2)) by {
            assert(k2 <= n);
        }
        if i == n {
            assert forall|a: int, k: int| run_fits(pv, path@, a, k) implies !glob_matches(glob_of(pv), #[trigger] path@.subrange(a, k)) by {
                assert(a <= i);
            }
            return false;
        }
        i = i + 1;
    }
    false
}

/// Whether the patterns `patterns` ignore the file at `path`: the last
/// pattern that matches it decides.
pub fn is_ignored(patterns: &Vec<String>, path: &str) -> (r: bool)
    ensures
        r == ignored_by(patterns.deep_view(), path@),
{
    let ghost pv = patterns.deep_view();
    let mut i: usize = patterns.len();
    assert(pv.subrange(0, i as int) =~= pv);
    while i > 0
        invariant
            pv == patterns.deep_view(),
            i <= patterns.len(),
            ignored_by(pv, path@) == ignored_by(pv.subrange(0, i as int), path@),
        decreases i,
    {
        let ghost sub = pv.subrange(0, i as int);
        assert(sub.drop_last() =~= pv.subrange(0, i - 1));
        assert(sub.last() == patterns[i - 1]@);
        if pattern_matches(patterns[i - 1].as_str(), path) {
            let neg = patterns[i - 1].as_str().unicode_len() > 0 && patterns[i - 1].as_str().get_char(0) == '!';
            return !neg;
        }
        i = i - 1;
    }
    false
}

/// The position of the first line break in `t` at or after `from`, or
/// `t.len()`.
pub open spec fn line_end(t: Seq<char>, from: int) -> int
    decreases t.len() - from,
{
    if from >= t.len() {
        t.len() as int
    } else if from >= 0 && t[from] == '\n' {
        from
    } else {
        line_end(t, from + 1)
    }
}

proof fn lemma_line_end_bounds(t: Seq<char>, from: int)
    requires
        0 <= from <= t.len(),
    ensures
        from <= line_end(t, from) <= t.len(),
    decreases t.len() - from,
{
    if from < t.len() && t[from] != '\n' {
        lemma_line_end_bounds(t, from + 1);
    }
}

/// A line of an ignore file, without its line break and a carriage return
/// before it.
pub open spec fn trim_cr(line: Seq<char>) -> Seq<char> {
    if line.len() > 0 && line[line.len() - 1] == '\r' {
        line.drop_last()
    } else {
        line
    }
}

/// Whether a line of an ignore file holds a pattern: it is neither blank
/// (empty, or spaces and tabs only) nor a `#` comment.
pub open spec fn is_pattern_line(line: Seq<char>) -> bool {
    &&& exists|i: int| 0 <= i < line.len() && line[i] != ' ' && line[i] != '\t'
    &&& line[0] != '#'
}

fn has_content(t: &str, from: usize, to: usize) -> (r: bool)
    requires
        from <= to <= t@.len(),
    ensures
        r == exists|i: int| 0 <= i < to - from && t@.subrange(from as int, to as int)[i] != ' ' && t@.subrange(from as int, to as int)[i] != '\t',
{
    let ghost line = t@.subrange(from as int, to as int);
    let mut i: usize = from;
    while i < to
        invariant
            from <= i <= to <= t@.len(),
            line == t@.subrange(from as int, to as int),
            forall|k: int| 0 <= k < i - from ==> line[k] == ' ' || line[k] == '\t',
        decreases to - i,
    {
        let c = t.get_char(i);
        assert(line[i - from] == c);
        if c != ' ' && c != '\t' {
            return true;
        }
        i = i + 1;
    }
    false
}

/// The patterns of the lines of `t` that start at or after `from`, in order.
pub open spec fn patterns_from(t: Seq<char>, from: int) -> Seq<Seq<char>>
    decreases t.len() - from,
    when 0 <= from <= t.len()
    via patterns_from_decreases
{
    let e = line_end(t, from);
    let line = trim_cr(t.subrange(from, e));
    let rest = if e < t.len() {
        patterns_from(t, e + 1)
    } else {
        Seq::empty()
    };
    if is_pattern_line(line) {
        seq![line] + rest
    } else {
        rest
    }
}

#[via_fn]
proof fn patterns_from_decreases(t: Seq<char>, from: int) {
    lemma_line_end_bounds(t, from);
}

fn find_line_end(t: &str, from: usize, len: usize) -> (r: usize)
    requires
        len == t@.len(),
        from <= len,
    ensures
        r == line_end(t@, from as int),
{
    let mut i: usize = from;
    while i < len
        invariant
            len == t@.len(),
            from <= i <= len,
            line_end(t@, from as int) == line_end(t@, i as int),
        decreases len - i,
    {
        if t.get_char(i) == '\n' {
            return i;
        }
        i = i + 1;
    }
    i
}

/// The patterns of an ignore file: one per line, blank lines and lines
/// starting with `#` left out.
pub fn parse_ignore_patterns(text: &str) -> (r: Vec<String>)
    ensures
        r.deep_view() == patterns_from(text@, 0),
{
    let len = text.unicode_len();
    let mut r: Vec<String> = Vec::new();
    let mut start: usize = 0;
    loop
        invariant
            len == text@.len(),
            start <= len,
            r.deep_view() + patterns_from(text@, start as int) == patterns_from(text@, 0),
        decreases len - start,
    {
        let e = find_line_end(text, start, len);
        proof {
            lemma_line_end_bounds(text@, start as int);
        }
        let mut stop = e;
        if stop > start && text.get_char(stop - 1) == '\r' {
            stop = stop - 1;
        }
        let ghost line = trim_cr(text@.subrange(start as int, e as int));
        assert(text@.subrange(start as int, stop as int) =~= line);
        let ghost rest = if e < len { patterns_from(text@, e + 1) } else { Seq::<Seq<char>>::empty() };
        let ghost before = r.deep_view();
        if has_content(text, start, stop) && text.get_char(start) != '#' {
            r.push(String::from_str(text.substring_char(start, stop)));
            assert(r.deep_view() =~= before.push(line));
            assert(before + (seq![line] + rest) =~= r.deep_view() + rest);
        }
        if e >= len {
            assert(r.deep_view() =~= r.deep_view() + rest);
            return r;
        }
        start = e + 1;
    }
}

} // verus!
