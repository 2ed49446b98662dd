//! The analysis: per-file package usage, the project-wide used set, and the
//! unused and missing dependencies against the declared ones.
use crate::extract::{check_file, specifiers_of, Dialect};
use crate::names::{
    difference, insert_all, lemma_insert_keeps_sorted, lemma_lex_asymmetric, lemma_lex_total,
    lemma_lex_transitive, lemma_sorted_unique, lex_less, lex_lt, strictly_sorted,
};
use crate::resolve::{package_name_of, resolve_package_name};
use crate::walk::{dialect_of, ignored_by, in_excluded_dir, is_ignored, is_in_excluded_dir, source_dialect};
use vstd::prelude::*;

verus! {

/// A file of the project: its path relative to the root, with `/` between
/// segments, and its text.
pub struct SourceFile {
    pub path: String,
    pub text: String,
}

/// What one run leaves out.
pub struct Config {
    /// Report no missing dependencies.
    pub skip_missing: bool,
    /// Glob patterns, relative to the root, of files and directories to skip.
    pub ignore_patterns: Vec<String>,
    /// Package names kept out of both results.
    pub ignore_matches: Vec<String>,
}

/// The packages that one file uses.
pub struct FileUsage {
    /// The file's path relative to the root.
    pub path: String,
    /// The root package names it imports, ascending, each once.
    pub packages: Vec<String>,
    /// False when the file did not parse; it then uses no package.
    pub parsed: bool,
}

/// The outcome of an analysis.
pub struct CheckResult {
    /// One entry per analysed file, ascending by path.
    pub using_dependencies: Vec<FileUsage>,
    /// Declared packages that no file uses, ascending.
    pub unused_dependencies: Vec<String>,
    /// Used packages that are not declared, ascending.
    pub missing_dependencies: Vec<String>,
}

/// The packages named by a sequence of specifiers.
pub open spec fn packages_of(specs: Seq<Seq<char>>) -> Set<Seq<char>> {
    Set::new(|n: Seq<char>| exists|i: int| 0 <= i < specs.len() && #[trigger] package_name_of(specs[i]) == Some(n))
}

/// Whether the file at `p` is analysed under the ignore patterns `pats`.
pub open spec fn is_analyzed(pats: Seq<Seq<char>>, p: Seq<char>) -> bool {
    !in_excluded_dir(p) && dialect_of(p) is Some && !ignored_by(pats, p)
}

/// The packages that a file at `p` with text `t` uses, and whether it parsed.
pub open spec fn file_usage_spec(p: Seq<char>, t: Seq<char>) -> (Set<Seq<char>>, bool) {
    match specifiers_of(t, dialect_of(p) == Some(Dialect::Tsx)) {
        Some(specs) => (packages_of(specs), true),
        None => (Set::empty(), false),
    }
}

/// The usage of each analysed file, by path; of two files with one path
/// the later one counts.
pub open spec fn usage_spec(files: Seq<SourceFile>, pats: Seq<Seq<char>>) -> Map<
    Seq<char>,
    (Set<Seq<char>>, bool),
>
    decreases files.len(),
{
    if files.len() == 0 {
        Map::empty()
    } else {
        let m = usage_spec(files.drop_last(), pats);
        let f = files.last();
        if is_analyzed(pats, f.path@) {
            m.insert(f.path@, file_usage_spec(f.path@, f.text@))
        } else {
            m
        }
    }
}

/// Entries strictly ascending by path, each package list strictly ascending.
pub open spec fn usage_sorted(s: Seq<FileUsage>) -> bool {
    &&& forall|i: int, j: int| 0 <= i < j < s.len() ==> lex_lt(#[trigger] s[i].path@, #[trigger] s[j].path@)
    &&& forall|i: int| 0 <= i < s.len() ==> strictly_sorted(#[trigger] s[i].packages.deep_view())
}

/// `s` lists exactly the usage map `m`, ascending by path.
pub open spec fn usage_matches(s: Seq<FileUsage>, m: Map<Seq<char>, (Set<Seq<char>>, bool)>) -> bool {
    &&& usage_sorted(s)
    &&& forall|i: int| 0 <= i < s.len() ==> #[trigger] m.contains_key(s[i].path@)
    &&& forall|i: int| 0 <= i < s.len() ==> m[s[i].path@] == (#[trigger] s[i].packages.deep_view().to_set(), s[i].parsed)
    &&& forall|p: Seq<char>| #[trigger] m.contains_key(p) ==> exists|i: int| 0 <= i < s.len() && s[i].path@ == p
}

/// Every package that some file of the usage map uses.
pub open spec fn used_names(m: Map<Seq<char>, (Set<Seq<char>>, bool)>) -> Set<Seq<char>> {
    Set::new(|n: Seq<char>| exists|p: Seq<char>| #[trigger] m.contains_key(p) && m[p].0.contains(n))
}

/// Declared packages that are not used, the ignored ones left out.
pub open spec fn unused_spec(declared: Set<Seq<char>>, used: Set<Seq<char>>, ignored: Set<Seq<char>>) -> Set<Seq<char>> {
    declared.difference(ignored).difference(used.difference(ignored))
}

/// Used packages that are not declared, the ignored ones left out; none
/// when missing dependencies are skipped.
pub open spec fn missing_spec(
    declared: Set<Seq<char>>,
    used: Set<Seq<char>>,
    ignored: Set<Seq<char>>,
    skip_missing: bool,
) -> Set<Seq<char>> {
    if skip_missing {
        Set::empty()
    } else {
        used.difference(ignored).difference(declared.difference(ignored))
    }
}

/// The root packages that `specifiers` name, ascending, each once.
pub fn file_packages(specifiers: &Vec<String>) -> (r: Vec<String>)
    ensures
        strictly_sorted(r.deep_view()),
        r.deep_view().to_set() == packages_of(specifiers.deep_view()),
{
    let ghost sd = specifiers.deep_view();
    let mut r: Vec<String> = Vec::new();
    let mut i: usize = 0;
    assert(r.deep_view().to_set() =~= packages_of(sd.subrange(0, 0)));
    while i < specifiers.len()
        invariant
            sd == specifiers.deep_view(),
            i <= specifiers.len(),
            strictly_sorted(r.deep_view()),
            r.deep_view().to_set() == packages_of(sd.subrange(0, i as int)),
        decreases specifiers.len() - i,
    {
        let ghost before = r.deep_view().to_set();
        let name = resolve_package_name(specifiers[i].as_str());
        let ghost pre = sd.subrange(0, i as int);
        let ghost post = sd.subrange(0, i + 1);
        assert(post =~= pre.push(sd[i as int]));
        match name {
            Some(n) => {
                let ghost nv = n@;
                crate::names::insert_name(&mut r, n);
                assert(r.deep_view().to_set() =~= packages_of(post)) by {
                    assert forall|x: Seq<char>| packages_of(post).contains(x) implies before.insert(nv).contains(x) by {
                        let k = choose|k: int| 0 <= k < post.len() && #[trigger] package_name_of(post[k]) == Some(x);
                        if k < i {
                            assert(package_name_of(pre[k]) == Some(x));
                        }
                    }
                    assert forall|x: Seq<char>| before.insert(nv).contains(x) implies packages_of(post).contains(x) by {
                        if x == nv {
                            assert(package_name_of(post[i as int]) == Some(x));
                        } else {
                            let k = choose|k: int| 0 <= k < pre.len() && #[trigger] package_name_of(pre[k]) == Some(x);
                            assert(package_name_of(post[k]) == Some(x));
                        }
                    }
                }
            },
            None => {
                assert(r.deep_view().to_set() =~= packages_of(post)) by {
                    assert forall|x: Seq<char>| packages_of(post).contains(x) implies before.contains(x) by {
                        let k = choose|k: int| 0 <= k < post.len() && #[trigger] package_name_of(post[k]) == Some(x);
                        assert(k < i);
                        assert(package_name_of(pre[k]) == Some(x));
                    }
                    assert forall|x: Seq<char>| before.contains(x) implies packages_of(post).contains(x) by {
                        let k = choose|k: int| 0 <= k < pre.len() && #[trigger] package_name_of(pre[k]) == Some(x);
                        assert(package_name_of(post[k]) == Some(x));
                    }
                }
            },
        }
        i = i + 1;
    }
    assert(sd.subrange(0, i as int) =~= sd);
    r
}

fn insert_usage(v: &mut Vec<FileUsage>, u: FileUsage, Ghost(m): Ghost<Map<Seq<char>, (Set<Seq<char>>, bool)>>)
    requires
        usage_matches(old(v)@, m),
        strictly_sorted(u.packages.deep_view()),
    ensures
        usage_matches(final(v)@, m.insert(u.path@, (u.packages.deep_view().to_set(), u.parsed))),
{
    let ghost old_v = v@;
    let ghost key = u.path@;
    let ghost val = (u.packages.deep_view().to_set(), u.parsed);
    let ghost m2 = m.insert(key, val);
    let mut i: usize = 0;
    while i < v.len() && lex_less(v[i].path.as_str(), u.path.as_str())
        invariant
            v@ == old_v,
            key == u.path@,
            i <= v.len(),
            forall|k: int| 0 <= k < i ==> lex_lt(#[trigger] old_v[k].path@, key),
        decreases v.len() - i,
    {
        i = i + 1;
    }
    if i < v.len() && v[i].path == u.path {
        v[i] = u;
        proof {
            let nv = v@;
            assert(nv =~= old_v.update(i as int, nv[i as int]));
            assert forall|k: int| 0 <= k < nv.len() && k != i implies #[trigger] nv[k].path@ != key by {
                if k < i {
                    lemma_lex_asymmetric(old_v[k].path@, old_v[i as int].path@);
                } else {
                    lemma_lex_asymmetric(old_v[i as int].path@, old_v[k].path@);
                }
            }
            assert forall|p: Seq<char>| #[trigger] m2.contains_key(p) implies exists|k: int| 0 <= k < nv.len() && nv[k].path@ == p by {
                if p != key {
                    let k = choose|k: int| 0 <= k < old_v.len() && old_v[k].path@ == p;
                    assert(nv[k].path@ == p);
                } else {
                    assert(nv[i as int].path@ == p);
                }
            }
        }
        return;
    }
    proof {
        if i < old_v.len() {
            lemma_lex_total(old_v[i as int].path@, key);
        }
    }
    v.insert(i, u);
    proof {
        let nv = v@;
        assert(nv =~= old_v.insert(i as int, nv[i as int]));
        let paths = old_v.map_values(|e: FileUsage| e.path@);
        if i < old_v.len() {
            assert(lex_lt(key, paths[i as int]));
        }
        lemma_insert_keeps_sorted(paths, i as int, key);
        let np = paths.insert(i as int, key);
        assert forall|p: int, q: int| 0 <= p < q < nv.len() implies lex_lt(#[trigger] nv[p].path@, #[trigger] nv[q].path@) by {
            assert(nv[p].path@ == np[p]);
            assert(nv[q].path@ == np[q]);
        }
        assert forall|k: int| 0 <= k < nv.len() && k != i implies #[trigger] nv[k].path@ != key by {
            if k < i {
                lemma_lex_asymmetric(old_v[k].path@, key);
            } else if k > i {
                if k - 1 > i {
                    lemma_lex_transitive(key, old_v[i as int].path@, old_v[k - 1].path@);
                }
                lemma_lex_asymmetric(key, old_v[k - 1].path@);
            }
        }
        assert forall|k: int| 0 <= k < nv.len() implies #[trigger] m2.contains_key(nv[k].path@) && m2[nv[k].path@] == (nv[k].packages.deep_view().to_set(), nv[k].parsed) by {
            if k < i {
                assert(nv[k] == old_v[k]);
            } else if k > i {
                assert(nv[k] == old_v[k - 1]);
            }
        }
        assert forall|p: Seq<char>| #[trigger] m2.contains_key(p) implies exists|k: int| 0 <= k < nv.len() && nv[k].path@ == p by {
            if p != key {
                let k = choose|k: int| 0 <= k < old_v.len() && old_v[k].path@ == p;
                if k < i {
                    assert(nv[k].path@ == p);
                } else {
                    assert(nv[k + 1].path@ == p);
                }
            } else {
                assert(nv[i as int].path@ == p);
            }
        }
    }
}

/// The usage of each analysed file of `files`, ascending by path: a file is
/// analysed when it is a `.ts` or `.tsx` file outside `node_modules` and
/// `dist` directories that no pattern of `ignore_patterns` covers. A file
/// that does not parse is listed with no package.
pub fn check_directory(files: &Vec<SourceFile>, ignore_patterns: &Vec<String>) -> (r: Vec<FileUsage>)
    ensures
        usage_matches(r@, usage_spec(files@, ignore_patterns.deep_view())),
{
    let ghost pats = ignore_patterns.deep_view();
    let mut r: Vec<FileUsage> = Vec::new();
    let mut i: usize = 0;
    assert(files@.subrange(0, 0).len() == 0);
    while i < files.len()
        invariant
            pats == ignore_patterns.deep_view(),
            i <= files.len(),
            usage_matches(r@, usage_spec(files@.subrange(0, i as int), pats)),
        decreases files.len() - i,
    {
        let ghost m = usage_spec(files@.subrange(0, i as int), pats);
        assert(files@.subrange(0, i + 1).drop_last() =~= files@.subrange(0, i as int));
        let f = &files[i];
        let path = f.path.as_str();
        if !is_in_excluded_dir(path) && !is_ignored(ignore_patterns, path) {
            match source_dialect(path) {
                Some(dialect) => {
                    let u = match check_file(f.text.as_str(), dialect) {
                        Ok(specs) => FileUsage { path: f.path.clone(), packages: file_packages(&specs), parsed: true },
                        Err(_) => {
                            let empty: Vec<String> = Vec::new();
                            assert(empty.deep_view().to_set() =~= Set::empty());
                            FileUsage { path: f.path.clone(), packages: empty, parsed: false }
                        },
                    };
                    insert_usage(&mut r, u, Ghost(m));
                },
                None => {},
            }
        }
        i = i + 1;
    }
    assert(files@.subrange(0, i as int) =~= files@);
    r
}

/// Every package that some entry of `s` lists.
pub open spec fn listed_names(s: Seq<FileUsage>) -> Set<Seq<char>> {
    Set::new(|n: Seq<char>| exists|i: int| 0 <= i < s.len() && #[trigger] s[i].packages.deep_view().to_set().contains(n))
}

/// The union of the packages of all entries of `usage`, ascending.
pub fn used_packages(usage: &Vec<FileUsage>) -> (r: Vec<String>)
    ensures
        strictly_sorted(r.deep_view()),
        r.deep_view().to_set() == listed_names(usage@),
{
    let mut r: Vec<String> = Vec::new();
    let mut i: usize = 0;
    assert(r.deep_view().to_set() =~= listed_names(usage@.subrange(0, 0)));
    while i < usage.len()
        invariant
            i <= usage.len(),
            strictly_sorted(r.deep_view()),
            r.deep_view().to_set() == listed_names(usage@.subrange(0, i as int)),
        decreases usage.len() - i,
    {
        let ghost before = r.deep_view().to_set();
        insert_all(&mut r, &usage[i].packages);
        proof {
            let pre = usage@.subrange(0, i as int);
            let post = usage@.subrange(0, i + 1);
            let add = usage@[i as int].packages.deep_view().to_set();
            assert forall|x: Seq<char>| listed_names(post).contains(x) implies before.union(add).contains(x) by {
                let k = choose|k: int| 0 <= k < post.len() && #[trigger] post[k].packages.deep_view().to_set().contains(x);
                if k < i {
                    assert(pre[k] == post[k]);
                }
            }
            assert forall|x: Seq<char>| before.union(add).contains(x) implies listed_names(post).contains(x) by {
                if add.contains(x) {
                    assert(post[i as int].packages.deep_view().to_set().contains(x));
                } else {
                    let k = choose|k: int| 0 <= k < pre.len() && #[trigger] pre[k].packages.deep_view().to_set().contains(x);
                    assert(pre[k] == post[k]);
                }
            }
            assert(r.deep_view().to_set() =~= listed_names(post));
        }
        i = i + 1;
    }
    assert(usage@.subrange(0, i as int) =~= usage@);
    r
}

proof fn lemma_listed_is_used(s: Seq<FileUsage>, m: Map<Seq<char>, (Set<Seq<char>>, bool)>)
    requires
        usage_matches(s, m),
    ensures
        listed_names(s) == used_names(m),
{
    assert forall|x: Seq<char>| listed_names(s).contains(x) implies used_names(m).contains(x) by {
        let k = choose|k: int| 0 <= k < s.len() && #[trigger] s[k].packages.deep_view().to_set().contains(x);
        assert(m.contains_key(s[k].path@));
    }
    assert forall|x: Seq<char>| used_names(m).contains(x) implies listed_names(s).contains(x) by {
        let p = choose|p: Seq<char>| #[trigger] m.contains_key(p) && m[p].0.contains(x);
        let k = choose|k: int| 0 <= k < s.len() && s[k].path@ == p;
        assert(s[k].packages.deep_view().to_set().contains(x));
    }
    assert(listed_names(s) =~= used_names(m));
}

/// What the analysis of `files` against the `declared` packages under
/// `config` yields: the usage of each analysed file, and the unused and
/// missing packages, each ascending.
pub open spec fn check_outcome(r: CheckResult, declared: Seq<Seq<char>>, files: Seq<SourceFile>, config: Config) -> bool {
    let m = usage_spec(files, config.ignore_patterns.deep_view());
    let ignored = config.ignore_matches.deep_view().to_set();
    &&& usage_matches(r.using_dependencies@, m)
    &&& strictly_sorted(r.unused_dependencies.deep_view())
    &&& strictly_sorted(r.missing_dependencies.deep_view())
    &&& r.unused_dependencies.deep_view().to_set() == unused_spec(declared.to_set(), used_names(m), ignored)
    &&& r.missing_dependencies.deep_view().to_set() == missing_spec(
        declared.to_set(),
        used_names(m),
        ignored,
        config.skip_missing,
    )
}

/// Analyses `files` against the `declared` package names: which declared
/// packages no analysed file uses, and which used packages are not declared.
pub fn check_package(declared: &Vec<String>, files: &Vec<SourceFile>, config: &Config) -> (r: CheckResult)
    ensures
        check_outcome(r, declared.deep_view(), files@, *config),
{
    let using_dependencies = check_directory(files, &config.ignore_patterns);
    let used = used_packages(&using_dependencies);
    proof {
        lemma_listed_is_used(using_dependencies@, usage_spec(files@, config.ignore_patterns.deep_view()));
    }
    let mut all_declared: Vec<String> = Vec::new();
    assert(all_declared.deep_view().to_set() =~= Set::empty());
    insert_all(&mut all_declared, declared);
    assert(all_declared.deep_view().to_set() =~= declared.deep_view().to_set());
    let kept_declared = difference(&all_declared, &config.ignore_matches);
    let kept_used = difference(&used, &config.ignore_matches);
    let unused_dependencies = difference(&kept_declared, &kept_used);
    let missing_dependencies = if config.skip_missing {
        let none: Vec<String> = Vec::new();
        assert(none.deep_view().to_set() =~= Set::empty());
        none
    } else {
        difference(&kept_used, &kept_declared)
    };
    CheckResult { using_dependencies, unused_dependencies, missing_dependencies }
}

/// No package is both unused and missing.
pub proof fn lemma_unused_missing_disjoint(
    declared: Set<Seq<char>>,
    used: Set<Seq<char>>,
    ignored: Set<Seq<char>>,
    skip_missing: bool,
)
    ensures
        unused_spec(declared, used, ignored).intersect(missing_spec(declared, used, ignored, skip_missing)) == Set::<Seq<char>>::empty(),
{
    assert(unused_spec(declared, used, ignored).intersect(missing_spec(declared, used, ignored, skip_missing)) =~= Set::<Seq<char>>::empty());
}

/// Unused packages are declared, missing ones are not, and an ignored
/// package is in neither.
pub proof fn lemma_result_bounds(
    declared: Set<Seq<char>>,
    used: Set<Seq<char>>,
    ignored: Set<Seq<char>>,
    skip_missing: bool,
)
    ensures
        unused_spec(declared, used, ignored).subset_of(declared),
        missing_spec(declared, used, ignored, skip_missing).disjoint(declared),
        unused_spec(declared, used, ignored).disjoint(ignored),
        missing_spec(declared, used, ignored, skip_missing).disjoint(ignored),
{
}

/// The parts of a result that the analysis fixes, as plain values.
pub open spec fn usage_view(s: Seq<FileUsage>) -> Seq<(Seq<char>, Seq<Seq<char>>, bool)> {
    s.map_values(|u: FileUsage| (u.path@, u.packages.deep_view(), u.parsed))
}

/// Analysing the same files against the same declared packages under the
/// same configuration twice gives the same result, entry order included.
pub proof fn lemma_check_deterministic(
    r1: CheckResult,
    r2: CheckResult,
    declared: Seq<Seq<char>>,
    files: Seq<SourceFile>,
    config: Config,
)
    requires
        check_outcome(r1, declared, files, config),
        check_outcome(r2, declared, files, config),
    ensures
        usage_view(r1.using_dependencies@) == usage_view(r2.using_dependencies@),
        r1.unused_dependencies.deep_view() == r2.unused_dependencies.deep_view(),
        r1.missing_dependencies.deep_view() == r2.missing_dependencies.deep_view(),
{
    lemma_sorted_unique(r1.unused_dependencies.deep_view(), r2.unused_dependencies.deep_view());
    lemma_sorted_unique(r1.missing_dependencies.deep_view(), r2.missing_dependencies.deep_view());
    let m = usage_spec(files, config.ignore_patterns.deep_view());
    let s1 = r1.using_dependencies@;
    let s2 = r2.using_dependencies@;
    let p1 = s1.map_values(|u: FileUsage| u.path@);
    let p2 = s2.map_values(|u: FileUsage| u.path@);
    assert(strictly_sorted(p1));
    assert(strictly_sorted(p2));
    assert forall|x: Seq<char>| p1.to_set().contains(x) implies p2.to_set().contains(x) by {
        let k = choose|k: int| 0 <= k < p1.len() && p1[k] == x;
        assert(m.contains_key(s1[k].path@));
        let j = choose|j: int| 0 <= j < s2.len() && s2[j].path@ == x;
        assert(p2[j] == x);
    }
    assert forall|x: Seq<char>| p2.to_set().contains(x) implies p1.to_set().contains(x) by {
        let k = choose|k: int| 0 <= k < p2.len() && p2[k] == x;
        assert(m.contains_key(s2[k].path@));
        let j = choose|j: int| 0 <= j < s1.len() && s1[j].path@ == x;
        assert(p1[j] == x);
    }
    assert(p1.to_set() =~= p2.to_set());
    lemma_sorted_unique(p1, p2);
    assert forall|k: int| 0 <= k < s1.len() implies usage_view(s1)[k] == usage_view(s2)[k] by {
        assert(p1[k] == p2[k]);
        assert(m[s1[k].path@] == (s1[k].packages.deep_view().to_set(), s1[k].parsed));
        assert(m[s2[k].path@] == (s2[k].packages.deep_view().to_set(), s2[k].parsed));
        lemma_sorted_unique(s1[k].packages.deep_view(), s2[k].packages.deep_view());
    }
    assert(usage_view(s1) =~= usage_view(s2));
}

/// A file under a `node_modules` or `dist` directory never gets an entry.
pub proof fn lemma_excluded_dir_never_listed(files: Seq<SourceFile>, pats: Seq<Seq<char>>, p: Seq<char>)
    requires
        in_excluded_dir(p),
    ensures
        !usage_spec(files, pats).contains_key(p),
    decreases files.len(),
{
    if files.len() > 0 {
        lemma_excluded_dir_never_listed(files.drop_last(), pats, p);
    }
}

} // verus!
