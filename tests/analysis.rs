use depcheck_rs::check::{
    check_directory, check_package, file_packages, used_packages, CheckResult, Config, FileUsage,
    SourceFile,
};
use depcheck_rs::extract::{check_file, Dialect};

fn file(path: &str, text: &str) -> SourceFile {
    SourceFile { path: path.to_string(), text: text.to_string() }
}

fn names(v: &[&str]) -> Vec<String> {
    v.iter().map(|s| s.to_string()).collect()
}

fn config(skip_missing: bool, ignore_patterns: &[&str], ignore_matches: &[&str]) -> Config {
    Config {
        skip_missing,
        ignore_patterns: names(ignore_patterns),
        ignore_matches: names(ignore_matches),
    }
}

fn usage_view(u: &[FileUsage]) -> Vec<(String, Vec<String>, bool)> {
    u.iter().map(|e| (e.path.clone(), e.packages.clone(), e.parsed)).collect()
}

fn result_view(r: &CheckResult) -> (Vec<(String, Vec<String>, bool)>, Vec<String>, Vec<String>) {
    (
        usage_view(&r.using_dependencies),
        r.unused_dependencies.clone(),
        r.missing_dependencies.clone(),
    )
}

#[test]
fn declared_and_relative_imports() {
    let files = vec![file("index.ts", "import _ from 'lodash';\nimport foo from './foo';\n")];
    let r = check_package(&names(&["lodash", "unused-pkg"]), &files, &config(false, &[], &[]));
    assert_eq!(
        usage_view(&r.using_dependencies),
        vec![("index.ts".to_string(), names(&["lodash"]), true)]
    );
    assert_eq!(r.unused_dependencies, names(&["unused-pkg"]));
    assert!(r.missing_dependencies.is_empty());
}

#[test]
fn undeclared_import_is_missing() {
    let files = vec![file("a.ts", "import x from 'missing-pkg';\n")];
    let r = check_package(&vec![], &files, &config(false, &[], &[]));
    assert_eq!(r.missing_dependencies, names(&["missing-pkg"]));
    assert!(r.unused_dependencies.is_empty());
}

#[test]
fn ignored_match_in_neither_result() {
    let files = vec![file("a.ts", "import _ from 'lodash';\n")];
    let r = check_package(&vec![], &files, &config(false, &[], &["lodash"]));
    assert!(r.missing_dependencies.is_empty());
    assert!(r.unused_dependencies.is_empty());
    let r = check_package(&names(&["lodash"]), &vec![], &config(false, &[], &["lodash"]));
    assert!(r.unused_dependencies.is_empty());
}

#[test]
fn excluded_directories_are_not_analysed() {
    let files = vec![
        file("node_modules/lib/index.ts", "import a from 'aaa';\n"),
        file("dist/out.ts", "import b from 'bbb';\n"),
        file("src/dist/x.ts", "import c from 'ccc';\n"),
        file("src/main.ts", "import d from 'ddd';\n"),
    ];
    let u = check_directory(&files, &vec![]);
    assert_eq!(usage_view(&u), vec![("src/main.ts".to_string(), names(&["ddd"]), true)]);
}

#[test]
fn empty_project() {
    let r = check_package(&vec![], &vec![], &config(false, &[], &[]));
    assert!(r.using_dependencies.is_empty());
    assert!(r.unused_dependencies.is_empty());
    assert!(r.missing_dependencies.is_empty());
}

#[test]
fn analysis_is_repeatable() {
    let files = vec![
        file("z.ts", "import a from 'zeta';\nimport b from '@s/p/q';\n"),
        file("a.tsx", "import React from 'react';\nconst e = <div />;\n"),
        file("m.ts", "import x from 'alpha';\n"),
    ];
    let declared = names(&["react", "unused", "alpha"]);
    let cfg = config(false, &[], &[]);
    let r1 = check_package(&declared, &files, &cfg);
    let r2 = check_package(&declared, &files, &cfg);
    assert_eq!(result_view(&r1), result_view(&r2));
    let paths: Vec<String> = r1.using_dependencies.iter().map(|e| e.path.clone()).collect();
    assert_eq!(paths, names(&["a.tsx", "m.ts", "z.ts"]));
    assert_eq!(r1.missing_dependencies, names(&["@s/p", "zeta"]));
    assert_eq!(r1.unused_dependencies, names(&["unused"]));
}

#[test]
fn unused_and_missing_are_disjoint_and_bounded() {
    let files = vec![file("a.ts", "import a from 'x';\nimport b from 'y';\n")];
    let declared = names(&["y", "z", "z"]);
    let r = check_package(&declared, &files, &config(false, &[], &[]));
    assert_eq!(r.unused_dependencies, names(&["z"]));
    assert_eq!(r.missing_dependencies, names(&["x"]));
    for n in &r.unused_dependencies {
        assert!(declared.contains(n));
        assert!(!r.missing_dependencies.contains(n));
    }
    for n in &r.missing_dependencies {
        assert!(!declared.contains(n));
    }
}

#[test]
fn skip_missing_reports_no_missing() {
    let files = vec![file("a.ts", "import a from 'x';\n")];
    let r = check_package(&names(&["w"]), &files, &config(true, &[], &[]));
    assert!(r.missing_dependencies.is_empty());
    assert_eq!(r.unused_dependencies, names(&["w"]));
}

#[test]
fn unparsable_file_uses_nothing() {
    let files = vec![
        file("bad.ts", "import { from 'oops'\n"),
        file("good.ts", "import a from 'fine';\n"),
    ];
    let r = check_package(&vec![], &files, &config(false, &[], &[]));
    assert_eq!(
        usage_view(&r.using_dependencies),
        vec![
            ("bad.ts".to_string(), vec![], false),
            ("good.ts".to_string(), names(&["fine"]), true),
        ]
    );
    assert_eq!(r.missing_dependencies, names(&["fine"]));
}

#[test]
fn ignore_patterns_skip_files() {
    let files = vec![
        file("gen/a.ts", "import a from 'gen-dep';\n"),
        file("src/a.test.ts", "import t from 'test-dep';\n"),
        file("src/a.ts", "import s from 'src-dep';\n"),
    ];
    let u = check_directory(&files, &names(&["gen", "*.test.ts"]));
    assert_eq!(usage_view(&u), vec![("src/a.ts".to_string(), names(&["src-dep"]), true)]);
}

#[test]
fn files_with_other_extensions_are_skipped() {
    let files = vec![
        file("a.js", "import a from 'js-dep';\n"),
        file(".ts", "import b from 'hidden';\n"),
        file("b.ts", "const x = require('express');\nexport * from 'reexported';\n"),
    ];
    let u = check_directory(&files, &vec![]);
    assert_eq!(
        usage_view(&u),
        vec![("b.ts".to_string(), names(&["express", "reexported"]), true)]
    );
}

#[test]
fn check_file_lists_specifiers_in_order() {
    let specs = check_file("import a from 'b/c';\nimport d from './e';\n", Dialect::Ts).ok().unwrap();
    assert_eq!(specs, names(&["b/c", "./e"]));
    assert!(check_file("let = ;", Dialect::Ts).is_err());
    assert!(check_file("const a = <div />;", Dialect::Tsx).is_ok());
}

#[test]
fn file_packages_collapses_repeats() {
    let specs = names(&["lodash/fp", "lodash", "./x", "@a/b/c", "@a", "react"]);
    assert_eq!(file_packages(&specs), names(&["@a/b", "lodash", "react"]));
}

#[test]
fn used_packages_is_the_union() {
    let u = vec![
        FileUsage { path: "a.ts".to_string(), packages: names(&["b", "d"]), parsed: true },
        FileUsage { path: "b.ts".to_string(), packages: names(&["a", "d"]), parsed: true },
    ];
    assert_eq!(used_packages(&u), names(&["a", "b", "d"]));
}

#[test]
fn later_file_with_same_path_replaces_earlier() {
    let files = vec![file("a.ts", "import x from 'one';\n"), file("a.ts", "import y from 'two';\n")];
    let u = check_directory(&files, &vec![]);
    assert_eq!(usage_view(&u), vec![("a.ts".to_string(), names(&["two"]), true)]);
}
