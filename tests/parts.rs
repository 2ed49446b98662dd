use depcheck_rs::cli::{directory_outcome, directory_verdict, validate_directory, Args, Error};
use depcheck_rs::extract::Dialect;
use depcheck_rs::names::{contains_name, difference, insert_all, insert_name, lex_less};
use depcheck_rs::resolve::resolve_package_name;
use depcheck_rs::walk::{
    is_ignored, is_in_excluded_dir, parse_ignore_patterns, pattern_matches, source_dialect,
};

fn names(v: &[&str]) -> Vec<String> {
    v.iter().map(|s| s.to_string()).collect()
}

#[test]
fn scoped_specifier_keeps_two_segments() {
    assert_eq!(resolve_package_name("@scope/pkg/sub/path"), Some("@scope/pkg".to_string()));
    assert_eq!(resolve_package_name("@scope/pkg"), Some("@scope/pkg".to_string()));
}

#[test]
fn resolver_cases() {
    assert_eq!(resolve_package_name("lodash"), Some("lodash".to_string()));
    assert_eq!(resolve_package_name("lodash/fp"), Some("lodash".to_string()));
    assert_eq!(resolve_package_name("./util"), None);
    assert_eq!(resolve_package_name("../up"), None);
    assert_eq!(resolve_package_name("/abs/path"), None);
    assert_eq!(resolve_package_name(""), None);
    assert_eq!(resolve_package_name("@scope"), None);
    assert_eq!(resolve_package_name("@/x"), None);
    assert_eq!(resolve_package_name("@scope//x"), None);
    assert_eq!(resolve_package_name("node:fs"), None);
    assert_eq!(resolve_package_name("https://esm.sh/x"), None);
    assert_eq!(resolve_package_name("_private"), None);
    assert_eq!(resolve_package_name("@_s/pkg"), None);
    assert_eq!(resolve_package_name("lodash.get/x"), Some("lodash.get".to_string()));
    assert_eq!(resolve_package_name("@types/node"), Some("@types/node".to_string()));
}

#[test]
fn dialect_from_extension() {
    assert!(source_dialect("a/b.ts") == Some(Dialect::Ts));
    assert!(source_dialect("b.tsx") == Some(Dialect::Tsx));
    assert!(source_dialect("b.js") == None);
    assert!(source_dialect("dir/.ts") == None);
    assert!(source_dialect("ts") == None);
}

#[test]
fn excluded_directory_segments() {
    assert!(is_in_excluded_dir("node_modules/a/b.ts"));
    assert!(is_in_excluded_dir("x/dist/b.ts"));
    assert!(!is_in_excluded_dir("x/distant/b.ts"));
    assert!(!is_in_excluded_dir("x/dist"));
    assert!(!is_in_excluded_dir("my_node_modules/b.ts"));
}

#[test]
fn glob_patterns() {
    assert!(pattern_matches("src/gen", "src/gen/a.ts"));
    assert!(!pattern_matches("src/gen", "src/generated/a.ts"));
    assert!(pattern_matches("*.test.ts", "src/a.test.ts"));
    assert!(pattern_matches("?.ts", "a.ts"));
    assert!(!pattern_matches("?.ts", "ab.ts"));
    assert!(is_ignored(&names(&["x", "src/*"]), "src/a.ts"));
    assert!(!is_ignored(&names(&[]), "src/a.ts"));
}

#[test]
fn ignore_file_convention() {
    // a pattern without a slash matches at any depth
    assert!(pattern_matches("gen", "src/gen/a.ts"));
    assert!(pattern_matches("a.ts", "src/a.ts"));
    // a slash anchors it at the root
    assert!(!pattern_matches("lib/gen", "src/lib/gen/a.ts"));
    assert!(pattern_matches("/src", "src/a.ts"));
    assert!(!pattern_matches("/a.ts", "src/a.ts"));
    // a trailing slash matches directories only
    assert!(pattern_matches("gen/", "gen/a.ts"));
    assert!(!pattern_matches("a.ts/", "a.ts"));
    // stars and question marks stay within a segment
    assert!(pattern_matches("src*", "src/a/b.ts"));
    assert!(!pattern_matches("s*s", "src/lib/tools.ts"));
    assert!(pattern_matches("src/*.ts", "src/a.ts"));
    assert!(!pattern_matches("src/*.ts", "src/x/a.ts"));
    assert!(!pattern_matches("a?b.ts", "a/b.ts"));
    // double stars cross directories
    assert!(pattern_matches("src/**/gen", "src/a/b/gen/x.ts"));
    assert!(pattern_matches("src/**/gen", "src/gen/x.ts"));
    assert!(pattern_matches("**/fixtures", "test/fixtures/a.ts"));
    assert!(pattern_matches("lib/**", "lib/a/b.ts"));
    assert!(!pattern_matches("lib/**", "src/lib/b.ts"));
    // character classes
    assert!(pattern_matches("file[0-9].ts", "src/file7.ts"));
    assert!(!pattern_matches("file[0-9].ts", "src/fileA.ts"));
    assert!(pattern_matches("[!a]*.ts", "b.ts"));
    assert!(!pattern_matches("[!a]*.ts", "a.ts"));
    assert!(pattern_matches("[]x].ts", "].ts"));
    assert!(pattern_matches("[ab", "[ab/c.ts"));
    assert!(!pattern_matches("x[/]y", "x/y/z.ts"));
    // the last matching pattern decides; `!` re-includes
    assert!(!is_ignored(&names(&["*.ts", "!keep.ts"]), "src/keep.ts"));
    assert!(is_ignored(&names(&["*.ts", "!keep.ts"]), "src/drop.ts"));
    assert!(is_ignored(&names(&["!keep.ts", "*.ts"]), "src/keep.ts"));
}

#[test]
fn name_sets() {
    assert!(lex_less("a", "b"));
    assert!(lex_less("ab", "abc"));
    assert!(!lex_less("b", "a"));
    assert!(!lex_less("a", "a"));
    let mut v = Vec::new();
    insert_name(&mut v, "m".to_string());
    insert_name(&mut v, "a".to_string());
    insert_name(&mut v, "z".to_string());
    insert_name(&mut v, "m".to_string());
    assert_eq!(v, names(&["a", "m", "z"]));
    insert_all(&mut v, &names(&["b", "a"]));
    assert_eq!(v, names(&["a", "b", "m", "z"]));
    assert!(contains_name(&v, &"b".to_string()));
    assert!(!contains_name(&v, &"c".to_string()));
    assert_eq!(difference(&v, &names(&["m", "q", "a"])), names(&["b", "z"]));
}

#[test]
fn directory_validation() {
    assert!(directory_verdict(true, false, true));
    assert!(!directory_verdict(false, true, true));
    assert!(!directory_verdict(true, false, false));
    assert!(directory_outcome(true).is_ok());
    assert!(matches!(directory_outcome(false), Err(Error::DirectoryNotFound)));
    assert!(validate_directory(".").is_ok());
    assert!(matches!(
        validate_directory("no/such/directory/here"),
        Err(Error::DirectoryNotFound)
    ));
    assert_eq!(Error::DirectoryNotFound.message(), "directory not found");
}

#[test]
fn ignore_file_lines() {
    let text = "# generated code\ngen\n\r\n  \t\n\n*.test.ts\r\nlast";
    assert_eq!(parse_ignore_patterns(text), names(&["gen", "*.test.ts", "last"]));
    assert!(parse_ignore_patterns("").is_empty());
    assert!(parse_ignore_patterns("#only\n\n").is_empty());
}

#[test]
fn args_give_config() {
    let args = Args {
        directory: ".".to_string(),
        ignore_bin_package: false,
        skip_missing: true,
        ignore_path: None,
        ignore_patterns: Some(names(&["b"])),
        ignore_matches: Some(names(&["m"])),
        verbose: 0,
    };
    let c = args.config(&names(&["a"]));
    assert!(c.skip_missing);
    assert_eq!(c.ignore_patterns, names(&["a", "b"]));
    assert_eq!(c.ignore_matches, names(&["m"]));
    let args = Args { ignore_patterns: None, ignore_matches: None, skip_missing: false, ..args };
    let c = args.config(&vec![]);
    assert!(!c.skip_missing);
    assert!(c.ignore_patterns.is_empty());
    assert!(c.ignore_matches.is_empty());
}
