use git_glob::pattern::Case;
use git_glob::Pattern;

fn compiled(text: &[u8]) -> Pattern {
    Pattern::from_bytes(text).expect("pattern text must compile")
}

#[test]
fn empty_input_gives_no_pattern() {
    assert!(Pattern::from_bytes(b"").is_none());
    assert!(Pattern::from_bytes(b"!").is_none());
    assert!(Pattern::from_bytes(b"/").is_none());
    assert!(Pattern::from_bytes(b"!/").is_none());
}

#[test]
fn plain_literal_compiles_to_single_segment() {
    let p = compiled(b"foo");
    assert_eq!(p.text, b"foo".to_vec());
    assert_eq!(p.first_wildcard_pos, None);
    assert!(p.mode.no_sub_dir);
    assert!(!p.mode.ends_with);
    assert!(!p.mode.must_be_dir);
    assert!(!p.mode.negative);
    assert!(!p.mode.absolute);
}

#[test]
fn marker_prefixes_and_suffixes_set_flags() {
    let p = compiled(b"!/hello*.txt/");
    assert_eq!(p.text, b"/hello*.txt".to_vec());
    assert_eq!(p.first_wildcard_pos, Some(6));
    assert!(p.mode.negative);
    assert!(p.mode.absolute);
    assert!(p.mode.must_be_dir);
    assert!(p.mode.no_sub_dir);
    assert!(!p.mode.ends_with);
}

#[test]
fn leading_star_with_literal_rest_is_ends_with() {
    let p = compiled(b"*.log");
    assert_eq!(p.first_wildcard_pos, Some(0));
    assert!(p.mode.ends_with);
    assert!(p.mode.no_sub_dir);
    let q = compiled(b"*.l?g");
    assert!(!q.mode.ends_with, "a second wildcard disables the shortcut");
}

#[test]
fn is_negative_reads_the_flag() {
    assert!(compiled(b"!target").is_negative());
    assert!(!compiled(b"target").is_negative());
}

#[test]
fn literal_match_is_byte_equality() {
    let p = compiled(b"readme.md");
    assert!(p.matches(b"readme.md", true, false));
    assert!(!p.matches(b"README.md", true, false));
    assert!(!p.matches(b"readme.md.bak", true, false));
    assert!(!p.matches(b"readme.m", true, false));
}

#[test]
fn literal_match_folds_ascii_case_on_request() {
    let p = compiled(b"README.md");
    assert!(p.matches(b"readme.MD", true, true));
    assert!(!p.matches(b"readme.MD", true, false));
}

#[test]
fn suffix_shortcut_matches_only_true_suffixes() {
    let p = compiled(b"*.log");
    assert!(p.matches(b"error.log", true, false));
    assert!(!p.matches(b"error.log.bak", true, false));
    assert!(p.matches(b".log", true, false));
    assert!(!p.matches(b"log", true, false));
}

#[test]
fn suffix_shortcut_never_crosses_a_separator() {
    let p = compiled(b"*.log");
    // with slash_literal, `*` cannot consume the separator
    assert!(!p.matches(b"a/error.log", true, false));
    // without it, the wildcard may cross
    assert!(p.matches(b"a/error.log", false, false));
}

#[test]
fn suffix_shortcut_folds_ascii_case_on_request() {
    let p = compiled(b"*.LoG");
    assert!(p.matches(b"error.lOg", true, true));
    assert!(!p.matches(b"error.lOg", true, false));
}

#[test]
fn shortcut_results_equal_the_general_matcher() {
    // the dispatcher promises exactly the general matcher's result
    let cases: &[(&[u8], &[u8])] = &[
        (b"*.log", b"error.log"),
        (b"*.log", b"error.log.bak"),
        (b"*.log", b"a/error.log"),
        (b"readme.md", b"readme.md"),
        (b"readme.md", b"readme.mdx"),
        (b"lib*.rs", b"library.rs"),
        (b"lib*.rs", b"bin.rs"),
        (b"a?c", b"abc"),
        (b"[a-z]x", b"bx"),
    ];
    for (pat, value) in cases {
        let p = compiled(pat);
        for ignore_case in [false, true] {
            for slash_literal in [false, true] {
                assert_eq!(
                    p.matches(value, slash_literal, ignore_case),
                    git_glob::wildmatch::wildmatch(&p.text, value, slash_literal, ignore_case),
                    "shortcut and general matcher disagree on {:?} vs {:?}",
                    pat,
                    value,
                );
            }
        }
    }
}

#[test]
fn case_fold_symmetry_on_upper_cased_values() {
    // matches(P, V, ignore_case) == matches(P, upper(V), ignore_case) ...
    let cases: &[(&[u8], &[u8])] = &[
        (b"*.log", b"Error.Log"),
        (b"readme.md", b"readme.md"),
        (b"a[x-z]b", b"ayb"),
        (b"he?lo*", b"hello world"),
    ];
    for (pat, value) in cases {
        let p = compiled(pat);
        let upper: Vec<u8> = value.iter().map(|b| b.to_ascii_uppercase()).collect();
        assert_eq!(
            p.matches(value, true, true),
            p.matches(&upper, true, true),
            "case-fold symmetry broken for {:?} vs {:?}",
            pat,
            value,
        );
    }
    // ... but folding only one side is not symmetric in general
    let p = compiled(b"a");
    assert!(p.matches(b"a", true, true));
    assert!(!p.matches(b"A", true, false));
}

#[test]
fn directory_only_patterns_never_match_files() {
    let p = compiled(b"build/");
    assert!(p.mode.must_be_dir);
    assert!(p.matches_repo_relative_path(b"build", None, None, true, Case::Sensitive));
    assert!(!p.matches_repo_relative_path(b"build", None, None, false, Case::Sensitive));
    // the directory restriction is decided before anything else
    assert!(!p.matches_repo_relative_path(b"other", None, None, false, Case::Sensitive));
}

#[test]
fn single_segment_patterns_match_at_any_depth() {
    let p = compiled(b"*.txt");
    assert!(p.matches_repo_relative_path(b"c.txt", None, None, false, Case::Sensitive));
    assert!(p.matches_repo_relative_path(b"a/b/c.txt", Some(4), None, false, Case::Sensitive));
}

#[test]
fn absolute_patterns_match_only_from_the_root() {
    let p = compiled(b"/foo");
    assert!(p.mode.absolute);
    assert!(p.matches_repo_relative_path(b"foo", None, None, false, Case::Sensitive));
    assert!(!p.matches_repo_relative_path(b"bar/foo", Some(4), None, false, Case::Sensitive));
    let q = compiled(b"foo");
    assert!(q.matches_repo_relative_path(b"foo", None, None, false, Case::Sensitive));
    assert!(q.matches_repo_relative_path(b"bar/foo", Some(4), None, false, Case::Sensitive));
}

#[test]
fn base_path_scopes_the_pattern() {
    let p = compiled(b"lib.rs");
    let base: &[u8] = b"src/";
    assert!(p.matches_repo_relative_path(b"src/lib.rs", Some(4), Some(base), false, Case::Sensitive));
    assert!(!p.matches_repo_relative_path(
        b"other/lib.rs",
        Some(6),
        Some(base),
        false,
        Case::Sensitive
    ));
}

#[test]
fn absolute_pattern_is_anchored_to_its_base() {
    let p = compiled(b"/foo");
    let base: &[u8] = b"src/";
    assert!(p.matches_repo_relative_path(b"src/foo", Some(4), Some(base), false, Case::Sensitive));
    assert!(!p.matches_repo_relative_path(
        b"src/a/foo",
        Some(6),
        Some(base),
        false,
        Case::Sensitive
    ));
}

#[test]
fn multi_segment_patterns_compare_whole_paths() {
    let p = compiled(b"doc/frotz");
    assert!(!p.mode.no_sub_dir);
    assert!(p.matches_repo_relative_path(b"doc/frotz", Some(4), None, false, Case::Sensitive));
    assert!(!p.matches_repo_relative_path(b"a/doc/frotz", Some(6), None, false, Case::Sensitive));
    let base: &[u8] = b"a/";
    assert!(p.matches_repo_relative_path(b"a/doc/frotz", Some(6), Some(base), false, Case::Sensitive));
}

#[test]
fn case_mode_applies_to_paths() {
    let p = compiled(b"*.TXT");
    assert!(p.matches_repo_relative_path(b"a/b.txt", Some(2), None, false, Case::Fold));
    assert!(!p.matches_repo_relative_path(b"a/b.txt", Some(2), None, false, Case::Sensitive));
}

#[test]
fn lone_star_matches_any_single_segment() {
    let p = compiled(b"*");
    assert_eq!(p.first_wildcard_pos, Some(0));
    assert!(p.mode.ends_with, "an empty suffix still takes the shortcut");
    assert!(p.matches(b"", true, false));
    assert!(p.matches(b"anything", true, false));
    assert!(!p.matches(b"a/b", true, false));
    assert!(p.matches_repo_relative_path(b"deep/tree/file", Some(10), None, false, Case::Sensitive));
}

#[test]
fn values_shorter_than_the_suffix_never_match() {
    let p = compiled(b"*longsuffix");
    assert!(!p.matches(b"x", true, false));
    assert!(!p.matches(b"", true, false));
    assert!(p.matches(b"longsuffix", true, false));
}

#[test]
fn checked_entry_point_reports_invalid_inputs() {
    let p = compiled(b"lib.rs");
    // wrong cached basename position
    assert_eq!(
        p.matches_repo_relative_path_checked(b"src/lib.rs", Some(3), None, false, Case::Sensitive),
        None
    );
    assert_eq!(
        p.matches_repo_relative_path_checked(b"src/lib.rs", None, None, false, Case::Sensitive),
        None
    );
    // base path without its trailing slash
    let bad_base: &[u8] = b"src";
    assert_eq!(
        p.matches_repo_relative_path_checked(
            b"src/lib.rs",
            Some(4),
            Some(bad_base),
            false,
            Case::Sensitive
        ),
        None
    );
    // a path that is not repository-relative
    assert_eq!(
        p.matches_repo_relative_path_checked(b"/lib.rs", Some(1), None, false, Case::Sensitive),
        None
    );
    // valid inputs give the match outcome
    let base: &[u8] = b"src/";
    assert_eq!(
        p.matches_repo_relative_path_checked(
            b"src/lib.rs",
            Some(4),
            Some(base),
            false,
            Case::Sensitive
        ),
        Some(true)
    );
    assert_eq!(
        p.matches_repo_relative_path_checked(
            b"other/lib.rs",
            Some(6),
            Some(base),
            false,
            Case::Sensitive
        ),
        Some(false)
    );
}
