use dotignore::{FileProbe, Pattern, SizeComparison};

#[test]
fn test_pattern_creation() {
    let pattern = Pattern::new("*.txt");
    assert_eq!(pattern.original, "*.txt");
    assert!(!pattern.is_negated());
    assert!(!pattern.is_dir_only());
    assert!(!pattern.is_size_condition());
}

#[test]
fn pattern_tests_test_pattern_matching() {
    let pattern = Pattern::new("*.txt");
    assert!(pattern.matches("file.txt"));
    assert!(pattern.matches("path/to/file.txt"));
    assert!(!pattern.matches("file.rs"));
    assert!(!pattern.matches("text.doc"));
}

#[test]
fn test_negated_pattern() {
    let pattern = Pattern::new("!*.txt");
    assert!(pattern.is_negated());
    assert!(pattern.matches("file.txt"));
    assert!(!pattern.matches("file.rs"));
}

#[test]
fn test_directory_pattern() {
    let pattern = Pattern::new("bin/");
    assert!(pattern.is_dir_only());
    assert!(pattern.matches("bin/file"));
    assert!(pattern.matches("path/to/bin/file"));
    assert!(!pattern.matches("binary"));
}

#[test]
fn test_size_condition_pattern() {
    let pattern = Pattern::new("size:>10KB *.iso");
    assert!(pattern.is_size_condition());
    assert!(pattern.matches_with_size("file.iso", 15 * 1024));
    assert!(!pattern.matches_with_size("file.iso", 5 * 1024));
    assert!(!pattern.matches_with_size("file.txt", 15 * 1024));

    let pattern = Pattern::new("size:<500B *.log");
    assert!(pattern.is_size_condition());
    assert!(pattern.matches_with_size("app.log", 300));
    assert!(!pattern.matches_with_size("app.log", 1000));
}

#[test]
fn test_size_pattern_parsing() {
    let pattern = Pattern::new("size:<1MB *.log");
    assert!(pattern.is_size_condition());

    let pattern = Pattern::new("size:>100KB temp.*");
    assert!(pattern.is_size_condition());

    let pattern = Pattern::new("*.tmp");
    assert!(!pattern.is_size_condition());
}

#[test]
fn test_size_comparison_less_than() {
    let pattern = Pattern::new("size:<1MB *.tmp");
    assert!(pattern.matches_probed("/tmp/work/small.tmp", FileProbe::File(10 * 1024)));
    assert!(!pattern.matches_probed("/tmp/work/large.tmp", FileProbe::File(2 * 1024 * 1024)));
}

#[test]
fn test_size_comparison_greater_than() {
    let pattern = Pattern::new("size:>1MB *.log");
    assert!(!pattern.matches_probed("/tmp/work/small.log", FileProbe::File(50 * 1024)));
    assert!(pattern.matches_probed("/tmp/work/large.log", FileProbe::File(1536 * 1024)));
}

#[test]
fn test_pattern_matching_with_size() {
    let txt_small = ("/tmp/work/doc.txt", FileProbe::File(10 * 1024));
    let txt_large = ("/tmp/work/large.txt", FileProbe::File(2 * 1024 * 1024));
    let bin_small = ("/tmp/work/small.bin", FileProbe::File(50 * 1024));
    let bin_large = ("/tmp/work/data.bin", FileProbe::File(5 * 1024 * 1024));

    let pattern = Pattern::new("size:<1MB *.txt");
    assert!(pattern.matches_probed(txt_small.0, txt_small.1));
    assert!(!pattern.matches_probed(txt_large.0, txt_large.1));
    assert!(!pattern.matches_probed(bin_small.0, bin_small.1));
    assert!(!pattern.matches_probed(bin_large.0, bin_large.1));

    let pattern = Pattern::new("size:>1MB *.bin");
    assert!(!pattern.matches_probed(txt_small.0, txt_small.1));
    assert!(!pattern.matches_probed(txt_large.0, txt_large.1));
    assert!(!pattern.matches_probed(bin_small.0, bin_small.1));
    assert!(pattern.matches_probed(bin_large.0, bin_large.1));
}

#[test]
fn size_rule_matches_small_log_only() {
    let pattern = Pattern::new("size:<10KB *.log");
    assert!(pattern.matches_with_size("a.log", 5 * 1024));
    assert!(!pattern.matches_with_size("a.log", 15 * 1024));
    assert!(!pattern.matches_with_size("a.txt", 5 * 1024));
    assert!(!pattern.matches_with_size("a.txt", 15 * 1024));
    assert!(!pattern.matches_with_size("a.txt", 0));
    assert!(pattern.matches_probed("a.log", FileProbe::File(5 * 1024)));
    assert!(!pattern.matches_probed("a.log", FileProbe::File(15 * 1024)));
    assert!(!pattern.matches_probed("a.txt", FileProbe::File(5 * 1024)));
}

#[test]
fn size_condition_of_a_missing_file_counts_as_met() {
    let pattern = Pattern::new("size:<10KB *.log");
    assert!(pattern.matches("a.log"));
    assert!(pattern.matches_probed("a.log", FileProbe::Missing));
    assert!(!pattern.matches("a.txt"));
}

#[test]
fn size_condition_never_holds_of_a_directory() {
    let pattern = Pattern::new("size:>1B *.d");
    assert!(!pattern.matches_probed("conf.d", FileProbe::Directory));
    assert!(pattern.matches_probed("conf.d", FileProbe::File(2)));
    assert!(!pattern.matches_probed("conf.d", FileProbe::File(1)));
}

#[test]
fn original_is_the_trimmed_text() {
    assert_eq!(Pattern::new("  *.txt \t").original, "*.txt");
    assert_eq!(Pattern::new("!keep/").original, "!keep/");
    assert_eq!(Pattern::new("size:<1MB *.log").original, "size:<1MB *.log");
    assert_eq!(Pattern::new("\u{2003}a b\u{00A0}").original, "a b");
    assert_eq!(Pattern::new("").original, "");
    assert_eq!(Pattern::new("   ").original, "");
}

#[test]
fn body_drops_negation_and_size_prefix_only() {
    assert_eq!(Pattern::new("!  *.txt").pattern, "*.txt");
    assert_eq!(Pattern::new("build/").pattern, "build/");
    assert_eq!(Pattern::new("size:>10KB   *.iso").pattern, "*.iso");
    assert_eq!(Pattern::new("!size:<5B a?c").pattern, "a?c");
    let p = Pattern::new("!size:<5B a?c");
    assert!(p.is_negated());
    assert_eq!(p.size_condition, Some((SizeComparison::LessThan, 5)));
}

#[test]
fn size_units_multiply_by_powers_of_1024() {
    assert_eq!(
        Pattern::new("size:<7 x").size_condition,
        Some((SizeComparison::LessThan, 7))
    );
    assert_eq!(
        Pattern::new("size:<7B x").size_condition,
        Some((SizeComparison::LessThan, 7))
    );
    assert_eq!(
        Pattern::new("size:>3KB x").size_condition,
        Some((SizeComparison::GreaterThan, 3 * 1024))
    );
    assert_eq!(
        Pattern::new("size:>3MB x").size_condition,
        Some((SizeComparison::GreaterThan, 3 * 1024 * 1024))
    );
    assert_eq!(
        Pattern::new("size:>3GB x").size_condition,
        Some((SizeComparison::GreaterThan, 3 * 1024 * 1024 * 1024))
    );
    assert_eq!(
        Pattern::new("size:>007KB x").size_condition,
        Some((SizeComparison::GreaterThan, 7 * 1024))
    );
}

#[test]
fn size_numbers_that_do_not_fit() {
    assert_eq!(
        Pattern::new("size:>18446744073709551615 x").size_condition,
        Some((SizeComparison::GreaterThan, u64::MAX))
    );
    assert_eq!(
        Pattern::new("size:>18446744073709551616 x").size_condition,
        Some((SizeComparison::GreaterThan, 0))
    );
    assert_eq!(
        Pattern::new("size:>18446744073709551615KB x").size_condition,
        Some((SizeComparison::GreaterThan, u64::MAX))
    );
    assert_eq!(
        Pattern::new("size:<17179869184GB x").size_condition,
        Some((SizeComparison::LessThan, u64::MAX))
    );
    assert_eq!(
        Pattern::new("size:<17179869183GB x").size_condition,
        Some((SizeComparison::LessThan, 17179869183 * 1024 * 1024 * 1024))
    );
}

#[test]
fn texts_that_are_no_size_condition() {
    for text in [
        "size:<1MB",
        "size:<MB x",
        "size:=1MB x",
        "size:<1TB x",
        "size:<1K x",
        "size:<1MBx",
        "size: <1MB x",
        "Size:<1MB x",
        "size:<1MB a\nb",
    ] {
        let p = Pattern::new(text);
        assert!(!p.is_size_condition(), "{}", text);
        assert_eq!(p.pattern, text);
    }
}

#[test]
fn glob_becomes_an_anchored_expression() {
    assert_eq!(Pattern::new("*.txt").regex.unwrap(), "^.*\\.txt$");
    assert_eq!(Pattern::new("a?c").regex.unwrap(), "^a.c$");
    assert_eq!(Pattern::new("build/").regex.unwrap(), "^build$");
    assert_eq!(Pattern::new("build///").regex.unwrap(), "^build$");
    assert_eq!(
        Pattern::new("a.b\\c$d^e+f(g)h{i}j|k").regex.unwrap(),
        "^a\\.b\\\\c\\$d\\^e\\+f\\(g\\)h\\{i\\}j\\|k$"
    );
    assert_eq!(Pattern::new("x[ab]y").regex.unwrap(), "^x[ab]y$");
    assert_eq!(Pattern::new("").regex.unwrap(), "^$");
}

#[test]
fn wildcards_match_runs_and_single_characters() {
    let star = Pattern::new("a*z");
    assert!(star.matches("az"));
    assert!(star.matches("a/b/z"));
    assert!(!star.matches("a/b/zz "));
    assert!(!star.matches("xaz"));
    let one = Pattern::new("a?z");
    assert!(one.matches("a-z"));
    assert!(!one.matches("az"));
    assert!(!one.matches("a--z"));
    let literal = Pattern::new("a+b*");
    assert!(literal.matches("a+b"));
    assert!(!literal.matches("aab"));
}

#[test]
fn brackets_pass_through_to_the_expression() {
    let p = Pattern::new("*.[oa]");
    assert!(p.matches("lib.a"));
    assert!(p.matches("main.o"));
    assert!(!p.matches("main.c"));
}

#[test]
fn a_body_that_does_not_compile_matches_nothing() {
    let p = Pattern::new("a[b*");
    assert!(p.regex.is_none());
    assert!(!p.matches("a[b"));
    assert!(!p.matches("a[bc"));
    assert!(!p.matches("ab"));
    assert!(!p.matches_probed("a[bc", FileProbe::File(1)));
}

#[test]
fn with_size_falls_back_to_containment_without_expression() {
    let p = Pattern::new("a[b*");
    assert!(p.matches_with_size("xx/a[b*yy", 1));
    assert!(!p.matches_with_size("a[bc", 1));
    let sized = Pattern::new("size:>5B a[b*");
    assert!(sized.matches_with_size("a[b*", 6));
    assert!(!sized.matches_with_size("a[b*", 5));
}

#[test]
fn exact_rule_compares_the_last_segment() {
    let p = Pattern::new("Makefile");
    assert!(p.matches("Makefile"));
    assert!(p.matches("src/Makefile"));
    assert!(p.matches("a/b/Makefile"));
    assert!(!p.matches("Makefile/x"));
    assert!(!p.matches("Makefile.in"));
    assert!(!p.matches("xMakefile"));
    assert!(!p.matches("makefile"));
    assert!(!p.matches("Makefile/"));
    assert!(p.matches_with_size("src/Makefile", 0));
    assert!(!p.matches_with_size("src/Makefile.in", 0));
    let path = Pattern::new("docs/README.md");
    assert!(!path.matches("docs/README.md"));
    assert!(!path.matches("README.md"));
}

#[test]
fn directory_rule_cases() {
    let p = Pattern::new("build/");
    assert!(p.matches("build"));
    assert!(p.matches("build/x"));
    assert!(p.matches("build\\x"));
    assert!(p.matches("a/build"));
    assert!(p.matches("a/build/b"));
    assert!(!p.matches("builds/x"));
    assert!(!p.matches("a/rebuild/b"));
    assert!(!p.matches("a\\build\\b"));
    assert!(!p.matches(""));
    let nested = Pattern::new("docs/generated/");
    assert!(nested.matches("docs/generated"));
    assert!(nested.matches("docs/generated/x.html"));
    assert!(!nested.matches("a/docs/generated/x.html"));
    let star = Pattern::new("tmp*/");
    assert!(star.matches("tmp*/x"));
    assert!(!star.matches("tmp1/x"));
}

#[test]
fn decide_takes_the_verdict_of_the_expression() {
    let p = Pattern::new("size:<10B *.log");
    assert!(p.decide("whatever", true, FileProbe::Missing));
    assert!(p.decide("whatever", true, FileProbe::File(9)));
    assert!(!p.decide("whatever", true, FileProbe::File(10)));
    assert!(!p.decide("whatever", true, FileProbe::Directory));
    assert!(!p.decide("a.log", false, FileProbe::Missing));
    assert!(p.decide_with_size("whatever", true, 9));
    assert!(!p.decide_with_size("whatever", true, 10));
    assert!(!p.decide_with_size("a.log", false, 1));
    let exact = Pattern::new("core");
    assert!(exact.decide("bin/core", false, FileProbe::Missing));
    assert!(!exact.decide("bin/cores", true, FileProbe::Missing));
    assert!(exact.decide_with_size("bin/core", false, 3));
    assert!(p.expr_matches("x/a.log"));
    assert!(!p.expr_matches("a.txt"));
}

#[test]
fn a_clone_is_the_same_rule() {
    let p = Pattern::new("!size:>2KB *.bin");
    let q = p.clone();
    assert_eq!(q.original, p.original);
    assert_eq!(q.pattern, p.pattern);
    assert_eq!(q.regex, p.regex);
    assert_eq!(q.size_condition, p.size_condition);
    assert_eq!(q.is_negated(), p.is_negated());
    assert_eq!(q.is_dir_only(), p.is_dir_only());
}
