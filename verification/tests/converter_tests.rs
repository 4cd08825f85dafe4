use dotignore::convert_ignore::{convert_content, convert_text, determine_format, slugify};
use dotignore::converter::{
    classify_rule, classify_with, is_legacy_file_name, sibling_path, Bucket,
};
use dotignore::text::to_chars;
use dotignore::{IgnoreConverter, IgnoreError, IgnoreFormat, IgnoreParser, PatternStatistics};

const STAMP: &str = "2024-05-06 07:08:09";

fn count_of(list: &[(String, usize)], name: &str) -> Option<usize> {
    list.iter().find(|e| e.0 == name).map(|e| e.1)
}

#[test]
fn test_convert_gitignore() {
    let converter = IgnoreConverter::new();
    let source = "# This is a comment\n*.txt\nbuild/\n# Windows files\nThumbs.db\n# macOS files\n.DS_Store\n";

    let (content, result) = converter
        .convert_text("/tmp/x/.gitignore", "/tmp/x/.ignore", source, STAMP)
        .unwrap();

    assert_eq!(result.pattern_count, 4);
    assert_eq!(result.groups_created(), 3);

    assert_eq!(result.destination_file, "/tmp/x/.ignore");

    assert!(content.contains("[default]"));
    assert!(content.contains("[windows_files]"));
    assert!(content.contains("[macos_files]"));
    assert!(content.contains("*.txt"));
    assert!(content.contains("Thumbs.db"));
    assert!(content.contains(".DS_Store"));
}

#[test]
fn test_convert_svnignore() {
    let converter = IgnoreConverter::new();
    let source = "# This is a comment\n*.obj *.bin *.exe\n# Build files\nbuild\n";

    let (content, result) = converter
        .convert_text("/tmp/x/.svnignore", "/tmp/x/.ignore", source, STAMP)
        .unwrap();

    assert_eq!(result.pattern_count, 4);

    assert_eq!(result.destination_file, "/tmp/x/.ignore");

    assert!(content.contains("[default]"));
    assert!(content.contains("[build_files]"));
    assert!(content.contains("*.obj"));
    assert!(content.contains("*.bin"));
    assert!(content.contains("*.exe"));
    assert!(content.contains("build"));
}

#[test]
fn git_conversion_of_two_rules() {
    let (text, stats) = IgnoreConverter::new().convert_from_git("Thumbs.db\n*.txt\n", STAMP);
    assert_eq!(stats.total_patterns, 2);
    assert_eq!(stats.standard_patterns, 1);
    assert_eq!(stats.platform_patterns, vec![("windows_files".to_string(), 1)]);
    let doc = IgnoreParser::new().parse_string(&text).unwrap();
    assert_eq!(doc.patterns.len(), 0);
    assert_eq!(doc.groups.len(), 2);
    assert_eq!(doc.groups[0].name, "default");
    assert_eq!(doc.groups[0].patterns.len(), 1);
    assert_eq!(doc.groups[0].patterns[0].original, "*.txt");
    assert_eq!(doc.groups[1].name, "windows_files");
    assert_eq!(doc.groups[1].patterns.len(), 1);
    assert_eq!(doc.groups[1].patterns[0].original, "Thumbs.db");
}

#[test]
fn git_output_text_is_exact() {
    let source = "#first\n\n  *.tmp  \n*.tmp\n#  second  \nnotes\nTHUMBS.DB\r\n";
    let (text, stats) = IgnoreConverter::new().convert_from_git(source, STAMP);
    let expected = "# Converted from .gitignore\n# Format version: 1.0\n# Conversion date: 2024-05-06 07:08:09\n\n\
# first\n\n# second\n\
\n[default] {\n    # Standard patterns\n    notes\n}\n\
\n[windows_files] {\n    # Windows specific files\n    THUMBS.DB\n}\n\
\n[temporary_files] {\n    # Temporary and cache files\n    *.tmp\n}\n";
    assert_eq!(text, expected);
    assert_eq!(stats.total_patterns, 4);
    assert_eq!(stats.standard_patterns, 1);
    assert_eq!(
        stats.platform_patterns,
        vec![("windows_files".to_string(), 1), ("temporary_files".to_string(), 1)]
    );
}

#[test]
fn git_conversion_without_rules() {
    let (text, stats) = IgnoreConverter::new().convert_from_git("", "t");
    assert_eq!(text, "# Converted from .gitignore\n# Format version: 1.0\n# Conversion date: t\n\n");
    assert_eq!(stats.total_patterns, 0);
    assert_eq!(stats.standard_patterns, 0);
    assert!(stats.platform_patterns.is_empty());
    let fresh = PatternStatistics::new();
    assert_eq!(fresh.total_patterns, 0);
    assert_eq!(fresh.standard_patterns, 0);
    assert!(fresh.platform_patterns.is_empty());
}

#[test]
fn buckets_are_tried_in_fixed_order() {
    let cases = [
        ("Thumbs.db", Bucket::Windows),
        ("desktop.INI", Bucket::Windows),
        ("*.lnk", Bucket::Windows),
        ("$RECYCLE.BIN/", Bucket::Windows),
        (".DS_Store", Bucket::Macos),
        ("._*", Bucket::Macos),
        (".spotlight-V100", Bucket::Macos),
        (".Trashes", Bucket::Macos),
        ("*~", Bucket::Linux),
        (".directory", Bucket::Linux),
        (".Trash-*", Bucket::Linux),
        ("*.tmp", Bucket::Temporary),
        ("*.swp", Bucket::Temporary),
        ("*.bak", Bucket::Temporary),
        (".~lock", Bucket::Temporary),
        ("*.o", Bucket::Build),
        ("*.obj", Bucket::Build),
        ("*.exe", Bucket::Build),
        ("*.dll", Bucket::Build),
        ("*.class", Bucket::Build),
        ("build/", Bucket::Build),
        ("/bin/", Bucket::Build),
        ("x/dist/", Bucket::Build),
        ("x/out/y", Bucket::Build),
        ("*.log", Bucket::Logs),
        ("*.md", Bucket::Documentation),
        ("*.pdf", Bucket::Documentation),
        ("docs/", Bucket::Documentation),
        (".vscode/", Bucket::Ide),
        (".idea", Bucket::Ide),
        ("*.sublime-workspace", Bucket::Ide),
        (".project", Bucket::Ide),
        ("*.txt", Bucket::Default),
        ("*.so", Bucket::Default),
        ("node_modules/", Bucket::Default),
        ("thumbs.db.tmp", Bucket::Windows),
        ("*.tmp.o", Bucket::Temporary),
        ("*.log.old", Bucket::Build),
        ("docs/*.log", Bucket::Logs),
        (".idea/*.md", Bucket::Documentation),
    ];
    for (rule, bucket) in cases {
        assert_eq!(classify_rule(&to_chars(rule)), bucket, "{}", rule);
    }
}

#[test]
fn classify_with_goes_by_the_given_verdicts_first() {
    let rule = to_chars("*.tmp");
    assert_eq!(classify_with(&rule, true, true, true), Bucket::Windows);
    assert_eq!(classify_with(&rule, false, true, true), Bucket::Macos);
    assert_eq!(classify_with(&rule, false, false, true), Bucket::Linux);
    assert_eq!(classify_with(&rule, false, false, false), Bucket::Temporary);
    assert_eq!(classify_with(&to_chars("x"), false, false, false), Bucket::Default);
}

#[test]
fn svn_output_gets_an_empty_default_block_where_none_was_made() {
    let (text, stats) = IgnoreConverter::new().convert_from_svn("# Objects\n*.o\n", "t");
    assert_eq!(
        text,
        "# Archivo .DotIgnore convertido desde .svnignore\n# Fecha de conversión: t\n\n[default] {\n    # Default patterns\n}\n\n[objects] {\n    *.o\n}\n\n"
    );
    assert_eq!(stats.total_patterns, 1);
    assert_eq!(stats.standard_patterns, 0);
    assert_eq!(stats.platform_patterns, vec![("objects".to_string(), 1)]);
    let (empty, none) = IgnoreConverter::new().convert_from_svn("", "t");
    assert_eq!(
        empty,
        "# Archivo .DotIgnore convertido desde .svnignore\n# Fecha de conversión: t\n\n[default] {\n    # Default patterns\n}\n\n"
    );
    assert_eq!(none.total_patterns, 0);
}

#[test]
fn slugs_of_comments() {
    let converter = IgnoreConverter::new();
    assert_eq!(converter.slugify("Build files"), "build_files");
    assert_eq!(converter.slugify("This is a comment"), "this_is_a_comment");
    assert_eq!(converter.slugify("C++ (objects)!"), "c_objects");
    assert_eq!(converter.slugify("a\tb\u{00A0}c"), "a_b_c");
    assert_eq!(converter.slugify("Número Ärger 9"), "número_Ärger_9");
    assert_eq!(converter.slugify(""), "default");
    assert_eq!(converter.slugify("!?-"), "default");
    assert_eq!(converter.slugify(" "), "_");
    assert_eq!(slugify("Build files"), "build_files");
    assert_eq!(slugify("***"), "default");
}

#[test]
fn format_is_told_from_the_file_name() {
    let converter = IgnoreConverter::new();
    assert_eq!(converter.determine_format(".gitignore").unwrap(), IgnoreFormat::Git);
    assert_eq!(converter.determine_format("a/b/.GitIgnore").unwrap(), IgnoreFormat::Git);
    assert_eq!(converter.determine_format("/x/.svnignore").unwrap(), IgnoreFormat::Svn);
    assert_eq!(converter.determine_format("my.SVN.rules").unwrap(), IgnoreFormat::Svn);
    assert_eq!(converter.determine_format("svn-git").unwrap(), IgnoreFormat::Git);
    assert_eq!(determine_format("x/.gitignore").unwrap(), "git");
    assert_eq!(determine_format("x/.svnignore").unwrap(), "svn");
    match converter.determine_format("git/Rules.TXT") {
        Err(IgnoreError::UnsupportedFormat(name)) => assert_eq!(name, "rules.txt"),
        other => panic!("{:?}", other),
    }
    match determine_format("svn/") {
        Err(IgnoreError::UnsupportedFormat(name)) => assert_eq!(name, ""),
        other => panic!("{:?}", other),
    }
    match converter.convert_text("notes.txt", "out", "a\n", STAMP) {
        Err(IgnoreError::UnsupportedFormat(name)) => assert_eq!(name, "notes.txt"),
        other => panic!("{:?}", other.map(|r| r.0)),
    }
    assert!(convert_text("notes.txt", "out", "a\n", STAMP).is_err());
}

#[test]
fn names_that_a_directory_walk_converts() {
    assert!(is_legacy_file_name(".gitignore"));
    assert!(is_legacy_file_name(".svnignore"));
    assert!(!is_legacy_file_name("gitignore"));
    assert!(!is_legacy_file_name(".gitignore.bak"));
    assert!(!is_legacy_file_name(".GITIGNORE"));
    assert!(!is_legacy_file_name(""));
}

#[test]
fn formats_by_word() {
    assert_eq!(IgnoreFormat::from_word("git").unwrap(), IgnoreFormat::Git);
    assert_eq!(IgnoreFormat::from_word("SVN").unwrap(), IgnoreFormat::Svn);
    assert_eq!(IgnoreFormat::from_word("Vcs").unwrap(), IgnoreFormat::Vcs);
    for word in ["", "gi", "gitt", " git", "hg", ".gitignore"] {
        match IgnoreFormat::from_word(word) {
            Err(IgnoreError::UnsupportedFormat(name)) => assert_eq!(name, word),
            other => panic!("{:?}", other),
        }
    }
    assert_eq!(IgnoreFormat::Git.file_name(), ".gitignore");
    assert_eq!(IgnoreFormat::Svn.file_name(), ".svnignore");
    assert_eq!(IgnoreFormat::Vcs.file_name(), ".ignore");
}

#[test]
fn the_file_beside_a_file() {
    assert_eq!(sibling_path("/work/.gitignore", ".ignore"), "/work/.ignore");
    assert_eq!(sibling_path(".gitignore", ".ignore"), ".ignore");
    assert_eq!(sibling_path("a/b/c.txt", ".DotIgnore"), "a/b/.DotIgnore");
    assert_eq!(sibling_path("a/b/", "x"), "a/b/x");
    assert_eq!(sibling_path("", "x"), "x");
}

#[test]
fn svn_output_text_is_exact() {
    let source = "first second\n# Build files\nbuild  out\n\nmore\n#\nplain\n## Build   Files!\nlast\n# Default\nd\n";
    let (text, stats) = IgnoreConverter::new().convert_from_svn(source, STAMP);
    let expected = "# Archivo .DotIgnore convertido desde .svnignore\n# Fecha de conversión: 2024-05-06 07:08:09\n\n\
[default] {\n    first\n    second\n    plain\n    d\n}\n\n\
[build_files] {\n    build\n    out\n    more\n}\n\n\
[build___files] {\n    last\n}\n\n";
    assert_eq!(text, expected);
    assert_eq!(stats.total_patterns, 8);
    assert_eq!(stats.standard_patterns, 4);
    assert_eq!(
        stats.platform_patterns,
        vec![("build_files".to_string(), 3), ("build___files".to_string(), 1)]
    );
}

#[test]
fn a_comment_names_the_group_until_the_next_comment() {
    let (text, stats) = IgnoreConverter::new().convert_from_svn("# Build\n\nfoo\n", "t");
    assert_eq!(stats.total_patterns, 1);
    assert_eq!(stats.standard_patterns, 0);
    assert_eq!(stats.platform_patterns, vec![("build".to_string(), 1)]);
    assert!(text.contains("[build] {\n    foo\n}\n"));

    let (_, more) = IgnoreConverter::new()
        .convert_from_svn("# Build\na\n\n   \nb c\n\n# Docs\n\n\nd\ne\n", "t");
    assert_eq!(more.total_patterns, 5);
    assert_eq!(more.standard_patterns, 0);
    assert_eq!(
        more.platform_patterns,
        vec![("build".to_string(), 3), ("docs".to_string(), 2)]
    );
}

#[test]
fn the_last_of_several_comments_names_the_group() {
    let (_, stats) = IgnoreConverter::new().convert_from_svn("# One\n# Two\nx\n", "t");
    assert_eq!(stats.standard_patterns, 0);
    assert_eq!(stats.platform_patterns, vec![("two".to_string(), 1)]);
}

#[test]
fn a_comment_without_text_names_the_default_group() {
    for comment in ["#", "##", "#   ", "# !?", "  #\t"] {
        let source = format!("# Build\na\n{}\nb\n", comment);
        let (_, stats) = IgnoreConverter::new().convert_from_svn(&source, "t");
        assert_eq!(stats.total_patterns, 2, "{:?}", comment);
        assert_eq!(stats.standard_patterns, 1, "{:?}", comment);
        assert_eq!(stats.platform_patterns, vec![("build".to_string(), 1)], "{:?}", comment);
    }
}

#[test]
fn content_conversion_of_git_text_classifies() {
    let (text, result) =
        convert_content("Thumbs.db\n*.txt\n", "git", "src/.gitignore", "src/.DotIgnore", STAMP)
            .unwrap();
    assert_eq!(result.pattern_count, 2);
    assert_eq!(result.patterns_converted(), 2);
    assert_eq!(result.standard_patterns, 1);
    assert_eq!(result.platform_patterns, vec![("windows_files".to_string(), 1)]);
    assert_eq!(result.groups_created(), 1);
    assert_eq!(count_of(&result.platform_patterns, "windows_files"), Some(1));
    assert_eq!(count_of(&result.platform_patterns, "default"), None);
    assert_eq!(result.source_file, "src/.gitignore");
    assert_eq!(result.destination_file, "src/.DotIgnore");
    assert!(text.contains("\n[windows_files] {\n    # Windows specific files\n    Thumbs.db\n}\n"));
    assert!(text.contains("\n[default] {\n    # Standard patterns\n    *.txt\n}\n"));
    let (same, stats) = IgnoreConverter::new().convert_from_git("Thumbs.db\n*.txt\n", STAMP);
    assert_eq!(text, same);
    assert_eq!(result.pattern_count, stats.total_patterns);
    let doc = IgnoreParser::new().parse_string(&text).unwrap();
    assert_eq!(doc.groups.len(), 2);
    assert_eq!(doc.groups[0].name, "default");
    assert_eq!(doc.groups[0].patterns[0].original, "*.txt");
    assert_eq!(doc.groups[1].name, "windows_files");
    assert_eq!(doc.groups[1].patterns[0].original, "Thumbs.db");
}

#[test]
fn content_conversion_of_svn_text_groups_by_comments() {
    let source = "a  b\n# Build files\n*.o *.a\n\n*.so\n";
    let (text, result) = convert_content(source, "SVN", "s", "d", STAMP).unwrap();
    let (same, stats) = IgnoreConverter::new().convert_from_svn(source, STAMP);
    assert_eq!(text, same);
    assert_eq!(
        text,
        "# Archivo .DotIgnore convertido desde .svnignore\n# Fecha de conversión: 2024-05-06 07:08:09\n\n\
[default] {\n    a\n    b\n}\n\n[build_files] {\n    *.o\n    *.a\n    *.so\n}\n\n"
    );
    assert_eq!(result.pattern_count, 5);
    assert_eq!(result.standard_patterns, 2);
    assert_eq!(result.platform_patterns, vec![("build_files".to_string(), 3)]);
    assert_eq!(result.platform_patterns, stats.platform_patterns);
    let (empty, none) = convert_content("\n# only\n", "svn", "s", "d", "t").unwrap();
    assert!(empty.contains("[default] {\n    # Default patterns\n}\n"));
    assert_eq!(none.pattern_count, 0);
}

#[test]
fn content_conversion_of_another_format_fails() {
    for word in ["hg", "vcs", "", "gitignore", " git"] {
        match convert_content("# x\na\n", word, "s", "d", "t") {
            Err(IgnoreError::UnsupportedFormat(name)) => assert_eq!(name, word),
            other => panic!("{:?}", other.map(|r| r.0)),
        }
    }
}

#[test]
fn content_conversion_by_file_name() {
    let (text, result) = convert_text("x/.svnignore", "x/.DotIgnore", "# Objects\n*.o\n", "t").unwrap();
    assert_eq!(
        text,
        "# Archivo .DotIgnore convertido desde .svnignore\n# Fecha de conversión: t\n\n[default] {\n    # Default patterns\n}\n\n[objects] {\n    *.o\n}\n\n"
    );
    assert_eq!(result.pattern_count, 1);
    assert_eq!(result.platform_patterns, vec![("objects".to_string(), 1)]);
    let (git, summary) = convert_text("x/.gitignore", "x/.DotIgnore", "Thumbs.db\n*.txt\n", "t").unwrap();
    assert!(git.contains("[windows_files]"));
    assert_eq!(summary.pattern_count, 2);
    assert_eq!(summary.destination_file, "x/.DotIgnore");
}
