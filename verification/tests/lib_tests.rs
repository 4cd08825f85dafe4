use dotignore::document::EXAMPLE_DOCUMENT;
use dotignore::plugin::{default_ignore_content, DEFAULT_DOCUMENT};
use dotignore::text::{from_chars, split_lines, split_words, to_chars, trim_chars};
use dotignore::{
    library_info, plugin_info, DotIgnore, DotIgnorePlugin, FileProbe, IgnoreError,
    IgnoreParser, IgnoreRules, Pattern, PatternGroup, Plugin, VERSION,
};

#[test]
fn test_library_info() {
    let info = library_info();
    assert!(info.contains("DotIgnore v"));
    assert!(info.contains(VERSION));
}

#[test]
fn test_plugin_info() {
    let info = plugin_info();
    assert!(info.contains("DotIgnore Plugin v"));
    assert!(info.contains("Implemented in Rust"));
}

#[test]
fn test_parse_ignore_file() {
    let content = r#"*.txt
!important.txt

[group1] {
    *.tmp
    *.log
}
"#;
    let vcs_ignore = IgnoreParser::new().parse_string(content).unwrap();
    let rules = IgnoreRules::from_DotIgnore(&vcs_ignore);

    assert_eq!(rules.patterns.len(), 2);
    assert_eq!(rules.groups.len(), 1);
    let group1 = rules.groups.iter().find(|g| g.name == "group1").unwrap();
    assert_eq!(group1.patterns.len(), 2);
}

#[test]
fn info_texts_are_exact() {
    assert_eq!(
        library_info(),
        "DotIgnore v0.1.0\nImplemented in Rust\nSupports Git, SVN, and Dot ignore formats"
    );
    assert_eq!(
        plugin_info(),
        "DotIgnore Plugin v0.1.0\nImplemented in Rust\nSupports Git, SVN, and Dot ignore formats"
    );
}

#[test]
fn the_plugin_tells_about_itself() {
    let plugin = DotIgnorePlugin::new();
    assert_eq!(plugin.name(), "dotignore");
    assert_eq!(plugin.version(), VERSION);
    assert_eq!(plugin.description(), "DotIgnore Plugin");
}

#[test]
fn rules_keyed_by_name_keep_the_last_group_of_a_name() {
    let mut doc = DotIgnore::new();
    doc.add_pattern(Pattern::new("r"));
    doc.add_group(PatternGroup::new("a").with_patterns(vec![Pattern::new("a1")]));
    doc.add_group(PatternGroup::new("b").with_patterns(vec![Pattern::new("b1")]));
    doc.add_group(
        PatternGroup::new("a").with_patterns(vec![Pattern::new("a2"), Pattern::new("a3")]),
    );
    let rules = IgnoreRules::from_DotIgnore(&doc);
    assert_eq!(rules.patterns.len(), 1);
    assert_eq!(rules.patterns[0].original, "r");
    assert_eq!(rules.groups.len(), 2);
    assert_eq!(rules.groups[0].name, "a");
    assert_eq!(rules.groups[0].patterns.len(), 2);
    assert_eq!(rules.groups[0].patterns[0].original, "a2");
    assert_eq!(rules.groups[1].name, "b");
    assert_eq!(rules.groups[1].patterns[0].original, "b1");
    let empty = IgnoreRules::new();
    assert!(empty.patterns.is_empty());
    assert!(empty.groups.is_empty());
}

#[test]
fn the_plugin_goes_by_the_first_rule_that_counts() {
    let plugin = DotIgnorePlugin::new();
    let mut rules = IgnoreRules::new();
    rules.patterns.push(Pattern::new("cache/"));
    rules.patterns.push(Pattern::new("!keep.log"));
    rules.insert("logs", vec![Pattern::new("*.log"), Pattern::new("size:>1KB *.bin")]);
    assert!(!plugin.is_file_ignored("keep.log", &rules, false, FileProbe::Missing));
    assert!(plugin.is_file_ignored("x.log", &rules, false, FileProbe::Missing));
    assert!(!plugin.is_file_ignored("cache/x", &rules, false, FileProbe::Missing));
    assert!(plugin.is_file_ignored("cache/x", &rules, true, FileProbe::Directory));
    assert!(plugin.is_file_ignored("a.bin", &rules, false, FileProbe::File(2000)));
    assert!(!plugin.is_file_ignored("a.bin", &rules, false, FileProbe::File(10)));
    assert!(!plugin.is_file_ignored("a.txt", &rules, false, FileProbe::Missing));
}

#[test]
fn the_default_document_of_the_plugin_parses() {
    let doc = IgnoreParser::new().parse_string(&default_ignore_content()).unwrap();
    let names: Vec<&str> = doc.groups.iter().map(|g| g.name.as_str()).collect();
    assert_eq!(
        names,
        vec![
            "standard_patterns",
            "platform:windows",
            "platform:macos",
            "platform:linux",
            "development",
            "build"
        ]
    );
    assert!(doc.is_ignored("x/Thumbs.db"));
    assert!(doc.is_ignored("node_modules/a/b.js"));
    assert!(doc.is_ignored("notes.txt~"));
    assert!(!doc.is_ignored("src/main.rs"));
}

#[test]
fn the_example_document_has_three_groups() {
    assert_eq!(DotIgnore::example_content(), EXAMPLE_DOCUMENT);
    assert_eq!(default_ignore_content(), DEFAULT_DOCUMENT);
    let doc = IgnoreParser::new().parse_string(&DotIgnore::example_content()).unwrap();
    let sizes: Vec<(String, usize)> = doc
        .groups
        .iter()
        .map(|g| (g.name.clone(), g.patterns.len()))
        .collect();
    assert_eq!(
        sizes,
        vec![
            ("common".to_string(), 4),
            ("system".to_string(), 4),
            ("development".to_string(), 8)
        ]
    );
}

#[test]
fn text_round_trips_through_characters() {
    for text in ["", "a", "héllo wörld", "tab\tand\nnewline", "日本語"] {
        let chars = to_chars(text);
        assert_eq!(chars, text.chars().collect::<Vec<char>>());
        assert_eq!(from_chars(&chars), text);
    }
}

#[test]
fn trimming_drops_outer_white_space_only() {
    let cases = [
        ("", ""),
        ("   ", ""),
        (" a ", "a"),
        ("\t\r\n a  b \u{3000}", "a  b"),
        ("\u{0085}x\u{2028}", "x"),
        ("\u{200B}x", "\u{200B}x"),
    ];
    for (text, trimmed) in cases {
        assert_eq!(from_chars(trim_chars(&to_chars(text))), trimmed);
        assert_eq!(text.trim(), trimmed);
    }
}

#[test]
fn lines_and_words_of_a_text() {
    let lines: Vec<String> = split_lines(&to_chars("a\r\n\nb c\r\rd\n\r\n e\r"))
        .iter()
        .map(|l| from_chars(l))
        .collect();
    assert_eq!(lines, vec!["a", "", "b c\r\rd", "", " e\r"]);
    for text in ["", "\n", "a", "a\n", "a\r\n", "\r\n\r\n", "a\rb\n\nc", "x\n\ry\r\n z "] {
        let ours: Vec<String> = split_lines(&to_chars(text)).iter().map(|l| from_chars(l)).collect();
        let theirs: Vec<String> = text.lines().map(|l| l.to_string()).collect();
        assert_eq!(ours, theirs, "{:?}", text);
        let words: Vec<String> = split_words(&to_chars(text)).iter().map(|w| from_chars(w)).collect();
        let expected: Vec<String> = text.split_whitespace().map(|w| w.to_string()).collect();
        assert_eq!(words, expected, "{:?}", text);
    }
    assert!(split_lines(&to_chars("")).is_empty());
    assert_eq!(split_lines(&to_chars("\n")).len(), 1);
    assert_eq!(split_lines(&to_chars("x")).len(), 1);
    let words: Vec<String> = split_words(&to_chars("  one\ttwo \u{00A0} three\n"))
        .iter()
        .map(|w| from_chars(w))
        .collect();
    assert_eq!(words, vec!["one", "two", "three"]);
    assert!(split_words(&to_chars(" \t ")).is_empty());
}

#[test]
fn errors_describe_themselves() {
    assert_eq!(IgnoreError::Io("disk full".to_string()).message(), "IO error: disk full");
    assert_eq!(
        IgnoreError::Parse { line: 0, message: "m".to_string() }.message(),
        "m at line 0"
    );
    assert_eq!(
        IgnoreError::Parse { line: 1203, message: "Unexpected group end".to_string() }.message(),
        "Unexpected group end at line 1203"
    );
    assert_eq!(
        IgnoreError::Parse { line: usize::MAX, message: String::new() }.message(),
        format!(" at line {}", usize::MAX)
    );
    assert_eq!(
        IgnoreError::UnsupportedFormat("notes.txt".to_string()).message(),
        "Unsupported format: notes.txt"
    );
    assert_eq!(IgnoreError::FileNotFound("a/b".to_string()).message(), "File not found: a/b");
    assert_eq!(IgnoreError::Other("x".to_string()).message(), "Other error: x");
    let err = IgnoreParser::new().parse_string("x\n}\n").unwrap_err();
    assert_eq!(err.message(), "Unexpected group end at line 2");
}
