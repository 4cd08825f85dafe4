use dotignore::{IgnoreError, IgnoreParser};

#[test]
fn test_parse_simple_file() {
    let content = r#"
# This is a comment
[standard_patterns] {
    *.txt
    !important.txt
    temp/
}

[platform:windows] {
    Thumbs.db
    Desktop.ini
}
"#;

    let parser = IgnoreParser::new();
    let vcs_ignore = parser.parse_string(content).unwrap();

    assert_eq!(vcs_ignore.patterns.len(), 0);
    assert_eq!(vcs_ignore.groups.len(), 2);

    let standard_group = vcs_ignore.groups.iter().find(|g| g.name == "standard_patterns").unwrap();
    assert_eq!(standard_group.patterns.len(), 3);

    let windows_group = vcs_ignore.groups.iter().find(|g| g.name == "platform:windows").unwrap();
    assert_eq!(windows_group.patterns.len(), 2);

    assert!(vcs_ignore.is_ignored("file.txt"));
    assert!(!vcs_ignore.is_ignored("important.txt"));
    assert!(vcs_ignore.is_ignored("temp/file"));
    assert!(vcs_ignore.is_ignored("Thumbs.db"));
    assert!(!vcs_ignore.is_ignored("file.rs"));
}

#[test]
fn test_parse_string() {
    let content = r#"
# This is a comment
[standard_patterns] {
    *.txt
    !important.txt
}
"#;

    let parser = IgnoreParser::new();
    let vcs_ignore = parser.parse_string(content).unwrap();

    assert_eq!(vcs_ignore.patterns.len(), 0);
    assert_eq!(vcs_ignore.groups.len(), 1);

    let standard_group = vcs_ignore.groups.iter().find(|g| g.name == "standard_patterns").unwrap();
    assert_eq!(standard_group.patterns.len(), 2);

    assert!(vcs_ignore.is_ignored("file.txt"));
    assert!(!vcs_ignore.is_ignored("important.txt"));
    assert!(!vcs_ignore.is_ignored("file.rs"));
}

#[test]
fn test_mismatched_groups() {
    let content = r#"
# This is a comment
[standard_patterns] {
    *.txt
}

# Missing closing bracket for this group
[unclosed_group] {
    *.obj
"#;

    let parser = IgnoreParser::new();
    let vcs_ignore = parser.parse_string(content).unwrap();

    assert_eq!(vcs_ignore.groups.len(), 2);

    assert!(vcs_ignore.groups.iter().any(|g| g.name == "standard_patterns"));
    assert!(vcs_ignore.groups.iter().any(|g| g.name == "unclosed_group"));

    let unclosed = vcs_ignore.groups.iter().find(|g| g.name == "unclosed_group").unwrap();
    assert_eq!(unclosed.patterns.len(), 1);
    assert_eq!(unclosed.patterns[0].pattern, "*.obj");
}

#[test]
fn mod_test_basic_ignore_patterns() {
    let content = r#"
[standard_patterns] {
    *.txt
    !important.txt
    temp/
} # end standard_patterns
"#;
    let vcs_ignore = IgnoreParser::new().parse_string(content).unwrap();

    assert!(vcs_ignore.is_ignored("file.txt"));
    assert!(!vcs_ignore.is_ignored("important.txt"));
    assert!(vcs_ignore.is_ignored("temp/file"));
    assert!(!vcs_ignore.is_ignored("file.rs"));
}

#[test]
fn lib_test_basic_ignore_patterns() {
    let content = r#"
[standard_patterns] {
    *.txt
    !important.txt
    temp/
}
"#;
    let vcs_ignore = IgnoreParser::new().parse_string(content).unwrap();

    assert!(vcs_ignore.is_ignored("file.txt"));
    assert!(!vcs_ignore.is_ignored("important.txt"));
    assert!(vcs_ignore.is_ignored("temp/file"));
    assert!(!vcs_ignore.is_ignored("file.rs"));
}

#[test]
fn one_closed_and_one_open_group_make_two_groups() {
    let doc = IgnoreParser::new()
        .parse_string("[a] {\nx\n}\n[b] {\ny\nz")
        .unwrap();
    assert_eq!(doc.groups.len(), 2);
    assert_eq!(doc.groups[0].name, "a");
    assert_eq!(doc.groups[1].name, "b");
    assert_eq!(doc.groups[1].patterns.len(), 2);
    assert_eq!(doc.groups[1].patterns[0].original, "y");
    assert_eq!(doc.groups[1].patterns[1].original, "z");
}

#[test]
fn an_opening_closes_the_group_that_is_open() {
    let doc = IgnoreParser::new()
        .parse_string("r1\n[a] {\nx\n[b] {\n}\nr2\n[a] {\ny\n}\n")
        .unwrap();
    let root: Vec<&str> = doc.patterns.iter().map(|p| p.original.as_str()).collect();
    assert_eq!(root, vec!["r1", "r2"]);
    let names: Vec<&str> = doc.groups.iter().map(|g| g.name.as_str()).collect();
    assert_eq!(names, vec!["a", "b", "a"]);
    assert_eq!(doc.groups[0].patterns.len(), 1);
    assert_eq!(doc.groups[1].patterns.len(), 0);
    assert_eq!(doc.groups[2].patterns[0].original, "y");
    assert!(doc.groups.iter().all(|g| g.parent.is_none()));
}

#[test]
fn a_closing_without_an_open_group_is_an_error() {
    match IgnoreParser::new().parse_string("a\n\n# c\n}\nb\n") {
        Err(IgnoreError::Parse { line, message }) => {
            assert_eq!(line, 4);
            assert_eq!(message, "Unexpected group end");
        }
        other => panic!("{:?}", other),
    }
    match IgnoreParser::new().parse_string("[g] {\n}\n  }  # end g\n") {
        Err(IgnoreError::Parse { line, .. }) => assert_eq!(line, 3),
        other => panic!("{:?}", other),
    }
    assert!(IgnoreParser::new().parse_string("}").is_err());
}

#[test]
fn forms_of_group_markers() {
    let parser = IgnoreParser::default();
    let doc = parser
        .parse_string("  [A-z_0.9:x]\t{  \n   p\n\t}   #end   A-z_0.9:x  \n[b]{\n}#  end b\r\n")
        .unwrap();
    assert_eq!(doc.patterns.len(), 0);
    assert_eq!(doc.groups.len(), 2);
    assert_eq!(doc.groups[0].name, "A-z_0.9:x");
    assert_eq!(doc.groups[0].patterns.len(), 1);
    assert_eq!(doc.groups[1].name, "b");
}

#[test]
fn lines_that_only_look_like_markers_are_rules() {
    let texts = [
        "[] {",
        "[a b] {",
        "[a] { x",
        "[a]",
        "[a] {{",
        "x [a] {",
        "[a/b] {",
        "} x",
        "} # end",
        "} # endx",
        "} # end a b",
        "} end a",
        "} # finish a",
        "}}",
    ];
    for text in texts {
        let doc = IgnoreParser::new().parse_string(text).unwrap();
        assert_eq!(doc.groups.len(), 0, "{}", text);
        assert_eq!(doc.patterns.len(), 1, "{}", text);
        assert_eq!(doc.patterns[0].original, text);
    }
}

#[test]
fn blank_lines_and_comments_leave_no_trace() {
    let doc = IgnoreParser::new()
        .parse_string("\n   \n# one\n[g] {\n\n  # two\n\t\n}\n   #three\n")
        .unwrap();
    assert_eq!(doc.patterns.len(), 0);
    assert_eq!(doc.groups.len(), 1);
    assert_eq!(doc.groups[0].patterns.len(), 0);
    let empty = IgnoreParser::new().parse_string("").unwrap();
    assert_eq!(empty.patterns.len(), 0);
    assert_eq!(empty.groups.len(), 0);
}

#[test]
fn lines_end_at_line_feeds_with_or_without_carriage_return() {
    let doc = IgnoreParser::new().parse_string("a\r\nb\nc\r\n\r\nd").unwrap();
    let root: Vec<&str> = doc.patterns.iter().map(|p| p.original.as_str()).collect();
    assert_eq!(root, vec!["a", "b", "c", "d"]);
    match IgnoreParser::new().parse_string("a\r\n\r\n}\r\n") {
        Err(IgnoreError::Parse { line, .. }) => assert_eq!(line, 3),
        other => panic!("{:?}", other),
    }
}
