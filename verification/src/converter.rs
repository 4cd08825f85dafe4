//! Conversion of legacy, flat ignore files into grouped documents.

use vstd::prelude::*;
use crate::boundary::{is_alphanumeric, is_alphanumeric_char, regex_finds, regex_is_match};
use crate::error::IgnoreError;
use crate::text::{
    append_chars, ascii_lower, ascii_lower_char, ascii_lower_chars, ascii_lower_text,
    contains_str, contains_text, copy_chars, from_chars, holds_text, is_space, is_space_char,
    last_segment, last_segment_chars, lines, same_chars, split_lines, split_words, to_chars,
    trim, trim_chars, views, words,
};

verus! {

/// The format of an ignore file.
#[derive(Debug, Clone, Copy, PartialEq, Eq, Structural)]
pub enum IgnoreFormat {
    /// A flat file of glob lines, classified by shape on conversion.
    Git,
    /// A flat file whose comments name the groups of the lines after them.
    Svn,
    /// The grouped format itself.
    Vcs,
}

/// The semantic bucket that a rule of a git-style file is put in.
#[derive(Debug, Clone, Copy, PartialEq, Eq, Structural)]
pub enum Bucket {
    /// No shape fits.
    Default,
    /// Files that Windows leaves behind.
    Windows,
    /// Files that macOS leaves behind.
    Macos,
    /// Files that Linux desktops leave behind.
    Linux,
    /// Temporary and backup files.
    Temporary,
    /// Build output.
    Build,
    /// Log files.
    Logs,
    /// Documentation.
    Documentation,
    /// Files of editors and IDEs.
    Ide,
}

/// The expression for names of files that Windows leaves behind.
pub const WINDOWS_SHAPE: &'static str = "(?i)thumbs\\.db|desktop\\.ini|\\.lnk|\\$RECYCLE\\.BIN";

/// The expression for names of files that macOS leaves behind.
pub const MACOS_SHAPE: &'static str =
    "(?i)\\.DS_Store|\\.AppleDouble|\\.LSOverride|\\._|\\.[Ss]potlight-V100|\\.Trashes";

/// The expression for names of files that Linux desktops leave behind.
pub const LINUX_SHAPE: &'static str = "(?i)\\*~|\\.directory|\\.Trash";

/// The bucket of a rule, given whether each of the three platform
/// expressions matches it. The tests are made in a fixed order and the first
/// that holds decides.
pub open spec fn bucket_for(p: Seq<char>, windows: bool, macos: bool, linux: bool) -> Bucket {
    if windows {
        Bucket::Windows
    } else if macos {
        Bucket::Macos
    } else if linux {
        Bucket::Linux
    } else if contains_text(p, ".tmp"@) || contains_text(p, ".swp"@) || contains_text(p, ".bak"@)
        || contains_text(p, ".~"@) {
        Bucket::Temporary
    } else if contains_text(p, ".o"@) || contains_text(p, ".obj"@) || contains_text(p, ".exe"@)
        || contains_text(p, ".dll"@) || contains_text(p, ".class"@) || contains_text(
        p,
        "build/"@,
    ) || contains_text(p, "/bin/"@) || contains_text(p, "/dist/"@) || contains_text(p, "/out/"@) {
        Bucket::Build
    } else if contains_text(p, ".log"@) {
        Bucket::Logs
    } else if contains_text(p, ".md"@) || contains_text(p, ".pdf"@) || contains_text(p, "docs/"@) {
        Bucket::Documentation
    } else if contains_text(p, ".vscode"@) || contains_text(p, ".idea"@) || contains_text(
        p,
        ".sublime"@,
    ) || contains_text(p, ".project"@) {
        Bucket::Ide
    } else {
        Bucket::Default
    }
}

/// The bucket of a rule.
pub open spec fn classify(p: Seq<char>) -> Bucket {
    bucket_for(
        p,
        regex_finds(WINDOWS_SHAPE@, p),
        regex_finds(MACOS_SHAPE@, p),
        regex_finds(LINUX_SHAPE@, p),
    )
}

/// The name of a bucket's group.
pub open spec fn bucket_name(b: Bucket) -> Seq<char> {
    match b {
        Bucket::Default => "default"@,
        Bucket::Windows => "windows_files"@,
        Bucket::Macos => "macos_files"@,
        Bucket::Linux => "linux_files"@,
        Bucket::Temporary => "temporary_files"@,
        Bucket::Build => "build_artifacts"@,
        Bucket::Logs => "logs"@,
        Bucket::Documentation => "documentation"@,
        Bucket::Ide => "ide_files"@,
    }
}

/// The comment that heads a bucket's group.
pub open spec fn bucket_note(b: Bucket) -> Seq<char> {
    match b {
        Bucket::Default => "Standard patterns"@,
        Bucket::Windows => "Windows specific files"@,
        Bucket::Macos => "macOS specific files"@,
        Bucket::Linux => "Linux specific files"@,
        Bucket::Temporary => "Temporary and cache files"@,
        Bucket::Build => "Build output and artifacts"@,
        Bucket::Logs => "Log files"@,
        Bucket::Documentation => "Documentation files"@,
        Bucket::Ide => "IDE specific files"@,
    }
}

/// Executable form of [`bucket_name`].
pub fn bucket_label(b: Bucket) -> (r: &'static str)
    ensures
        r@ == bucket_name(b),
{
    match b {
        Bucket::Default => "default",
        Bucket::Windows => "windows_files",
        Bucket::Macos => "macos_files",
        Bucket::Linux => "linux_files",
        Bucket::Temporary => "temporary_files",
        Bucket::Build => "build_artifacts",
        Bucket::Logs => "logs",
        Bucket::Documentation => "documentation",
        Bucket::Ide => "ide_files",
    }
}

/// Executable form of [`bucket_note`].
pub fn bucket_comment(b: Bucket) -> (r: &'static str)
    ensures
        r@ == bucket_note(b),
{
    match b {
        Bucket::Default => "Standard patterns",
        Bucket::Windows => "Windows specific files",
        Bucket::Macos => "macOS specific files",
        Bucket::Linux => "Linux specific files",
        Bucket::Temporary => "Temporary and cache files",
        Bucket::Build => "Build output and artifacts",
        Bucket::Logs => "Log files",
        Bucket::Documentation => "Documentation files",
        Bucket::Ide => "IDE specific files",
    }
}

/// The bucket of a rule, given whether each of the three platform
/// expressions matches it.
pub fn classify_with(p: &[char], windows: bool, macos: bool, linux: bool) -> (b: Bucket)
    ensures
        b == bucket_for(p@, windows, macos, linux),
{
    if windows {
        Bucket::Windows
    } else if macos {
        Bucket::Macos
    } else if linux {
        Bucket::Linux
    } else if contains_str(p, ".tmp") || contains_str(p, ".swp") || contains_str(p, ".bak")
        || contains_str(p, ".~") {
        Bucket::Temporary
    } else if contains_str(p, ".o") || contains_str(p, ".obj") || contains_str(p, ".exe")
        || contains_str(p, ".dll") || contains_str(p, ".class") || contains_str(p, "build/")
        || contains_str(p, "/bin/") || contains_str(p, "/dist/") || contains_str(p, "/out/") {
        Bucket::Build
    } else if contains_str(p, ".log") {
        Bucket::Logs
    } else if contains_str(p, ".md") || contains_str(p, ".pdf") || contains_str(p, "docs/") {
        Bucket::Documentation
    } else if contains_str(p, ".vscode") || contains_str(p, ".idea") || contains_str(
        p,
        ".sublime",
    ) || contains_str(p, ".project") {
        Bucket::Ide
    } else {
        Bucket::Default
    }
}

/// The bucket of a rule.
pub fn classify_rule(p: &[char]) -> (b: Bucket)
    ensures
        b == classify(p@),
{
    let text = from_chars(p);
    let windows = regex_is_match(WINDOWS_SHAPE, text.as_str());
    let macos = regex_is_match(MACOS_SHAPE, text.as_str());
    let linux = regex_is_match(LINUX_SHAPE, text.as_str());
    classify_with(p, windows, macos, linux)
}


/// The mathematical value of conversion statistics.
pub struct StatsSpec {
    /// How many rules the source held.
    pub total: nat,
    /// How many rules went to the default group.
    pub standard: nat,
    /// For each other group that got rules, its name and how many; no name
    /// twice.
    pub platform: Seq<(Seq<char>, nat)>,
}

/// The values of a sequence of named counts.
pub open spec fn count_views(v: Seq<(String, usize)>) -> Seq<(Seq<char>, nat)> {
    Seq::new(v.len(), |i: int| (v[i].0@, v[i].1 as nat))
}

/// Counts of the rules that a conversion met.
#[derive(Debug)]
pub struct PatternStatistics {
    /// How many rules the source held.
    pub total_patterns: usize,
    /// How many rules went to the default group.
    pub standard_patterns: usize,
    /// For each other group that got rules, its name and how many.
    pub platform_patterns: Vec<(String, usize)>,
}

impl View for PatternStatistics {
    type V = StatsSpec;

    open spec fn view(&self) -> StatsSpec {
        StatsSpec {
            total: self.total_patterns as nat,
            standard: self.standard_patterns as nat,
            platform: count_views(self.platform_patterns@),
        }
    }
}

impl PatternStatistics {
    /// Statistics of a conversion that has met no rule yet.
    pub fn new() -> (s: Self)
        ensures
            s@ == (StatsSpec { total: 0, standard: 0, platform: Seq::empty() }),
    {
        let s = PatternStatistics {
            total_patterns: 0,
            standard_patterns: 0,
            platform_patterns: Vec::new(),
        };
        assert(count_views(s.platform_patterns@) =~= Seq::empty());
        s
    }
}

/// Whether a line of a legacy file holds rules: it is neither blank nor a
/// comment.
pub open spec fn is_rule_line(line: Seq<char>) -> bool {
    let t = trim(line);
    t.len() > 0 && t[0] != '#'
}

/// The rules of a git-style file: its rule lines, trimmed, in order.
pub open spec fn git_rules(ls: Seq<Seq<char>>) -> Seq<Seq<char>>
    decreases ls.len(),
{
    if ls.len() == 0 {
        Seq::empty()
    } else if is_rule_line(ls.last()) {
        git_rules(ls.drop_last()).push(trim(ls.last()))
    } else {
        git_rules(ls.drop_last())
    }
}

/// What a line of a git-style file puts into the output at once: a blank
/// line an empty line, a comment itself in the form `# text`, a rule
/// nothing.
pub open spec fn echo(line: Seq<char>) -> Seq<char> {
    let t = trim(line);
    if t.len() == 0 {
        "\n"@
    } else if t[0] == '#' {
        "# "@ + trim(t.skip(1)) + "\n"@
    } else {
        Seq::empty()
    }
}

/// What all lines put into the output at once, in order.
pub open spec fn echoes(ls: Seq<Seq<char>>) -> Seq<char>
    decreases ls.len(),
{
    if ls.len() == 0 {
        Seq::empty()
    } else {
        echoes(ls.drop_last()) + echo(ls.last())
    }
}

/// The rules of a bucket: those that classify to it, in order, each once.
pub open spec fn bucket_rules(rules: Seq<Seq<char>>, b: Bucket) -> Seq<Seq<char>>
    decreases rules.len(),
{
    if rules.len() == 0 {
        Seq::empty()
    } else {
        let before = bucket_rules(rules.drop_last(), b);
        if classify(rules.last()) == b && !before.contains(rules.last()) {
            before.push(rules.last())
        } else {
            before
        }
    }
}

/// The lines of a block for the given rules: each indented by four spaces.
pub open spec fn rule_lines(rules: Seq<Seq<char>>) -> Seq<char>
    decreases rules.len(),
{
    if rules.len() == 0 {
        Seq::empty()
    } else {
        rule_lines(rules.drop_last()) + "    "@ + rules.last() + "\n"@
    }
}

/// The block of a bucket in the output of a git-style conversion; nothing
/// for a bucket without rules.
pub open spec fn git_block(b: Bucket, rules: Seq<Seq<char>>) -> Seq<char> {
    if rules.len() == 0 {
        Seq::empty()
    } else {
        "\n["@ + bucket_name(b) + "] {\n    # "@ + bucket_note(b) + "\n"@ + rule_lines(rules)
            + "}\n"@
    }
}

/// The buckets in the order of their blocks in the output.
pub open spec fn bucket_order() -> Seq<Bucket> {
    seq![
        Bucket::Default,
        Bucket::Windows,
        Bucket::Macos,
        Bucket::Linux,
        Bucket::Temporary,
        Bucket::Build,
        Bucket::Logs,
        Bucket::Documentation,
        Bucket::Ide,
    ]
}

/// The blocks of the given buckets, in order.
pub open spec fn git_blocks(rules: Seq<Seq<char>>, order: Seq<Bucket>) -> Seq<char>
    decreases order.len(),
{
    if order.len() == 0 {
        Seq::empty()
    } else {
        git_blocks(rules, order.drop_last()) + git_block(
            order.last(),
            bucket_rules(rules, order.last()),
        )
    }
}

/// The named count of a bucket: none for the default bucket and for a bucket
/// without rules.
pub open spec fn bucket_entry(rules: Seq<Seq<char>>, b: Bucket) -> Seq<(Seq<char>, nat)> {
    let own = bucket_rules(rules, b);
    if b == Bucket::Default || own.len() == 0 {
        Seq::empty()
    } else {
        seq![(bucket_name(b), own.len())]
    }
}

/// The named counts of the given buckets, in order.
pub open spec fn bucket_entries(rules: Seq<Seq<char>>, order: Seq<Bucket>) -> Seq<
    (Seq<char>, nat),
>
    decreases order.len(),
{
    if order.len() == 0 {
        Seq::empty()
    } else {
        bucket_entries(rules, order.drop_last()) + bucket_entry(rules, order.last())
    }
}

/// The header of the output of a git-style conversion.
pub open spec fn git_header(timestamp: Seq<char>) -> Seq<char> {
    "# Converted from .gitignore\n# Format version: 1.0\n# Conversion date: "@ + timestamp
        + "\n\n"@
}

/// The output of a git-style conversion: the header, what the lines put out
/// at once, and the blocks of the buckets that got rules, in fixed order.
pub open spec fn git_output(content: Seq<char>, timestamp: Seq<char>) -> Seq<char> {
    let ls = lines(content);
    git_header(timestamp) + echoes(ls) + git_blocks(git_rules(ls), bucket_order())
}

/// The statistics of a git-style conversion. Every rule line counts for the
/// total, a repeated one too; a group counts each of its rules once.
pub open spec fn git_stats(content: Seq<char>) -> StatsSpec {
    let rules = git_rules(lines(content));
    StatsSpec {
        total: rules.len(),
        standard: bucket_rules(rules, Bucket::Default).len(),
        platform: bucket_entries(rules, bucket_order()),
    }
}

/// Executable form of [`bucket_order`].
pub fn bucket_sequence() -> (order: Vec<Bucket>)
    ensures
        order@ == bucket_order(),
{
    let mut order: Vec<Bucket> = Vec::new();
    order.push(Bucket::Default);
    order.push(Bucket::Windows);
    order.push(Bucket::Macos);
    order.push(Bucket::Linux);
    order.push(Bucket::Temporary);
    order.push(Bucket::Build);
    order.push(Bucket::Logs);
    order.push(Bucket::Documentation);
    order.push(Bucket::Ide);
    assert(order@ =~= bucket_order());
    order
}

/// The rules of a bucket, from the rules and their buckets.
fn collect_bucket(rules: &Vec<Vec<char>>, kinds: &Vec<Bucket>, b: Bucket) -> (r: Vec<
    Vec<char>,
>)
    requires
        kinds.len() == rules.len(),
        forall|j: int| 0 <= j < rules.len() ==> #[trigger] kinds@[j] == classify(rules@[j]@),
    ensures
        views(r@) == bucket_rules(views(rules@), b),
{
    let ghost vs = views(rules@);
    let mut r: Vec<Vec<char>> = Vec::new();
    let mut i: usize = 0;
    assert(vs.take(0) =~= Seq::<Seq<char>>::empty());
    assert(views(r@) =~= Seq::<Seq<char>>::empty());
    while i < rules.len()
        invariant
            i <= rules.len(),
            kinds.len() == rules.len(),
            vs == views(rules@),
            forall|j: int| 0 <= j < rules.len() ==> #[trigger] kinds@[j] == classify(rules@[j]@),
            views(r@) == bucket_rules(vs.take(i as int), b),
        decreases rules.len() - i,
    {
        proof {
            assert(vs.take(i + 1).drop_last() =~= vs.take(i as int));
            assert(vs.take(i + 1).last() == rules@[i as int]@);
            assert(kinds@[i as int] == classify(rules@[i as int]@));
        }
        if kinds[i] == b && !holds_text(&r, rules[i].as_slice()) {
            let ghost before = views(r@);
            r.push(copy_chars(rules[i].as_slice()));
            assert(views(r@) =~= before.push(rules@[i as int]@));
        }
        i += 1;
    }
    assert(vs.take(rules.len() as int) =~= vs);
    r
}

/// Appends the lines of a block for the given rules.
pub fn append_rule_lines(out: &mut String, rules: &Vec<Vec<char>>)
    ensures
        final(out)@ == old(out)@ + rule_lines(views(rules@)),
{
    let ghost vs = views(rules@);
    let mut i: usize = 0;
    assert(vs.take(0) =~= Seq::<Seq<char>>::empty());
    assert(out@ =~= old(out)@ + rule_lines(vs.take(0)));
    while i < rules.len()
        invariant
            i <= rules.len(),
            vs == views(rules@),
            out@ == old(out)@ + rule_lines(vs.take(i as int)),
        decreases rules.len() - i,
    {
        let ghost before = out@;
        out.append("    ");
        append_chars(out, rules[i].as_slice());
        out.append("\n");
        proof {
            assert(vs.take(i + 1).drop_last() =~= vs.take(i as int));
            assert(vs.take(i + 1).last() == rules@[i as int]@);
            assert(out@ =~= old(out)@ + rule_lines(vs.take(i + 1)));
        }
        i += 1;
    }
    assert(vs.take(rules.len() as int) =~= vs);
}

/// Appends the block of a bucket.
pub fn append_git_block(out: &mut String, b: Bucket, rules: &Vec<Vec<char>>)
    ensures
        final(out)@ == old(out)@ + git_block(b, views(rules@)),
{
    if rules.len() == 0 {
        assert(out@ =~= old(out)@ + git_block(b, views(rules@)));
        return ;
    }
    out.append("\n[");
    out.append(bucket_label(b));
    out.append("] {\n    # ");
    out.append(bucket_comment(b));
    out.append("\n");
    append_rule_lines(out, rules);
    out.append("}\n");
    assert(out@ =~= old(out)@ + git_block(b, views(rules@)));
}

/// The converter of legacy ignore files.
#[derive(Debug)]
pub struct IgnoreConverter {}

impl IgnoreConverter {
    /// A converter.
    pub fn new() -> (c: Self) {
        IgnoreConverter {  }
    }

    /// Converts the text of a git-style file. `timestamp` is the text that
    /// the header gives as the date of the conversion.
    pub fn convert_from_git(&self, content: &str, timestamp: &str) -> (r: (
        String,
        PatternStatistics,
    ))
        ensures
            r.0@ == git_output(content@, timestamp@),
            r.1@ == git_stats(content@),
            distinct_names(r.1@.platform),
    {
        let all = to_chars(content);
        let ls = split_lines(all.as_slice());
        let ghost lv = views(ls@);
        let mut out = String::new();
        out.append("# Converted from .gitignore\n# Format version: 1.0\n# Conversion date: ");
        out.append(timestamp);
        out.append("\n\n");
        let mut rules: Vec<Vec<char>> = Vec::new();
        let mut kinds: Vec<Bucket> = Vec::new();
        let mut i: usize = 0;
        proof {
            assert(lv.take(0) =~= Seq::<Seq<char>>::empty());
            assert(out@ =~= git_header(timestamp@) + echoes(lv.take(0)));
            assert(views(rules@) =~= git_rules(lv.take(0)));
        }
        while i < ls.len()
            invariant
                i <= ls.len(),
                lv == views(ls@),
                out@ == git_header(timestamp@) + echoes(lv.take(i as int)),
                views(rules@) == git_rules(lv.take(i as int)),
                kinds.len() == rules.len(),
                forall|j: int|
                    0 <= j < rules.len() ==> #[trigger] kinds@[j] == classify(rules@[j]@),
            decreases ls.len() - i,
        {
            let line = ls[i].as_slice();
            let t = trim_chars(line);
            let ghost before = out@;
            let ghost rules_before = views(rules@);
            proof {
                assert(lv.take(i + 1).drop_last() =~= lv.take(i as int));
                assert(lv.take(i + 1).last() == line@);
            }
            if t.len() == 0 {
                out.append("\n");
            } else if t[0] == '#' {
                let tail = vstd::slice::slice_subrange(t, 1, t.len());
                assert(tail@ =~= t@.skip(1));
                let comment = trim_chars(tail);
                out.append("# ");
                append_chars(&mut out, comment);
                out.append("\n");
                assert(out@ =~= before + echo(line@));
            } else {
                let kind = classify_rule(t);
                rules.push(copy_chars(t));
                kinds.push(kind);
                assert(views(rules@) =~= rules_before.push(t@));
                assert(out@ =~= before + echo(line@));
            }
            assert(out@ =~= git_header(timestamp@) + echoes(lv.take(i + 1)));
            i += 1;
        }
        assert(lv.take(ls.len() as int) =~= lv);
        let order = bucket_sequence();
        let mut stats = PatternStatistics::new();
        stats.total_patterns = rules.len();
        let ghost rv = views(rules@);
        let ghost base = out@;
        let mut k: usize = 0;
        proof {
            assert(order@.take(0) =~= Seq::<Bucket>::empty());
            assert(out@ =~= base + git_blocks(rv, order@.take(0)));
            assert(count_views(stats.platform_patterns@) =~= bucket_entries(rv, order@.take(0)));
        }
        while k < order.len()
            invariant
                k <= order.len(),
                order@ == bucket_order(),
                rv == views(rules@),
                kinds.len() == rules.len(),
                forall|j: int|
                    0 <= j < rules.len() ==> #[trigger] kinds@[j] == classify(rules@[j]@),
                out@ == base + git_blocks(rv, order@.take(k as int)),
                stats.total_patterns == rules.len(),
                k == 0 ==> stats.standard_patterns == 0,
                k > 0 ==> stats.standard_patterns == bucket_rules(rv, Bucket::Default).len(),
                count_views(stats.platform_patterns@) == bucket_entries(rv, order@.take(k as int)),
            decreases order.len() - k,
        {
            let b = order[k];
            let own = collect_bucket(&rules, &kinds, b);
            let ghost before = out@;
            let ghost counts_before = count_views(stats.platform_patterns@);
            proof {
                assert(order@.take(k + 1).drop_last() =~= order@.take(k as int));
                assert(order@.take(k + 1).last() == b);
                assert(views(own@).len() == own.len());
            }
            append_git_block(&mut out, b, &own);
            if b == Bucket::Default {
                stats.standard_patterns = own.len();
            } else if own.len() > 0 {
                stats.platform_patterns.push((bucket_label(b).to_owned(), own.len()));
                assert(count_views(stats.platform_patterns@) =~= counts_before.push(
                    (bucket_name(b), own.len() as nat),
                ));
            }
            proof {
                assert(out@ =~= base + git_blocks(rv, order@.take(k + 1)));
                assert(count_views(stats.platform_patterns@) =~= bucket_entries(
                    rv,
                    order@.take(k + 1),
                ));
            }
            k += 1;
        }
        proof {
            assert(order@.take(order.len() as int) =~= order@);
            assert(out@ =~= git_output(content@, timestamp@));
            lemma_bucket_entries(rv, bucket_order());
        }
        (out, stats)
    }
}

impl Default for IgnoreConverter {
    fn default() -> Self {
        IgnoreConverter::new()
    }
}


/// What one character of a comment becomes in a group name: an alphanumeric
/// character itself, an ASCII capital in lower case; white space `_`; any
/// other character nothing.
pub open spec fn slug_piece(c: char) -> Seq<char> {
    if is_alphanumeric(c) {
        seq![ascii_lower(c)]
    } else if is_space(c) {
        seq!['_']
    } else {
        Seq::empty()
    }
}

/// The pieces of all characters of a text, in order.
pub open spec fn slug_chars(s: Seq<char>) -> Seq<char>
    decreases s.len(),
{
    if s.len() == 0 {
        Seq::empty()
    } else {
        slug_chars(s.drop_last()) + slug_piece(s.last())
    }
}

/// The group name for a comment: its pieces, or `default` where there are
/// none.
pub open spec fn slug(s: Seq<char>) -> Seq<char> {
    if slug_chars(s).len() == 0 {
        "default"@
    } else {
        slug_chars(s)
    }
}

/// Executable form of [`slug`].
pub fn slug_of(text: &[char]) -> (r: Vec<char>)
    ensures
        r@ == slug(text@),
{
    let mut r: Vec<char> = Vec::new();
    let mut i: usize = 0;
    assert(text@.take(0) =~= Seq::<char>::empty());
    while i < text.len()
        invariant
            i <= text.len(),
            r@ == slug_chars(text@.take(i as int)),
        decreases text.len() - i,
    {
        let c = text[i];
        proof {
            assert(text@.take(i + 1).drop_last() =~= text@.take(i as int));
            assert(text@.take(i + 1).last() == c);
        }
        let ghost before = r@;
        if is_alphanumeric_char(c) {
            r.push(ascii_lower_char(c));
            assert(r@ =~= before + slug_piece(c));
        } else if is_space_char(c) {
            r.push('_');
            assert(r@ =~= before + slug_piece(c));
        } else {
            assert(r@ =~= before + slug_piece(c));
        }
        i += 1;
    }
    assert(text@.take(text.len() as int) =~= text@);
    if r.len() == 0 {
        return to_chars("default");
    }
    r
}

/// The text without its leading `#` characters.
pub open spec fn strip_hashes(s: Seq<char>) -> Seq<char>
    decreases s.len(),
{
    if s.len() > 0 && s[0] == '#' {
        strip_hashes(s.drop_first())
    } else {
        s
    }
}

/// Skipping a leading run of `#` gives the stripped text when the character
/// after the run, if any, is not `#`.
pub proof fn lemma_strip_hashes_at(s: Seq<char>, k: int)
    requires
        0 <= k <= s.len(),
        forall|j: int| 0 <= j < k ==> #[trigger] s[j] == '#',
        k == s.len() || s[k] != '#',
    ensures
        strip_hashes(s) == s.skip(k),
    decreases k,
{
    if k == 0 {
        assert(s.skip(0) =~= s);
    } else {
        let t = s.drop_first();
        assert forall|j: int| 0 <= j < k - 1 implies #[trigger] t[j] == '#' by {
            assert(t[j] == s[j + 1]);
        }
        lemma_strip_hashes_at(t, k - 1);
        assert(t.skip(k - 1) =~= s.skip(k));
    }
}

/// Executable form of [`strip_hashes`].
pub fn strip_hashes_chars(v: &[char]) -> (r: &[char])
    ensures
        r@ == strip_hashes(v@),
{
    let mut k: usize = 0;
    while k < v.len() && v[k] == '#'
        invariant
            k <= v.len(),
            forall|j: int| 0 <= j < k ==> #[trigger] v@[j] == '#',
        decreases v.len() - k,
    {
        k += 1;
    }
    proof {
        lemma_strip_hashes_at(v@, k as int);
    }
    vstd::slice::slice_subrange(v, k, v.len())
}

/// The group that a comment names: the slug of its text, which is the
/// trimmed comment without its leading `#` characters and the white space
/// after them. A comment without text names the default group.
pub open spec fn comment_group(t: Seq<char>) -> Seq<char> {
    slug(trim(strip_hashes(t)))
}

/// Whether a line of a legacy file is a comment: its first character that
/// is not white space is `#`.
pub open spec fn is_comment_line(line: Seq<char>) -> bool {
    let t = trim(line);
    t.len() > 0 && t[0] == '#'
}

/// The group that rules go to after one more line: a comment sets it at
/// once, and any other line, blank or not, leaves it as it is.
pub open spec fn svn_step(current: Seq<char>, line: Seq<char>) -> Seq<char> {
    if is_comment_line(line) {
        comment_group(trim(line))
    } else {
        current
    }
}

/// The group that rules go to after the given lines: the one that the last
/// comment names, and the default group where there is no comment.
pub open spec fn svn_group(ls: Seq<Seq<char>>) -> Seq<char>
    decreases ls.len(),
{
    if ls.len() == 0 {
        "default"@
    } else {
        svn_step(svn_group(ls.drop_last()), ls.last())
    }
}

/// A rule together with the name of the group it was put in.
pub struct Assigned {
    /// The group's name.
    pub group: Seq<char>,
    /// The rule.
    pub rule: Seq<char>,
}

/// The given rules, each put in the named group.
pub open spec fn assign_all(group: Seq<char>, rules: Seq<Seq<char>>) -> Seq<Assigned> {
    Seq::new(rules.len(), |i: int| Assigned { group, rule: rules[i] })
}

/// The rules of an svn-style file with their groups, in order: each word of
/// a rule line is a rule of the group that the last comment before the line
/// names.
pub open spec fn svn_assigned(ls: Seq<Seq<char>>) -> Seq<Assigned>
    decreases ls.len(),
{
    if ls.len() == 0 {
        Seq::empty()
    } else if is_rule_line(ls.last()) {
        svn_assigned(ls.drop_last()) + assign_all(svn_group(ls), words(ls.last()))
    } else {
        svn_assigned(ls.drop_last())
    }
}

/// The rules that were put in the named group, in order.
pub open spec fn members(a: Seq<Assigned>, group: Seq<char>) -> Seq<Seq<char>>
    decreases a.len(),
{
    if a.len() == 0 {
        Seq::empty()
    } else if a.last().group == group {
        members(a.drop_last(), group).push(a.last().rule)
    } else {
        members(a.drop_last(), group)
    }
}

/// Whether the rule at index `k` is the first of its group.
pub open spec fn opens_group(a: Seq<Assigned>, k: int) -> bool {
    forall|j: int| 0 <= j < k ==> (#[trigger] a[j]).group != a[k].group
}

/// The block of a group in the output of an svn-style conversion.
pub open spec fn svn_block(name: Seq<char>, rules: Seq<Seq<char>>) -> Seq<char> {
    "["@ + name + "] {\n"@ + rule_lines(rules) + "}\n\n"@
}

/// The blocks of the groups whose first rule stands before index `k`, in the
/// order of those first rules.
pub open spec fn svn_blocks(a: Seq<Assigned>, k: int) -> Seq<char>
    decreases k,
{
    if k <= 0 {
        Seq::empty()
    } else if opens_group(a, k - 1) {
        svn_blocks(a, k - 1) + svn_block(a[k - 1].group, members(a, a[k - 1].group))
    } else {
        svn_blocks(a, k - 1)
    }
}

/// The named counts of the groups other than the default group whose first
/// rule stands before index `k`, in the order of those first rules.
pub open spec fn svn_entries(a: Seq<Assigned>, k: int) -> Seq<(Seq<char>, nat)>
    decreases k,
{
    if k <= 0 {
        Seq::empty()
    } else if opens_group(a, k - 1) && a[k - 1].group != "default"@ {
        svn_entries(a, k - 1).push((a[k - 1].group, members(a, a[k - 1].group).len()))
    } else {
        svn_entries(a, k - 1)
    }
}

/// The header of the output of an svn-style conversion.
pub open spec fn svn_header(timestamp: Seq<char>) -> Seq<char> {
    "# Archivo .DotIgnore convertido desde .svnignore\n# Fecha de conversión: "@ + timestamp
        + "\n\n"@
}

/// The empty block for the default group, or nothing where the group got a
/// rule and so has a block of its own.
pub open spec fn svn_default_block(a: Seq<Assigned>) -> Seq<char> {
    if members(a, "default"@).len() == 0 {
        "[default] {\n    # Default patterns\n}\n\n"@
    } else {
        Seq::empty()
    }
}

/// The output of an svn-style conversion: the header and one block for each
/// group, in the order in which the groups got their first rule. Where the
/// default group got no rule, an empty block for it stands first among the
/// blocks.
pub open spec fn svn_output(content: Seq<char>, timestamp: Seq<char>) -> Seq<char> {
    let a = svn_assigned(lines(content));
    svn_header(timestamp) + svn_default_block(a) + svn_blocks(a, a.len() as int)
}

/// The statistics of an svn-style conversion.
pub open spec fn svn_stats(content: Seq<char>) -> StatsSpec {
    let a = svn_assigned(lines(content));
    StatsSpec {
        total: a.len(),
        standard: members(a, "default"@).len(),
        platform: svn_entries(a, a.len() as int),
    }
}

/// A rule of an svn-style file with the name of its group.
#[derive(Debug)]
pub struct SvnRule {
    /// The group's name.
    pub group: Vec<char>,
    /// The rule.
    pub rule: Vec<char>,
}

impl View for SvnRule {
    type V = Assigned;

    open spec fn view(&self) -> Assigned {
        Assigned { group: self.group@, rule: self.rule@ }
    }
}

/// The values of a sequence of rules with groups.
pub open spec fn assigned_views(v: Seq<SvnRule>) -> Seq<Assigned> {
    Seq::new(v.len(), |i: int| v[i]@)
}

/// The rules of an svn-style file with their groups.
pub fn assign_svn(ls: &Vec<Vec<char>>) -> (a: Vec<SvnRule>)
    ensures
        assigned_views(a@) == svn_assigned(views(ls@)),
{
    let ghost lv = views(ls@);
    let mut a: Vec<SvnRule> = Vec::new();
    let mut current: Vec<char> = to_chars("default");
    let mut i: usize = 0;
    proof {
        assert(lv.take(0) =~= Seq::<Seq<char>>::empty());
        assert(assigned_views(a@) =~= svn_assigned(lv.take(0)));
    }
    while i < ls.len()
        invariant
            i <= ls.len(),
            lv == views(ls@),
            assigned_views(a@) == svn_assigned(lv.take(i as int)),
            svn_group(lv.take(i as int)) == current@,
        decreases ls.len() - i,
    {
        let line = ls[i].as_slice();
        let t = trim_chars(line);
        proof {
            assert(lv.take(i + 1).drop_last() =~= lv.take(i as int));
            assert(lv.take(i + 1).last() == line@);
        }
        if t.len() > 0 && t[0] == '#' {
            current = slug_of(trim_chars(strip_hashes_chars(t)));
        } else if t.len() > 0 {
            let ws = split_words(line);
            let ghost start = assigned_views(a@);
            let mut k: usize = 0;
            assert(start + assign_all(current@, views(ws@)).take(0) =~= start);
            while k < ws.len()
                invariant
                    k <= ws.len(),
                    assigned_views(a@) == start + assign_all(current@, views(ws@)).take(k as int),
                decreases ws.len() - k,
            {
                let ghost before = assigned_views(a@);
                let item = SvnRule {
                    group: copy_chars(current.as_slice()),
                    rule: copy_chars(ws[k].as_slice()),
                };
                a.push(item);
                proof {
                    assert(assigned_views(a@) =~= before.push(
                        Assigned { group: current@, rule: ws@[k as int]@ },
                    ));
                    assert(start + assign_all(current@, views(ws@)).take(k + 1) =~= before.push(
                        Assigned { group: current@, rule: ws@[k as int]@ },
                    ));
                }
                k += 1;
            }
            assert(assign_all(current@, views(ws@)).take(ws.len() as int) =~= assign_all(
                current@,
                views(ws@),
            ));
        }
        i += 1;
    }
    assert(lv.take(ls.len() as int) =~= lv);
    a
}

/// The rules that were put in the named group.
pub fn members_of(a: &Vec<SvnRule>, group: &[char]) -> (r: Vec<Vec<char>>)
    ensures
        views(r@) == members(assigned_views(a@), group@),
{
    let ghost av = assigned_views(a@);
    let mut r: Vec<Vec<char>> = Vec::new();
    let mut i: usize = 0;
    proof {
        assert(av.take(0) =~= Seq::<Assigned>::empty());
        assert(views(r@) =~= members(av.take(0), group@));
    }
    while i < a.len()
        invariant
            i <= a.len(),
            av == assigned_views(a@),
            views(r@) == members(av.take(i as int), group@),
        decreases a.len() - i,
    {
        proof {
            assert(av.take(i + 1).drop_last() =~= av.take(i as int));
            assert(av.take(i + 1).last() == a@[i as int]@);
        }
        if same_chars(a[i].group.as_slice(), group) {
            let ghost before = views(r@);
            r.push(copy_chars(a[i].rule.as_slice()));
            assert(views(r@) =~= before.push(a@[i as int]@.rule));
        }
        i += 1;
    }
    assert(av.take(a.len() as int) =~= av);
    r
}

/// Whether the rule at index `k` is the first of its group.
fn opens_group_at(a: &Vec<SvnRule>, k: usize) -> (r: bool)
    requires
        k < a.len(),
    ensures
        r == opens_group(assigned_views(a@), k as int),
{
    let ghost av = assigned_views(a@);
    let mut j: usize = 0;
    while j < k
        invariant
            j <= k < a.len(),
            av == assigned_views(a@),
            forall|m: int| 0 <= m < j ==> (#[trigger] av[m]).group != av[k as int].group,
        decreases k - j,
    {
        if same_chars(a[j].group.as_slice(), a[k].group.as_slice()) {
            assert(av[j as int].group == av[k as int].group);
            return false;
        }
        j += 1;
    }
    true
}

impl IgnoreConverter {
    /// The group name for the text of a comment.
    pub fn slugify(&self, text: &str) -> (r: String)
        ensures
            r@ == slug(text@),
    {
        let chars = to_chars(text);
        from_chars(slug_of(chars.as_slice()).as_slice())
    }

    /// Converts the text of an svn-style file. `timestamp` is the text that
    /// the header gives as the date of the conversion.
    pub fn convert_from_svn(&self, content: &str, timestamp: &str) -> (r: (
        String,
        PatternStatistics,
    ))
        ensures
            r.0@ == svn_output(content@, timestamp@),
            r.1@ == svn_stats(content@),
            distinct_names(r.1@.platform),
            r.1@.total == r.1@.standard + count_sum(r.1@.platform),
    {
        let all = to_chars(content);
        let ls = split_lines(all.as_slice());
        let a = assign_svn(&ls);
        let ghost av = assigned_views(a@);
        let default_name = to_chars("default");
        let standard = members_of(&a, default_name.as_slice());
        let mut out = String::new();
        out.append("# Archivo .DotIgnore convertido desde .svnignore\n# Fecha de conversión: ");
        out.append(timestamp);
        out.append("\n\n");
        if standard.len() == 0 {
            out.append("[default] {\n    # Default patterns\n}\n\n");
        }
        let ghost lead = out@;
        let mut stats = PatternStatistics::new();
        stats.total_patterns = a.len();
        stats.standard_patterns = standard.len();
        let mut k: usize = 0;
        proof {
            assert(views(standard@).len() == standard.len());
            assert(lead =~= svn_header(timestamp@) + svn_default_block(av));
            assert(out@ =~= lead + svn_blocks(av, 0));
            assert(count_views(stats.platform_patterns@) =~= svn_entries(av, 0));
        }
        while k < a.len()
            invariant
                k <= a.len(),
                av == assigned_views(a@),
                default_name@ == "default"@,
                lead == svn_header(timestamp@) + svn_default_block(av),
                out@ == lead + svn_blocks(av, k as int),
                stats.total_patterns == a.len(),
                stats.standard_patterns == members(av, "default"@).len(),
                count_views(stats.platform_patterns@) == svn_entries(av, k as int),
            decreases a.len() - k,
        {
            if opens_group_at(&a, k) {
                let name = a[k].group.as_slice();
                let own = members_of(&a, name);
                let ghost before = out@;
                let ghost counts_before = count_views(stats.platform_patterns@);
                out.append("[");
                append_chars(&mut out, name);
                out.append("] {\n");
                append_rule_lines(&mut out, &own);
                out.append("}\n\n");
                proof {
                    assert(views(own@).len() == own.len());
                    assert(out@ =~= before + svn_block(name@, views(own@)));
                    assert(out@ =~= lead + svn_blocks(av, k + 1));
                }
                if !same_chars(name, default_name.as_slice()) {
                    stats.platform_patterns.push((from_chars(name), own.len()));
                    assert(count_views(stats.platform_patterns@) =~= counts_before.push(
                        (name@, own.len() as nat),
                    ));
                }
            }
            k += 1;
        }
        proof {
            assert(out@ =~= svn_output(content@, timestamp@));
            lemma_svn_entries(av, a.len() as int);
            lemma_svn_counts_add_up(av);
        }
        (out, stats)
    }
}


/// The summary of a conversion.
#[derive(Debug)]
pub struct ConversionResult {
    /// The path of the file that was converted.
    pub source_file: String,
    /// The path that the output is meant for.
    pub destination_file: String,
    /// How many rules the source held.
    pub pattern_count: usize,
    /// How many rules went to the default group.
    pub standard_patterns: usize,
    /// For each other group that got rules, its name and how many.
    pub platform_patterns: Vec<(String, usize)>,
}

impl ConversionResult {
    /// The counts of the summary.
    pub open spec fn stats(&self) -> StatsSpec {
        StatsSpec {
            total: self.pattern_count as nat,
            standard: self.standard_patterns as nat,
            platform: count_views(self.platform_patterns@),
        }
    }

    /// The summary of a conversion from `source_path` for `destination_path`
    /// with the given statistics.
    pub fn from_statistics(source_path: &str, destination_path: &str, stats: PatternStatistics)
        -> (r: Self)
        ensures
            r.stats() == stats@,
            r.source_file@ == source_path@,
            r.destination_file@ == destination_path@,
    {
        ConversionResult {
            source_file: source_path.to_owned(),
            destination_file: destination_path.to_owned(),
            pattern_count: stats.total_patterns,
            standard_patterns: stats.standard_patterns,
            platform_patterns: stats.platform_patterns,
        }
    }

    /// How many rules the source held.
    pub fn patterns_converted(&self) -> (n: usize)
        ensures
            n == self.pattern_count,
    {
        self.pattern_count
    }

    /// How many groups other than the default group got rules.
    pub fn groups_created(&self) -> (n: usize)
        ensures
            n == self.platform_patterns@.len(),
    {
        self.platform_patterns.len()
    }
}

/// The name of the file that a path leads to, in lower case.
pub open spec fn file_name_lower(path: Seq<char>) -> Seq<char> {
    ascii_lower_text(last_segment(path))
}

/// The legacy format that the name of a file tells: git-style where the name
/// holds `git`, else svn-style where it holds `svn`, in any case of letters;
/// none otherwise. Only the last segment of the path counts.
pub open spec fn format_of(path: Seq<char>) -> Option<IgnoreFormat> {
    let name = file_name_lower(path);
    if contains_text(name, "git"@) {
        Some(IgnoreFormat::Git)
    } else if contains_text(name, "svn"@) {
        Some(IgnoreFormat::Svn)
    } else {
        None
    }
}

/// The output of converting a file of the given legacy format.
pub open spec fn converted_text(format: IgnoreFormat, content: Seq<char>, timestamp: Seq<char>)
    -> Seq<char> {
    if format == IgnoreFormat::Git {
        git_output(content, timestamp)
    } else {
        svn_output(content, timestamp)
    }
}

/// The statistics of converting a file of the given legacy format.
pub open spec fn converted_stats(format: IgnoreFormat, content: Seq<char>) -> StatsSpec {
    if format == IgnoreFormat::Git {
        git_stats(content)
    } else {
        svn_stats(content)
    }
}

impl IgnoreConverter {
    /// The legacy format of the file at `path`, told from its name.
    pub fn determine_format(&self, path: &str) -> (r: Result<IgnoreFormat, IgnoreError>)
        ensures
            match r {
                Ok(f) => format_of(path@) == Some(f),
                Err(e) => {
                    &&& format_of(path@) is None
                    &&& e matches IgnoreError::UnsupportedFormat(name)
                    &&& name@ == file_name_lower(path@)
                },
            },
    {
        let chars = to_chars(path);
        let name = ascii_lower_chars(last_segment_chars(chars.as_slice()));
        if contains_str(name.as_slice(), "git") {
            Ok(IgnoreFormat::Git)
        } else if contains_str(name.as_slice(), "svn") {
            Ok(IgnoreFormat::Svn)
        } else {
            Err(IgnoreError::UnsupportedFormat(from_chars(name.as_slice())))
        }
    }

    /// Converts the text of the legacy file at `source_path`, whose name
    /// tells the format, and sums the conversion up. Fails, before anything
    /// is converted, where the name tells no format.
    pub fn convert_text(
        &self,
        source_path: &str,
        destination_path: &str,
        content: &str,
        timestamp: &str,
    ) -> (r: Result<(String, ConversionResult), IgnoreError>)
        ensures
            match r {
                Ok(done) => {
                    &&& format_of(source_path@) matches Some(f)
                    &&& done.0@ == converted_text(f, content@, timestamp@)
                    &&& done.1.stats() == converted_stats(f, content@)
                    &&& distinct_names(done.1.stats().platform)
                    &&& done.1.source_file@ == source_path@
                    &&& done.1.destination_file@ == destination_path@
                },
                Err(e) => {
                    &&& format_of(source_path@) is None
                    &&& e matches IgnoreError::UnsupportedFormat(name)
                    &&& name@ == file_name_lower(source_path@)
                },
            },
    {
        let format = match self.determine_format(source_path) {
            Ok(f) => f,
            Err(e) => {
                return Err(e);
            },
        };
        let (text, stats) = match format {
            IgnoreFormat::Git => self.convert_from_git(content, timestamp),
            _ => self.convert_from_svn(content, timestamp),
        };
        Ok((text, ConversionResult::from_statistics(source_path, destination_path, stats)))
    }
}

/// The format that a word names, in any case of letters: `git`, `svn` or
/// `vcs`.
pub open spec fn format_named(word: Seq<char>) -> Option<IgnoreFormat> {
    let w = ascii_lower_text(word);
    if w == "git"@ {
        Some(IgnoreFormat::Git)
    } else if w == "svn"@ {
        Some(IgnoreFormat::Svn)
    } else if w == "vcs"@ {
        Some(IgnoreFormat::Vcs)
    } else {
        None
    }
}

/// The legacy format that a word names, in any case of letters: `git` or
/// `svn`.
pub open spec fn legacy_named(word: Seq<char>) -> Option<IgnoreFormat> {
    match format_named(word) {
        Some(IgnoreFormat::Git) => Some(IgnoreFormat::Git),
        Some(IgnoreFormat::Svn) => Some(IgnoreFormat::Svn),
        _ => None,
    }
}

/// The name of the file that holds rules of a format.
pub open spec fn format_file_name(format: IgnoreFormat) -> Seq<char> {
    match format {
        IgnoreFormat::Git => ".gitignore"@,
        IgnoreFormat::Svn => ".svnignore"@,
        IgnoreFormat::Vcs => ".ignore"@,
    }
}

impl IgnoreFormat {
    /// The format that a word names.
    pub fn from_word(word: &str) -> (r: Result<IgnoreFormat, IgnoreError>)
        ensures
            match r {
                Ok(f) => format_named(word@) == Some(f),
                Err(e) => {
                    &&& format_named(word@) is None
                    &&& e matches IgnoreError::UnsupportedFormat(name)
                    &&& name@ == word@
                },
            },
    {
        let chars = to_chars(word);
        let w = ascii_lower_chars(chars.as_slice());
        let git = to_chars("git");
        let svn = to_chars("svn");
        let vcs = to_chars("vcs");
        if same_chars(w.as_slice(), git.as_slice()) {
            Ok(IgnoreFormat::Git)
        } else if same_chars(w.as_slice(), svn.as_slice()) {
            Ok(IgnoreFormat::Svn)
        } else if same_chars(w.as_slice(), vcs.as_slice()) {
            Ok(IgnoreFormat::Vcs)
        } else {
            Err(IgnoreError::UnsupportedFormat(word.to_owned()))
        }
    }

    /// The name of the file that holds rules of the format.
    pub fn file_name(&self) -> (r: &'static str)
        ensures
            r@ == format_file_name(*self),
    {
        match self {
            IgnoreFormat::Git => ".gitignore",
            IgnoreFormat::Svn => ".svnignore",
            IgnoreFormat::Vcs => ".ignore",
        }
    }
}

/// The path of the file of the given name in the directory of `path`: the
/// path with its last segment replaced by the name.
pub open spec fn sibling(path: Seq<char>, name: Seq<char>) -> Seq<char> {
    path.take(path.len() - last_segment(path).len()) + name
}

/// The path of the file of the given name beside the file at `path`.
pub fn sibling_path(path: &str, name: &str) -> (r: String)
    ensures
        r@ == sibling(path@, name@),
{
    let chars = to_chars(path);
    let last = last_segment_chars(chars.as_slice()).len();
    proof {
        crate::text::lemma_last_segment_len(chars@);
    }
    let dir = vstd::slice::slice_subrange(chars.as_slice(), 0, chars.len() - last);
    let mut r = from_chars(dir);
    r.append(name);
    r
}

/// Whether a file name is one that a walk through a directory converts:
/// `.gitignore` or `.svnignore`.
pub open spec fn is_legacy_name(name: Seq<char>) -> bool {
    name == ".gitignore"@ || name == ".svnignore"@
}

/// Whether a walk through a directory converts the file of this name.
pub fn is_legacy_file_name(name: &str) -> (r: bool)
    ensures
        r == is_legacy_name(name@),
{
    let n = to_chars(name);
    let git = to_chars(".gitignore");
    let svn = to_chars(".svnignore");
    same_chars(n.as_slice(), git.as_slice()) || same_chars(n.as_slice(), svn.as_slice())
}


/// Whether no name occurs twice among named counts.
pub open spec fn distinct_names(counts: Seq<(Seq<char>, nat)>) -> bool {
    forall|i: int, j: int|
        0 <= i < j < counts.len() ==> (#[trigger] counts[i]).0 != (#[trigger] counts[j]).0
}

/// Different buckets have different names.
pub proof fn lemma_bucket_names_differ(a: Bucket, b: Bucket)
    requires
        a != b,
    ensures
        bucket_name(a) != bucket_name(b),
{
    reveal_strlit("default");
    reveal_strlit("windows_files");
    reveal_strlit("macos_files");
    reveal_strlit("linux_files");
    reveal_strlit("temporary_files");
    reveal_strlit("build_artifacts");
    reveal_strlit("logs");
    reveal_strlit("documentation");
    reveal_strlit("ide_files");
    let x = bucket_name(a);
    let y = bucket_name(b);
    if x.len() == y.len() {
        assert(x[0] != y[0]);
    }
}

/// The named counts of buckets that are all different name each bucket at
/// most once, leave out the default bucket, and give for each name the
/// number, not zero, of the bucket's rules.
pub proof fn lemma_bucket_entries(rules: Seq<Seq<char>>, order: Seq<Bucket>)
    requires
        forall|i: int, j: int| 0 <= i < j < order.len() ==> order[i] != order[j],
    ensures
        distinct_names(bucket_entries(rules, order)),
        forall|e: int|
            0 <= e < bucket_entries(rules, order).len() ==> exists|m: int|
                0 <= m < order.len() && order[m] != Bucket::Default && (#[trigger] bucket_entries(
                    rules,
                    order,
                )[e]) == (bucket_name(order[m]), bucket_rules(rules, order[m]).len()) && bucket_rules(
                    rules,
                    order[m],
                ).len() > 0,
    decreases order.len(),
{
    if order.len() > 0 {
        let front = order.drop_last();
        let last = order.last();
        lemma_bucket_entries(rules, front);
        let before = bucket_entries(rules, front);
        let all = bucket_entries(rules, order);
        assert forall|e: int| 0 <= e < all.len() implies exists|m: int|
            0 <= m < order.len() && order[m] != Bucket::Default && (#[trigger] all[e]) == (
                bucket_name(order[m]),
                bucket_rules(rules, order[m]).len(),
            ) && bucket_rules(rules, order[m]).len() > 0 by {
            if e < before.len() {
                let m = choose|m: int|
                    0 <= m < front.len() && front[m] != Bucket::Default && before[e] == (
                        bucket_name(front[m]),
                        bucket_rules(rules, front[m]).len(),
                    ) && bucket_rules(rules, front[m]).len() > 0;
                assert(order[m] == front[m]);
            } else {
                assert(order[order.len() - 1] == last);
            }
        }
        assert forall|i: int, j: int| 0 <= i < j < all.len() implies (#[trigger] all[i]).0 != (
            #[trigger] all[j]).0 by {
            if j >= before.len() {
                let m = choose|m: int|
                    0 <= m < front.len() && before[i] == (
                        bucket_name(front[m]),
                        bucket_rules(rules, front[m]).len(),
                    );
                assert(front[m] == order[m]);
                lemma_bucket_names_differ(front[m], last);
            }
        }
    }
}

/// The named counts of an svn-style conversion name each group at most once,
/// leave out the default group, and give for each name the number of the
/// group's rules.
pub proof fn lemma_svn_entries(a: Seq<Assigned>, k: int)
    requires
        0 <= k <= a.len(),
    ensures
        distinct_names(svn_entries(a, k)),
        forall|e: int|
            0 <= e < svn_entries(a, k).len() ==> exists|m: int|
                0 <= m < k && opens_group(a, m) && a[m].group != "default"@ && (
                #[trigger] svn_entries(a, k)[e]) == (a[m].group, members(a, a[m].group).len()),
    decreases k,
{
    if k > 0 {
        lemma_svn_entries(a, k - 1);
        let before = svn_entries(a, k - 1);
        let all = svn_entries(a, k);
        assert forall|e: int| 0 <= e < all.len() implies exists|m: int|
            0 <= m < k && opens_group(a, m) && a[m].group != "default"@ && (#[trigger] all[e]) == (
                a[m].group,
                members(a, a[m].group).len(),
            ) by {
            if e < before.len() {
                let m = choose|m: int|
                    0 <= m < k - 1 && opens_group(a, m) && a[m].group != "default"@ && before[e]
                        == (a[m].group, members(a, a[m].group).len());
                assert(0 <= m < k);
            } else {
                assert(opens_group(a, k - 1));
            }
        }
        assert forall|i: int, j: int| 0 <= i < j < all.len() implies (#[trigger] all[i]).0 != (
            #[trigger] all[j]).0 by {
            if j >= before.len() {
                let m = choose|m: int|
                    0 <= m < k - 1 && before[i] == (a[m].group, members(a, a[m].group).len());
                assert(a[m].group != a[k - 1].group);
            }
        }
    }
}


/// The sum of named counts.
pub open spec fn count_sum(counts: Seq<(Seq<char>, nat)>) -> nat
    decreases counts.len(),
{
    if counts.len() == 0 {
        0
    } else {
        count_sum(counts.drop_last()) + counts.last().1
    }
}

/// Whether a rule before index `k` was put in the group.
pub open spec fn seen_before(a: Seq<Assigned>, k: int, group: Seq<char>) -> bool {
    exists|m: int| 0 <= m < k && (#[trigger] a[m]).group == group
}

/// How many of the first `n` rules were put in a group other than the
/// default group that has a rule before index `k`.
pub open spec fn named_seen(a: Seq<Assigned>, n: int, k: int) -> nat
    decreases n,
{
    if n <= 0 {
        0
    } else if a[n - 1].group != "default"@ && seen_before(a, k, a[n - 1].group) {
        named_seen(a, n - 1, k) + 1
    } else {
        named_seen(a, n - 1, k)
    }
}

/// No group has a rule before the first rule.
proof fn lemma_named_seen_none(a: Seq<Assigned>, n: int)
    ensures
        named_seen(a, n, 0) == 0,
    decreases n,
{
    if n > 0 {
        lemma_named_seen_none(a, n - 1);
    }
}

/// Looking one rule further counts the rules of that rule's group in, where
/// the rule is the first of a group other than the default group, and
/// changes nothing otherwise.
proof fn lemma_named_seen_step(a: Seq<Assigned>, n: int, k: int)
    requires
        1 <= k <= a.len(),
        0 <= n <= a.len(),
    ensures
        named_seen(a, n, k) == named_seen(a, n, k - 1) + (if opens_group(a, k - 1) && a[k
            - 1].group != "default"@ {
            members(a.take(n), a[k - 1].group).len()
        } else {
            0
        }),
    decreases n,
{
    let g = a[k - 1].group;
    if n == 0 {
        assert(a.take(0) =~= Seq::<Assigned>::empty());
    } else {
        lemma_named_seen_step(a, n - 1, k);
        let h = a[n - 1].group;
        assert(a.take(n).drop_last() =~= a.take(n - 1));
        assert(a.take(n).last() == a[n - 1]);
        if seen_before(a, k - 1, h) {
            let m = choose|m: int| 0 <= m < k - 1 && (#[trigger] a[m]).group == h;
            assert(0 <= m < k && a[m].group == h);
        }
        if h == g {
            assert(0 <= k - 1 < k && a[k - 1].group == h);
            if !opens_group(a, k - 1) {
                let j = choose|j: int| 0 <= j < k - 1 && (#[trigger] a[j]).group == a[k - 1].group;
                assert(seen_before(a, k - 1, h));
            } else if seen_before(a, k - 1, h) {
                let m = choose|m: int| 0 <= m < k - 1 && (#[trigger] a[m]).group == h;
                assert(a[m].group != a[k - 1].group);
            }
        } else if seen_before(a, k, h) {
            let m = choose|m: int| 0 <= m < k && (#[trigger] a[m]).group == h;
            assert(m != k - 1);
            assert(0 <= m < k - 1 && a[m].group == h);
        }
    }
}

/// The named counts up to index `k` add up to the number of rules in groups
/// other than the default group that have a rule before index `k`.
proof fn lemma_svn_entries_sum(a: Seq<Assigned>, k: int)
    requires
        0 <= k <= a.len(),
    ensures
        count_sum(svn_entries(a, k)) == named_seen(a, a.len() as int, k),
    decreases k,
{
    if k == 0 {
        lemma_named_seen_none(a, a.len() as int);
    } else {
        lemma_svn_entries_sum(a, k - 1);
        lemma_named_seen_step(a, a.len() as int, k);
        assert(a.take(a.len() as int) =~= a);
        if opens_group(a, k - 1) && a[k - 1].group != "default"@ {
            assert(svn_entries(a, k).drop_last() =~= svn_entries(a, k - 1));
        }
    }
}

/// Every rule is in the default group or in a group that has a rule.
proof fn lemma_named_seen_all(a: Seq<Assigned>, n: int)
    requires
        0 <= n <= a.len(),
    ensures
        named_seen(a, n, a.len() as int) + members(a.take(n), "default"@).len() == n,
    decreases n,
{
    if n == 0 {
        assert(a.take(0) =~= Seq::<Assigned>::empty());
    } else {
        lemma_named_seen_all(a, n - 1);
        assert(a.take(n).drop_last() =~= a.take(n - 1));
        assert(a.take(n).last() == a[n - 1]);
        assert(0 <= n - 1 < a.len() && a[n - 1].group == a[n - 1].group);
        assert(seen_before(a, a.len() as int, a[n - 1].group));
    }
}

/// Every rule of an svn-style conversion is counted once: for the default
/// group, or for the group of its name.
pub proof fn lemma_svn_counts_add_up(a: Seq<Assigned>)
    ensures
        a.len() == members(a, "default"@).len() + count_sum(svn_entries(a, a.len() as int)),
{
    lemma_svn_entries_sum(a, a.len() as int);
    lemma_named_seen_all(a, a.len() as int);
    assert(a.take(a.len() as int) =~= a);
}

} // verus!
