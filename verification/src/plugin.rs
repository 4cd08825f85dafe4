//! The engine as a named plugin: rules keyed by group name and a first-match
//! resolution over them.

use vstd::prelude::*;
use crate::document::{
    group_rules, group_views, pattern_views, clone_patterns, DocSpec, DotIgnore, GroupSpec,
    PatternGroup,
};
use crate::pattern::{pattern_matches, FileProbe, Pattern, PatternSpec};
use crate::text::{same_chars, to_chars};

verus! {

/// Whether a rule counts for a candidate: a directory rule counts only for a
/// directory, and the rule must match the path.
pub open spec fn plain_hit(p: PatternSpec, x: Seq<char>, probe: FileProbe, is_dir: bool) -> bool {
    (!p.dir_only || is_dir) && pattern_matches(p, x, probe)
}

/// What the first rule of the sequence that counts decides: `true`, ignored,
/// where it is not negated. `None` where no rule counts.
pub open spec fn first_plain(ps: Seq<PatternSpec>, x: Seq<char>, probe: FileProbe, is_dir: bool)
    -> Option<bool>
    decreases ps.len(),
{
    if ps.len() == 0 {
        None
    } else if plain_hit(ps[0], x, probe, is_dir) {
        Some(!ps[0].negated)
    } else {
        first_plain(ps.drop_first(), x, probe, is_dir)
    }
}

/// The first rule that counts in a concatenation is the first that counts in
/// the first part, or else in the second.
pub proof fn lemma_first_plain_concat(
    a: Seq<PatternSpec>,
    b: Seq<PatternSpec>,
    x: Seq<char>,
    probe: FileProbe,
    is_dir: bool,
)
    ensures
        first_plain(a + b, x, probe, is_dir) == match first_plain(a, x, probe, is_dir) {
            Some(v) => Some(v),
            None => first_plain(b, x, probe, is_dir),
        },
    decreases a.len(),
{
    if a.len() == 0 {
        assert(a + b =~= b);
    } else {
        assert((a + b)[0] == a[0]);
        assert((a + b).drop_first() =~= a.drop_first() + b);
        lemma_first_plain_concat(a.drop_first(), b, x, probe, is_dir);
    }
}

/// The index of the first group with the given name, or the number of groups
/// where none has it.
pub open spec fn group_position(gs: Seq<GroupSpec>, name: Seq<char>) -> int
    decreases gs.len(),
{
    if gs.len() == 0 || gs[0].name == name {
        0
    } else {
        1 + group_position(gs.drop_first(), name)
    }
}

/// The groups after the rules of `name` are set to `patterns`: the first
/// group of that name gets them, and where there is none, a new group of that
/// name is appended.
pub open spec fn with_rules(gs: Seq<GroupSpec>, name: Seq<char>, patterns: Seq<PatternSpec>)
    -> Seq<GroupSpec> {
    let k = group_position(gs, name);
    if 0 <= k < gs.len() {
        gs.update(k, GroupSpec { patterns, ..gs[k] })
    } else {
        gs.push(GroupSpec { name, parent: None, patterns })
    }
}

/// The groups keyed by name that a sequence of groups gives: a later group
/// replaces the rules of an earlier one of the same name.
pub open spec fn keyed(gs: Seq<GroupSpec>) -> Seq<GroupSpec>
    decreases gs.len(),
{
    if gs.len() == 0 {
        Seq::empty()
    } else {
        with_rules(keyed(gs.drop_last()), gs.last().name, gs.last().patterns)
    }
}

/// Whether no name occurs twice among the groups.
pub open spec fn distinct_groups(gs: Seq<GroupSpec>) -> bool {
    forall|i: int, j: int|
        0 <= i < j < gs.len() ==> (#[trigger] gs[i]).name != (#[trigger] gs[j]).name
}

/// The position of a name is an index of the groups or their number, and no
/// group before it has the name.
pub proof fn lemma_group_position(gs: Seq<GroupSpec>, name: Seq<char>)
    ensures
        0 <= group_position(gs, name) <= gs.len(),
        forall|j: int| 0 <= j < group_position(gs, name) ==> (#[trigger] gs[j]).name != name,
        group_position(gs, name) < gs.len() ==> gs[group_position(gs, name)].name == name,
    decreases gs.len(),
{
    if gs.len() > 0 && gs[0].name != name {
        let t = gs.drop_first();
        lemma_group_position(t, name);
        assert forall|j: int| 0 <= j < group_position(gs, name) implies (#[trigger] gs[j]).name
            != name by {
            if j > 0 {
                assert(gs[j] == t[j - 1]);
            }
        }
    }
}

/// Setting the rules of a name keeps the names of the groups distinct.
pub proof fn lemma_with_rules_distinct(
    gs: Seq<GroupSpec>,
    name: Seq<char>,
    patterns: Seq<PatternSpec>,
)
    requires
        distinct_groups(gs),
    ensures
        distinct_groups(with_rules(gs, name, patterns)),
{
    lemma_group_position(gs, name);
}

/// Groups keyed by name have distinct names.
pub proof fn lemma_keyed_distinct(gs: Seq<GroupSpec>)
    ensures
        distinct_groups(keyed(gs)),
    decreases gs.len(),
{
    if gs.len() > 0 {
        lemma_keyed_distinct(gs.drop_last());
        lemma_with_rules_distinct(keyed(gs.drop_last()), gs.last().name, gs.last().patterns);
    }
}

/// The position is where no earlier group has the name.
pub proof fn lemma_group_position_at(gs: Seq<GroupSpec>, name: Seq<char>, k: int)
    requires
        0 <= k <= gs.len(),
        forall|j: int| 0 <= j < k ==> (#[trigger] gs[j]).name != name,
        k == gs.len() || gs[k].name == name,
    ensures
        group_position(gs, name) == k,
    decreases k,
{
    if k > 0 {
        let t = gs.drop_first();
        assert forall|j: int| 0 <= j < k - 1 implies (#[trigger] t[j]).name != name by {
            assert(t[j] == gs[j + 1]);
        }
        lemma_group_position_at(t, name, k - 1);
    }
}

/// Rules for a plugin host: root rules and rules keyed by group name.
#[derive(Debug)]
pub struct IgnoreRules {
    /// The rules outside any group.
    pub patterns: Vec<Pattern>,
    /// The rules of the groups, one entry for each name.
    pub groups: Vec<PatternGroup>,
}

impl View for IgnoreRules {
    type V = DocSpec;

    open spec fn view(&self) -> DocSpec {
        DocSpec { patterns: pattern_views(self.patterns@), groups: group_views(self.groups@) }
    }
}

impl IgnoreRules {
    /// Rules that hold nothing.
    pub fn new() -> (r: Self)
        ensures
            r@ == (DocSpec { patterns: Seq::empty(), groups: Seq::empty() }),
    {
        let r = IgnoreRules { patterns: Vec::new(), groups: Vec::new() };
        assert(pattern_views(r.patterns@) =~= Seq::empty());
        assert(group_views(r.groups@) =~= Seq::empty());
        r
    }

    /// Sets the rules of the group `name`.
    pub fn insert(&mut self, name: &str, patterns: Vec<Pattern>)
        ensures
            final(self)@ == (DocSpec {
                groups: with_rules(old(self)@.groups, name@, pattern_views(patterns@)),
                ..old(self)@
            }),
            distinct_groups(old(self)@.groups) ==> distinct_groups(final(self)@.groups),
    {
        let wanted = to_chars(name);
        let ghost gv = group_views(self.groups@);
        let mut k: usize = 0;
        let mut found = false;
        while k < self.groups.len() && !found
            invariant
                k <= self.groups.len(),
                wanted@ == name@,
                *self == *old(self),
                gv == group_views(self.groups@),
                forall|j: int| 0 <= j < k ==> (#[trigger] gv[j]).name != name@,
                found ==> k < self.groups.len() && gv[k as int].name == name@,
            decreases self.groups.len() - k + (if found { 0int } else { 1int }),
        {
            let own = to_chars(self.groups[k].name.as_str());
            if same_chars(own.as_slice(), wanted.as_slice()) {
                found = true;
            } else {
                k += 1;
            }
        }
        proof {
            lemma_group_position_at(gv, name@, k as int);
            if distinct_groups(gv) {
                lemma_with_rules_distinct(gv, name@, pattern_views(patterns@));
            }
        }
        if k < self.groups.len() {
            let replaced = PatternGroup {
                name: self.groups[k].name.clone(),
                parent: match &self.groups[k].parent {
                    Some(p) => Some(p.clone()),
                    None => None,
                },
                patterns,
            };
            self.groups.set(k, replaced);
            assert(group_views(self.groups@) =~= with_rules(gv, name@, pattern_views(patterns@)));
        } else {
            let mut added = PatternGroup::new(name);
            added.patterns = patterns;
            self.groups.push(added);
            assert(group_views(self.groups@) =~= with_rules(gv, name@, pattern_views(patterns@)));
        }
    }

    /// The rules of a document, keyed by group name.
    #[allow(non_snake_case)]
    pub fn from_DotIgnore(vcs_ignore: &DotIgnore) -> (r: Self)
        ensures
            r@ == (DocSpec { patterns: vcs_ignore@.patterns, groups: keyed(vcs_ignore@.groups) }),
            distinct_groups(r@.groups),
    {
        let mut rules = IgnoreRules::new();
        rules.patterns = clone_patterns(&vcs_ignore.patterns);
        let ghost gv = group_views(vcs_ignore.groups@);
        let mut g: usize = 0;
        assert(gv.take(0) =~= Seq::<GroupSpec>::empty());
        while g < vcs_ignore.groups.len()
            invariant
                g <= vcs_ignore.groups.len(),
                gv == group_views(vcs_ignore.groups@),
                rules@ == (DocSpec {
                    patterns: vcs_ignore@.patterns,
                    groups: keyed(gv.take(g as int)),
                }),
            decreases vcs_ignore.groups.len() - g,
        {
            let group = &vcs_ignore.groups[g];
            proof {
                assert(gv.take(g + 1).drop_last() =~= gv.take(g as int));
                assert(gv.take(g + 1).last() == group@);
            }
            rules.insert(group.name.as_str(), clone_patterns(&group.patterns));
            g += 1;
        }
        proof {
            assert(gv.take(vcs_ignore.groups.len() as int) =~= gv);
            lemma_keyed_distinct(gv);
        }
        rules
    }
}

/// What a plugin tells about itself.
pub trait Plugin {
    /// The plugin's name.
    spec fn name_text(&self) -> Seq<char>;

    /// The plugin's version.
    spec fn version_text(&self) -> Seq<char>;

    /// The plugin's description.
    spec fn description_text(&self) -> Seq<char>;

    /// The plugin's name.
    fn name(&self) -> (r: &str)
        ensures
            r@ == self.name_text(),
    ;

    /// The plugin's version.
    fn version(&self) -> (r: &str)
        ensures
            r@ == self.version_text(),
    ;

    /// A short description of the plugin.
    fn description(&self) -> (r: &str)
        ensures
            r@ == self.description_text(),
    ;
}

/// The plugin of this library.
#[derive(Debug)]
pub struct DotIgnorePlugin {
    name: String,
    version: String,
    description: String,
}

impl DotIgnorePlugin {
    /// The plugin, named `dotignore`, with the version of the library.
    pub fn new() -> (p: Self)
        ensures
            p.name_text() == "dotignore"@,
            p.version_text() == crate::VERSION@,
            p.description_text() == "DotIgnore Plugin"@,
    {
        DotIgnorePlugin {
            name: "dotignore".to_owned(),
            version: crate::VERSION.to_owned(),
            description: "DotIgnore Plugin".to_owned(),
        }
    }

    /// Whether the rules exclude a candidate, of which the caller says
    /// whether it is a directory and what else is known. The first rule that
    /// counts decides, root rules before groups.
    pub fn is_file_ignored(
        &self,
        file_path: &str,
        rules: &IgnoreRules,
        is_dir: bool,
        probe: FileProbe,
    ) -> (r: bool)
        ensures
            r == match first_plain(crate::document::all_rules(rules@), file_path@, probe, is_dir) {
                Some(b) => b,
                None => false,
            },
    {
        let ghost root = pattern_views(rules.patterns@);
        let ghost gv = group_views(rules.groups@);
        match first_counting(&rules.patterns, file_path, probe, is_dir) {
            Some(b) => {
                proof {
                    lemma_first_plain_concat(root, group_rules(gv), file_path@, probe, is_dir);
                }
                return b;
            },
            None => {},
        }
        let mut g: usize = 0;
        assert(gv.take(0) =~= Seq::<GroupSpec>::empty());
        while g < rules.groups.len()
            invariant
                g <= rules.groups.len(),
                gv == group_views(rules.groups@),
                root == pattern_views(rules.patterns@),
                first_plain(root, file_path@, probe, is_dir) is None,
                first_plain(group_rules(gv.take(g as int)), file_path@, probe, is_dir) is None,
            decreases rules.groups.len() - g,
        {
            let ghost done = group_rules(gv.take(g as int));
            proof {
                assert(gv.take(g + 1).drop_last() =~= gv.take(g as int));
                assert(gv.take(g + 1).last() == gv[g as int]);
                lemma_first_plain_concat(done, gv[g as int].patterns, file_path@, probe, is_dir);
            }
            match first_counting(&rules.groups[g].patterns, file_path, probe, is_dir) {
                Some(b) => {
                    proof {
                        let rest = gv.skip(g + 1);
                        crate::document::lemma_group_rules_concat(gv.take(g + 1), rest);
                        assert(gv.take(g + 1) + rest =~= gv);
                        lemma_first_plain_concat(
                            group_rules(gv.take(g + 1)),
                            group_rules(rest),
                            file_path@,
                            probe,
                            is_dir,
                        );
                        lemma_first_plain_concat(
                            root,
                            group_rules(gv),
                            file_path@,
                            probe,
                            is_dir,
                        );
                    }
                    return b;
                },
                None => {},
            }
            g += 1;
        }
        proof {
            assert(gv.take(rules.groups.len() as int) =~= gv);
            lemma_first_plain_concat(root, group_rules(gv), file_path@, probe, is_dir);
        }
        false
    }
}

impl Plugin for DotIgnorePlugin {
    closed spec fn name_text(&self) -> Seq<char> {
        self.name@
    }

    closed spec fn version_text(&self) -> Seq<char> {
        self.version@
    }

    closed spec fn description_text(&self) -> Seq<char> {
        self.description@
    }

    fn name(&self) -> (r: &str) {
        self.name.as_str()
    }

    fn version(&self) -> (r: &str) {
        self.version.as_str()
    }

    fn description(&self) -> (r: &str) {
        self.description.as_str()
    }
}

/// What the first rule of the vector that counts decides.
pub fn first_counting(ps: &Vec<Pattern>, path: &str, probe: FileProbe, is_dir: bool) -> (r: Option<
    bool,
>)
    ensures
        r == first_plain(pattern_views(ps@), path@, probe, is_dir),
{
    let ghost vs = pattern_views(ps@);
    let mut i: usize = 0;
    assert(vs.skip(0) =~= vs);
    while i < ps.len()
        invariant
            i <= ps.len(),
            vs == pattern_views(ps@),
            first_plain(vs, path@, probe, is_dir) == first_plain(
                vs.skip(i as int),
                path@,
                probe,
                is_dir,
            ),
        decreases ps.len() - i,
    {
        assert(vs.skip(i as int)[0] == vs[i as int]);
        assert(vs.skip(i as int).drop_first() =~= vs.skip(i + 1));
        if (!ps[i].is_dir_only() || is_dir) && ps[i].matches_probed(path, probe) {
            return Some(!ps[i].is_negated());
        }
        i += 1;
    }
    None
}

/// The text that describes the plugin.
pub open spec fn plugin_text() -> Seq<char> {
    "DotIgnore Plugin v"@ + crate::VERSION@
        + "\nImplemented in Rust\nSupports Git, SVN, and Dot ignore formats"@
}

/// A short description of the plugin, with its version.
pub fn plugin_info() -> (info: String)
    ensures
        info@ == plugin_text(),
{
    let mut info = "DotIgnore Plugin v".to_owned();
    info.append(crate::VERSION);
    info.append("\nImplemented in Rust\nSupports Git, SVN, and Dot ignore formats");
    info
}

/// The text of the document that the plugin writes as a default.
pub const DEFAULT_DOCUMENT: &'static str =
    "# Default .ignore file automatically created by DotIgnore Plugin\n\n[standard_patterns] {\n    # Common files to ignore\n    *.log\n    *.tmp\n    *.bak\n    *~\n}\n\n[platform:windows] {\n    # Windows-specific files\n    Thumbs.db\n    desktop.ini\n    *.lnk\n}\n\n[platform:macos] {\n    # macOS-specific files\n    .DS_Store\n    ._*\n    .Spotlight-V100\n    .Trashes\n}\n\n[platform:linux] {\n    # Linux-specific files\n    .directory\n}\n\n[development] {\n    # Common development files/directories\n    .env\n    .env.local\n    .env.development\n    node_modules/\n    vendor/\n    .cache/\n}\n\n[build] {\n    # Build artifacts\n    build/\n    dist/\n    out/\n    target/\n    *.o\n    *.obj\n}\n";

/// The text of the document that the plugin writes as a default.
pub fn default_ignore_content() -> (s: String)
    ensures
        s@ == DEFAULT_DOCUMENT@,
{
    DEFAULT_DOCUMENT.to_owned()
}

} // verus!
