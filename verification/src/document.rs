//! Groups of rules, whole documents, and how a document resolves a path.

use vstd::prelude::*;
use crate::pattern::{
    pattern_matches, sized_matches, FileProbe, Pattern, PatternSpec,
};

verus! {

/// The mathematical value of a named group of rules.
pub struct GroupSpec {
    /// The group's name.
    pub name: Seq<char>,
    /// The name of the parent group, if one was declared.
    pub parent: Option<Seq<char>>,
    /// The group's rules, in order.
    pub patterns: Seq<PatternSpec>,
}

/// The mathematical value of a document: its root rules and its groups, both
/// in source order.
pub struct DocSpec {
    /// The rules outside any group.
    pub patterns: Seq<PatternSpec>,
    /// The groups.
    pub groups: Seq<GroupSpec>,
}

/// The values of a sequence of rules.
pub open spec fn pattern_views(ps: Seq<Pattern>) -> Seq<PatternSpec> {
    Seq::new(ps.len(), |i: int| ps[i]@)
}

/// The values of a sequence of groups.
pub open spec fn group_views(gs: Seq<PatternGroup>) -> Seq<GroupSpec> {
    Seq::new(gs.len(), |i: int| gs[i]@)
}

/// A named, ordered group of rules.
#[derive(Debug)]
pub struct PatternGroup {
    /// The group's name.
    pub name: String,
    /// The name of the parent group, if any. It takes no part in matching.
    pub parent: Option<String>,
    /// The group's rules, in order.
    pub patterns: Vec<Pattern>,
}

impl View for PatternGroup {
    type V = GroupSpec;

    open spec fn view(&self) -> GroupSpec {
        GroupSpec {
            name: self.name@,
            parent: match self.parent {
                Some(p) => Some(p@),
                None => None,
            },
            patterns: pattern_views(self.patterns@),
        }
    }
}

/// A copy of a vector of rules.
pub fn clone_patterns(ps: &Vec<Pattern>) -> (r: Vec<Pattern>)
    ensures
        pattern_views(r@) == pattern_views(ps@),
{
    let mut r: Vec<Pattern> = Vec::new();
    let mut i: usize = 0;
    while i < ps.len()
        invariant
            i <= ps.len(),
            r.len() == i,
            forall|j: int| 0 <= j < i ==> r@[j]@ == ps@[j]@,
        decreases ps.len() - i,
    {
        r.push(ps[i].clone());
        i += 1;
    }
    assert(pattern_views(r@) =~= pattern_views(ps@));
    r
}

impl Clone for PatternGroup {
    fn clone(&self) -> (r: Self)
        ensures
            r@ == self@,
    {
        PatternGroup {
            name: self.name.clone(),
            parent: match &self.parent {
                Some(p) => Some(p.clone()),
                None => None,
            },
            patterns: clone_patterns(&self.patterns),
        }
    }
}

impl PatternGroup {
    /// An empty group with the given name and no parent.
    pub fn new(name: &str) -> (g: Self)
        ensures
            g@ == (GroupSpec { name: name@, parent: None, patterns: Seq::empty() }),
    {
        let g = PatternGroup { name: name.to_owned(), parent: None, patterns: Vec::new() };
        assert(pattern_views(g.patterns@) =~= Seq::empty());
        g
    }

    /// Appends a rule to the group.
    pub fn add_pattern(&mut self, pattern: Pattern)
        ensures
            final(self)@ == (GroupSpec {
                patterns: old(self)@.patterns.push(pattern@),
                ..old(self)@
            }),
    {
        self.patterns.push(pattern);
        assert(pattern_views(self.patterns@) =~= pattern_views(old(self).patterns@).push(
            pattern@,
        ));
    }

    /// The group with the given parent name.
    pub fn with_parent(self, parent: &str) -> (g: Self)
        ensures
            g@ == (GroupSpec { parent: Some(parent@), ..self@ }),
    {
        let mut g = self;
        g.parent = Some(parent.to_owned());
        g
    }

    /// The group with its rules replaced by the given ones.
    pub fn with_patterns(self, patterns: Vec<Pattern>) -> (g: Self)
        ensures
            g@ == (GroupSpec { patterns: pattern_views(patterns@), ..self@ }),
    {
        let mut g = self;
        g.patterns = patterns;
        g
    }
}

/// Whether some rule of the sequence with the given negation flag matches
/// the path.
pub open spec fn some_match(ps: Seq<PatternSpec>, x: Seq<char>, probe: FileProbe, negated: bool)
    -> bool {
    exists|i: int| 0 <= i < ps.len() && rule_applies(#[trigger] ps[i], x, probe, negated)
}

/// Whether a rule has the given negation flag and matches the path.
pub open spec fn rule_applies(p: PatternSpec, x: Seq<char>, probe: FileProbe, negated: bool)
    -> bool {
    p.negated == negated && pattern_matches(p, x, probe)
}

/// Whether some rule of some group with the given negation flag matches the
/// path.
pub open spec fn some_group_match(
    gs: Seq<GroupSpec>,
    x: Seq<char>,
    probe: FileProbe,
    negated: bool,
) -> bool {
    exists|g: int| 0 <= g < gs.len() && some_match((#[trigger] gs[g]).patterns, x, probe, negated)
}

/// Whether some rule anywhere in the document, root or group, with the given
/// negation flag matches the path.
pub open spec fn doc_some_match(doc: DocSpec, x: Seq<char>, probe: FileProbe, negated: bool)
    -> bool {
    some_match(doc.patterns, x, probe, negated) || some_group_match(doc.groups, x, probe, negated)
}

/// Whether the document excludes the path: no negated rule anywhere matches
/// it, and some rule that is not negated does.
pub open spec fn ignored(doc: DocSpec, x: Seq<char>, probe: FileProbe) -> bool {
    !doc_some_match(doc, x, probe, true) && doc_some_match(doc, x, probe, false)
}

/// Whether a rule counts for a candidate of known size: a directory rule
/// counts only for a directory, and the rule must match path and size.
pub open spec fn sized_hit(p: PatternSpec, x: Seq<char>, size: u64, is_dir: bool) -> bool {
    (!p.dir_only || is_dir) && sized_matches(p, x, size)
}

/// What the first rule of the sequence that counts decides: `true`, ignored,
/// where it is not negated. `None` where no rule counts.
pub open spec fn first_sized(ps: Seq<PatternSpec>, x: Seq<char>, size: u64, is_dir: bool)
    -> Option<bool>
    decreases ps.len(),
{
    if ps.len() == 0 {
        None
    } else if sized_hit(ps[0], x, size, is_dir) {
        Some(!ps[0].negated)
    } else {
        first_sized(ps.drop_first(), x, size, is_dir)
    }
}

/// The rules of all groups, group after group.
pub open spec fn group_rules(gs: Seq<GroupSpec>) -> Seq<PatternSpec>
    decreases gs.len(),
{
    if gs.len() == 0 {
        Seq::empty()
    } else {
        group_rules(gs.drop_last()) + gs.last().patterns
    }
}

/// All rules of a document: the root rules, then those of the groups.
pub open spec fn all_rules(doc: DocSpec) -> Seq<PatternSpec> {
    doc.patterns + group_rules(doc.groups)
}

/// Whether the document excludes a candidate of known size: what the first
/// rule that counts decides, in one scan of the root rules and then the
/// groups; not excluded where none counts.
pub open spec fn ignored_with_size(doc: DocSpec, x: Seq<char>, size: u64, is_dir: bool) -> bool {
    match first_sized(all_rules(doc), x, size, is_dir) {
        Some(b) => b,
        None => false,
    }
}

/// The first rule that counts in a concatenation is the first that counts in
/// the first part, or else in the second.
pub proof fn lemma_first_sized_concat(
    a: Seq<PatternSpec>,
    b: Seq<PatternSpec>,
    x: Seq<char>,
    size: u64,
    is_dir: bool,
)
    ensures
        first_sized(a + b, x, size, is_dir) == match first_sized(a, x, size, is_dir) {
            Some(v) => Some(v),
            None => first_sized(b, x, size, is_dir),
        },
    decreases a.len(),
{
    if a.len() == 0 {
        assert(a + b =~= b);
    } else {
        assert((a + b)[0] == a[0]);
        assert((a + b).drop_first() =~= a.drop_first() + b);
        lemma_first_sized_concat(a.drop_first(), b, x, size, is_dir);
    }
}

/// Whether some rule of the vector with the given negation flag matches the
/// path.
pub fn any_match(ps: &Vec<Pattern>, path: &str, probe: FileProbe, negated: bool) -> (r: bool)
    ensures
        r == some_match(pattern_views(ps@), path@, probe, negated),
{
    let ghost vs = pattern_views(ps@);
    let mut i: usize = 0;
    while i < ps.len()
        invariant
            i <= ps.len(),
            vs == pattern_views(ps@),
            forall|j: int| 0 <= j < i ==> !rule_applies(#[trigger] vs[j], path@, probe, negated),
        decreases ps.len() - i,
    {
        if ps[i].is_negated() == negated && ps[i].matches_probed(path, probe) {
            assert(rule_applies(vs[i as int], path@, probe, negated));
            return true;
        }
        i += 1;
    }
    false
}

/// Whether some rule of some group with the given negation flag matches the
/// path.
pub fn any_group_match(gs: &Vec<PatternGroup>, path: &str, probe: FileProbe, negated: bool) -> (r:
    bool)
    ensures
        r == some_group_match(group_views(gs@), path@, probe, negated),
{
    let ghost vs = group_views(gs@);
    let mut g: usize = 0;
    while g < gs.len()
        invariant
            g <= gs.len(),
            vs == group_views(gs@),
            forall|j: int|
                0 <= j < g ==> !some_match((#[trigger] vs[j]).patterns, path@, probe, negated),
        decreases gs.len() - g,
    {
        if any_match(&gs[g].patterns, path, probe, negated) {
            assert(some_match(vs[g as int].patterns, path@, probe, negated));
            return true;
        }
        g += 1;
    }
    false
}

/// What the first rule of the vector that counts decides for a candidate of
/// known size.
pub fn first_verdict(ps: &Vec<Pattern>, path: &str, size_in_bytes: u64, is_dir: bool) -> (r:
    Option<bool>)
    ensures
        r == first_sized(pattern_views(ps@), path@, size_in_bytes, is_dir),
{
    let ghost vs = pattern_views(ps@);
    let mut i: usize = 0;
    assert(vs.skip(0) =~= vs);
    while i < ps.len()
        invariant
            i <= ps.len(),
            vs == pattern_views(ps@),
            first_sized(vs, path@, size_in_bytes, is_dir) == first_sized(
                vs.skip(i as int),
                path@,
                size_in_bytes,
                is_dir,
            ),
        decreases ps.len() - i,
    {
        assert(vs.skip(i as int)[0] == vs[i as int]);
        assert(vs.skip(i as int).drop_first() =~= vs.skip(i + 1));
        if (!ps[i].is_dir_only() || is_dir) && ps[i].matches_with_size(path, size_in_bytes) {
            return Some(!ps[i].is_negated());
        }
        i += 1;
    }
    None
}

/// Whether rules and groups exclude the path.
pub fn resolve(
    patterns: &Vec<Pattern>,
    groups: &Vec<PatternGroup>,
    path: &str,
    probe: FileProbe,
) -> (r: bool)
    ensures
        r == ignored(
            DocSpec { patterns: pattern_views(patterns@), groups: group_views(groups@) },
            path@,
            probe,
        ),
{
    if any_match(patterns, path, probe, true) || any_group_match(groups, path, probe, true) {
        return false;
    }
    any_match(patterns, path, probe, false) || any_group_match(groups, path, probe, false)
}

/// Whether rules and groups exclude a candidate of known size.
pub fn resolve_with_size(
    patterns: &Vec<Pattern>,
    groups: &Vec<PatternGroup>,
    path: &str,
    size_in_bytes: u64,
    is_dir: bool,
) -> (r: bool)
    ensures
        r == ignored_with_size(
            DocSpec { patterns: pattern_views(patterns@), groups: group_views(groups@) },
            path@,
            size_in_bytes,
            is_dir,
        ),
{
    let ghost root = pattern_views(patterns@);
    let ghost gv = group_views(groups@);
    match first_verdict(patterns, path, size_in_bytes, is_dir) {
        Some(b) => {
            proof {
                lemma_first_sized_concat(root, group_rules(gv), path@, size_in_bytes, is_dir);
            }
            return b;
        },
        None => {},
    }
    let mut g: usize = 0;
    assert(gv.take(0) =~= Seq::<GroupSpec>::empty());
    while g < groups.len()
        invariant
            g <= groups.len(),
            gv == group_views(groups@),
            root == pattern_views(patterns@),
            first_sized(root, path@, size_in_bytes, is_dir) is None,
            first_sized(group_rules(gv.take(g as int)), path@, size_in_bytes, is_dir) is None,
        decreases groups.len() - g,
    {
        let ghost done = group_rules(gv.take(g as int));
        proof {
            assert(gv.take(g + 1).drop_last() =~= gv.take(g as int));
            assert(gv.take(g + 1).last() == gv[g as int]);
            lemma_first_sized_concat(done, gv[g as int].patterns, path@, size_in_bytes, is_dir);
        }
        match first_verdict(&groups[g].patterns, path, size_in_bytes, is_dir) {
            Some(b) => {
                proof {
                    let rest = gv.skip(g + 1);
                    lemma_group_rules_concat(gv.take(g + 1), rest);
                    assert(gv.take(g + 1) + rest =~= gv);
                    lemma_first_sized_concat(
                        group_rules(gv.take(g + 1)),
                        group_rules(rest),
                        path@,
                        size_in_bytes,
                        is_dir,
                    );
                    lemma_first_sized_concat(root, group_rules(gv), path@, size_in_bytes, is_dir);
                }
                return b;
            },
            None => {},
        }
        g += 1;
    }
    proof {
        assert(gv.take(groups.len() as int) =~= gv);
        lemma_first_sized_concat(root, group_rules(gv), path@, size_in_bytes, is_dir);
    }
    false
}

/// The rules of a concatenation of group sequences are the rules of the
/// first followed by those of the second.
pub proof fn lemma_group_rules_concat(a: Seq<GroupSpec>, b: Seq<GroupSpec>)
    ensures
        group_rules(a + b) == group_rules(a) + group_rules(b),
    decreases b.len(),
{
    if b.len() == 0 {
        assert(a + b =~= a);
        assert(group_rules(a) + group_rules(b) =~= group_rules(a));
    } else {
        assert((a + b).drop_last() =~= a + b.drop_last());
        assert((a + b).last() == b.last());
        lemma_group_rules_concat(a, b.drop_last());
        assert(group_rules(a + b) =~= group_rules(a) + group_rules(b));
    }
}


/// A document under construction, with the path of the file it stands for.
#[derive(Debug)]
pub struct IgnoreFile {
    /// The path of the file.
    pub path: String,
    /// The groups, in source order.
    pub groups: Vec<PatternGroup>,
    /// The rules outside any group, in source order.
    pub standard_patterns: Vec<Pattern>,
}

impl View for IgnoreFile {
    type V = DocSpec;

    open spec fn view(&self) -> DocSpec {
        DocSpec {
            patterns: pattern_views(self.standard_patterns@),
            groups: group_views(self.groups@),
        }
    }
}

/// The values of the rules that a sequence of references points to.
pub open spec fn borrowed_views(ps: Seq<&Pattern>) -> Seq<PatternSpec> {
    Seq::new(ps.len(), |i: int| ps[i]@)
}

impl IgnoreFile {
    /// An empty document for the file at `path`.
    pub fn new(path: &str) -> (f: Self)
        ensures
            f.path@ == path@,
            f@ == (DocSpec { patterns: Seq::empty(), groups: Seq::empty() }),
    {
        let f = IgnoreFile {
            path: path.to_owned(),
            groups: Vec::new(),
            standard_patterns: Vec::new(),
        };
        assert(pattern_views(f.standard_patterns@) =~= Seq::empty());
        assert(group_views(f.groups@) =~= Seq::empty());
        f
    }

    /// Compiles a rule and appends it to the root rules.
    pub fn add_standard_pattern(&mut self, pattern: &str)
        ensures
            final(self).path == old(self).path,
            final(self)@ == (DocSpec {
                patterns: old(self)@.patterns.push(crate::pattern::compile(pattern@)),
                ..old(self)@
            }),
    {
        self.add_pattern(Pattern::new(pattern));
    }

    /// All rules of the document: the root rules, then those of the groups.
    pub fn get_all_patterns(&self) -> (r: Vec<&Pattern>)
        ensures
            borrowed_views(r@) == all_rules(self@),
    {
        let mut all: Vec<&Pattern> = Vec::new();
        let mut i: usize = 0;
        while i < self.standard_patterns.len()
            invariant
                i <= self.standard_patterns.len(),
                borrowed_views(all@) == pattern_views(self.standard_patterns@).take(i as int),
            decreases self.standard_patterns.len() - i,
        {
            let ghost before = borrowed_views(all@);
            all.push(&self.standard_patterns[i]);
            assert(borrowed_views(all@) =~= before.push(self.standard_patterns@[i as int]@));
            assert(pattern_views(self.standard_patterns@).take(i + 1) =~= before.push(
                self.standard_patterns@[i as int]@,
            ));
            i += 1;
        }
        let ghost root = pattern_views(self.standard_patterns@);
        let ghost gv = group_views(self.groups@);
        assert(root.take(self.standard_patterns.len() as int) =~= root);
        let mut g: usize = 0;
        assert(gv.take(0) =~= Seq::<GroupSpec>::empty());
        assert(borrowed_views(all@) =~= root + group_rules(gv.take(0)));
        while g < self.groups.len()
            invariant
                g <= self.groups.len(),
                root == pattern_views(self.standard_patterns@),
                gv == group_views(self.groups@),
                borrowed_views(all@) == root + group_rules(gv.take(g as int)),
            decreases self.groups.len() - g,
        {
            let group = &self.groups[g];
            let ghost start = borrowed_views(all@);
            let mut k: usize = 0;
            assert(start + pattern_views(group.patterns@).take(0) =~= start);
            while k < group.patterns.len()
                invariant
                    k <= group.patterns.len(),
                    borrowed_views(all@) == start + pattern_views(group.patterns@).take(k as int),
                decreases group.patterns.len() - k,
            {
                let ghost before = borrowed_views(all@);
                all.push(&group.patterns[k]);
                assert(borrowed_views(all@) =~= before.push(group.patterns@[k as int]@));
                assert(start + pattern_views(group.patterns@).take(k + 1) =~= before.push(
                    group.patterns@[k as int]@,
                ));
                k += 1;
            }
            proof {
                assert(pattern_views(group.patterns@).take(group.patterns.len() as int)
                    =~= pattern_views(group.patterns@));
                assert(gv.take(g + 1).drop_last() =~= gv.take(g as int));
                assert(gv.take(g + 1).last() == gv[g as int]);
                assert(borrowed_views(all@) =~= root + group_rules(gv.take(g + 1)));
            }
            g += 1;
        }
        assert(gv.take(self.groups.len() as int) =~= gv);
        all
    }

    /// The root rules.
    pub fn patterns(&self) -> (r: &[Pattern])
        ensures
            r@ == self.standard_patterns@,
    {
        self.standard_patterns.as_slice()
    }

    /// The groups.
    pub fn groups(&self) -> (r: &[PatternGroup])
        ensures
            r@ == self.groups@,
    {
        self.groups.as_slice()
    }

    /// Appends a rule to the root rules.
    pub fn add_pattern(&mut self, pattern: Pattern)
        ensures
            final(self).path == old(self).path,
            final(self)@ == (DocSpec {
                patterns: old(self)@.patterns.push(pattern@),
                ..old(self)@
            }),
    {
        self.standard_patterns.push(pattern);
        assert(pattern_views(self.standard_patterns@) =~= pattern_views(
            old(self).standard_patterns@,
        ).push(pattern@));
    }

    /// Appends a group.
    pub fn add_group(&mut self, group: PatternGroup)
        ensures
            final(self).path == old(self).path,
            final(self)@ == (DocSpec { groups: old(self)@.groups.push(group@), ..old(self)@ }),
    {
        self.groups.push(group);
        assert(group_views(self.groups@) =~= group_views(old(self).groups@).push(group@));
    }

    /// Whether the document excludes the path, of which nothing else is
    /// known.
    pub fn is_ignored(&self, path: &str) -> (r: bool)
        ensures
            r == ignored(self@, path@, FileProbe::Missing),
    {
        resolve(&self.standard_patterns, &self.groups, path, FileProbe::Missing)
    }
}

impl Default for IgnoreFile {
    fn default() -> (f: Self)
        ensures
            f.path@ == Seq::<char>::empty(),
            f@ == (DocSpec { patterns: Seq::empty(), groups: Seq::empty() }),
    {
        let f = IgnoreFile {
            path: String::new(),
            groups: Vec::new(),
            standard_patterns: Vec::new(),
        };
        assert(pattern_views(f.standard_patterns@) =~= Seq::empty());
        assert(group_views(f.groups@) =~= Seq::empty());
        f
    }
}

/// A compiled document: root rules and groups, in source order.
#[derive(Debug)]
pub struct DotIgnore {
    /// The rules outside any group.
    pub patterns: Vec<Pattern>,
    /// The groups.
    pub groups: Vec<PatternGroup>,
}

impl View for DotIgnore {
    type V = DocSpec;

    open spec fn view(&self) -> DocSpec {
        DocSpec { patterns: pattern_views(self.patterns@), groups: group_views(self.groups@) }
    }
}

/// The text of the example document, with three groups.
pub const EXAMPLE_DOCUMENT: &'static str =
    "# Archivo .ignore de ejemplo generado automáticamente\n# Para más información, visite https://dotignore.dev\n\n[common] {\n    # Archivos y directorios comunes que suelen ignorarse\n    .DS_Store\n    Thumbs.db\n    .vscode/\n    .idea/\n}\n\n[system] {\n    # Archivos de sistema y logs\n    *.log\n    *.tmp\n    *.bak\n    core\n}\n\n[development] {\n    # Directorios y archivos de desarrollo\n    build/\n    dist/\n    node_modules/\n    target/\n    *.o\n    *.a\n    *.so\n    *.class\n}\n";

impl DotIgnore {
    /// An empty document.
    pub fn new() -> (d: Self)
        ensures
            d@ == (DocSpec { patterns: Seq::empty(), groups: Seq::empty() }),
    {
        let d = DotIgnore { patterns: Vec::new(), groups: Vec::new() };
        assert(pattern_views(d.patterns@) =~= Seq::empty());
        assert(group_views(d.groups@) =~= Seq::empty());
        d
    }

    /// Whether the document excludes the path, given what is known about the
    /// file that the path names.
    pub fn is_ignored_probed(&self, path: &str, probe: FileProbe) -> (r: bool)
        ensures
            r == ignored(self@, path@, probe),
    {
        resolve(&self.patterns, &self.groups, path, probe)
    }

    /// Whether the document excludes the path, of which nothing else is
    /// known: size conditions count as met.
    pub fn is_ignored(&self, path: &str) -> (r: bool)
        ensures
            r == ignored(self@, path@, FileProbe::Missing),
    {
        resolve(&self.patterns, &self.groups, path, FileProbe::Missing)
    }

    /// Appends a rule to the root rules.
    pub fn add_pattern(&mut self, pattern: Pattern)
        ensures
            final(self)@ == (DocSpec {
                patterns: old(self)@.patterns.push(pattern@),
                ..old(self)@
            }),
    {
        self.patterns.push(pattern);
        assert(pattern_views(self.patterns@) =~= pattern_views(old(self).patterns@).push(
            pattern@,
        ));
    }

    /// Appends a group.
    pub fn add_group(&mut self, group: PatternGroup)
        ensures
            final(self)@ == (DocSpec { groups: old(self)@.groups.push(group@), ..old(self)@ }),
    {
        self.groups.push(group);
        assert(group_views(self.groups@) =~= group_views(old(self).groups@).push(group@));
    }

    /// The root rules.
    pub fn get_patterns(&self) -> (r: &[Pattern])
        ensures
            r@ == self.patterns@,
    {
        self.patterns.as_slice()
    }

    /// The groups.
    pub fn get_groups(&self) -> (r: &[PatternGroup])
        ensures
            r@ == self.groups@,
    {
        self.groups.as_slice()
    }

    /// Whether the document excludes a candidate whose size is known and of
    /// which the caller says whether it is a directory. Unlike
    /// [`DotIgnore::is_ignored`], the first rule that counts decides.
    pub fn is_ignored_with_size_check(&self, path: &str, size_in_bytes: u64, is_dir: bool) -> (r:
        bool)
        ensures
            r == ignored_with_size(self@, path@, size_in_bytes, is_dir),
    {
        resolve_with_size(&self.patterns, &self.groups, path, size_in_bytes, is_dir)
    }

    /// The text of an example document with three groups.
    pub fn example_content() -> (s: String)
        ensures
            s@ == EXAMPLE_DOCUMENT@,
    {
        EXAMPLE_DOCUMENT.to_owned()
    }
}

impl Default for DotIgnore {
    fn default() -> (d: Self)
        ensures
            d@ == (DocSpec { patterns: Seq::empty(), groups: Seq::empty() }),
    {
        DotIgnore::new()
    }
}

} // verus!
