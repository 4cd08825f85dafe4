//! Laws that hold of resolution and parsing, stated over the mathematical
//! values of rules and documents.

use vstd::prelude::*;
use crate::converter::{
    assign_all, comment_group, is_comment_line, is_rule_line, svn_assigned, svn_group,
};
use crate::document::{
    doc_some_match, ignored, rule_applies, some_group_match, some_match, DocSpec,
};
use crate::error::{decimal_digits, digit_char};
use crate::parser::{
    close_open, is_name_char, line_kind, name_run, open_name, parse_lines, parse_step,
    parse_text, start_state, ParseState,
};
use crate::pattern::{
    compile, decimal_value, dir_rule, has_wildcard, is_digit, match_text, pattern_matches,
    FileProbe, PatternSpec,
};
use crate::text::{
    has_segment, last_segment, lemma_trim_idempotent, lines, starts_with, trim, words,
};

verus! {

/// The document that holds one root rule and nothing else.
pub open spec fn single(p: PatternSpec) -> DocSpec {
    DocSpec { patterns: seq![p], groups: Seq::empty() }
}

/// A document of one rule excludes exactly the paths that the rule matches,
/// where the rule is not negated, and none where it is.
pub proof fn law_single_rule(p: PatternSpec, x: Seq<char>, probe: FileProbe)
    ensures
        ignored(single(p), x, probe) <==> (!p.negated && pattern_matches(p, x, probe)),
{
    let doc = single(p);
    assert(!some_group_match(doc.groups, x, probe, true));
    assert(!some_group_match(doc.groups, x, probe, false));
    assert(doc.patterns[0] == p);
    if !p.negated && pattern_matches(p, x, probe) {
        assert(rule_applies(doc.patterns[0], x, probe, false));
    }
}

/// Whether a directory rule decides a path otherwise than a comparison of
/// the path's last segment with the rule's text would.
pub open spec fn dir_decides_otherwise(p: PatternSpec, x: Seq<char>) -> bool {
    p.dir_only && (dir_rule(match_text(p), x) != (last_segment(x) == match_text(p)))
}

/// A rule without negation and without wildcard excludes a path exactly when
/// the path's last `/`-separated segment equals the rule's text. Directory
/// rules are left out where they decide otherwise.
pub proof fn law_exact_name(p: PatternSpec, x: Seq<char>, probe: FileProbe)
    requires
        !p.negated,
        !has_wildcard(p.body),
        !dir_decides_otherwise(p, x),
    ensures
        ignored(single(p), x, probe) <==> last_segment(x) == match_text(p),
{
    law_single_rule(p, x, probe);
}

/// The directory rule without its clause for `\`: the path is the directory,
/// lies under it after `/`, or has it as one of its segments.
pub open spec fn dir_rule_slash(d: Seq<char>, x: Seq<char>) -> bool {
    x == d || starts_with(x, d.push('/')) || has_segment(x, d)
}

/// A directory rule excludes a path exactly when the path is the directory,
/// begins with the directory and `/`, or has the directory as one of its
/// segments. Left out are negated rules on the paths that they match, and
/// paths that begin with the directory and `\` and meet none of the three
/// conditions.
pub proof fn law_directory(p: PatternSpec, x: Seq<char>, probe: FileProbe)
    requires
        p.dir_only,
        p.negated ==> !dir_rule_slash(match_text(p), x),
        starts_with(x, match_text(p).push('\\')) ==> p.negated || dir_rule_slash(
            match_text(p),
            x,
        ),
    ensures
        ignored(single(p), x, probe) <==> dir_rule_slash(match_text(p), x),
{
    law_single_rule(p, x, probe);
}

/// Negation wins: where a negated rule anywhere in the document matches a
/// path, the document does not exclude the path, whatever rule that is not
/// negated matches it too, and in whatever group or order they stand.
pub proof fn law_negation_wins(doc: DocSpec, x: Seq<char>, probe: FileProbe)
    requires
        doc_some_match(doc, x, probe, false),
        doc_some_match(doc, x, probe, true),
    ensures
        !ignored(doc, x, probe),
{
}

/// The same with the two rules named: a matching negated rule at any place
/// of the document, root or group, defeats a matching rule at any other.
pub proof fn law_negation_wins_at(
    doc: DocSpec,
    x: Seq<char>,
    probe: FileProbe,
    plain: PatternSpec,
    negated: PatternSpec,
)
    requires
        holds_rule(doc, plain),
        holds_rule(doc, negated),
        !plain.negated && pattern_matches(plain, x, probe),
        negated.negated && pattern_matches(negated, x, probe),
    ensures
        !ignored(doc, x, probe),
{
    lemma_rule_found(doc, x, probe, negated);
}

/// Whether a rule stands in the document, among the root rules or in a
/// group.
pub open spec fn holds_rule(doc: DocSpec, p: PatternSpec) -> bool {
    doc.patterns.contains(p) || exists|g: int|
        0 <= g < doc.groups.len() && (#[trigger] doc.groups[g]).patterns.contains(p)
}

/// A rule of the document that matches a path is found by the scan for its
/// negation flag.
pub proof fn lemma_rule_found(doc: DocSpec, x: Seq<char>, probe: FileProbe, p: PatternSpec)
    requires
        holds_rule(doc, p),
        pattern_matches(p, x, probe),
    ensures
        doc_some_match(doc, x, probe, p.negated),
{
    if doc.patterns.contains(p) {
        let i = choose|i: int| 0 <= i < doc.patterns.len() && doc.patterns[i] == p;
        assert(rule_applies(doc.patterns[i], x, probe, p.negated));
    } else {
        let g = choose|g: int|
            0 <= g < doc.groups.len() && (#[trigger] doc.groups[g]).patterns.contains(p);
        let ps = doc.groups[g].patterns;
        let i = choose|i: int| 0 <= i < ps.len() && ps[i] == p;
        assert(rule_applies(ps[i], x, probe, p.negated));
        assert(some_match(doc.groups[g].patterns, x, probe, p.negated));
    }
}

/// From any state and line on, parsing fails only at a line that closes a
/// group.
pub proof fn lemma_only_close_fails(st: ParseState, ls: Seq<Seq<char>>, i: int)
    requires
        0 <= i,
    ensures
        parse_lines(st, ls, i) matches Err(n) ==> i < n <= ls.len() && line_kind(ls[n - 1])
            is Close,
    decreases ls.len() - i,
{
    if i < ls.len() {
        match parse_step(st, ls[i]) {
            Some(next) => {
                lemma_only_close_fails(next, ls, i + 1);
            },
            None => {},
        }
    }
}

/// Parsing fails only at a line that closes a group: the line whose number
/// the error gives is one. A group that is never closed is no error,
/// whatever follows its opening.
pub proof fn law_only_close_fails(content: Seq<char>)
    ensures
        parse_text(content) matches Err(n) ==> 1 <= n <= lines(content).len() && line_kind(
            lines(content)[n - 1],
        ) is Close,
{
    lemma_only_close_fails(start_state(), lines(content), 0);
}

/// From any state and line on, lines none of which closes a group parse,
/// and a group that is open is part of the document.
pub proof fn lemma_open_group_kept(st: ParseState, ls: Seq<Seq<char>>, i: int)
    requires
        0 <= i,
        forall|k: int| i <= k < ls.len() ==> !(line_kind(#[trigger] ls[k]) is Close),
    ensures
        parse_lines(st, ls, i) is Ok,
        st.open is Some ==> parse_lines(st, ls, i)->Ok_0.groups.len() > st.doc.groups.len(),
        st.open is None ==> parse_lines(st, ls, i)->Ok_0.groups.len() >= st.doc.groups.len(),
    decreases ls.len() - i,
{
    if i < ls.len() {
        assert(!(line_kind(ls[i]) is Close));
        let next = parse_step(st, ls[i])->0;
        lemma_open_group_kept(next, ls, i + 1);
    }
}

/// A text none of whose lines closes a group parses.
pub proof fn law_without_close_parses(content: Seq<char>)
    requires
        forall|k: int|
            0 <= k < lines(content).len() ==> !(line_kind(#[trigger] lines(content)[k]) is Close),
    ensures
        parse_text(content) is Ok,
{
    lemma_open_group_kept(start_state(), lines(content), 0);
}

/// The text that a rule keeps as its original is the trimmed text it was
/// compiled from, and compiles to the same rule again.
pub proof fn law_original_round_trip(s: Seq<char>)
    ensures
        compile(s).original == trim(s),
        compile(compile(s).original) == compile(s),
{
    lemma_trim_idempotent(s);
}

/// The decimal digits of a number are digits, begin with no zero unless the
/// number is zero, and denote the number.
pub proof fn law_decimal_round_trip(n: nat)
    ensures
        decimal_digits(n).len() > 0,
        forall|i: int| 0 <= i < decimal_digits(n).len() ==> is_digit(#[trigger] decimal_digits(n)[i]),
        decimal_value(decimal_digits(n)) == n,
        n > 0 ==> decimal_digits(n)[0] != '0',
    decreases n,
{
    if n < 10 {
        let d = decimal_digits(n);
        assert(d.drop_last() =~= Seq::<char>::empty());
        assert(decimal_value(d.drop_last()) == 0);
        assert(d.last() == digit_char(n));
    } else {
        law_decimal_round_trip(n / 10);
        let front = decimal_digits(n / 10);
        let d = decimal_digits(n);
        assert(d.drop_last() =~= front);
        assert(d.last() == digit_char(n % 10));
        assert(d[0] == front[0]);
    }
}


/// Whether a text is a group name of the grammar: one or more name
/// characters.
pub open spec fn is_group_name(s: Seq<char>) -> bool {
    s.len() > 0 && forall|i: int| 0 <= i < s.len() ==> is_name_char(#[trigger] s[i])
}

/// Whether every group of the state, closed or open, has a name of the
/// grammar.
pub open spec fn names_valid(st: ParseState) -> bool {
    &&& forall|g: int| 0 <= g < st.doc.groups.len() ==> is_group_name((#[trigger] st.doc.groups[g]).name)
    &&& st.open matches Some(g) ==> is_group_name(g.name)
}

/// The characters that a name run counts are name characters.
pub proof fn lemma_name_run_chars(s: Seq<char>)
    ensures
        0 <= name_run(s) <= s.len(),
        forall|j: int| 0 <= j < name_run(s) ==> is_name_char(#[trigger] s[j]),
    decreases s.len(),
{
    if s.len() > 0 && is_name_char(s[0]) {
        let t = s.drop_first();
        lemma_name_run_chars(t);
        assert forall|j: int| 0 <= j < name_run(s) implies is_name_char(#[trigger] s[j]) by {
            if j > 0 {
                assert(s[j] == t[j - 1]);
            }
        }
    }
}

/// From any state whose groups have names of the grammar on, every group of
/// the parsed document has one, and the root rules and groups that the state
/// held stay first, in their order.
pub proof fn lemma_parsed_groups(st: ParseState, ls: Seq<Seq<char>>, i: int)
    requires
        0 <= i,
        names_valid(st),
    ensures
        parse_lines(st, ls, i) matches Ok(doc) ==> {
            &&& forall|g: int|
                0 <= g < doc.groups.len() ==> is_group_name((#[trigger] doc.groups[g]).name)
            &&& st.doc.patterns.is_prefix_of(doc.patterns)
            &&& st.doc.groups.is_prefix_of(doc.groups)
        },
    decreases ls.len() - i,
{
    if i < ls.len() {
        match parse_step(st, ls[i]) {
            Some(next) => {
                let t = trim(ls[i]);
                if open_name(t) is Some {
                    lemma_name_run_chars(t.subrange(1, t.len() - 1));
                }
                assert(names_valid(next));
                lemma_parsed_groups(next, ls, i + 1);
                assert(st.doc.patterns.is_prefix_of(next.doc.patterns));
                assert(st.doc.groups.is_prefix_of(next.doc.groups));
            },
            None => {},
        }
    } else {
        assert(st.doc.groups.is_prefix_of(close_open(st).groups));
    }
}

/// Every group of a parsed document has a name of the grammar: one or more
/// of the letters and digits of ASCII and `_`, `.`, `:`, `-`.
pub proof fn law_parsed_group_names(content: Seq<char>)
    ensures
        parse_text(content) matches Ok(doc) ==> forall|g: int|
            0 <= g < doc.groups.len() ==> is_group_name((#[trigger] doc.groups[g]).name),
{
    lemma_parsed_groups(start_state(), lines(content), 0);
}


/// In an svn-style file a comment sets the group that rules go to at once,
/// and no other line, blank or not, changes it.
pub proof fn law_svn_step(ls: Seq<Seq<char>>, line: Seq<char>)
    ensures
        is_comment_line(line) ==> svn_group(ls.push(line)) == comment_group(trim(line)),
        !is_comment_line(line) ==> svn_group(ls.push(line)) == svn_group(ls),
{
    assert(ls.push(line).drop_last() =~= ls);
}

/// In an svn-style file a comment names the group of every rule line after
/// it up to the next comment, whatever blank lines stand between: the words
/// of such a line are rules of that group.
pub proof fn law_svn_comment_names_group(ls: Seq<Seq<char>>, c: int, r: int)
    requires
        0 <= c < r < ls.len(),
        is_comment_line(ls[c]),
        forall|k: int| c < k <= r ==> !is_comment_line(#[trigger] ls[k]),
    ensures
        svn_group(ls.take(r + 1)) == comment_group(trim(ls[c])),
        is_rule_line(ls[r]) ==> svn_assigned(ls.take(r + 1)) == svn_assigned(ls.take(r))
            + assign_all(comment_group(trim(ls[c])), words(ls[r])),
    decreases r - c,
{
    assert(ls.take(r + 1).drop_last() =~= ls.take(r));
    assert(ls.take(r + 1).last() == ls[r]);
    assert(!is_comment_line(ls[r]));
    if r - 1 > c {
        law_svn_comment_names_group(ls, c, r - 1);
    } else {
        assert(ls.take(c + 1).drop_last() =~= ls.take(c));
        assert(ls.take(c + 1).last() == ls[c]);
        assert(svn_group(ls.take(c + 1)) == comment_group(trim(ls[c])));
    }
    assert(svn_group(ls.take(r + 1)) == svn_group(ls.take(r)));
}

/// Before the first comment of an svn-style file, rules go to the default
/// group.
pub proof fn law_svn_default_group(ls: Seq<Seq<char>>, r: int)
    requires
        0 <= r <= ls.len(),
        forall|k: int| 0 <= k < r ==> !is_comment_line(#[trigger] ls[k]),
    ensures
        svn_group(ls.take(r)) == "default"@,
    decreases r,
{
    if r > 0 {
        assert(ls.take(r).drop_last() =~= ls.take(r - 1));
        assert(ls.take(r).last() == ls[r - 1]);
        law_svn_default_group(ls, r - 1);
    }
}

} // verus!
