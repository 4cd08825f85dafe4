//! The line-oriented grammar of grouped documents and its parser.

use vstd::prelude::*;
use vstd::slice::slice_subrange;
use crate::document::{DocSpec, DotIgnore, GroupSpec, PatternGroup};
use crate::error::IgnoreError;
use crate::pattern::{compile, Pattern};
use crate::text::{
    copy_chars, from_chars, is_blank, lines, skip_spaces, split_lines, starts_with,
    to_chars, trim, trim_chars, trim_start, views,
};

verus! {

/// Whether a character may stand in a group name: a letter or digit of
/// ASCII, or one of `_`, `.`, `:`, `-`.
pub open spec fn is_name_char(c: char) -> bool {
    let n = c as u32;
    ||| 0x41 <= n <= 0x5A
    ||| 0x61 <= n <= 0x7A
    ||| 0x30 <= n <= 0x39
    ||| c == '_'
    ||| c == '.'
    ||| c == ':'
    ||| c == '-'
}

/// Executable form of [`is_name_char`].
pub fn is_name_char_exec(c: char) -> (b: bool)
    ensures
        b == is_name_char(c),
{
    let n: u32 = c as u32;
    (0x41 <= n && n <= 0x5A) || (0x61 <= n && n <= 0x7A) || (0x30 <= n && n <= 0x39) || c == '_'
        || c == '.' || c == ':' || c == '-'
}

/// The number of name characters that the text begins with.
pub open spec fn name_run(s: Seq<char>) -> int
    decreases s.len(),
{
    if s.len() == 0 || !is_name_char(s[0]) {
        0
    } else {
        1 + name_run(s.drop_first())
    }
}

/// The name run ends where no earlier character fails to be a name character.
pub proof fn lemma_name_run_at(s: Seq<char>, k: int)
    requires
        0 <= k <= s.len(),
        forall|j: int| 0 <= j < k ==> is_name_char(#[trigger] s[j]),
        k == s.len() || !is_name_char(s[k]),
    ensures
        name_run(s) == k,
    decreases k,
{
    if k > 0 {
        let t = s.drop_first();
        assert forall|j: int| 0 <= j < k - 1 implies is_name_char(#[trigger] t[j]) by {
            assert(t[j] == s[j + 1]);
        }
        lemma_name_run_at(t, k - 1);
    }
}

/// The name that a trimmed line opens a group with: the line is `[`, a name
/// of one or more name characters, `]`, optional white space and `{`.
pub open spec fn open_name(t: Seq<char>) -> Option<Seq<char>> {
    if t.len() >= 2 && t[0] == '[' && t.last() == '{' {
        let inner = t.subrange(1, t.len() - 1);
        let k = name_run(inner);
        if 0 < k < inner.len() && inner[k] == ']' && is_blank(inner.skip(k + 1)) {
            Some(inner.take(k))
        } else {
            None
        }
    } else {
        None
    }
}

/// The three characters of the word that an end note holds.
pub open spec fn end_word() -> Seq<char> {
    seq!['e', 'n', 'd']
}

/// Whether the text is an end note: `#`, optional white space, `end`, white
/// space and a name that runs to the end of the text.
pub open spec fn is_end_note(r: Seq<char>) -> bool {
    r.len() > 0 && r[0] == '#' && {
        let a = trim_start(r.skip(1));
        starts_with(a, end_word()) && {
            let b = a.skip(3);
            let c = trim_start(b);
            0 < c.len() < b.len() && name_run(c) == c.len()
        }
    }
}

/// Whether a trimmed line closes a group: `}`, then nothing more or, after
/// optional white space, an end note.
pub open spec fn is_close(t: Seq<char>) -> bool {
    t.len() > 0 && t[0] == '}' && {
        let r = trim_start(t.skip(1));
        r.len() == 0 || is_end_note(r)
    }
}

/// What a line of a document is.
pub enum LineKind {
    /// Nothing but white space.
    Blank,
    /// A comment: the first character that is not white space is `#`.
    Comment,
    /// The opening of a group with this name.
    Open(Seq<char>),
    /// The closing of the open group.
    Close,
    /// A rule.
    Rule,
}

/// The kind of a line. The order of the tests matters: blank, comment, group
/// opening, group closing, and any other line is a rule.
pub open spec fn line_kind(line: Seq<char>) -> LineKind {
    let t = trim(line);
    if t.len() == 0 {
        LineKind::Blank
    } else if t[0] == '#' {
        LineKind::Comment
    } else if open_name(t) is Some {
        LineKind::Open(open_name(t)->0)
    } else if is_close(t) {
        LineKind::Close
    } else {
        LineKind::Rule
    }
}

/// The state of the parser between two lines: the document so far and the
/// group that is open, if any.
pub struct ParseState {
    /// Root rules and closed groups so far.
    pub doc: DocSpec,
    /// The open group.
    pub open: Option<GroupSpec>,
}

/// The state before the first line.
pub open spec fn start_state() -> ParseState {
    ParseState { doc: DocSpec { patterns: Seq::empty(), groups: Seq::empty() }, open: None }
}

/// The document with the open group, if any, appended to its groups.
pub open spec fn close_open(st: ParseState) -> DocSpec {
    match st.open {
        Some(g) => DocSpec { groups: st.doc.groups.push(g), ..st.doc },
        None => st.doc,
    }
}

/// The state after one more line; `None` where the line closes a group and
/// none is open.
pub open spec fn parse_step(st: ParseState, line: Seq<char>) -> Option<ParseState> {
    match line_kind(line) {
        LineKind::Blank => Some(st),
        LineKind::Comment => Some(st),
        LineKind::Open(name) => Some(
            ParseState {
                doc: close_open(st),
                open: Some(GroupSpec { name, parent: None, patterns: Seq::empty() }),
            },
        ),
        LineKind::Close => match st.open {
            Some(g) => Some(ParseState { doc: close_open(st), open: None }),
            None => None,
        },
        LineKind::Rule => match st.open {
            Some(g) => Some(
                ParseState {
                    doc: st.doc,
                    open: Some(GroupSpec { patterns: g.patterns.push(compile(line)), ..g }),
                },
            ),
            None => Some(
                ParseState {
                    doc: DocSpec { patterns: st.doc.patterns.push(compile(line)), ..st.doc },
                    open: None,
                },
            ),
        },
    }
}

/// The result of parsing the lines from index `i` on, starting in state
/// `st`: the document, with a group left open appended, or the number,
/// counted from 1, of the first line that closes a group where none is open.
pub open spec fn parse_lines(st: ParseState, ls: Seq<Seq<char>>, i: int) -> Result<DocSpec, int>
    decreases ls.len() - i,
{
    if i >= ls.len() {
        Ok(close_open(st))
    } else {
        match parse_step(st, ls[i]) {
            Some(next) => parse_lines(next, ls, i + 1),
            None => Err(i + 1),
        }
    }
}

/// The result of parsing a text.
pub open spec fn parse_text(content: Seq<char>) -> Result<DocSpec, int> {
    parse_lines(start_state(), lines(content), 0)
}

/// The message of the error for a group closing where no group is open.
pub open spec fn unexpected_end_message() -> Seq<char> {
    "Unexpected group end"@
}

/// Executable form of [`open_name`].
pub fn open_name_chars(t: &[char]) -> (r: Option<Vec<char>>)
    ensures
        match r {
            Some(name) => open_name(t@) == Some(name@),
            None => open_name(t@) is None,
        },
{
    let n = t.len();
    if !(n >= 2 && t[0] == '[' && t[n - 1] == '{') {
        return None;
    }
    let inner = slice_subrange(t, 1, n - 1);
    let m = inner.len();
    let mut k: usize = 0;
    while k < m && is_name_char_exec(inner[k])
        invariant
            k <= m,
            m == inner.len(),
            forall|j: int| 0 <= j < k ==> is_name_char(#[trigger] inner@[j]),
        decreases m - k,
    {
        k += 1;
    }
    proof {
        lemma_name_run_at(inner@, k as int);
    }
    if k == 0 || k >= m || inner[k] != ']' {
        return None;
    }
    let e = skip_spaces(inner, k + 1);
    if e != m {
        assert(inner@.skip(e as int).len() > 0);
        return None;
    }
    assert(inner@.skip(e as int).len() == 0);
    let name = copy_chars(slice_subrange(inner, 0, k));
    assert(name@ =~= inner@.take(k as int));
    Some(name)
}

/// Executable form of [`is_end_note`].
pub fn is_end_note_chars(r: &[char]) -> (res: bool)
    ensures
        res == is_end_note(r@),
{
    let n = r.len();
    if !(n > 0 && r[0] == '#') {
        return false;
    }
    let a = skip_spaces(r, 1);
    let ghost av = r@.skip(a as int);
    proof {
        if starts_with(av, end_word()) {
            let sub = av.subrange(0, 3);
            assert(sub[0] == av[0] && sub[1] == av[1] && sub[2] == av[2]);
        }
    }
    if !(n - a >= 3 && r[a] == 'e' && r[a + 1] == 'n' && r[a + 2] == 'd') {
        return false;
    }
    assert(av.subrange(0, 3) =~= end_word());
    let b = a + 3;
    assert(av.skip(3) =~= r@.skip(b as int));
    let c = skip_spaces(r, b);
    let ghost cv = r@.skip(c as int);
    let mut k: usize = c;
    while k < n && is_name_char_exec(r[k])
        invariant
            c <= k <= n,
            n == r.len(),
            forall|j: int| c <= j < k ==> is_name_char(#[trigger] r@[j]),
        decreases n - k,
    {
        k += 1;
    }
    proof {
        assert forall|j: int| 0 <= j < k - c implies is_name_char(#[trigger] cv[j]) by {
            assert(cv[j] == r@[c + j]);
        }
        lemma_name_run_at(cv, k - c);
    }
    c > b && c < n && k == n
}

/// Executable form of [`is_close`].
pub fn is_close_chars(t: &[char]) -> (res: bool)
    ensures
        res == is_close(t@),
{
    let n = t.len();
    if !(n > 0 && t[0] == '}') {
        return false;
    }
    let a = skip_spaces(t, 1);
    if a == n {
        assert(t@.skip(a as int).len() == 0);
        return true;
    }
    let r = slice_subrange(t, a, n);
    assert(r@ =~= t@.skip(a as int));
    is_end_note_chars(r)
}

/// The parser of grouped documents.
#[derive(Debug)]
pub struct IgnoreParser {}

impl IgnoreParser {
    /// A parser.
    pub fn new() -> (p: Self) {
        IgnoreParser {  }
    }

    /// Parses the text of a document.
    ///
    /// Fails only on a line that closes a group where none is open. A group
    /// that is still open when another one opens, or at the end of the text,
    /// is closed there.
    pub fn parse_string(&self, content: &str) -> (r: Result<DotIgnore, IgnoreError>)
        ensures
            match r {
                Ok(doc) => parse_text(content@) == Ok::<DocSpec, int>(doc@),
                Err(e) => {
                    &&& parse_text(content@) is Err
                    &&& e matches IgnoreError::Parse { line, message }
                    &&& line == parse_text(content@)->Err_0
                    &&& message@ == unexpected_end_message()
                },
            },
    {
        let all = to_chars(content);
        let ls = split_lines(all.as_slice());
        let mut doc = DotIgnore::new();
        let mut current: Option<PatternGroup> = None;
        let mut i: usize = 0;
        while i < ls.len()
            invariant
                i <= ls.len(),
                views(ls@) == lines(content@),
                parse_lines(state_of(doc, current), views(ls@), i as int) == parse_text(
                    content@,
                ),
            decreases ls.len() - i,
        {
            let line = ls[i].as_slice();
            assert(views(ls@)[i as int] == line@);
            let t = trim_chars(line);
            if t.len() == 0 || t[0] == '#' {
                i += 1;
                continue;
            }
            match open_name_chars(t) {
                Some(name) => {
                    match current {
                        Some(g) => {
                            doc.add_group(g);
                        },
                        None => {},
                    }
                    let group = PatternGroup::new(from_chars(name.as_slice()).as_str());
                    current = Some(group);
                    i += 1;
                    continue;
                },
                None => {},
            }
            if is_close_chars(t) {
                match current {
                    Some(g) => {
                        doc.add_group(g);
                        current = None;
                    },
                    None => {
                        return Err(
                            IgnoreError::Parse {
                                line: i + 1,
                                message: "Unexpected group end".to_owned(),
                            },
                        );
                    },
                }
                i += 1;
                continue;
            }
            let pattern = Pattern::from_chars(line);
            current = match current {
                Some(g) => {
                    let mut g = g;
                    g.add_pattern(pattern);
                    Some(g)
                },
                None => {
                    doc.add_pattern(pattern);
                    None
                },
            };
            i += 1;
        }
        match current {
            Some(g) => {
                doc.add_group(g);
            },
            None => {},
        }
        Ok(doc)
    }
}

impl Default for IgnoreParser {
    fn default() -> Self {
        IgnoreParser::new()
    }
}

/// The parser state that a document and an open group stand for.
pub open spec fn state_of(doc: DotIgnore, current: Option<PatternGroup>) -> ParseState {
    ParseState {
        doc: doc@,
        open: match current {
            Some(g) => Some(g@),
            None => None,
        },
    }
}

} // verus!
