//! One ignore rule: its compilation from text and its matching predicate.

use vstd::prelude::*;
use vstd::slice::slice_subrange;
use crate::boundary::{push_char, regex_compiles, regex_finds, regex_is_match, regex_valid};
use crate::text::{
    contains_chars, contains_text, from_chars, has_char, has_segment, has_segment_chars,
    last_segment, last_segment_chars, lemma_trim_idempotent, same_chars, skip_spaces,
    starts_with, starts_with_chars, strip_slashes, strip_slashes_chars, to_chars, trim,
    trim_chars, trim_start,
};

verus! {

/// How a file's size is compared with the threshold of a size condition.
#[derive(Debug, Clone, Copy, PartialEq, Eq, Structural)]
pub enum SizeComparison {
    /// The file must be smaller than the threshold.
    LessThan,
    /// The file must be larger than the threshold.
    GreaterThan,
}

/// What is known about the file that a candidate path names.
#[derive(Debug, Clone, Copy, PartialEq, Eq, Structural)]
pub enum FileProbe {
    /// The path could not be inspected.
    Missing,
    /// The path names a directory.
    Directory,
    /// The path names a regular file of this many bytes.
    File(u64),
}

/// The mathematical value of a compiled rule.
pub struct PatternSpec {
    /// The rule's text, trimmed.
    pub original: Seq<char>,
    /// Whether the rule began with `!`.
    pub negated: bool,
    /// Whether the rule ended with `/`.
    pub dir_only: bool,
    /// The size condition: comparison and threshold in bytes.
    pub size: Option<(SizeComparison, u64)>,
    /// The glob body: the rule without negation mark and size prefix.
    pub body: Seq<char>,
    /// The anchored regular expression of the body, where it compiles.
    pub regex: Option<Seq<char>>,
}

/// Whether a character is one of the decimal digits `0` to `9`.
pub open spec fn is_digit(c: char) -> bool {
    0x30 <= c as u32 <= 0x39
}

/// The number of decimal digits that the text begins with.
pub open spec fn digit_run(s: Seq<char>) -> int
    decreases s.len(),
{
    if s.len() == 0 || !is_digit(s[0]) {
        0
    } else {
        1 + digit_run(s.drop_first())
    }
}

/// The number that a text of decimal digits denotes.
pub open spec fn decimal_value(s: Seq<char>) -> nat
    decreases s.len(),
{
    if s.len() == 0 {
        0
    } else {
        decimal_value(s.drop_last()) * 10 + (s.last() as u32 - 0x30) as nat
    }
}

/// The length of the size unit that the text begins with: 2 for `KB`, `MB`
/// and `GB`, 1 for `B`, 0 where there is none.
pub open spec fn unit_len(s: Seq<char>) -> int {
    if s.len() >= 2 && (s[0] == 'K' || s[0] == 'M' || s[0] == 'G') && s[1] == 'B' {
        2
    } else if s.len() >= 1 && s[0] == 'B' {
        1
    } else {
        0
    }
}

/// The number of bytes in the size unit that the text begins with; 1 where
/// there is none.
pub open spec fn unit_factor(s: Seq<char>) -> nat {
    if unit_len(s) == 2 {
        if s[0] == 'K' {
            1024
        } else if s[0] == 'M' {
            1024 * 1024
        } else {
            1024 * 1024 * 1024
        }
    } else {
        1
    }
}

/// The threshold in bytes for a number and the bytes of its unit. A number
/// that does not fit 64 bits counts as 0; a product that does not fit is the
/// largest 64-bit value.
pub open spec fn threshold(value: nat, factor: nat) -> u64 {
    if value > u64::MAX {
        0
    } else if value * factor > u64::MAX {
        u64::MAX
    } else {
        (value * factor) as u64
    }
}

/// The five characters that open a size condition.
pub open spec fn size_tag() -> Seq<char> {
    seq!['s', 'i', 'z', 'e', ':']
}

/// Splits a rule into its size condition and its glob body.
///
/// A size condition is `size:`, then `<` or `>`, one or more decimal digits,
/// optionally one of the units `B`, `KB`, `MB`, `GB`, then white space, and
/// it must be followed by a body of at least one character that holds no line
/// feed. Where the rule has no such shape, there is no condition and the body
/// is the whole rule.
pub open spec fn split_size(rest: Seq<char>) -> (Option<(SizeComparison, u64)>, Seq<char>) {
    if starts_with(rest, size_tag()) && rest.len() > 5 && (rest[5] == '<' || rest[5] == '>') {
        let digits = rest.skip(6);
        let n = digit_run(digits);
        let unit = digits.skip(n);
        let after = unit.skip(unit_len(unit));
        let body = trim_start(after);
        if n > 0 && 0 < body.len() < after.len() && !body.contains('\n') {
            let op = if rest[5] == '<' {
                SizeComparison::LessThan
            } else {
                SizeComparison::GreaterThan
            };
            (Some((op, threshold(decimal_value(digits.take(n)), unit_factor(unit)))), body)
        } else {
            (None, rest)
        }
    } else {
        (None, rest)
    }
}

/// What one character of a glob body becomes in the regular expression:
/// `*` any run of characters, `?` any one character, a bracket itself, and
/// any other character that the expression syntax gives a meaning its
/// escaped form.
pub open spec fn glob_piece(c: char) -> Seq<char> {
    if c == '*' {
        seq!['.', '*']
    } else if c == '?' {
        seq!['.']
    } else if c == '.' || c == '\\' || c == '$' || c == '^' || c == '+' || c == '(' || c == ')'
        || c == '{' || c == '}' || c == '|' {
        seq!['\\', c]
    } else {
        seq![c]
    }
}

/// The pieces of all characters of a glob body, in order.
pub open spec fn glob_pieces(s: Seq<char>) -> Seq<char>
    decreases s.len(),
{
    if s.len() == 0 {
        Seq::empty()
    } else {
        glob_pieces(s.drop_last()) + glob_piece(s.last())
    }
}

/// The regular expression of a glob body: the pieces of the body without its
/// trailing slashes, anchored at both ends.
pub open spec fn glob_expr(body: Seq<char>) -> Seq<char> {
    seq!['^'] + glob_pieces(strip_slashes(body)) + seq!['$']
}

/// The expression of a glob body where it compiles.
pub open spec fn usable_expr(body: Seq<char>) -> Option<Seq<char>> {
    if regex_valid(glob_expr(body)) {
        Some(glob_expr(body))
    } else {
        None
    }
}

/// The rule that a text compiles to.
pub open spec fn compile(text: Seq<char>) -> PatternSpec {
    let t = trim(text);
    let negated = t.len() > 0 && t[0] == '!';
    let rest = if negated {
        trim(t.skip(1))
    } else {
        t
    };
    let split = split_size(rest);
    PatternSpec {
        original: t,
        negated,
        dir_only: t.len() > 0 && t.last() == '/',
        size: split.0,
        body: split.1,
        regex: usable_expr(split.1),
    }
}

/// Whether a rule is what its own text compiles to. Every rule that
/// [`Pattern::new`] gives is so.
pub open spec fn is_compiled(p: PatternSpec) -> bool {
    p == compile(p.original)
}

/// Whether a size meets a size condition.
pub open spec fn size_ok(cond: (SizeComparison, u64), size: u64) -> bool {
    match cond.0 {
        SizeComparison::LessThan => size < cond.1,
        SizeComparison::GreaterThan => size > cond.1,
    }
}

/// Whether what is known about a file meets an optional size condition. A
/// file that could not be inspected meets every condition, a directory none.
pub open spec fn probe_ok(cond: Option<(SizeComparison, u64)>, probe: FileProbe) -> bool {
    match cond {
        None => true,
        Some(c) => match probe {
            FileProbe::Missing => true,
            FileProbe::Directory => false,
            FileProbe::File(n) => size_ok(c, n),
        },
    }
}

/// Whether a glob body holds a wildcard, `*` or `?`.
pub open spec fn has_wildcard(body: Seq<char>) -> bool {
    body.contains('*') || body.contains('?')
}

/// The text that paths are compared with: the body without trailing slashes.
pub open spec fn match_text(p: PatternSpec) -> Seq<char> {
    strip_slashes(p.body)
}

/// The directory rule: the path is the directory `d`, lies under it (after
/// `/` or `\`), or has `d` as one of its `/`-separated segments.
pub open spec fn dir_rule(d: Seq<char>, x: Seq<char>) -> bool {
    ||| x == d
    ||| starts_with(x, d.push('/'))
    ||| starts_with(x, d.push('\\'))
    ||| has_segment(x, d)
}

/// What a rule decides for a path, given whether the rule's expression
/// matches the path (`expr_hit`) and what is known about the file.
pub open spec fn verdict(p: PatternSpec, x: Seq<char>, expr_hit: bool, probe: FileProbe) -> bool {
    if p.dir_only {
        dir_rule(match_text(p), x)
    } else if !has_wildcard(p.body) {
        last_segment(x) == match_text(p)
    } else {
        p.regex is Some && expr_hit && probe_ok(p.size, probe)
    }
}

/// Whether the rule's expression is there and matches the path.
pub open spec fn expr_hits(p: PatternSpec, x: Seq<char>) -> bool {
    match p.regex {
        Some(e) => regex_finds(e, x),
        None => false,
    }
}

/// Whether a rule matches a path, given what is known about the file.
pub open spec fn pattern_matches(p: PatternSpec, x: Seq<char>, probe: FileProbe) -> bool {
    verdict(p, x, expr_hits(p, x), probe)
}

/// What a rule decides for a path whose file has a known size, given whether
/// the rule's expression matches the path.
pub open spec fn sized_verdict(p: PatternSpec, x: Seq<char>, expr_hit: bool, size: u64) -> bool {
    let hit = if p.regex is None {
        contains_text(x, p.body)
    } else if !has_wildcard(p.body) {
        last_segment(x) == match_text(p)
    } else {
        expr_hit
    };
    hit && match p.size {
        Some(c) => size_ok(c, size),
        None => true,
    }
}

/// Whether a rule matches a path whose file has a known size.
pub open spec fn sized_matches(p: PatternSpec, x: Seq<char>, size: u64) -> bool {
    sized_verdict(p, x, expr_hits(p, x), size)
}

/// One compiled ignore rule.
#[derive(Debug)]
pub struct Pattern {
    /// The rule's text, trimmed.
    pub original: String,
    /// The anchored regular expression of the body, where it compiles.
    pub regex: Option<String>,
    /// Whether the rule began with `!`.
    pub negated: bool,
    /// Whether the rule ended with `/`.
    pub dir_only: bool,
    /// The size condition: comparison and threshold in bytes.
    pub size_condition: Option<(SizeComparison, u64)>,
    /// The glob body: the rule without negation mark and size prefix.
    pub pattern: String,
}

impl View for Pattern {
    type V = PatternSpec;

    open spec fn view(&self) -> PatternSpec {
        PatternSpec {
            original: self.original@,
            negated: self.negated,
            dir_only: self.dir_only,
            size: self.size_condition,
            body: self.pattern@,
            regex: match self.regex {
                Some(e) => Some(e@),
                None => None,
            },
        }
    }
}

/// Executable form of [`is_digit`].
pub fn is_digit_char(c: char) -> (b: bool)
    ensures
        b == is_digit(c),
{
    let n: u32 = c as u32;
    0x30 <= n && n <= 0x39
}

/// The digit run ends where no earlier character fails to be a digit.
pub proof fn lemma_digit_run_at(s: Seq<char>, k: int)
    requires
        0 <= k <= s.len(),
        forall|j: int| 0 <= j < k ==> is_digit(#[trigger] s[j]),
        k == s.len() || !is_digit(s[k]),
    ensures
        digit_run(s) == k,
    decreases k,
{
    if k > 0 {
        let t = s.drop_first();
        assert forall|j: int| 0 <= j < k - 1 implies is_digit(#[trigger] t[j]) by {
            assert(t[j] == s[j + 1]);
        }
        lemma_digit_run_at(t, k - 1);
    }
}

/// A prefix of a digit text denotes no larger a number than the text.
pub proof fn lemma_decimal_prefix(s: Seq<char>, k: int)
    requires
        0 <= k <= s.len(),
        forall|j: int| 0 <= j < s.len() ==> is_digit(#[trigger] s[j]),
    ensures
        decimal_value(s.take(k)) <= decimal_value(s),
    decreases s.len() - k,
{
    if k == s.len() {
        assert(s.take(k) =~= s);
    } else {
        let t = s.drop_last();
        lemma_decimal_prefix(t, k);
        assert(t.take(k) =~= s.take(k));
    }
}

/// The number that a text of decimal digits denotes, or `None` where it does
/// not fit 64 bits.
fn parse_decimal(d: &[char]) -> (r: Option<u64>)
    requires
        forall|j: int| 0 <= j < d@.len() ==> is_digit(#[trigger] d@[j]),
    ensures
        match r {
            Some(v) => decimal_value(d@) == v,
            None => decimal_value(d@) > u64::MAX,
        },
{
    let mut acc: u64 = 0;
    let mut i: usize = 0;
    assert(d@.take(0) =~= Seq::<char>::empty());
    while i < d.len()
        invariant
            i <= d.len(),
            acc == decimal_value(d@.take(i as int)),
            forall|j: int| 0 <= j < d@.len() ==> is_digit(#[trigger] d@[j]),
        decreases d.len() - i,
    {
        let digit: u64 = (d[i] as u32 - 0x30) as u64;
        proof {
            assert(d@.take(i + 1).drop_last() =~= d@.take(i as int));
            assert(d@.take(i + 1).last() == d@[i as int]);
        }
        if acc > (u64::MAX - digit) / 10 {
            proof {
                lemma_decimal_prefix(d@, i + 1);
            }
            return None;
        }
        acc = acc * 10 + digit;
        i += 1;
    }
    assert(d@.take(d.len() as int) =~= d@);
    Some(acc)
}

/// Executable form of [`threshold`], from the parsed number.
fn threshold_of(value: Option<u64>, factor: u64) -> (r: u64)
    requires
        1 <= factor <= 1024 * 1024 * 1024,
    ensures
        forall|v: nat|
            (match value {
                Some(n) => v == n,
                None => v > u64::MAX,
            }) ==> r == threshold(v, factor as nat),
{
    match value {
        None => 0,
        Some(n) => {
            if n > u64::MAX / factor {
                assert(n * factor > u64::MAX) by (nonlinear_arith)
                    requires
                        n > u64::MAX / factor,
                        factor >= 1,
                ;
                u64::MAX
            } else {
                assert(n * factor <= u64::MAX) by (nonlinear_arith)
                    requires
                        n <= u64::MAX / factor,
                        factor >= 1,
                ;
                n * factor
            }
        },
    }
}

/// Splits a rule into its size condition and its glob body.
pub fn parse_size_condition(rest: &[char]) -> (r: (Option<(SizeComparison, u64)>, Vec<char>))
    ensures
        (r.0, r.1@) == split_size(rest@),
{
    let n = rest.len();
    if !(n > 5 && rest[0] == 's' && rest[1] == 'i' && rest[2] == 'z' && rest[3] == 'e' && rest[4]
        == ':' && (rest[5] == '<' || rest[5] == '>')) {
        proof {
            if starts_with(rest@, size_tag()) {
                let sub = rest@.subrange(0, 5);
                assert(sub[0] == rest@[0] && sub[1] == rest@[1] && sub[2] == rest@[2] && sub[3]
                    == rest@[3] && sub[4] == rest@[4]);
            }
        }
        return (None, crate::text::copy_chars(rest));
    }
    assert(rest@.subrange(0, 5) =~= size_tag());
    let mut k: usize = 6;
    while k < n && is_digit_char(rest[k])
        invariant
            6 <= k <= n,
            n == rest.len(),
            forall|j: int| 6 <= j < k ==> is_digit(#[trigger] rest@[j]),
        decreases n - k,
    {
        k += 1;
    }
    let ghost digits = rest@.skip(6);
    let ghost unit = rest@.skip(k as int);
    proof {
        assert forall|j: int| 0 <= j < k - 6 implies is_digit(#[trigger] digits[j]) by {
            assert(digits[j] == rest@[j + 6]);
        }
        lemma_digit_run_at(digits, k - 6);
        assert(digits.skip(k - 6) =~= unit);
        assert(digits.take(k - 6) =~= rest@.subrange(6, k as int));
    }
    let (u, factor): (usize, u64) = if n - k >= 2 && (rest[k] == 'K' || rest[k] == 'M' || rest[k]
        == 'G') && rest[k + 1] == 'B' {
        (
            2,
            if rest[k] == 'K' {
                1024
            } else if rest[k] == 'M' {
                1024 * 1024
            } else {
                1024 * 1024 * 1024
            },
        )
    } else if k < n && rest[k] == 'B' {
        (1, 1)
    } else {
        (0, 1)
    };
    assert(u == unit_len(unit) && factor == unit_factor(unit));
    let a = k + u;
    let b = skip_spaces(rest, a);
    let ghost after = unit.skip(u as int);
    proof {
        assert(after =~= rest@.skip(a as int));
    }
    let body = slice_subrange(rest, b, n);
    assert(body@ =~= rest@.skip(b as int));
    if k == 6 || b == a || b == n || has_char(body, '\n') {
        return (None, crate::text::copy_chars(rest));
    }
    let number = slice_subrange(rest, 6, k);
    assert forall|j: int| 0 <= j < number@.len() implies is_digit(#[trigger] number@[j]) by {
        assert(number@[j] == rest@[j + 6]);
    }
    let value = parse_decimal(number);
    let limit = threshold_of(value, factor);
    let op = if rest[5] == '<' {
        SizeComparison::LessThan
    } else {
        SizeComparison::GreaterThan
    };
    (Some((op, limit)), crate::text::copy_chars(body))
}


/// The regular expression of a glob body, where it compiles.
pub fn pattern_to_regex(pattern: &[char]) -> (r: Option<String>)
    ensures
        match r {
            Some(e) => usable_expr(pattern@) == Some(e@),
            None => usable_expr(pattern@) is None,
        },
{
    let body = strip_slashes_chars(pattern);
    let mut expr = String::new();
    push_char(&mut expr, '^');
    let mut i: usize = 0;
    assert(body@.take(0) =~= Seq::<char>::empty());
    assert(expr@ =~= seq!['^'] + glob_pieces(body@.take(0)));
    while i < body.len()
        invariant
            i <= body.len(),
            expr@ == seq!['^'] + glob_pieces(body@.take(i as int)),
        decreases body.len() - i,
    {
        let c = body[i];
        let ghost before = expr@;
        proof {
            assert(body@.take(i + 1).drop_last() =~= body@.take(i as int));
            assert(body@.take(i + 1).last() == c);
        }
        if c == '*' {
            push_char(&mut expr, '.');
            push_char(&mut expr, '*');
        } else if c == '?' {
            push_char(&mut expr, '.');
        } else if c == '.' || c == '\\' || c == '$' || c == '^' || c == '+' || c == '(' || c == ')'
            || c == '{' || c == '}' || c == '|' {
            push_char(&mut expr, '\\');
            push_char(&mut expr, c);
        } else {
            push_char(&mut expr, c);
        }
        assert(expr@ =~= before + glob_piece(c));
        assert(expr@ =~= seq!['^'] + glob_pieces(body@.take(i + 1)));
        i += 1;
    }
    assert(body@.take(body.len() as int) =~= body@);
    push_char(&mut expr, '$');
    assert(expr@ =~= glob_expr(pattern@));
    if regex_compiles(expr.as_str()) {
        Some(expr)
    } else {
        None
    }
}

/// A path begins with `d` followed by `c` exactly when `d` stands at its
/// start and `c` right after it.
pub proof fn lemma_starts_with_push(x: Seq<char>, d: Seq<char>, c: char)
    ensures
        starts_with(x, d.push(c)) <==> (starts_with(x, d) && d.len() < x.len() && x[d.len() as int]
            == c),
{
    let dc = d.push(c);
    if starts_with(x, dc) {
        let sub = x.subrange(0, dc.len() as int);
        assert(sub[d.len() as int] == x[d.len() as int]);
        assert(x.subrange(0, d.len() as int) =~= sub.take(d.len() as int));
        assert(dc.take(d.len() as int) =~= d);
    }
    if starts_with(x, d) && d.len() < x.len() && x[d.len() as int] == c {
        assert(x.subrange(0, dc.len() as int) =~= x.subrange(0, d.len() as int).push(c));
    }
}

/// Executable form of [`dir_rule`].
pub fn dir_rule_chars(d: &[char], x: &[char]) -> (r: bool)
    ensures
        r == dir_rule(d@, x@),
{
    proof {
        lemma_starts_with_push(x@, d@, '/');
        lemma_starts_with_push(x@, d@, '\\');
    }
    if same_chars(x, d) {
        return true;
    }
    if starts_with_chars(x, d) && d.len() < x.len() && (x[d.len()] == '/' || x[d.len()] == '\\') {
        return true;
    }
    has_segment_chars(x, d)
}

/// Executable form of [`has_wildcard`].
pub fn has_wildcard_chars(body: &[char]) -> (r: bool)
    ensures
        r == has_wildcard(body@),
{
    has_char(body, '*') || has_char(body, '?')
}

impl Clone for Pattern {
    fn clone(&self) -> (r: Self)
        ensures
            r@ == self@,
    {
        Pattern {
            original: self.original.clone(),
            regex: match &self.regex {
                Some(e) => Some(e.clone()),
                None => None,
            },
            negated: self.negated,
            dir_only: self.dir_only,
            size_condition: self.size_condition,
            pattern: self.pattern.clone(),
        }
    }
}

impl Pattern {
    /// Compiles one rule. Never fails: a body whose expression does not
    /// compile gives a rule without one.
    pub fn new(pattern: &str) -> (p: Self)
        ensures
            p@ == compile(pattern@),
            p.original@ == trim(pattern@),
            is_compiled(p@),
    {
        let all = to_chars(pattern);
        Pattern::from_chars(all.as_slice())
    }

    /// Compiles one rule from its characters.
    pub fn from_chars(all: &[char]) -> (p: Self)
        ensures
            p@ == compile(all@),
            p.original@ == trim(all@),
            is_compiled(p@),
    {
        proof {
            lemma_trim_idempotent(all@);
        }
        let t = trim_chars(all);
        let negated = t.len() > 0 && t[0] == '!';
        let dir_only = t.len() > 0 && t[t.len() - 1] == '/';
        let rest = if negated {
            let tail = slice_subrange(t, 1, t.len());
            assert(tail@ =~= t@.skip(1));
            trim_chars(tail)
        } else {
            t
        };
        let (size_condition, body) = parse_size_condition(rest);
        let regex = pattern_to_regex(body.as_slice());
        Pattern {
            original: from_chars(t),
            regex,
            negated,
            dir_only,
            size_condition,
            pattern: from_chars(body.as_slice()),
        }
    }

    /// Whether the rule began with `!`.
    pub fn is_negated(&self) -> (r: bool)
        ensures
            r == self@.negated,
    {
        self.negated
    }

    /// Whether the rule ended with `/` and so names a directory.
    pub fn is_dir_only(&self) -> (r: bool)
        ensures
            r == self@.dir_only,
    {
        self.dir_only
    }

    /// Whether the rule has a size condition.
    pub fn is_size_condition(&self) -> (r: bool)
        ensures
            r == (self@.size is Some),
    {
        self.size_condition.is_some()
    }

    /// Whether the rule's expression is there and matches the path.
    pub fn expr_matches(&self, path: &str) -> (r: bool)
        ensures
            r == expr_hits(self@, path@),
    {
        match &self.regex {
            Some(e) => regex_is_match(e.as_str(), path),
            None => false,
        }
    }

    /// What the rule decides for a path, given whether its expression
    /// matches the path and what is known about the file.
    pub fn decide(&self, path: &str, expr_hit: bool, probe: FileProbe) -> (r: bool)
        ensures
            r == verdict(self@, path@, expr_hit, probe),
    {
        let x = to_chars(path);
        let body = to_chars(self.pattern.as_str());
        if self.dir_only {
            let d = strip_slashes_chars(body.as_slice());
            return dir_rule_chars(d, x.as_slice());
        }
        if !has_wildcard_chars(body.as_slice()) {
            let d = strip_slashes_chars(body.as_slice());
            return same_chars(last_segment_chars(x.as_slice()), d);
        }
        if self.regex.is_none() || !expr_hit {
            return false;
        }
        match self.size_condition {
            None => true,
            Some(c) => match probe {
                FileProbe::Missing => true,
                FileProbe::Directory => false,
                FileProbe::File(n) => size_holds(c, n),
            },
        }
    }

    /// Whether the rule matches a path, given what is known about the file
    /// that the path names.
    pub fn matches_probed(&self, path: &str, probe: FileProbe) -> (r: bool)
        ensures
            r == pattern_matches(self@, path@, probe),
    {
        let body = to_chars(self.pattern.as_str());
        let hit = !self.dir_only && has_wildcard_chars(body.as_slice()) && self.expr_matches(path);
        self.decide(path, hit, probe)
    }

    /// Whether the rule matches a path of which nothing else is known: a
    /// size condition counts as met, as for a file that cannot be inspected.
    pub fn matches(&self, path: &str) -> (r: bool)
        ensures
            r == pattern_matches(self@, path@, FileProbe::Missing),
    {
        self.matches_probed(path, FileProbe::Missing)
    }

    /// What the rule decides for a path whose file has a known size, given
    /// whether the rule's expression matches the path.
    pub fn decide_with_size(&self, path: &str, expr_hit: bool, size_in_bytes: u64) -> (r: bool)
        ensures
            r == sized_verdict(self@, path@, expr_hit, size_in_bytes),
    {
        let x = to_chars(path);
        let body = to_chars(self.pattern.as_str());
        let hit = if self.regex.is_none() {
            contains_chars(x.as_slice(), body.as_slice())
        } else if !has_wildcard_chars(body.as_slice()) {
            let d = strip_slashes_chars(body.as_slice());
            same_chars(last_segment_chars(x.as_slice()), d)
        } else {
            expr_hit
        };
        if !hit {
            return false;
        }
        match self.size_condition {
            Some(c) => size_holds(c, size_in_bytes),
            None => true,
        }
    }

    /// Whether the rule matches a path whose file has a known size.
    pub fn matches_with_size(&self, path: &str, size_in_bytes: u64) -> (r: bool)
        ensures
            r == sized_matches(self@, path@, size_in_bytes),
    {
        let body = to_chars(self.pattern.as_str());
        let hit = has_wildcard_chars(body.as_slice()) && self.expr_matches(path);
        self.decide_with_size(path, hit, size_in_bytes)
    }
}

/// Executable form of [`size_ok`].
pub fn size_holds(cond: (SizeComparison, u64), size: u64) -> (r: bool)
    ensures
        r == size_ok(cond, size),
{
    match cond.0 {
        SizeComparison::LessThan => size < cond.1,
        SizeComparison::GreaterThan => size > cond.1,
    }
}

} // verus!
