//! Character-level text operations and their mathematical models.
//!
//! Text is modelled as `Seq<char>`. Every executable function here works on a
//! slice of characters and is specified against a spec function of the same
//! purpose, so that the rest of the crate can reason about trimming, line
//! splitting and searching without looking at loops.

use vstd::prelude::*;
use vstd::slice::slice_subrange;
use crate::boundary::push_char;

verus! {

/// The characters of a string slice, in order.
pub fn to_chars(s: &str) -> (v: Vec<char>)
    ensures
        v@ == s@,
{
    let mut v: Vec<char> = Vec::new();
    for c in it: s.chars()
        invariant
            v@ == it.seq().take(it.index()),
            it.seq() == s@,
    {
        v.push(c);
    }
    v
}

/// The string made of the given characters, in order.
pub fn from_chars(v: &[char]) -> (s: String)
    ensures
        s@ == v@,
{
    let mut s = String::new();
    let mut i: usize = 0;
    while i < v.len()
        invariant
            i <= v.len(),
            s@ == v@.take(i as int),
        decreases v.len() - i,
    {
        push_char(&mut s, v[i]);
        i += 1;
    }
    s
}

/// A copy of the characters of a slice.
pub fn copy_chars(v: &[char]) -> (r: Vec<char>)
    ensures
        r@ == v@,
{
    let mut r: Vec<char> = Vec::new();
    let mut i: usize = 0;
    while i < v.len()
        invariant
            i <= v.len(),
            r@ == v@.take(i as int),
        decreases v.len() - i,
    {
        r.push(v[i]);
        i += 1;
    }
    r
}

/// Whether a character has the Unicode `White_Space` property.
pub open spec fn is_space(c: char) -> bool {
    let n = c as u32;
    ||| 0x09 <= n <= 0x0D
    ||| n == 0x20
    ||| n == 0x85
    ||| n == 0xA0
    ||| n == 0x1680
    ||| 0x2000 <= n <= 0x200A
    ||| n == 0x2028
    ||| n == 0x2029
    ||| n == 0x202F
    ||| n == 0x205F
    ||| n == 0x3000
}

/// Executable form of [`is_space`].
pub fn is_space_char(c: char) -> (b: bool)
    ensures
        b == is_space(c),
{
    let n: u32 = c as u32;
    (0x09 <= n && n <= 0x0D) || n == 0x20 || n == 0x85 || n == 0xA0 || n == 0x1680 || (0x2000 <= n
        && n <= 0x200A) || n == 0x2028 || n == 0x2029 || n == 0x202F || n == 0x205F || n == 0x3000
}

/// The text without its leading white space.
pub open spec fn trim_start(s: Seq<char>) -> Seq<char>
    decreases s.len(),
{
    if s.len() > 0 && is_space(s[0]) {
        trim_start(s.drop_first())
    } else {
        s
    }
}

/// The text without its trailing white space.
pub open spec fn trim_end(s: Seq<char>) -> Seq<char>
    decreases s.len(),
{
    if s.len() > 0 && is_space(s.last()) {
        trim_end(s.drop_last())
    } else {
        s
    }
}

/// The text without leading and trailing white space.
pub open spec fn trim(s: Seq<char>) -> Seq<char> {
    trim_end(trim_start(s))
}

/// Whether the text holds nothing but white space.
pub open spec fn is_blank(s: Seq<char>) -> bool {
    trim_start(s).len() == 0
}

/// Skipping `k` leading white-space characters gives the start-trimmed text
/// when the character after them, if any, is not white space.
pub proof fn lemma_trim_start_at(s: Seq<char>, k: int)
    requires
        0 <= k <= s.len(),
        forall|j: int| 0 <= j < k ==> is_space(#[trigger] s[j]),
        k == s.len() || !is_space(s[k]),
    ensures
        trim_start(s) == s.skip(k),
    decreases k,
{
    if k == 0 {
        assert(s.skip(0) =~= s);
    } else {
        let t = s.drop_first();
        assert forall|j: int| 0 <= j < k - 1 implies is_space(#[trigger] t[j]) by {
            assert(t[j] == s[j + 1]);
        }
        lemma_trim_start_at(t, k - 1);
        assert(t.skip(k - 1) =~= s.skip(k));
    }
}

/// Keeping all but trailing white-space characters gives the end-trimmed
/// text when the character before them, if any, is not white space.
pub proof fn lemma_trim_end_at(s: Seq<char>, k: int)
    requires
        0 <= k <= s.len(),
        forall|j: int| k <= j < s.len() ==> is_space(#[trigger] s[j]),
        k == 0 || !is_space(s[k - 1]),
    ensures
        trim_end(s) == s.take(k),
    decreases s.len() - k,
{
    if k == s.len() {
        assert(s.take(k) =~= s);
    } else {
        let t = s.drop_last();
        lemma_trim_end_at(t, k);
        assert(t.take(k) =~= s.take(k));
    }
}

/// The start-trimmed text is an end of the text and begins with no white
/// space.
pub proof fn lemma_trim_start_shape(s: Seq<char>)
    ensures
        trim_start(s).len() <= s.len(),
        trim_start(s) == s.skip(s.len() - trim_start(s).len()),
        trim_start(s).len() == 0 || !is_space(trim_start(s)[0]),
    decreases s.len(),
{
    if s.len() > 0 && is_space(s[0]) {
        let t = s.drop_first();
        lemma_trim_start_shape(t);
        assert(t.skip(t.len() - trim_start(t).len()) =~= s.skip(s.len() - trim_start(t).len()));
    } else {
        assert(s.skip(0) =~= s);
    }
}

/// The end-trimmed text is a beginning of the text and ends with no white
/// space.
pub proof fn lemma_trim_end_shape(s: Seq<char>)
    ensures
        trim_end(s).len() <= s.len(),
        trim_end(s) == s.take(trim_end(s).len() as int),
        trim_end(s).len() == 0 || !is_space(trim_end(s).last()),
    decreases s.len(),
{
    if s.len() > 0 && is_space(s.last()) {
        let t = s.drop_last();
        lemma_trim_end_shape(t);
        assert(t.take(trim_end(t).len() as int) =~= s.take(trim_end(t).len() as int));
    } else {
        assert(s.take(s.len() as int) =~= s);
    }
}

/// Trimming a trimmed text changes nothing.
pub proof fn lemma_trim_idempotent(s: Seq<char>)
    ensures
        trim(trim(s)) == trim(s),
{
    let u = trim_start(s);
    let t = trim_end(u);
    lemma_trim_start_shape(s);
    lemma_trim_end_shape(u);
    if t.len() > 0 {
        assert(t[0] == u[0]);
        assert(trim_start(t) == t);
        assert(trim_end(t) == t);
    }
}

/// The index of the first character at or after `from` that is not white
/// space, or the length of the slice.
pub(crate) fn skip_spaces(v: &[char], from: usize) -> (k: usize)
    requires
        from <= v.len(),
    ensures
        from <= k <= v.len(),
        forall|j: int| from <= j < k ==> is_space(#[trigger] v@[j]),
        k == v.len() || !is_space(v@[k as int]),
        v@.skip(k as int) == trim_start(v@.skip(from as int)),
{
    let mut k: usize = from;
    while k < v.len() && is_space_char(v[k])
        invariant
            from <= k <= v.len(),
            forall|j: int| from <= j < k ==> is_space(#[trigger] v@[j]),
        decreases v.len() - k,
    {
        k += 1;
    }
    proof {
        let s = v@.skip(from as int);
        lemma_trim_start_at(s, k - from);
        assert(s.skip(k - from) =~= v@.skip(k as int));
    }
    k
}

/// The trimmed part of a slice.
pub fn trim_chars(v: &[char]) -> (r: &[char])
    ensures
        r@ == trim(v@),
{
    let a = skip_spaces(v, 0);
    let mut b: usize = v.len();
    while b > a && is_space_char(v[b - 1])
        invariant
            a <= b <= v.len(),
            forall|j: int| b <= j < v.len() ==> is_space(#[trigger] v@[j]),
        decreases b,
    {
        b -= 1;
    }
    proof {
        assert(v@.skip(0) =~= v@);
        let s = v@.skip(a as int);
        assert(b > a ==> s[b - a - 1] == v@[b - 1]);
        assert forall|j: int| b - a <= j < s.len() implies is_space(#[trigger] s[j]) by {
            assert(s[j] == v@[j + a]);
        }
        lemma_trim_end_at(s, b - a);
        assert(s.take(b - a) =~= v@.subrange(a as int, b as int));
    }
    slice_subrange(v, a, b)
}


/// Whether `p` occurs in `s` starting at index `i`.
pub open spec fn occurs_at(s: Seq<char>, p: Seq<char>, i: int) -> bool {
    0 <= i && i + p.len() <= s.len() && s.subrange(i, i + p.len()) == p
}

/// Whether `s` begins with `p`.
pub open spec fn starts_with(s: Seq<char>, p: Seq<char>) -> bool {
    occurs_at(s, p, 0)
}

/// Whether `p` occurs somewhere in `s`.
pub open spec fn contains_text(s: Seq<char>, p: Seq<char>) -> bool {
    exists|i: int| occurs_at(s, p, i)
}

/// Whether two slices hold the same characters.
pub fn same_chars(a: &[char], b: &[char]) -> (r: bool)
    ensures
        r == (a@ == b@),
{
    if a.len() != b.len() {
        return false;
    }
    let mut i: usize = 0;
    while i < a.len()
        invariant
            a.len() == b.len(),
            i <= a.len(),
            forall|j: int| 0 <= j < i ==> a@[j] == b@[j],
        decreases a.len() - i,
    {
        if a[i] != b[i] {
            return false;
        }
        i += 1;
    }
    assert(a@ =~= b@);
    true
}

/// Executable form of [`occurs_at`].
pub fn occurs_at_chars(s: &[char], p: &[char], i: usize) -> (r: bool)
    ensures
        r == occurs_at(s@, p@, i as int),
{
    if i > s.len() || p.len() > s.len() - i {
        return false;
    }
    let mut k: usize = 0;
    while k < p.len()
        invariant
            i + p.len() <= s.len(),
            k <= p.len(),
            forall|j: int| 0 <= j < k ==> s@[i + j] == p@[j],
        decreases p.len() - k,
    {
        if s[i + k] != p[k] {
            assert(s@.subrange(i as int, i + p.len())[k as int] == s@[i + k]);
            return false;
        }
        k += 1;
    }
    assert(s@.subrange(i as int, i + p.len()) =~= p@);
    true
}

/// Executable form of [`starts_with`].
pub fn starts_with_chars(s: &[char], p: &[char]) -> (r: bool)
    ensures
        r == starts_with(s@, p@),
{
    occurs_at_chars(s, p, 0)
}

/// Executable form of [`contains_text`].
pub fn contains_chars(s: &[char], p: &[char]) -> (r: bool)
    ensures
        r == contains_text(s@, p@),
{
    if p.len() > s.len() {
        return false;
    }
    let last: usize = s.len() - p.len();
    let mut i: usize = 0;
    loop
        invariant
            last == s.len() - p.len(),
            i <= last,
            forall|j: int| 0 <= j < i ==> !occurs_at(s@, p@, j),
        decreases last - i,
    {
        if occurs_at_chars(s, p, i) {
            return true;
        }
        if i == last {
            return false;
        }
        i += 1;
    }
}

/// Whether a character occurs in a slice.
pub fn has_char(s: &[char], c: char) -> (r: bool)
    ensures
        r == s@.contains(c),
{
    let mut i: usize = 0;
    while i < s.len()
        invariant
            i <= s.len(),
            forall|j: int| 0 <= j < i ==> s@[j] != c,
        decreases s.len() - i,
    {
        if s[i] == c {
            return true;
        }
        i += 1;
    }
    false
}

/// The text without its trailing `/` characters.
pub open spec fn strip_slashes(s: Seq<char>) -> Seq<char>
    decreases s.len(),
{
    if s.len() > 0 && s.last() == '/' {
        strip_slashes(s.drop_last())
    } else {
        s
    }
}

/// Keeping all but a trailing run of `/` gives the stripped text when the
/// character before the run, if any, is not `/`.
pub proof fn lemma_strip_slashes_at(s: Seq<char>, k: int)
    requires
        0 <= k <= s.len(),
        forall|j: int| k <= j < s.len() ==> #[trigger] s[j] == '/',
        k == 0 || s[k - 1] != '/',
    ensures
        strip_slashes(s) == s.take(k),
    decreases s.len() - k,
{
    if k == s.len() {
        assert(s.take(k) =~= s);
    } else {
        let t = s.drop_last();
        lemma_strip_slashes_at(t, k);
        assert(t.take(k) =~= s.take(k));
    }
}

/// Executable form of [`strip_slashes`].
pub fn strip_slashes_chars(v: &[char]) -> (r: &[char])
    ensures
        r@ == strip_slashes(v@),
{
    let mut b: usize = v.len();
    while b > 0 && v[b - 1] == '/'
        invariant
            b <= v.len(),
            forall|j: int| b <= j < v.len() ==> #[trigger] v@[j] == '/',
        decreases b,
    {
        b -= 1;
    }
    proof {
        lemma_strip_slashes_at(v@, b as int);
    }
    slice_subrange(v, 0, b)
}

/// The part of a path after its last `/`: the whole path where it has none.
pub open spec fn last_segment(x: Seq<char>) -> Seq<char>
    decreases x.len(),
{
    if x.len() == 0 || x.last() == '/' {
        Seq::empty()
    } else {
        last_segment(x.drop_last()).push(x.last())
    }
}

/// The last segment starts right after the last `/`.
pub proof fn lemma_last_segment_at(x: Seq<char>, k: int)
    requires
        0 <= k <= x.len(),
        forall|j: int| k <= j < x.len() ==> #[trigger] x[j] != '/',
        k == 0 || x[k - 1] == '/',
    ensures
        last_segment(x) == x.skip(k),
    decreases x.len() - k,
{
    if k == x.len() {
        assert(x.skip(k) =~= Seq::<char>::empty());
    } else {
        let t = x.drop_last();
        lemma_last_segment_at(t, k);
        assert(t.skip(k).push(x.last()) =~= x.skip(k));
    }
}

/// The last segment is no longer than the path.
pub proof fn lemma_last_segment_len(x: Seq<char>)
    ensures
        last_segment(x).len() <= x.len(),
    decreases x.len(),
{
    if x.len() > 0 && x.last() != '/' {
        lemma_last_segment_len(x.drop_last());
    }
}

/// Executable form of [`last_segment`].
pub fn last_segment_chars(v: &[char]) -> (r: &[char])
    ensures
        r@ == last_segment(v@),
{
    let mut k: usize = v.len();
    while k > 0 && v[k - 1] != '/'
        invariant
            k <= v.len(),
            forall|j: int| k <= j < v.len() ==> #[trigger] v@[j] != '/',
        decreases k,
    {
        k -= 1;
    }
    proof {
        lemma_last_segment_at(v@, k as int);
    }
    slice_subrange(v, k, v.len())
}

/// Whether `d` occurs in `x` at index `i` as a whole `/`-delimited segment.
pub open spec fn segment_at(x: Seq<char>, d: Seq<char>, i: int) -> bool {
    &&& occurs_at(x, d, i)
    &&& (i == 0 || x[i - 1] == '/')
    &&& (i + d.len() == x.len() || x[i + d.len()] == '/')
}

/// Whether one of the pieces that `/` splits `x` into equals `d`.
pub open spec fn has_segment(x: Seq<char>, d: Seq<char>) -> bool {
    !d.contains('/') && exists|i: int| segment_at(x, d, i)
}

/// Executable form of [`has_segment`].
pub fn has_segment_chars(x: &[char], d: &[char]) -> (r: bool)
    ensures
        r == has_segment(x@, d@),
{
    if has_char(d, '/') || d.len() > x.len() {
        return false;
    }
    let last: usize = x.len() - d.len();
    let mut i: usize = 0;
    loop
        invariant
            last == x.len() - d.len(),
            i <= last,
            !d@.contains('/'),
            forall|j: int| 0 <= j < i ==> !segment_at(x@, d@, j),
        decreases last - i,
    {
        if (i == 0 || x[i - 1] == '/') && occurs_at_chars(x, d, i) && (i == last || x[i + d.len()]
            == '/') {
            assert(segment_at(x@, d@, i as int));
            return true;
        }
        if i == last {
            return false;
        }
        i += 1;
    }
}


/// The texts that a sequence of character vectors holds.
pub open spec fn views(ls: Seq<Vec<char>>) -> Seq<Seq<char>> {
    Seq::new(ls.len(), |i: int| ls[i]@)
}

/// The index of the first line feed of the text, or its length.
pub open spec fn line_end(s: Seq<char>) -> int
    decreases s.len(),
{
    if s.len() == 0 || s[0] == '\n' {
        0
    } else {
        1 + line_end(s.drop_first())
    }
}

/// A line without the carriage return that stood before its line feed.
pub open spec fn strip_cr(s: Seq<char>) -> Seq<char> {
    if s.len() > 0 && s.last() == '\r' {
        s.drop_last()
    } else {
        s
    }
}

/// The lines of a text. A line ends at a line feed, or at a carriage return
/// directly followed by one; the last line needs no line ending, and a text
/// that ends with a line ending has no empty line after it.
pub open spec fn lines(s: Seq<char>) -> Seq<Seq<char>>
    decreases s.len(),
{
    if s.len() == 0 {
        Seq::empty()
    } else {
        let k = line_end(s);
        if 0 <= k < s.len() {
            seq![strip_cr(s.take(k))] + lines(s.skip(k + 1))
        } else {
            seq![s]
        }
    }
}

/// The first line feed is where no earlier character is one.
pub proof fn lemma_line_end_at(s: Seq<char>, k: int)
    requires
        0 <= k <= s.len(),
        forall|j: int| 0 <= j < k ==> #[trigger] s[j] != '\n',
        k == s.len() || s[k] == '\n',
    ensures
        line_end(s) == k,
    decreases k,
{
    if k > 0 {
        let t = s.drop_first();
        assert forall|j: int| 0 <= j < k - 1 implies #[trigger] t[j] != '\n' by {
            assert(t[j] == s[j + 1]);
        }
        lemma_line_end_at(t, k - 1);
    }
}

/// Splits a text into its lines.
pub fn split_lines(v: &[char]) -> (out: Vec<Vec<char>>)
    ensures
        views(out@) == lines(v@),
{
    let mut out: Vec<Vec<char>> = Vec::new();
    let mut pos: usize = 0;
    assert(v@.skip(0) =~= v@);
    assert(views(out@) + lines(v@.skip(0)) =~= lines(v@));
    while pos < v.len()
        invariant
            pos <= v.len(),
            views(out@) + lines(v@.skip(pos as int)) == lines(v@),
        decreases v.len() - pos,
    {
        let mut k: usize = pos;
        while k < v.len() && v[k] != '\n'
            invariant
                pos <= k <= v.len(),
                forall|j: int| pos <= j < k ==> #[trigger] v@[j] != '\n',
            decreases v.len() - k,
        {
            k += 1;
        }
        let ghost rest = v@.skip(pos as int);
        let ghost before = views(out@);
        proof {
            assert forall|j: int| 0 <= j < k - pos implies #[trigger] rest[j] != '\n' by {
                assert(rest[j] == v@[pos + j]);
            }
            lemma_line_end_at(rest, k - pos);
            assert(rest.take(k - pos) =~= v@.subrange(pos as int, k as int));
        }
        if k == v.len() {
            let line = copy_chars(slice_subrange(v, pos, k));
            out.push(line);
            proof {
                assert(rest =~= v@.subrange(pos as int, k as int));
                assert(v@.skip(k as int) =~= Seq::<char>::empty());
                assert(views(out@) =~= before.push(rest));
                assert(before + lines(rest) =~= before.push(rest) + lines(v@.skip(k as int)));
            }
            pos = k;
        } else {
            let end: usize = if k > pos && v[k - 1] == '\r' {
                k - 1
            } else {
                k
            };
            let line = copy_chars(slice_subrange(v, pos, end));
            out.push(line);
            proof {
                let raw = rest.take(k - pos);
                assert(k > pos ==> raw.last() == v@[k - 1]);
                assert(strip_cr(raw) =~= v@.subrange(pos as int, end as int));
                assert(rest.skip(k - pos + 1) =~= v@.skip(k + 1));
                assert(views(out@) =~= before.push(strip_cr(raw)));
                assert(before + lines(rest) =~= before.push(strip_cr(raw)) + lines(
                    v@.skip(k + 1),
                ));
            }
            pos = k + 1;
        }
    }
    proof {
        assert(v@.skip(pos as int) =~= Seq::<char>::empty());
        assert(views(out@) + Seq::<Seq<char>>::empty() =~= views(out@));
    }
    out
}

/// The index of the first white-space character of the text, or its length.
pub open spec fn word_end(s: Seq<char>) -> int
    decreases s.len(),
{
    if s.len() == 0 || is_space(s[0]) {
        0
    } else {
        1 + word_end(s.drop_first())
    }
}

/// The words of a text: its maximal runs of characters that are not white
/// space, in order.
pub open spec fn words(s: Seq<char>) -> Seq<Seq<char>>
    decreases s.len(),
{
    let t = trim_start(s);
    let k = word_end(t);
    if 0 < k <= t.len() && t.len() <= s.len() {
        seq![t.take(k)] + words(t.skip(k))
    } else {
        Seq::empty()
    }
}

/// The first white-space character is where no earlier character is one.
pub proof fn lemma_word_end_at(s: Seq<char>, k: int)
    requires
        0 <= k <= s.len(),
        forall|j: int| 0 <= j < k ==> !is_space(#[trigger] s[j]),
        k == s.len() || is_space(s[k]),
    ensures
        word_end(s) == k,
    decreases k,
{
    if k > 0 {
        let t = s.drop_first();
        assert forall|j: int| 0 <= j < k - 1 implies !is_space(#[trigger] t[j]) by {
            assert(t[j] == s[j + 1]);
        }
        lemma_word_end_at(t, k - 1);
    }
}

/// Splits a text into its words.
pub fn split_words(v: &[char]) -> (out: Vec<Vec<char>>)
    ensures
        views(out@) == words(v@),
{
    let mut out: Vec<Vec<char>> = Vec::new();
    let mut pos: usize = 0;
    assert(v@.skip(0) =~= v@);
    assert(views(out@) + words(v@.skip(0)) =~= words(v@));
    loop
        invariant
            pos <= v.len(),
            views(out@) + words(v@.skip(pos as int)) == words(v@),
        ensures
            views(out@) == words(v@),
        decreases v.len() - pos,
    {
        let a = skip_spaces(v, pos);
        let ghost rest = v@.skip(pos as int);
        let ghost t = v@.skip(a as int);
        let ghost before = views(out@);
        if a == v.len() {
            proof {
                assert(t =~= Seq::<char>::empty());
                assert(before + Seq::<Seq<char>>::empty() =~= before);
            }
            break;
        }
        let mut b: usize = a;
        while b < v.len() && !is_space_char(v[b])
            invariant
                a <= b <= v.len(),
                forall|j: int| a <= j < b ==> !is_space(#[trigger] v@[j]),
            decreases v.len() - b,
        {
            b += 1;
        }
        let word = copy_chars(slice_subrange(v, a, b));
        out.push(word);
        proof {
            assert forall|j: int| 0 <= j < b - a implies !is_space(#[trigger] t[j]) by {
                assert(t[j] == v@[a + j]);
            }
            lemma_word_end_at(t, b - a);
            assert(t.take(b - a) =~= v@.subrange(a as int, b as int));
            assert(t.skip(b - a) =~= v@.skip(b as int));
            assert(views(out@) =~= before.push(t.take(b - a)));
            assert(before + words(rest) =~= before.push(t.take(b - a)) + words(v@.skip(b as int)));
        }
        pos = b;
    }
    out
}


/// Appends the characters of a slice to a string.
pub fn append_chars(s: &mut String, v: &[char])
    ensures
        final(s)@ == old(s)@ + v@,
{
    let mut i: usize = 0;
    assert(s@ =~= old(s)@ + v@.take(0));
    while i < v.len()
        invariant
            i <= v.len(),
            s@ == old(s)@ + v@.take(i as int),
        decreases v.len() - i,
    {
        push_char(s, v[i]);
        assert(s@ =~= old(s)@ + v@.take(i + 1));
        i += 1;
    }
    assert(v@.take(v.len() as int) =~= v@);
}

/// The lower-case form of an ASCII capital letter; any other character
/// itself.
pub open spec fn ascii_lower(c: char) -> char {
    if 0x41 <= c as u32 <= 0x5A {
        ((c as u32 + 0x20) as u8) as char
    } else {
        c
    }
}

/// Executable form of [`ascii_lower`].
pub fn ascii_lower_char(c: char) -> (r: char)
    ensures
        r == ascii_lower(c),
{
    let n: u32 = c as u32;
    if 0x41 <= n && n <= 0x5A {
        ((n + 0x20) as u8) as char
    } else {
        c
    }
}

/// The text with every ASCII capital letter in lower case.
pub open spec fn ascii_lower_text(s: Seq<char>) -> Seq<char> {
    Seq::new(s.len(), |i: int| ascii_lower(s[i]))
}

/// Executable form of [`ascii_lower_text`].
pub fn ascii_lower_chars(v: &[char]) -> (r: Vec<char>)
    ensures
        r@ == ascii_lower_text(v@),
{
    let mut r: Vec<char> = Vec::new();
    let mut i: usize = 0;
    while i < v.len()
        invariant
            i <= v.len(),
            r.len() == i,
            forall|j: int| 0 <= j < i ==> r@[j] == ascii_lower(v@[j]),
        decreases v.len() - i,
    {
        r.push(ascii_lower_char(v[i]));
        i += 1;
    }
    assert(r@ =~= ascii_lower_text(v@));
    r
}

/// Whether a literal text occurs somewhere in the characters.
pub fn contains_str(s: &[char], needle: &str) -> (r: bool)
    ensures
        r == contains_text(s@, needle@),
{
    let n = to_chars(needle);
    contains_chars(s, n.as_slice())
}

/// Whether one of the texts of the vector equals the given one.
pub fn holds_text(list: &Vec<Vec<char>>, t: &[char]) -> (r: bool)
    ensures
        r == views(list@).contains(t@),
{
    let mut i: usize = 0;
    while i < list.len()
        invariant
            i <= list.len(),
            forall|j: int| 0 <= j < i ==> views(list@)[j] != t@,
        decreases list.len() - i,
    {
        if same_chars(list[i].as_slice(), t) {
            assert(views(list@)[i as int] == t@);
            return true;
        }
        i += 1;
    }
    false
}

} // verus!
