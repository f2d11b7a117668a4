//! Searching, trimming and splitting of text.

use vstd::prelude::*;

use crate::text;
use crate::text::{chars_of, string_of};

verus! {

/// Whether a character is white space: the characters with the Unicode
/// property `White_Space`.
pub open spec fn is_space(c: char) -> bool {
    ||| '\u{9}' <= c && c <= '\u{d}'
    ||| c == ' '
    ||| c == '\u{85}'
    ||| c == '\u{a0}'
    ||| c == '\u{1680}'
    ||| '\u{2000}' <= c && c <= '\u{200a}'
    ||| c == '\u{2028}'
    ||| c == '\u{2029}'
    ||| c == '\u{202f}'
    ||| c == '\u{205f}'
    ||| c == '\u{3000}'
}

/// Whether a character is white space.
pub fn space(c: char) -> (r: bool)
    ensures
        r == is_space(c),
{
    ('\u{9}' <= c && c <= '\u{d}') || c == ' ' || c == '\u{85}' || c == '\u{a0}' || c == '\u{1680}'
        || ('\u{2000}' <= c && c <= '\u{200a}') || c == '\u{2028}' || c == '\u{2029}' || c
        == '\u{202f}' || c == '\u{205f}' || c == '\u{3000}'
}

/// Whether a character is a control code (Unicode category `Cc`).
pub open spec fn is_control(c: char) -> bool {
    c <= '\u{1f}' || ('\u{7f}' <= c && c <= '\u{9f}')
}

/// Whether a text holds a control code.
pub fn has_control(s: &str) -> (r: bool)
    ensures
        r == exists|i: int| 0 <= i < s@.len() && is_control(#[trigger] s@[i]),
{
    let cs: Vec<char> = chars_of(s);
    let mut i: usize = 0;
    while i < cs.len()
        invariant
            cs@ == s@,
            i <= cs.len(),
            forall|k: int| 0 <= k < i ==> !is_control(#[trigger] s@[k]),
        decreases cs.len() - i,
    {
        let c: char = cs[i];
        if c <= '\u{1f}' || ('\u{7f}' <= c && c <= '\u{9f}') {
            assert(is_control(s@[i as int]));
            return true;
        }
        i = i + 1;
    }
    false
}

// ---- Searching --------------------------------------------------------------

/// The first index at or after `i` that holds `c`; the length where there is
/// none.
pub open spec fn find_from(s: Seq<char>, c: char, i: int) -> int
    decreases s.len() - i,
{
    if i >= s.len() {
        s.len() as int
    } else if s[i] == c {
        i
    } else {
        find_from(s, c, i + 1)
    }
}

/// The first index at or after `from` that holds `c`.
pub fn find_char(cs: &Vec<char>, c: char, from: usize) -> (at: usize)
    requires
        from <= cs.len(),
    ensures
        at == find_from(cs@, c, from as int),
        from <= at <= cs.len(),
        at < cs.len() ==> cs@[at as int] == c,
        forall|k: int| from <= k < at ==> cs@[k] != c,
{
    let mut i: usize = from;
    while i < cs.len()
        invariant
            from <= i <= cs.len(),
            find_from(cs@, c, from as int) == find_from(cs@, c, i as int),
            forall|k: int| from <= k < i ==> cs@[k] != c,
        decreases cs.len() - i,
    {
        if cs[i] == c {
            return i;
        }
        i = i + 1;
    }
    i
}

pub proof fn lemma_find_from(s: Seq<char>, c: char, i: int)
    requires
        0 <= i <= s.len(),
    ensures
        i <= find_from(s, c, i) <= s.len(),
        find_from(s, c, i) < s.len() ==> s[find_from(s, c, i)] == c,
        forall|k: int| i <= k < find_from(s, c, i) ==> s[k] != c,
    decreases s.len() - i,
{
    if i < s.len() && s[i] != c {
        lemma_find_from(s, c, i + 1);
    }
}

/// Whether `part` stands in `whole` at index `at`.
pub open spec fn occurs_at(whole: Seq<char>, part: Seq<char>, at: int) -> bool {
    &&& 0 <= at
    &&& at + part.len() <= whole.len()
    &&& forall|i: int| 0 <= i < part.len() ==> #[trigger] whole[at + i] == part[i]
}

/// Whether `part` stands somewhere in `whole`.
pub open spec fn has_part(whole: Seq<char>, part: Seq<char>) -> bool {
    exists|at: int| occurs_at(whole, part, at)
}

fn occurs(whole: &Vec<char>, part: &Vec<char>, at: usize) -> (r: bool)
    ensures
        r == occurs_at(whole@, part@, at as int),
{
    if at > whole.len() || part.len() > whole.len() - at {
        return false;
    }
    let mut i: usize = 0;
    while i < part.len()
        invariant
            i <= part.len(),
            at + part.len() <= whole.len(),
            forall|k: int| 0 <= k < i ==> #[trigger] whole@[at + k] == part@[k],
        decreases part.len() - i,
    {
        if whole[at + i] != part[i] {
            assert(whole@[at + i as int] != part@[i as int]);
            return false;
        }
        i = i + 1;
    }
    true
}

/// Whether a text begins with another.
pub fn starts_with(s: &str, prefix: &str) -> (r: bool)
    ensures
        r == occurs_at(s@, prefix@, 0),
{
    let w: Vec<char> = chars_of(s);
    let p: Vec<char> = chars_of(prefix);
    occurs(&w, &p, 0)
}

/// Whether a text ends with another.
pub fn ends_with(s: &str, suffix: &str) -> (r: bool)
    ensures
        r == occurs_at(s@, suffix@, s@.len() - suffix@.len()),
{
    let w: Vec<char> = chars_of(s);
    let p: Vec<char> = chars_of(suffix);
    if p.len() > w.len() {
        return false;
    }
    occurs(&w, &p, w.len() - p.len())
}

/// What follows a prefix of a text, where it has that prefix.
pub open spec fn after_prefix(s: Seq<char>, prefix: Seq<char>) -> Option<Seq<char>> {
    if occurs_at(s, prefix, 0) {
        Some(s.skip(prefix.len() as int))
    } else {
        None
    }
}

/// What follows a prefix of a text.
pub fn strip_prefix(s: &str, prefix: &str) -> (out: Option<String>)
    ensures
        text::opt_view(out) == after_prefix(s@, prefix@),
{
    let w: Vec<char> = chars_of(s);
    let p: Vec<char> = chars_of(prefix);
    if occurs(&w, &p, 0) {
        let rest: String = string_of(&w, p.len(), w.len());
        assert(rest@ =~= s@.skip(prefix@.len() as int));
        Some(rest)
    } else {
        None
    }
}

/// Whether a text holds another.
pub fn contains_str(s: &str, part: &str) -> (r: bool)
    ensures
        r == has_part(s@, part@),
{
    let w: Vec<char> = chars_of(s);
    let p: Vec<char> = chars_of(part);
    if p.len() > w.len() {
        return false;
    }
    let last: usize = w.len() - p.len();
    let mut at: usize = 0;
    while at < last
        invariant
            w@ == s@,
            p@ == part@,
            last == w.len() - p.len(),
            at <= last,
            forall|k: int| 0 <= k < at ==> !occurs_at(s@, part@, k),
        decreases last - at,
    {
        if occurs(&w, &p, at) {
            return true;
        }
        at = at + 1;
    }
    occurs(&w, &p, at)
}

/// Whether a text holds a character.
pub fn contains_char(s: &str, c: char) -> (r: bool)
    ensures
        r == s@.contains(c),
{
    let w: Vec<char> = chars_of(s);
    let at: usize = find_char(&w, c, 0);
    if at < w.len() {
        assert(s@[at as int] == c);
        true
    } else {
        false
    }
}

// ---- Trimming ---------------------------------------------------------------

/// The first index at or after `i` that holds no white space.
pub open spec fn skip_space(s: Seq<char>, i: int) -> int
    decreases s.len() - i,
{
    if i >= s.len() {
        s.len() as int
    } else if is_space(s[i]) {
        skip_space(s, i + 1)
    } else {
        i
    }
}

/// The first index at or after `i` that holds white space.
pub open spec fn skip_word(s: Seq<char>, i: int) -> int
    decreases s.len() - i,
{
    if i >= s.len() {
        s.len() as int
    } else if is_space(s[i]) {
        i
    } else {
        skip_word(s, i + 1)
    }
}

/// The end of `s[a..b]` without its trailing white space.
pub open spec fn space_end(s: Seq<char>, a: int, b: int) -> int
    decreases b - a,
{
    if b <= a {
        a
    } else if is_space(s[b - 1]) {
        space_end(s, a, b - 1)
    } else {
        b
    }
}

/// The text without leading and trailing white space.
pub open spec fn trimmed(s: Seq<char>) -> Seq<char> {
    let a = skip_space(s, 0);
    s.subrange(a, space_end(s, a, s.len() as int))
}

proof fn lemma_skip_space(s: Seq<char>, i: int)
    requires
        0 <= i <= s.len(),
    ensures
        i <= skip_space(s, i) <= s.len(),
    decreases s.len() - i,
{
    if i < s.len() && is_space(s[i]) {
        lemma_skip_space(s, i + 1);
    }
}

proof fn lemma_space_end(s: Seq<char>, a: int, b: int)
    requires
        a <= b,
    ensures
        a <= space_end(s, a, b) <= b,
    decreases b - a,
{
    if a < b && is_space(s[b - 1]) {
        lemma_space_end(s, a, b - 1);
    }
}

/// What is left of a text stands in it in one piece.
pub proof fn lemma_trimmed(s: Seq<char>) -> (a: int)
    ensures
        0 <= a,
        a + trimmed(s).len() <= s.len(),
        trimmed(s) == s.subrange(a, a + trimmed(s).len()),
{
    let a = skip_space(s, 0);
    lemma_skip_space(s, 0);
    lemma_space_end(s, a, s.len() as int);
    a
}

/// A text that has been trimmed stays as it is when it is trimmed again.
pub proof fn law_trimming_twice(s: Seq<char>)
    ensures
        trimmed(trimmed(s)) == trimmed(s),
{
    let a = skip_space(s, 0);
    let b = space_end(s, a, s.len() as int);
    let t = trimmed(s);
    lemma_skip_space(s, 0);
    lemma_space_end(s, a, s.len() as int);
    if t.len() > 0 {
        lemma_word_begins(s, 0);
        lemma_word_ends(s, a, s.len() as int);
        assert(t[0] == s[a]);
        assert(t[t.len() - 1] == s[b - 1]);
        assert(skip_space(t, 0) == 0);
        assert(space_end(t, 0, t.len() as int) == t.len());
    } else {
        assert(skip_space(t, 0) == 0);
        assert(space_end(t, 0, 0) == 0);
    }
    assert(trimmed(t) =~= t);
}

proof fn lemma_word_begins(s: Seq<char>, i: int)
    requires
        0 <= i,
        skip_space(s, i) < s.len(),
    ensures
        !is_space(s[skip_space(s, i)]),
    decreases s.len() - i,
{
    if i < s.len() && is_space(s[i]) {
        lemma_word_begins(s, i + 1);
    }
}

proof fn lemma_word_ends(s: Seq<char>, a: int, b: int)
    requires
        a < space_end(s, a, b),
    ensures
        !is_space(s[space_end(s, a, b) - 1]),
    decreases b - a,
{
    if a < b && is_space(s[b - 1]) {
        lemma_word_ends(s, a, b - 1);
    }
}

fn skip_space_at(cs: &Vec<char>, from: usize) -> (at: usize)
    requires
        from <= cs.len(),
    ensures
        at == skip_space(cs@, from as int),
        from <= at <= cs.len(),
        at < cs.len() ==> !is_space(cs@[at as int]),
{
    let mut i: usize = from;
    while i < cs.len() && space(cs[i])
        invariant
            from <= i <= cs.len(),
            skip_space(cs@, from as int) == skip_space(cs@, i as int),
        decreases cs.len() - i,
    {
        i = i + 1;
    }
    i
}

fn skip_word_at(cs: &Vec<char>, from: usize) -> (at: usize)
    requires
        from <= cs.len(),
    ensures
        at == skip_word(cs@, from as int),
        from <= at <= cs.len(),
        from < cs.len() && !is_space(cs@[from as int]) ==> from < at,
{
    let mut i: usize = from;
    while i < cs.len() && !space(cs[i])
        invariant
            from <= i <= cs.len(),
            skip_word(cs@, from as int) == skip_word(cs@, i as int),
            i == from || from < cs.len() && !is_space(cs@[from as int]),
        decreases cs.len() - i,
    {
        i = i + 1;
    }
    i
}

/// The text without leading and trailing white space.
pub fn trim(s: &str) -> (out: String)
    ensures
        out@ == trimmed(s@),
{
    let cs: Vec<char> = chars_of(s);
    let a: usize = skip_space_at(&cs, 0);
    let mut b: usize = cs.len();
    while a < b && space(cs[b - 1])
        invariant
            cs@ == s@,
            a <= b <= cs.len(),
            space_end(s@, a as int, s@.len() as int) == space_end(s@, a as int, b as int),
        decreases b - a,
    {
        b = b - 1;
    }
    string_of(&cs, a, b)
}

/// The first index at or after `i` that does not hold `c`.
pub open spec fn skip_char(s: Seq<char>, c: char, i: int) -> int
    decreases s.len() - i,
{
    if i >= s.len() {
        s.len() as int
    } else if s[i] == c {
        skip_char(s, c, i + 1)
    } else {
        i
    }
}

/// The end of `s[a..b]` without the `c` at its end.
pub open spec fn char_end(s: Seq<char>, c: char, a: int, b: int) -> int
    decreases b - a,
{
    if b <= a {
        a
    } else if s[b - 1] == c {
        char_end(s, c, a, b - 1)
    } else {
        b
    }
}

/// The text without every `c` at its start and its end.
pub open spec fn stripped(s: Seq<char>, c: char) -> Seq<char> {
    let a = skip_char(s, c, 0);
    s.subrange(a, char_end(s, c, a, s.len() as int))
}

/// The text without every `c` at its start and its end.
pub fn trim_matches(s: &str, c: char) -> (out: String)
    ensures
        out@ == stripped(s@, c),
{
    let cs: Vec<char> = chars_of(s);
    let mut a: usize = 0;
    while a < cs.len() && cs[a] == c
        invariant
            a <= cs.len(),
            cs@ == s@,
            skip_char(s@, c, 0) == skip_char(s@, c, a as int),
        decreases cs.len() - a,
    {
        a = a + 1;
    }
    let mut b: usize = cs.len();
    while a < b && cs[b - 1] == c
        invariant
            cs@ == s@,
            a <= b <= cs.len(),
            char_end(s@, c, a as int, s@.len() as int) == char_end(s@, c, a as int, b as int),
        decreases b - a,
    {
        b = b - 1;
    }
    string_of(&cs, a, b)
}

// ---- Splitting --------------------------------------------------------------

/// What stands before and after the first `c`, where there is one.
pub open spec fn split_at_char(s: Seq<char>, c: char) -> Option<(Seq<char>, Seq<char>)> {
    let at = find_from(s, c, 0);
    if at < s.len() {
        Some((s.subrange(0, at), s.subrange(at + 1, s.len() as int)))
    } else {
        None
    }
}

/// Splits a text at the first `c`.
pub fn split_once(s: &str, c: char) -> (out: Option<(String, String)>)
    ensures
        match out {
            Some(p) => split_at_char(s@, c) == Some((p.0@, p.1@)),
            None => split_at_char(s@, c) is None,
        },
{
    let cs: Vec<char> = chars_of(s);
    let at: usize = find_char(&cs, c, 0);
    if at < cs.len() {
        Some((string_of(&cs, 0, at), string_of(&cs, at + 1, cs.len())))
    } else {
        None
    }
}

/// A line without one trailing carriage return.
pub open spec fn without_cr(s: Seq<char>) -> Seq<char> {
    if s.len() > 0 && s.last() == '\r' {
        s.drop_last()
    } else {
        s
    }
}

/// The lines of `s` from index `i` on. A line ends with a line feed, or with
/// a carriage return and a line feed; the last line may end with the text.
pub open spec fn lines_from(s: Seq<char>, i: int) -> Seq<Seq<char>>
    decreases s.len() - i,
    when 0 <= i
    via lines_from_decreases
{
    if i >= s.len() {
        Seq::empty()
    } else {
        let at = find_from(s, '\n', i);
        if at < s.len() {
            seq![without_cr(s.subrange(i, at))] + lines_from(s, at + 1)
        } else {
            seq![s.subrange(i, s.len() as int)]
        }
    }
}

#[via_fn]
proof fn lines_from_decreases(s: Seq<char>, i: int) {
    if i < s.len() {
        lemma_find_from(s, '\n', i);
    }
}

/// The lines of a text.
pub open spec fn lines_of(s: Seq<char>) -> Seq<Seq<char>> {
    lines_from(s, 0)
}

/// Splits a text into its lines.
pub fn lines(s: &str) -> (out: Vec<String>)
    ensures
        text::views(out@) == lines_of(s@),
{
    let cs: Vec<char> = chars_of(s);
    let mut out: Vec<String> = Vec::new();
    let mut i: usize = 0;
    assert(text::views(out@) + lines_from(s@, 0) =~= lines_from(s@, 0));
    while i < cs.len()
        invariant
            cs@ == s@,
            i <= cs.len(),
            text::views(out@) + lines_from(s@, i as int) == lines_of(s@),
        decreases cs.len() - i,
    {
        let at: usize = find_char(&cs, '\n', i);
        let ghost before = out@;
        if at < cs.len() {
            let end: usize = if at > i && cs[at - 1] == '\r' {
                at - 1
            } else {
                at
            };
            let line: String = string_of(&cs, i, end);
            assert(line@ =~= without_cr(s@.subrange(i as int, at as int)));
            out.push(line);
            assert(text::views(out@) =~= text::views(before).push(line@));
            assert(text::views(before) + (seq![line@] + lines_from(s@, at + 1)) =~= text::views(out@)
                + lines_from(s@, at + 1));
            i = at + 1;
        } else {
            let line: String = string_of(&cs, i, cs.len());
            out.push(line);
            assert(text::views(out@) =~= text::views(before).push(line@));
            assert(text::views(before) + seq![line@] =~= text::views(out@));
            i = cs.len();
            assert(lines_from(s@, i as int) =~= Seq::<Seq<char>>::empty());
            assert(text::views(out@) + lines_from(s@, i as int) =~= text::views(out@));
        }
    }
    assert(text::views(out@) + lines_from(s@, i as int) =~= text::views(out@));
    out
}

/// The pieces of `s` from index `i` on, cut at every `c`.
pub open spec fn pieces_from(s: Seq<char>, c: char, i: int) -> Seq<Seq<char>>
    decreases s.len() - i,
    when 0 <= i
    via pieces_from_decreases
{
    if i > s.len() {
        Seq::empty()
    } else {
        let at = find_from(s, c, i);
        if at < s.len() {
            seq![s.subrange(i, at)] + pieces_from(s, c, at + 1)
        } else {
            seq![s.subrange(i, s.len() as int)]
        }
    }
}

#[via_fn]
proof fn pieces_from_decreases(s: Seq<char>, c: char, i: int) {
    if i <= s.len() {
        lemma_find_from(s, c, i);
    }
}

/// Splits a text at every `c`.
pub fn split_char(s: &str, c: char) -> (out: Vec<String>)
    ensures
        text::views(out@) == pieces_from(s@, c, 0),
{
    let cs: Vec<char> = chars_of(s);
    let mut out: Vec<String> = Vec::new();
    let mut i: usize = 0;
    assert(text::views(out@) + pieces_from(s@, c, 0) =~= pieces_from(s@, c, 0));
    loop
        invariant
            cs@ == s@,
            i <= cs.len(),
            text::views(out@) + pieces_from(s@, c, i as int) == pieces_from(s@, c, 0),
        decreases cs.len() - i,
    {
        let at: usize = find_char(&cs, c, i);
        let ghost before = out@;
        let piece: String = string_of(&cs, i, at);
        out.push(piece);
        assert(text::views(out@) =~= text::views(before).push(piece@));
        if at < cs.len() {
            assert(text::views(before) + (seq![piece@] + pieces_from(s@, c, at + 1)) =~= text::views(out@)
                + pieces_from(s@, c, at + 1));
            i = at + 1;
        } else {
            assert(text::views(before) + seq![piece@] =~= text::views(out@));
            return out;
        }
    }
}

/// The words of `s` from index `i` on, separated by white space.
pub open spec fn words_from(s: Seq<char>, i: int) -> Seq<Seq<char>>
    decreases s.len() - i,
    when 0 <= i
    via words_from_decreases
{
    let a = skip_space(s, i);
    if a >= s.len() {
        Seq::empty()
    } else {
        let b = skip_word(s, a);
        seq![s.subrange(a, b)] + words_from(s, b)
    }
}

#[via_fn]
proof fn words_from_decreases(s: Seq<char>, i: int) {
    lemma_skips(s, i);
    let a = skip_space(s, i);
    if a < s.len() {
        lemma_skips(s, a);
    }
}

proof fn lemma_skips(s: Seq<char>, i: int)
    requires
        0 <= i,
    ensures
        i <= s.len() ==> i <= skip_space(s, i) <= s.len(),
        skip_space(s, i) < s.len() ==> !is_space(s[skip_space(s, i)]),
        i <= s.len() ==> i <= skip_word(s, i) <= s.len(),
        i < s.len() && !is_space(s[i]) ==> i < skip_word(s, i),
    decreases s.len() - i,
{
    if i < s.len() {
        lemma_skips(s, i + 1);
    }
}

/// Splits a text into its words.
pub fn words(s: &str) -> (out: Vec<String>)
    ensures
        text::views(out@) == words_from(s@, 0),
{
    let cs: Vec<char> = chars_of(s);
    let mut out: Vec<String> = Vec::new();
    let mut i: usize = skip_space_at(&cs, 0);
    proof {
        lemma_skips(s@, 0);
        lemma_words_skip(s@, 0);
        assert(text::views(out@) + words_from(s@, 0) =~= words_from(s@, 0));
    }
    while i < cs.len()
        invariant
            cs@ == s@,
            i <= cs.len(),
            i < cs.len() ==> !is_space(cs@[i as int]),
            text::views(out@) + words_from(s@, i as int) == words_from(s@, 0),
        decreases cs.len() - i,
    {
        let ghost before = out@;
        let b: usize = skip_word_at(&cs, i);
        let word: String = string_of(&cs, i, b);
        out.push(word);
        assert(text::views(out@) =~= text::views(before).push(word@));
        assert(skip_space(s@, i as int) == i);
        assert(text::views(before) + (seq![word@] + words_from(s@, b as int)) =~= text::views(out@)
            + words_from(s@, b as int));
        i = skip_space_at(&cs, b);
        proof {
            lemma_words_skip(s@, b as int);
        }
    }
    assert(skip_space(s@, i as int) == s@.len());
    assert(text::views(out@) + words_from(s@, i as int) =~= text::views(out@));
    out
}

proof fn lemma_words_skip(s: Seq<char>, i: int)
    requires
        0 <= i <= s.len(),
    ensures
        words_from(s, i) == words_from(s, skip_space(s, i)),
{
    lemma_skips(s, i);
    let a = skip_space(s, i);
    lemma_skips(s, a);
    assert(skip_space(s, a) == a);
}

// ---- ASCII case -------------------------------------------------------------

/// A character with an ASCII letter made lower case.
pub open spec fn ascii_lower(c: char) -> char {
    if 'A' <= c && c <= 'Z' {
        (c as int + 32) as char
    } else {
        c
    }
}

/// A text with its ASCII letters made lower case.
pub open spec fn ascii_lowercase(s: Seq<char>) -> Seq<char> {
    s.map_values(|c: char| ascii_lower(c))
}

fn lower_char(c: char) -> (r: char)
    ensures
        r == ascii_lower(c),
{
    if 'A' <= c && c <= 'Z' {
        (c as u8 + 32) as char
    } else {
        c
    }
}

/// A text with its ASCII letters made lower case.
pub fn to_ascii_lowercase(s: &str) -> (out: String)
    ensures
        out@ == ascii_lowercase(s@),
{
    let cs: Vec<char> = chars_of(s);
    let mut out: String = String::new();
    let mut i: usize = 0;
    while i < cs.len()
        invariant
            cs@ == s@,
            i <= cs.len(),
            out@ == ascii_lowercase(s@.take(i as int)),
        decreases cs.len() - i,
    {
        out.push(lower_char(cs[i]));
        i = i + 1;
        assert(s@.take(i as int) =~= s@.take(i - 1).push(s@[i - 1]));
        assert(out@ =~= ascii_lowercase(s@.take(i as int)));
    }
    assert(s@.take(s@.len() as int) =~= s@);
    out
}

proof fn lemma_space_skipped(s: Seq<char>, i: int)
    requires
        0 <= i <= s.len(),
    ensures
        i <= skip_space(s, i) <= s.len(),
        forall|k: int| i <= k < skip_space(s, i) ==> is_space(#[trigger] s[k]),
        skip_space(s, i) < s.len() ==> !is_space(s[skip_space(s, i)]),
    decreases s.len() - i,
{
    if i < s.len() && is_space(s[i]) {
        lemma_space_skipped(s, i + 1);
    }
}

proof fn lemma_space_behind(s: Seq<char>, a: int, b: int)
    requires
        0 <= a <= b <= s.len(),
    ensures
        a <= space_end(s, a, b) <= b,
        forall|k: int| space_end(s, a, b) <= k < b ==> is_space(#[trigger] s[k]),
        space_end(s, a, b) > a ==> !is_space(s[space_end(s, a, b) - 1]),
    decreases b - a,
{
    if b > a && is_space(s[b - 1]) {
        lemma_space_behind(s, a, b - 1);
    }
}

/// Trimming takes just the white space at both ends: what is left stands in the
/// text, with nothing but white space before and behind it, and neither starts
/// nor ends with any.
pub proof fn law_trimming_takes_the_ends(s: Seq<char>) -> (at: int)
    ensures
        ({
            let t = trimmed(s);
            &&& 0 <= at
            &&& at + t.len() <= s.len()
            &&& t == s.subrange(at, at + t.len())
            &&& forall|k: int| 0 <= k < at ==> is_space(#[trigger] s[k])
            &&& forall|k: int| at + t.len() <= k < s.len() ==> is_space(#[trigger] s[k])
            &&& t.len() > 0 ==> !is_space(t[0]) && !is_space(t.last())
        }),
{
    lemma_space_skipped(s, 0);
    let a = skip_space(s, 0);
    lemma_space_behind(s, a, s.len() as int);
    a
}

proof fn lemma_char_skipped(s: Seq<char>, c: char, i: int)
    requires
        0 <= i <= s.len(),
    ensures
        i <= skip_char(s, c, i) <= s.len(),
        forall|k: int| i <= k < skip_char(s, c, i) ==> #[trigger] s[k] == c,
        skip_char(s, c, i) < s.len() ==> s[skip_char(s, c, i)] != c,
    decreases s.len() - i,
{
    if i < s.len() && s[i] == c {
        lemma_char_skipped(s, c, i + 1);
    }
}

pub proof fn lemma_char_behind(s: Seq<char>, c: char, a: int, b: int)
    requires
        0 <= a <= b <= s.len(),
    ensures
        a <= char_end(s, c, a, b) <= b,
        forall|k: int| char_end(s, c, a, b) <= k < b ==> #[trigger] s[k] == c,
        char_end(s, c, a, b) > a ==> s[char_end(s, c, a, b) - 1] != c,
    decreases b - a,
{
    if b > a && s[b - 1] == c {
        lemma_char_behind(s, c, a, b - 1);
    }
}

/// Stripping takes every mark of one kind from both ends, and no other.
pub proof fn law_stripping_takes_the_ends(s: Seq<char>, c: char) -> (at: int)
    ensures
        ({
            let t = stripped(s, c);
            &&& 0 <= at
            &&& at + t.len() <= s.len()
            &&& t == s.subrange(at, at + t.len())
            &&& forall|k: int| 0 <= k < at ==> #[trigger] s[k] == c
            &&& forall|k: int| at + t.len() <= k < s.len() ==> #[trigger] s[k] == c
            &&& t.len() > 0 ==> t[0] != c && t.last() != c
        }),
{
    lemma_char_skipped(s, c, 0);
    let a = skip_char(s, c, 0);
    lemma_char_behind(s, c, a, s.len() as int);
    a
}

/// A text is split at the first mark: what stands before it has none, and both
/// parts with the mark between them are the text.
pub proof fn law_split_at_the_first_mark(s: Seq<char>, c: char)
    ensures
        match split_at_char(s, c) {
            Some((a, b)) => a + seq![c] + b == s && !a.contains(c),
            None => !s.contains(c),
        },
{
    lemma_first_mark(s, c, 0);
    let at = find_from(s, c, 0);
    if at < s.len() {
        let a = s.subrange(0, at);
        let b = s.subrange(at + 1, s.len() as int);
        assert(a + seq![c] + b =~= s);
        if a.contains(c) {
            let k = choose|k: int| 0 <= k < a.len() && a[k] == c;
            assert(s[k] == c);
        }
    } else if s.contains(c) {
        let k = choose|k: int| 0 <= k < s.len() && s[k] == c;
        assert(s[k] == c);
    }
}

proof fn lemma_first_mark(s: Seq<char>, c: char, i: int)
    requires
        0 <= i <= s.len(),
    ensures
        i <= find_from(s, c, i) <= s.len(),
        find_from(s, c, i) < s.len() ==> s[find_from(s, c, i)] == c,
        forall|k: int| i <= k < find_from(s, c, i) ==> #[trigger] s[k] != c,
    decreases s.len() - i,
{
    if i < s.len() && s[i] != c {
        lemma_first_mark(s, c, i + 1);
    }
}

/// The pieces of a text between marks, one after another.
pub open spec fn rejoined(ps: Seq<Seq<char>>, c: char) -> Seq<char>
    decreases ps.len(),
{
    if ps.len() == 0 {
        Seq::empty()
    } else if ps.len() == 1 {
        ps[0]
    } else {
        ps[0] + seq![c] + rejoined(ps.skip(1), c)
    }
}

/// Splitting a text at every mark loses nothing: the pieces hold no mark, and
/// with the mark between them they are the text again.
pub proof fn law_pieces_make_the_text(s: Seq<char>, c: char, i: int)
    requires
        0 <= i <= s.len(),
    ensures
        rejoined(pieces_from(s, c, i), c) == s.skip(i),
        pieces_from(s, c, i).len() > 0,
        forall|k: int|
            0 <= k < pieces_from(s, c, i).len() ==> !(#[trigger] pieces_from(s, c, i)[k]).contains(
                c,
            ),
    decreases s.len() - i,
{
    lemma_first_mark(s, c, i);
    let at = find_from(s, c, i);
    let ps = pieces_from(s, c, i);
    let head = s.subrange(i, at);
    if head.contains(c) {
        let k = choose|k: int| 0 <= k < head.len() && head[k] == c;
        assert(s[i + k] == c);
    }
    if at < s.len() {
        law_pieces_make_the_text(s, c, at + 1);
        let rest = pieces_from(s, c, at + 1);
        assert(ps =~= seq![head] + rest);
        assert(ps.skip(1) =~= rest);
        assert(ps[0] == head);
        assert(head + seq![c] + s.skip(at + 1) =~= s.skip(i));
        assert forall|k: int| 0 <= k < ps.len() implies !(#[trigger] ps[k]).contains(c) by {
            if k > 0 {
                assert(ps[k] == rest[k - 1]);
            }
        }
    } else {
        assert(head =~= s.skip(i));
    }
}

proof fn lemma_word_skipped(s: Seq<char>, i: int)
    requires
        0 <= i <= s.len(),
    ensures
        i <= skip_word(s, i) <= s.len(),
        forall|k: int| i <= k < skip_word(s, i) ==> !is_space(#[trigger] s[k]),
        skip_word(s, i) < s.len() ==> is_space(s[skip_word(s, i)]),
    decreases s.len() - i,
{
    if i < s.len() && !is_space(s[i]) {
        lemma_word_skipped(s, i + 1);
    }
}

/// The words of a text are not empty and hold no white space, and every other
/// character of the text is in one of them.
pub proof fn law_words_hold_no_space(s: Seq<char>, i: int)
    requires
        0 <= i <= s.len(),
    ensures
        forall|k: int|
            0 <= k < words_from(s, i).len() ==> (#[trigger] words_from(s, i)[k]).len() > 0,
        forall|k: int, j: int|
            0 <= k < words_from(s, i).len() && 0 <= j < words_from(s, i)[k].len() ==> !is_space(
                #[trigger] words_from(s, i)[k][j],
            ),
        words_from(s, i).len() == 0 <==> forall|k: int| i <= k < s.len() ==> is_space(
            #[trigger] s[k],
        ),
        i < s.len() && !is_space(s[i]) ==> words_from(s, i).len() > 0 && words_from(s, i)[0]
            == s.subrange(i, skip_word(s, i)),
    decreases s.len() - i,
{
    lemma_space_skipped(s, i);
    let a = skip_space(s, i);
    if a < s.len() {
        lemma_word_skipped(s, a);
        let b = skip_word(s, a);
        assert(b > a);
        law_words_hold_no_space(s, b);
        let ws = words_from(s, i);
        let rest = words_from(s, b);
        assert(ws =~= seq![s.subrange(a, b)] + rest);
        assert forall|k: int| 0 <= k < ws.len() implies (#[trigger] ws[k]).len() > 0 by {
            if k > 0 {
                assert(ws[k] == rest[k - 1]);
            }
        }
        assert forall|k: int, j: int| 0 <= k < ws.len() && 0 <= j < ws[k].len() implies !is_space(
            #[trigger] ws[k][j],
        ) by {
            if k > 0 {
                assert(ws[k] == rest[k - 1]);
                assert(!is_space(rest[k - 1][j]));
            } else {
                assert(ws[0][j] == s[a + j]);
            }
        }
    }
}

/// Lower case changes capital letters without accents, to the letter that
/// stands 32 places behind, and nothing else; twice is as once.
pub proof fn law_lower_case(s: Seq<char>, k: int)
    requires
        0 <= k < s.len(),
    ensures
        ascii_lowercase(s).len() == s.len(),
        'A' <= s[k] && s[k] <= 'Z' ==> ascii_lowercase(s)[k] as int == s[k] as int + 32,
        !('A' <= s[k] && s[k] <= 'Z') ==> ascii_lowercase(s)[k] == s[k],
        ascii_lowercase(ascii_lowercase(s)) == ascii_lowercase(s),
{
    assert(ascii_lowercase(ascii_lowercase(s)) =~= ascii_lowercase(s));
}

} // verus!
