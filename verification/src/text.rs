//! Character-level helpers: white space, trimming, searching.

use vstd::prelude::*;
use vstd::std_specs::iter::IteratorSpec;
use vstd::string::*;

verus! {

/// Whether `c` is white space (the Unicode `White_Space` property).
pub open spec fn is_space(c: char) -> bool {
    let n = c as u32;
    (0x9 <= n && n <= 0xd) || n == 0x20 || n == 0x85 || n == 0xa0 || n == 0x1680 || (0x2000 <= n
        && n <= 0x200a) || n == 0x2028 || n == 0x2029 || n == 0x202f || n == 0x205f || n
        == 0x3000
}

/// The first position at or after `from` that holds no white space.
pub open spec fn skip_space(s: Seq<char>, from: int) -> int
    decreases s.len() - from,
{
    if 0 <= from < s.len() && is_space(s[from]) {
        skip_space(s, from + 1)
    } else {
        from
    }
}

/// The first position at or after `from` that holds white space, or the end.
pub open spec fn skip_word(s: Seq<char>, from: int) -> int
    decreases s.len() - from,
{
    if 0 <= from < s.len() && !is_space(s[from]) {
        skip_word(s, from + 1)
    } else {
        from
    }
}

/// The end of `s[..to]` once trailing white space is dropped.
pub open spec fn trim_end_at(s: Seq<char>, to: int) -> int
    decreases to,
{
    if 0 < to <= s.len() && is_space(s[to - 1]) {
        trim_end_at(s, to - 1)
    } else {
        to
    }
}

/// `s` without trailing white space.
pub open spec fn end_trimmed(s: Seq<char>) -> Seq<char> {
    s.subrange(0, trim_end_at(s, s.len() as int))
}

/// `s` without leading and trailing white space.
pub open spec fn trimmed(s: Seq<char>) -> Seq<char> {
    let a = skip_space(s, 0);
    if a >= s.len() {
        Seq::empty()
    } else {
        s.subrange(a, trim_end_at(s, s.len() as int))
    }
}

/// Whether `needle` occurs in `hay` as a contiguous run.
pub open spec fn contains(hay: Seq<char>, needle: Seq<char>) -> bool {
    exists|i: int| occurs_at(hay, needle, i)
}

/// Whether `needle` stands in `hay` at position `i`.
pub open spec fn occurs_at(hay: Seq<char>, needle: Seq<char>, i: int) -> bool {
    0 <= i && i + needle.len() <= hay.len() && hay.subrange(i, i + needle.len()) == needle
}

/// Trimming the end never goes back past a character that is no white space.
pub proof fn lemma_trim_end_after(s: Seq<char>, to: int, at: int)
    requires
        0 <= at < to <= s.len(),
        !is_space(s[at]),
    ensures
        at < trim_end_at(s, to) <= to,
    decreases to - at,
{
    if is_space(s[to - 1]) {
        lemma_trim_end_after(s, to - 1, at);
    }
}

/// Where `s` holds white space from `from` up to `at` and none at `at`, the
/// white space that starts at `from` ends at `at`.
pub proof fn lemma_skip_space_to(s: Seq<char>, from: int, at: int)
    requires
        0 <= from <= at <= s.len(),
        forall|i: int| from <= i < at ==> is_space(s[i]),
        at < s.len() ==> !is_space(s[at]),
    ensures
        skip_space(s, from) == at,
    decreases at - from,
{
    if from < at {
        lemma_skip_space_to(s, from + 1, at);
    }
}

/// Where `s` holds no white space from `from` up to `at`, and `at` is the end
/// or holds white space, the word that starts at `from` ends at `at`.
pub proof fn lemma_skip_word_to(s: Seq<char>, from: int, at: int)
    requires
        0 <= from <= at <= s.len(),
        forall|i: int| from <= i < at ==> !is_space(s[i]),
        at < s.len() ==> is_space(s[at]),
    ensures
        skip_word(s, from) == at,
    decreases at - from,
{
    if from < at {
        lemma_skip_word_to(s, from + 1, at);
    }
}

/// Where `s[..to]` ends in white space from `at` on, and `at` is the start or
/// follows a character that is none, trimming the end of `s[..to]` gives `at`.
pub proof fn lemma_trim_end_to(s: Seq<char>, to: int, at: int)
    requires
        0 <= at <= to <= s.len(),
        forall|i: int| at <= i < to ==> is_space(s[i]),
        at > 0 ==> !is_space(s[at - 1]),
    ensures
        trim_end_at(s, to) == at,
    decreases to - at,
{
    if at < to {
        lemma_trim_end_to(s, to - 1, at);
    }
}

/// The position of the first line feed at or after `from`, or the length of
/// `s` if there is none.
pub open spec fn line_end(s: Seq<char>, from: int) -> int
    decreases s.len() - from,
{
    if 0 <= from < s.len() && s[from] != '\n' {
        line_end(s, from + 1)
    } else {
        from
    }
}

/// The first line of `text`, without its line feed.
pub open spec fn first_line(text: Seq<char>) -> Seq<char> {
    text.subrange(0, line_end(text, 0))
}

/// What follows the first line of `text` and its line feed.
pub open spec fn after_first_line(text: Seq<char>) -> Seq<char> {
    let e = line_end(text, 0);
    if e < text.len() {
        text.subrange(e + 1, text.len() as int)
    } else {
        Seq::empty()
    }
}

/// Where `s` holds no line feed from `from` up to `at`, and `at` is the end or
/// holds one, the line that starts at `from` ends at `at`.
pub proof fn lemma_line_end_to(s: Seq<char>, from: int, at: int)
    requires
        0 <= from <= at <= s.len(),
        forall|i: int| from <= i < at ==> s[i] != '\n',
        at < s.len() ==> s[at] == '\n',
    ensures
        line_end(s, from) == at,
    decreases at - from,
{
    if from < at {
        lemma_line_end_to(s, from + 1, at);
    }
}

/// The line that starts at `from` ends inside `s`, holds no line feed, and
/// is followed by one unless it is the last.
pub proof fn lemma_line_end_bounds(s: Seq<char>, from: int)
    requires
        0 <= from <= s.len(),
    ensures
        from <= line_end(s, from) <= s.len(),
        forall|i: int| from <= i < line_end(s, from) ==> s[i] != '\n',
        line_end(s, from) < s.len() ==> s[line_end(s, from)] == '\n',
    decreases s.len() - from,
{
    if from < s.len() && s[from] != '\n' {
        lemma_line_end_bounds(s, from + 1);
    }
}

pub fn is_space_char(c: char) -> (r: bool)
    ensures
        r == is_space(c),
{
    let n: u32 = c as u32;
    (0x9 <= n && n <= 0xd) || n == 0x20 || n == 0x85 || n == 0xa0 || n == 0x1680 || (0x2000 <= n
        && n <= 0x200a) || n == 0x2028 || n == 0x2029 || n == 0x202f || n == 0x205f || n
        == 0x3000
}

/// The characters of `s`, one by one.
pub fn to_chars(s: &str) -> (v: Vec<char>)
    ensures
        v@ == s@,
{
    let mut it = s.chars();
    let mut v: Vec<char> = Vec::new();
    assert(v@ + it.remaining() =~= s@);
    loop
        invariant
            v@ + it.remaining() == s@,
            it.decrease() is Some,
        decreases it.decrease()->0,
    {
        let ghost before = it.remaining();
        match it.next() {
            Some(c) => {
                v.push(c);
                assert(v@ + it.remaining() =~= s@);
            },
            None => {
                assert(before.len() == 0);
                assert(v@ =~= s@);
                return v;
            },
        }
    }
}

pub fn skip_space_from(s: &Vec<char>, from: usize) -> (r: usize)
    requires
        from <= s.len(),
    ensures
        r == skip_space(s@, from as int),
        from <= r <= s.len(),
        r < s.len() ==> !is_space(s@[r as int]),
{
    let mut i: usize = from;
    while i < s.len() && is_space_char(s[i])
        invariant
            from <= i <= s.len(),
            skip_space(s@, i as int) == skip_space(s@, from as int),
        decreases s.len() - i,
    {
        i += 1;
    }
    i
}

pub fn skip_word_from(s: &Vec<char>, from: usize) -> (r: usize)
    requires
        from <= s.len(),
    ensures
        r == skip_word(s@, from as int),
        from <= r <= s.len(),
{
    let mut i: usize = from;
    while i < s.len() && !is_space_char(s[i])
        invariant
            from <= i <= s.len(),
            skip_word(s@, i as int) == skip_word(s@, from as int),
        decreases s.len() - i,
    {
        i += 1;
    }
    i
}

pub fn trim_end_from(s: &Vec<char>, to: usize) -> (r: usize)
    requires
        to <= s.len(),
    ensures
        r == trim_end_at(s@, to as int),
        r <= to,
{
    let mut i: usize = to;
    while i > 0 && is_space_char(s[i - 1])
        invariant
            i <= to <= s.len(),
            trim_end_at(s@, i as int) == trim_end_at(s@, to as int),
        decreases i,
    {
        i -= 1;
    }
    i
}

/// Whether `needle` stands in `hay` at position `at`.
pub fn matches_at(hay: &Vec<char>, needle: &Vec<char>, at: usize) -> (r: bool)
    requires
        at + needle.len() <= hay.len(),
    ensures
        r == occurs_at(hay@, needle@, at as int),
{
    let mut j: usize = 0;
    while j < needle.len()
        invariant
            j <= needle.len(),
            at + needle.len() <= hay.len(),
            forall|k: int| 0 <= k < j ==> hay@[at + k] == needle@[k],
        decreases needle.len() - j,
    {
        if hay[at + j] != needle[j] {
            proof {
                let sub = hay@.subrange(at as int, at + needle.len());
                assert(sub[j as int] == hay@[at + j]);
            }
            return false;
        }
        j += 1;
    }
    assert(hay@.subrange(at as int, at + needle.len()) =~= needle@);
    true
}

/// Whether `needle` occurs anywhere in `hay`.
pub fn contains_chars(hay: &Vec<char>, needle: &Vec<char>) -> (r: bool)
    ensures
        r == contains(hay@, needle@),
{
    if needle.len() > hay.len() {
        return false;
    }
    let last: usize = hay.len() - needle.len();
    let mut i: usize = 0;
    loop
        invariant
            last == hay.len() - needle.len(),
            i <= last,
            forall|k: int| 0 <= k < i ==> !occurs_at(hay@, needle@, k),
        decreases last - i,
    {
        if matches_at(hay, needle, i) {
            return true;
        }
        if i == last {
            return false;
        }
        i += 1;
    }
}

/// The position at or after `from` where the line that holds `from` ends.
pub fn line_end_from(s: &Vec<char>, from: usize) -> (e: usize)
    requires
        from <= s.len(),
    ensures
        from <= e <= s.len(),
        forall|i: int| from <= i < e ==> s@[i] != '\n',
        e < s.len() ==> s@[e as int] == '\n',
{
    let mut i: usize = from;
    while i < s.len() && s[i] != '\n'
        invariant
            from <= i <= s.len(),
            forall|k: int| from <= k < i ==> s@[k] != '\n',
        decreases s.len() - i,
    {
        i += 1;
    }
    i
}

/// A copy of `s[from..to]`.
pub fn copy_range(s: &Vec<char>, from: usize, to: usize) -> (part: Vec<char>)
    requires
        from <= to <= s.len(),
    ensures
        part@ == s@.subrange(from as int, to as int),
{
    let mut part: Vec<char> = Vec::new();
    let mut i: usize = from;
    while i < to
        invariant
            from <= i <= to <= s.len(),
            part@ == s@.subrange(from as int, i as int),
        decreases to - i,
    {
        part.push(s[i]);
        i += 1;
        assert(part@ =~= s@.subrange(from as int, i as int));
    }
    part
}

/// `s` without the white space at its end.
pub fn trim_end(s: &str) -> (r: String)
    ensures
        r@ == end_trimmed(s@),
{
    let chars = to_chars(s);
    let t: usize = trim_end_from(&chars, chars.len());
    string_of(&chars, 0, t)
}

/// What the standard library documents of `String::push`: the character is
/// appended to the end of the string.
pub assume_specification[ String::push ](s: &mut String, c: char)
    ensures
        final(s)@ == old(s)@.push(c),
;

/// The text of `s[from..to]`.
pub fn string_of(s: &Vec<char>, from: usize, to: usize) -> (text: String)
    requires
        from <= to <= s.len(),
    ensures
        text@ == s@.subrange(from as int, to as int),
{
    let mut text = String::new();
    let mut i: usize = from;
    assert(text@ =~= s@.subrange(from as int, i as int));
    while i < to
        invariant
            from <= i <= to <= s.len(),
            text@ == s@.subrange(from as int, i as int),
        decreases to - i,
    {
        text.push(s[i]);
        i += 1;
        assert(text@ =~= s@.subrange(from as int, i as int));
    }
    text
}

} // verus!
