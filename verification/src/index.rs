//! The staging index: a text of lines, each a path and a digest, that only
//! grows until a commit empties it.

use crate::text::{
    after_first_line, copy_range, first_line, is_space, lemma_line_end_bounds, lemma_line_end_to,
    lemma_skip_space_to, lemma_skip_word_to, line_end, line_end_from, skip_space, skip_space_from,
    skip_word, skip_word_from, string_of, to_chars,
};
use crate::commit::{entry_views, FileEntry};
use vstd::prelude::*;
use vstd::string::*;

verus! {

/// The entry that a line of the index holds: its first two words. A line
/// with fewer words holds none.
pub open spec fn entry_of(line: Seq<char>) -> Option<(Seq<char>, Seq<char>)> {
    let a = skip_space(line, 0);
    let b = skip_word(line, a);
    let c = skip_space(line, b);
    let d = skip_word(line, c);
    if a < line.len() && c < line.len() {
        Some((line.subrange(a, b), line.subrange(c, d)))
    } else {
        None
    }
}

/// The entries of an index text, line by line, in the order of the lines.
pub open spec fn entries_of(text: Seq<char>) -> Seq<(Seq<char>, Seq<char>)>
    decreases text.len(),
{
    let e = line_end(text, 0);
    if text.len() == 0 || e < 0 || e > text.len() {
        Seq::empty()
    } else {
        match entry_of(first_line(text)) {
            Some(entry) => seq![entry] + entries_of(after_first_line(text)),
            None => entries_of(after_first_line(text)),
        }
    }
}

/// The line that staging `path` with `digest` appends to the index.
pub open spec fn index_line(path: Seq<char>, digest: Seq<char>) -> Seq<char> {
    path + seq![' '] + digest + seq!['\n']
}

/// The index text after staging `entries` one after the other.
pub open spec fn index_text(entries: Seq<(Seq<char>, Seq<char>)>) -> Seq<char>
    decreases entries.len(),
{
    if entries.len() == 0 {
        Seq::empty()
    } else {
        index_text(entries.drop_last()) + index_line(entries.last().0, entries.last().1)
    }
}

/// A word: not empty, and free of white space.
pub open spec fn is_word(t: Seq<char>) -> bool {
    t.len() > 0 && forall|i: int| 0 <= i < t.len() ==> !is_space(#[trigger] t[i])
}

/// A line made of two words and one blank between them holds those two.
pub proof fn lemma_entry_of_line(path: Seq<char>, digest: Seq<char>)
    requires
        is_word(path),
        is_word(digest),
    ensures
        entry_of(path + seq![' '] + digest) == Some((path, digest)),
{
    let line = path + seq![' '] + digest;
    let p = path.len() as int;
    assert(forall|i: int| 0 <= i < p ==> line[i] == path[i]);
    assert(line[p] == ' ');
    assert(forall|i: int| p < i < line.len() ==> line[i] == digest[i - p - 1]);
    assert(is_space(' '));
    lemma_skip_space_to(line, 0, 0);
    lemma_skip_word_to(line, 0, p);
    lemma_skip_space_to(line, p, p + 1);
    lemma_skip_word_to(line, p + 1, line.len() as int);
    assert(line.subrange(0, p) =~= path);
    assert(line.subrange(p + 1, line.len() as int) =~= digest);
}

/// The entries of a text that starts with one staged line are that line's
/// entry, then the entries of the rest.
pub proof fn lemma_entries_after_line(path: Seq<char>, digest: Seq<char>, rest: Seq<char>)
    requires
        is_word(path),
        is_word(digest),
    ensures
        entries_of(index_line(path, digest) + rest) == seq![(path, digest)] + entries_of(rest),
{
    let line = path + seq![' '] + digest;
    let text = index_line(path, digest) + rest;
    let n = line.len() as int;
    let p = path.len() as int;
    assert(is_space('\n'));
    assert(forall|i: int| 0 <= i < p ==> text[i] == path[i]);
    assert(text[p] == ' ');
    assert(forall|i: int| p < i < n ==> text[i] == digest[i - p - 1]);
    assert(text[n] == '\n');
    lemma_line_end_to(text, 0, n);
    assert(first_line(text) =~= line);
    assert(after_first_line(text) =~= rest);
    lemma_entry_of_line(path, digest);
}

/// The entries of two texts joined, where the first ends its last line, are
/// the entries of the first and then those of the second.
pub proof fn lemma_entries_concat(a: Seq<char>, b: Seq<char>)
    requires
        a.len() == 0 || a.last() == '\n',
    ensures
        entries_of(a + b) == entries_of(a) + entries_of(b),
    decreases a.len(),
{
    if a.len() == 0 {
        assert(a + b =~= b);
        assert(entries_of(a) + entries_of(b) =~= entries_of(b));
    } else {
        let text = a + b;
        lemma_line_end_bounds(a, 0);
        let e = line_end(a, 0);
        assert(e < a.len()) by {
            if e == a.len() {
                assert(a[a.len() - 1] != '\n');
            }
        }
        assert(forall|i: int| 0 <= i <= e ==> text[i] == a[i]);
        lemma_line_end_to(text, 0, e);
        assert(first_line(text) =~= first_line(a));
        let ra = after_first_line(a);
        assert(after_first_line(text) =~= ra + b);
        assert(ra.len() == 0 || ra.last() == '\n') by {
            if ra.len() > 0 {
                assert(ra.last() == a.last());
            }
        }
        lemma_entries_concat(ra, b);
        match entry_of(first_line(a)) {
            Some(entry) => {
                assert(seq![entry] + (entries_of(ra) + entries_of(b)) =~= (seq![entry]
                    + entries_of(ra)) + entries_of(b));
            },
            None => {},
        }
    }
}

/// Whether every line of `text` is ended by a line feed.
pub open spec fn lines_complete(text: Seq<char>) -> bool {
    text.len() == 0 || text.last() == '\n'
}

/// Staging one more file adds its entry behind the entries that the index
/// holds, and leaves those as they are.
pub proof fn lemma_entries_after_stage(index: Seq<char>, path: Seq<char>, digest: Seq<char>)
    requires
        lines_complete(index),
        is_word(path),
        is_word(digest),
    ensures
        entries_of(index + index_line(path, digest)) == entries_of(index).push((path, digest)),
        lines_complete(index + index_line(path, digest)),
{
    let line = index_line(path, digest);
    lemma_entries_concat(index, line);
    lemma_entries_after_line(path, digest, Seq::empty());
    assert(line + Seq::<char>::empty() =~= line);
    assert(entries_of(Seq::<char>::empty()) =~= Seq::<(Seq<char>, Seq<char>)>::empty());
    assert(entries_of(index) + (seq![(path, digest)] + Seq::<(Seq<char>, Seq<char>)>::empty())
        =~= entries_of(index).push((path, digest)));
    assert((index + line).last() == '\n');
}

/// The text of an index that was only staged into holds complete lines.
pub proof fn lemma_index_text_complete(entries: Seq<(Seq<char>, Seq<char>)>)
    ensures
        lines_complete(index_text(entries)),
{
    if entries.len() > 0 {
        let l = index_line(entries.last().0, entries.last().1);
        assert(index_text(entries) == index_text(entries.drop_last()) + l);
        assert(l.last() == '\n');
    }
}

/// Staging appends one line to the index and leaves the lines before it as
/// they are.
pub proof fn lemma_stage_appends(
    entries: Seq<(Seq<char>, Seq<char>)>,
    path: Seq<char>,
    digest: Seq<char>,
)
    ensures
        index_text(entries.push((path, digest))) == index_text(entries) + index_line(path, digest),
{
    assert(entries.push((path, digest)).drop_last() =~= entries);
}

/// Staging files one after the other and then reading the index gives the
/// staged entries, as many as were staged and in staging order, provided
/// every path and digest is a word.
pub proof fn lemma_staged_entries_in_order(entries: Seq<(Seq<char>, Seq<char>)>)
    requires
        forall|i: int|
            0 <= i < entries.len() ==> is_word(#[trigger] entries[i].0) && is_word(entries[i].1),
    ensures
        entries_of(index_text(entries)) == entries,
        entries_of(index_text(entries)).len() == entries.len(),
    decreases entries.len(),
{
    if entries.len() == 0 {
        assert(entries_of(Seq::<char>::empty()) =~= entries);
    } else {
        let init = entries.drop_last();
        let last = entries.last();
        assert(forall|i: int| 0 <= i < init.len() ==> init[i] == entries[i]);
        assert(is_word(entries[entries.len() - 1].0));
        lemma_staged_entries_in_order(init);
        lemma_index_text_complete(init);
        lemma_entries_after_stage(index_text(init), last.0, last.1);
        assert(init.push(last) =~= entries);
    }
}

/// The line that staging `path` with `digest` appends to the index.
pub fn stage_line(path: &str, digest: &str) -> (line: String)
    ensures
        line@ == index_line(path@, digest@),
{
    let mut line = String::from_str(path);
    proof {
        reveal_strlit(" ");
        reveal_strlit("\n");
    }
    line.append(" ");
    line.append(digest);
    line.append("\n");
    assert(" "@ =~= seq![' ']);
    assert("\n"@ =~= seq!['\n']);
    line
}

/// The entries that the index text holds, in the order of its lines. A line
/// with fewer than two words is passed over; of a line with more, the first
/// two count.
pub fn load_index(text: &str) -> (files: Vec<FileEntry>)
    ensures
        entry_views(files@) == entries_of(text@),
{
    let chars = to_chars(text);
    let n: usize = chars.len();
    let mut files: Vec<FileEntry> = Vec::new();
    let mut pos: usize = 0;
    assert(chars@.subrange(0, n as int) =~= chars@);
    assert(entry_views(files@) + entries_of(chars@) =~= entries_of(chars@));
    while pos < n
        invariant
            pos <= n,
            n == chars.len(),
            chars@ == text@,
            entry_views(files@) + entries_of(chars@.subrange(pos as int, n as int)) == entries_of(
                chars@,
            ),
        decreases n - pos,
    {
        let e: usize = line_end_from(&chars, pos);
        let line = copy_range(&chars, pos, e);
        let a: usize = skip_space_from(&line, 0);
        let b: usize = skip_word_from(&line, a);
        let c: usize = skip_space_from(&line, b);
        let d: usize = skip_word_from(&line, c);
        let next: usize = if e < n { e + 1 } else { n };
        let ghost sub = chars@.subrange(pos as int, n as int);
        let ghost before = entry_views(files@);
        proof {
            assert(forall|i: int| 0 <= i < e - pos ==> sub[i] == chars@[pos + i]);
            lemma_line_end_to(sub, 0, e - pos);
            assert(first_line(sub) =~= line@);
            assert(after_first_line(sub) =~= chars@.subrange(next as int, n as int));
        }
        if a < line.len() && c < line.len() {
            let path = string_of(&line, a, b);
            let hash = string_of(&line, c, d);
            let entry = FileEntry::new(path, hash);
            files.push(entry);
            proof {
                assert(entry_views(files@) =~= before + seq![entry@]);
                assert(before + (seq![entry@] + entries_of(after_first_line(sub))) =~= (before
                    + seq![entry@]) + entries_of(after_first_line(sub)));
            }
        }
        pos = next;
    }
    proof {
        assert(entries_of(chars@.subrange(n as int, n as int)) =~= Seq::<
            (Seq<char>, Seq<char>),
        >::empty());
        assert(entry_views(files@) + Seq::<(Seq<char>, Seq<char>)>::empty() =~= entry_views(
            files@,
        ));
    }
    files
}

} // verus!
