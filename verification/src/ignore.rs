//! Which paths of the working tree are left out of staging.

use crate::text::{
    after_first_line, contains, contains_chars, copy_range, first_line, lemma_line_end_to,
    lemma_trim_end_after, line_end, line_end_from, matches_at, occurs_at, skip_space,
    skip_space_from, string_of, to_chars, trim_end_from, trimmed,
};
use vstd::prelude::*;
use vstd::string::*;

verus! {

/// The end of the last component of `path[..to]`: separators and `.`
/// components at the end do not count.
pub open spec fn name_end(path: Seq<char>, to: int) -> int
    decreases to,
{
    if to <= 0 || to > path.len() {
        0
    } else if path[to - 1] == '/' {
        name_end(path, to - 1)
    } else if path[to - 1] == '.' && (to == 1 || path[to - 2] == '/') {
        name_end(path, to - 1)
    } else {
        to
    }
}

/// The start of the component of `path` that ends at `end`.
pub open spec fn name_start(path: Seq<char>, end: int) -> int
    decreases end,
{
    if 0 < end <= path.len() && path[end - 1] != '/' {
        name_start(path, end - 1)
    } else {
        end
    }
}

/// The name of the file that `path` leads to: its last component, where `/`
/// parts the components, unless there is none or it is `..`.
pub open spec fn file_name(path: Seq<char>) -> Option<Seq<char>> {
    let e = name_end(path, path.len() as int);
    let name = path.subrange(name_start(path, e), e);
    if e <= 0 || name == seq!['.', '.'] {
        None
    } else {
        Some(name)
    }
}

/// The position after the last `.` of `name[..to]`, or 0 if it holds none.
pub open spec fn after_last_dot(name: Seq<char>, to: int) -> int
    decreases to,
{
    if 0 < to <= name.len() && name[to - 1] != '.' {
        after_last_dot(name, to - 1)
    } else {
        to
    }
}

/// The extension of a file name: what follows its last `.`, unless it holds
/// none or only starts with it.
pub open spec fn name_extension(name: Seq<char>) -> Option<Seq<char>> {
    let d = after_last_dot(name, name.len() as int);
    if d <= 1 {
        None
    } else {
        Some(name.subrange(d, name.len() as int))
    }
}

/// The extension of the file that `path` leads to.
pub open spec fn extension(path: Seq<char>) -> Option<Seq<char>> {
    match file_name(path) {
        Some(name) => name_extension(name),
        None => None,
    }
}

/// `pattern` without the slashes at its end.
pub open spec fn strip_slashes(pattern: Seq<char>) -> Seq<char>
    decreases pattern.len(),
{
    if pattern.len() > 0 && pattern.last() == '/' {
        strip_slashes(pattern.drop_last())
    } else {
        pattern
    }
}

/// Whether `pattern` starts with `*.`.
pub open spec fn is_extension_pattern(pattern: Seq<char>) -> bool {
    pattern.len() >= 2 && pattern[0] == '*' && pattern[1] == '.'
}

/// `pattern` without every `*.` at its start.
pub open spec fn strip_star_dots(pattern: Seq<char>) -> Seq<char>
    decreases pattern.len(),
{
    if is_extension_pattern(pattern) {
        strip_star_dots(pattern.subrange(2, pattern.len() as int))
    } else {
        pattern
    }
}

/// Whether `pattern` leaves out the path `path`, whose extension is
/// `extension`. A pattern that ends in `/` asks for the directory's name
/// anywhere in the path, one that starts with `*.` for the extension, any
/// other for itself anywhere in the path.
pub open spec fn pattern_matches(
    path: Seq<char>,
    extension: Option<Seq<char>>,
    pattern: Seq<char>,
) -> bool {
    if pattern.len() > 0 && pattern.last() == '/' {
        contains(path, strip_slashes(pattern))
    } else if is_extension_pattern(pattern) {
        extension == Some(strip_star_dots(pattern))
    } else {
        contains(path, pattern)
    }
}

/// Whether `path` belongs to the repository's own files: the repository
/// directory, what lies in it, and the pattern file beside it.
pub open spec fn is_repository_path(path: Seq<char>) -> bool {
    contains(path, ".minigit"@)
}

/// Whether `path` is left out: it is one of the repository's own files, or
/// one of `patterns` matches it.
pub open spec fn ignored(
    path: Seq<char>,
    extension: Option<Seq<char>>,
    patterns: Seq<Seq<char>>,
) -> bool {
    is_repository_path(path) || exists|i: int|
        0 <= i < patterns.len() && pattern_matches(path, extension, #[trigger] patterns[i])
}

/// The patterns as sequences of characters.
pub open spec fn pattern_views(patterns: Seq<String>) -> Seq<Seq<char>> {
    Seq::new(patterns.len(), |i: int| patterns[i]@)
}

/// Whether a line of the pattern file holds a pattern: it is not blank, and
/// does not start with `#`.
pub open spec fn is_pattern_line(line: Seq<char>) -> bool {
    skip_space(line, 0) < line.len() && line[0] != '#'
}

/// The patterns that the text of a pattern file holds: its pattern lines,
/// trimmed, in the order of the lines.
pub open spec fn patterns_of(text: Seq<char>) -> Seq<Seq<char>>
    decreases text.len(),
{
    let e = line_end(text, 0);
    if text.len() == 0 || e < 0 || e > text.len() {
        Seq::empty()
    } else if is_pattern_line(first_line(text)) {
        seq![trimmed(first_line(text))] + patterns_of(after_first_line(text))
    } else {
        patterns_of(after_first_line(text))
    }
}

/// What a directory entry is.
#[derive(Debug, Clone, Copy, PartialEq, Eq, Structural)]
pub enum EntryKind {
    Directory,
    File,
    Other,
}

/// What the walk over the working tree does with a directory entry.
#[derive(Debug, Clone, Copy, PartialEq, Eq, Structural)]
pub enum WalkStep {
    /// Pass over the entry.
    Skip,
    /// Walk the directory's own entries.
    Descend,
    /// Take the file as a candidate for staging.
    Collect,
}

/// The step for an entry of kind `kind` that is ignored or not.
pub open spec fn step_for(is_ignored: bool, kind: EntryKind) -> WalkStep {
    if is_ignored {
        WalkStep::Skip
    } else {
        match kind {
            EntryKind::Directory => WalkStep::Descend,
            EntryKind::File => WalkStep::Collect,
            EntryKind::Other => WalkStep::Skip,
        }
    }
}

/// Where `path` holds no `/` from `at` up to `end`, and `at` is the start or
/// follows one, the component that ends at `end` starts at `at`.
pub proof fn lemma_name_start_to(path: Seq<char>, end: int, at: int)
    requires
        0 <= at <= end <= path.len(),
        forall|i: int| at <= i < end ==> path[i] != '/',
        at > 0 ==> path[at - 1] == '/',
    ensures
        name_start(path, end) == at,
    decreases end - at,
{
    if at < end {
        lemma_name_start_to(path, end - 1, at);
    }
}

/// Where `name` holds no `.` from `at` up to `to`, and `at` is the start or
/// follows one, the last `.` of `name[..to]` stands just before `at`.
pub proof fn lemma_after_last_dot_to(name: Seq<char>, to: int, at: int)
    requires
        0 <= at <= to <= name.len(),
        forall|i: int| at <= i < to ==> name[i] != '.',
        at > 0 ==> name[at - 1] == '.',
    ensures
        after_last_dot(name, to) == at,
    decreases to - at,
{
    if at < to {
        lemma_after_last_dot_to(name, to - 1, at);
    }
}

/// A file named `stem.ext` has the extension `ext`, in whatever directory it
/// lies.
pub proof fn lemma_extension_of_file(dir: Seq<char>, stem: Seq<char>, ext: Seq<char>)
    requires
        dir.len() == 0 || dir.last() == '/',
        stem.len() > 0,
        forall|i: int| 0 <= i < stem.len() ==> stem[i] != '/',
        ext.len() > 0,
        forall|i: int| 0 <= i < ext.len() ==> ext[i] != '/' && ext[i] != '.',
    ensures
        extension(dir + stem + seq!['.'] + ext) == Some(ext),
{
    let path = dir + stem + seq!['.'] + ext;
    let n = path.len() as int;
    let k = dir.len() as int;
    let m = stem.len() as int;
    assert(forall|i: int| 0 <= i < k ==> path[i] == dir[i]);
    assert(forall|i: int| k <= i < k + m ==> path[i] == stem[i - k]);
    assert(path[k + m] == '.');
    assert(forall|i: int| k + m < i < n ==> path[i] == ext[i - k - m - 1]);
    assert(path[n - 1] == ext[ext.len() - 1]);
    assert(name_end(path, n) == n);
    lemma_name_start_to(path, n, k);
    let name = path.subrange(k, n);
    assert(name =~= stem + seq!['.'] + ext);
    assert(name.len() >= 3);
    assert(name != seq!['.', '.']);
    assert(name[m] == '.');
    assert(forall|i: int| m < i < name.len() ==> name[i] == ext[i - m - 1]);
    lemma_after_last_dot_to(name, name.len() as int, m + 1);
    assert(name.subrange(m + 1, name.len() as int) =~= ext);
}

/// Among `patterns`, the pattern `*.ext` leaves out the paths whose extension
/// is `ext`; by itself it leaves out no other path.
pub proof fn lemma_extension_pattern(
    path: Seq<char>,
    found: Option<Seq<char>>,
    ext: Seq<char>,
    patterns: Seq<Seq<char>>,
    i: int,
)
    requires
        ext.len() > 0,
        forall|k: int| 0 <= k < ext.len() ==> ext[k] != '/' && ext[k] != '.',
        0 <= i < patterns.len(),
        patterns[i] == seq!['*', '.'] + ext,
    ensures
        pattern_matches(path, found, patterns[i]) == (found == Some(ext)),
        found == Some(ext) ==> ignored(path, found, patterns),
{
    let pattern = patterns[i];
    assert(pattern.last() == ext.last());
    assert(is_extension_pattern(pattern));
    assert(pattern.subrange(2, pattern.len() as int) =~= ext);
    assert(!is_extension_pattern(ext));
    assert(strip_star_dots(ext) == ext);
    assert(strip_star_dots(pattern) == strip_star_dots(pattern.subrange(2, pattern.len() as int)));
}

/// Among `patterns`, the pattern `name/` leaves out every path that holds
/// `name`, as a component or otherwise.
pub proof fn lemma_directory_pattern(
    before: Seq<char>,
    name: Seq<char>,
    after: Seq<char>,
    found: Option<Seq<char>>,
    patterns: Seq<Seq<char>>,
    i: int,
)
    requires
        name.len() == 0 || name.last() != '/',
        0 <= i < patterns.len(),
        patterns[i] == name + seq!['/'],
    ensures
        ignored(before + name + after, found, patterns),
{
    let pattern = patterns[i];
    let path = before + name + after;
    assert(pattern.drop_last() =~= name);
    assert(pattern.last() == '/');
    assert(strip_slashes(name) == name);
    assert(strip_slashes(pattern) == strip_slashes(pattern.drop_last()));
    assert(path.subrange(before.len() as int, before.len() as int + name.len() as int) =~= name);
    assert(occurs_at(path, name, before.len() as int));
    assert(pattern_matches(path, found, pattern));
}

fn name_end_of(path: &Vec<char>) -> (e: usize)
    ensures
        e == name_end(path@, path@.len() as int),
        e <= path.len(),
        e > 0 ==> path@[e - 1] != '/',
{
    let mut e: usize = path.len();
    while e > 0 && (path[e - 1] == '/' || (path[e - 1] == '.' && (e == 1 || path[e - 2] == '/')))
        invariant
            e <= path.len(),
            name_end(path@, e as int) == name_end(path@, path@.len() as int),
        decreases e,
    {
        e -= 1;
    }
    e
}

fn name_start_of(path: &Vec<char>, end: usize) -> (s: usize)
    requires
        end <= path.len(),
    ensures
        s == name_start(path@, end as int),
        s <= end,
{
    let mut s: usize = end;
    while s > 0 && path[s - 1] != '/'
        invariant
            s <= end <= path.len(),
            name_start(path@, s as int) == name_start(path@, end as int),
        decreases s,
    {
        s -= 1;
    }
    s
}

fn after_last_dot_of(name: &Vec<char>) -> (d: usize)
    ensures
        d == after_last_dot(name@, name@.len() as int),
        d <= name.len(),
{
    let mut d: usize = name.len();
    while d > 0 && name[d - 1] != '.'
        invariant
            d <= name.len(),
            after_last_dot(name@, d as int) == after_last_dot(name@, name@.len() as int),
        decreases d,
    {
        d -= 1;
    }
    d
}

fn extension_chars(path: &Vec<char>) -> (ext: Option<Vec<char>>)
    ensures
        extension(path@) == match ext {
            Some(e) => Some(e@),
            None => None,
        },
{
    let e: usize = name_end_of(path);
    let s: usize = name_start_of(path, e);
    let name = copy_range(path, s, e);
    if e == 0 || (name.len() == 2 && name[0] == '.' && name[1] == '.') {
        proof {
            if e > 0 {
                assert(name@ =~= seq!['.', '.']);
            }
        }
        return None;
    }
    assert(name@ != seq!['.', '.']) by {
        if name@ == seq!['.', '.'] {
            assert(name@.len() == 2 && name@[0] == '.' && name@[1] == '.');
        }
    }
    let d: usize = after_last_dot_of(&name);
    if d <= 1 {
        None
    } else {
        Some(copy_range(&name, d, name.len()))
    }
}

/// The extension of the file that `path` leads to, where it has one.
pub fn path_extension(path: &str) -> (ext: Option<String>)
    ensures
        extension(path@) == match ext {
            Some(e) => Some(e@),
            None => None,
        },
{
    let chars = to_chars(path);
    match extension_chars(&chars) {
        Some(e) => Some(string_of(&e, 0, e.len())),
        None => None,
    }
}

/// Whether `a` and `b` hold the same characters.
fn same_chars(a: &Vec<char>, b: &Vec<char>) -> (r: bool)
    ensures
        r == (a@ == b@),
{
    if a.len() != b.len() {
        return false;
    }
    let r = matches_at(a, b, 0);
    proof {
        assert(a@.subrange(0, a@.len() as int) =~= a@);
    }
    r
}

fn pattern_matches_chars(
    path: &Vec<char>,
    extension: &Option<Vec<char>>,
    pattern: &Vec<char>,
) -> (r: bool)
    ensures
        r == pattern_matches(
            path@,
            match *extension {
                Some(e) => Some(e@),
                None => None,
            },
            pattern@,
        ),
{
    let n: usize = pattern.len();
    if n > 0 && pattern[n - 1] == '/' {
        let mut end: usize = n;
        assert(pattern@.subrange(0, n as int) =~= pattern@);
        while end > 0 && pattern[end - 1] == '/'
            invariant
                end <= n,
                n == pattern.len(),
                strip_slashes(pattern@.subrange(0, end as int)) == strip_slashes(pattern@),
            decreases end,
        {
            proof {
                let cur = pattern@.subrange(0, end as int);
                assert(cur.drop_last() =~= pattern@.subrange(0, end - 1));
            }
            end -= 1;
        }
        let name = copy_range(pattern, 0, end);
        contains_chars(path, &name)
    } else if n >= 2 && pattern[0] == '*' && pattern[1] == '.' {
        let mut start: usize = 0;
        assert(pattern@.subrange(0, n as int) =~= pattern@);
        while n - start >= 2 && pattern[start] == '*' && pattern[start + 1] == '.'
            invariant
                start <= n,
                n == pattern.len(),
                strip_star_dots(pattern@.subrange(start as int, n as int)) == strip_star_dots(
                    pattern@,
                ),
            decreases n - start,
        {
            proof {
                let cur = pattern@.subrange(start as int, n as int);
                assert(cur.subrange(2, cur.len() as int) =~= pattern@.subrange(
                    start + 2,
                    n as int,
                ));
            }
            start += 2;
        }
        let wanted = copy_range(pattern, start, n);
        match extension {
            Some(e) => same_chars(e, &wanted),
            None => false,
        }
    } else {
        contains_chars(path, pattern)
    }
}

/// Whether `path` is left out of staging under `patterns`: whether it is one
/// of the repository's own files, or one of the patterns matches it.
pub fn should_ignore(path: &str, patterns: &[String]) -> (r: bool)
    ensures
        r == ignored(path@, extension(path@), pattern_views(patterns@)),
{
    let chars = to_chars(path);
    let own = to_chars(".minigit");
    if contains_chars(&chars, &own) {
        return true;
    }
    let ext = extension_chars(&chars);
    let mut i: usize = 0;
    while i < patterns.len()
        invariant
            i <= patterns.len(),
            chars@ == path@,
            extension(path@) == match ext {
                Some(e) => Some(e@),
                None => None,
            },
            forall|k: int|
                0 <= k < i ==> !pattern_matches(
                    path@,
                    extension(path@),
                    #[trigger] pattern_views(patterns@)[k],
                ),
        decreases patterns.len() - i,
    {
        let pattern = to_chars(patterns[i].as_str());
        assert(pattern@ == pattern_views(patterns@)[i as int]);
        if pattern_matches_chars(&chars, &ext, &pattern) {
            assert(pattern_matches(path@, extension(path@), pattern_views(patterns@)[i as int]));
            return true;
        }
        i += 1;
    }
    false
}

/// What the walk over the working tree does with the entry at `path`: an
/// ignored entry is passed over, a directory is walked, a file is collected.
pub fn walk_step(path: &str, kind: EntryKind, patterns: &[String]) -> (step: WalkStep)
    ensures
        step == step_for(ignored(path@, extension(path@), pattern_views(patterns@)), kind),
{
    if should_ignore(path, patterns) {
        WalkStep::Skip
    } else {
        match kind {
            EntryKind::Directory => WalkStep::Descend,
            EntryKind::File => WalkStep::Collect,
            EntryKind::Other => WalkStep::Skip,
        }
    }
}

/// The patterns of a pattern file, given its text, or `None` where there is
/// no such file or it cannot be read: then there are no patterns.
pub fn load_ignore_patterns(content: Option<&str>) -> (patterns: Vec<String>)
    ensures
        pattern_views(patterns@) == match content {
            Some(text) => patterns_of(text@),
            None => Seq::empty(),
        },
{
    match content {
        Some(text) => parse_ignore_patterns(text),
        None => {
            let patterns: Vec<String> = Vec::new();
            assert(pattern_views(patterns@) =~= Seq::empty());
            patterns
        },
    }
}

/// The patterns that the text of a pattern file holds.
pub fn parse_ignore_patterns(text: &str) -> (patterns: Vec<String>)
    ensures
        pattern_views(patterns@) == patterns_of(text@),
{
    let chars = to_chars(text);
    let n: usize = chars.len();
    let mut patterns: Vec<String> = Vec::new();
    let mut pos: usize = 0;
    assert(chars@.subrange(0, n as int) =~= chars@);
    assert(pattern_views(patterns@) + patterns_of(chars@) =~= patterns_of(chars@));
    while pos < n
        invariant
            pos <= n,
            n == chars.len(),
            chars@ == text@,
            pattern_views(patterns@) + patterns_of(chars@.subrange(pos as int, n as int))
                == patterns_of(chars@),
        decreases n - pos,
    {
        let e: usize = line_end_from(&chars, pos);
        let line = copy_range(&chars, pos, e);
        let a: usize = skip_space_from(&line, 0);
        let next: usize = if e < n { e + 1 } else { n };
        let ghost sub = chars@.subrange(pos as int, n as int);
        let ghost before = pattern_views(patterns@);
        proof {
            assert(forall|i: int| 0 <= i < e - pos ==> sub[i] == chars@[pos + i]);
            lemma_line_end_to(sub, 0, e - pos);
            assert(first_line(sub) =~= line@);
            assert(after_first_line(sub) =~= chars@.subrange(next as int, n as int));
        }
        if a < line.len() && line[0] != '#' {
            let t: usize = trim_end_from(&line, line.len());
            proof {
                lemma_trim_end_after(line@, line@.len() as int, a as int);
            }
            let pattern = string_of(&line, a, t);
            patterns.push(pattern);
            proof {
                assert(pattern_views(patterns@) =~= before + seq![pattern@]);
                assert(before + (seq![pattern@] + patterns_of(after_first_line(sub))) =~= (before
                    + seq![pattern@]) + patterns_of(after_first_line(sub)));
            }
        }
        pos = next;
    }
    proof {
        assert(patterns_of(chars@.subrange(n as int, n as int)) =~= Seq::<Seq<char>>::empty());
        assert(pattern_views(patterns@) + Seq::<Seq<char>>::empty() =~= pattern_views(patterns@));
    }
    patterns
}

} // verus!
