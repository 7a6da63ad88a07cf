//! The commit chain: what staging, committing and reading the head put into
//! the repository's files, and what they take out of them.

use crate::commit::{entry_views, Commit, FileEntry};
use crate::error::Error;
use crate::index::{
    entries_of, index_line, is_word, lemma_entries_after_stage, lines_complete, load_index,
    stage_line,
};
use crate::object::{
    blob_digest, framed, hex, hex_digit, lemma_round_trip, sha1_digest, unframed, write_blob,
    StoredObject,
};
use crate::text::{end_trimmed, is_space, lemma_trim_end_to, trim_end};
use vstd::prelude::*;
use vstd::string::*;

verus! {

/// What staging a file asks for: an object to store, and a line to append to
/// the index.
#[derive(Debug, Clone, PartialEq, Eq)]
pub struct Staged {
    pub object: StoredObject,
    pub index_line: String,
}

/// What a commit asks for: an object to store, the new text of the head file,
/// and the new text of the index.
#[derive(Debug, Clone, PartialEq, Eq)]
pub struct CommitPlan {
    pub object: StoredObject,
    pub head: String,
    pub index: String,
}

/// The text of the head file once it points at `digest`.
pub open spec fn head_text(digest: Seq<char>) -> Seq<char> {
    digest + seq!['\n']
}

/// The line that the log shows for an entry.
pub open spec fn log_line(entry: (Seq<char>, Seq<char>)) -> Seq<char> {
    "    "@ + entry.0 + " -> "@ + entry.1
}

/// The text of the head file before the first commit.
pub fn initial_head() -> (head: String)
    ensures
        head@ == "ref: refs/heads/master\n"@,
{
    String::from_str("ref: refs/heads/master\n")
}

/// Stages the file at `path` whose content is `contents`: the content goes to
/// the object store, and one line goes to the end of the index.
pub fn stage_file(path: &str, contents: &[u8]) -> (staged: Staged)
    ensures
        staged.object.digest@ == blob_digest(contents@),
        staged.object.data@ == framed(contents@),
        staged.index_line@ == index_line(path@, blob_digest(contents@)),
        unframed(staged.object.data@) == Some(contents@),
        is_word(staged.object.digest@),
        forall|index: Seq<char>|
            lines_complete(index) && is_word(path@) ==> #[trigger] entries_of(
                index + staged.index_line@,
            ) == entries_of(index).push((path@, staged.object.digest@)),
{
    let object = write_blob(contents);
    let index_line = stage_line(path, object.digest.as_str());
    proof {
        lemma_hex_plain(sha1_digest(framed(contents@)));
        assert forall|index: Seq<char>|
            lines_complete(index) && is_word(path@) implies #[trigger] entries_of(
            index + index_line@,
        ) == entries_of(index).push((path@, object.digest@)) by {
            lemma_entries_after_stage(index, path@, object.digest@);
        }
    }
    Staged { object, index_line }
}

/// The commit record for `message` and the index text `index`: it lists the
/// entries of the index in the order of their lines.
pub fn begin_commit(message: &str, index: &str) -> (commit: Commit)
    ensures
        commit.message@ == message@,
        entry_views(commit.files@) == entries_of(index@),
{
    let files = load_index(index);
    Commit::new(String::from_str(message), files)
}

/// What committing the encoded record `record` writes: the record as an
/// object, its digest and a line feed as the head, and an empty index.
pub fn finish_commit(record: &[u8]) -> (plan: CommitPlan)
    ensures
        plan.object.digest@ == blob_digest(record@),
        plan.object.data@ == framed(record@),
        plan.head@ == head_text(blob_digest(record@)),
        end_trimmed(plan.head@) == plan.object.digest@,
        unframed(plan.object.data@) == Some(record@),
        plan.index@ == Seq::<char>::empty(),
        entries_of(plan.index@) == Seq::<(Seq<char>, Seq<char>)>::empty(),
{
    let object = write_blob(record);
    let mut head = String::from_str(object.digest.as_str());
    proof {
        reveal_strlit("\n");
    }
    head.append("\n");
    assert("\n"@ =~= seq!['\n']);
    proof {
        lemma_head_names_commit(record@);
    }
    CommitPlan { object, head, index: String::new() }
}

/// The reference that the head file holds: its text without the white space
/// at its end. An empty head names nothing.
pub fn head_reference(head: &str) -> (digest: Result<String, Error>)
    ensures
        end_trimmed(head@).len() == 0 ==> digest == Err::<String, Error>(Error::NotFound),
        end_trimmed(head@).len() > 0 ==> digest is Ok && digest->Ok_0@ == end_trimmed(head@),
{
    let name = trim_end(head);
    if name.as_str().is_empty() {
        Err(Error::NotFound)
    } else {
        Ok(name)
    }
}

/// The line that the log shows for `entry`.
pub fn file_line(entry: &FileEntry) -> (line: String)
    ensures
        line@ == log_line(entry@),
{
    let mut line = String::from_str("    ");
    line.append(entry.path.as_str());
    line.append(" -> ");
    line.append(entry.hash.as_str());
    line
}

/// No hexadecimal digit is white space.
pub proof fn lemma_hex_digit_plain(n: int)
    requires
        0 <= n < 16,
    ensures
        !is_space(hex_digit(n)),
{
    reveal_strlit("0123456789abcdef");
    assert(!is_space(hex_digit(0)));
    assert(!is_space(hex_digit(1)));
    assert(!is_space(hex_digit(2)));
    assert(!is_space(hex_digit(3)));
    assert(!is_space(hex_digit(4)));
    assert(!is_space(hex_digit(5)));
    assert(!is_space(hex_digit(6)));
    assert(!is_space(hex_digit(7)));
    assert(!is_space(hex_digit(8)));
    assert(!is_space(hex_digit(9)));
    assert(!is_space(hex_digit(10)));
    assert(!is_space(hex_digit(11)));
    assert(!is_space(hex_digit(12)));
    assert(!is_space(hex_digit(13)));
    assert(!is_space(hex_digit(14)));
    assert(!is_space(hex_digit(15)));
}

/// A text in hexadecimal holds no white space.
pub proof fn lemma_hex_plain(bytes: Seq<u8>)
    ensures
        hex(bytes).len() == 2 * bytes.len(),
        forall|i: int| 0 <= i < hex(bytes).len() ==> !is_space(#[trigger] hex(bytes)[i]),
    decreases bytes.len(),
{
    if bytes.len() > 0 {
        lemma_hex_plain(bytes.drop_last());
        lemma_hex_digit_plain(bytes.last() as int / 16);
        lemma_hex_digit_plain(bytes.last() as int % 16);
    }
}

/// After a commit the head names the commit: the head file's text, read back,
/// is the digest of the stored record, and the stored object, read back, is
/// the record.
pub proof fn lemma_head_names_commit(record: Seq<u8>)
    ensures
        end_trimmed(head_text(blob_digest(record))) == blob_digest(record),
        unframed(framed(record)) == Some(record),
{
    let d = blob_digest(record);
    let s = head_text(d);
    let n = d.len() as int;
    lemma_hex_plain(sha1_digest(framed(record)));
    lemma_round_trip(record);
    assert(is_space('\n'));
    assert(s[n] == '\n');
    assert(forall|i: int| 0 <= i < n ==> s[i] == d[i]);
    lemma_trim_end_to(s, n + 1, n);
    assert(s.subrange(0, n) =~= d);
}

} // verus!
