use minigit::chain::{
    begin_commit, file_line, finish_commit, head_reference, initial_head, stage_file,
};
use minigit::error::Error;
use minigit::index::{load_index, stage_line};
use minigit::object::{hash_blob, read_blob};
use minigit::repo::Repo;
use minigit::text::{is_space_char, to_chars, trim_end};
use minigit::commit::{Commit, FileEntry, Timestamp};

#[test]
fn test_commit_new() {
    let files = vec![
        FileEntry::new("file1.txt".to_string(), "hash1".to_string()),
        FileEntry::new("file2.txt".to_string(), "hash2".to_string()),
    ];
    let commit = Commit::new("Initial commit".to_string(), files.clone());

    assert_eq!(commit.message, "Initial commit");
    assert_eq!(commit.files, files);
}

#[test]
fn test_stage_file() {
    let staged = stage_file("test.txt", b"Hello, world!\n");
    assert_eq!(staged.object.digest, "af5626b4a114abcb82d63db7c8082c3c4756e51b");
    assert_eq!(staged.object.data, b"blob 14\0Hello, world!\n".to_vec());
    assert_eq!(staged.index_line, "test.txt af5626b4a114abcb82d63db7c8082c3c4756e51b\n");
}

#[test]
fn commit_is_made_now() {
    let commit = Commit::new("m".to_string(), vec![]);
    assert!(commit.timestamp.secs > 1_600_000_000);
    assert!(commit.timestamp.nanos < 1_000_000_000);
}

#[test]
fn commit_at_keeps_the_instant() {
    let t = Timestamp { secs: 1_700_000_000, nanos: 42 };
    let files = vec![FileEntry::new("a".to_string(), "b".to_string())];
    let commit = Commit::at("msg".to_string(), t, files.clone());
    assert_eq!(commit.timestamp, t);
    assert_eq!(commit.message, "msg");
    assert_eq!(commit.files, files);
}

#[test]
fn file_entry_new_keeps_both_fields() {
    let e = FileEntry::new("p".to_string(), "h".to_string());
    assert_eq!(e.path, "p");
    assert_eq!(e.hash, "h");
}

#[test]
fn layout_paths() {
    assert_eq!(Repo::minigit_dir(), ".minigit");
    assert_eq!(Repo::minigit_subpath("x"), ".minigit/x");
    assert_eq!(Repo::objects_dir(), ".minigit/objects");
    assert_eq!(Repo::head_path(), ".minigit/HEAD");
    assert_eq!(Repo::index_path(), ".minigit/index");
    assert_eq!(Repo::minigit_ignore_path(), ".minigitignore");
}

#[test]
fn stage_line_format() {
    assert_eq!(stage_line("f.txt", "abc"), "f.txt abc\n");
    assert_eq!(stage_line("", ""), " \n");
}

#[test]
fn staged_files_are_committed_in_order() {
    let names = ["b.txt", "a.txt", "dir/c.txt", "z"];
    let mut index = String::new();
    let mut expected = Vec::new();
    for (i, name) in names.iter().enumerate() {
        let content = vec![i as u8; i + 1];
        let staged = stage_file(name, &content);
        index.push_str(&staged.index_line);
        expected.push(FileEntry::new(name.to_string(), hash_blob(&content)));
    }
    let commit = begin_commit("four files", &index);
    assert_eq!(commit.message, "four files");
    assert_eq!(commit.files.len(), 4);
    assert_eq!(commit.files, expected);
    let plan = finish_commit(b"record");
    assert_eq!(plan.index, "");
    assert_eq!(load_index(&plan.index), vec![]);
}

#[test]
fn index_keeps_duplicates() {
    let files = load_index("a h1\na h2\n");
    assert_eq!(
        files,
        vec![
            FileEntry::new("a".to_string(), "h1".to_string()),
            FileEntry::new("a".to_string(), "h2".to_string()),
        ]
    );
}

#[test]
fn malformed_index_lines_are_skipped() {
    let files = load_index("\nonly_path\n   \n  p1 \t h1  extra\r\nlast h2");
    assert_eq!(
        files,
        vec![
            FileEntry::new("p1".to_string(), "h1".to_string()),
            FileEntry::new("last".to_string(), "h2".to_string()),
        ]
    );
    assert_eq!(load_index(""), vec![]);
}

#[test]
fn index_with_wide_characters() {
    let files = load_index("d\u{e9}j\u{e0}.txt h1\n\u{3000}x\u{2003}y\n");
    assert_eq!(
        files,
        vec![
            FileEntry::new("d\u{e9}j\u{e0}.txt".to_string(), "h1".to_string()),
            FileEntry::new("x".to_string(), "y".to_string()),
        ]
    );
}

#[test]
fn head_holds_the_commit_digest() {
    let record = b"{\"message\":\"first\"}";
    let plan = finish_commit(record);
    let digest = hash_blob(record);
    assert_eq!(plan.object.digest, digest);
    assert_eq!(plan.head, format!("{}\n", digest));
    assert_eq!(head_reference(&plan.head), Ok(digest));
    assert_eq!(read_blob(Some(&plan.object.data)), Ok(record.to_vec()));
}

#[test]
fn empty_head_is_not_found() {
    assert_eq!(head_reference(""), Err(Error::NotFound));
    assert_eq!(head_reference(" \n\t"), Err(Error::NotFound));
}

#[test]
fn head_reference_is_trimmed() {
    assert_eq!(head_reference("abc\r\n \t"), Ok("abc".to_string()));
    assert_eq!(head_reference(" abc\n"), Ok(" abc".to_string()));
    assert_eq!(
        head_reference(&initial_head()),
        Ok("ref: refs/heads/master".to_string())
    );
}

#[test]
fn initial_head_is_symbolic() {
    assert_eq!(initial_head(), "ref: refs/heads/master\n");
}

#[test]
fn first_commit_scenario() {
    let mut index = String::new();
    assert_eq!(load_index(&index), vec![]);
    let staged = stage_file("f.txt", b"hi");
    index.push_str(&staged.index_line);
    assert_eq!(index, "f.txt 32f95c0d1244a78b2be1bab8de17906fabb2c4a8\n");

    let commit = begin_commit("first", &index);
    assert_eq!(commit.message, "first");
    assert_eq!(commit.files.len(), 1);
    assert_eq!(
        file_line(&commit.files[0]),
        "    f.txt -> 32f95c0d1244a78b2be1bab8de17906fabb2c4a8"
    );
    let record = b"encoded commit";
    let plan = finish_commit(record);
    assert_eq!(plan.index, "");
    assert_eq!(head_reference(&plan.head), Ok(hash_blob(record)));
}

#[test]
fn trim_end_drops_white_space_at_the_end() {
    assert_eq!(trim_end("  a b \n"), "  a b");
    assert_eq!(trim_end(""), "");
    assert_eq!(trim_end(" \u{2028}\t"), "");
    assert_eq!(trim_end("x"), "x");
    assert_eq!(trim_end("x\u{feff}"), "x\u{feff}");
}

#[test]
fn white_space_is_what_the_standard_library_says() {
    let mut n: u32 = 0;
    while n <= 0x3100 {
        if let Some(c) = char::from_u32(n) {
            assert_eq!(is_space_char(c), c.is_whitespace());
        }
        n += 1;
    }
}

#[test]
fn to_chars_gives_every_character() {
    assert_eq!(to_chars("a\u{e9}\u{1f600}"), vec!['a', '\u{e9}', '\u{1f600}']);
    assert_eq!(to_chars(""), Vec::<char>::new());
}
