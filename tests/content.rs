use diffparse::file::{File, Hunk, LINE, MODIFIER};
use diffparse::parser::raw_parser::{
    parse_raw_files, ErrorKind, ExtendedHeader, ParseError, RawFileHunk, RawLine,
};
use diffparse::parser::{number_lines, parse_content, resolve_commit_id, resolve_modifier};

fn add(number: u64, line: &str) -> LINE {
    LINE::ADD { number, line: line.to_string() }
}

fn rem(number: u64, line: &str) -> LINE {
    LINE::REM { number, line: line.to_string() }
}

fn nop(number_left: u64, number_right: u64, line: &str) -> LINE {
    LINE::NOP { number_left, number_right, line: line.to_string() }
}

#[test]
fn parse_content_test() {
    let input = r#"diff --git a/list.txt b/list.txt
index 5005045..73ea95f 100644
--- a/list.txt
+++ b/list.txt
@@ -1,4 +1,4 @@
-apples
 oranges
+pears
 pineapples
-kiwis
+kiwi
"#;
    let result = parse_content(&input);
    let expected = File::new(
        MODIFIER::MODIFIED,
        "list.txt".to_string(),
        "73ea95f".to_string(),
        vec![Hunk::new(vec![
            rem(1, "apples"),
            nop(2, 1, "oranges"),
            add(2, "pears"),
            nop(3, 3, "pineapples"),
            rem(4, "kiwis"),
            add(4, "kiwi"),
        ])],
    );
    assert_eq!(Ok(vec![expected]), result)
}

#[test]
fn parse_content_multiple_files_test() {
    let input = r#"diff --git a/list3.txt b/list3.txt
new file mode 100644
index 0000000..33e4d8e
--- /dev/null
+++ b/list3.txt
@@ -0,0 +1,3 @@
+bananas
+apples
+oranges
diff --git a/list.txt b/list.txt
deleted file mode 100644
index 73ea95f..0000000
--- a/list.txt
+++ /dev/null
@@ -1,4 +0,0 @@
-oranges
-pears
-pineapples
-kiwi
diff --git a/list.txt b/list_renamed.txt
similarity index 100%
rename from list.txt
rename to list_renamed.txt
"#;
    let result = parse_content(&input);
    let expected_file_1 = File::new(
        MODIFIER::ADD,
        "list3.txt".into(),
        "33e4d8e".into(),
        vec![Hunk::new(vec![add(1, "bananas"), add(2, "apples"), add(3, "oranges")])],
    );
    let expected_file_2 = File::new(
        MODIFIER::DELETE,
        "list.txt".into(),
        "0000000".into(),
        vec![Hunk::new(vec![
            rem(1, "oranges"),
            rem(2, "pears"),
            rem(3, "pineapples"),
            rem(4, "kiwi"),
        ])],
    );
    let expected_file_3 = File::new(MODIFIER::RENAMED, "list.txt".into(), "".into(), vec![]);
    assert_eq!(
        Ok(vec![expected_file_1, expected_file_2, expected_file_3]),
        result
    )
}

/// A whole patch, as `git diff` writes it, parses.
#[test]
fn test_with_diff_file() {
    let diff_content = r#"diff --git a/Cargo.toml b/Cargo.toml
index 1f2e3d4..5ac01d1 100644
--- a/Cargo.toml
+++ b/Cargo.toml
@@ -1,3 +1,3 @@
 #!/usr/bin/env bash
 
-echo "Test"
+echo "Test is going on"
"#;
    println!("File content:\n{}", diff_content);
    assert!(parse_content(diff_content).is_ok());
}

#[test]
fn single_hunk_all_three_kinds() {
    let input = "diff --git a/file.txt b/file.txt\nindex c64d930..e475af3 100644\n--- a/file.txt\n+++ b/file.txt\n@@ -1,5 +1,5 @@\n apples\n pears\n strawberries\n-bannannass\n-peacches\n+bananas\n+peaches\n";
    let expected = File::new(
        MODIFIER::MODIFIED,
        "file.txt".to_string(),
        "e475af3".to_string(),
        vec![Hunk::new(vec![
            nop(1, 1, "apples"),
            nop(2, 2, "pears"),
            nop(3, 3, "strawberries"),
            rem(4, "bannannass"),
            rem(5, "peacches"),
            add(4, "bananas"),
            add(5, "peaches"),
        ])],
    );
    assert_eq!(Ok(vec![expected]), parse_content(input));
}

#[test]
fn two_files_numbered_independently() {
    let input = "diff --git a/a.txt b/a.txt\nindex 1111111..2222222 100644\n--- a/a.txt\n+++ b/a.txt\n@@ -10,2 +10,2 @@\n x\n-y\n+z\ndiff --git a/b.txt b/b.txt\nindex 3333333..4444444 100644\n--- a/b.txt\n+++ b/b.txt\n@@ -3,1 +5,2 @@\n p\n+q\n";
    let files = parse_content(input).unwrap();
    assert_eq!(2, files.len());
    assert_eq!("a.txt", files[0].filename);
    assert_eq!("2222222", files[0].commit_id);
    assert_eq!(vec![nop(10, 10, "x"), rem(11, "y"), add(11, "z")], files[0].hunks[0].content);
    assert_eq!("b.txt", files[1].filename);
    assert_eq!("4444444", files[1].commit_id);
    assert_eq!(vec![nop(3, 5, "p"), add(6, "q")], files[1].hunks[0].content);
}

#[test]
fn new_file_without_name_pair() {
    let input = "diff --git a/n.txt b/n.txt\nnew file mode 100644\n@@ -0,0 +1,3 @@\n+one\n+two\n+three\n";
    let expected = File::new(
        MODIFIER::ADD,
        "n.txt".to_string(),
        "".to_string(),
        vec![Hunk::new(vec![add(1, "one"), add(2, "two"), add(3, "three")])],
    );
    assert_eq!(Ok(vec![expected]), parse_content(input));
}

#[test]
fn zero_count_side_has_no_pre_image_lines() {
    let input = "diff --git a/z.txt b/z.txt\n@@ -0,0 +7,2 @@\n+a\n+b\n";
    let files = parse_content(input).unwrap();
    assert_eq!(vec![add(7, "a"), add(8, "b")], files[0].hunks[0].content);
}

#[test]
fn zero_count_side_rejects_pre_image_lines() {
    let input = "diff --git a/z.txt b/z.txt\n@@ -0,0 +1,2 @@\n+a\n b\n";
    assert_eq!(
        Err(ParseError { kind: ErrorKind::LineCountMismatch, position: 27 }),
        parse_content(input)
    );
}

#[test]
fn counts_must_match_header() {
    let input = "diff --git a/c.txt b/c.txt\n@@ -1,50 +1,50 @@\n x\n y\n";
    assert_eq!(
        Err(ParseError { kind: ErrorKind::LineCountMismatch, position: 27 }),
        parse_content(input)
    );
}

#[test]
fn numbers_step_by_one_across_hunks() {
    let input = "diff --git a/f b/f\n@@ -4,3 +4,4 @@\n a\n-b\n+c\n+d\n e\n@@ -20,2 +21,1 @@\n-f\n g\n";
    let files = parse_content(input).unwrap();
    let h0 = &files[0].hunks[0].content;
    assert_eq!(
        &vec![nop(4, 4, "a"), rem(5, "b"), add(5, "c"), add(6, "d"), nop(6, 7, "e")],
        h0
    );
    let h1 = &files[0].hunks[1].content;
    assert_eq!(&vec![rem(20, "f"), nop(21, 21, "g")], h1);
}

#[test]
fn change_kind_from_headers() {
    let deleted = "diff --git a/d b/d\ndeleted file mode 100644\n";
    assert_eq!(MODIFIER::DELETE, parse_content(deleted).unwrap()[0].modifier);
    let renamed = "diff --git a/r b/s\nrename from r\nrename to s\n";
    assert_eq!(MODIFIER::RENAMED, parse_content(renamed).unwrap()[0].modifier);
    let added = "diff --git a/n b/n\nnew file mode 100644\n";
    assert_eq!(MODIFIER::ADD, parse_content(added).unwrap()[0].modifier);
    let chmod = "diff --git a/m b/m\nold mode 100644\nnew mode 100755\n";
    assert_eq!(MODIFIER::MODIFIED, parse_content(chmod).unwrap()[0].modifier);
    let copied = "diff --git a/c b/d\ncopy from c\ncopy to d\nsimilarity index 90%\n";
    assert_eq!(MODIFIER::MODIFIED, parse_content(copied).unwrap()[0].modifier);
}

#[test]
fn last_kind_header_wins() {
    let input = "diff --git a/x b/x\nnew file mode 100644\ndeleted file mode 100644\nindex 1234567..0000000\n";
    let files = parse_content(input).unwrap();
    assert_eq!(MODIFIER::DELETE, files[0].modifier);
    assert_eq!("0000000", files[0].commit_id);
}

#[test]
fn malformed_hunk_header() {
    let input = "diff --git a/f b/f\n@@ -1 +1 @@\n x\n";
    assert_eq!(
        Err(ParseError { kind: ErrorKind::MalformedHunkHeader, position: 19 }),
        parse_content(input)
    );
    let missing_close = "diff --git a/f b/f\n@@ -1,1 +1,1\n x\n";
    assert_eq!(
        Err(ParseError { kind: ErrorKind::MalformedHunkHeader, position: 19 }),
        parse_content(missing_close)
    );
}

#[test]
fn hunk_header_number_overflow() {
    let input = "diff --git a/f b/f\n@@ -4294967296,1 +1,1 @@\n x\n";
    assert_eq!(
        Err(ParseError { kind: ErrorKind::NumberOverflow, position: 19 }),
        parse_content(input)
    );
}

#[test]
fn largest_start_line_is_accepted() {
    let input = "diff --git a/f b/f\n@@ -4294967295,2 +4294967295,1 @@\n x\n-y\n";
    let files = parse_content(input).unwrap();
    assert_eq!(
        vec![nop(4294967295, 4294967295, "x"), rem(4294967296, "y")],
        files[0].hunks[0].content
    );
    assert_eq!(4294967296, files[0].get_max_line_number_size());
}

#[test]
fn unknown_header_line_is_rejected() {
    let input = "diff --git a/f b/f\nsomething else\n";
    assert_eq!(
        Err(ParseError { kind: ErrorKind::UnexpectedInput, position: 19 }),
        parse_content(input)
    );
}

#[test]
fn leftover_text_is_rejected() {
    assert_eq!(
        Err(ParseError { kind: ErrorKind::UnexpectedInput, position: 0 }),
        parse_raw_files("not a diff\n")
    );
}

#[test]
fn empty_and_blank_documents() {
    assert_eq!(Ok(vec![]), parse_content(""));
    assert_eq!(Ok(vec![]), parse_content("\n\n \t\n"));
}

#[test]
fn empty_context_line_is_kept() {
    let input = "diff --git a/e b/e\n@@ -1,3 +1,3 @@\n a\n \n b\n";
    let files = parse_content(input).unwrap();
    assert_eq!(
        vec![nop(1, 1, "a"), nop(2, 2, ""), nop(3, 3, "b")],
        files[0].hunks[0].content
    );
}

#[test]
fn last_line_without_newline() {
    let input = "diff --git a/e b/e\n@@ -1,1 +1,1 @@\n-a\n+b";
    let files = parse_content(input).unwrap();
    assert_eq!(vec![rem(1, "a"), add(1, "b")], files[0].hunks[0].content);
}

#[test]
fn max_line_number_of_file() {
    let input = "diff --git a/f b/f\n@@ -4,3 +40,3 @@\n a\n-b\n+c\n e\n";
    let files = parse_content(input).unwrap();
    assert_eq!(42, files[0].get_max_line_number_size());
    let renamed = File::new(MODIFIER::RENAMED, "r".into(), "".into(), vec![]);
    assert_eq!(0, renamed.get_max_line_number_size());
}

#[test]
fn unicode_text_is_kept() {
    let input = "diff --git a/ü b/ü\n@@ -1,1 +1,1 @@\n-grüße\n+¡hola!\n";
    let files = parse_content(input).unwrap();
    assert_eq!("ü", files[0].filename);
    assert_eq!(vec![rem(1, "grüße"), add(1, "¡hola!")], files[0].hunks[0].content);
}

#[test]
fn number_lines_from_header_starts() {
    let raw = RawFileHunk {
        line_info: (30, 2, 40, 2),
        lines: vec![
            RawLine::Left("old".to_string()),
            RawLine::Right("new".to_string()),
            RawLine::Both("same".to_string()),
        ],
    };
    let hunk = number_lines(&raw);
    assert_eq!(vec![rem(30, "old"), add(40, "new"), nop(31, 41, "same")], hunk.content);
}

#[test]
fn resolve_from_header_list() {
    let headers = vec![
        ExtendedHeader::SimilarityIndex("90%".to_string()),
        ExtendedHeader::RenameFile(("a".to_string(), "b".to_string())),
        ExtendedHeader::Index("1111111..2222222".to_string()),
        ExtendedHeader::ChMode(("100644".to_string(), "100755".to_string())),
        ExtendedHeader::Index("3333333".to_string()),
    ];
    assert_eq!(MODIFIER::RENAMED, resolve_modifier(&headers));
    assert_eq!("3333333", resolve_commit_id(&headers));
    assert_eq!(MODIFIER::MODIFIED, resolve_modifier(&vec![]));
    assert_eq!("", resolve_commit_id(&vec![]));
}
