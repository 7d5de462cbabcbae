use diffparse::parser::raw_parser::{
    parse_extended_header_copy_file, parse_extended_header_deleted,
    parse_extended_header_dissimilarity_index, parse_extended_header_index,
    parse_extended_header_mode, parse_extended_header_new_file,
    parse_extended_header_rename_file, parse_extended_header_similarity_index, parse_filename,
    parse_line, parse_line_both, parse_line_left, parse_line_right, parse_lines,
    parse_lines_info, parse_raw_file, parse_raw_file_header, parse_raw_file_hunk,
    parse_raw_files_intern, ExtendedHeader, RawFile, RawFileHeader, RawFileHunk, RawLine,
};
use diffparse::parser::{resolve_commit_id, resolve_modifier};
use diffparse::file::MODIFIER;
use diffparse::text::to_chars;

fn both(t: &str) -> RawLine {
    RawLine::Both(t.to_string())
}

fn left(t: &str) -> RawLine {
    RawLine::Left(t.to_string())
}

fn right(t: &str) -> RawLine {
    RawLine::Right(t.to_string())
}

fn names(a: &str, b: &str) -> (String, String) {
    (a.to_string(), b.to_string())
}

fn rest(s: &Vec<char>, from: usize) -> String {
    s[from..].iter().collect()
}

#[test]
fn parser_parse_filename_test() {
    let s = to_chars("diff --git a/script.sh b/script.sh\n");
    match parse_filename(&s, 0) {
        Some((end, result)) => {
            assert!(end == s.len());
            assert_eq!("script.sh", result.0);
        }
        None => panic!(),
    }
}

#[test]
fn raw_parser_parse_filename_test() {
    let s = to_chars("diff --git a/script.sh b/script.sh\n");
    match parse_filename(&s, 0) {
        Some((end, result)) => {
            assert!(end == s.len());
            assert_eq!("script.sh", result.0);
            assert_eq!("script.sh", result.1);
        }
        None => panic!(),
    }
}

#[test]
fn parse_extended_header_mode_test() {
    let s = to_chars("old mode 100644\nnew mode 100755\n");
    match parse_extended_header_mode(&s, 0) {
        Some((_end, result)) => {
            assert_eq!(ExtendedHeader::ChMode(names("100644", "100755")), result);
        }
        None => panic!(),
    }
}

#[test]
fn parse_extended_header_deleted_test() {
    let s = to_chars("deleted file mode 100644\n");
    match parse_extended_header_deleted(&s, 0) {
        Some((_end, result)) => assert_eq!(ExtendedHeader::Deleted, result),
        None => panic!(),
    }
}

#[test]
fn parse_extended_header_new_file_test() {
    let s = to_chars("new file mode 100644\n");
    match parse_extended_header_new_file(&s, 0) {
        Some((_end, result)) => assert_eq!(ExtendedHeader::NewFile, result),
        None => panic!(),
    }
}

#[test]
fn parse_extended_header_copy_file_test() {
    let s = to_chars("copy from path/to/file/a\ncopy to path/to/file/b\n");
    match parse_extended_header_copy_file(&s, 0) {
        Some((_end, result)) => assert_eq!(
            ExtendedHeader::CopyFile(names("path/to/file/a", "path/to/file/b")),
            result
        ),
        None => panic!(),
    }
}

#[test]
fn parse_extended_header_rename_file_test() {
    let s = to_chars("rename from path/to/file/a\nrename to path/to/file/b\n");
    match parse_extended_header_rename_file(&s, 0) {
        Some((_end, result)) => assert_eq!(
            ExtendedHeader::RenameFile(names("path/to/file/a", "path/to/file/b")),
            result
        ),
        None => panic!(),
    }
}

#[test]
fn parse_extended_header_similarity_index_test() {
    let s = to_chars("similarity index 80%\n");
    match parse_extended_header_similarity_index(&s, 0) {
        Some((_end, result)) => {
            assert_eq!(ExtendedHeader::SimilarityIndex("80%".to_string()), result)
        }
        None => panic!(),
    }
}

#[test]
fn parse_extended_header_dissimilarity_index_test() {
    let s = to_chars("dissimilarity index 20%\n");
    match parse_extended_header_dissimilarity_index(&s, 0) {
        Some((_end, result)) => {
            assert_eq!(ExtendedHeader::DissimilarityIndex("20%".to_string()), result)
        }
        None => panic!(),
    }
}

#[test]
fn parse_extended_header_index_test() {
    let s = to_chars("index 089fe5f..384ac88 100644\n@@");
    match parse_extended_header_index(&s, 0) {
        Some((end, result)) => {
            assert_eq!("@@", rest(&s, end));
            assert_eq!(ExtendedHeader::Index("384ac88".to_string()), result);
        }
        None => panic!(),
    }
}

#[test]
fn parser_parse_raw_file_header_test() {
    let input = r#"diff --git a/file2.txt b/file2.txt
similarity index 80%
dissimilarity index 20%
index 2b2338d..43febe7 100644
--- a/file2.txt
+++ b/file2.txt
"#;
    let s = to_chars(input);
    match parse_raw_file_header(&s, 0) {
        Some((_end, result)) => assert_eq!(
            RawFileHeader {
                filenames: names("file2.txt", "file2.txt"),
                extended_headers: vec![
                    ExtendedHeader::SimilarityIndex("80%".to_string()),
                    ExtendedHeader::DissimilarityIndex("20%".to_string()),
                    ExtendedHeader::Index("43febe7".to_string()),
                ]
            },
            result
        ),
        None => panic!(),
    }
}

#[test]
fn raw_parser_parse_raw_file_header_test() {
    let input = r#"diff --git a/file2_renamed.txt b/file2_renamed.txt
index 2b2338d..43febe7 100644
--- a/file2_renamed.txt
+++ b/file2_renamed.txt
@@"#;
    let s = to_chars(input);
    match parse_raw_file_header(&s, 0) {
        Some((end, result)) => {
            assert_eq!("@@", rest(&s, end));
            assert_eq!(names("file2_renamed.txt", "file2_renamed.txt"), result.filenames);
            assert!(resolve_modifier(&result.extended_headers) != MODIFIER::DELETE);
            assert_eq!("43febe7", resolve_commit_id(&result.extended_headers));
        }
        None => panic!(),
    }
}

#[test]
fn parser_parse_lines_info_test() {
    let s = to_chars(
        "--- a/file1.txt\n+++ b/file1.txt\n@@ -1,3 +1,3 @@ first content line of the file\n",
    );
    match parse_lines_info(&s, 0) {
        Ok(Some((end, result))) => {
            assert!(end == s.len());
            assert_eq!((1, 3, 1, 3), result);
        }
        other => panic!("{:?}", other),
    }
}

#[test]
fn raw_parser_parse_lines_info_test() {
    let s = to_chars("@@ -1,3 +1,3 @@ first content line of the file\n");
    match parse_lines_info(&s, 0) {
        Ok(Some((end, result))) => {
            assert!(end == s.len());
            assert_eq!((1, 3, 1, 3), result);
        }
        other => panic!("{:?}", other),
    }
}

#[test]
fn parse_line_both_test() {
    let s = to_chars(" This is a line\n");
    match parse_line_both(&s, 0) {
        Some((_end, result)) => assert_eq!(both("This is a line"), result),
        None => panic!(),
    }
}

#[test]
fn parse_line_left_test() {
    let s = to_chars("-This is a line\n");
    match parse_line_left(&s, 0) {
        Some((_end, result)) => assert_eq!(left("This is a line"), result),
        None => panic!(),
    }
}

#[test]
fn parse_line_right_test() {
    let s = to_chars("+This is a line\n");
    match parse_line_right(&s, 0) {
        Some((_end, result)) => assert_eq!(right("This is a line"), result),
        None => panic!(),
    }
}

#[test]
fn parser_parse_line_is_both_test() {
    let s = to_chars(" This is a line\n");
    match parse_line(&s, 0) {
        Some((end, result)) => {
            assert!(end == s.len());
            assert_eq!(both("This is a line"), result);
        }
        None => panic!(),
    }
}

#[test]
fn raw_parser_parse_line_is_both_test() {
    let s = to_chars(" This is a line\n");
    match parse_line(&s, 0) {
        Some((end, result)) => {
            assert!(end == s.len());
            assert_eq!(both("This is a line"), result);
        }
        None => panic!(),
    }
}

#[test]
fn parser_parse_line_is_left_test() {
    let s = to_chars("-This is a line\n");
    match parse_line(&s, 0) {
        Some((end, result)) => {
            assert!(end == s.len());
            assert_eq!(left("This is a line"), result);
        }
        None => panic!(),
    }
}

#[test]
fn raw_parser_parse_line_is_left_test() {
    let s = to_chars("-This is a line\n");
    match parse_line(&s, 0) {
        Some((end, result)) => {
            assert!(end == s.len());
            assert_eq!(left("This is a line"), result);
        }
        None => panic!(),
    }
}

#[test]
fn parser_parse_line_is_right_test() {
    let s = to_chars("+This is a line\n");
    match parse_line(&s, 0) {
        Some((end, result)) => {
            assert!(end == s.len());
            assert_eq!(right("This is a line"), result);
        }
        None => panic!(),
    }
}

#[test]
fn raw_parser_parse_line_is_right_test() {
    let s = to_chars("+This is a line\n");
    match parse_line(&s, 0) {
        Some((end, result)) => {
            assert!(end == s.len());
            assert_eq!(right("This is a line"), result);
        }
        None => panic!(),
    }
}

fn lines_test_expected() -> Vec<RawLine> {
    vec![
        right("This is a line"),
        both("this is a both line"),
        left("This is a left line"),
        both("Another Both!"),
    ]
}

#[test]
fn parser_parse_lines_test() {
    let s = to_chars(
        "+This is a line\n this is a both line\n-This is a left line\n Another Both!\n",
    );
    let (end, result) = parse_lines(&s, 0);
    assert!(end == s.len());
    assert_eq!(lines_test_expected(), result);
}

#[test]
fn raw_parser_parse_lines_test() {
    let s = to_chars(
        "+This is a line\n this is a both line\n-This is a left line\n Another Both!\n",
    );
    let (end, result) = parse_lines(&s, 0);
    assert!(end == s.len());
    assert_eq!(lines_test_expected(), result);
}

fn hunk_test_expected() -> RawFileHunk {
    RawFileHunk {
        line_info: (1, 3, 1, 6),
        lines: vec![
            right("Add lines on top"),
            right("More than one"),
            right("So... three"),
            both("And lines on top"),
            both("very good expanded"),
            both("that it must break it"),
        ],
    }
}

#[test]
fn parser_parse_raw_file_hunk_test() {
    let input = r#"--- a/file.txt
+++ b/file.txt
@@ -1,3 +1,6 @@
+Add lines on top
+More than one
+So... three
 And lines on top
 very good expanded
 that it must break it
"#;
    let s = to_chars(input);
    match parse_raw_file_hunk(&s, 0) {
        Ok(Some((end, result))) => {
            assert!(end == s.len());
            assert_eq!(hunk_test_expected(), result);
        }
        other => panic!("{:?}", other),
    }
}

#[test]
fn raw_parser_parse_raw_file_hunk_test() {
    let input = r#"@@ -1,3 +1,6 @@
+Add lines on top
+More than one
+So... three
 And lines on top
 very good expanded
 that it must break it
"#;
    let s = to_chars(input);
    match parse_raw_file_hunk(&s, 0) {
        Ok(Some((end, result))) => {
            assert!(end == s.len());
            assert_eq!(hunk_test_expected(), result);
        }
        other => panic!("{:?}", other),
    }
}

fn index_header(name: &str, hash: &str) -> RawFileHeader {
    RawFileHeader {
        filenames: names(name, name),
        extended_headers: vec![ExtendedHeader::Index(hash.to_string())],
    }
}

#[test]
fn parser_parse_raw_file_single_hunk_test() {
    let input = r#"diff --git a/file.txt b/file.txt
index c64d930..e475af3 100644
--- a/file.txt
+++ b/file.txt
@@ -1,5 +1,5 @@
 apples
 pears
 strawberries
-bannannass
-peacches
+bananas
+peaches
"#;
    let s = to_chars(input);
    match parse_raw_file(&s, 0) {
        Ok(Some((end, result))) => {
            assert!(end == s.len());
            assert_eq!(
                RawFile {
                    header: index_header("file.txt", "e475af3"),
                    hunks: vec![RawFileHunk {
                        line_info: (1, 5, 1, 5),
                        lines: vec![
                            both("apples"),
                            both("pears"),
                            both("strawberries"),
                            left("bannannass"),
                            left("peacches"),
                            right("bananas"),
                            right("peaches"),
                        ]
                    }]
                },
                result
            );
        }
        other => panic!("{:?}", other),
    }
}

#[test]
fn raw_parser_parse_raw_file_single_hunk_test() {
    let input = r#"diff --git a/src/main.rs b/src/main.rs
index 82ef95f..1f77505 100644
--- a/src/main.rs
+++ b/src/main.rs
@@ -47,9 +47,9 @@ fn main() {
     // }
 a
     // let files: Vec<file::File> = parse_content(&lines);
-    let files: Vec<file::File> = parse_content(buffer.into_bytes());
+    // let files: Vec<file::File> = parse_content(buffer.into_bytes());
 a
-    printer::print(&files);
+    // printer::print(&files);
 }
 a
 // Test cases
"#;
    let s = to_chars(input);
    match parse_raw_file(&s, 0) {
        Ok(Some((end, result))) => {
            assert!(end == s.len());
            assert_eq!(names("src/main.rs", "src/main.rs"), result.header.filenames);
            assert!(resolve_modifier(&result.header.extended_headers) != MODIFIER::DELETE);
            assert_eq!("1f77505", resolve_commit_id(&result.header.extended_headers));
            assert_eq!(
                vec![RawFileHunk {
                    line_info: (47, 9, 47, 9),
                    lines: vec![
                        both("    // }"),
                        both("a"),
                        both("    // let files: Vec<file::File> = parse_content(&lines);"),
                        left("    let files: Vec<file::File> = parse_content(buffer.into_bytes());"),
                        right("    // let files: Vec<file::File> = parse_content(buffer.into_bytes());"),
                        both("a"),
                        left("    printer::print(&files);"),
                        right("    // printer::print(&files);"),
                        both("}"),
                        both("a"),
                        both("// Test cases"),
                    ]
                }],
                result.hunks
            );
        }
        other => panic!("{:?}", other),
    }
}

#[test]
fn parser_parse_raw_file_multiple_hunks_test() {
    let input = r#"diff --git a/file.txt b/file.txt
index c5d5782..5014215 100644
--- a/file.txt
+++ b/file.txt
@@ -1,5 +1,4 @@
 apples
-pears
 strawberries
 bananas
 peaches
@@ -14,8 +13,7 @@ tomatoes
 peas
 garlic
 ---
-milk
-cheese
 butter
+cheese
+milk
 whiped cream
-
"#;
    let s = to_chars(input);
    match parse_raw_file(&s, 0) {
        Ok(Some((_end, result))) => assert_eq!(
            RawFile {
                header: index_header("file.txt", "5014215"),
                hunks: vec![
                    RawFileHunk {
                        line_info: (1, 5, 1, 4),
                        lines: vec![
                            both("apples"),
                            left("pears"),
                            both("strawberries"),
                            both("bananas"),
                            both("peaches"),
                        ]
                    },
                    RawFileHunk {
                        line_info: (14, 8, 13, 7),
                        lines: vec![
                            both("peas"),
                            both("garlic"),
                            both("---"),
                            left("milk"),
                            left("cheese"),
                            both("butter"),
                            right("cheese"),
                            right("milk"),
                            both("whiped cream"),
                            left(""),
                        ]
                    },
                ]
            },
            result
        ),
        other => panic!("{:?}", other),
    }
}

#[test]
fn raw_parser_parse_raw_file_multiple_hunks_test() {
    let input = r#"diff --git a/file2.txt b/file2.txt
index 772563d..01d1a6e 100644
--- a/file2_renamed.txt
+++ b/file2_renamed.txt
@@ -1,3 +1,7 @@
+And lines on top
+very good expanded
+that it must break it
+in two parts...
 This is file 2
 Line betwern
 Second line
@@ -5,4 +9,7 @@ line at the end
 Line
 stays
 here
+And even more lines
+
 Adding more lines of ...
+And more and more
"#;
    let s = to_chars(input);
    match parse_raw_file(&s, 0) {
        Ok(Some((end, result))) => {
            assert!(end == s.len());
            assert_eq!(names("file2.txt", "file2.txt"), result.header.filenames);
            assert!(resolve_modifier(&result.header.extended_headers) != MODIFIER::DELETE);
            assert_eq!("01d1a6e", resolve_commit_id(&result.header.extended_headers));
            assert_eq!(
                vec![
                    RawFileHunk {
                        line_info: (1, 3, 1, 7),
                        lines: vec![
                            right("And lines on top"),
                            right("very good expanded"),
                            right("that it must break it"),
                            right("in two parts..."),
                            both("This is file 2"),
                            both("Line betwern"),
                            both("Second line"),
                        ]
                    },
                    RawFileHunk {
                        line_info: (5, 4, 9, 7),
                        lines: vec![
                            both("Line"),
                            both("stays"),
                            both("here"),
                            right("And even more lines"),
                            right(""),
                            both("Adding more lines of ..."),
                            right("And more and more"),
                        ]
                    },
                ],
                result.hunks
            );
        }
        other => panic!("{:?}", other),
    }
}

#[test]
fn parser_parse_multiple_raw_files_test() {
    let input = r#"diff --git a/fruits.txt b/fruits.txt
index a4729d6..f3c9161 100644
--- a/fruits.txt
+++ b/fruits.txt
@@ -1,3 +1,3 @@
 apples
-oranges
 bananas
+oranges
diff --git a/spririts.txt b/spririts.txt
index db1afc7..6b65689 100644
--- a/spririts.txt
+++ b/spririts.txt
@@ -1,5 +1,5 @@
-whisky
+gin
 rum
 tekila
 vodka
-gin
+whisky
"#;
    let s = to_chars(input);
    match parse_raw_files_intern(&s, 0) {
        Ok((_end, result)) => assert_eq!(
            vec![
                RawFile {
                    header: index_header("fruits.txt", "f3c9161"),
                    hunks: vec![RawFileHunk {
                        line_info: (1, 3, 1, 3),
                        lines: vec![
                            both("apples"),
                            left("oranges"),
                            both("bananas"),
                            right("oranges"),
                        ]
                    }]
                },
                RawFile {
                    header: index_header("spririts.txt", "6b65689"),
                    hunks: vec![RawFileHunk {
                        line_info: (1, 5, 1, 5),
                        lines: vec![
                            left("whisky"),
                            right("gin"),
                            both("rum"),
                            both("tekila"),
                            both("vodka"),
                            left("gin"),
                            right("whisky"),
                        ]
                    }]
                },
            ],
            result
        ),
        Err(e) => panic!("{:?}", e),
    }
}

#[test]
fn raw_parser_parse_multiple_raw_files_test() {
    let input = r#"diff --git a/file1.txt b/file1.txt
index 534cc51..0ee5d0d 100644
--- a/file1.txt
+++ b/file1.txt
@@ -1,1 +1,3 @@
-Remove line and add another
+Remove line and add anothers
+Add more lines
+And change the first
diff --git a/file2_renamed.txt b/file2_renamed.txt
index 35dee2c..a66e579 100644
--- a/file2_renamed.txt
+++ b/file2_renamed.txt
@@ -1,4 +1,4 @@
 This is file 2
-Line between
+Line betwern
 Second line
 line at the end
"#;
    let s = to_chars(input);
    match parse_raw_files_intern(&s, 0) {
        Ok((_end, result)) => assert_eq!(
            vec![
                RawFile {
                    header: index_header("file1.txt", "0ee5d0d"),
                    hunks: vec![RawFileHunk {
                        line_info: (1, 1, 1, 3),
                        lines: vec![
                            left("Remove line and add another"),
                            right("Remove line and add anothers"),
                            right("Add more lines"),
                            right("And change the first"),
                        ]
                    }]
                },
                RawFile {
                    header: index_header("file2_renamed.txt", "a66e579"),
                    hunks: vec![RawFileHunk {
                        line_info: (1, 4, 1, 4),
                        lines: vec![
                            both("This is file 2"),
                            left("Line between"),
                            right("Line betwern"),
                            both("Second line"),
                            both("line at the end"),
                        ]
                    }]
                },
            ],
            result
        ),
        Err(e) => panic!("{:?}", e),
    }
}

#[test]
fn parse_deleted_file_test() {
    let s = to_chars("deleted file mode 100644\n");
    match parse_extended_header_deleted(&s, 0) {
        Some((_end, result)) => assert_eq!(ExtendedHeader::Deleted, result),
        None => panic!(),
    }
}

#[test]
fn parse_not_deleted_file_test() {
    let s = to_chars("file mode 100644\n");
    assert_eq!(None, parse_extended_header_deleted(&s, 0));
}
