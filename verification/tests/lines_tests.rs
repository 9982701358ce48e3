use cub_diff::lines::{
    first_inequality_fm_head, first_inequality_fm_tail, CompleteLines, CompleteLinesExt, LineIfce,
    Lines, LinesIfce,
};
use cub_diff::scan::{path_stripped_of_n_levels, str_eq};
use cub_diff::text_diff::{extract_source_lines, SkipRule};

fn count_lines(text: &str) -> usize {
    let mut it = CompleteLines::new(text);
    let mut n = 0;
    while it.next().is_some() {
        n += 1;
    }
    n
}

fn last_line<'a>(text: &'a str) -> Option<&'a str> {
    let mut it = CompleteLines::new(text);
    let mut last = None;
    while let Some(l) = it.next() {
        last = Some(l);
    }
    last
}

#[test]
fn complete_lines() {
    assert_eq!(count_lines(""), 0);
    assert_eq!(count_lines("\n"), 1);
    assert_eq!(count_lines("\n\n"), 2);
    assert_eq!(count_lines("one"), 1);
    assert_eq!(count_lines("one\n"), 1);
    assert_eq!(CompleteLines::new("one\n").next(), Some("one\n"));
    assert_eq!(count_lines("one\ntwo\n"), 2);
    assert_eq!(CompleteLines::new("one\ntwo\n").next(), Some("one\n"));
    assert_eq!(last_line("one\ntwo\n"), Some("two\n"));
}

#[test]
fn complet_lines_ext() {
    let string = "one\n\ntwo\nthree".to_string();
    let mut iter = string.complete_lines();
    assert_eq!(iter.next(), Some("one\n"));
    assert_eq!(iter.next(), Some("\n"));
    assert_eq!(iter.next(), Some("two\n"));
    assert_eq!(iter.next(), Some("three"));
    assert_eq!(iter.next(), None);
}

fn lines_from_string(string: &str) -> Vec<String> {
    Lines::from_string(string)
}

#[test]
fn source_lines() {
    let string = " #[derive(Debug)]
 pub enum DiffParseError {
     MissingAfterFileData(usize),
+    ParseNumberError(ParseIntError),
+    UnexpectedEndOfInput,
-    CatchAll,
+    UnexpectedEndHunk(DiffFormat, usize),
+    SyntaxError(DiffFormat, usize),
 }
"
    .to_string();
    let lines = lines_from_string(&string);
    let source_lines = extract_source_lines(&lines, 1, SkipRule::PlusPrefixed);
    assert_eq!(source_lines.len(), 5);
    assert_eq!(source_lines[0], "#[derive(Debug)]\n");
    assert_eq!(source_lines[1], "pub enum DiffParseError {\n");
    assert_eq!(source_lines[2], "    MissingAfterFileData(usize),\n");
    assert_eq!(source_lines[3], "    CatchAll,\n");
    assert_eq!(source_lines[4], "}\n");
    let source_lines = extract_source_lines(&lines, 1, SkipRule::MinusPrefixed);
    assert_eq!(source_lines.len(), 8);
    assert_eq!(source_lines[0], "#[derive(Debug)]\n");
    assert_eq!(source_lines[1], "pub enum DiffParseError {\n");
    assert_eq!(source_lines[2], "    MissingAfterFileData(usize),\n");
    assert_eq!(source_lines[3], "    ParseNumberError(ParseIntError),\n");
    assert_eq!(source_lines[4], "    UnexpectedEndOfInput,\n");
    assert_eq!(source_lines[5], "    UnexpectedEndHunk(DiffFormat, usize),\n");
    assert_eq!(source_lines[6], "    SyntaxError(DiffFormat, usize),\n");
    assert_eq!(source_lines[7], "}\n");
}

#[test]
fn lines_from_strings_works() {
    let test_string = " aaa\nbbb \nccc ddd\njjj";
    let lines = Lines::from_string(test_string);
    assert!(lines.len() == 4);
    let lines = Lines::from_string(test_string);
    assert!(lines.len() == 4);
    assert!(lines[0] == " aaa\n");
    assert!(lines[3] == "jjj");
    let test_string = " aaa\nbbb \nccc ddd\njjj\n";
    let lines = Lines::from_string(test_string);
    assert!(lines.len() == 4);
    let lines = Lines::from_string(test_string);
    assert!(lines.len() == 4);
    assert!(lines[0] == " aaa\n");
    assert!(lines[3] == "jjj\n");
}

fn owned(ls: &[&str]) -> Vec<String> {
    ls.iter().map(|s| s.to_string()).collect()
}

#[test]
fn first_inequality_bounds() {
    // the count of equal leading or trailing lines never exceeds the
    // shorter sequence
    let a = owned(&["x\n", "y\n"]);
    let b = owned(&["x\n", "y\n", "x\n", "y\n"]);
    assert_eq!(first_inequality_fm_head(&a, &b), Some(2));
    assert_eq!(first_inequality_fm_tail(&a, &b), Some(2));
    let c = owned(&["x\n", "q\n"]);
    assert_eq!(first_inequality_fm_head(&a, &c), Some(1));
    assert_eq!(first_inequality_fm_tail(&a, &c), Some(0));
    assert_eq!(first_inequality_fm_head(&a, &a), None);
    assert_eq!(first_inequality_fm_tail(&a, &a), None);
}

#[test]
fn trailing_white_space() {
    assert!("bbb \n".to_string().has_trailing_white_space());
    assert!("bbb\t".to_string().has_trailing_white_space());
    assert!(!"bbb\n".to_string().has_trailing_white_space());
    assert!(!"".to_string().has_trailing_white_space());
    assert!(!"\n".to_string().has_trailing_white_space());
}

#[test]
fn sub_lines_search() {
    let hay = owned(&["a\n", "b\n", "c\n", "b\n", "c\n"]);
    let needle = owned(&["b\n", "c\n"]);
    assert!(hay.contains_sub_lines_at(&needle, 1));
    assert!(!hay.contains_sub_lines_at(&needle, 2));
    assert_eq!(hay.find_first_sub_lines(&needle, 0), Some(1));
    assert_eq!(hay.find_first_sub_lines(&needle, 2), Some(3));
    assert_eq!(hay.find_first_sub_lines(&needle, 4), None);
    assert_eq!(hay.find_first_sub_lines(&[], 2), Some(2));
}

#[test]
fn path_stripping() {
    assert_eq!(path_stripped_of_n_levels("a/src/lib.rs", 1), "src/lib.rs");
    assert_eq!(path_stripped_of_n_levels("a/src/lib.rs", 2), "lib.rs");
    assert_eq!(path_stripped_of_n_levels("a/src/lib.rs", 0), "a/src/lib.rs");
    assert_eq!(path_stripped_of_n_levels("lib.rs", 1), "");
}

#[test]
fn str_comparison() {
    assert!(str_eq("abc", "abc"));
    assert!(!str_eq("abc", "abd"));
    assert!(!str_eq("abc", "abcd"));
}
