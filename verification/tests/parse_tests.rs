use cub_diff::context_diff::ContextDiffParser;
use cub_diff::diff::{Diff, DiffPlusParser};
use cub_diff::git_binary_diff::git_base85::encode;
use cub_diff::git_binary_diff::{GitBinaryDiffData, GitBinaryDiffMethod, GitBinaryDiffParser};
use cub_diff::lines::{Lines, LinesIfce};
use cub_diff::preamble::{DiffPreambleParser, GitPreambleParser, PreambleParser};
use cub_diff::text_diff::get_text_diff_header_at;
use cub_diff::unified_diff::UnifiedDiffParser;
use cub_diff::MultiListIter;

#[test]
fn lib_it_works() {
    assert_eq!(2 + 2, 4);
}

static CONTEXT_DIFF: &str = "*** lao	2002-02-21 23:30:39.942229878 -0800
--- tzu	2002-02-21 23:30:50.442260588 -0800
***************
*** 1,7 ****
- The Way that can be told of is not the eternal Way;
- The name that can be named is not the eternal name.
  The Nameless is the origin of Heaven and Earth;
! The Named is the mother of all things.
  Therefore let there always be non-being,
    so we may see their subtlety,
  And let there always be being,
--- 1,6 ----
  The Nameless is the origin of Heaven and Earth;
! The named is the mother of all things.
! 
  Therefore let there always be non-being,
    so we may see their subtlety,
  And let there always be being,
***************
*** 9,11 ****
--- 8,13 ----
  The two are the same,
  But after they are produced,
    they have different names.
+ They both may be called deep and profound.
+ Deeper and more profound,
+ The door of all subtleties!
";

#[test]
fn context_diff_parse() {
    let diff_lines = Lines::from_string(CONTEXT_DIFF);
    let parser = ContextDiffParser::new();
    assert!(parser.get_diff_at(&diff_lines, 0).is_ok());
    assert!(parser.get_diff_at(&diff_lines, 0).unwrap().is_some());
    assert!(parser.get_diff_at(&diff_lines, 1).unwrap().is_none());
}

#[test]
fn context_diff_details() {
    let diff_lines = Lines::from_string(CONTEXT_DIFF);
    let parser = ContextDiffParser::new();
    let diff = parser.get_diff_at(&diff_lines, 0).unwrap().unwrap();
    assert_eq!(diff.len(), diff_lines.len());
    assert_eq!(diff.hunks().len(), 2);
    assert_eq!(diff.header().ante_pat.file_path, "lao");
    assert_eq!(
        diff.header().ante_pat.time_stamp.as_deref(),
        Some("2002-02-21 23:30:39.942229878 -0800")
    );
    assert_eq!(diff.header().post_pat.file_path, "tzu");
    assert_eq!(diff.hunks()[0].ante_chunk.start_line_num, 1);
    assert_eq!(diff.hunks()[1].ante_chunk.start_line_num, 9);
}

static LAO_FOR_CONTEXT: &str = "The Way that can be told of is not the eternal Way;
The name that can be named is not the eternal name.
The Nameless is the origin of Heaven and Earth;
The Named is the mother of all things.
Therefore let there always be non-being,
  so we may see their subtlety,
And let there always be being,
  so we may see their outcome.
The two are the same,
But after they are produced,
  they have different names.
";

static TZU_FOR_CONTEXT: &str = "The Nameless is the origin of Heaven and Earth;
The named is the mother of all things.

Therefore let there always be non-being,
  so we may see their subtlety,
And let there always be being,
  so we may see their outcome.
The two are the same,
But after they are produced,
  they have different names.
They both may be called deep and profound.
Deeper and more profound,
The door of all subtleties!
";

#[test]
fn context_diff_applies() {
    // the canonical two-hunk context diff rewrites its ante text into its
    // post text
    let diff_lines = Lines::from_string(CONTEXT_DIFF);
    let parser = ContextDiffParser::new();
    let diff = parser.get_diff_at(&diff_lines, 0).unwrap().unwrap();
    let target = Lines::from_string(LAO_FOR_CONTEXT);
    let changed = diff.apply_to_lines(&target, false);
    assert_eq!(changed.successes, 2);
    assert_eq!(changed.failures, 0);
    assert_eq!(changed.string, TZU_FOR_CONTEXT);
}

#[test]
fn preamble_it_works() {
    let mut lines: Lines = Vec::new();
    for s in &[
        "diff --git a/src/preamble.rs b/src/preamble.rs\n",
        "new file mode 100644\n",
        "index 0000000..0503e55\n",
    ] {
        lines.push(s.to_string())
    }

    let parser = GitPreambleParser::new();

    let preamble = parser.get_preamble_at(&lines, 0);
    assert!(preamble.is_some());
    let preamble = preamble.unwrap();
    assert!(preamble.get_extra_line_index("index") == Some(2));
}

#[test]
fn git_preamble_extras() {
    let lines: Lines = vec![
        "diff --git a/x b/x\n".to_string(),
        "old mode 100644\n".to_string(),
        "new mode 100755\n".to_string(),
        "not an extra\n".to_string(),
    ];
    let parser = GitPreambleParser::new();
    let preamble = parser.get_preamble_at(&lines, 0).unwrap();
    assert_eq!(preamble.len(), 3);
    assert_eq!(preamble.ante_file_path_as_str(), "a/x");
    assert_eq!(preamble.post_file_path_as_str(), "b/x");
    assert_eq!(preamble.get_extra("old mode"), Some("100644"));
    assert_eq!(preamble.get_extra("new mode"), Some("100755"));
    assert_eq!(preamble.get_extra("rename from"), None);
}

#[test]
fn generic_preamble_parse() {
    let lines: Lines = vec!["diff -r -u a/path b/path\n".to_string()];
    let parser = DiffPreambleParser::new();
    let preamble = parser.get_preamble_at(&lines, 0).unwrap();
    assert_eq!(preamble.ante_file_path_as_str(), "a/path");
    assert_eq!(preamble.post_file_path_as_str(), "b/path");
    // a --git line belongs to the VCS parser
    let git_line: Lines = vec!["diff --git a/path b/path\n".to_string()];
    assert!(parser.get_preamble_at(&git_line, 0).is_none());
    let dispatcher = PreambleParser::new();
    assert!(dispatcher.get_preamble_at(&git_line, 0).is_some());
}

#[test]
fn get_file_data_works() {
    let mut lines: Lines = Vec::new();
    lines.push("--- a/path/to/original\n".to_string());
    lines.push("+++ b/path/to/new\n".to_string());
    let tdh = get_text_diff_header_at(&lines, 0, "--- ", "+++ ", false).unwrap().unwrap();
    assert_eq!(tdh.ante_pat.file_path, "a/path/to/original");
    assert_eq!(tdh.ante_pat.time_stamp, None);
    assert_eq!(tdh.post_pat.file_path, "b/path/to/new");
    assert_eq!(tdh.post_pat.time_stamp, None);
}

static UNIFIED_DIFF: &str = "--- lao	2002-02-21 23:30:39.942229878 -0800
+++ tzu	2002-02-21 23:30:50.442260588 -0800
@@ -1,7 +1,6 @@
-The Way that can be told of is not the eternal Way;
-The name that can be named is not the eternal name.
 The Nameless is the origin of Heaven and Earth;
-The Named is the mother of all things.
+The named is the mother of all things.
+
 Therefore let there always be non-being,
   so we may see their subtlety,
 And let there always be being,
@@ -9,3 +8,6 @@
 The two are the same,
 But after they are produced,
   they have different names.
+They both may be called deep and profound.
+Deeper and more profound,
+The door of all subtleties!
";

static LAO: &str = "The Way that can be told of is not the eternal Way;
The name that can be named is not the eternal name.
The Nameless is the origin of Heaven and Earth;
The Named is the mother of all things.
Therefore let there always be non-being,
  so we may see their subtlety,
And let there always be being,
  so we may see their outcome.
The two are the same,
But after they are produced,
  they have different names.
";

static TZU: &str = "The Nameless is the origin of Heaven and Earth;
The named is the mother of all things.

Therefore let there always be non-being,
  so we may see their subtlety,
And let there always be being,
  so we may see their outcome.
The two are the same,
But after they are produced,
  they have different names.
They both may be called deep and profound.
Deeper and more profound,
The door of all subtleties!
";

#[test]
fn unified_diff_applies_exactly() {
    let diff_lines = Lines::from_string(UNIFIED_DIFF);
    let parser = UnifiedDiffParser::new();
    let diff = parser.get_diff_at(&diff_lines, 0).unwrap().unwrap();
    assert_eq!(diff.hunks().len(), 2);
    let target = Lines::from_string(LAO);
    let changed = diff.apply_to_lines(&target, false);
    assert_eq!(changed.string, TZU);
    assert_eq!(changed.successes, 2);
    assert_eq!(changed.failures, 0);
}

#[test]
fn unified_diff_reverses() {
    // applying the diff and then its reverse restores the original text
    let diff_lines = Lines::from_string(UNIFIED_DIFF);
    let parser = UnifiedDiffParser::new();
    let diff = parser.get_diff_at(&diff_lines, 0).unwrap().unwrap();
    let target = Lines::from_string(LAO);
    let changed = diff.apply_to_lines(&target, false);
    assert_eq!(changed.string, TZU);
    let back = diff.apply_to_lines(&Lines::from_string(&changed.string), true);
    assert_eq!(back.string, LAO);
    assert_eq!(back.successes, 2);
}

#[test]
fn unified_diff_already_applied() {
    // a replacement hunk applied twice: the second pass finds the post
    // block in place and leaves the text alone
    let patch = "--- a\n+++ b\n@@ -1,3 +1,3 @@\n a\n-b\n+x\n c\n";
    let diff_lines = Lines::from_string(patch);
    let parser = UnifiedDiffParser::new();
    let diff = parser.get_diff_at(&diff_lines, 0).unwrap().unwrap();
    let first = diff.apply_to_lines(&Lines::from_string("a\nb\nc\n"), false);
    assert_eq!(first.string, "a\nx\nc\n");
    assert_eq!(first.successes, 1);
    let second = diff.apply_to_lines(&Lines::from_string(&first.string), false);
    assert_eq!(second.string, "a\nx\nc\n");
    assert_eq!(second.already_applied, 1);
    assert_eq!(second.successes, 0);
}

#[test]
fn diff_plus_parses_and_hashes_stably() {
    let text = format!("diff --git a/lao b/tzu\nindex 0000000..0503e55\n{}", UNIFIED_DIFF);
    let all_lines = Lines::from_string(&text);
    let parser = DiffPlusParser::new();
    let dp = parser.get_diff_plus_at(&all_lines, 0).unwrap().unwrap();
    // the record's span is the preamble's line count plus the body's
    assert_eq!(dp.len(), all_lines.len());
    assert!(dp.preamble().is_some());
    let digest = dp.hash_digest();
    assert_eq!(digest.len(), 32);
    // reparsing the record's own lines yields the same digest
    let collected = dp.collect_lines();
    assert_eq!(collected, all_lines);
    let dp2 = parser.get_diff_plus_at(&collected, 0).unwrap().unwrap();
    assert_eq!(dp2.hash_digest(), digest);
    // the digest is no copy of the input bytes
    let flat: String = collected.concat();
    assert_ne!(digest, flat.into_bytes());
}

#[test]
fn parse_lines_walks_records() {
    let text = format!("some prose\n{}more prose\n", UNIFIED_DIFF);
    let all_lines = Lines::from_string(&text);
    let parser = DiffPlusParser::new();
    let dps = parser.parse_lines(&all_lines).unwrap();
    assert_eq!(dps.len(), 1);
    match dps[0].diff() {
        Diff::Unified(u) => assert_eq!(u.hunks().len(), 2),
        _ => panic!("the unified dialect must win"),
    }
}

#[test]
fn binary_diff_parses() {
    let payload = encode(b"\x78\x9c\x03\x00\x00\x00\x00\x01");
    let mut payload_line = String::new();
    payload_line.push((b'A' + 8) as char);
    for b in payload.string.iter() {
        payload_line.push(*b as char);
    }
    payload_line.push('\n');
    let lines: Lines = vec![
        "GIT binary patch\n".to_string(),
        "literal 0\n".to_string(),
        payload_line.clone(),
        "\n".to_string(),
        "literal 0\n".to_string(),
        payload_line.clone(),
        "\n".to_string(),
    ];
    let parser = GitBinaryDiffParser::new();
    let diff = parser.get_diff_at(&lines, 0).unwrap().unwrap();
    assert_eq!(diff.len(), 7);
    assert_eq!(diff.forward.method, GitBinaryDiffMethod::Literal);
    assert_eq!(diff.forward.data_lines.len(), 1);
    // the payload decodes and inflates to the declared zero bytes
    let content = diff.forward.inflated_content().unwrap();
    assert_eq!(content, Vec::<u8>::new());
}

#[test]
fn binary_payload_decodes_raw_bytes() {
    let data: &[u8] = b"\x78\x9c\x03\x00\x00\x00\x00\x01";
    let payload = encode(data);
    let mut payload_line = String::new();
    payload_line.push((b'A' + 8) as char);
    for b in payload.string.iter() {
        payload_line.push(*b as char);
    }
    payload_line.push('\n');
    let d = GitBinaryDiffData {
        method: GitBinaryDiffMethod::Literal,
        len: 0,
        data_lines: vec![payload_line],
    };
    assert_eq!(d.decoded_payload().unwrap(), data.to_vec());
}

#[test]
fn binary_delta_payload_replays() {
    // a delta payload carried through base-85: decoding it and replaying
    // it against the source reconstructs the target
    let source: &[u8] = b"abcdefgh";
    // copy "ab", insert "XY": the target is "abXY"
    let delta: Vec<u8> = vec![8, 4, 0x91, 0, 2, 2, b'X', b'Y'];
    let payload = encode(&delta);
    let mut payload_line = String::new();
    payload_line.push((b'A' + 8) as char);
    for b in payload.string.iter() {
        payload_line.push(*b as char);
    }
    payload_line.push('\n');
    let d = GitBinaryDiffData {
        method: GitBinaryDiffMethod::Delta,
        len: 4,
        data_lines: vec![payload_line],
    };
    let raw = d.decoded_payload().unwrap();
    assert_eq!(raw, delta);
    let target = cub_diff::git_binary_diff::git_delta::patch_delta(source, &raw).unwrap();
    assert_eq!(target, b"abXY".to_vec());
}

#[test]
fn multi_list_iter_walks_lists() {
    let a = vec![1, 2];
    let b = vec![3];
    let mut it = MultiListIter::new(vec![&a[..], &b[..]]);
    assert_eq!(it.next(), Some(&1));
    assert_eq!(it.next(), Some(&2));
    assert_eq!(it.next(), Some(&3));
    assert_eq!(it.next(), None);
}
