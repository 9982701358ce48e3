use cub_diff::change::{apply_changes, Change, Snippet};
use cub_diff::lines::split_lines;

fn snippet(start_index: usize, lines: &[String]) -> Snippet {
    Snippet { start_index, lines: lines.to_vec() }
}

#[test]
fn test_change_application() {
    let ante_text =
        "zero\none\ntwo\nthree\nfour\nfive\nsix\nseven\neight\nnine\nten\neleven\ntwelve"
            .to_string();
    let ante_lines: Vec<String> = split_lines(&ante_text);
    let post_text =
        "zero\none\ntwo\nthree mod\nfour\nfive\nextra\nsix\nseven\neight mod\nnine mod\nten\neleven\ntwelve\nextra\n".to_string();
    let post_lines: Vec<String> = split_lines(&post_text);
    let ante_snippets = vec![
        snippet(2, &ante_lines[2..5]),
        snippet(5, &ante_lines[5..7]),
        snippet(7, &ante_lines[7..11]),
        snippet(12, &ante_lines[12..]),
    ];
    println!("ante snippets: {:?}", ante_snippets);
    let post_snippets = vec![
        snippet(2, &post_lines[2..5]),
        snippet(5, &post_lines[5..8]),
        snippet(8, &post_lines[8..12]),
        snippet(13, &post_lines[13..]),
    ];
    println!("post snippets: {:?}", post_snippets);
    let mut changes: Vec<Change> = vec![];
    for (a, p) in ante_snippets.iter().zip(post_snippets.iter()) {
        let change = Change::new(a.clone(), p.clone());
        changes.push(change);
    }
    let changed = apply_changes(&changes, &ante_text);
    assert_eq!(changed.string, post_text);
    let changed = apply_changes(
        &changes,
        "zero\none\ntwo\nthree\nfour\nmove\nfive\nsix\nseven\neight\nnine\nten\neleven\ntwelve",
    );
    assert_eq!(changed.string, "zero\none\ntwo\nthree mod\nfour\nmove\nfive\nextra\nsix\nseven\neight mod\nnine mod\nten\neleven\ntwelve\nextra\n");
}

#[test]
fn test_change_application_with_tail() {
    let ante_text =
        "zero\none\ntwo\nthree\nfour\nfive\nsix\nseven\neight\nnine\nten\neleven\ntwelve\nthirteen\nfourteen\n"
            .to_string();
    let ante_lines: Vec<String> = split_lines(&ante_text);
    let post_text =
        "zero\none\ntwo\nthree mod\nfour\nfive\nextra\nsix\nseven\neight mod\nnine mod\nten\neleven\ntwelve\nextra\nthirteen\nfourteen\n".to_string();
    let post_lines: Vec<String> = split_lines(&post_text);
    let ante_snippets = vec![
        snippet(2, &ante_lines[2..5]),
        snippet(5, &ante_lines[5..7]),
        snippet(7, &ante_lines[7..11]),
        snippet(12, &ante_lines[12..14]),
    ];
    println!("ante snippets: {:?}", ante_snippets);
    let post_snippets = vec![
        snippet(2, &post_lines[2..5]),
        snippet(5, &post_lines[5..8]),
        snippet(8, &post_lines[8..12]),
        snippet(13, &post_lines[13..16]),
    ];
    println!("post snippets: {:?}", post_snippets);
    let mut changes: Vec<Change> = vec![];
    for (a, p) in ante_snippets.iter().zip(post_snippets.iter()) {
        let change = Change::new(a.clone(), p.clone());
        changes.push(change);
    }
    let changed = apply_changes(&changes, &ante_text);
    assert_eq!(changed.string, post_text);
    let changed = apply_changes(
        &changes,
        "zero\none\ntwo\nthree\nfour\nmove\nfive\nsix\nseven\neight\nnine\nten\neleven\ntwelve\nthirteen\nfourteen\n",
    );
    assert_eq!(changed.string, "zero\none\ntwo\nthree mod\nfour\nmove\nfive\nextra\nsix\nseven\neight mod\nnine mod\nten\neleven\ntwelve\nextra\nthirteen\nfourteen\n");
}

#[test]
fn exact_application_counts_only_successes() {
    let ante_text = "a\nb\nc\nd\n".to_string();
    let ante_lines = split_lines(&ante_text);
    let changes = vec![Change::new(
        Snippet { start_index: 1, lines: ante_lines[1..3].to_vec() },
        Snippet { start_index: 1, lines: vec!["B\n".to_string(), "C\n".to_string()] },
    )];
    let changed = apply_changes(&changes, &ante_text);
    assert_eq!(changed.string, "a\nB\nC\nd\n");
    assert_eq!(changed.successes, 1);
    assert_eq!(changed.merges, 0);
    assert_eq!(changed.already_applied, 0);
    assert_eq!(changed.already_merged, 0);
    assert_eq!(changed.failures, 0);
}

#[test]
fn merge_updates_counter() {
    // an extra leading line shifts the file, so the hunk lands via the
    // fuzzy search and counts a merge
    let ante = Snippet {
        start_index: 0,
        lines: vec!["a\n".to_string(), "b\n".to_string(), "c\n".to_string()],
    };
    let post = Snippet {
        start_index: 0,
        lines: vec!["a\n".to_string(), "x\n".to_string(), "c\n".to_string()],
    };
    let changes = vec![Change::new(ante, post)];
    let changed = apply_changes(&changes, "pre\na\nb\nc\n");
    assert_eq!(changed.merges, 1);
    assert_eq!(changed.string, "pre\na\nx\nc\n");
}

#[test]
fn already_applied_keeps_text() {
    // applying twice: the first pass rewrites, the second sees the post
    // block already in place and leaves the text alone
    let ante = Snippet { start_index: 0, lines: vec!["A\n".to_string()] };
    let post = Snippet { start_index: 0, lines: vec!["B\n".to_string()] };
    let changes = vec![Change::new(ante, post)];
    let first = apply_changes(&changes, "A\n");
    assert_eq!(first.string, "B\n");
    assert_eq!(first.successes, 1);
    let second = apply_changes(&changes, &first.string);
    assert_eq!(second.string, "B\n");
    assert_eq!(second.already_applied, 1);
    assert_eq!(second.successes, 0);
}

#[test]
fn conflict_emits_markers() {
    let ante = Snippet { start_index: 0, lines: vec!["A\n".to_string()] };
    let post = Snippet { start_index: 0, lines: vec!["B\n".to_string()] };
    let changes = vec![Change::new(ante, post)];
    let changed = apply_changes(&changes, "Z\n");
    assert_eq!(changed.failures, 1);
    assert_eq!(changed.string, "<<<<<<<\nA\n=======\nB\n>>>>>>>\nZ\n");
}
