use anot::comments::{comment_records, extract_comments, find_annotations};
use anot::input::{FileType, Registry};
use std::collections::HashSet;

#[test]
fn python_comments_in_source_order() {
    let registry = Registry::new().unwrap();
    let text = "x = 1  # TODO: fix\n\ndef f():\n    # note here\n    return x\n";
    let found = extract_comments(&registry, FileType::Python, text);
    assert_eq!(found.len(), 2);
    assert_eq!(found[0].line, 1);
    assert_eq!(found[0].text, "# TODO: fix");
    assert_eq!(found[1].line, 4);
    assert_eq!(found[1].text, "# note here");
}

#[test]
fn rust_line_and_block_comments() {
    let registry = Registry::new().unwrap();
    let text = "// todo a\n/* note\n   b */\nfn main() {}\n";
    let found = extract_comments(&registry, FileType::Rust, text);
    assert_eq!(found.len(), 2);
    assert_eq!(found[0].line, 1);
    assert!(found[0].text.starts_with("// todo a"));
    assert_eq!(found[1].line, 2);
    assert_eq!(found[1].end_line, 3);
    assert_eq!(found[1].text, "/* note\n   b */");
}

#[test]
fn javascript_comments() {
    let registry = Registry::new().unwrap();
    let text = "// TODO x\nlet a = 1; /* note */\n";
    let found = extract_comments(&registry, FileType::JavaScript, text);
    assert_eq!(found.len(), 2);
    assert_eq!(found[0].text, "// TODO x");
    assert_eq!(found[1].line, 2);
    assert_eq!(found[1].text, "/* note */");
}

#[test]
fn malformed_file_still_gives_comments() {
    let registry = Registry::new().unwrap();
    let text = "def (:\n  # todo broken\n";
    let found = extract_comments(&registry, FileType::Python, text);
    assert!(found.iter().any(|c| c.text == "# todo broken"));
}

#[test]
fn rows_become_lines() {
    let caps = vec![(0usize, 0usize, "# a".to_string()), (4, 6, "/* b */".to_string())];
    let records = comment_records(&caps);
    assert_eq!(records.len(), 2);
    assert_eq!(records[0].line, 1);
    assert_eq!(records[1].line, 5);
    assert_eq!(records[1].end_line, 7);
    assert_eq!(records[1].text, "/* b */");
}

#[test]
fn pipeline_runs_are_identical() {
    let registry = Registry::new().unwrap();
    let text = "# todo one\nx = 1\n# NOTE two, todo too\n";
    let tags = vec!["todo".to_string(), "note".to_string()];
    let modified = HashSet::new();
    let a = find_annotations(&registry, "m.py", FileType::Python, text, &tags, &modified, false);
    let b = find_annotations(&registry, "m.py", FileType::Python, text, &tags, &modified, false);
    assert_eq!(a, b);
    assert_eq!(a.len(), 3);
    assert_eq!(a[0].line, 1);
    assert_eq!(a[1].tag, "todo");
    assert_eq!(a[2].tag, "note");
    assert_eq!(a[2].line, 3);
}

#[test]
fn pipeline_with_diff_scope() {
    let registry = Registry::new().unwrap();
    let text = "# todo one\nx = 1\n# todo two\n";
    let tags = vec!["todo".to_string()];
    let modified: HashSet<usize> = [3usize].into_iter().collect();
    let a = find_annotations(&registry, "m.py", FileType::Python, text, &tags, &modified, true);
    assert_eq!(a.len(), 1);
    assert_eq!(a[0].line, 3);
    let none: HashSet<usize> = [2usize].into_iter().collect();
    let b = find_annotations(&registry, "m.py", FileType::Python, text, &tags, &none, true);
    assert!(b.is_empty());
}
