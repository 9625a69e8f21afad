use anot::tags::{
    annotate_comments, comment_has_tag, match_tags, matches_folded, scope_to_modified,
    AnnotationRecord, CommentRecord,
};
use std::collections::HashSet;

fn comment(line: usize, text: &str) -> CommentRecord {
    CommentRecord { line, end_line: line, text: text.to_string() }
}

fn tags(v: &[&str]) -> Vec<String> {
    v.iter().map(|t| t.to_string()).collect()
}

#[test]
fn one_record_per_tagged_comment_in_order() {
    let comments = vec![
        comment(1, "# TODO: first"),
        comment(4, "# a Note here"),
        comment(9, "# hypothesis: x > 0"),
    ];
    let found = match_tags("a.py", &comments, &tags(&["todo", "note", "hypothesis"]));
    assert_eq!(found.len(), 3);
    let lines: Vec<usize> = found.iter().map(|a| a.line).collect();
    assert_eq!(lines, vec![1, 4, 9]);
    let found_tags: Vec<&str> = found.iter().map(|a| a.tag.as_str()).collect();
    assert_eq!(found_tags, vec!["todo", "note", "hypothesis"]);
    assert_eq!(found[1].comment, "# a Note here");
    assert_eq!(found[1].path, "a.py");
}

#[test]
fn two_tags_in_one_comment_give_two_records() {
    let comments = vec![comment(3, "// TODO: see the note below")];
    let found = match_tags("a.rs", &comments, &tags(&["note", "todo"]));
    assert_eq!(
        found,
        vec![
            AnnotationRecord {
                path: "a.rs".to_string(),
                line: 3,
                tag: "note".to_string(),
                comment: "// TODO: see the note below".to_string(),
            },
            AnnotationRecord {
                path: "a.rs".to_string(),
                line: 3,
                tag: "todo".to_string(),
                comment: "// TODO: see the note below".to_string(),
            },
        ]
    );
}

#[test]
fn matching_ignores_case_and_word_boundaries() {
    assert!(comment_has_tag("# NOTED earlier", "note"));
    assert!(comment_has_tag("# nothing", "NOTHING"));
    assert!(!comment_has_tag("# to do", "todo"));
    assert!(matches_folded("# todo", "todo"));
    assert!(!matches_folded("# TODO", "todo"));
    assert!(matches_folded("abc", ""));
    assert!(!matches_folded("", "a"));
}

#[test]
fn comment_without_tags_gives_nothing() {
    let found = match_tags("a.js", &vec![comment(2, "// plain")], &tags(&["todo"]));
    assert!(found.is_empty());
    let none = match_tags("a.js", &vec![comment(2, "// todo")], &Vec::new());
    assert!(none.is_empty());
}

#[test]
fn duplicate_tags_are_not_merged() {
    let found = match_tags("a.py", &vec![comment(1, "# todo")], &tags(&["todo", "TODO"]));
    assert_eq!(found.len(), 2);
}

#[test]
fn scoping_keeps_only_modified_lines() {
    let comments = vec![comment(1, "# todo a"), comment(2, "# todo b"), comment(5, "# todo c")];
    let found = match_tags("f.py", &comments, &tags(&["todo"]));
    let modified: HashSet<usize> = [2usize, 3].into_iter().collect();
    let kept = scope_to_modified(found.clone(), &modified, true);
    assert_eq!(kept.len(), 1);
    assert_eq!(kept[0].line, 2);
    let all = scope_to_modified(found.clone(), &modified, false);
    assert_eq!(all, found);
}

#[test]
fn scoping_unmodified_annotations_gives_none() {
    let comments = vec![comment(1, "# todo a"), comment(3, "# note b")];
    let modified: HashSet<usize> = [2usize, 4, 5].into_iter().collect();
    let found = annotate_comments("f.py", &comments, &tags(&["todo", "note"]), &modified, true);
    assert!(found.is_empty());
    let empty = HashSet::new();
    let found = annotate_comments("f.py", &comments, &tags(&["todo", "note"]), &empty, true);
    assert!(found.is_empty());
}

#[test]
fn scoping_twice_changes_nothing() {
    let comments = vec![comment(1, "# todo a"), comment(2, "# todo b")];
    let modified: HashSet<usize> = [1usize].into_iter().collect();
    let once = annotate_comments("f.py", &comments, &tags(&["todo"]), &modified, true);
    let twice = scope_to_modified(once.clone(), &modified, true);
    assert_eq!(once, twice);
    assert_eq!(once.len(), 1);
}
