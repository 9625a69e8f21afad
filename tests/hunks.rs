use anot::hunks::{modified_lines_from_diff, modified_lines_from_output};
use std::collections::HashSet;

fn set_of(v: &[usize]) -> HashSet<usize> {
    v.iter().copied().collect()
}

#[test]
fn header_with_counts() {
    assert_eq!(modified_lines_from_diff("@@ -5,2 +5,3 @@"), set_of(&[5, 6, 7]));
}

#[test]
fn header_without_counts() {
    assert_eq!(modified_lines_from_diff("@@ -1 +1 @@"), set_of(&[1]));
}

#[test]
fn diff_of_modified_and_appended_lines() {
    let diff = "diff --git a/test.txt b/test.txt\n\
index 3e5e6ff..0c1d4a1 100644\n\
--- a/test.txt\n\
+++ b/test.txt\n\
@@ -2 +2 @@ line 1\n\
-line 2\n\
+modified line 2\n\
@@ -3,0 +4,2 @@ line 3\n\
+new line 4\n\
+new line 5\n";
    let lines = modified_lines_from_diff(diff);
    assert!(!lines.contains(&1));
    assert!(lines.contains(&2));
    assert!(!lines.contains(&3));
    assert!(lines.contains(&4));
    assert!(lines.contains(&5));
    assert_eq!(lines, set_of(&[2, 4, 5]));
}

#[test]
fn unavailable_diff_gives_empty_set() {
    assert!(modified_lines_from_output(None).is_empty());
    assert!(modified_lines_from_output(Some("")).is_empty());
}

#[test]
fn output_is_parsed_when_present() {
    assert_eq!(
        modified_lines_from_output(Some("@@ -10,3 +12,2 @@\n")),
        set_of(&[12, 13])
    );
}

#[test]
fn pure_deletion_adds_nothing() {
    assert!(modified_lines_from_diff("@@ -4,2 +3,0 @@\n-a\n-b\n").is_empty());
}

#[test]
fn malformed_headers_are_skipped() {
    assert!(modified_lines_from_diff("@@ -1, +2 @@").is_empty());
    assert!(modified_lines_from_diff("@@ -1 +x @@").is_empty());
    assert!(modified_lines_from_diff("@@ -1 +2,3@@").is_empty());
    assert!(modified_lines_from_diff("@ -1 +2 @@").is_empty());
}

#[test]
fn headers_count_only_at_line_starts() {
    assert_eq!(
        modified_lines_from_diff("xx@@ -1 +7 @@\n@@ -9,1 +20,2 @@ ctx"),
        set_of(&[20, 21])
    );
    assert_eq!(
        modified_lines_from_diff("@@ -1 +1 @@\n-old\n+s = '@@ -1 +90 @@'\n"),
        set_of(&[1])
    );
    assert_eq!(
        modified_lines_from_diff("+x\n @@ -1 +4 @@\n"),
        set_of(&[])
    );
}

#[test]
fn old_side_is_ignored() {
    assert_eq!(modified_lines_from_diff("@@ -100,50 +3,1 @@"), set_of(&[3]));
}

#[test]
fn overlapping_hunks_are_united() {
    assert_eq!(
        modified_lines_from_diff("@@ -1 +1,3 @@\n@@ -2 +2,3 @@\n"),
        set_of(&[1, 2, 3, 4])
    );
}

#[test]
fn start_beyond_usize_adds_nothing() {
    assert!(modified_lines_from_diff("@@ -1 +99999999999999999999999 @@").is_empty());
}
