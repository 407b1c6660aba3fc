use fop::diff::unified_diff;
use fop::typos::{added_lines, check_additions};

#[test]
fn same_lines_give_no_diff() {
    assert_eq!(unified_diff("x.txt", "a\nb\n", "a\nb\n"), "");
    assert_eq!(unified_diff("x.txt", "a\r\nb", "a\nb\n"), "");
    assert_eq!(unified_diff("x.txt", "", ""), "");
}

#[test]
fn diff_holds_what_lies_between_the_shared_lines() {
    assert_eq!(
        unified_diff("list.txt", "a\nb\nc\nd\n", "a\nx\ny\nd\n"),
        "--- a/list.txt\n+++ b/list.txt\n@@ -2,2 +2,2 @@\n-b\n-c\n+x\n+y\n"
    );
    assert_eq!(unified_diff("l", "a\nb\n", "a\n"), "--- a/l\n+++ b/l\n@@ -2,1 +1,0 @@\n-b\n");
    assert_eq!(unified_diff("l", "a\n", "a\nb\n"), "--- a/l\n+++ b/l\n@@ -1,0 +2,1 @@\n+b\n");
    assert_eq!(unified_diff("l", "", "b\n"), "--- a/l\n+++ b/l\n@@ -0,0 +1,1 @@\n+b\n");
    assert_eq!(unified_diff("l", "a\na\n", "a\n"), "--- a/l\n+++ b/l\n@@ -2,1 +1,0 @@\n-a\n");
    assert_eq!(unified_diff("l", "x\n", "y\n"), "--- a/l\n+++ b/l\n@@ -1,1 +1,1 @@\n-x\n+y\n");
}

#[test]
fn added_lines_carry_file_and_line_number() {
    let diff = "diff --git a/list.txt b/list.txt\nindex 1..2 100644\n--- a/list.txt\n+++ b/list.txt\n@@ -1,3 +10,4 @@ header\n context\n+###.ad\n-removed\n+##.fine\n context\n+x.com,,y.com##.ad\n--- a/other.txt\n+++ other.txt\n@@ -0,0 +1 @@\n+first\n";
    let found = added_lines(diff);
    let got: Vec<(String, usize, String)> = found.iter().map(|a| (a.file.clone(), a.line_num, a.content.clone())).collect();
    assert_eq!(
        got,
        vec![
            ("list.txt".to_string(), 11, "###.ad".to_string()),
            ("list.txt".to_string(), 12, "##.fine".to_string()),
            ("list.txt".to_string(), 14, "x.com,,y.com##.ad".to_string()),
            ("other.txt".to_string(), 1, "first".to_string()),
        ]
    );
    let typos = check_additions(&found);
    assert_eq!(typos.len(), 2);
    assert_eq!(typos[0].0.line_num, 11);
    assert_eq!(typos[1].1.fixed, "x.com,y.com##.ad");
    assert!(added_lines("").is_empty());
    // a header without a number, or with one too large, leaves the count as it is
    let found = added_lines("+++ b/f\n@@ -1 +5 @@\n@@ nothing @@\n+a\n@@ -1 +99999999999999999999999999 @@\n+b\n");
    assert_eq!(found[0].line_num, 5);
    assert_eq!(found[1].line_num, 6);
}
