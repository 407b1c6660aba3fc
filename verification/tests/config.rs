use fop::config::{
    lookup, normalize_extension, parse_bool, parse_comment_chars, parse_config, parse_extensions,
    parse_list, read_extensions, read_list, should_ignore_dir, should_ignore_file,
};

fn owned(items: &[&str]) -> Vec<String> {
    items.iter().map(|s| s.to_string()).collect()
}

#[test]
fn settings_are_read_line_by_line() {
    let settings = parse_config("# a comment\n\n no-sort = YES \nbackup=false\nignorefiles = a.txt, b.txt ,,\nno equals sign\nkey=a=b\nno-sort = no\r\n");
    let pairs: Vec<(String, String)> = settings.iter().map(|s| (s.key.clone(), s.value.clone())).collect();
    assert_eq!(
        pairs,
        vec![
            ("no-sort".to_string(), "YES".to_string()),
            ("backup".to_string(), "false".to_string()),
            ("ignorefiles".to_string(), "a.txt, b.txt ,,".to_string()),
            ("key".to_string(), "a=b".to_string()),
            ("no-sort".to_string(), "no".to_string()),
        ]
    );
    // the last setting of a key counts
    assert_eq!(lookup(&settings, "no-sort").unwrap(), "no");
    assert!(lookup(&settings, "missing").is_none());
    assert!(!parse_bool(&settings, "no-sort", true));
    assert!(!parse_bool(&settings, "backup", true));
    assert!(parse_bool(&settings, "missing", true));
    assert!(!parse_bool(&settings, "missing", false));
    assert_eq!(parse_list(&settings, "ignorefiles"), vec!["a.txt", "b.txt"]);
    assert!(parse_list(&settings, "missing").is_empty());
    assert!(parse_config("").is_empty());
}

#[test]
fn switches_are_on_for_true_yes_and_one() {
    let settings = parse_config("a=true\nb=Yes\nc=1\nd=on\ne=TRUE\nf=\n");
    assert!(parse_bool(&settings, "a", false));
    assert!(parse_bool(&settings, "b", false));
    assert!(parse_bool(&settings, "c", false));
    assert!(!parse_bool(&settings, "d", true));
    assert!(parse_bool(&settings, "e", false));
    assert!(!parse_bool(&settings, "f", true));
}

#[test]
fn lists_extensions_and_comment_marks() {
    assert_eq!(read_list(" a , ,b,"), vec!["a", "b"]);
    assert!(read_list("").is_empty());
    assert_eq!(read_extensions(".txt, ..list ,md,.,"), vec!["txt", "list", "md"]);
    assert_eq!(normalize_extension("..txt"), "txt");
    assert_eq!(normalize_extension("txt"), "txt");
    let settings = parse_config("file-extensions = .txt,.lst\ncomments = !, #\n");
    assert_eq!(parse_extensions(&settings, "file-extensions"), vec!["txt", "lst"]);
    assert_eq!(parse_extensions(&settings, "missing"), vec!["txt"]);
    assert_eq!(parse_comment_chars(&settings, "comments"), vec!["!", "#"]);
    assert_eq!(parse_comment_chars(&settings, "missing"), vec!["!"]);
}

#[test]
fn ignored_files_and_directories() {
    let patterns = owned(&["backup", "test.txt"]);
    assert!(should_ignore_file("test.txt", &patterns));
    assert!(should_ignore_file("my-backup-list.txt", &patterns));
    assert!(!should_ignore_file("list.txt", &patterns));
    assert!(!should_ignore_file("list.txt", &[]));
    assert!(should_ignore_dir(&owned(&["home", "old-backup", "lists"]), &patterns));
    assert!(!should_ignore_dir(&owned(&["home", "lists"]), &patterns));
    assert!(!should_ignore_dir(&[], &patterns));
}
