use fop::checksum::{add, calculate_checksum, is_checksum_line, verify, ChecksumResult};

#[test]
fn checksum_lines_are_recognised() {
    assert!(is_checksum_line("! Checksum: abc"));
    assert!(is_checksum_line("  #   CHECKSUM"));
    assert!(is_checksum_line("!checksumx"));
    assert!(!is_checksum_line("Checksum: abc"));
    assert!(!is_checksum_line("! Check sum"));
    assert!(!is_checksum_line(""));
}

#[test]
fn checksum_is_md5_in_base64_without_padding() {
    assert_eq!(calculate_checksum("abc"), "kAFQmDzST7DWlj99KOF/cg");
    assert_eq!(calculate_checksum(""), "1B2M2Y8AsgTpgAmY7PhCfg");
    // carriage returns go, runs of line feeds count as one
    assert_eq!(calculate_checksum("a\nb\n"), "3YxqOVtd02xW0jJ1Ao9SbA");
    assert_eq!(calculate_checksum("a\r\n\r\n\nb\n"), "3YxqOVtd02xW0jJ1Ao9SbA");
}

#[test]
fn verify_tells_valid_invalid_and_missing() {
    assert_eq!(verify("[Adblock Plus 2.0]\n! Checksum: T5Jx2bRCz06q/jel1rFQtA\n! Title: x\n||a.com^\n"), ChecksumResult::Valid);
    assert_eq!(
        verify("[Adblock Plus 2.0]\n! Checksum: wrong\n! Title: x\n||a.com^\n"),
        ChecksumResult::Invalid { expected: "T5Jx2bRCz06q/jel1rFQtA".to_string(), found: "wrong".to_string() }
    );
    assert_eq!(verify("[Adblock Plus 2.0]\n! Title: x\n||a.com^\n"), ChecksumResult::Missing);
    assert_eq!(verify("! Checksum\n"), ChecksumResult::Missing);
    assert_eq!(verify(""), ChecksumResult::Missing);
}

#[test]
fn add_inserts_or_replaces_the_checksum() {
    let s = add("[Adblock Plus 2.0]\n! Title: x\n||a.com^\n", false).unwrap();
    assert_eq!(s.content, "[Adblock Plus 2.0]\n! Checksum: T5Jx2bRCz06q/jel1rFQtA\n! Title: x\n||a.com^\n");
    assert_eq!(s.checksum, "T5Jx2bRCz06q/jel1rFQtA");
    assert!(s.old.is_none());
    assert_eq!(verify(&s.content), ChecksumResult::Valid);
    assert!(add(&s.content, false).is_none());

    let s = add("[Adblock Plus 2.0]\r\n# Checksum: old\r\n! Title: x\r\n||a.com^\r\n", true).unwrap();
    assert_eq!(s.content, "[Adblock Plus 2.0]\r\n# Checksum: T5Jx2bRCz06q/jel1rFQtA\r\n! Title: x\r\n||a.com^\r\n");
    assert_eq!(s.old.unwrap(), "old");
    assert!(add("", false).is_none());
}
