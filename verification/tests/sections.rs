use fop::hastext::merge_has_text;
use fop::classify::{classify, is_localhost_entry, is_tld_only, localhost_host, Classified};
use fop::sections::{
    sort_file, sort_lines, sort_lines_tracked, sort_text, sort_text_tracked, Outcome,
    SortChanges, SortConfig,
};

fn owned(items: &[&str]) -> Vec<String> {
    items.iter().map(|s| s.to_string()).collect()
}

fn config(marks: &[String]) -> SortConfig<'_> {
    SortConfig {
        convert_ubo: true,
        no_sort: false,
        alt_sort: false,
        localhost: false,
        comment_chars: marks,
        backup: false,
        keep_empty_lines: false,
        ignore_dot_domains: false,
        disable_domain_limit: false,
        fix_typos: false,
        quiet: false,
        dry_run: false,
    }
}

fn run(lines: &[&str], cfg: &SortConfig) -> (Vec<String>, Vec<String>) {
    let mut warnings = Vec::new();
    let out = sort_lines(&owned(lines), cfg, &mut warnings);
    (out, warnings)
}

#[test]
fn test_tld_only_pattern() {
    assert!(is_tld_only("||.org^"));
    assert!(is_tld_only(".com"));
    assert!(is_tld_only("|.net^"));
    assert!(!is_tld_only("||example.org^"));
}

#[test]
fn tld_only_edge_cases() {
    assert!(!is_tld_only(""));
    assert!(!is_tld_only("."));
    assert!(!is_tld_only(".c"));
    assert!(!is_tld_only(".c^"));
    assert!(is_tld_only(".co^"));
    assert!(!is_tld_only(".co^^"));
    assert!(!is_tld_only(".Com"));
    assert!(!is_tld_only("|||.com"));
    assert!(!is_tld_only("com"));
    assert!(!is_tld_only(".co.uk"));
}

#[test]
fn test_localhost_pattern() {
    // Test 0.0.0.0 entries
    assert!(is_localhost_entry("0.0.0.0 domain.com"));
    assert!(is_localhost_entry("0.0.0.0 sub.domain.com"));
    assert!(is_localhost_entry("0.0.0.0 ads.example.org"));

    // Test 127.0.0.1 entries
    assert!(is_localhost_entry("127.0.0.1 domain.com"));
    assert!(is_localhost_entry("127.0.0.1 sub.domain.com"));
    assert!(is_localhost_entry("127.0.0.1 tracker.net"));

    // Test non-matching entries
    assert!(!is_localhost_entry("# comment"));
    assert!(!is_localhost_entry("192.168.1.1 domain.com"));
    assert!(!is_localhost_entry("domain.com"));
}

#[test]
fn test_localhost_domain_extraction() {
    let host = localhost_host("0.0.0.0 z-ads.com").unwrap();
    assert_eq!(&host, "z-ads.com");

    let host = localhost_host("127.0.0.1 sub.domain.com").unwrap();
    assert_eq!(&host, "sub.domain.com");

    let host = localhost_host("0.0.0.0 a-tracker.net").unwrap();
    assert_eq!(&host, "a-tracker.net");

    assert!(localhost_host("a-tracker.net").is_none());
}

#[test]
fn end_to_end_in_the_order_given() {
    let marks = owned(&["!"]);
    let mut cfg = config(&marks);
    cfg.no_sort = true;
    let (out, warnings) = run(
        &[
            "||ads.example.com^$image,Script,Third-Party",
            "example.com,abc.com##.ad",
            "abc.com,example.com##.ad",
        ],
        &cfg,
    );
    assert_eq!(out, vec!["||ads.example.com^$image,script,third-party", "abc.com,example.com##.ad"]);
    assert!(warnings.is_empty());
}

#[test]
fn end_to_end_sorted() {
    let marks = owned(&["!"]);
    let cfg = config(&marks);
    // two cosmetic rules against one network rule: the section is sorted by selector
    let (out, _) = run(
        &[
            "||ads.example.com^$image,Script,Third-Party",
            "example.com,abc.com##.ad",
            "abc.com,example.com##.ad",
        ],
        &cfg,
    );
    assert_eq!(out, vec!["abc.com,example.com##.ad", "||ads.example.com^$image,script,third-party"]);
    // a section of network rules is sorted as lower-case text
    let (out, _) = run(&["||b.com^", "||A.com^$Script,image", "||a.com/x", "||b.com^"], &cfg);
    assert_eq!(out, vec!["||a.com/x", "||A.com^$image,script", "||b.com^"]);
}

#[test]
fn running_over_the_output_changes_nothing() {
    let marks = owned(&["!"]);
    let cfg = config(&marks);
    let input = [
        "[Adblock Plus 2.0]",
        "! Title: test",
        "||b.com^$Third-Party,domain=z.com|a.com",
        "||b.com^$third-party,domain=b.com",
        "||a.com^",
        "||a.com^",
        "! cosmetic",
        "z.com,a.com##.ad",
        "b.com##.ad",
        "b.com##div>p",
        "c.com##.x:has-text(foo)",
        "c.com##.x:has-text(bar)",
    ];
    let (once, _) = run(&input, &cfg);
    let again_in: Vec<&str> = once.iter().map(|s| s.as_str()).collect();
    let (twice, warnings) = run(&again_in, &cfg);
    assert_eq!(once, twice);
    assert!(warnings.is_empty());
    assert_eq!(
        once,
        vec![
            "[Adblock Plus 2.0]",
            "! Title: test",
            "||a.com^",
            "||b.com^$third-party,domain=a.com|b.com|z.com",
            "! cosmetic",
            "a.com,b.com,z.com##.ad",
            "c.com##.x:has-text(/bar|foo/)",
            "b.com##div > p",
        ]
    );
}

#[test]
fn boundaries_end_sections_and_stay_in_place() {
    let marks = owned(&["!", "#"]);
    let cfg = config(&marks);
    let (out, _) = run(&["||z.com^", "||y.com^", "! note", "||x.com^", "||w.com^", "%include x", "||v.com^", "[header]", "# c", "||u.com^"], &cfg);
    assert_eq!(out, vec!["||y.com^", "||z.com^", "! note", "||w.com^", "||x.com^", "%include x", "||v.com^", "[header]", "# c", "||u.com^"]);
}

#[test]
fn empty_lines_are_dropped_or_kept() {
    let marks = owned(&["!"]);
    let mut cfg = config(&marks);
    let (out, _) = run(&["||b.com^", "", "   ", "||a.com^"], &cfg);
    assert_eq!(out, vec!["||a.com^", "||b.com^"]);
    cfg.keep_empty_lines = true;
    let (out, _) = run(&["||b.com^", "", "||a.com^", "  "], &cfg);
    assert_eq!(out, vec!["||b.com^", "", "||a.com^", ""]);
}

#[test]
fn junk_rules_are_dropped_with_a_warning() {
    let marks = owned(&["!"]);
    let mut cfg = config(&marks);
    let (out, w) = run(&["||.com^", "||ab.c^", "||localhost^", "ab", "||example.com^", "||a.sampl"], &cfg);
    assert_eq!(out, vec!["||a.sampl", "||example.com^"]);
    assert_eq!(
        w,
        vec![
            "Removed overly broad TLD-only rule: ||.com^",
            "Skipped short domain rule: ||ab.c^ (domain: ab.c)",
            "Skipped network rule without dot in domain: ||localhost^ (domain: localhost)",
        ]
    );
    cfg.disable_domain_limit = true;
    cfg.ignore_dot_domains = true;
    let (out, w) = run(&["||ab.c^", "||localhost^"], &cfg);
    assert_eq!(out, vec!["||ab.c^", "||localhost^"]);
    assert!(w.is_empty());
}

#[test]
fn scheme_rules_addresses_and_wildcards_keep_undotted_domains() {
    let marks = owned(&["!"]);
    let cfg = config(&marks);
    let (out, w) = run(&["|https://x", "||10.0.0.1^", "||ad*server^", "|javascript:alert", "||[::1]^xx"], &cfg);
    assert_eq!(out.len(), 5);
    assert!(w.is_empty());
}

#[test]
fn localhost_mode_sorts_by_host_and_drops_other_lines() {
    let marks = owned(&["!"]);
    let mut cfg = config(&marks);
    cfg.localhost = true;
    let (out, w) = run(&["127.0.0.1 z-ads.com", "# a comment", "0.0.0.0 B.com", "0.0.0.0 a-tracker.net", "0.0.0.0 a-tracker.net", "||x.com^"], &cfg);
    assert_eq!(out, vec!["127.0.0.1 z-ads.com", "# a comment", "0.0.0.0 a-tracker.net", "0.0.0.0 B.com"]);
    assert_eq!(w, vec!["Removed invalid localhost entry: ||x.com^"]);
}

#[test]
fn no_sort_keeps_order_and_first_of_repeated_rules() {
    let marks = owned(&["!"]);
    let mut cfg = config(&marks);
    cfg.no_sort = true;
    let (out, _) = run(&["||z.com^", "||a.com^", "||z.com^", "||m.com^"], &cfg);
    assert_eq!(out, vec!["||z.com^", "||a.com^", "||m.com^"]);
}

#[test]
fn passthrough_rules_are_kept_as_they_are() {
    let marks = owned(&["!"]);
    let cfg = config(&marks);
    let (out, _) = run(&["[$path=/x/]Rambler.ru##DIV  >  p", "/^Foo/##DIV  >  p"], &cfg);
    assert_eq!(out, vec!["/^Foo/##DIV  >  p", "[$path=/x/]Rambler.ru##DIV  >  p"]);
}

#[test]
fn typos_are_repaired_where_asked_for() {
    let marks = owned(&["!"]);
    let mut cfg = config(&marks);
    let (out, _) = run(&["||example.com/ad.js$$domain=test.com"], &cfg);
    assert_eq!(out, vec!["||example.com/ad.js$$domain=test.com"]);
    cfg.fix_typos = true;
    let (out, _) = run(&["||example.com/ad.js$$domain=test.com"], &cfg);
    assert_eq!(out, vec!["||example.com/ad.js$domain=test.com"]);
}

#[test]
fn alt_sort_recognises_selectors_with_braces() {
    let marks = owned(&["!"]);
    let mut cfg = config(&marks);
    let (out, _) = run(&["B.com,A.com#$#body { color: red; }"], &cfg);
    // without alt_sort a selector with braces is no cosmetic rule: it is tidied as a network rule
    assert_eq!(out, vec!["B.com,A.com#$#body { color: red; }"]);
    cfg.alt_sort = true;
    let (out, _) = run(&["B.com,A.com#$#body { color: red; }"], &cfg);
    assert_eq!(out, vec!["a.com,b.com#$#body { color: red; }"]);
}

#[test]
fn sort_text_keeps_the_line_ending() {
    let marks = owned(&["!"]);
    let cfg = config(&marks);
    let mut w = Vec::new();
    assert_eq!(sort_text("||b.com^\n||a.com^\n", &cfg, &mut w), "||a.com^\n||b.com^\n");
    assert_eq!(sort_text("||b.com^\r\n||a.com^\r\n", &cfg, &mut w), "||a.com^\r\n||b.com^\r\n");
    assert_eq!(sort_text("||b.com^\n||a.com^", &cfg, &mut w), "||a.com^\n||b.com^\n");
    assert_eq!(sort_text("", &cfg, &mut w), "");
    assert_eq!(sort_text("! only a comment", &cfg, &mut w), "! only a comment\n");
}

#[test]
fn has_text_rules_are_merged() {
    let out = merge_has_text(owned(&["a.com##.x:has-text(foo)", "a.com##.x:has-text(bar)"]));
    assert_eq!(out.len(), 1);
    assert!(out[0] == "a.com##.x:has-text(/foo|bar/)" || out[0] == "a.com##.x:has-text(/bar|foo/)");
}

#[test]
fn has_text_merge_details() {
    // a group of one keeps its exact form
    assert_eq!(merge_has_text(owned(&["a.com##.x:has-text(a.b)"])), vec!["a.com##.x:has-text(a.b)"]);
    // plain arguments are escaped, regular expressions give their inside
    let out = merge_has_text(owned(&[
        "a.com##.x:has-text(a.b)",
        "b.com##.x:has-text(zzz)",
        "a.com##.x:has-text(/c+d/)",
        "##.y",
        "a.com##.x:-abp-contains(q)",
        "a.com##.x:has-text($1 (x))",
    ]));
    assert_eq!(
        out,
        vec![
            "a.com##.x:has-text(/a\\.b|c+d|\\$1 \\(x\\)/)",
            "b.com##.x:has-text(zzz)",
            "##.y",
            "a.com##.x:-abp-contains(q)",
        ]
    );
    // rules that do not end in the one call take no part
    let lines = owned(&[
        "a.com##.x:has-text(foo) > .y",
        "a.com##.x:has-text(foo):has-text(bar)",
        "a.com#@#.x:has-text(foo)",
        "a.com##.x:has-text(foo",
        "a.com##.x:has-text()",
        "a.com##.x:has-text(foo))",
    ]);
    assert_eq!(merge_has_text(lines.clone()), lines);
    assert!(merge_has_text(Vec::new()).is_empty());
}

#[test]
fn changes_are_noted_when_tracked() {
    let marks = owned(&["!"]);
    let mut cfg = config(&marks);
    cfg.fix_typos = true;
    let mut warnings = Vec::new();
    let mut changes = SortChanges::new();
    let out = sort_lines_tracked(
        &owned(&[
            "||x.com/ad.js$$domain=b.com",
            "||x.com/ad.js$domain=a.com",
            "||y.com^",
            "||y.com^",
            "! cosmetic",
            "c.com##.x:has-text(foo)",
            "c.com##.x:has-text(bar)",
            "b.com##.ad",
            "a.com##.ad",
        ]),
        &cfg,
        &mut warnings,
        &mut changes,
    );
    assert_eq!(
        out,
        vec![
            "||x.com/ad.js$domain=a.com|b.com",
            "||y.com^",
            "! cosmetic",
            "a.com,b.com##.ad",
            "c.com##.x:has-text(/bar|foo/)",
        ]
    );
    assert_eq!(changes.typos_fixed, vec!["||x.com/ad.js$$domain=b.com -> ||x.com/ad.js$domain=b.com"]);
    assert_eq!(changes.duplicates_removed, vec!["||y.com^"]);
    assert_eq!(changes.domains_combined, vec!["||x.com/ad.js$domain=a.com|b.com", "a.com,b.com##.ad"]);
    assert_eq!(changes.has_text_merged, vec!["c.com##.x:has-text(/bar|foo/)"]);

    // a second run over the output changes nothing
    let mut again = SortChanges::new();
    let text = out.join("\n") + "\n";
    let same = sort_text_tracked(&text, &cfg, &mut warnings, &mut again);
    assert_eq!(same, text);
    assert!(again.typos_fixed.is_empty());
    assert!(again.duplicates_removed.is_empty());
    assert!(again.domains_combined.is_empty());
    assert!(again.has_text_merged.is_empty());
    assert!(warnings.is_empty());
}

fn class_of(line: &str, cfg: &SortConfig) -> Classified {
    classify(&line.chars().collect(), cfg)
}

#[test]
fn lines_are_classified() {
    let marks = owned(&["!"]);
    let mut cfg = config(&marks);
    assert!(matches!(class_of("", &cfg), Classified::Blank));
    assert!(matches!(class_of("! note", &cfg), Classified::Comment));
    assert!(matches!(class_of("%include other.txt", &cfg), Classified::Directive));
    assert!(matches!(class_of("[Adblock Plus 2.0]", &cfg), Classified::SectionHeader));
    assert!(matches!(class_of("ab", &cfg), Classified::TooShort));
    assert!(matches!(class_of("[$path=/x/]a.com##div", &cfg), Classified::Modified));
    assert!(matches!(class_of("/^a.*/##div", &cfg), Classified::RegexElementHiding));
    match class_of("B.com,a.com#@#.ad > p", &cfg) {
        Classified::ElementHiding { domains, separator, selector } => {
            assert_eq!(domains.iter().collect::<String>(), "B.com,a.com");
            assert_eq!(separator.iter().collect::<String>(), "#@#");
            assert_eq!(selector.iter().collect::<String>(), ".ad > p");
        }
        _ => panic!("a cosmetic rule"),
    }
    match class_of("||ab.c^", &cfg) {
        Classified::ShortDomain { domain } => assert_eq!(domain.iter().collect::<String>(), "ab.c"),
        _ => panic!("a short rule"),
    }
    match class_of("||localhost^", &cfg) {
        Classified::UndottedDomain { domain } => assert_eq!(domain.iter().collect::<String>(), "localhost"),
        _ => panic!("a rule without a dot"),
    }
    assert!(matches!(class_of("||.com^", &cfg), Classified::TldOnlyJunk));
    assert!(matches!(class_of("||example.com^$script", &cfg), Classified::NetworkRule));
    assert!(matches!(class_of("# note", &cfg), Classified::NetworkRule));
    cfg.localhost = true;
    assert!(matches!(class_of("# note", &cfg), Classified::Comment));
    assert!(matches!(class_of("||example.com^", &cfg), Classified::NotAnEntry));
    match class_of("127.0.0.1   Ads.example.com", &cfg) {
        Classified::LocalhostEntry { ip, host } => {
            assert_eq!(ip.iter().collect::<String>(), "127.0.0.1");
            assert_eq!(host.iter().collect::<String>(), "Ads.example.com");
        }
        _ => panic!("an entry of a hosts file"),
    }
}

#[test]
fn every_scheme_keeps_its_rule() {
    let marks = owned(&["!"]);
    let cfg = config(&marks);
    for rule in ["|javascript:x", "|data:xyz", "|dddata:x", "|about:xy", "|blob:xyz", "|httpxyzz", "||edge-client"] {
        assert!(matches!(class_of(rule, &cfg), Classified::NetworkRule), "{}", rule);
    }
    for rule in ["|javascrip", "||dataxyz", "|ftp:xyzz"] {
        assert!(matches!(class_of(rule, &cfg), Classified::UndottedDomain { .. }), "{}", rule);
    }
    for rule in ["||~xyzzy^", "||a*bcde^", "||[::1]^", "||1.2.3.4^", "||a.b^xxxxx"] {
        assert!(matches!(class_of(rule, &cfg), Classified::NetworkRule), "{}", rule);
    }
    // a rule of seven bytes or fewer is looked at as a short rule first
    assert!(matches!(class_of("|data:x", &cfg), Classified::ShortDomain { .. }));
    for rule in ["||~x^"] {
        assert!(matches!(class_of(rule, &cfg), Classified::NetworkRule), "{}", rule);
    }
}

#[test]
fn every_special_character_is_escaped_in_a_merged_argument() {
    let out = merge_has_text(owned(&[
        "##.x:has-text(\\.+*?()[]{}|^$)",
        "##.x:has-text(plain)",
    ]));
    assert_eq!(out, vec!["##.x:has-text(/\\\\\\.\\+\\*\\?\\(\\)\\[\\]\\{\\}\\|\\^\\$|plain/)"]);
}

#[test]
fn a_wildcard_before_the_exception_mark_takes_two_runs() {
    let marks = owned(&["!"]);
    let cfg = config(&marks);
    let (once, _) = run(&["*@@*x.example"], &cfg);
    assert_eq!(once, vec!["@@*x.example"]);
    let (twice, _) = run(&["@@*x.example"], &cfg);
    assert_eq!(twice, vec!["@@x.example"]);
    let (thrice, _) = run(&["@@x.example"], &cfg);
    assert_eq!(thrice, vec!["@@x.example"]);
}

#[test]
fn a_second_run_over_a_hosts_file_changes_nothing() {
    let marks = owned(&["!"]);
    for (no_sort, keep_empty) in [(false, false), (false, true), (true, false), (true, true)] {
        let mut cfg = config(&marks);
        cfg.localhost = true;
        cfg.no_sort = no_sort;
        cfg.keep_empty_lines = keep_empty;
        let input = [
            "  # hosts  ",
            "127.0.0.1 z.example",
            "0.0.0.0   B.example",
            "0.0.0.0 a.example ",
            "",
            "not an entry",
            "127.0.0.1 z.example",
            "! note",
            "0.0.0.0 b.example",
            "0.0.0.0 a.example",
            "[header]",
            "   ",
            "%include more",
        ];
        let (once, _) = run(&input, &cfg);
        let again_in: Vec<&str> = once.iter().map(|s| s.as_str()).collect();
        let (twice, warnings) = run(&again_in, &cfg);
        assert_eq!(once, twice);
        assert!(warnings.is_empty());
        if !no_sort && !keep_empty {
            assert_eq!(
                once,
                vec![
                    "# hosts",
                    "0.0.0.0 a.example",
                    "0.0.0.0   B.example",
                    "127.0.0.1 z.example",
                    "! note",
                    "0.0.0.0 a.example",
                    "0.0.0.0 b.example",
                    "[header]",
                    "%include more",
                ]
            );
        }
    }
}

#[test]
fn a_second_run_over_the_text_of_a_hosts_file_changes_nothing() {
    let marks = owned(&["!"]);
    let mut cfg = config(&marks);
    cfg.localhost = true;
    for text in [
        "# hosts\r\n127.0.0.1 z.example \r\n0.0.0.0 a.example\r\n\r\njunk\r\n",
        "# hosts\n127.0.0.1 z.example\r\n0.0.0.0 a.example",
        "0.0.0.0 b.example\n0.0.0.0 a.example\n0.0.0.0 b.example\n",
        "junk only\n",
        "",
        "\n\n",
    ] {
        let mut w = Vec::new();
        let once = sort_text(text, &cfg, &mut w);
        let twice = sort_text(&once, &cfg, &mut w);
        assert_eq!(once, twice, "{:?}", text);
    }
    let mut w = Vec::new();
    assert_eq!(
        sort_text("# hosts\r\n127.0.0.1 z.example \r\n0.0.0.0 a.example\r\n\r\njunk\r\n", &cfg, &mut w),
        "# hosts\r\n0.0.0.0 a.example\r\n127.0.0.1 z.example\r\n"
    );
    assert_eq!(w, vec!["Removed invalid localhost entry: junk"]);
}

#[test]
fn a_file_is_left_rewritten_or_compared() {
    let marks = owned(&["!"]);
    let mut cfg = config(&marks);
    let mut w = Vec::new();
    let mut c = SortChanges::new();
    assert!(matches!(sort_file("l.txt", "||a.com^\n||b.com^\n", &cfg, &mut w, &mut c), Outcome::Unchanged));
    match sort_file("l.txt", "||b.com^\n||a.com^\n||b.com^\n", &cfg, &mut w, &mut c) {
        Outcome::Rewritten(text) => assert_eq!(text, "||a.com^\n||b.com^\n"),
        _ => panic!("the file is to be rewritten"),
    }
    assert_eq!(c.duplicates_removed, vec!["||b.com^"]);
    cfg.dry_run = true;
    match sort_file("l.txt", "||b.com^\n||a.com^\n||c.com^\n", &cfg, &mut w, &mut c) {
        Outcome::Difference(diff) => assert_eq!(diff, "--- a/l.txt\n+++ b/l.txt\n@@ -1,2 +1,2 @@\n-||b.com^\n-||a.com^\n+||a.com^\n+||b.com^\n"),
        _ => panic!("the difference is asked for"),
    }
    assert!(matches!(sort_file("l.txt", "", &cfg, &mut w, &mut c), Outcome::Unchanged));
    // a text that differs only in its last line ending is rewritten, though no line differs
    cfg.dry_run = false;
    match sort_file("l.txt", "||a.com^", &cfg, &mut w, &mut c) {
        Outcome::Rewritten(text) => assert_eq!(text, "||a.com^\n"),
        _ => panic!("the file is to be rewritten"),
    }
    assert!(w.is_empty());
}
