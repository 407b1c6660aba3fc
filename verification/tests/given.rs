use fop::checksum::checksum_from;
use fop::classify::{short_domain_of, undotted_domain_of};
use fop::combine::{merge_pair, ELEMENT_DOMAIN_PATTERN, FILTER_DOMAIN_PATTERN};
use fop::cosmetic::{apply_pseudo_step, apply_removal_step, apply_tree_step, set_strings_apart, tidy_selector};
use fop::git::{review_groups, CommentCheck};
use fop::network::filter_from_parts;
use fop::pattern::{group, has_group};
use fop::sections::SortConfig;
use fop::typos::{extra_hash_typo, typo_if_changed};

fn c(s: &str) -> Vec<char> {
    s.chars().collect()
}

fn s(v: &Vec<char>) -> String {
    v.iter().collect()
}

fn groups(items: &[Option<&str>]) -> Vec<Option<String>> {
    items.iter().map(|g| g.map(|t| t.to_string())).collect()
}

fn config(marks: &[String]) -> SortConfig<'_> {
    SortConfig {
        convert_ubo: true,
        no_sort: false,
        alt_sort: false,
        localhost: false,
        comment_chars: marks,
        backup: false,
        keep_empty_lines: false,
        ignore_dot_domains: false,
        disable_domain_limit: false,
        fix_typos: false,
        quiet: false,
        dry_run: false,
    }
}

#[test]
fn groups_that_are_absent_read_as_empty() {
    let g = groups(&[Some("whole"), None, Some("two")]);
    assert_eq!(s(&group(&g, 0)), "whole");
    assert_eq!(s(&group(&g, 1)), "");
    assert_eq!(s(&group(&g, 2)), "two");
    assert_eq!(s(&group(&g, 3)), "");
    assert!(has_group(&g, 0));
    assert!(!has_group(&g, 1));
    assert!(has_group(&g, 2));
    assert!(!has_group(&g, 3));
}

#[test]
fn a_repair_needs_a_change() {
    assert!(typo_if_changed("a", "a".to_string(), "note").is_none());
    let t = typo_if_changed("a", "b".to_string(), "note").unwrap();
    assert_eq!((t.original.as_str(), t.fixed.as_str(), t.description.as_str()), ("a", "b", "note"));
}

#[test]
fn extra_hashes_need_a_run_longer_than_two() {
    let line = "x###.ad";
    assert!(extra_hash_typo(line, &groups(&[Some("x##."), Some("x"), Some("##"), Some(".")]), "y".to_string()).is_none());
    assert!(extra_hash_typo(line, &groups(&[Some("x")]), "y".to_string()).is_none());
    assert!(extra_hash_typo(line, &groups(&[Some("x"), None, None]), "y".to_string()).is_none());
    let t = extra_hash_typo(line, &groups(&[Some("x###."), Some("x"), Some("###"), Some(".")]), "x##.ad".to_string()).unwrap();
    assert_eq!(t.fixed, "x##.ad");
    assert_eq!(t.original, line);
    assert_eq!(t.description, "Extra # (### ? ##)");
}

#[test]
fn tree_step_on_given_groups() {
    let sel = c("@a>b@");
    let none = c("");
    // the match is rewritten where it first occurs
    let g = groups(&[Some("a>b"), Some("a"), Some(">"), Some("b")]);
    assert_eq!(s(&apply_tree_step(sel.clone(), &sel, &none, &g)), "@a > b@");
    // no blank on the left after a parenthesis
    let g = groups(&[Some("(>b"), Some("("), Some(">"), Some("b")]);
    assert_eq!(s(&apply_tree_step(c("@:not(>b)@"), &c("@:not(>b)@"), &none, &g)), "@:not(> b)@");
    // a run of blanks becomes one blank
    let g = groups(&[Some("a   b"), Some("a"), Some(" "), Some("b")]);
    assert_eq!(s(&apply_tree_step(c("@a   b@"), &c("@a   b@"), &none, &g)), "@a b@");
    // nothing happens in a quoted string, after a backslash, or for `~=`
    let g = groups(&[Some("a>b"), Some("a"), Some(">"), Some("b")]);
    assert_eq!(s(&apply_tree_step(sel.clone(), &sel, &c("\"a>b\""), &g)), "@a>b@");
    assert_eq!(s(&apply_tree_step(sel.clone(), &c("@@"), &none, &g)), "@a>b@");
    let g = groups(&[Some("\\>b"), Some("\\"), Some(">"), Some("b")]);
    assert_eq!(s(&apply_tree_step(c("@\\>b@"), &c("@\\>b@"), &none, &g)), "@\\>b@");
    let g = groups(&[Some("\\'>b"), Some("\\'"), Some(">"), Some("b")]);
    assert_eq!(s(&apply_tree_step(c("@\\'>b@"), &c("@\\'>b@"), &none, &g)), "@\\'>b@");
    let g = groups(&[Some("f~="), Some("f"), Some("~"), Some("=")]);
    assert_eq!(s(&apply_tree_step(c("@[f~=x]@"), &c("@[f~=x]@"), &none, &g)), "@[f~=x]@");
    // a match that does not occur in the selector changes nothing
    let g = groups(&[Some("x>y"), Some("x"), Some(">"), Some("y")]);
    assert_eq!(s(&apply_tree_step(sel.clone(), &c("@x>y@"), &none, &g)), "@a>b@");
}

#[test]
fn removal_step_on_given_groups() {
    let none = c("");
    let sel = c("@ *.a@");
    let g = groups(&[Some(" *."), Some(" "), Some("*"), Some("."), None]);
    assert_eq!(s(&apply_removal_step(sel.clone(), &sel, &none, &g)), "@ .a@");
    // the star stays before a pseudo-class that needs it
    let g = groups(&[Some(" *:not("), Some(" "), Some("*"), Some(":"), Some("not(")]);
    assert_eq!(s(&apply_removal_step(c("@ *:not(.a)@"), &c("@ *:not(.a)@"), &none, &g)), "@ *:not(.a)@");
    // what follows counts only behind a colon
    let g = groups(&[Some(" *.not("), Some(" "), Some("*"), Some("."), Some("not(")]);
    assert_eq!(s(&apply_removal_step(c("@ *.not(@"), &c("@ *.not(@"), &none, &g)), "@ .not(@");
    // nothing happens without the star's group, or where a star stands in a string
    let g = groups(&[Some(" *."), Some(" "), None, Some(".")]);
    assert_eq!(s(&apply_removal_step(sel.clone(), &sel, &none, &g)), "@ *.a@");
    let g = groups(&[Some(" *."), Some(" "), Some("*"), Some("."), None]);
    assert_eq!(s(&apply_removal_step(sel.clone(), &sel, &c("'*'"), &g)), "@ *.a@");
    assert_eq!(s(&apply_removal_step(sel.clone(), &c("@ .a@"), &none, &g)), "@ *.a@");
}

#[test]
fn pseudo_step_on_given_groups() {
    let none = c("");
    let sel = c("@a:Hover:Hover@");
    let g = groups(&[Some(":Hover"), Some(":Hover")]);
    assert_eq!(s(&apply_pseudo_step(sel.clone(), &sel, &none, &g)), "@a:hover:Hover@");
    assert_eq!(s(&apply_pseudo_step(sel.clone(), &sel, &c("':Hover'"), &g)), "@a:Hover:Hover@");
    assert_eq!(s(&apply_pseudo_step(sel.clone(), &c("@a@"), &none, &g)), "@a:Hover:Hover@");
}

#[test]
fn quoted_strings_are_set_apart() {
    let (stripped, quoted) = set_strings_apart(&c("@a[x=\"1 > 2\"][y='3']@"));
    assert_eq!(s(&stripped), "@a[x=][y=]@");
    assert_eq!(s(&quoted), "\"1 > 2\"'3'");
    let (stripped, quoted) = set_strings_apart(&c("@a > b@"));
    assert_eq!(s(&stripped), "@a > b@");
    assert_eq!(s(&quoted), "");
    assert_eq!(s(&tidy_selector(&c("a[x=\"1>2\"]>b"))), "a[x=\"1>2\"] > b");
    assert_eq!(s(&tidy_selector(&c(""))), "");
}

#[test]
fn network_rule_from_given_parts() {
    let mut w = Vec::new();
    let r = filter_from_parts(&c("*ads*"), &c("Script,domain=b.com|a.com,image,domain=c.com"), &c("whole"), true, &mut w);
    assert_eq!(s(&r), "ads$image,script,domain=a.com|b.com|c.com");
    assert!(w.is_empty());
    // an empty domain option still gives a domain option
    let r = filter_from_parts(&c("x"), &c("domain="), &c("whole"), true, &mut w);
    assert_eq!(s(&r), "x$domain=");
    let r = filter_from_parts(&c("x"), &c("domain=|a.com||a.com"), &c("whole"), true, &mut w);
    assert_eq!(s(&r), "x$domain=a.com");
    // an option text that the pattern would never give
    let r = filter_from_parts(&c("x"), &c(""), &c("the rule"), true, &mut w);
    assert_eq!(s(&r), "x$");
    assert_eq!(w, vec!["Warning: The option \"\" used on the filter \"the rule\" is not recognised by FOP"]);
}

#[test]
fn merging_a_pair_on_given_groups() {
    let a = "a.com##.ad";
    let ga = groups(&[Some("a.com##"), Some("a.com")]);
    let gb = groups(&[Some("b.com##"), Some("b.com")]);
    assert_eq!(merge_pair(a, &ga, ".ad", &gb, ".ad", ELEMENT_DOMAIN_PATTERN, ',').unwrap(), "a.com,b.com##.ad");
    // what is left of the rules differs
    assert!(merge_pair(a, &ga, ".ad", &gb, ".other", ELEMENT_DOMAIN_PATTERN, ',').is_none());
    // the matches differ in more than the domains
    let gx = groups(&[Some("b.com#@#"), Some("b.com")]);
    assert!(merge_pair(a, &ga, ".ad", &gx, ".ad", ELEMENT_DOMAIN_PATTERN, ',').is_none());
    // a rule without domains
    let ge = groups(&[Some("##"), Some("")]);
    assert!(merge_pair(a, &ga, ".ad", &ge, ".ad", ELEMENT_DOMAIN_PATTERN, ',').is_none());
    assert!(merge_pair("##.ad", &ge, ".ad", &ga, ".ad", ELEMENT_DOMAIN_PATTERN, ',').is_none());
    let gn = groups(&[Some("##")]);
    assert!(merge_pair(a, &ga, ".ad", &gn, ".ad", ELEMENT_DOMAIN_PATTERN, ',').is_none());
    // one includes, the other excludes
    let gt = groups(&[Some("~b.com##"), Some("~b.com")]);
    assert!(merge_pair(a, &ga, ".ad", &gt, ".ad", ELEMENT_DOMAIN_PATTERN, ',').is_none());
    // a list that does both merges with neither kind
    let gm = groups(&[Some("c.com,~d.com##"), Some("c.com,~d.com")]);
    assert!(merge_pair(a, &ga, ".ad", &gm, ".ad", ELEMENT_DOMAIN_PATTERN, ',').is_none());
    assert!(merge_pair("~b.com##.ad", &gt, ".ad", &gm, ".ad", ELEMENT_DOMAIN_PATTERN, ',').is_none());
    // both exclude; the domains come out sorted, each once
    let gu = groups(&[Some("~a.com,~b.com##"), Some("~a.com,~b.com")]);
    assert_eq!(merge_pair("~b.com##.ad", &gt, ".ad", &gu, ".ad", ELEMENT_DOMAIN_PATTERN, ',').unwrap(), "~a.com,~b.com##.ad");
    // network rules, with `|` between the domains and a `$` in the match
    let a = "||x^$image,domain=b.com";
    let ga = groups(&[Some("$image,domain=b.com"), Some("b.com")]);
    let gb = groups(&[Some("$image,domain=a.com|c.com"), Some("a.com|c.com")]);
    assert_eq!(merge_pair(a, &ga, "||x^", &gb, "||x^", FILTER_DOMAIN_PATTERN, '|').unwrap(), "||x^$image,domain=a.com|b.com|c.com");
}

#[test]
fn short_and_undotted_domains_on_given_values() {
    let marks = vec!["!".to_string()];
    let mut cfg = config(&marks);
    let d = |t: &str| Some(c(t));
    assert_eq!(short_domain_of(&c("||ab.c^"), true, d("ab.c"), &cfg), d("ab.c"));
    assert_eq!(short_domain_of(&c("||ab.c^"), false, d("ab.c"), &cfg), None);
    assert_eq!(short_domain_of(&c("||ab.c^"), true, None, &cfg), None);
    assert_eq!(short_domain_of(&c("||abc.d^"), true, d("abc.d"), &cfg), None);
    assert_eq!(short_domain_of(&c("a.sampl"), true, d("a.sampl"), &cfg), None);
    assert_eq!(short_domain_of(&c("éé.é"), true, d("éé.é"), &cfg), d("éé.é"));
    assert_eq!(short_domain_of(&c("éééé"), true, d("éééé"), &cfg), None);

    assert_eq!(undotted_domain_of(&c("||host^"), d("host"), false, &cfg), d("host"));
    assert_eq!(undotted_domain_of(&c("host^"), d("host"), false, &cfg), None);
    assert_eq!(undotted_domain_of(&c("|http"), d("http"), false, &cfg), None);
    assert_eq!(undotted_domain_of(&c("||host^"), None, false, &cfg), None);
    assert_eq!(undotted_domain_of(&c("||host^"), d("host"), true, &cfg), None);
    assert_eq!(undotted_domain_of(&c("||h.st^"), d("h.st"), false, &cfg), None);
    assert_eq!(undotted_domain_of(&c("||h*st^"), d("h*st"), false, &cfg), None);
    assert_eq!(undotted_domain_of(&c("||[host^"), d("[host"), false, &cfg), None);
    assert_eq!(undotted_domain_of(&c("||~host^"), d("~host"), false, &cfg), None);
    cfg.ignore_dot_domains = true;
    assert_eq!(undotted_domain_of(&c("||host^"), d("host"), false, &cfg), None);
    cfg.disable_domain_limit = true;
    assert_eq!(short_domain_of(&c("||ab.c^"), true, d("ab.c"), &cfg), None);
}

#[test]
fn commit_comments_on_given_groups() {
    let g = |tag: &str, rest: &str| Some(groups(&[Some("whole"), Some(tag), None, None, Some(rest)]));
    assert!(matches!(review_groups(&None, true), CommentCheck::Unrecognised));
    assert!(matches!(review_groups(&g("M", "anything"), false), CommentCheck::Accepted));
    assert!(matches!(review_groups(&g("A", "https://x.org/1"), true), CommentCheck::Accepted));
    assert!(matches!(review_groups(&g("P", "about:blank"), true), CommentCheck::Accepted));
    assert!(matches!(review_groups(&g("A", "https://x.org/1"), false), CommentCheck::NoChanges));
    assert!(matches!(review_groups(&g("P", "x.org"), true), CommentCheck::BadAddress(_)));
    assert!(matches!(review_groups(&g("X", "https://x.org/1"), true), CommentCheck::Unrecognised));
    assert!(matches!(review_groups(&Some(groups(&[Some("whole")])), true), CommentCheck::Unrecognised));
}

#[test]
fn padding_goes_from_the_end_only() {
    assert_eq!(checksum_from("abc=="), "abc");
    assert_eq!(checksum_from("a=b="), "a=b");
    assert_eq!(checksum_from("==="), "");
    assert_eq!(checksum_from(""), "");
    assert_eq!(checksum_from("abc"), "abc");
}
