use fop::typos::{check_additions, detect_typo, fix_all_typos, Addition};

#[test]
fn test_extra_hash() {
    let typo = detect_typo("###.ad-banner").unwrap();
    assert_eq!(typo.fixed, "##.ad-banner");

    let typo = detect_typo("example.com###.ad").unwrap();
    assert_eq!(typo.fixed, "example.com##.ad");

    let typo = detect_typo("####.ad").unwrap();
    assert_eq!(typo.fixed, "##.ad");
}

#[test]
fn test_single_hash() {
    let typo = detect_typo("domain#.ad").unwrap();
    assert_eq!(typo.fixed, "domain##.ad");

    let typo = detect_typo("example.com#.banner").unwrap();
    assert_eq!(typo.fixed, "example.com##.banner");

    let typo = detect_typo("domain#[class]").unwrap();
    assert_eq!(typo.fixed, "domain##[class]");
}

#[test]
fn test_double_dot() {
    let typo = detect_typo("##..ad-class").unwrap();
    assert_eq!(typo.fixed, "##.ad-class");
}

#[test]
fn test_double_comma() {
    let typo = detect_typo("example.com,,test.com##.ad").unwrap();
    assert_eq!(typo.fixed, "example.com,test.com##.ad");
}

#[test]
fn test_triple_comma() {
    let typo = detect_typo("a,,,b##.ad").unwrap();
    assert_eq!(typo.fixed, "a,b##.ad");
}

#[test]
fn test_trailing_comma() {
    let typo = detect_typo("example.com,##.ad").unwrap();
    assert_eq!(typo.fixed, "example.com##.ad");
}

#[test]
fn test_leading_comma() {
    let typo = detect_typo(",example.com##.ad").unwrap();
    assert_eq!(typo.fixed, "example.com##.ad");
}

#[test]
fn test_no_typo() {
    assert!(detect_typo("##.ad-banner").is_none());
    assert!(detect_typo("example.com##.ad").is_none());
    assert!(detect_typo("! comment").is_none());
    assert!(detect_typo("||example.com^").is_none());
    assert!(detect_typo("|https://example.com").is_none());
}

#[test]
fn test_fix_all_typos() {
    // Multiple typos: ### and ..
    let (fixed, fixes) = fix_all_typos("###..ad");
    assert_eq!(fixed, "##.ad");
    assert_eq!(fixes.len(), 2);

    // Triple comma + single hash
    let (fixed, fixes) = fix_all_typos("domain,,,b#.ad");
    assert_eq!(fixed, "domain,b##.ad");
    assert_eq!(fixes.len(), 2);
}

#[test]
fn test_extended_selectors_preserved() {
    // These should not be treated as typos
    assert!(detect_typo("domain##.ad:has(.banner)").is_none());
    assert!(detect_typo("domain##+js(aopr, ads)").is_none());
}

#[test]
fn test_triple_dollar() {
    let result = detect_typo("@@||example.com/cc.js$$$domain=asket.com");
    assert!(result.is_some());
    assert_eq!(result.unwrap().fixed, "@@||example.com/cc.js$domain=asket.com");
}

#[test]
fn test_double_dollar() {
    let result = detect_typo("@@||example.com/cc.js$$domain=asket.com");
    assert!(result.is_some());
    assert_eq!(result.unwrap().fixed, "@@||example.com/cc.js$domain=asket.com");

    let result = detect_typo("||example.com/ad.js$$domain=test.com");
    assert!(result.is_some());
    assert_eq!(result.unwrap().fixed, "||example.com/ad.js$domain=test.com");
}

#[test]
fn test_missing_dollar() {
    let result = detect_typo("@@||example.com/cc.jsdomain=asket.com");
    assert!(result.is_some());
    assert_eq!(result.unwrap().fixed, "@@||example.com/cc.js$domain=asket.com");

    // With ^ separator
    let result = detect_typo("@@||example.com/cc.js^domain=asket.com");
    assert!(result.is_some());
    assert_eq!(result.unwrap().fixed, "@@||example.com/cc.js^$domain=asket.com");

    // Valid should not match
    let result = detect_typo("@@||example.com/cc.js$domain=asket.com");
    assert!(result.is_none());

    // No domain after domain= should not match
    let result = detect_typo("@@||example.com/cc.jsdomain=");
    assert!(result.is_none());
}

#[test]
fn test_wrong_cosmetic_separator() {
    // Single pipe
    let result = detect_typo("domain.com|domain2.com##.test");
    assert!(result.is_some());
    assert_eq!(result.unwrap().fixed, "domain.com,domain2.com##.test");

    // Multiple pipes (fix_all_typos handles iteratively)
    let (fixed, _) = fix_all_typos("domain.com|domain2.com|domain3.com##.test");
    assert_eq!(fixed, "domain.com,domain2.com,domain3.com##.test");

    // Mixed separators
    let (fixed, _) = fix_all_typos("domain.com|domain2.com,domain3.com##.test");
    assert_eq!(fixed, "domain.com,domain2.com,domain3.com##.test");

    // With ##+js
    let (fixed, _) = fix_all_typos("domain3.com|domain2.com,domain1.com##+js(nowolf)");
    assert_eq!(fixed, "domain3.com,domain2.com,domain1.com##+js(nowolf)");

    // Valid comma separator should not match
    let result = detect_typo("domain.com,domain2.com##.test");
    assert!(result.is_none());
}

#[test]
fn test_wrong_domain_separator() {
    // Single comma
    let result = detect_typo("||example.com$domain=site1.com,site2.com");
    assert!(result.is_some());
    assert_eq!(result.unwrap().fixed, "||example.com$domain=site1.com|site2.com");

    // Multiple commas (fix_all_typos handles iteratively)
    let (fixed, fixes) = fix_all_typos("||example.com$3p,domain=a.com,b.com,c.com");
    assert_eq!(fixed, "||example.com$3p,domain=a.com|b.com|c.com");
    assert_eq!(fixes.len(), 2);

    // Mixed separators
    let (fixed, _) = fix_all_typos("*.global/$3p,domain=animepahe.si,daddyhd.com|soap2day.day");
    assert_eq!(fixed, "*.global/$3p,domain=animepahe.si|daddyhd.com|soap2day.day");

    // Valid pipe separator should not match
    let result = detect_typo("||example.com$domain=site1.com|site2.com");
    assert!(result.is_none());
}

#[test]
fn typo_records_original_and_description() {
    let typo = detect_typo("####.ad").unwrap();
    assert_eq!(typo.original, "####.ad");
    assert_eq!(typo.description, "Extra # (#### ? ##)");
    let typo = detect_typo("a.com,,b.com##.ad").unwrap();
    assert_eq!(typo.description, "Double comma (,, ? ,)");
    let typo = detect_typo("||x.com/a.js$$domain=b.com").unwrap();
    assert_eq!(typo.description, "Double $ ($$ ? $)");
}

#[test]
fn space_after_comma_is_removed_left_of_the_separator_only() {
    let typo = detect_typo("a.com, b.com##.ad, .banner").unwrap();
    assert_eq!(typo.fixed, "a.com,b.com##.ad, .banner");
    assert_eq!(typo.description, "Space after comma in domain list");
    assert!(detect_typo("a.com,b.com##.ad, .banner").is_none());
    let typo = detect_typo("a.com, b.com, c.com#@#.ad").unwrap();
    assert_eq!(typo.fixed, "a.com,b.com,c.com#@#.ad");
}

#[test]
fn short_lines_comments_and_headers_are_not_checked() {
    assert!(detect_typo("###").is_none());
    assert!(detect_typo("!###.ad").is_none());
    assert!(detect_typo("[###.ad]").is_none());
    assert!(detect_typo("%include ###.ad").is_none());
    assert!(detect_typo("no hash at all,,").is_none());
}

#[test]
fn network_lines_get_no_cosmetic_repair() {
    // starts with `|`, so the cosmetic family is never tried
    assert!(detect_typo("|a.com,,b.com###.ad").is_none());
    assert!(detect_typo("@@###.ad").is_none());
}

#[test]
fn fix_all_typos_is_a_fixed_point_below_the_cap() {
    let (fixed, fixes) = fix_all_typos(",a.com,,b.com,###..ad");
    assert!(fixes.len() < 10);
    assert!(detect_typo(&fixed).is_none());
    let (again, none) = fix_all_typos(&fixed);
    assert_eq!(again, fixed);
    assert!(none.is_empty());
}

#[test]
fn fix_all_typos_stops_at_the_cap() {
    // each round removes one space after one comma run at a time is not the
    // case: one round removes them all, so build a line that needs many rounds
    let line = "a.com|b.com|c.com|d.com|e.com|f.com|g.com|h.com|i.com|j.com|k.com|l.com|m.com##.x";
    let (fixed, fixes) = fix_all_typos(line);
    assert_eq!(fixes.len(), 10);
    assert!(fixed.contains('|'));
    assert!(detect_typo(&fixed).is_some());
}

#[test]
fn check_additions_keeps_order_and_pairs() {
    let adds = vec![
        Addition { file: "a.txt".to_string(), line_num: 1, content: "###.ad".to_string() },
        Addition { file: "a.txt".to_string(), line_num: 2, content: "##.fine".to_string() },
        Addition { file: "b.txt".to_string(), line_num: 7, content: "x.com,,y.com##.ad".to_string() },
    ];
    let found = check_additions(&adds);
    assert_eq!(found.len(), 2);
    assert_eq!(found[0].0.file, "a.txt");
    assert_eq!(found[0].0.line_num, 1);
    assert_eq!(found[0].1.fixed, "##.ad");
    assert_eq!(found[1].0.file, "b.txt");
    assert_eq!(found[1].0.line_num, 7);
    assert_eq!(found[1].0.content, "x.com,,y.com##.ad");
    assert_eq!(found[1].1.fixed, "x.com,y.com##.ad");
    assert!(check_additions(&[]).is_empty());
}

#[test]
fn an_option_after_the_domains_is_not_taken_for_a_domain() {
    assert!(detect_typo("||example.com$domain=a.com,image").is_none());
    assert!(detect_typo("||example.com$domain=a.com,redirect=noop.js").is_none());
    assert!(detect_typo("||example.com$domain=a.com|b.com,third-party").is_none());
    let typo = detect_typo("||example.com$domain=a.com,b.com,image").unwrap();
    assert_eq!(typo.fixed, "||example.com$domain=a.com|b.com,image");
    assert_eq!(typo.description, "Wrong domain separator (, ? |)");
}
