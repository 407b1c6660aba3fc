use fop::combine::{combine_filters, ELEMENT_DOMAIN_PATTERN, FILTER_DOMAIN_PATTERN};
use fop::cosmetic::element_tidy;
use fop::domains::sort_domains;
use fop::network::{convert_ubo_options, filter_tidy, remove_unnecessary_wildcards};

fn owned(items: &[&str]) -> Vec<String> {
    items.iter().map(|s| s.to_string()).collect()
}

#[test]
fn test_remove_unnecessary_wildcards() {
    assert_eq!(remove_unnecessary_wildcards("*example*"), "example");
    assert_eq!(remove_unnecessary_wildcards("**example**"), "example");
    assert_eq!(remove_unnecessary_wildcards("@@*example*"), "@@example");
    assert_eq!(remove_unnecessary_wildcards("*|example"), "*|example");
    assert_eq!(remove_unnecessary_wildcards("example|*"), "example|*");
}

#[test]
fn wildcards_edge_cases() {
    assert_eq!(remove_unnecessary_wildcards("*"), "");
    assert_eq!(remove_unnecessary_wildcards("**"), "");
    assert_eq!(remove_unnecessary_wildcards("@@*"), "@@");
    assert_eq!(remove_unnecessary_wildcards(""), "");
    assert_eq!(remove_unnecessary_wildcards("*/ads/*"), "/ads/*");
    assert_eq!(remove_unnecessary_wildcards("/ads/"), "/ads/");
    assert_eq!(remove_unnecessary_wildcards("*!x"), "*!x");
    assert_eq!(remove_unnecessary_wildcards("x *"), "x *");
    assert_eq!(remove_unnecessary_wildcards("*@@*x"), "@@*x");
}

#[test]
fn test_convert_ubo_options() {
    let input = vec!["xhr".to_string(), "3p".to_string(), "frame".to_string()];
    let expected = vec!["xmlhttprequest", "third-party", "subdocument"];
    let result = convert_ubo_options(input);
    assert_eq!(result, expected);

    let input2 = vec!["from=example.com".to_string()];
    let result2 = convert_ubo_options(input2);
    assert_eq!(result2, vec!["domain=example.com"]);
}

#[test]
fn convert_ubo_options_table() {
    let input = owned(&["~xhr", "css", "~css", "1p", "~1p", "~3p", "~frame", "doc", "ghide", "xml", "~xml", "iframe", "~iframe", "image", "from", "xfrom=a"]);
    let expected = vec!["~xmlhttprequest", "stylesheet", "~stylesheet", "~third-party", "third-party", "~third-party", "~subdocument", "document", "generichide", "xmlhttprequest", "~xmlhttprequest", "subdocument", "~subdocument", "image", "from", "xfrom=a"];
    assert_eq!(convert_ubo_options(input), expected);
}

#[test]
fn test_filter_tidy() {
    let mut warnings = Vec::new();
    // Test option sorting
    let result = filter_tidy("||example.com^$image,script,third-party", true, &mut warnings);
    assert!(result.contains("image"));
    assert!(result.contains("script"));
    assert!(result.contains("third-party"));

    // Test domain sorting
    let result = filter_tidy("||ad.com^$domain=z.com|a.com|m.com", true, &mut warnings);
    assert!(result.contains("domain=a.com|m.com|z.com"));
    assert!(warnings.is_empty());
}

#[test]
fn filter_tidy_exact_forms() {
    let mut w = Vec::new();
    assert_eq!(filter_tidy("||ads.example.com^$image,Script,Third-Party", true, &mut w), "||ads.example.com^$image,script,third-party");
    assert_eq!(filter_tidy("||a.com^$script,image,script", true, &mut w), "||a.com^$image,script");
    assert_eq!(filter_tidy("||a.com^$~image,image,imagex", false, &mut w), "||a.com^$image,~image,imagex");
    assert_eq!(filter_tidy("||a.com^$domain=b.com,image,domain=a.com|b.com", true, &mut w), "||a.com^$image,domain=a.com|b.com");
    assert_eq!(filter_tidy("||a.com^$3p,xhr", true, &mut w), "||a.com^$third-party,xmlhttprequest");
    assert_eq!(filter_tidy("||a.com^$3p,xhr", false, &mut w), "||a.com^$3p,xhr");
    assert_eq!(filter_tidy("||a.com^$from=z.com|a.com", true, &mut w), "||a.com^$domain=a.com|z.com");
    assert_eq!(filter_tidy("||a.com^$Redirect_Rule=No_Op.js", true, &mut w), "||a.com^$redirect-rule=No_Op.js");
    assert_eq!(filter_tidy("*ads*", true, &mut w), "ads");
    assert_eq!(filter_tidy("*ads*$image", true, &mut w), "ads$image");
    assert_eq!(filter_tidy("||a.com^$domain=~b.com|a.com|b.com", true, &mut w), "||a.com^$domain=a.com|b.com|~b.com");
    assert_eq!(w.len(), 1); // imagex
}

#[test]
fn filter_tidy_leaves_regex_options_alone() {
    let mut w = Vec::new();
    let rule = "||example.com$removeparam=/^\\$ja=/,Image";
    assert_eq!(filter_tidy(rule, true, &mut w), rule);
    assert!(w.is_empty());
}

#[test]
fn filter_tidy_warns_of_unknown_options_once_and_keeps_them() {
    let mut w = vec!["earlier".to_string()];
    let r = filter_tidy("||a.com^$zzz,image,zzz,~yyy", true, &mut w);
    assert_eq!(r, "||a.com^$image,~yyy,zzz");
    assert_eq!(w.len(), 3);
    assert_eq!(w[0], "earlier");
    assert_eq!(w[1], "Warning: The option \"~yyy\" used on the filter \"||a.com^$zzz,image,zzz,~yyy\" is not recognised by FOP");
    assert_eq!(w[2], "Warning: The option \"zzz\" used on the filter \"||a.com^$zzz,image,zzz,~yyy\" is not recognised by FOP");
}

#[test]
fn test_sort_domains() {
    let mut domains = vec!["z.com".to_string(), "a.com".to_string(), "~b.com".to_string()];
    sort_domains(&mut domains);
    assert_eq!(domains, vec!["a.com", "~b.com", "z.com"]);
}

#[test]
fn exclusion_sorts_directly_after_its_domain() {
    let mut domains = owned(&["~x.com", "x.coma", "x.com", "~~x.com", "a", ""]);
    sort_domains(&mut domains);
    assert_eq!(domains, vec!["", "a", "x.com", "~x.com", "~~x.com", "x.coma"]);
    let mut again = domains.clone();
    sort_domains(&mut again);
    assert_eq!(again, domains);
    let mut none: Vec<String> = Vec::new();
    sort_domains(&mut none);
    assert!(none.is_empty());
}

#[test]
fn element_tidy_passes_extended_syntax_through() {
    let mut w = Vec::new();
    assert_eq!(element_tidy("Z.com,A.com", "##", "+js(nowoif)", &mut w), "a.com,z.com##+js(nowoif)");
    assert_eq!(element_tidy("a.com", "#$#", "body  >  DIV { display: none!important; }", &mut w), "a.com#$#body  >  DIV { display: none!important; }");
    assert_eq!(element_tidy("a.com", "##", "div:has-text(  Foo >Bar )", &mut w), "a.com##div:has-text(  Foo >Bar )");
    assert_eq!(element_tidy("", "##", "^script:has-text(x)", &mut w), "##^script:has-text(x)");
    assert!(w.is_empty());
}

#[test]
fn element_tidy_domains() {
    let mut w = Vec::new();
    assert_eq!(element_tidy("example.com,abc.com", "##", ".ad", &mut w), "abc.com,example.com##.ad");
    assert_eq!(element_tidy("b.com,a.com,b.com,~a.com", "##", ".ad", &mut w), "a.com,~a.com,b.com##.ad");
    assert_eq!(element_tidy("X", "##", ".ad", &mut w), "x##.ad");
    assert!(w.is_empty());
    assert_eq!(element_tidy("a.com,x,b.c,*,de,~z", "#@#", ".ad", &mut w), "*,a.com,de#@#.ad");
    assert_eq!(w, vec!["Removed invalid domain(s) from cosmetic rule: x, b.c, ~z | Rule: a.com,x,b.c,*,de,~z#@#.ad"]);
}

#[test]
fn element_tidy_selector_spacing() {
    let mut w = Vec::new();
    assert_eq!(element_tidy("", "##", "div>p", &mut w), "##div > p");
    assert_eq!(element_tidy("", "##", "div   >   p", &mut w), "##div > p");
    assert_eq!(element_tidy("", "##", "div    p", &mut w), "##div p");
    assert_eq!(element_tidy("", "##", "div+p", &mut w), "##div + p");
    assert_eq!(element_tidy("", "##", "ul~ol", &mut w), "##ul ~ ol");
    // the right side of one combinator is not read again as the left side of the next
    assert_eq!(element_tidy("", "##", "div+p~span", &mut w), "##div + p~span");
    assert_eq!(element_tidy("", "##", "div+pp~span", &mut w), "##div + pp ~ span");
    assert_eq!(element_tidy("", "##", "a[href~=\"x\"]", &mut w), "##a[href~=\"x\"]");
    assert_eq!(element_tidy("", "##", "a[title=\"a>b\"]>b", &mut w), "##a[title=\"a>b\"] > b");
}

#[test]
fn element_tidy_drops_needless_universal_tag() {
    let mut w = Vec::new();
    assert_eq!(element_tidy("", "##", "*.ad", &mut w), "##.ad");
    assert_eq!(element_tidy("", "##", "div > *.ad", &mut w), "##div > .ad");
    assert_eq!(element_tidy("", "##", "div > *:not(.ad)", &mut w), "##div > *:not(.ad)");
    assert_eq!(element_tidy("", "##", "div > *:first-child", &mut w), "##div > :first-child");
    assert_eq!(element_tidy("", "##", "div > *", &mut w), "##div > *");
}

#[test]
fn element_tidy_lowercases_pseudo_classes() {
    let mut w = Vec::new();
    assert_eq!(element_tidy("", "##", "a:Hover", &mut w), "##a:hover");
    assert_eq!(element_tidy("", "##", "a[title=\":Hover\"]", &mut w), "##a[title=\":Hover\"]");
    assert_eq!(element_tidy("", "##", ".\\31 A:Hover", &mut w), "##.\\31 A:Hover");
    assert_eq!(element_tidy("", "##", ".\\31 0 A:Hover", &mut w), "##.\\31 0 A:hover");
}

#[test]
fn combine_merges_rules_that_differ_in_domains() {
    let r = combine_filters(owned(&["a.com##.ad", "b.com##.ad", "c.com##.ad", "c.com##.other"]), ELEMENT_DOMAIN_PATTERN, ',');
    assert_eq!(r, vec!["a.com,b.com,c.com##.ad", "c.com##.other"]);
    let r = combine_filters(owned(&["||x.com^$domain=b.com", "||x.com^$domain=a.com|b.com", "||x.com^$image,domain=a.com"]), FILTER_DOMAIN_PATTERN, '|');
    assert_eq!(r, vec!["||x.com^$domain=a.com|b.com", "||x.com^$image,domain=a.com"]);
    assert!(combine_filters(Vec::new(), ELEMENT_DOMAIN_PATTERN, ',').is_empty());
    assert_eq!(combine_filters(owned(&["##.ad"]), ELEMENT_DOMAIN_PATTERN, ','), vec!["##.ad"]);
}

#[test]
fn combine_never_mixes_inclusions_and_exclusions() {
    let r = combine_filters(owned(&["a.com##.ad", "~b.com##.ad"]), ELEMENT_DOMAIN_PATTERN, ',');
    assert_eq!(r, vec!["a.com##.ad", "~b.com##.ad"]);
    let r = combine_filters(owned(&["~a.com##.ad", "~b.com##.ad"]), ELEMENT_DOMAIN_PATTERN, ',');
    assert_eq!(r, vec!["~a.com,~b.com##.ad"]);
    let r = combine_filters(owned(&["a.com,~b.com##.ad", "c.com##.ad"]), ELEMENT_DOMAIN_PATTERN, ',');
    assert_eq!(r, vec!["a.com,~b.com##.ad", "c.com##.ad"]);
    let r = combine_filters(owned(&["||x^$domain=a.com", "||x^$domain=~b.com"]), FILTER_DOMAIN_PATTERN, '|');
    assert_eq!(r, vec!["||x^$domain=a.com", "||x^$domain=~b.com"]);
}

#[test]
fn combine_keeps_rules_without_domains_and_with_other_separators() {
    let r = combine_filters(owned(&["##.ad", "##.ad2", "a.com#@#.ad", "b.com##.ad"]), ELEMENT_DOMAIN_PATTERN, ',');
    assert_eq!(r, vec!["##.ad", "##.ad2", "a.com#@#.ad", "b.com##.ad"]);
    let r = combine_filters(owned(&["a.com#@#.ad", "b.com#@#.ad"]), ELEMENT_DOMAIN_PATTERN, ',');
    assert_eq!(r, vec!["a.com,b.com#@#.ad"]);
}

#[test]
fn combine_keeps_a_dollar_in_the_merged_rule() {
    let r = combine_filters(owned(&["||x^$script,domain=b.com", "||x^$script,domain=a.com"]), FILTER_DOMAIN_PATTERN, '|');
    assert_eq!(r, vec!["||x^$script,domain=a.com|b.com"]);
}

#[test]
fn every_mark_of_extended_syntax_stops_the_rewriting() {
    let selectors = [
        "+js(aopr,  X > Y)",
        "^script:HAS-text(a>b)",
        "//scriptlet(abort,  X>Y)",
        "DIV>p:style(color: red)",
        "DIV>p:has-text(x)",
        "DIV>p:has(a)",
        "DIV>p:remove()",
        "DIV>p:remove-attr(x)",
        "DIV>p:remove-class(x)",
        "DIV>p:matches-path(/x)",
        "DIV>p:matches-css(color: red)",
        "DIV>p:matches-media(print)",
        "DIV>p:matches-prop(x)",
        "DIV>p:upward(2)",
        "DIV>p:xpath(//a)",
        "DIV>p:watch-attr(x)",
        "DIV>p:min-text-length(3)",
        "DIV>p:-abp-has(a)",
        "DIV>p:-abp-contains(a)",
        "DIV>p:-abp-properties(a)",
        "DIV>p:others()",
        "DIV>p {remove: true}",
    ];
    let mut w = Vec::new();
    for selector in selectors {
        assert_eq!(element_tidy("b.com,a.com", "##", selector, &mut w), format!("a.com,b.com##{}", selector));
    }
    for separator in ["#$#", "#@$#", "#%#", "#@%#"] {
        assert_eq!(element_tidy("b.com,a.com", separator, "DIV>p", &mut w), format!("a.com,b.com{}DIV>p", separator));
    }
    for separator in ["##", "#@#", "#?#", "#@?#"] {
        assert_eq!(element_tidy("b.com,a.com", separator, "DIV>p", &mut w), format!("a.com,b.com{}DIV > p", separator));
    }
    assert!(w.is_empty());
}

#[test]
fn every_known_option_passes_without_a_warning() {
    let names = [
        "collapse", "csp", "csp=frame-src", "csp=img-src", "csp=media-src", "csp=script-src",
        "csp=worker-src", "document", "elemhide", "font", "genericblock", "generichide", "image",
        "match-case", "media", "object-subrequest", "object", "other", "ping", "popup", "script",
        "stylesheet", "subdocument", "third-party", "webrtc", "websocket", "xmlhttprequest", "xhr",
        "css", "1p", "3p", "frame", "doc", "ghide", "xml", "iframe", "first-party", "strict1p",
        "strict3p", "ehide", "shide", "specifichide", "all", "badfilter", "important", "popunder",
        "empty", "cname", "inline-script", "removeparam", "redirect-rule", "_____", "-----",
        "network", "content", "extension", "jsinject", "stealth", "cookie",
        "rewrite=abp-resource:1x1-transparent-gif", "rewrite=abp-resource:2x2-transparent-png",
        "rewrite=abp-resource:32x32-transparent-png", "rewrite=abp-resource:3x2-transparent-png",
        "rewrite=abp-resource:blank-css", "rewrite=abp-resource:blank-html",
        "rewrite=abp-resource:blank-js", "rewrite=abp-resource:blank-mp3",
        "rewrite=abp-resource:blank-mp4", "rewrite=abp-resource:blank-text",
        "csp=x", "redirect=x", "redirect-rule=x", "rewrite=x", "replace=x", "header=x",
        "permissions=x", "to=x", "from=x", "ipaddress=x", "method=x", "denyallow=x",
        "removeparam=x", "urltransform=x", "responseheader=x", "sitekey=x", "app=x", "urlskip=x",
        "uritransform=x", "reason=x", "addheader=x", "referrerpolicy=x", "cookie=x",
        "removeheader=x", "jsonprune=x", "stealth=x",
    ];
    for name in names {
        let mut w = Vec::new();
        let rule = format!("||a.com^${}", name);
        filter_tidy(&rule, false, &mut w);
        assert!(w.is_empty(), "{}", name);
        let rule = format!("||a.com^$~{}", name);
        filter_tidy(&rule, false, &mut w);
        assert!(w.is_empty(), "~{}", name);
    }
    let mut w = Vec::new();
    for name in ["collapsed", "xcsp", "redirects", "image2", "x"] {
        filter_tidy(&format!("||a.com^${}", name), false, &mut w);
    }
    assert_eq!(w.len(), 5);
}
